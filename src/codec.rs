use vstd::prelude::*;

use crate::slice_cursor::{be_u16_of, be_u32_of, be_u64_of, i16_of, i32_of, i64_of, i8_of};

verus! {

pub const END_ID: u8 = 0;
pub const BYTE_ID: u8 = 1;
pub const SHORT_ID: u8 = 2;
pub const INT_ID: u8 = 3;
pub const LONG_ID: u8 = 4;
pub const FLOAT_ID: u8 = 5;
pub const DOUBLE_ID: u8 = 6;
pub const BYTE_ARRAY_ID: u8 = 7;
pub const STRING_ID: u8 = 8;
pub const LIST_ID: u8 = 9;
pub const COMPOUND_ID: u8 = 10;
pub const INT_ARRAY_ID: u8 = 11;
pub const LONG_ARRAY_ID: u8 = 12;

/// Big-endian bytes of a `u16`.
pub open spec fn u16_bytes(x: u16) -> Seq<u8> {
    seq![(x / 0x100) as u8, (x % 0x100) as u8]
}

/// Big-endian bytes of a `u32`.
pub open spec fn u32_bytes(x: u32) -> Seq<u8> {
    seq![(x / 0x100_0000) as u8, (x / 0x1_0000 % 0x100) as u8, (x / 0x100 % 0x100) as u8, (x % 0x100) as u8]
}

/// Big-endian bytes of a `u64`.
pub open spec fn u64_bytes(x: u64) -> Seq<u8> {
    u32_bytes((x / 0x1_0000_0000) as u32) + u32_bytes((x % 0x1_0000_0000) as u32)
}

/// Two's-complement bits of an `i8`.
pub open spec fn bits_i8(x: i8) -> u8 {
    (if x < 0 { x + 0x100 } else { x as int }) as u8
}

/// Two's-complement bits of an `i16`.
pub open spec fn bits_i16(x: i16) -> u16 {
    (if x < 0 { x + 0x1_0000 } else { x as int }) as u16
}

/// Two's-complement bits of an `i32`.
pub open spec fn bits_i32(x: i32) -> u32 {
    (if x < 0 { x + 0x1_0000_0000 } else { x as int }) as u32
}

/// Two's-complement bits of an `i64`.
pub open spec fn bits_i64(x: i64) -> u64 {
    (if x < 0 { x + 0x1_0000_0000_0000_0000 } else { x as int }) as u64
}

/// The 32-bit length prefix written for a count: its low 32 bits, big-endian.
pub open spec fn count_bytes(n: nat) -> Seq<u8> {
    u32_bytes((n % 0x1_0000_0000) as u32)
}

pub proof fn lemma_u16_round_trip(x: u16)
    ensures
        be_u16_of(u16_bytes(x)) == x,
{
}

pub proof fn lemma_u16_bytes_of(b: Seq<u8>)
    requires
        b.len() == 2,
    ensures
        u16_bytes(be_u16_of(b)) == b,
{
    assert(u16_bytes(be_u16_of(b)) =~= b);
}

pub proof fn lemma_u32_round_trip(x: u32)
    ensures
        be_u32_of(u32_bytes(x)) == x,
{
}

pub proof fn lemma_u64_round_trip(x: u64)
    ensures
        be_u64_of(u64_bytes(x)) == x,
{
    let b = u64_bytes(x);
    assert(b.subrange(0, 4) =~= u32_bytes((x / 0x1_0000_0000) as u32));
    assert(b.subrange(4, 8) =~= u32_bytes((x % 0x1_0000_0000) as u32));
    lemma_u32_round_trip((x / 0x1_0000_0000) as u32);
    lemma_u32_round_trip((x % 0x1_0000_0000) as u32);
}

pub proof fn lemma_signed_round_trips(a: i8, b: i16, c: i32, d: i64)
    ensures
        i8_of(bits_i8(a)) == a,
        i16_of(bits_i16(b)) == b,
        i32_of(bits_i32(c)) == c,
        i64_of(bits_i64(d)) == d,
{
}

/// Appends the big-endian bytes of `x`.
pub fn push_u16(out: &mut Vec<u8>, x: u16)
    ensures
        final(out)@ == old(out)@ + u16_bytes(x),
{
    out.push((x / 0x100) as u8);
    out.push((x % 0x100) as u8);
    assert(final(out)@ =~= old(out)@ + u16_bytes(x));
}

/// Appends the big-endian bytes of `x`.
pub fn push_u32(out: &mut Vec<u8>, x: u32)
    ensures
        final(out)@ == old(out)@ + u32_bytes(x),
{
    out.push((x / 0x100_0000) as u8);
    out.push((x / 0x1_0000 % 0x100) as u8);
    out.push((x / 0x100 % 0x100) as u8);
    out.push((x % 0x100) as u8);
    assert(final(out)@ =~= old(out)@ + u32_bytes(x));
}

/// Appends the big-endian bytes of `x`.
pub fn push_u64(out: &mut Vec<u8>, x: u64)
    ensures
        final(out)@ == old(out)@ + u64_bytes(x),
{
    push_u32(out, (x / 0x1_0000_0000) as u32);
    push_u32(out, (x % 0x1_0000_0000) as u32);
    assert(final(out)@ =~= old(out)@ + u64_bytes(x));
}

pub fn bits_of_i8(x: i8) -> (r: u8)
    ensures
        r == bits_i8(x),
{
    if x < 0 { (x as i16 + 0x100) as u8 } else { x as u8 }
}

pub fn bits_of_i16(x: i16) -> (r: u16)
    ensures
        r == bits_i16(x),
{
    if x < 0 { (x as i32 + 0x1_0000) as u16 } else { x as u16 }
}

pub fn bits_of_i32(x: i32) -> (r: u32)
    ensures
        r == bits_i32(x),
{
    if x < 0 { (x as i64 + 0x1_0000_0000) as u32 } else { x as u32 }
}

pub fn bits_of_i64(x: i64) -> (r: u64)
    ensures
        r == bits_i64(x),
{
    if x < 0 { (x as i128 + 0x1_0000_0000_0000_0000) as u64 } else { x as u64 }
}

/// Appends the 32-bit length prefix for a count of `n`.
pub fn push_count(out: &mut Vec<u8>, n: usize)
    ensures
        final(out)@ == old(out)@ + count_bytes(n as nat),
{
    push_u32(out, (n as u64 % 0x1_0000_0000) as u32);
}

/// What `simd_cesu8::mutf8::encode` makes of a text: its modified UTF-8
/// bytes (Java's form: U+0000 as `C0 80`, supplementary characters as
/// surrogate pairs).
pub uninterp spec fn mutf8_of(s: Seq<char>) -> Seq<u8>;

/// What `simd_cesu8::mutf8::decode_strict` makes of bytes: the text, or `None`
/// when they are not modified UTF-8.
pub uninterp spec fn mutf8_text(b: Seq<u8>) -> Option<Seq<char>>;

/// Whether every character is ASCII other than U+0000.
pub open spec fn plain_ascii(s: Seq<char>) -> bool {
    forall|i: int| 0 <= i < s.len() ==> 0 < #[trigger] (s[i] as u32) < 0x80
}

/// Relies on `simd_cesu8::mutf8::encode`: the bytes depend on the text alone,
/// each character takes one to six bytes, ASCII other than U+0000 is kept as
/// it is, and `simd_cesu8::mutf8::decode_strict` turns the bytes back into the
/// same text.
#[verifier::external_body]
pub(crate) fn mutf8_encode(s: &str) -> (r: Vec<u8>)
    ensures
        r@ == mutf8_of(s@),
        mutf8_text(r@) == Some(s@),
        s@.len() <= r@.len() <= 6 * s@.len(),
        plain_ascii(s@) ==> r@ == Seq::new(s@.len(), |i: int| (s@[i] as u32) as u8),
{
    simd_cesu8::mutf8::encode(s).into_owned()
}

/// Relies on `simd_cesu8::mutf8::decode_strict`: the result depends on the
/// bytes alone, and a decoded text is encoded by `simd_cesu8::mutf8::encode`
/// back to those very bytes.
#[verifier::external_body]
pub(crate) fn mutf8_decode(b: &[u8]) -> (r: Option<String>)
    ensures
        match r {
            Some(s) => mutf8_text(b@) == Some(s@),
            None => mutf8_text(b@) is None,
        },
        r is Some ==> mutf8_of(r->Some_0@) == b@,
{
    match simd_cesu8::mutf8::decode_strict(b) {
        Ok(text) => Some(text.into_owned()),
        Err(_) => None,
    }
}

} // verus!
