use vstd::prelude::*;

use crate::codec::{
    mutf8_decode, mutf8_text, lemma_u16_bytes_of, BYTE_ARRAY_ID, BYTE_ID, COMPOUND_ID, DOUBLE_ID, END_ID, FLOAT_ID,
    INT_ARRAY_ID, INT_ID, LIST_ID, LONG_ARRAY_ID, LONG_ID, SHORT_ID, STRING_ID,
};
use crate::compound::{put_entry, NbtCompound};
use crate::error::Error;
use crate::slice_cursor::{be_u16_of, be_u32_of, be_u64_of, i16_of, i32_of, i64_of, i8_of, BinarySliceCursor};
use crate::tag::{string_bytes, tag_view, NbtTag, Tag};

verus! {

/// How many lists and compounds may be nested inside one another when reading.
pub const MAX_DEPTH: usize = 512;

/// The outcome of a read together with the position the cursor is left at.
pub type Step<T> = (Result<T, Error>, nat);

/// Taking `n` bytes at `pos`: the cursor's `read`.
pub open spec fn take(d: Seq<u8>, pos: nat, n: int) -> Step<Seq<u8>> {
    if pos + n <= d.len() {
        (Ok(d.subrange(pos as int, pos + n)), (pos + n) as nat)
    } else {
        (Err(Error::NotEnoughBytes { requested: n as usize, available: (d.len() - pos) as usize }), pos)
    }
}

/// A string: 16-bit big-endian byte length, then modified UTF-8 bytes.
pub open spec fn parse_string(d: Seq<u8>, pos: nat) -> Step<Seq<char>> {
    let (r, p) = take(d, pos, 2);
    match r {
        Err(e) => (Err(e), p),
        Ok(b) => {
            let (r2, p2) = take(d, p, be_u16_of(b) as int);
            match r2 {
                Err(e) => (Err(e), p2),
                Ok(bytes) => match mutf8_text(bytes) {
                    Some(s) => (Ok(s), p2),
                    None => (Err(Error::InvalidJavaString), p2),
                },
            }
        },
    }
}

/// A 32-bit element count; a negative count is an error.
pub open spec fn parse_count(d: Seq<u8>, pos: nat) -> Step<nat> {
    let (r, p) = take(d, pos, 4);
    match r {
        Err(e) => (Err(e), p),
        Ok(b) => {
            let v = i32_of(be_u32_of(b));
            (if v < 0 { Err(Error::NegativeLength(v)) } else { Ok(v as nat) }, p)
        },
    }
}

/// The `i32` values of consecutive 4-byte big-endian groups.
pub open spec fn ints_of(b: Seq<u8>, n: nat) -> Seq<i32> {
    Seq::new(n, |i: int| i32_of(be_u32_of(b.subrange(4 * i, 4 * i + 4))))
}

/// The `i64` values of consecutive 8-byte big-endian groups.
pub open spec fn longs_of(b: Seq<u8>, n: nat) -> Seq<i64> {
    Seq::new(n, |i: int| i64_of(be_u64_of(b.subrange(8 * i, 8 * i + 8))))
}

/// Reads the payload of a tag of type `id` at `pos`. `depth` is how many more
/// lists or compounds may be opened; `lenient` selects the compound policy
/// that keeps what was read before a failing entry.
pub open spec fn parse_payload(d: Seq<u8>, pos: nat, id: u8, depth: nat, lenient: bool) -> Step<Tag>
    decreases depth, 1nat, 0nat,
{
    if id == END_ID {
        (Ok(Tag::End), pos)
    } else if id == BYTE_ID {
        let (r, p) = take(d, pos, 1);
        (match r { Ok(b) => Ok(Tag::Byte(i8_of(b[0]))), Err(e) => Err(e) }, p)
    } else if id == SHORT_ID {
        let (r, p) = take(d, pos, 2);
        (match r { Ok(b) => Ok(Tag::Short(i16_of(be_u16_of(b)))), Err(e) => Err(e) }, p)
    } else if id == INT_ID {
        let (r, p) = take(d, pos, 4);
        (match r { Ok(b) => Ok(Tag::Int(i32_of(be_u32_of(b)))), Err(e) => Err(e) }, p)
    } else if id == LONG_ID {
        let (r, p) = take(d, pos, 8);
        (match r { Ok(b) => Ok(Tag::Long(i64_of(be_u64_of(b)))), Err(e) => Err(e) }, p)
    } else if id == FLOAT_ID {
        let (r, p) = take(d, pos, 4);
        (match r { Ok(b) => Ok(Tag::Float(be_u32_of(b))), Err(e) => Err(e) }, p)
    } else if id == DOUBLE_ID {
        let (r, p) = take(d, pos, 8);
        (match r { Ok(b) => Ok(Tag::Double(be_u64_of(b))), Err(e) => Err(e) }, p)
    } else if id == BYTE_ARRAY_ID {
        let (rn, p) = parse_count(d, pos);
        match rn {
            Err(e) => (Err(e), p),
            Ok(n) => {
                let (r, p2) = take(d, p, n as int);
                (match r { Ok(b) => Ok(Tag::ByteArray(b)), Err(e) => Err(e) }, p2)
            },
        }
    } else if id == STRING_ID {
        let (r, p) = parse_string(d, pos);
        (match r { Ok(s) => Ok(Tag::String(s)), Err(e) => Err(e) }, p)
    } else if id == LIST_ID {
        if depth == 0 {
            (Err(Error::NestingTooDeep { limit: MAX_DEPTH }), pos)
        } else {
            let (ri, p) = take(d, pos, 1);
            match ri {
                Err(e) => (Err(e), p),
                Ok(b) => {
                    let (rn, p2) = parse_count(d, p);
                    match rn {
                        Err(e) => (Err(e), p2),
                        Ok(n) => {
                            let (r, p3) = parse_items(d, p2, b[0], n, depth, lenient, Seq::empty());
                            (match r { Ok(items) => Ok(Tag::List(items)), Err(e) => Err(e) }, p3)
                        },
                    }
                },
            }
        }
    } else if id == COMPOUND_ID {
        if depth == 0 {
            (Err(Error::NestingTooDeep { limit: MAX_DEPTH }), pos)
        } else {
            let (r, p) = parse_entries(d, pos, depth, lenient, Seq::empty());
            (match r { Ok(es) => Ok(Tag::Compound(es)), Err(e) => Err(e) }, p)
        }
    } else if id == INT_ARRAY_ID {
        let (rn, p) = parse_count(d, pos);
        match rn {
            Err(e) => (Err(e), p),
            Ok(n) => {
                let (r, p2) = take(d, p, 4 * n as int);
                (match r { Ok(b) => Ok(Tag::IntArray(ints_of(b, n))), Err(e) => Err(e) }, p2)
            },
        }
    } else if id == LONG_ARRAY_ID {
        let (rn, p) = parse_count(d, pos);
        match rn {
            Err(e) => (Err(e), p),
            Ok(n) => {
                let (r, p2) = take(d, p, 8 * n as int);
                (match r { Ok(b) => Ok(Tag::LongArray(longs_of(b, n))), Err(e) => Err(e) }, p2)
            },
        }
    } else {
        (Err(Error::UnknownTagId(id)), pos)
    }
}

/// Reads `count` more list elements of type `id`, after those in `acc`.
pub open spec fn parse_items(
    d: Seq<u8>,
    pos: nat,
    id: u8,
    count: nat,
    depth: nat,
    lenient: bool,
    acc: Seq<Tag>,
) -> Step<Seq<Tag>>
    decreases depth, 0nat, count,
{
    if count == 0 || depth == 0 {
        (Ok(acc), pos)
    } else {
        let (r, p) = parse_payload(d, pos, id, (depth - 1) as nat, lenient);
        match r {
            Err(e) => (Err(e), p),
            Ok(t) => parse_items(d, p, id, (count - 1) as nat, depth, lenient, acc.push(t)),
        }
    }
}

/// Reads compound entries (type id, name, payload) until the End id, after
/// those in `acc`. A repeated name keeps its first value. In lenient mode the
/// end of the data also ends the compound, and an entry whose payload fails
/// ends it too, keeping what was read before.
pub open spec fn parse_entries(
    d: Seq<u8>,
    pos: nat,
    depth: nat,
    lenient: bool,
    acc: Seq<(Seq<char>, Tag)>,
) -> Step<Seq<(Seq<char>, Tag)>>
    decreases depth, 0nat, d.len() - pos,
{
    if depth == 0 || (lenient && pos >= d.len()) {
        (Ok(acc), pos)
    } else {
        let (ri, p1) = take(d, pos, 1);
        match ri {
            Err(e) => (Err(e), p1),
            Ok(b) => if b[0] == END_ID {
                (Ok(acc), p1)
            } else {
                let (rn, p2) = parse_string(d, p1);
                match rn {
                    Err(e) => (Err(e), p2),
                    Ok(name) => {
                        let (rt, p3) = parse_payload(d, p2, b[0], (depth - 1) as nat, lenient);
                        match rt {
                            Err(e) => if lenient { (Ok(acc), p3) } else { (Err(e), p3) },
                            Ok(t) => if pos < p3 <= d.len() {
                                parse_entries(d, p3, depth, lenient, put_entry(acc, name, t))
                            } else {
                                (Ok(put_entry(acc, name, t)), p3)
                            },
                        }
                    },
                }
            },
        }
    }
}

/// The value of a string read.
pub open spec fn text_result(r: Result<String, Error>) -> Result<Seq<char>, Error> {
    match r {
        Ok(s) => Ok(s@),
        Err(e) => Err(e),
    }
}

/// The value of a tag read.
pub open spec fn tag_result(r: Result<NbtTag, Error>) -> Result<Tag, Error> {
    match r {
        Ok(t) => Ok(t@),
        Err(e) => Err(e),
    }
}

/// The value of a compound read.
pub open spec fn compound_result(r: Result<NbtCompound, Error>) -> Result<Seq<(Seq<char>, Tag)>, Error> {
    match r {
        Ok(c) => Ok(c@),
        Err(e) => Err(e),
    }
}

/// The values of stored list elements.
pub open spec fn list_view(v: Vec<NbtTag>) -> Seq<Tag> {
    tag_view(NbtTag::List(v))->List_0
}

/// Reads a string: 16-bit big-endian byte length, then modified UTF-8 bytes.
pub fn get_nbt_string(c: &mut BinarySliceCursor) -> (r: Result<String, Error>)
    requires
        old(c).wf(),
    ensures
        final(c).wf(),
        final(c).data() == old(c).data(),
        (text_result(r), final(c).pos_spec()) == parse_string(old(c).data(), old(c).pos_spec()),
        final(c).pos_spec() >= old(c).pos_spec(),
        r is Ok ==> string_bytes(r->Ok_0@) == old(c).data().subrange(old(c).pos_spec() as int, final(c).pos_spec() as int),
{
    let ghost h = c.ahead(2);
    let len = c.read_u16_be()?;
    let bytes = c.read(len as usize)?;
    match mutf8_decode(bytes) {
        Some(s) => {
            proof {
                lemma_u16_bytes_of(h);
                let whole = old(c).data().subrange(old(c).pos_spec() as int, c.pos_spec() as int);
                assert(whole =~= h + bytes@);
            }
            Ok(s)
        },
        None => Err(Error::InvalidJavaString),
    }
}

fn i32_from_bits(u: u32) -> (r: i32)
    ensures
        r == i32_of(u),
{
    if u >= 0x8000_0000 { (u as i64 - 0x1_0000_0000) as i32 } else { u as i32 }
}

fn i64_from_bits(u: u64) -> (r: i64)
    ensures
        r == i64_of(u),
{
    if u >= 0x8000_0000_0000_0000 { (u as i128 - 0x1_0000_0000_0000_0000) as i64 } else { u as i64 }
}

/// Reads a 32-bit element count; a negative count is an error.
fn read_count(c: &mut BinarySliceCursor) -> (r: Result<usize, Error>)
    requires
        old(c).wf(),
    ensures
        final(c).wf(),
        final(c).data() == old(c).data(),
        (match r { Ok(n) => Ok(n as nat), Err(e) => Err(e) }, final(c).pos_spec())
            == parse_count(old(c).data(), old(c).pos_spec()),
        final(c).pos_spec() >= old(c).pos_spec(),
        r matches Ok(n) ==> n <= 0x7fff_ffff,
{
    let v = c.read_i32_be()?;
    if v < 0 {
        return Err(Error::NegativeLength(v));
    }
    Ok(v as usize)
}

/// Reads `n` groups of `width` bytes, failing as `read` does when they are not all there.
fn read_groups<'a>(c: &mut BinarySliceCursor<'a>, n: usize, width: u64) -> (r: Result<&'a [u8], Error>)
    requires
        old(c).wf(),
        n <= 0x7fff_ffff,
        width == 4 || width == 8,
    ensures
        final(c).wf(),
        final(c).data() == old(c).data(),
        (match r { Ok(b) => Ok(b@), Err(e) => Err(e) }, final(c).pos_spec())
            == take(old(c).data(), old(c).pos_spec(), width * n),
{
    let need: u64 = n as u64 * width;
    if need > c.remaining_len() as u64 {
        return Err(Error::NotEnoughBytes { requested: need as usize, available: c.remaining_len() });
    }
    c.read(need as usize)
}

impl NbtTag {
    /// Reads the payload of a tag whose type id `tag_id` was read before.
    /// `depth` is how many more lists or compounds may be opened; `lenient`
    /// selects the compound policy that keeps the entries read before a
    /// failing one instead of failing.
    pub fn deserialize_payload(c: &mut BinarySliceCursor, tag_id: u8, depth: usize, lenient: bool) -> (r: Result<NbtTag, Error>)
        requires
            old(c).wf(),
        ensures
            final(c).wf(),
            final(c).data() == old(c).data(),
            (tag_result(r), final(c).pos_spec())
                == parse_payload(old(c).data(), old(c).pos_spec(), tag_id, depth as nat, lenient),
            final(c).pos_spec() >= old(c).pos_spec(),
        decreases depth, 1nat, 0nat,
    {
        let ghost d = c.data();
        let ghost pos0 = c.pos_spec();
        if tag_id == END_ID {
            Ok(NbtTag::End)
        } else if tag_id == BYTE_ID {
            Ok(NbtTag::Byte(c.read_i8()?))
        } else if tag_id == SHORT_ID {
            Ok(NbtTag::Short(c.read_i16_be()?))
        } else if tag_id == INT_ID {
            Ok(NbtTag::Int(c.read_i32_be()?))
        } else if tag_id == LONG_ID {
            Ok(NbtTag::Long(c.read_i64_be()?))
        } else if tag_id == FLOAT_ID {
            Ok(NbtTag::Float(c.read_u32_be()?))
        } else if tag_id == DOUBLE_ID {
            Ok(NbtTag::Double(c.read_u64_be()?))
        } else if tag_id == BYTE_ARRAY_ID {
            let n = read_count(c)?;
            let bytes = c.read(n)?;
            let mut v: Vec<u8> = Vec::new();
            let mut i: usize = 0;
            while i < bytes.len()
                invariant
                    i <= bytes@.len(),
                    v@ == bytes@.subrange(0, i as int),
                decreases bytes@.len() - i,
            {
                v.push(bytes[i]);
                i = i + 1;
                assert(v@ =~= bytes@.subrange(0, i as int));
            }
            assert(bytes@.subrange(0, bytes@.len() as int) =~= bytes@);
            Ok(NbtTag::ByteArray(v))
        } else if tag_id == STRING_ID {
            Ok(NbtTag::String(get_nbt_string(c)?))
        } else if tag_id == LIST_ID {
            if depth == 0 {
                return Err(Error::NestingTooDeep { limit: MAX_DEPTH });
            }
            let elem = c.read_u8()?;
            let n = read_count(c)?;
            let ghost p2 = c.pos_spec();
            let mut items: Vec<NbtTag> = Vec::new();
            let mut i: usize = 0;
            assert(list_view(items) =~= Seq::<Tag>::empty());
            let ghost whole = parse_items(d, p2, elem, n as nat, depth as nat, lenient, Seq::empty());
            assert(parse_payload(d, pos0, tag_id, depth as nat, lenient)
                == (match whole.0 { Ok(items) => Ok(Tag::List(items)), Err(e) => Err(e) }, whole.1));
            while i < n
                invariant
                    parse_payload(d, pos0, tag_id, depth as nat, lenient)
                        == (match whole.0 { Ok(items) => Ok(Tag::List(items)), Err(e) => Err(e) }, whole.1),
                    whole == parse_items(d, p2, elem, n as nat, depth as nat, lenient, Seq::empty()),
                    c.wf(),
                    c.data() == d,
                    d == old(c).data(),
                    pos0 == old(c).pos_spec(),
                    c.pos_spec() >= pos0,
                    depth > 0,
                    i <= n,
                    parse_items(d, p2, elem, n as nat, depth as nat, lenient, Seq::empty())
                        == parse_items(d, c.pos_spec(), elem, (n - i) as nat, depth as nat, lenient, list_view(items)),
                decreases n - i,
            {
                let ghost before_pos = c.pos_spec();
                let t = match NbtTag::deserialize_payload(c, elem, depth - 1, lenient) {
                    Ok(t) => t,
                    Err(e) => {
                        assert(parse_items(d, before_pos, elem, (n - i) as nat, depth as nat, lenient, list_view(items))
                            == (Err::<Seq<Tag>, Error>(e), c.pos_spec()));
                        return Err(e);
                    },
                };
                let ghost before = list_view(items);
                let ghost tv = t@;
                items.push(t);
                assert(list_view(items) =~= before.push(tv));
                i = i + 1;
            }
            Ok(NbtTag::List(items))
        } else if tag_id == COMPOUND_ID {
            if depth == 0 {
                return Err(Error::NestingTooDeep { limit: MAX_DEPTH });
            }
            Ok(NbtTag::Compound(NbtCompound::read_content(c, depth, lenient)?))
        } else if tag_id == INT_ARRAY_ID {
            let n = read_count(c)?;
            let bytes = read_groups(c, n, 4)?;
            let blen = bytes.len();
            let mut v: Vec<i32> = Vec::new();
            let mut i: usize = 0;
            while i < n
                invariant
                    i <= n,
                    n <= 0x7fff_ffff,
                    bytes@.len() == 4 * n,
                    blen == bytes@.len(),
                    v@ == ints_of(bytes@, n as nat).subrange(0, i as int),
                decreases n - i,
            {
                let k = 4 * i;
                let u = bytes[k] as u32 * 0x100_0000 + bytes[k + 1] as u32 * 0x1_0000 + bytes[k + 2] as u32 * 0x100
                    + bytes[k + 3] as u32;
                proof {
                    let g = bytes@.subrange(4 * i, 4 * i + 4);
                    assert(g[0] == bytes@[k as int] && g[1] == bytes@[k + 1] && g[2] == bytes@[k + 2] && g[3] == bytes@[k + 3]);
                }
                v.push(i32_from_bits(u));
                i = i + 1;
                assert(v@ =~= ints_of(bytes@, n as nat).subrange(0, i as int));
            }
            assert(ints_of(bytes@, n as nat).subrange(0, n as int) =~= ints_of(bytes@, n as nat));
            Ok(NbtTag::IntArray(v))
        } else if tag_id == LONG_ARRAY_ID {
            let n = read_count(c)?;
            let bytes = read_groups(c, n, 8)?;
            let blen = bytes.len();
            let mut v: Vec<i64> = Vec::new();
            let mut i: usize = 0;
            while i < n
                invariant
                    i <= n,
                    n <= 0x7fff_ffff,
                    bytes@.len() == 8 * n,
                    blen == bytes@.len(),
                    v@ == longs_of(bytes@, n as nat).subrange(0, i as int),
                decreases n - i,
            {
                let k = 8 * i;
                let hi = bytes[k] as u64 * 0x100_0000 + bytes[k + 1] as u64 * 0x1_0000 + bytes[k + 2] as u64 * 0x100
                    + bytes[k + 3] as u64;
                let lo = bytes[k + 4] as u64 * 0x100_0000 + bytes[k + 5] as u64 * 0x1_0000 + bytes[k + 6] as u64 * 0x100
                    + bytes[k + 7] as u64;
                proof {
                    let g = bytes@.subrange(8 * i, 8 * i + 8);
                    assert(g.subrange(0, 4) =~= bytes@.subrange(k as int, k + 4));
                    assert(g.subrange(4, 8) =~= bytes@.subrange(k + 4, k + 8));
                }
                v.push(i64_from_bits(hi * 0x1_0000_0000 + lo));
                i = i + 1;
                assert(v@ =~= longs_of(bytes@, n as nat).subrange(0, i as int));
            }
            assert(longs_of(bytes@, n as nat).subrange(0, n as int) =~= longs_of(bytes@, n as nat));
            Ok(NbtTag::LongArray(v))
        } else {
            Err(Error::UnknownTagId(tag_id))
        }
    }
}

impl NbtTag {
    /// Reads the payload of a tag of type `tag_id` from the start of `bytes`.
    pub fn deserialize_data(bytes: &[u8], tag_id: u8) -> (r: Result<NbtTag, Error>)
        ensures
            tag_result(r) == parse_payload(bytes@, 0, tag_id, MAX_DEPTH as nat, false).0,
    {
        let mut c = BinarySliceCursor::new(bytes);
        NbtTag::deserialize_payload(&mut c, tag_id, MAX_DEPTH, false)
    }

    /// Reads a type id, then the payload of a tag of that type, from the start of `bytes`.
    pub fn deserialize(bytes: &[u8]) -> (r: Result<NbtTag, Error>)
        ensures
            tag_result(r) == (match take(bytes@, 0, 1).0 {
                Ok(b) => parse_payload(bytes@, 1, b[0], MAX_DEPTH as nat, false).0,
                Err(e) => Err(e),
            }),
    {
        let mut c = BinarySliceCursor::new(bytes);
        let id = c.read_u8()?;
        NbtTag::deserialize_payload(&mut c, id, MAX_DEPTH, false)
    }
}

impl NbtCompound {
    /// Reads compound content (entries until the End id) from `c`; a failing
    /// entry fails the read.
    pub fn deserialize_content(c: &mut BinarySliceCursor) -> (r: Result<NbtCompound, Error>)
        requires
            old(c).wf(),
        ensures
            final(c).wf(),
            final(c).data() == old(c).data(),
            (compound_result(r), final(c).pos_spec())
                == parse_entries(old(c).data(), old(c).pos_spec(), MAX_DEPTH as nat, false, Seq::empty()),
    {
        NbtCompound::read_content(c, MAX_DEPTH, false)
    }

    /// Reads compound content, keeping the entries read before one that fails
    /// and ending at the end of the data.
    pub fn deserialize_content_lenient(c: &mut BinarySliceCursor) -> (r: Result<NbtCompound, Error>)
        requires
            old(c).wf(),
        ensures
            final(c).wf(),
            final(c).data() == old(c).data(),
            (compound_result(r), final(c).pos_spec())
                == parse_entries(old(c).data(), old(c).pos_spec(), MAX_DEPTH as nat, true, Seq::empty()),
    {
        NbtCompound::read_content(c, MAX_DEPTH, true)
    }
}

impl NbtCompound {
    /// Reads compound content: entries until the End id. `depth` must be
    /// positive; entries' payloads are read with `depth - 1`.
    pub fn read_content(c: &mut BinarySliceCursor, depth: usize, lenient: bool) -> (r: Result<NbtCompound, Error>)
        requires
            old(c).wf(),
        ensures
            final(c).wf(),
            final(c).data() == old(c).data(),
            (compound_result(r), final(c).pos_spec())
                == parse_entries(old(c).data(), old(c).pos_spec(), depth as nat, lenient, Seq::empty()),
            final(c).pos_spec() >= old(c).pos_spec(),
        decreases depth, 0nat, 0nat,
    {
        let ghost d = c.data();
        let ghost pos0 = c.pos_spec();
        let mut compound = NbtCompound::new();
        if depth == 0 {
            return Ok(compound);
        }
        loop
            invariant
                c.wf(),
                c.data() == d,
                d == old(c).data(),
                pos0 == old(c).pos_spec(),
                c.pos_spec() >= pos0,
                depth > 0,
                parse_entries(d, pos0, depth as nat, lenient, Seq::empty())
                    == parse_entries(d, c.pos_spec(), depth as nat, lenient, compound@),
            decreases c.remaining(),
        {
            if lenient && !c.has_remaining() {
                return Ok(compound);
            }
            let id = c.read_u8()?;
            if id == END_ID {
                return Ok(compound);
            }
            let name = get_nbt_string(c)?;
            match NbtTag::deserialize_payload(c, id, depth - 1, lenient) {
                Ok(t) => {
                    compound.put(name, t);
                },
                Err(e) => {
                    if lenient {
                        return Ok(compound);
                    }
                    return Err(e);
                },
            }
        }
    }
}

} // verus!
