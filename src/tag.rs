use vstd::prelude::*;

use crate::codec::{
    bits_i16, bits_i32, bits_i64, bits_i8, bits_of_i16, bits_of_i32, bits_of_i64, bits_of_i8,
    mutf8_encode, mutf8_of, mutf8_text, push_count, push_u16, push_u32, push_u64, count_bytes, u16_bytes, u32_bytes, u64_bytes,
    BYTE_ARRAY_ID, BYTE_ID, COMPOUND_ID, DOUBLE_ID, END_ID, FLOAT_ID, INT_ARRAY_ID, INT_ID,
    LIST_ID, LONG_ARRAY_ID, LONG_ID, SHORT_ID, STRING_ID,
};
use crate::compound::NbtCompound;
use crate::decode::{parse_payload, MAX_DEPTH};
use crate::round_trip::{lemma_tag_round_trip, well_formed};

verus! {

/// The mathematical value of a tag: what a tag tree means, independent of how
/// it is stored. Floating-point payloads are kept as their IEEE-754 bits.
pub enum Tag {
    End,
    Byte(i8),
    Short(i16),
    Int(i32),
    Long(i64),
    Float(u32),
    Double(u64),
    ByteArray(Seq<u8>),
    String(Seq<char>),
    List(Seq<Tag>),
    Compound(Seq<(Seq<char>, Tag)>),
    IntArray(Seq<i32>),
    LongArray(Seq<i64>),
}

/// One value of the format. `Float` and `Double` hold the IEEE-754 bits of the
/// number (`f32::to_bits` / `f64::to_bits`).
#[derive(Debug, PartialEq, PartialOrd)]
pub enum NbtTag {
    End,
    Byte(i8),
    Short(i16),
    Int(i32),
    Long(i64),
    Float(u32),
    Double(u64),
    ByteArray(Vec<u8>),
    String(String),
    List(Vec<NbtTag>),
    Compound(NbtCompound),
    IntArray(Vec<i32>),
    LongArray(Vec<i64>),
}

/// The value of a stored tag.
pub open spec fn tag_view(t: NbtTag) -> Tag
    decreases t,
{
    match t {
        NbtTag::End => Tag::End,
        NbtTag::Byte(v) => Tag::Byte(v),
        NbtTag::Short(v) => Tag::Short(v),
        NbtTag::Int(v) => Tag::Int(v),
        NbtTag::Long(v) => Tag::Long(v),
        NbtTag::Float(v) => Tag::Float(v),
        NbtTag::Double(v) => Tag::Double(v),
        NbtTag::ByteArray(v) => Tag::ByteArray(v@),
        NbtTag::String(s) => Tag::String(s@),
        NbtTag::List(v) => Tag::List(
            Seq::new(v@.len(), |i: int| if 0 <= i < v@.len() { tag_view(v@[i]) } else { Tag::End }),
        ),
        NbtTag::Compound(c) => Tag::Compound(
            Seq::new(
                c.child_tags@.len(),
                |i: int|
                    if 0 <= i < c.child_tags@.len() {
                        (c.child_tags@[i].0@, tag_view(c.child_tags@[i].1))
                    } else {
                        (Seq::empty(), Tag::End)
                    },
            ),
        ),
        NbtTag::IntArray(v) => Tag::IntArray(v@),
        NbtTag::LongArray(v) => Tag::LongArray(v@),
    }
}

impl View for NbtTag {
    type V = Tag;

    open spec fn view(&self) -> Tag {
        tag_view(*self)
    }
}

/// The type id of each kind of tag.
pub open spec fn type_id(t: Tag) -> u8 {
    match t {
        Tag::End => END_ID,
        Tag::Byte(_) => BYTE_ID,
        Tag::Short(_) => SHORT_ID,
        Tag::Int(_) => INT_ID,
        Tag::Long(_) => LONG_ID,
        Tag::Float(_) => FLOAT_ID,
        Tag::Double(_) => DOUBLE_ID,
        Tag::ByteArray(_) => BYTE_ARRAY_ID,
        Tag::String(_) => STRING_ID,
        Tag::List(_) => LIST_ID,
        Tag::Compound(_) => COMPOUND_ID,
        Tag::IntArray(_) => INT_ARRAY_ID,
        Tag::LongArray(_) => LONG_ARRAY_ID,
    }
}

/// The element type id a list declares: that of its first element, or End when empty.
pub open spec fn list_elem_id(items: Seq<Tag>) -> u8 {
    if items.len() == 0 { END_ID } else { type_id(items[0]) }
}

/// A string's bytes on the wire: 16-bit byte length, then modified UTF-8.
pub open spec fn string_bytes(s: Seq<char>) -> Seq<u8> {
    u16_bytes((mutf8_of(s).len() % 0x1_0000) as u16) + mutf8_of(s)
}

pub open spec fn ints_bytes(v: Seq<i32>) -> Seq<u8>
    decreases v.len(),
{
    if v.len() == 0 { Seq::empty() } else { ints_bytes(v.drop_last()) + u32_bytes(bits_i32(v.last())) }
}

pub open spec fn longs_bytes(v: Seq<i64>) -> Seq<u8>
    decreases v.len(),
{
    if v.len() == 0 { Seq::empty() } else { longs_bytes(v.drop_last()) + u64_bytes(bits_i64(v.last())) }
}

/// A tag's payload on the wire: what follows its type id (and name, in a compound).
pub open spec fn payload_bytes(t: Tag) -> Seq<u8>
    decreases t,
{
    match t {
        Tag::End => Seq::empty(),
        Tag::Byte(v) => seq![bits_i8(v)],
        Tag::Short(v) => u16_bytes(bits_i16(v)),
        Tag::Int(v) => u32_bytes(bits_i32(v)),
        Tag::Long(v) => u64_bytes(bits_i64(v)),
        Tag::Float(v) => u32_bytes(v),
        Tag::Double(v) => u64_bytes(v),
        Tag::ByteArray(v) => count_bytes(v.len()) + v,
        Tag::String(s) => string_bytes(s),
        Tag::List(items) => seq![list_elem_id(items)] + count_bytes(items.len()) + items_bytes(items),
        Tag::Compound(entries) => entries_bytes(entries) + seq![END_ID],
        Tag::IntArray(v) => count_bytes(v.len()) + ints_bytes(v),
        Tag::LongArray(v) => count_bytes(v.len()) + longs_bytes(v),
    }
}

/// The payloads of list elements, one after another.
pub open spec fn items_bytes(items: Seq<Tag>) -> Seq<u8>
    decreases items,
{
    if items.len() == 0 {
        Seq::empty()
    } else {
        items_bytes(items.subrange(0, items.len() - 1)) + payload_bytes(items[items.len() - 1])
    }
}

/// One compound entry on the wire: type id, name, payload.
pub open spec fn entry_bytes(e: (Seq<char>, Tag)) -> Seq<u8>
    decreases e,
{
    seq![type_id(e.1)] + string_bytes(e.0) + payload_bytes(e.1)
}

/// Compound entries on the wire, one after another (without the closing End id).
pub open spec fn entries_bytes(entries: Seq<(Seq<char>, Tag)>) -> Seq<u8>
    decreases entries,
{
    if entries.len() == 0 {
        Seq::empty()
    } else {
        entries_bytes(entries.subrange(0, entries.len() - 1)) + entry_bytes(entries[entries.len() - 1])
    }
}

/// A boolean as the `Byte` 0 or 1.
impl From<bool> for NbtTag {
    fn from(v: bool) -> (r: NbtTag)
        ensures
            r == NbtTag::Byte(if v { 1i8 } else { 0i8 }),
    {
        NbtTag::Byte(if v { 1 } else { 0 })
    }
}

impl vstd::std_specs::convert::FromSpecImpl<bool> for NbtTag {
    open spec fn obeys_from_spec() -> bool {
        true
    }

    open spec fn from_spec(v: bool) -> NbtTag {
        NbtTag::Byte(if v { 1i8 } else { 0i8 })
    }
}

impl From<i8> for NbtTag {
    fn from(v: i8) -> (r: NbtTag)
        ensures
            r == NbtTag::Byte(v),
    {
        NbtTag::Byte(v)
    }
}

impl vstd::std_specs::convert::FromSpecImpl<i8> for NbtTag {
    open spec fn obeys_from_spec() -> bool {
        true
    }

    open spec fn from_spec(v: i8) -> NbtTag {
        NbtTag::Byte(v)
    }
}

impl From<i16> for NbtTag {
    fn from(v: i16) -> (r: NbtTag)
        ensures
            r == NbtTag::Short(v),
    {
        NbtTag::Short(v)
    }
}

impl vstd::std_specs::convert::FromSpecImpl<i16> for NbtTag {
    open spec fn obeys_from_spec() -> bool {
        true
    }

    open spec fn from_spec(v: i16) -> NbtTag {
        NbtTag::Short(v)
    }
}

impl From<i32> for NbtTag {
    fn from(v: i32) -> (r: NbtTag)
        ensures
            r == NbtTag::Int(v),
    {
        NbtTag::Int(v)
    }
}

impl vstd::std_specs::convert::FromSpecImpl<i32> for NbtTag {
    open spec fn obeys_from_spec() -> bool {
        true
    }

    open spec fn from_spec(v: i32) -> NbtTag {
        NbtTag::Int(v)
    }
}

impl From<i64> for NbtTag {
    fn from(v: i64) -> (r: NbtTag)
        ensures
            r == NbtTag::Long(v),
    {
        NbtTag::Long(v)
    }
}

impl vstd::std_specs::convert::FromSpecImpl<i64> for NbtTag {
    open spec fn obeys_from_spec() -> bool {
        true
    }

    open spec fn from_spec(v: i64) -> NbtTag {
        NbtTag::Long(v)
    }
}

impl From<Vec<u8>> for NbtTag {
    fn from(v: Vec<u8>) -> (r: NbtTag)
        ensures
            r == NbtTag::ByteArray(v),
    {
        NbtTag::ByteArray(v)
    }
}

impl vstd::std_specs::convert::FromSpecImpl<Vec<u8>> for NbtTag {
    open spec fn obeys_from_spec() -> bool {
        true
    }

    open spec fn from_spec(v: Vec<u8>) -> NbtTag {
        NbtTag::ByteArray(v)
    }
}

impl From<String> for NbtTag {
    fn from(v: String) -> (r: NbtTag)
        ensures
            r == NbtTag::String(v),
    {
        NbtTag::String(v)
    }
}

impl vstd::std_specs::convert::FromSpecImpl<String> for NbtTag {
    open spec fn obeys_from_spec() -> bool {
        true
    }

    open spec fn from_spec(v: String) -> NbtTag {
        NbtTag::String(v)
    }
}

impl From<Vec<NbtTag>> for NbtTag {
    fn from(v: Vec<NbtTag>) -> (r: NbtTag)
        ensures
            r == NbtTag::List(v),
    {
        NbtTag::List(v)
    }
}

impl vstd::std_specs::convert::FromSpecImpl<Vec<NbtTag>> for NbtTag {
    open spec fn obeys_from_spec() -> bool {
        true
    }

    open spec fn from_spec(v: Vec<NbtTag>) -> NbtTag {
        NbtTag::List(v)
    }
}

impl From<NbtCompound> for NbtTag {
    fn from(v: NbtCompound) -> (r: NbtTag)
        ensures
            r == NbtTag::Compound(v),
    {
        NbtTag::Compound(v)
    }
}

impl vstd::std_specs::convert::FromSpecImpl<NbtCompound> for NbtTag {
    open spec fn obeys_from_spec() -> bool {
        true
    }

    open spec fn from_spec(v: NbtCompound) -> NbtTag {
        NbtTag::Compound(v)
    }
}

impl From<Vec<i32>> for NbtTag {
    fn from(v: Vec<i32>) -> (r: NbtTag)
        ensures
            r == NbtTag::IntArray(v),
    {
        NbtTag::IntArray(v)
    }
}

impl vstd::std_specs::convert::FromSpecImpl<Vec<i32>> for NbtTag {
    open spec fn obeys_from_spec() -> bool {
        true
    }

    open spec fn from_spec(v: Vec<i32>) -> NbtTag {
        NbtTag::IntArray(v)
    }
}

impl From<Vec<i64>> for NbtTag {
    fn from(v: Vec<i64>) -> (r: NbtTag)
        ensures
            r == NbtTag::LongArray(v),
    {
        NbtTag::LongArray(v)
    }
}

impl vstd::std_specs::convert::FromSpecImpl<Vec<i64>> for NbtTag {
    open spec fn obeys_from_spec() -> bool {
        true
    }

    open spec fn from_spec(v: Vec<i64>) -> NbtTag {
        NbtTag::LongArray(v)
    }
}

/// Whether the text codec maps every string of the tree (values and compound
/// names) back to itself. Every string that the writers encode has this
/// property (see `write_string`).
pub open spec fn texts_decodable(t: Tag) -> bool
    decreases t,
{
    match t {
        Tag::String(s) => mutf8_text(mutf8_of(s)) == Some(s),
        Tag::List(items) => forall|i: int| 0 <= i < items.len() ==> texts_decodable(#[trigger] items[i]),
        Tag::Compound(es) => forall|i: int|
            0 <= i < es.len() ==> mutf8_text(mutf8_of(#[trigger] es[i].0)) == Some(es[i].0) && texts_decodable(es[i].1),
        _ => true,
    }
}

/// Appends a string as the format stores it: 16-bit byte length, then modified UTF-8
/// bytes. A text longer than 65535 bytes gets the low 16 bits of its length.
pub fn write_string(out: &mut Vec<u8>, s: &str)
    ensures
        final(out)@ == old(out)@ + string_bytes(s@),
        mutf8_text(mutf8_of(s@)) == Some(s@),
{
    let mut enc = mutf8_encode(s);
    let n = enc.len();
    push_u16(out, (n as u64 % 0x1_0000) as u16);
    out.append(&mut enc);
    assert(final(out)@ =~= old(out)@ + string_bytes(s@));
}

pub proof fn lemma_items_bytes_step(items: Seq<Tag>, i: int)
    requires
        0 <= i < items.len(),
    ensures
        items_bytes(items.subrange(0, i + 1)) == items_bytes(items.subrange(0, i)) + payload_bytes(items[i]),
{
    let s = items.subrange(0, i + 1);
    assert(s.subrange(0, s.len() - 1) =~= items.subrange(0, i));
}

pub proof fn lemma_entries_bytes_step(es: Seq<(Seq<char>, Tag)>, i: int)
    requires
        0 <= i < es.len(),
    ensures
        entries_bytes(es.subrange(0, i + 1)) == entries_bytes(es.subrange(0, i)) + entry_bytes(es[i]),
{
    let s = es.subrange(0, i + 1);
    assert(s.subrange(0, s.len() - 1) =~= es.subrange(0, i));
}

impl NbtTag {
    /// The numeric type id of this tag's kind.
    pub fn get_type_id(&self) -> (r: u8)
        ensures
            r == type_id(self@),
    {
        match self {
            NbtTag::End => END_ID,
            NbtTag::Byte(_) => BYTE_ID,
            NbtTag::Short(_) => SHORT_ID,
            NbtTag::Int(_) => INT_ID,
            NbtTag::Long(_) => LONG_ID,
            NbtTag::Float(_) => FLOAT_ID,
            NbtTag::Double(_) => DOUBLE_ID,
            NbtTag::ByteArray(_) => BYTE_ARRAY_ID,
            NbtTag::String(_) => STRING_ID,
            NbtTag::List(_) => LIST_ID,
            NbtTag::Compound(_) => COMPOUND_ID,
            NbtTag::IntArray(_) => INT_ARRAY_ID,
            NbtTag::LongArray(_) => LONG_ARRAY_ID,
        }
    }

    /// Appends this tag's payload (no type id, no name) to `out`.
    pub fn write_payload(&self, out: &mut Vec<u8>)
        ensures
            final(out)@ == old(out)@ + payload_bytes(self@),
            texts_decodable(self@),
        decreases self,
    {
        match self {
            NbtTag::End => {
                assert(final(out)@ =~= old(out)@ + payload_bytes(self@));
            },
            NbtTag::Byte(v) => {
                out.push(bits_of_i8(*v));
                assert(final(out)@ =~= old(out)@ + payload_bytes(self@));
            },
            NbtTag::Short(v) => push_u16(out, bits_of_i16(*v)),
            NbtTag::Int(v) => push_u32(out, bits_of_i32(*v)),
            NbtTag::Long(v) => push_u64(out, bits_of_i64(*v)),
            NbtTag::Float(v) => push_u32(out, *v),
            NbtTag::Double(v) => push_u64(out, *v),
            NbtTag::ByteArray(v) => {
                push_count(out, v.len());
                let ghost mid = out@;
                let mut i: usize = 0;
                while i < v.len()
                    invariant
                        i <= v@.len(),
                        out@ == mid + v@.subrange(0, i as int),
                    decreases v@.len() - i,
                {
                    out.push(v[i]);
                    i = i + 1;
                    assert(out@ =~= mid + v@.subrange(0, i as int));
                }
                assert(v@.subrange(0, v@.len() as int) =~= v@);
                assert(final(out)@ =~= old(out)@ + payload_bytes(self@));
            },
            NbtTag::String(s) => write_string(out, s.as_str()),
            NbtTag::List(list) => {
                let ghost items = self@->List_0;
                let id = if list.len() == 0 { END_ID } else { list[0].get_type_id() };
                out.push(id);
                push_count(out, list.len());
                let ghost mid = out@;
                let mut i: usize = 0;
                while i < list.len()
                    invariant
                        i <= list@.len(),
                        items == self@->List_0,
                        *self == NbtTag::List(*list),
                        items.len() == list@.len(),
                        forall|j: int| 0 <= j < list@.len() ==> #[trigger] items[j] == list@[j]@,
                        out@ == mid + items_bytes(items.subrange(0, i as int)),
                        forall|j: int| 0 <= j < i ==> texts_decodable(#[trigger] items[j]),
                    decreases list@.len() - i,
                {
                    proof {
                        vstd::std_specs::vec::axiom_vec_index_decreases(*list, i as int);
                    }
                    list[i].write_payload(out);
                    proof {
                        lemma_items_bytes_step(items, i as int);
                    }
                    i = i + 1;
                    assert(out@ =~= mid + items_bytes(items.subrange(0, i as int)));
                }
                assert(items.subrange(0, items.len() as int) =~= items);
                assert(final(out)@ =~= old(out)@ + payload_bytes(self@));
            },
            NbtTag::Compound(c) => c.write_content(out),
            NbtTag::IntArray(v) => {
                push_count(out, v.len());
                let ghost mid = out@;
                let mut i: usize = 0;
                while i < v.len()
                    invariant
                        i <= v@.len(),
                        out@ == mid + ints_bytes(v@.subrange(0, i as int)),
                    decreases v@.len() - i,
                {
                    push_u32(out, bits_of_i32(v[i]));
                    i = i + 1;
                    assert(v@.subrange(0, i as int).drop_last() =~= v@.subrange(0, i - 1));
                    assert(out@ =~= mid + ints_bytes(v@.subrange(0, i as int)));
                }
                assert(v@.subrange(0, v@.len() as int) =~= v@);
                assert(final(out)@ =~= old(out)@ + payload_bytes(self@));
            },
            NbtTag::LongArray(v) => {
                push_count(out, v.len());
                let ghost mid = out@;
                let mut i: usize = 0;
                while i < v.len()
                    invariant
                        i <= v@.len(),
                        out@ == mid + longs_bytes(v@.subrange(0, i as int)),
                    decreases v@.len() - i,
                {
                    push_u64(out, bits_of_i64(v[i]));
                    i = i + 1;
                    assert(v@.subrange(0, i as int).drop_last() =~= v@.subrange(0, i - 1));
                    assert(out@ =~= mid + longs_bytes(v@.subrange(0, i as int)));
                }
                assert(v@.subrange(0, v@.len() as int) =~= v@);
                assert(final(out)@ =~= old(out)@ + payload_bytes(self@));
            },
        }
    }

    /// The payload of this tag (no type id, no name).
    pub fn serialize_data(&self) -> (r: Vec<u8>)
        ensures
            r@ == payload_bytes(self@),
            texts_decodable(self@),
            well_formed(self@, MAX_DEPTH as nat) ==> parse_payload(r@, 0, type_id(self@), MAX_DEPTH as nat, false)
                == (Ok::<Tag, crate::error::Error>(self@), r@.len()),
    {
        let mut out = Vec::new();
        self.write_payload(&mut out);
        assert(out@ =~= payload_bytes(self@));
        proof {
            if well_formed(self@, MAX_DEPTH as nat) {
                lemma_tag_round_trip(self@, false);
            }
        }
        out
    }

    /// The type id followed by the payload.
    pub fn serialize(&self) -> (r: Vec<u8>)
        ensures
            r@ == seq![type_id(self@)] + payload_bytes(self@),
            texts_decodable(self@),
    {
        let mut out = Vec::new();
        out.push(self.get_type_id());
        self.write_payload(&mut out);
        assert(out@ =~= seq![type_id(self@)] + payload_bytes(self@));
        out
    }
    /// The value of a `Byte` tag.
    pub fn extract_byte(&self) -> (r: Option<i8>)
        ensures
            r == (match self@ { Tag::Byte(v) => Some(v), _ => None::<i8> }),
    {
        match self {
            NbtTag::Byte(v) => Some(*v),
            _ => None,
        }
    }

    /// The value of a `Short` tag.
    pub fn extract_short(&self) -> (r: Option<i16>)
        ensures
            r == (match self@ { Tag::Short(v) => Some(v), _ => None::<i16> }),
    {
        match self {
            NbtTag::Short(v) => Some(*v),
            _ => None,
        }
    }

    /// The value of an `Int` tag.
    pub fn extract_int(&self) -> (r: Option<i32>)
        ensures
            r == (match self@ { Tag::Int(v) => Some(v), _ => None::<i32> }),
    {
        match self {
            NbtTag::Int(v) => Some(*v),
            _ => None,
        }
    }

    /// The value of a `Long` tag.
    pub fn extract_long(&self) -> (r: Option<i64>)
        ensures
            r == (match self@ { Tag::Long(v) => Some(v), _ => None::<i64> }),
    {
        match self {
            NbtTag::Long(v) => Some(*v),
            _ => None,
        }
    }

    /// The IEEE-754 bits of a `Float` tag (`f32::from_bits` gives the number).
    pub fn extract_float(&self) -> (r: Option<u32>)
        ensures
            r == (match self@ { Tag::Float(v) => Some(v), _ => None::<u32> }),
    {
        match self {
            NbtTag::Float(v) => Some(*v),
            _ => None,
        }
    }

    /// The IEEE-754 bits of a `Double` tag (`f64::from_bits` gives the number).
    pub fn extract_double(&self) -> (r: Option<u64>)
        ensures
            r == (match self@ { Tag::Double(v) => Some(v), _ => None::<u64> }),
    {
        match self {
            NbtTag::Double(v) => Some(*v),
            _ => None,
        }
    }

    /// A `Byte` tag read as a boolean: any nonzero value is `true`.
    pub fn extract_bool(&self) -> (r: Option<bool>)
        ensures
            r == (match self@ { Tag::Byte(v) => Some(v != 0), _ => None::<bool> }),
    {
        match self {
            NbtTag::Byte(v) => Some(*v != 0),
            _ => None,
        }
    }

    /// The bytes of a `ByteArray` tag.
    pub fn extract_byte_array(&self) -> (r: Option<&Vec<u8>>)
        ensures
            r is Some <==> self is ByteArray,
            r matches Some(v) ==> *self == NbtTag::ByteArray(*v),
    {
        match self {
            NbtTag::ByteArray(v) => Some(v),
            _ => None,
        }
    }

    /// The text of a `String` tag.
    pub fn extract_string(&self) -> (r: Option<&String>)
        ensures
            r is Some <==> self is String,
            r matches Some(v) ==> *self == NbtTag::String(*v),
    {
        match self {
            NbtTag::String(v) => Some(v),
            _ => None,
        }
    }

    /// The elements of a `List` tag.
    pub fn extract_list(&self) -> (r: Option<&Vec<NbtTag>>)
        ensures
            r is Some <==> self is List,
            r matches Some(v) ==> *self == NbtTag::List(*v),
    {
        match self {
            NbtTag::List(v) => Some(v),
            _ => None,
        }
    }

    /// The compound of a `Compound` tag.
    pub fn extract_compound(&self) -> (r: Option<&NbtCompound>)
        ensures
            r is Some <==> self is Compound,
            r matches Some(v) ==> *self == NbtTag::Compound(*v),
    {
        match self {
            NbtTag::Compound(v) => Some(v),
            _ => None,
        }
    }

    /// The numbers of an `IntArray` tag.
    pub fn extract_int_array(&self) -> (r: Option<&Vec<i32>>)
        ensures
            r is Some <==> self is IntArray,
            r matches Some(v) ==> *self == NbtTag::IntArray(*v),
    {
        match self {
            NbtTag::IntArray(v) => Some(v),
            _ => None,
        }
    }

    /// The numbers of a `LongArray` tag.
    pub fn extract_long_array(&self) -> (r: Option<&Vec<i64>>)
        ensures
            r is Some <==> self is LongArray,
            r matches Some(v) ==> *self == NbtTag::LongArray(*v),
    {
        match self {
            NbtTag::LongArray(v) => Some(v),
            _ => None,
        }
    }
}

} // verus!