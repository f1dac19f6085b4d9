use vstd::prelude::*;

use crate::codec::{
    bits_i32, bits_i64, mutf8_of, mutf8_text, count_bytes, lemma_signed_round_trips, lemma_u16_round_trip,
    lemma_u32_round_trip, lemma_u64_round_trip, u16_bytes, u32_bytes, u64_bytes, COMPOUND_ID, END_ID,
};
use crate::compound::{has_name, names_unique, put_entry};
use crate::decode::{
    ints_of, longs_of, parse_count, parse_entries, parse_items, parse_payload, parse_string, take, MAX_DEPTH,
};
use crate::nbt::{document_bytes, parse_document};
use crate::slice_cursor::{be_u16_of, be_u32_of, be_u64_of, i32_of};
use crate::tag::{
    entries_bytes, entry_bytes, ints_bytes, items_bytes, list_elem_id, longs_bytes, payload_bytes, string_bytes,
    texts_decodable, type_id, Tag,
};

verus! {

/// Whether a tree can be written and read back unchanged: every length fits its
/// prefix (strings in 16 bits, arrays and lists in 31), list elements share
/// the list's element type, compound names are unique and no compound entry is
/// an End tag, and lists and compounds nest at most `depth` deep.
pub open spec fn well_formed(t: Tag, depth: nat) -> bool
    decreases t,
{
    match t {
        Tag::ByteArray(v) => v.len() <= 0x7fff_ffff,
        Tag::String(s) => mutf8_of(s).len() <= 0xffff,
        Tag::List(items) => depth > 0 && items.len() <= 0x7fff_ffff && forall|i: int|
            0 <= i < items.len() ==> type_id(#[trigger] items[i]) == list_elem_id(items)
                && well_formed(items[i], (depth - 1) as nat),
        Tag::Compound(es) => depth > 0 && names_unique(es) && forall|i: int|
            0 <= i < es.len() ==> mutf8_of(#[trigger] es[i].0).len() <= 0xffff && !(es[i].1 is End) && well_formed(
                es[i].1,
                (depth - 1) as nat,
            ),
        Tag::IntArray(v) => v.len() <= 0x7fff_ffff,
        Tag::LongArray(v) => v.len() <= 0x7fff_ffff,
        _ => true,
    }
}

/// Whether `b` stands in `d` at `pos`.
pub open spec fn bytes_at(d: Seq<u8>, pos: nat, b: Seq<u8>) -> bool {
    pos + b.len() <= d.len() && d.subrange(pos as int, (pos + b.len()) as int) == b
}

proof fn lemma_bytes_at_split(d: Seq<u8>, pos: nat, a: Seq<u8>, b: Seq<u8>)
    requires
        bytes_at(d, pos, a + b),
    ensures
        bytes_at(d, pos, a),
        bytes_at(d, pos + a.len(), b),
{
    let whole = d.subrange(pos as int, (pos + a.len() + b.len()) as int);
    assert(whole == a + b);
    assert(d.subrange(pos as int, (pos + a.len()) as int) =~= whole.subrange(0, a.len() as int));
    assert(whole.subrange(0, a.len() as int) =~= a);
    assert(d.subrange((pos + a.len()) as int, (pos + a.len() + b.len()) as int) =~= whole.subrange(
        a.len() as int,
        whole.len() as int,
    ));
    assert(whole.subrange(a.len() as int, whole.len() as int) =~= b);
}

proof fn lemma_take(d: Seq<u8>, pos: nat, b: Seq<u8>)
    requires
        bytes_at(d, pos, b),
    ensures
        take(d, pos, b.len() as int) == (Ok::<Seq<u8>, crate::error::Error>(b), pos + b.len()),
{
}

proof fn lemma_string(d: Seq<u8>, pos: nat, s: Seq<char>)
    requires
        bytes_at(d, pos, string_bytes(s)),
        mutf8_of(s).len() <= 0xffff,
        mutf8_text(mutf8_of(s)) == Some(s),
    ensures
        parse_string(d, pos) == (Ok::<Seq<char>, crate::error::Error>(s), pos + string_bytes(s).len()),
{
    let enc = mutf8_of(s);
    let hdr = u16_bytes((enc.len() % 0x1_0000) as u16);
    lemma_bytes_at_split(d, pos, hdr, enc);
    lemma_take(d, pos, hdr);
    lemma_u16_round_trip((enc.len() % 0x1_0000) as u16);
    lemma_take(d, pos + 2, enc);
}

proof fn lemma_count(d: Seq<u8>, pos: nat, n: nat)
    requires
        n <= 0x7fff_ffff,
        bytes_at(d, pos, count_bytes(n)),
    ensures
        parse_count(d, pos) == (Ok::<nat, crate::error::Error>(n), pos + 4),
{
    lemma_take(d, pos, count_bytes(n));
    lemma_u32_round_trip((n % 0x1_0000_0000) as u32);
}

proof fn lemma_ints_bytes(v: Seq<i32>)
    ensures
        ints_bytes(v).len() == 4 * v.len(),
        forall|i: int| 0 <= i < v.len() ==> #[trigger] ints_bytes(v).subrange(4 * i, 4 * i + 4) == u32_bytes(bits_i32(v[i])),
    decreases v.len(),
{
    if v.len() > 0 {
        let p = v.drop_last();
        lemma_ints_bytes(p);
        let b = ints_bytes(v);
        assert forall|i: int| 0 <= i < v.len() implies #[trigger] b.subrange(4 * i, 4 * i + 4) == u32_bytes(bits_i32(v[i])) by {
            if i < p.len() {
                assert(b.subrange(4 * i, 4 * i + 4) =~= ints_bytes(p).subrange(4 * i, 4 * i + 4));
            } else {
                assert(b.subrange(4 * i, 4 * i + 4) =~= u32_bytes(bits_i32(v.last())));
            }
        }
    }
}

proof fn lemma_longs_bytes(v: Seq<i64>)
    ensures
        longs_bytes(v).len() == 8 * v.len(),
        forall|i: int| 0 <= i < v.len() ==> #[trigger] longs_bytes(v).subrange(8 * i, 8 * i + 8) == u64_bytes(bits_i64(v[i])),
    decreases v.len(),
{
    if v.len() > 0 {
        let p = v.drop_last();
        lemma_longs_bytes(p);
        let b = longs_bytes(v);
        assert forall|i: int| 0 <= i < v.len() implies #[trigger] b.subrange(8 * i, 8 * i + 8) == u64_bytes(bits_i64(v[i])) by {
            if i < p.len() {
                assert(b.subrange(8 * i, 8 * i + 8) =~= longs_bytes(p).subrange(8 * i, 8 * i + 8));
            } else {
                assert(b.subrange(8 * i, 8 * i + 8) =~= u64_bytes(bits_i64(v.last())));
            }
        }
    }
}

proof fn lemma_ints_of(v: Seq<i32>)
    ensures
        ints_of(ints_bytes(v), v.len()) == v,
{
    lemma_ints_bytes(v);
    assert forall|i: int| 0 <= i < v.len() implies #[trigger] ints_of(ints_bytes(v), v.len())[i] == v[i] by {
        lemma_u32_round_trip(bits_i32(v[i]));
        lemma_signed_round_trips(0, 0, v[i], 0);
    }
    assert(ints_of(ints_bytes(v), v.len()) =~= v);
}

proof fn lemma_longs_of(v: Seq<i64>)
    ensures
        longs_of(longs_bytes(v), v.len()) == v,
{
    lemma_longs_bytes(v);
    assert forall|i: int| 0 <= i < v.len() implies #[trigger] longs_of(longs_bytes(v), v.len())[i] == v[i] by {
        lemma_u64_round_trip(bits_i64(v[i]));
        lemma_signed_round_trips(0, 0, 0, v[i]);
    }
    assert(longs_of(longs_bytes(v), v.len()) =~= v);
}

/// List payloads read from the front: the first element, then the rest.
proof fn lemma_items_bytes_cons(s: Seq<Tag>)
    requires
        s.len() > 0,
    ensures
        items_bytes(s) == payload_bytes(s[0]) + items_bytes(s.subrange(1, s.len() as int)),
    decreases s.len(),
{
    let rest = s.subrange(1, s.len() as int);
    if s.len() == 1 {
        assert(s.subrange(0, 0) =~= Seq::<Tag>::empty());
        assert(rest =~= Seq::<Tag>::empty());
        let e = payload_bytes(s[0]);
        assert(items_bytes(s.subrange(0, 0)) == Seq::<u8>::empty());
        assert(items_bytes(s) == items_bytes(s.subrange(0, 0)) + e);
        assert(items_bytes(rest) == Seq::<u8>::empty());
        assert(Seq::<u8>::empty() + e =~= e + Seq::<u8>::empty());
    } else {
        let init = s.subrange(0, s.len() - 1);
        lemma_items_bytes_cons(init);
        let x = items_bytes(init.subrange(1, init.len() as int));
        let last = payload_bytes(s[s.len() - 1]);
        assert(init.subrange(1, init.len() as int) =~= rest.subrange(0, rest.len() - 1));
        assert(rest[rest.len() - 1] == s[s.len() - 1]);
        assert(items_bytes(s) == items_bytes(init) + last);
        assert(items_bytes(init) == payload_bytes(s[0]) + x);
        assert(items_bytes(rest) == x + last);
        assert((payload_bytes(s[0]) + x) + last =~= payload_bytes(s[0]) + (x + last));
    }
}

/// Compound entries read from the front: the first entry, then the rest.
#[verifier::rlimit(40)]
proof fn lemma_entries_bytes_cons(s: Seq<(Seq<char>, Tag)>)
    requires
        s.len() > 0,
    ensures
        entries_bytes(s) == entry_bytes(s[0]) + entries_bytes(s.subrange(1, s.len() as int)),
    decreases s.len(),
{
    let rest = s.subrange(1, s.len() as int);
    if s.len() == 1 {
        assert(s.subrange(0, 0) =~= Seq::<(Seq<char>, Tag)>::empty());
        assert(rest =~= Seq::<(Seq<char>, Tag)>::empty());
        let e = entry_bytes(s[0]);
        assert(entries_bytes(s.subrange(0, 0)) == Seq::<u8>::empty());
        assert(entries_bytes(s) == entries_bytes(s.subrange(0, 0)) + e);
        assert(entries_bytes(rest) == Seq::<u8>::empty());
        assert(Seq::<u8>::empty() + e =~= e + Seq::<u8>::empty());
    } else {
        let init = s.subrange(0, s.len() - 1);
        lemma_entries_bytes_cons(init);
        let x = entries_bytes(init.subrange(1, init.len() as int));
        let last = entry_bytes(s[s.len() - 1]);
        assert(init.subrange(1, init.len() as int) =~= rest.subrange(0, rest.len() - 1));
        assert(rest[rest.len() - 1] == s[s.len() - 1]);
        assert(entries_bytes(s) == entries_bytes(init) + last);
        assert(entries_bytes(init) == entry_bytes(s[0]) + x);
        assert(entries_bytes(rest) == x + last);
        assert((entry_bytes(s[0]) + x) + last =~= entry_bytes(s[0]) + (x + last));
    }
}

/// Reading a well-formed tag's payload gives back the tag and stops right after it.
#[verifier::spinoff_prover]
#[verifier::rlimit(60)]
pub proof fn lemma_payload_round_trip(t: Tag, d: Seq<u8>, pos: nat, depth: nat, lenient: bool)
    requires
        well_formed(t, depth),
        texts_decodable(t),
        bytes_at(d, pos, payload_bytes(t)),
    ensures
        parse_payload(d, pos, type_id(t), depth, lenient) == (Ok::<Tag, crate::error::Error>(t), pos + payload_bytes(t).len()),
    decreases t, 0nat,
{
    match t {
        Tag::End => {},
        Tag::Byte(v) => {
            lemma_take(d, pos, payload_bytes(t));
            lemma_signed_round_trips(v, 0, 0, 0);
        },
        Tag::Short(v) => {
            lemma_take(d, pos, payload_bytes(t));
            lemma_u16_round_trip(crate::codec::bits_i16(v));
            lemma_signed_round_trips(0, v, 0, 0);
        },
        Tag::Int(v) => {
            lemma_take(d, pos, payload_bytes(t));
            lemma_u32_round_trip(bits_i32(v));
            lemma_signed_round_trips(0, 0, v, 0);
        },
        Tag::Long(v) => {
            lemma_take(d, pos, payload_bytes(t));
            lemma_u64_round_trip(bits_i64(v));
            lemma_signed_round_trips(0, 0, 0, v);
        },
        Tag::Float(v) => {
            lemma_take(d, pos, payload_bytes(t));
            lemma_u32_round_trip(v);
        },
        Tag::Double(v) => {
            lemma_take(d, pos, payload_bytes(t));
            lemma_u64_round_trip(v);
        },
        Tag::ByteArray(v) => {
            lemma_bytes_at_split(d, pos, count_bytes(v.len()), v);
            lemma_count(d, pos, v.len());
            lemma_take(d, pos + 4, v);
        },
        Tag::String(s) => {
            lemma_string(d, pos, s);
        },
        Tag::List(items) => {
            let hdr = seq![list_elem_id(items)];
            lemma_bytes_at_split(d, pos, hdr + count_bytes(items.len()), items_bytes(items));
            lemma_bytes_at_split(d, pos, hdr, count_bytes(items.len()));
            lemma_take(d, pos, hdr);
            lemma_count(d, pos + 1, items.len());
            assert(items.subrange(0, items.len() as int) =~= items);
            assert(items.subrange(0, 0) =~= Seq::<Tag>::empty());
            lemma_items_round_trip(items, 0, d, pos + 5, depth, lenient);
        },
        Tag::Compound(es) => {
            assert(es.subrange(0, es.len() as int) =~= es);
            assert(es.subrange(0, 0) =~= Seq::<(Seq<char>, Tag)>::empty());
            lemma_entries_round_trip(es, 0, d, pos, depth, lenient);
        },
        Tag::IntArray(v) => {
            lemma_ints_bytes(v);
            lemma_bytes_at_split(d, pos, count_bytes(v.len()), ints_bytes(v));
            lemma_count(d, pos, v.len());
            lemma_take(d, pos + 4, ints_bytes(v));
            lemma_ints_of(v);
        },
        Tag::LongArray(v) => {
            lemma_longs_bytes(v);
            lemma_bytes_at_split(d, pos, count_bytes(v.len()), longs_bytes(v));
            lemma_count(d, pos, v.len());
            lemma_take(d, pos + 4, longs_bytes(v));
            lemma_longs_of(v);
        },
    }
}

proof fn lemma_items_round_trip(items: Seq<Tag>, k: nat, d: Seq<u8>, pos: nat, depth: nat, lenient: bool)
    requires
        k <= items.len(),
        depth > 0,
        forall|i: int| 0 <= i < items.len() ==> type_id(#[trigger] items[i]) == list_elem_id(items)
            && well_formed(items[i], (depth - 1) as nat),
        forall|i: int| 0 <= i < items.len() ==> texts_decodable(#[trigger] items[i]),
        bytes_at(d, pos, items_bytes(items.subrange(k as int, items.len() as int))),
    ensures
        parse_items(d, pos, list_elem_id(items), (items.len() - k) as nat, depth, lenient, items.subrange(0, k as int))
            == (Ok::<Seq<Tag>, crate::error::Error>(items), pos + items_bytes(items.subrange(k as int, items.len() as int)).len()),
    decreases items, items.len() - k,
{
    let n = items.len();
    let sub = items.subrange(k as int, n as int);
    if k == n {
        assert(items.subrange(0, n as int) =~= items);
        assert(sub =~= Seq::<Tag>::empty());
    } else {
        lemma_items_bytes_cons(sub);
        let rest = sub.subrange(1, sub.len() as int);
        assert(rest =~= items.subrange(k as int + 1, n as int));
        assert(sub[0] == items[k as int]);
        lemma_bytes_at_split(d, pos, payload_bytes(items[k as int]), items_bytes(rest));
        lemma_payload_round_trip(items[k as int], d, pos, (depth - 1) as nat, lenient);
        assert(items.subrange(0, k as int).push(items[k as int]) =~= items.subrange(0, k as int + 1));
        lemma_items_round_trip(items, k + 1, d, pos + payload_bytes(items[k as int]).len(), depth, lenient);
    }
}

proof fn lemma_entries_round_trip(es: Seq<(Seq<char>, Tag)>, k: nat, d: Seq<u8>, pos: nat, depth: nat, lenient: bool)
    requires
        k <= es.len(),
        depth > 0,
        names_unique(es),
        forall|i: int| 0 <= i < es.len() ==> mutf8_of(#[trigger] es[i].0).len() <= 0xffff && !(es[i].1 is End) && well_formed(
            es[i].1,
            (depth - 1) as nat,
        ),
        forall|i: int| 0 <= i < es.len() ==> mutf8_text(mutf8_of(#[trigger] es[i].0)) == Some(es[i].0) && texts_decodable(es[i].1),
        bytes_at(d, pos, entries_bytes(es.subrange(k as int, es.len() as int)) + seq![END_ID]),
    ensures
        parse_entries(d, pos, depth, lenient, es.subrange(0, k as int))
            == (Ok::<Seq<(Seq<char>, Tag)>, crate::error::Error>(es), pos + entries_bytes(es.subrange(k as int, es.len() as int)).len() + 1),
    decreases es, es.len() - k,
{
    let n = es.len();
    let sub = es.subrange(k as int, n as int);
    if k == n {
        assert(es.subrange(0, n as int) =~= es);
        assert(sub =~= Seq::<(Seq<char>, Tag)>::empty());
        lemma_bytes_at_split(d, pos, entries_bytes(sub), seq![END_ID]);
        lemma_take(d, pos, seq![END_ID]);
    } else {
        lemma_entries_bytes_cons(sub);
        let rest = sub.subrange(1, sub.len() as int);
        assert(rest =~= es.subrange(k as int + 1, n as int));
        let e = es[k as int];
        assert(sub[0] == e);
        let eb = entry_bytes(e);
        assert(entries_bytes(sub) + seq![END_ID] =~= eb + (entries_bytes(rest) + seq![END_ID]));
        lemma_bytes_at_split(d, pos, eb, entries_bytes(rest) + seq![END_ID]);
        let id = seq![type_id(e.1)];
        lemma_bytes_at_split(d, pos, id + string_bytes(e.0), payload_bytes(e.1));
        lemma_bytes_at_split(d, pos, id, string_bytes(e.0));
        lemma_take(d, pos, id);
        lemma_string(d, pos + 1, e.0);
        let p2 = pos + 1 + string_bytes(e.0).len();
        lemma_payload_round_trip(e.1, d, p2, (depth - 1) as nat, lenient);
        let acc = es.subrange(0, k as int);
        assert(!has_name(acc, e.0)) by {
            if has_name(acc, e.0) {
                let j = choose|j: int| 0 <= j < acc.len() && (#[trigger] acc[j]).0 == e.0;
                assert(es[j].0 == es[k as int].0);
            }
        }
        assert(put_entry(acc, e.0, e.1) =~= es.subrange(0, k as int + 1));
        lemma_entries_round_trip(es, k + 1, d, p2 + payload_bytes(e.1).len(), depth, lenient);
    }
}

/// Round trip of a tag: reading the payload written for a well-formed tag, at
/// the tag's own type id, gives the tag back and consumes exactly the payload,
/// whichever compound policy is used. The texts condition holds of every tag
/// that `NbtTag::serialize_data` has written.
pub proof fn lemma_tag_round_trip(t: Tag, lenient: bool)
    requires
        well_formed(t, MAX_DEPTH as nat),
        texts_decodable(t),
    ensures
        parse_payload(payload_bytes(t), 0, type_id(t), MAX_DEPTH as nat, lenient)
            == (Ok::<Tag, crate::error::Error>(t), payload_bytes(t).len()),
{
    let d = payload_bytes(t);
    assert(d.subrange(0, d.len() as int) =~= d);
    lemma_payload_round_trip(t, d, 0, MAX_DEPTH as nat, lenient);
}

/// Round trip of a document, named or unnamed: reading what was written for a
/// document with a well-formed root compound gives the document back (with an
/// empty name under the unnamed framing). The texts conditions hold of every
/// document that `Nbt::write` or `Nbt::write_unnamed` has written.
#[verifier::spinoff_prover]
#[verifier::rlimit(60)]
pub proof fn lemma_document_round_trip(doc: (Seq<char>, Seq<(Seq<char>, Tag)>), named: bool, lenient: bool)
    requires
        well_formed(Tag::Compound(doc.1), MAX_DEPTH as nat),
        texts_decodable(Tag::Compound(doc.1)),
        named ==> mutf8_of(doc.0).len() <= 0xffff && mutf8_text(mutf8_of(doc.0)) == Some(doc.0),
    ensures
        parse_document(document_bytes(doc, named), named, lenient)
            == Ok::<(Seq<char>, Seq<(Seq<char>, Tag)>), crate::error::Error>(
            if named { doc } else { (Seq::<char>::empty(), doc.1) },
        ),
{
    let d = document_bytes(doc, named);
    let es = doc.1;
    let name_bytes = if named { string_bytes(doc.0) } else { Seq::<u8>::empty() };
    let content = entries_bytes(es) + seq![END_ID];
    assert(d.subrange(0, d.len() as int) =~= d);
    assert(d =~= seq![COMPOUND_ID] + (name_bytes + content));
    lemma_bytes_at_split(d, 0, seq![COMPOUND_ID], name_bytes + content);
    lemma_take(d, 0, seq![COMPOUND_ID]);
    lemma_bytes_at_split(d, 1, name_bytes, content);
    if named {
        lemma_string(d, 1, doc.0);
    }
    assert(es.subrange(0, es.len() as int) =~= es);
    assert(es.subrange(0, 0) =~= Seq::<(Seq<char>, Tag)>::empty());
    lemma_entries_round_trip(es, 0, d, 1 + name_bytes.len(), MAX_DEPTH as nat, lenient);
}

} // verus!
