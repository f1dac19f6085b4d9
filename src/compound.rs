use vstd::prelude::*;

use crate::codec::END_ID;
use crate::tag::{
    entries_bytes, entry_bytes, lemma_entries_bytes_step, payload_bytes, string_bytes, tag_view,
    texts_decodable, type_id, write_string, NbtTag, Tag,
};
use crate::codec::{mutf8_of, mutf8_text};

verus! {

/// An ordered collection of named tags, written in the order of the vector.
/// Names are unique in every compound that `put`, `from_entries` or a reader
/// built; the round-trip laws ask for it of any other.
#[derive(Debug, PartialEq, PartialOrd, Default)]
pub struct NbtCompound {
    pub child_tags: Vec<(String, NbtTag)>,
}

impl View for NbtCompound {
    type V = Seq<(Seq<char>, Tag)>;

    open spec fn view(&self) -> Seq<(Seq<char>, Tag)> {
        tag_view(NbtTag::Compound(*self))->Compound_0
    }
}

/// Whether no name occurs twice.
pub open spec fn names_unique(es: Seq<(Seq<char>, Tag)>) -> bool {
    forall|i: int, j: int| 0 <= i < j < es.len() ==> es[i].0 != es[j].0
}

/// Whether `name` occurs among the entries.
pub open spec fn has_name(es: Seq<(Seq<char>, Tag)>, name: Seq<char>) -> bool {
    exists|i: int| 0 <= i < es.len() && (#[trigger] es[i]).0 == name
}

/// The entries after inserting `(name, t)`: appended when the name is new,
/// otherwise unchanged (the first entry under a name wins).
pub open spec fn put_entry(es: Seq<(Seq<char>, Tag)>, name: Seq<char>, t: Tag) -> Seq<(Seq<char>, Tag)> {
    if has_name(es, name) { es } else { es.push((name, t)) }
}

/// The entries after putting each of `items` in turn.
pub open spec fn put_all(es: Seq<(Seq<char>, Tag)>, items: Seq<(Seq<char>, Tag)>) -> Seq<(Seq<char>, Tag)>
    decreases items.len(),
{
    if items.len() == 0 {
        es
    } else {
        put_entry(put_all(es, items.drop_last()), items.last().0, items.last().1)
    }
}

/// The value stored under `name`, if any.
pub open spec fn lookup(es: Seq<(Seq<char>, Tag)>, name: Seq<char>) -> Option<Tag>
    decreases es.len(),
{
    if es.len() == 0 {
        None
    } else if es[0].0 == name {
        Some(es[0].1)
    } else {
        lookup(es.drop_first(), name)
    }
}

/// The compound's content on the wire: each entry, then the End id.
pub open spec fn content_bytes(es: Seq<(Seq<char>, Tag)>) -> Seq<u8> {
    entries_bytes(es) + seq![END_ID]
}

proof fn lemma_lookup_push(es: Seq<(Seq<char>, Tag)>, name: Seq<char>, t: Tag)
    requires
        !has_name(es, name),
    ensures
        lookup(es.push((name, t)), name) == Some(t),
    decreases es.len(),
{
    if es.len() > 0 {
        assert(es[0].0 != name);
        let rest = es.drop_first();
        assert(!has_name(rest, name)) by {
            if has_name(rest, name) {
                let j = choose|j: int| 0 <= j < rest.len() && (#[trigger] rest[j]).0 == name;
                assert(es[j + 1].0 == name);
            }
        }
        lemma_lookup_push(rest, name, t);
        assert(es.push((name, t)).drop_first() =~= rest.push((name, t)));
    }
}

/// Putting two values under one name keeps the first: the second put changes
/// nothing, and looking the name up yields the first value (or the value that
/// was already stored under it).
pub proof fn lemma_put_keeps_first(es: Seq<(Seq<char>, Tag)>, name: Seq<char>, a: Tag, b: Tag)
    ensures
        put_entry(put_entry(es, name, a), name, b) == put_entry(es, name, a),
        lookup(put_entry(put_entry(es, name, a), name, b), name) == (if has_name(es, name) {
            lookup(es, name)
        } else {
            Some(a)
        }),
{
    if !has_name(es, name) {
        let es2 = es.push((name, a));
        assert(es2[es.len() as int].0 == name);
        assert(has_name(es2, name));
        lemma_lookup_push(es, name, a);
    }
}

impl NbtCompound {
    /// Each entry of the stored vector, as a value.
    pub proof fn lemma_view_index(&self, i: int)
        requires
            0 <= i < self.child_tags@.len(),
        ensures
            self@.len() == self.child_tags@.len(),
            self@[i] == (self.child_tags@[i].0@, self.child_tags@[i].1@),
    {
    }

    /// An empty compound.
    pub fn new() -> (r: NbtCompound)
        ensures
            r@ == Seq::<(Seq<char>, Tag)>::empty(),
    {
        let r = NbtCompound { child_tags: Vec::new() };
        assert(r@ =~= Seq::<(Seq<char>, Tag)>::empty());
        r
    }

    /// A compound holding `entries` put in order: of entries that share a
    /// name, the first is kept.
    pub fn from_entries(entries: Vec<(String, NbtTag)>) -> (r: NbtCompound)
        ensures
            r@ == put_all(Seq::empty(), NbtCompound { child_tags: entries }@),
    {
        let mut compound = NbtCompound::new();
        compound.extend(entries);
        compound
    }

    /// Puts each of `entries` in order; a name already present keeps its value.
    pub fn extend(&mut self, entries: Vec<(String, NbtTag)>)
        ensures
            final(self)@ == put_all(old(self)@, NbtCompound { child_tags: entries }@),
    {
        let ghost items = NbtCompound { child_tags: entries }@;
        let ghost start = self@;
        let mut rest = entries;
        let ghost done: int = 0;
        while rest.len() > 0
            invariant
                0 <= done <= items.len(),
                done + rest@.len() == items.len(),
                forall|j: int| 0 <= j < rest@.len() ==> #[trigger] items[done + j] == (rest@[j].0@, rest@[j].1@),
                self@ == put_all(start, items.subrange(0, done)),
            decreases rest@.len(),
        {
            proof {
                assert(items[done + 0] == (rest@[0].0@, rest@[0].1@));
            }
            let (name, value) = rest.remove(0);
            proof {
                assert(items[done] == (name@, value@));
                assert(items.subrange(0, done + 1).drop_last() =~= items.subrange(0, done));
            }
            self.put(name, value);
            proof {
                done = done + 1;
                assert forall|j: int| 0 <= j < rest@.len() implies #[trigger] items[done + j] == (rest@[j].0@, rest@[j].1@) by {
                    assert(items[(done - 1) + (j + 1)] == items[done + j]);
                }
            }
        }
        assert(items.subrange(0, done) =~= items);
    }

    /// The content on the wire: entries, then the End id.
    pub fn serialize_content(&self) -> (r: Vec<u8>)
        ensures
            r@ == content_bytes(self@),
            texts_decodable(Tag::Compound(self@)),
    {
        let mut out = Vec::new();
        self.write_content(&mut out);
        assert(out@ =~= content_bytes(self@));
        out
    }

    /// Appends the content (entries, then End id) to `out`.
    pub fn write_content(&self, out: &mut Vec<u8>)
        ensures
            final(out)@ == old(out)@ + content_bytes(self@),
            texts_decodable(Tag::Compound(self@)),
        decreases self,
    {
        let ghost es = self@;
        let ghost mid = out@;
        let mut i: usize = 0;
        while i < self.child_tags.len()
            invariant
                i <= self.child_tags@.len(),
                es == self@,
                es.len() == self.child_tags@.len(),
                forall|j: int| 0 <= j < self.child_tags@.len() ==> #[trigger] es[j] == (self.child_tags@[j].0@, self.child_tags@[j].1@),
                out@ == mid + entries_bytes(es.subrange(0, i as int)),
                forall|j: int| 0 <= j < i ==> mutf8_text(mutf8_of(#[trigger] es[j].0)) == Some(es[j].0) && texts_decodable(es[j].1),
            decreases self.child_tags@.len() - i,
        {
            let entry = &self.child_tags[i];
            out.push(entry.1.get_type_id());
            write_string(out, entry.0.as_str());
            entry.1.write_payload(out);
            proof {
                lemma_entries_bytes_step(es, i as int);
            }
            i = i + 1;
            assert(out@ =~= mid + entries_bytes(es.subrange(0, i as int)));
        }
        assert(es.subrange(0, es.len() as int) =~= es);
        out.push(END_ID);
        assert(final(out)@ =~= old(out)@ + content_bytes(self@));
    }
    /// Inserts `value` under `name` unless the name is already present, in
    /// which case the compound is left as it was (the first value wins).
    pub fn put(&mut self, name: String, value: NbtTag)
        ensures
            final(self)@ == put_entry(old(self)@, name@, value@),
    {
        let mut i: usize = 0;
        while i < self.child_tags.len()
            invariant
                i <= self.child_tags@.len(),
                *self == *old(self),
                forall|j: int| 0 <= j < i ==> (#[trigger] self.child_tags@[j]).0@ != name@,
            decreases self.child_tags@.len() - i,
        {
            if self.child_tags[i].0 == name {
                proof {
                    self.lemma_view_index(i as int);
                }
                return;
            }
            i = i + 1;
        }
        let ghost old_view = self@;
        let ghost entry = (name@, value@);
        proof {
            assert forall|j: int| 0 <= j < old_view.len() implies (#[trigger] old_view[j]).0 != name@ by {
                self.lemma_view_index(j);
            }
        }
        self.child_tags.push((name, value));
        assert(self@ =~= old_view.push(entry));
    }

    /// The value stored under `name`.
    pub fn get(&self, name: &str) -> (r: Option<&NbtTag>)
        ensures
            match r {
                Some(t) => lookup(self@, name@) == Some(t@),
                None => lookup(self@, name@) is None,
            },
    {
        let key = name.to_owned();
        let mut i: usize = 0;
        assert(self@.subrange(0, self@.len() as int) =~= self@);
        while i < self.child_tags.len()
            invariant
                i <= self.child_tags@.len(),
                key@ == name@,
                lookup(self@, name@) == lookup(self@.subrange(i as int, self@.len() as int), name@),
            decreases self.child_tags@.len() - i,
        {
            proof {
                self.lemma_view_index(i as int);
                let rest = self@.subrange(i as int, self@.len() as int);
                assert(rest.drop_first() =~= self@.subrange(i + 1, self@.len() as int));
            }
            if self.child_tags[i].0 == key {
                return Some(&self.child_tags[i].1);
            }
            i = i + 1;
        }
        None
    }

    pub fn get_byte(&self, name: &str) -> (r: Option<i8>)
        ensures
            r == (match lookup(self@, name@) { Some(Tag::Byte(v)) => Some(v), _ => None::<i8> }),
    {
        match self.get(name) {
            Some(t) => t.extract_byte(),
            None => None,
        }
    }

    pub fn get_short(&self, name: &str) -> (r: Option<i16>)
        ensures
            r == (match lookup(self@, name@) { Some(Tag::Short(v)) => Some(v), _ => None::<i16> }),
    {
        match self.get(name) {
            Some(t) => t.extract_short(),
            None => None,
        }
    }

    pub fn get_int(&self, name: &str) -> (r: Option<i32>)
        ensures
            r == (match lookup(self@, name@) { Some(Tag::Int(v)) => Some(v), _ => None::<i32> }),
    {
        match self.get(name) {
            Some(t) => t.extract_int(),
            None => None,
        }
    }

    pub fn get_long(&self, name: &str) -> (r: Option<i64>)
        ensures
            r == (match lookup(self@, name@) { Some(Tag::Long(v)) => Some(v), _ => None::<i64> }),
    {
        match self.get(name) {
            Some(t) => t.extract_long(),
            None => None,
        }
    }

    /// The IEEE-754 bits of the `Float` stored under `name`.
    pub fn get_float(&self, name: &str) -> (r: Option<u32>)
        ensures
            r == (match lookup(self@, name@) { Some(Tag::Float(v)) => Some(v), _ => None::<u32> }),
    {
        match self.get(name) {
            Some(t) => t.extract_float(),
            None => None,
        }
    }

    /// The IEEE-754 bits of the `Double` stored under `name`.
    pub fn get_double(&self, name: &str) -> (r: Option<u64>)
        ensures
            r == (match lookup(self@, name@) { Some(Tag::Double(v)) => Some(v), _ => None::<u64> }),
    {
        match self.get(name) {
            Some(t) => t.extract_double(),
            None => None,
        }
    }

    /// The `Byte` under `name` read as a boolean (nonzero is `true`).
    pub fn get_bool(&self, name: &str) -> (r: Option<bool>)
        ensures
            r == (match lookup(self@, name@) { Some(Tag::Byte(v)) => Some(v != 0), _ => None::<bool> }),
    {
        match self.get(name) {
            Some(t) => t.extract_bool(),
            None => None,
        }
    }

    pub fn get_string(&self, name: &str) -> (r: Option<&String>)
        ensures
            match r {
                Some(s) => lookup(self@, name@) == Some(Tag::String(s@)),
                None => !(lookup(self@, name@) matches Some(Tag::String(_))),
            },
    {
        match self.get(name) {
            Some(t) => t.extract_string(),
            None => None,
        }
    }

    pub fn get_list(&self, name: &str) -> (r: Option<&Vec<NbtTag>>)
        ensures
            match r {
                Some(v) => lookup(self@, name@) == Some(NbtTag::List(*v)@),
                None => !(lookup(self@, name@) matches Some(Tag::List(_))),
            },
    {
        match self.get(name) {
            Some(t) => t.extract_list(),
            None => None,
        }
    }

    pub fn get_compound(&self, name: &str) -> (r: Option<&NbtCompound>)
        ensures
            match r {
                Some(c) => lookup(self@, name@) == Some(Tag::Compound(c@)),
                None => !(lookup(self@, name@) matches Some(Tag::Compound(_))),
            },
    {
        match self.get(name) {
            Some(t) => t.extract_compound(),
            None => None,
        }
    }

    pub fn get_int_array(&self, name: &str) -> (r: Option<&Vec<i32>>)
        ensures
            match r {
                Some(v) => lookup(self@, name@) == Some(Tag::IntArray(v@)),
                None => !(lookup(self@, name@) matches Some(Tag::IntArray(_))),
            },
    {
        match self.get(name) {
            Some(t) => t.extract_int_array(),
            None => None,
        }
    }

    pub fn get_long_array(&self, name: &str) -> (r: Option<&Vec<i64>>)
        ensures
            match r {
                Some(v) => lookup(self@, name@) == Some(Tag::LongArray(v@)),
                None => !(lookup(self@, name@) matches Some(Tag::LongArray(_))),
            },
    {
        match self.get(name) {
            Some(t) => t.extract_long_array(),
            None => None,
        }
    }
}

} // verus!