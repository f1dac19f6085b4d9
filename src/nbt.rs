use vstd::prelude::*;

use crate::codec::COMPOUND_ID;
use crate::compound::{content_bytes, NbtCompound};
use crate::decode::{get_nbt_string, parse_entries, parse_string, take, MAX_DEPTH};
use crate::error::Error;
use crate::slice_cursor::BinarySliceCursor;
use crate::codec::mutf8_of;
use crate::round_trip::{lemma_document_round_trip, well_formed};
use crate::tag::{string_bytes, texts_decodable, write_string, Tag};

verus! {

/// A document: a name (possibly empty) and a root compound.
#[derive(Debug, PartialEq, PartialOrd, Default)]
pub struct Nbt {
    pub name: String,
    pub root_tag: NbtCompound,
}

impl View for Nbt {
    type V = (Seq<char>, Seq<(Seq<char>, Tag)>);

    open spec fn view(&self) -> (Seq<char>, Seq<(Seq<char>, Tag)>) {
        (self.name@, self.root_tag@)
    }
}

/// A document on the wire: the compound id, the name when `named`, then the
/// root compound's content.
pub open spec fn document_bytes(doc: (Seq<char>, Seq<(Seq<char>, Tag)>), named: bool) -> Seq<u8> {
    seq![COMPOUND_ID] + (if named { string_bytes(doc.0) } else { Seq::empty() }) + content_bytes(doc.1)
}

/// Reads a document: the leading id must be the compound id; then the name
/// when `named` (empty otherwise), then the root compound's content. Bytes
/// after the root compound are not read.
pub open spec fn parse_document(d: Seq<u8>, named: bool, lenient: bool) -> Result<(Seq<char>, Seq<(Seq<char>, Tag)>), Error> {
    match take(d, 0, 1).0 {
        Err(e) => Err(e),
        Ok(b) => if b[0] != COMPOUND_ID {
            Err(Error::NoRootCompound(b[0]))
        } else {
            let (rn, p) = if named { parse_string(d, 1) } else { (Ok(Seq::<char>::empty()), 1nat) };
            match rn {
                Err(e) => Err(e),
                Ok(name) => match parse_entries(d, p, MAX_DEPTH as nat, lenient, Seq::empty()).0 {
                    Err(e) => Err(e),
                    Ok(es) => Ok((name, es)),
                },
            }
        },
    }
}

/// The value of a document read.
pub open spec fn nbt_result(r: Result<Nbt, Error>) -> Result<(Seq<char>, Seq<(Seq<char>, Tag)>), Error> {
    match r {
        Ok(n) => Ok(n@),
        Err(e) => Err(e),
    }
}

/// The root compound of a document (its name is dropped).
impl From<Nbt> for NbtCompound {
    fn from(value: Nbt) -> (r: NbtCompound)
        ensures
            r == value.root_tag,
    {
        value.root_tag
    }
}

impl vstd::std_specs::convert::FromSpecImpl<Nbt> for NbtCompound {
    open spec fn obeys_from_spec() -> bool {
        true
    }

    open spec fn from_spec(value: Nbt) -> NbtCompound {
        value.root_tag
    }
}

impl Nbt {
    pub fn new(name: String, tag: NbtCompound) -> (r: Nbt)
        ensures
            r@ == (name@, tag@),
    {
        Nbt { name, root_tag: tag }
    }

    fn read_framed(bytes: &[u8], named: bool, lenient: bool) -> (r: Result<Nbt, Error>)
        ensures
            nbt_result(r) == parse_document(bytes@, named, lenient),
    {
        let mut c = BinarySliceCursor::new(bytes);
        let id = c.read_u8()?;
        if id != COMPOUND_ID {
            return Err(Error::NoRootCompound(id));
        }
        let name = if named { get_nbt_string(&mut c)? } else { String::new() };
        let root_tag = NbtCompound::read_content(&mut c, MAX_DEPTH, lenient)?;
        Ok(Nbt { name, root_tag })
    }

    /// Reads a named document; a failing entry fails the whole read.
    pub fn read(bytes: &[u8]) -> (r: Result<Nbt, Error>)
        ensures
            nbt_result(r) == parse_document(bytes@, true, false),
    {
        Self::read_framed(bytes, true, false)
    }

    /// Reads a document without a root name (network framing); the name is empty.
    pub fn read_unnamed(bytes: &[u8]) -> (r: Result<Nbt, Error>)
        ensures
            nbt_result(r) == parse_document(bytes@, false, false),
    {
        Self::read_framed(bytes, false, false)
    }

    /// Reads a named document, keeping in each compound the entries read
    /// before one that fails, and ending a compound at the end of the data.
    pub fn read_lenient(bytes: &[u8]) -> (r: Result<Nbt, Error>)
        ensures
            nbt_result(r) == parse_document(bytes@, true, true),
    {
        Self::read_framed(bytes, true, true)
    }

    /// [`Self::read_lenient`] for documents without a root name.
    pub fn read_unnamed_lenient(bytes: &[u8]) -> (r: Result<Nbt, Error>)
        ensures
            nbt_result(r) == parse_document(bytes@, false, true),
    {
        Self::read_framed(bytes, false, true)
    }

    /// Writes the document with its name.
    pub fn write(&self) -> (r: Vec<u8>)
        ensures
            r@ == document_bytes(self@, true),
            texts_decodable(Tag::Compound(self.root_tag@)),
            texts_decodable(Tag::String(self.name@)),
            well_formed(Tag::Compound(self.root_tag@), MAX_DEPTH as nat) && mutf8_of(self.name@).len() <= 0xffff
                ==> parse_document(r@, true, false) == Ok::<(Seq<char>, Seq<(Seq<char>, Tag)>), Error>(self@),
    {
        let mut out = Vec::new();
        out.push(COMPOUND_ID);
        write_string(&mut out, self.name.as_str());
        self.root_tag.write_content(&mut out);
        assert(out@ =~= document_bytes(self@, true));
        proof {
            if well_formed(Tag::Compound(self.root_tag@), MAX_DEPTH as nat) && mutf8_of(self.name@).len() <= 0xffff {
                lemma_document_round_trip(self@, true, false);
            }
        }
        out
    }

    /// Writes the document without its name (network framing).
    pub fn write_unnamed(&self) -> (r: Vec<u8>)
        ensures
            r@ == document_bytes(self@, false),
            texts_decodable(Tag::Compound(self.root_tag@)),
            well_formed(Tag::Compound(self.root_tag@), MAX_DEPTH as nat) ==> parse_document(r@, false, false)
                == Ok::<(Seq<char>, Seq<(Seq<char>, Tag)>), Error>((Seq::<char>::empty(), self.root_tag@)),
    {
        let mut out = Vec::new();
        out.push(COMPOUND_ID);
        self.root_tag.write_content(&mut out);
        assert(out@ =~= document_bytes(self@, false));
        proof {
            if well_formed(Tag::Compound(self.root_tag@), MAX_DEPTH as nat) {
                lemma_document_round_trip(self@, false, false);
            }
        }
        out
    }
}

} // verus!
