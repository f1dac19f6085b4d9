use vstd::prelude::*;

use crate::codec::{BYTE_ID, COMPOUND_ID, END_ID, LIST_ID};
use crate::decode::{get_nbt_string, parse_payload, parse_string, tag_result, take, text_result, MAX_DEPTH};
use crate::error::Error;
use crate::slice_cursor::{be_u16_of, be_u32_of, BinarySliceCursor};
use crate::tag::NbtTag;

verus! {

/// What the decoder hands to a structured deserializer next.
#[derive(Debug)]
pub enum Value {
    /// The name of a compound entry.
    Name(String),
    /// A list follows: its element type id and element count.
    List { elem: u8, len: u32 },
    /// A compound follows; its entries come through `next_key`.
    Compound,
    /// Any other value, read whole.
    Tag(NbtTag),
}

/// The decoder. The format reveals a value's kind only in the type id read
/// before it (a compound entry's id, or a list's element id), so the decoder
/// remembers that id until the value is asked for. Within a compound entry a
/// flag tells whether the entry's name or its value comes next.
pub struct Deserializer<'a> {
    input: BinarySliceCursor<'a>,
    tag_to_deserialize: Option<u8>,
    is_named: bool,
    is_deserializing_key: bool,
}

impl<'a> Deserializer<'a> {
    pub closed spec fn cursor(&self) -> BinarySliceCursor<'a> {
        self.input
    }

    /// The type id of the value that comes next, once read.
    pub closed spec fn pending_tag(&self) -> Option<u8> {
        self.tag_to_deserialize
    }

    /// Whether the root compound carries a name (which is skipped).
    pub closed spec fn named(&self) -> bool {
        self.is_named
    }

    /// Whether an entry's name comes next rather than its value.
    pub closed spec fn at_key(&self) -> bool {
        self.is_deserializing_key
    }

    pub open spec fn inv(&self) -> bool {
        self.cursor().wf()
    }

    /// A decoder over `bytes`; `is_named` tells whether the root has a name.
    pub fn new(bytes: &'a [u8], is_named: bool) -> (r: Deserializer<'a>)
        ensures
            r.inv(),
            r.cursor().data() == bytes@,
            r.cursor().pos_spec() == 0,
            r.pending_tag() is None,
            r.named() == is_named,
            r.at_key(),
    {
        Deserializer {
            input: BinarySliceCursor::new(bytes),
            tag_to_deserialize: None,
            is_named,
            is_deserializing_key: true,
        }
    }

    /// Offset of the next unread byte.
    pub fn position(&self) -> (r: usize)
        ensures
            r == self.cursor().pos_spec(),
    {
        self.input.pos()
    }

    /// Opens a compound. At the root (no type id read yet) this reads the
    /// compound id, failing with `NoRootCompound` on another id, and skips the
    /// root name when the document is named.
    pub fn begin_map(&mut self) -> (r: Result<(), Error>)
        requires
            old(self).inv(),
        ensures
            final(self).inv(),
            final(self).cursor().data() == old(self).cursor().data(),
            final(self).pending_tag() == old(self).pending_tag(),
            final(self).named() == old(self).named(),
            final(self).at_key() == old(self).at_key(),
            old(self).pending_tag() is Some ==> r is Ok && final(self).cursor() == old(self).cursor(),
            old(self).pending_tag() is None ==> ({
                let d = old(self).cursor().data();
                let p = old(self).cursor().pos_spec();
                match take(d, p, 1).0 {
                    Err(e) => r == Err::<(), Error>(e),
                    Ok(b) => if b[0] != COMPOUND_ID {
                        r == Err::<(), Error>(Error::NoRootCompound(b[0]))
                    } else if !old(self).named() {
                        r is Ok && final(self).cursor().pos_spec() == p + 1
                    } else {
                        match take(d, p + 1, 2).0 {
                            Err(e) => r == Err::<(), Error>(e),
                            Ok(h) => if p + 3 + be_u16_of(h) <= d.len() {
                                r is Ok && final(self).cursor().pos_spec() == p + 3 + be_u16_of(h)
                            } else {
                                r == Err::<(), Error>(Error::InvalidSkip {
                                    amount: be_u16_of(h) as usize,
                                    available: (d.len() - (p + 3)) as usize,
                                })
                            },
                        }
                    },
                }
            }),
    {
        if self.tag_to_deserialize.is_none() {
            let id = self.input.read_u8()?;
            if id != COMPOUND_ID {
                return Err(Error::NoRootCompound(id));
            }
            if self.is_named {
                let len = self.input.read_u16_be()?;
                self.input.skip(len as usize)?;
            }
        }
        Ok(())
    }

    /// Reads the type id of the next compound entry. `false` at the End id,
    /// after which a value (of an enclosing list) may come next; otherwise the
    /// entry's name comes next.
    pub fn next_key(&mut self) -> (r: Result<bool, Error>)
        requires
            old(self).inv(),
        ensures
            final(self).inv(),
            final(self).cursor().data() == old(self).cursor().data(),
            final(self).named() == old(self).named(),
            match take(old(self).cursor().data(), old(self).cursor().pos_spec(), 1) {
                (Err(e), _) => r == Err::<bool, Error>(e) && final(self).cursor().pos_spec() == old(self).cursor().pos_spec()
                    && final(self).pending_tag() == old(self).pending_tag() && final(self).at_key() == old(self).at_key(),
                (Ok(b), p) => final(self).cursor().pos_spec() == p && final(self).pending_tag() == Some(b[0])
                    && r == Ok::<bool, Error>(b[0] != END_ID)
                    && final(self).at_key() == (b[0] != END_ID),
            },
    {
        let tag = self.input.read_u8()?;
        self.tag_to_deserialize = Some(tag);
        if tag == END_ID {
            self.is_deserializing_key = false;
            return Ok(false);
        }
        self.is_deserializing_key = true;
        Ok(true)
    }

    /// The entry's value comes next (its name has been read).
    pub fn begin_value(&mut self)
        ensures
            final(self).cursor() == old(self).cursor(),
            final(self).pending_tag() == old(self).pending_tag(),
            final(self).named() == old(self).named(),
            !final(self).at_key(),
    {
        self.is_deserializing_key = false;
    }

    /// A list element of type id `elem` comes next.
    pub fn begin_element(&mut self, elem: u8)
        ensures
            final(self).cursor() == old(self).cursor(),
            final(self).pending_tag() == Some(elem),
            final(self).named() == old(self).named(),
            !final(self).at_key(),
    {
        self.tag_to_deserialize = Some(elem);
        self.is_deserializing_key = false;
    }

    /// Reads an entry's name.
    pub fn read_name(&mut self) -> (r: Result<String, Error>)
        requires
            old(self).inv(),
        ensures
            final(self).inv(),
            final(self).cursor().data() == old(self).cursor().data(),
            final(self).pending_tag() == old(self).pending_tag(),
            final(self).named() == old(self).named(),
            final(self).at_key() == old(self).at_key(),
            (text_result(r), final(self).cursor().pos_spec())
                == parse_string(old(self).cursor().data(), old(self).cursor().pos_spec()),
    {
        get_nbt_string(&mut self.input)
    }

    /// The next value: an entry's name while one is due (whichever request
    /// asked), else a value of the remembered type: a list's header, a
    /// compound's opening, or any other value read whole.
    pub fn next_value(&mut self) -> (r: Result<Value, Error>)
        requires
            old(self).inv(),
        ensures
            final(self).inv(),
            final(self).cursor().data() == old(self).cursor().data(),
            final(self).named() == old(self).named(),
            final(self).at_key() == old(self).at_key(),
            ({
                let d = old(self).cursor().data();
                let p = old(self).cursor().pos_spec();
                if old(self).at_key() {
                    final(self).pending_tag() == old(self).pending_tag() && match r {
                        Ok(Value::Name(s)) => parse_string(d, p) == (Ok::<Seq<char>, Error>(s@), final(self).cursor().pos_spec()),
                        Ok(_) => false,
                        Err(e) => parse_string(d, p) == (Err::<Seq<char>, Error>(e), final(self).cursor().pos_spec()),
                    }
                } else {
                    match old(self).pending_tag() {
                        None => (r matches Err(e) && e is SerdeError) && final(self).cursor() == old(self).cursor(),
                        Some(id) => if id == LIST_ID {
                            final(self).pending_tag() == old(self).pending_tag() && match take(d, p, 1) {
                                (Err(e), _) => r == Err::<Value, Error>(e),
                                (Ok(b), q) => match take(d, q, 4) {
                                    (Err(e), _) => r == Err::<Value, Error>(e),
                                    (Ok(c), q2) => r == Ok::<Value, Error>(Value::List { elem: b[0], len: be_u32_of(c) })
                                        && final(self).cursor().pos_spec() == q2,
                                },
                            }
                        } else if id == COMPOUND_ID {
                            r == Ok::<Value, Error>(Value::Compound) && final(self).cursor() == old(self).cursor()
                                && final(self).pending_tag() == old(self).pending_tag()
                        } else if id == END_ID {
                            (r matches Err(e) && e is SerdeError) && final(self).cursor() == old(self).cursor()
                        } else {
                            match r {
                                Ok(Value::Tag(t)) => parse_payload(d, p, id, MAX_DEPTH as nat, false)
                                    == (Ok::<crate::tag::Tag, Error>(t@), final(self).cursor().pos_spec())
                                    && final(self).pending_tag() is None,
                                Ok(_) => false,
                                Err(e) => parse_payload(d, p, id, MAX_DEPTH as nat, false).0 == Err::<crate::tag::Tag, Error>(e),
                            }
                        },
                    }
                }
            }),
    {
        if self.is_deserializing_key {
            let name = get_nbt_string(&mut self.input)?;
            return Ok(Value::Name(name));
        }
        let id = match self.tag_to_deserialize {
            Some(id) => id,
            None => {
                return Err(Error::SerdeError("no value is due".to_owned()));
            },
        };
        if id == LIST_ID {
            let elem = match self.input.read_u8() {
                Ok(e) => e,
                Err(e) => {
                    return Err(e);
                },
            };
            let len = match self.input.read_u32_be() {
                Ok(n) => n,
                Err(e) => {
                    return Err(e);
                },
            };
            return Ok(Value::List { elem, len });
        }
        if id == COMPOUND_ID {
            return Ok(Value::Compound);
        }
        if id == END_ID {
            return Err(Error::SerdeError("an End tag has no value".to_owned()));
        }
        let t = NbtTag::deserialize_payload(&mut self.input, id, MAX_DEPTH, false)?;
        self.tag_to_deserialize = None;
        Ok(Value::Tag(t))
    }

    /// A boolean: when the remembered type is `Byte`, the byte is read and any
    /// nonzero value is `true`; any other remembered type gives `false` and
    /// reads nothing.
    pub fn read_bool(&mut self) -> (r: Result<bool, Error>)
        requires
            old(self).inv(),
        ensures
            final(self).inv(),
            final(self).cursor().data() == old(self).cursor().data(),
            final(self).pending_tag() == old(self).pending_tag(),
            final(self).named() == old(self).named(),
            final(self).at_key() == old(self).at_key(),
            old(self).pending_tag() == Some(BYTE_ID) ==> match take(old(self).cursor().data(), old(self).cursor().pos_spec(), 1) {
                (Err(e), _) => r == Err::<bool, Error>(e),
                (Ok(b), q) => r == Ok::<bool, Error>(b[0] != 0) && final(self).cursor().pos_spec() == q,
            },
            old(self).pending_tag() != Some(BYTE_ID) ==> r == Ok::<bool, Error>(false) && final(self).cursor() == old(self).cursor(),
    {
        if self.tag_to_deserialize == Some(BYTE_ID) {
            let value = self.input.read_u8()?;
            return Ok(value != 0);
        }
        Ok(false)
    }
}

/// The elements of a list still to be handed out.
pub struct ListAccess {
    remaining_values: u32,
    list_type: u8,
}

impl ListAccess {
    pub closed spec fn remaining(&self) -> nat {
        self.remaining_values as nat
    }

    pub closed spec fn elem(&self) -> u8 {
        self.list_type
    }

    pub fn new(list_type: u8, remaining_values: u32) -> (r: ListAccess)
        ensures
            r.remaining() == remaining_values,
            r.elem() == list_type,
    {
        ListAccess { remaining_values, list_type }
    }

    /// `false` once all elements were handed out; otherwise counts one and
    /// makes the decoder expect a value of the list's element type.
    pub fn next_element(&mut self, de: &mut Deserializer) -> (r: bool)
        ensures
            r == (old(self).remaining() > 0),
            final(self).elem() == old(self).elem(),
            r ==> final(self).remaining() == old(self).remaining() - 1 && final(de).pending_tag() == Some(old(self).elem()),
            r ==> !final(de).at_key(),
            !r ==> final(self).remaining() == 0 && final(de).pending_tag() == old(de).pending_tag()
                && final(de).at_key() == old(de).at_key(),
            final(de).cursor() == old(de).cursor(),
            final(de).named() == old(de).named(),
    {
        if self.remaining_values == 0 {
            return false;
        }
        self.remaining_values = self.remaining_values - 1;
        de.begin_element(self.list_type);
        true
    }

    /// How many elements are left.
    pub fn size_hint(&self) -> (r: u32)
        ensures
            r == self.remaining(),
    {
        self.remaining_values
    }
}

} // verus!
