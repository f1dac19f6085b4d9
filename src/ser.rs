use vstd::prelude::*;

use crate::codec::{
    bits_i16, bits_i32, bits_i64, bits_i8, bits_of_i16, bits_of_i32, bits_of_i64, bits_of_i8, push_u16,
    push_u32, push_u64, u16_bytes, u32_bytes, u64_bytes, BYTE_ARRAY_ID, BYTE_ID, COMPOUND_ID, DOUBLE_ID,
    END_ID, FLOAT_ID, INT_ARRAY_ID, INT_ID, LIST_ID, LONG_ARRAY_ID, LONG_ID, SHORT_ID, STRING_ID,
};
use crate::error::Error;
use crate::tag::{string_bytes, write_string};

verus! {

/// What the encoder must write before the next value. The format puts a
/// value's type id and name (or a list's element id and length) before its
/// payload, while a structured serializer announces names and lengths first
/// and the value's kind only when it arrives; the state carries that
/// information between the calls.
pub enum State {
    /// Nothing written yet; the root compound's name, if it has one.
    Root(Option<String>),
    /// The next value is the field or map entry called so.
    Named(String),
    /// The next value is a map key, which must be a string.
    MapKey,
    /// The next value is the first element of a list of that length.
    FirstListElement { len: i32 },
    /// The next value is a later list element, or an element of a typed array.
    ListElement,
    /// The next sequence is the typed array called `name`, of the kind
    /// `array_type` names (`"byte"`, `"int"` or `"long"`).
    Array { name: String, array_type: String },
}

/// The header written before a value of type `tag` in state `s`, or `None`
/// when such a value cannot come there.
pub open spec fn header(s: State, tag: u8) -> Option<Seq<u8>> {
    match s {
        State::Named(name) => Some(seq![tag] + string_bytes(name@)),
        State::Array { name, .. } => Some(seq![tag] + string_bytes(name@)),
        State::FirstListElement { len } => Some(seq![tag] + u32_bytes(bits_i32(len))),
        State::MapKey => if tag == STRING_ID { Some(Seq::empty()) } else { None },
        State::ListElement => Some(Seq::empty()),
        State::Root(_) => None,
    }
}

/// The header written when a compound (struct or map) opens in state `s`.
pub open spec fn compound_header(s: State) -> Option<Seq<u8>> {
    match s {
        State::Root(None) => Some(seq![COMPOUND_ID]),
        State::Root(Some(name)) => Some(seq![COMPOUND_ID] + string_bytes(name@)),
        _ => header(s, COMPOUND_ID),
    }
}

/// The type id of a typed array of the kind `t` names.
pub open spec fn array_id(t: Seq<char>) -> Option<u8> {
    if t == "byte"@ {
        Some(BYTE_ARRAY_ID)
    } else if t == "int"@ {
        Some(INT_ARRAY_ID)
    } else if t == "long"@ {
        Some(LONG_ARRAY_ID)
    } else {
        None
    }
}

/// The encoder: the bytes written so far and the current state.
pub struct Serializer {
    output: Vec<u8>,
    state: State,
}

fn message(s: &str) -> (r: Error)
    ensures
        r is SerdeError,
{
    Error::SerdeError(s.to_owned())
}

impl Serializer {
    pub closed spec fn out(&self) -> Seq<u8> {
        self.output@
    }

    pub closed spec fn state_spec(&self) -> State {
        self.state
    }

    /// An encoder for a document with the given root name (`None`: unnamed framing).
    pub fn new(root_name: Option<String>) -> (r: Serializer)
        ensures
            r.out() == Seq::<u8>::empty(),
            r.state_spec() == State::Root(root_name),
    {
        Serializer { output: Vec::new(), state: State::Root(root_name) }
    }

    /// The bytes written so far.
    pub fn into_output(self) -> (r: Vec<u8>)
        ensures
            r@ == self.out(),
    {
        self.output
    }

    /// Writes the header that a value of type `tag` needs in the current state.
    fn parse_state(&mut self, tag: u8) -> (r: Result<(), Error>)
        ensures
            final(self).state_spec() == old(self).state_spec(),
            match header(old(self).state_spec(), tag) {
                Some(h) => r is Ok && final(self).out() == old(self).out() + h,
                None => r matches Err(e) && e is SerdeError && final(self).out() == old(self).out(),
            },
    {
        match &self.state {
            State::Named(name) => {
                self.output.push(tag);
                write_string(&mut self.output, name.as_str());
            },
            State::Array { name, .. } => {
                self.output.push(tag);
                write_string(&mut self.output, name.as_str());
            },
            State::FirstListElement { len } => {
                self.output.push(tag);
                push_u32(&mut self.output, bits_of_i32(*len));
            },
            State::MapKey => {
                if tag != STRING_ID {
                    return Err(message("Map key can only be string"));
                }
            },
            State::ListElement => {},
            State::Root(_) => {
                return Err(message("Invalid Serializer state!"));
            },
        }
        assert(self.output@ =~= old(self).output@ + header(old(self).state, tag)->Some_0);
        Ok(())
    }

    /// A boolean, written as the `Byte` 0 or 1.
    pub fn serialize_bool(&mut self, v: bool) -> (r: Result<(), Error>)
        ensures
            final(self).state_spec() == old(self).state_spec(),
            match header(old(self).state_spec(), BYTE_ID) {
                Some(h) => r is Ok && final(self).out() == old(self).out() + h + seq![if v { 1u8 } else { 0u8 }],
                None => r is Err && final(self).out() == old(self).out(),
            },
    {
        self.serialize_i8(if v { 1 } else { 0 })
    }

    pub fn serialize_i8(&mut self, v: i8) -> (r: Result<(), Error>)
        ensures
            final(self).state_spec() == old(self).state_spec(),
            match header(old(self).state_spec(), BYTE_ID) {
                Some(h) => r is Ok && final(self).out() == old(self).out() + h + seq![bits_i8(v)],
                None => r is Err && final(self).out() == old(self).out(),
            },
    {
        self.parse_state(BYTE_ID)?;
        self.output.push(bits_of_i8(v));
        Ok(())
    }

    pub fn serialize_i16(&mut self, v: i16) -> (r: Result<(), Error>)
        ensures
            final(self).state_spec() == old(self).state_spec(),
            match header(old(self).state_spec(), SHORT_ID) {
                Some(h) => r is Ok && final(self).out() == old(self).out() + h + u16_bytes(bits_i16(v)),
                None => r is Err && final(self).out() == old(self).out(),
            },
    {
        self.parse_state(SHORT_ID)?;
        push_u16(&mut self.output, bits_of_i16(v));
        Ok(())
    }

    pub fn serialize_i32(&mut self, v: i32) -> (r: Result<(), Error>)
        ensures
            final(self).state_spec() == old(self).state_spec(),
            match header(old(self).state_spec(), INT_ID) {
                Some(h) => r is Ok && final(self).out() == old(self).out() + h + u32_bytes(bits_i32(v)),
                None => r is Err && final(self).out() == old(self).out(),
            },
    {
        self.parse_state(INT_ID)?;
        push_u32(&mut self.output, bits_of_i32(v));
        Ok(())
    }

    pub fn serialize_i64(&mut self, v: i64) -> (r: Result<(), Error>)
        ensures
            final(self).state_spec() == old(self).state_spec(),
            match header(old(self).state_spec(), LONG_ID) {
                Some(h) => r is Ok && final(self).out() == old(self).out() + h + u64_bytes(bits_i64(v)),
                None => r is Err && final(self).out() == old(self).out(),
            },
    {
        self.parse_state(LONG_ID)?;
        push_u64(&mut self.output, bits_of_i64(v));
        Ok(())
    }

    /// A `Float`, given as its IEEE-754 bits (`f32::to_bits`).
    pub fn serialize_f32_bits(&mut self, bits: u32) -> (r: Result<(), Error>)
        ensures
            final(self).state_spec() == old(self).state_spec(),
            match header(old(self).state_spec(), FLOAT_ID) {
                Some(h) => r is Ok && final(self).out() == old(self).out() + h + u32_bytes(bits),
                None => r is Err && final(self).out() == old(self).out(),
            },
    {
        self.parse_state(FLOAT_ID)?;
        push_u32(&mut self.output, bits);
        Ok(())
    }

    /// A `Double`, given as its IEEE-754 bits (`f64::to_bits`).
    pub fn serialize_f64_bits(&mut self, bits: u64) -> (r: Result<(), Error>)
        ensures
            final(self).state_spec() == old(self).state_spec(),
            match header(old(self).state_spec(), DOUBLE_ID) {
                Some(h) => r is Ok && final(self).out() == old(self).out() + h + u64_bytes(bits),
                None => r is Err && final(self).out() == old(self).out(),
            },
    {
        self.parse_state(DOUBLE_ID)?;
        push_u64(&mut self.output, bits);
        Ok(())
    }

    /// A string value; as a map key it becomes the name of the next value.
    pub fn serialize_str(&mut self, v: &str) -> (r: Result<(), Error>)
        ensures
            match header(old(self).state_spec(), STRING_ID) {
                Some(h) => r is Ok && if old(self).state_spec() is MapKey {
                    final(self).out() == old(self).out() && (final(self).state_spec() matches State::Named(n) && n@ == v@)
                } else {
                    final(self).out() == old(self).out() + h + string_bytes(v@)
                        && final(self).state_spec() == old(self).state_spec()
                },
                None => r is Err && final(self).out() == old(self).out()
                    && final(self).state_spec() == old(self).state_spec(),
            },
    {
        self.parse_state(STRING_ID)?;
        if let State::MapKey = self.state {
            self.state = State::Named(v.to_owned());
            return Ok(());
        }
        write_string(&mut self.output, v);
        Ok(())
    }
    /// Opens a typed array field: `name` must be `"nbt_array"` and the state
    /// `Named`; the next sequence is then written as the array kind `variant`
    /// names, under the field's name.
    pub fn begin_array(&mut self, name: &str, variant: &str) -> (r: Result<(), Error>)
        ensures
            final(self).out() == old(self).out(),
            if name@ == "nbt_array"@ && old(self).state_spec() is Named {
                r is Ok && (final(self).state_spec() matches State::Array { name: n, array_type: t }
                    && n@ == old(self).state_spec()->Named_0@ && t@ == variant@)
            } else {
                r matches Err(e) && e is SerdeError && final(self).state_spec() == old(self).state_spec()
            },
    {
        let marker = "nbt_array".to_owned();
        let given = name.to_owned();
        if !(given == marker) {
            return Err(message("new_type variant supports only nbt_array"));
        }
        let field = match &self.state {
            State::Named(n) => n.clone(),
            _ => {
                return Err(message("Invalid Serializer state!"));
            },
        };
        self.state = State::Array { name: field, array_type: variant.to_owned() };
        Ok(())
    }

    /// Opens a sequence of `len` elements. Inside a typed array field it writes
    /// the array's id, name and count, and its elements follow bare; otherwise
    /// it opens a list, whose element id and count the first element writes,
    /// an empty list writing them at once as the End id and a zero count.
    pub fn serialize_seq(&mut self, len: Option<usize>) -> (r: Result<(), Error>)
        ensures
            match len {
                None => (r matches Err(e) && e is SerdeError) && final(self).out() == old(self).out()
                    && final(self).state_spec() == old(self).state_spec(),
                Some(n) => if old(self).state_spec() is Array {
                    match array_id(old(self).state_spec()->array_type@) {
                        Some(id) => r is Ok && final(self).out() == old(self).out() + header(old(self).state_spec(), id).unwrap()
                            + u32_bytes(bits_i32(n as i32)) && final(self).state_spec() == State::ListElement,
                        None => (r matches Err(e) && e is SerdeError) && final(self).out() == old(self).out()
                            && final(self).state_spec() == old(self).state_spec(),
                    }
                } else {
                    match header(old(self).state_spec(), LIST_ID) {
                        Some(h) => r is Ok && final(self).out() == old(self).out() + h + (if n == 0 {
                            seq![END_ID] + u32_bytes(0)
                        } else {
                            Seq::empty()
                        }) && final(self).state_spec() == (State::FirstListElement { len: n as i32 }),
                        None => r is Err && final(self).out() == old(self).out()
                            && final(self).state_spec() == old(self).state_spec(),
                    }
                },
            },
    {
        let n = match len {
            Some(n) => n,
            None => {
                return Err(message("Length of the sequence must be known first!"));
            },
        };
        let array_kind = match &self.state {
            State::Array { array_type, .. } => {
                let byte_kind = "byte".to_owned();
                let int_kind = "int".to_owned();
                let long_kind = "long".to_owned();
                proof {
                    reveal_strlit("byte");
                    reveal_strlit("int");
                    reveal_strlit("long");
                }
                if *array_type == byte_kind {
                    Some(BYTE_ARRAY_ID)
                } else if *array_type == int_kind {
                    Some(INT_ARRAY_ID)
                } else if *array_type == long_kind {
                    Some(LONG_ARRAY_ID)
                } else {
                    return Err(message("Array supports only byte, int, long"));
                }
            },
            _ => None,
        };
        match array_kind {
            Some(id) => {
                self.parse_state(id)?;
                push_u32(&mut self.output, bits_of_i32(n as i32));
                self.state = State::ListElement;
            },
            None => {
                self.parse_state(LIST_ID)?;
                if n == 0 {
                    self.output.push(END_ID);
                    push_u32(&mut self.output, 0);
                    assert(self.output@ =~= old(self).output@ + header(old(self).state, LIST_ID)->Some_0 + (seq![END_ID]
                        + u32_bytes(0)));
                }
                self.state = State::FirstListElement { len: n as i32 };
            },
        }
        Ok(())
    }

    /// Opens a compound (a struct or a map): its id, then its name or list
    /// count as the state asks; a later list element writes nothing.
    pub fn serialize_struct(&mut self) -> (r: Result<(), Error>)
        ensures
            final(self).state_spec() == old(self).state_spec(),
            match compound_header(old(self).state_spec()) {
                Some(h) => r is Ok && final(self).out() == old(self).out() + h,
                None => r matches Err(e) && e is SerdeError && final(self).out() == old(self).out(),
            },
    {
        match &self.state {
            State::Root(root_name) => {
                self.output.push(COMPOUND_ID);
                match root_name {
                    Some(n) => write_string(&mut self.output, n.as_str()),
                    None => {},
                }
                assert(self.output@ =~= old(self).output@ + compound_header(old(self).state)->Some_0);
                Ok(())
            },
            _ => self.parse_state(COMPOUND_ID),
        }
    }

    /// The next value is the field (or map entry) `key`.
    pub fn begin_field(&mut self, key: &str)
        ensures
            final(self).out() == old(self).out(),
            final(self).state_spec() matches State::Named(n) && n@ == key@,
    {
        self.state = State::Named(key.to_owned());
    }

    /// The next value is a map key.
    pub fn begin_key(&mut self)
        ensures
            final(self).out() == old(self).out(),
            final(self).state_spec() == State::MapKey,
    {
        self.state = State::MapKey;
    }

    /// A list element was written: later elements write their payload only.
    pub fn end_element(&mut self)
        ensures
            final(self).out() == old(self).out(),
            final(self).state_spec() == State::ListElement,
    {
        self.state = State::ListElement;
    }

    /// Closes a compound with the End id.
    pub fn end_compound(&mut self)
        ensures
            final(self).out() == old(self).out() + seq![END_ID],
            final(self).state_spec() == old(self).state_spec(),
    {
        self.output.push(END_ID);
    }
}

} // verus!