use vstd::prelude::*;

verus! {

/// Every failure that reading or writing a tag tree can report.
#[derive(Debug, Clone, PartialEq, Eq)]
pub enum Error {
    /// The leading tag id of a document is not the compound id.
    NoRootCompound(u8),
    /// A string's bytes are not valid modified UTF-8 (Java) text.
    InvalidJavaString,
    /// A tag id outside `0..=12` was met.
    UnknownTagId(u8),
    /// A failure reported by the structured-serialization bridge.
    SerdeError(String),
    /// The structured-serialization bridge was asked for a shape the format lacks.
    UnsupportedType(String),
    /// A read asked for more bytes than the buffer holds.
    NotEnoughBytes { requested: usize, available: usize },
    /// A skip went past the end of the buffer.
    InvalidSkip { amount: usize, available: usize },
    /// A list or array announced a negative element count.
    NegativeLength(i32),
    /// Lists and compounds are nested deeper than the reader accepts.
    NestingTooDeep { limit: usize },
}

} // verus!
