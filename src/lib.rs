//! Reader and writer for the Named Binary Tag format: a tree of typed,
//! length-prefixed values stored big-endian, with named compounds.

pub mod codec;
pub mod compound;
pub mod de;
pub mod decode;
pub mod error;
pub mod nbt;
pub mod round_trip;
pub mod ser;
pub mod slice_cursor;
pub mod tag;

pub use compound::NbtCompound;
pub use nbt::Nbt;
pub use tag::NbtTag;
