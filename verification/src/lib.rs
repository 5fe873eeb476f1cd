//! Decoder and encoder for the NIB Archive binary container format.
//!
//! An archive stores a flat graph of typed objects: a table of class names,
//! a table of keys, a table of tagged values, and a table of objects that
//! reference slices of the value table. All tables are serialized after a
//! fixed 40-byte header whose offsets must exactly match the cumulative
//! sizes of the preceding blocks.

pub mod archive;
pub mod class_name;
pub mod error;
pub mod header;
pub mod laws;
mod le_bytes;
pub mod object;
mod text;
pub mod value;
pub mod varint;

pub use crate::archive::{ArchiveView, NIBArchive};
pub use crate::class_name::{ClassName, ClassNameView};
pub use crate::error::{Error, FormatErrorKind, IoErrorKind, BlockKind};
pub use crate::header::Header;
pub use crate::object::Object;
pub use crate::value::{Value, ValueVariant, ValueView, VariantView};
pub use crate::varint::{decode_var_int, encode_var_int};
