//! Error values reported by the codec.
//!
//! There are two top-level kinds: an I/O kind for inputs that end before a
//! read completes (and for values that no wire representation exists for),
//! and a format kind for structurally malformed archives. All format
//! violations are detected eagerly during decoding and abort the whole
//! operation.

use vstd::prelude::*;

verus! {

/// The four variable-length blocks that follow the header, in file order.
#[derive(Debug, Clone, Copy, PartialEq, Eq, Structural)]
pub enum BlockKind {
    Objects,
    Keys,
    Values,
    ClassNames,
}

/// Input-level failures: the byte source is exhausted before a read
/// completes, or a value was handed to the encoder that has no wire
/// representation (a negative variable-length integer operand).
#[derive(Debug, Clone, Copy, PartialEq, Eq, Structural)]
pub enum IoErrorKind {
    /// The input ended in the middle of a record, or a declared length
    /// cannot be satisfied by any remaining input.
    UnexpectedEof,
    /// Encoding was asked to emit a variable-length integer for a negative
    /// value, which has no terminating representation in this format.
    InvalidInput,
}

/// Structural violations of the archive format.
#[derive(Debug, Clone, Copy, PartialEq, Eq, Structural)]
pub enum FormatErrorKind {
    /// The file does not begin with the 10-byte magic signature.
    MagicMismatch,
    /// A block does not begin at the offset the header declares for it.
    /// `expected` is the declared offset; `actual` is the position at which
    /// the block really begins.
    BlockOffsetMismatch { block: BlockKind, expected: u32, actual: u64 },
    /// A value record carries a type tag outside the known table; the
    /// offending tag byte is recorded.
    UnknownValueType(u8),
    /// A key or class name holds bytes that are not valid UTF-8.
    InvalidUtf8,
    /// An object's value range reaches past the value table.
    ValueIndexOutOfBounds,
    /// An object names a class outside the class-name table.
    ClassNameIndexOutOfBounds,
    /// A value names a key outside the key table.
    KeyIndexOutOfBounds,
    /// A class name lists a fallback class outside the class-name table.
    FallbackClassIndexOutOfBounds,
}

/// Variants of error that may occur while decoding or encoding an archive.
#[derive(Debug, Clone, Copy, PartialEq, Eq, Structural)]
pub enum Error {
    /// The input ended early, or a value has no wire representation.
    IOError(IoErrorKind),
    /// The input violates the archive format, or a table mutation would
    /// leave a cross-reference out of bounds.
    FormatError(FormatErrorKind),
}

/// Shorthand for the error every truncated read reports.
pub open spec fn eof_error() -> Error {
    Error::IOError(IoErrorKind::UnexpectedEof)
}

} // verus!
