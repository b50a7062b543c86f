//! Error taxonomy of the extractor, the schema validator and the decode engine.
use vstd::prelude::*;

verus! {

/// Errors of the low-level byte window helpers.
#[derive(Debug, Clone, Copy, PartialEq, Eq, Structural)]
pub enum Error {
    /// General failure with no further detail.
    CannotDecodeOk,
    /// The requested window does not lie within the buffer.
    InvalidSlicingLength,
    /// The extracted bytes do not have the size of the target scalar.
    InvalidBytesConversion,
}

/// The description of each helper error.
pub open spec fn message_of(e: Error) -> Seq<char> {
    match e {
        Error::CannotDecodeOk => "General error, dunno what"@,
        Error::InvalidSlicingLength => "Invalid slice length"@,
        Error::InvalidBytesConversion => "Invalid bytes conversion"@,
    }
}

impl Error {
    /// A short human-readable description of the error.
    pub fn message(&self) -> (r: String)
        ensures
            r@ == message_of(*self),
    {
        match self {
            Error::CannotDecodeOk => String::from_str("General error, dunno what"),
            Error::InvalidSlicingLength => String::from_str("Invalid slice length"),
            Error::InvalidBytesConversion => String::from_str("Invalid bytes conversion"),
        }
    }
}

/// A definitional mistake in a schema, found when the schema is validated.
/// `field` is the position of the offending descriptor.
#[derive(Debug, Clone, Copy, PartialEq, Eq, Structural)]
pub enum SchemaError {
    /// The descriptor reuses the name of an earlier descriptor.
    DuplicateName { field: usize },
    /// The descriptor names a custom decoder that is not registered.
    UnknownDecoder { field: usize },
    /// The descriptor has no custom decoder and its width differs from the
    /// natural size of its scalar type.
    WidthMismatch { field: usize, width: usize, expected: usize },
}

/// Failure reported by a custom decoder.
#[derive(Debug, Clone, Copy, PartialEq, Eq, Structural)]
pub enum HookFailure {
    /// The decoder needs exactly `expected` bytes and was given `actual`.
    WrongLength { expected: usize, actual: usize },
    /// The decoder rejected the bytes for a reason of its own.
    Rejected { code: u32 },
}

/// What went wrong with a field during a decode.
#[derive(Debug, Clone, Copy, PartialEq, Eq, Structural)]
pub enum DecodeErrorKind {
    /// The field's byte window exceeds the frame.
    Slicing,
    /// The field's width differs from the natural size of its scalar type.
    Conversion,
    /// The field's custom decoder failed.
    Hook(HookFailure),
}

/// A decode failure, attributed to the field (by position in the schema) and
/// the offset at which it failed.
#[derive(Debug, Clone, Copy, PartialEq, Eq, Structural)]
pub struct DecodeError {
    pub kind: DecodeErrorKind,
    pub field: usize,
    pub offset: usize,
}

} // verus!
