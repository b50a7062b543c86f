//! Decoding of fixed-length binary frames into records, driven by a
//! declarative per-field schema.
use vstd::prelude::*;

pub mod decode;
pub mod error;
pub mod helper;
pub mod scalar;
pub mod schema;

pub use decode::{decode, DecoderHook, FieldValue};
pub use error::{DecodeError, DecodeErrorKind, Error, HookFailure, SchemaError};
pub use scalar::{Endianness, ScalarKind, ScalarValue};
pub use schema::{Field, FieldDescriptor, Schema};

verus! {

/// Conversion of an 8-byte frame into a record type, implemented by each
/// record type that is read from frames.
pub trait CanDecode: Sized {
    fn from_socketcan(frame: [u8; 8]) -> Result<Self, Error>;
}

} // verus!
