//! Errors of the library.
use vstd::prelude::*;

verus! {

/// Why one wire value could not be read as the expected type.
#[derive(Clone, Copy, Debug, PartialEq, Eq, Structural)]
pub enum FieldError {
    /// The value is absent.
    Missing,
    /// The value is present with another variant than the one expected.
    WrongType,
    /// The value is a number whose text is not a plain decimal that fits.
    BadNumber,
}

/// The fields of a product record.
#[derive(Clone, Copy, Debug, PartialEq, Eq, Structural)]
pub enum ProductField {
    Id,
    Name,
    Price,
}

/// A change record that cannot be turned into an event.
#[derive(Clone, Debug, PartialEq, Eq)]
pub enum DecodeError {
    /// A product image lacks a field or holds it in the wrong shape.
    Field { field: ProductField, error: FieldError },
    /// The record's kind is none of `INSERT`, `MODIFY`, `REMOVE`.
    UnknownKind { kind: String },
}

/// Errors reported by the library and the services around it.
#[derive(Clone, Debug, PartialEq, Eq)]
pub enum Error {
    /// The service could not be set up.
    InitError(String),
    /// The request of a client was not acceptable.
    ClientError(String),
    /// Something failed inside the service.
    InternalError(String),
    /// A call into a cloud service failed.
    SdkError(String),
    /// The record at index `record` of a change payload could not be decoded.
    Decode { record: usize, error: DecodeError },
    /// The bus refused, or failed to accept, the batch at index `batch`.
    Publish { batch: usize, message: String },
}

} // verus!
