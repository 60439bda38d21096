//! Failure taxonomy and its mapping to HTTP status codes.

use vstd::prelude::*;

verus! {

/// Every way a request can fail.
#[derive(Debug, Clone, PartialEq, Eq)]
pub enum ActiveStorageError {
    /// The request body was malformed or broke the data model.
    InvalidRequest,
    /// The path named a reduction that does not exist.
    UnsupportedOperation { operation: String },
    /// The byte count does not match element size times the product of the shape.
    ShapeMismatch,
    /// A selection triple is out of bounds, or the triples do not match the shape.
    InvalidSelection,
    /// The missing-data description is not a single well-formed policy.
    InvalidMissing,
    /// A shuffle filter does not fit the element type or the byte count.
    ShuffleSizeMismatch,
    /// The object store rejected the credentials.
    S3Unauthorized,
    /// The object does not exist.
    S3NotFound,
    /// The request needs more memory than the server may ever hand out.
    MemoryLimitExceeded,
    /// The payload is not a valid compressed stream.
    DecompressionFailed,
    /// A filter could not be reversed.
    FilterFailed,
    /// A minimum or maximum was asked of no elements.
    EmptyReduction,
    /// The object store could not be reached.
    S3Transport,
    /// Anything else.
    InternalError,
}

impl ActiveStorageError {
    /// The HTTP status that goes with each failure.
    pub open spec fn status(self) -> u16 {
        match self {
            ActiveStorageError::S3Unauthorized => 401,
            ActiveStorageError::S3NotFound => 404,
            ActiveStorageError::MemoryLimitExceeded => 507,
            ActiveStorageError::S3Transport => 502,
            ActiveStorageError::InternalError => 500,
            _ => 400,
        }
    }

    pub fn status_code(&self) -> (code: u16)
        ensures
            code == self.status(),
            400 <= code < 600,
    {
        match self {
            ActiveStorageError::S3Unauthorized => 401,
            ActiveStorageError::S3NotFound => 404,
            ActiveStorageError::MemoryLimitExceeded => 507,
            ActiveStorageError::S3Transport => 502,
            ActiveStorageError::InternalError => 500,
            _ => 400,
        }
    }
}

} // verus!
