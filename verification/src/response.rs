//! The error taxonomy of the API and its uniform translation to HTTP
//! status codes.

use vstd::prelude::*;

verus! {

/// Every way a handler can fail.
///
/// - `NotFound`: the requested row itself is absent on a get or delete.
/// - `InvalidReference`: a referenced parent entity (a room for a new
///   machine, a machine for a new report, a report to archive) is absent.
/// - `Conflict`: a create targets a key that is already taken.
/// - `ConstraintViolation`: an insert breaks a relational constraint that
///   no validator checked beforehand; only the report-submission path
///   reports it (a reporter username with no user row).
/// - `StorageFailure`: the store itself cannot serve the request; here
///   that is exhaustion of a generated-id sequence.
#[derive(Clone, Copy, Debug, PartialEq, Eq, Structural)]
pub enum ApiError {
    NotFound,
    InvalidReference,
    Conflict,
    ConstraintViolation,
    StorageFailure,
}

impl ApiError {
    /// The HTTP status code of this error.  `ConstraintViolation` maps to
    /// 400 because it only arises on report submission, where the client
    /// supplied the broken reference; every other storage-side failure is
    /// a 500.
    pub open spec fn spec_status(self) -> u16 {
        match self {
            ApiError::NotFound => 404,
            ApiError::InvalidReference => 400,
            ApiError::Conflict => 409,
            ApiError::ConstraintViolation => 400,
            ApiError::StorageFailure => 500,
        }
    }

    /// Translates the error to its HTTP status code.
    pub fn status(&self) -> (code: u16)
        ensures
            code == self.spec_status(),
    {
        match self {
            ApiError::NotFound => 404,
            ApiError::InvalidReference => 400,
            ApiError::Conflict => 409,
            ApiError::ConstraintViolation => 400,
            ApiError::StorageFailure => 500,
        }
    }
}

} // verus!
