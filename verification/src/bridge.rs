//! Normalization of raw filesystem outcomes into the bridge's uniform
//! results.
//!
//! Every failure of an underlying read, write or rename call is caught at
//! the point of occurrence and converted immediately into the matching
//! error variant, carrying the underlying cause as text; a success passes
//! its value through unchanged. Nothing is retried.

use vstd::prelude::*;
use crate::errors::FsError;

verus! {

/// Normalizes the outcome of reading a file as text: the full content on
/// success, `ReadFailure` carrying the underlying cause on any failure.
pub fn read_outcome(outcome: Result<String, String>) -> (r: Result<String, FsError>)
    ensures
        outcome is Ok <==> r is Ok,
        outcome matches Ok(content) ==> (r matches Ok(c) && c == content),
        outcome matches Err(cause) ==> (r matches Err(e) && e == (FsError::ReadFailure { cause })),
{
    match outcome {
        Ok(content) => Ok(content),
        Err(cause) => Err(FsError::ReadFailure { cause }),
    }
}

/// Normalizes the outcome of writing a file: success passes through,
/// any failure becomes `WriteFailure` carrying the underlying cause.
pub fn write_outcome(outcome: Result<(), String>) -> (r: Result<(), FsError>)
    ensures
        outcome is Ok <==> r is Ok,
        outcome matches Err(cause) ==> (r matches Err(e) && e == (FsError::WriteFailure { cause })),
{
    match outcome {
        Ok(()) => Ok(()),
        Err(cause) => Err(FsError::WriteFailure { cause }),
    }
}

/// Normalizes the outcome of renaming a file: success passes through,
/// any failure becomes `RenameFailure` carrying the underlying cause.
pub fn rename_outcome(outcome: Result<(), String>) -> (r: Result<(), FsError>)
    ensures
        outcome is Ok <==> r is Ok,
        outcome matches Err(cause) ==> (r matches Err(e) && e == (FsError::RenameFailure { cause })),
{
    match outcome {
        Ok(()) => Ok(()),
        Err(cause) => Err(FsError::RenameFailure { cause }),
    }
}

} // verus!
