//! The uniform error values that every bridge operation reports.
//!
//! Each failure of an operation is converted at the point of occurrence
//! into one of these variants: a precondition failure (the supplied path
//! is not the kind of entry the operation expects, detected before any
//! mutation), or an underlying filesystem failure carrying its cause as
//! text.

use vstd::prelude::*;

verus! {

/// The error taxonomy of the filesystem bridge.
#[derive(Debug)]
pub enum FsError {
    /// The path given to project initialization is not an existing directory.
    InvalidRoot,
    /// The path given to a directory listing is not an existing directory.
    InvalidDirectory,
    /// Creating one of the project subdirectories failed; tagged with the
    /// subdirectory's name and the underlying cause.
    CreateFailure { subdirectory: String, cause: String },
    /// Reading a file failed, for the underlying cause given.
    ReadFailure { cause: String },
    /// Writing a file failed, for the underlying cause given.
    WriteFailure { cause: String },
    /// Renaming a file failed, for the underlying cause given.
    RenameFailure { cause: String },
}

} // verus!
