//! Error values of the project model and its persistence.
use vstd::prelude::*;

verus! {

/// Errors of project persistence and editing.
#[derive(Debug, PartialEq)]
pub enum ProjectError {
    /// Reading or writing `path` failed with the given system message.
    IoError { path: String, message: String },
    /// The project text is not valid project JSON.
    JsonError(String),
    /// The file was written by a newer format version.
    UnsupportedVersion { found: u32, supported: u32 },
    /// The project data is inconsistent.
    ValidationError(String),
    /// No configuration directory is known for this user.
    ConfigDirectoryUnavailable,
    /// No clip has this id.
    ClipNotFound(String),
    /// No track has this id.
    TrackNotFound(String),
    /// The operation does not apply to the clip in its current state.
    InvalidOperation(String),
}

} // verus!
