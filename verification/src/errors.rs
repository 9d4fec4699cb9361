use vstd::prelude::*;

verus! {

/// Failure taxonomy of the metadata lifecycle.
///
/// Every fallible operation of the library reports one of these; nothing is
/// swallowed or retried silently.
#[derive(Clone, Copy, Debug, PartialEq, Eq, Structural)]
pub enum YamaError {
    /// A video path without a parent directory or without a file name.
    InvalidPath,
    /// The probe collaborator could not determine a duration for the video.
    InvalidVideo,
    /// A sidecar file exists but does not parse as a metadata record.
    CorruptMetadata,
    /// A sidecar file that should have been loaded is absent.
    NotFound,
    /// A filesystem or external-process failure reported by the caller.
    IoError,
}

} // verus!
