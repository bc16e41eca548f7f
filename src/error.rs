//! The ways a single download can fail.
use vstd::prelude::*;

verus! {

/// Why one download failed. Each failure concerns one request only.
#[derive(Clone, Copy, Debug, PartialEq, Eq, Structural)]
pub enum DownloadError {
    /// The transfer failed or the server answered with an error.
    Fetch,
    /// The source URL holds no segment to name the file after.
    PathResolution,
    /// The destination path is an existing directory.
    PathIsDirectory,
    /// Creating or writing the destination file failed.
    Io,
}

} // verus!
