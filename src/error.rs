//! What can make an install or update fail.
use vstd::prelude::*;

verus! {

/// The kinds of failure of an install, update or verification.
#[derive(Clone, Copy, Debug, PartialEq, Eq, Structural)]
pub enum InstallError {
    NotInLibrary,
    VersionNotFound,
    ManifestFetch,
    ManifestDecode,
    ChunkFetch,
    ChunkCorrupted,
    FsPrepare,
    FsWrite,
    FsRead,
    Truncated,
    Cancelled,
}

} // verus!
