use vstd::prelude::*;

verus! {

/// Why a mirroring run stops. None of these is recovered from: each ends the run.
#[derive(Debug, PartialEq, Eq)]
pub enum MirrorError {
    /// The persisted chapter-index document, or a page file name, cannot be read.
    MalformedState,
    /// A chapter directory exists on disk that no chapter record declares.
    ConsistencyViolation(usize),
    /// A remote request answered with this non-success status.
    UpstreamFailure(u16),
    /// An image came back with a media type outside the allow-list.
    UnsupportedMediaType(String),
    /// Creating or writing a local file or directory failed.
    LocalIOFailure(String),
}

} // verus!
