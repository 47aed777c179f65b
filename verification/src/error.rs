use vstd::prelude::*;

verus! {

/// The error surface of the release-resolution engine.
///
/// Each failure a caller can observe is a distinct variant; the one silent
/// case — a release that simply has no artifact for the requested operating
/// system — is reported as an empty `Option`, never as an error.
#[derive(Debug)]
pub enum GitHubApiError {
    /// The response body could not be decoded into release records.
    CannotDeserialize,
    /// The network transport failed while talking to the release host.
    RequestError,
    /// No release carries exactly the requested version string.
    CannotFindReleaseWithVersion(String),
    /// The release host signalled that the request quota is spent.
    RateLimitExceeded,
    /// The downloaded bytes do not hash to the expected digest.
    WrongChecksum,
    /// The checksum sidecar's content is not valid hexadecimal.
    InvalidChecksum,
    /// Fetching the artifact's bytes failed.
    Download,
    /// Reading or writing the local file failed.
    IO,
}

} // verus!
