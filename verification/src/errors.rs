//! The ways a poll can fail, and the OS error code helper used when the
//! segment cannot be opened at startup.

use vstd::prelude::*;

verus! {

/// A failed poll.  Either failure is fatal to the pipeline: a failed poll
/// leaves the snapshot ambiguous, so polling is never resumed after one.
#[derive(Debug, Clone, Copy, PartialEq, Eq, Structural)]
pub enum PollError {
    /// The upstream wrote its closed-sentinel signature: it has shut down.
    UpstreamClosed,
    /// The segment is too short for its declared tables, the reading table
    /// does not group into at most one run per sensor, or a name is not
    /// valid UTF-8.
    MalformedData,
}

/// Relies on std::io::Error::last_os_error and raw_os_error: the calling
/// thread's most recent OS error code, or 0 when the error carries none.
/// Used only to report why the segment could not be opened.
#[verifier::external_body]
pub fn get_os_error() -> i32 {
    std::io::Error::last_os_error().raw_os_error().unwrap_or(0)
}

} // verus!
