//! Error taxonomy of the reporting pipeline.
//!
//! Every stage aborts the whole run on its first error; nothing is retried
//! and no partial aggregation is ever surfaced. Authentication failures are
//! kept distinct from other HTTP failures so the surrounding program can
//! offer a login affordance instead of a plain error line.

use vstd::prelude::*;

verus! {

/// What went wrong during a run or a subcommand.
#[derive(Debug, PartialEq, Eq)]
pub enum Error {
    /// No access token is configured in the preference store.
    MissingAccessToken,
    /// The upstream service rejected the access token (HTTP 401).
    InvalidAccessToken,
    /// A non-success, non-401 HTTP status, with the failing URL.
    UpstreamHttp { status: u16, url: String },
    /// A connection or body-decode failure, with its message.
    Transport { message: String },
    /// A page request could not be duplicated for a follow-up page.
    UnclonableRequest,
    /// A page carried more items than the announced remaining total.
    PageCount,
    /// An upstream stream record carried the broken `Error` type marker.
    StreamType,
    /// A followed user's record is missing from the resolved user map.
    MissingUserInfo,
    /// A subcommand was invoked without its required arguments.
    MissingCliArg,
    /// A time specification matched no upcoming instant.
    EmptyTimespec,
    /// A generated menu command would have this many parts, over the host limit.
    CommandLength(usize),
}

/// Classifies a failing HTTP status: a 401 means the token was rejected,
/// anything else is reported as an upstream HTTP failure with its URL.
pub fn classify_http_status(status: u16, url: String) -> (e: Error)
    ensures
        e == if status == 401 {
            Error::InvalidAccessToken
        } else {
            (Error::UpstreamHttp { status, url })
        },
{
    if status == 401 {
        Error::InvalidAccessToken
    } else {
        Error::UpstreamHttp { status, url }
    }
}

} // verus!
