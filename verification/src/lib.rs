//! A client for S3-compatible object stores that shows a flat key space as a
//! tree of directories, adds up the size of what lies under a prefix, and
//! keeps named credentials in a profile store.

use crate::s3::content::Timestamp;
use crate::text::text_of;
use vstd::prelude::*;

pub mod commands;
pub mod error;
pub mod fs;
pub mod s3;
pub mod text;
pub mod utils;

verus! {

/// The instant `secs` seconds and `nanos` nanoseconds after the Unix epoch,
/// written as an RFC 3339 date and time in UTC to the second, with `Z` for the
/// zone; `None` where the calendar cannot hold the instant.
pub uninterp spec fn rfc3339_utc(secs: i64, nanos: u32) -> Option<Seq<char>>;

/// Formats an instant as an RFC 3339 date and time.
///
/// Wraps `chrono::DateTime::from_timestamp`, which gives `None` for seconds
/// out of range and for invalid nanoseconds, followed by
/// `chrono::DateTime::to_rfc3339_opts` with whole seconds and `Z`. Both are
/// functions of their arguments alone; the contract only names the outcome.
#[verifier::external_body]
fn format_rfc3339(secs: i64, nanos: u32) -> (r: Option<String>)
    ensures
        text_of(r) == rfc3339_utc(secs, nanos),
{
    match chrono::DateTime::from_timestamp(secs, nanos) {
        Some(t) => Some(t.to_rfc3339_opts(chrono::SecondsFormat::Secs, true)),
        None => None,
    }
}

/// Converts an instant to a timestamp such as `2023-02-13T12:59:51Z`; `None`
/// where the calendar cannot hold the instant.
pub fn utc_datetime(datetime: Timestamp) -> (r: Option<String>)
    ensures
        text_of(r) == rfc3339_utc(datetime.secs, datetime.subsec_nanos),
{
    format_rfc3339(datetime.secs, datetime.subsec_nanos)
}

} // verus!

