//! Modification times: reading RFC 3339 timestamps, ordering them, and
//! deciding whether a local copy is already up to date.

use vstd::prelude::*;

verus! {

/// An instant as seconds since the Unix epoch and the nanoseconds past that
/// second (more than 999,999,999 only within a leap second).
#[derive(Clone, Copy, Debug, PartialEq, Eq, Structural)]
pub struct Timestamp {
    pub secs: i64,
    pub nanos: u32,
}

/// The instant that `chrono::DateTime::parse_from_rfc3339` reads from a text,
/// as (seconds since the epoch, sub-second nanoseconds), or `None` where it
/// reports an error.
pub uninterp spec fn spec_parse_rfc3339(text: Seq<char>) -> Option<(i64, u32)>;

/// Calls `chrono::DateTime::parse_from_rfc3339` and, on success, takes the
/// parsed instant's `timestamp()` and `timestamp_subsec_nanos()` (after
/// `with_timezone(&Utc)`, which keeps the instant). The contract claims only
/// that the result is a function of the text; which texts parse, and to
/// what, is left unsaid.
#[verifier::external_body]
fn parse_rfc3339(text: &str) -> (r: Option<(i64, u32)>)
    ensures
        r == spec_parse_rfc3339(text@),
{
    match chrono::DateTime::parse_from_rfc3339(text) {
        Ok(dt) => {
            let utc = dt.with_timezone(&chrono::Utc);
            Some((utc.timestamp(), utc.timestamp_subsec_nanos()))
        },
        Err(_) => None,
    }
}

/// The modification time held in an optional RFC 3339 text.
pub open spec fn spec_parse_modified(text: Option<Seq<char>>) -> Option<Timestamp> {
    match text {
        Some(t) => match spec_parse_rfc3339(t) {
            Some((s, n)) => Some(Timestamp { secs: s, nanos: n }),
            None => None,
        },
        None => None,
    }
}

/// Reads an optional RFC 3339 modification time; `None` where there is no
/// text or it does not parse.
pub fn parse_modified(text: &Option<String>) -> (r: Option<Timestamp>)
    ensures
        r == spec_parse_modified(text.deep_view()),
{
    match text {
        Some(t) => match parse_rfc3339(t.as_str()) {
            Some((s, n)) => Some(Timestamp { secs: s, nanos: n }),
            None => None,
        },
        None => None,
    }
}

/// `a` is not later than `b`, in the order of instants that chrono uses
/// (seconds first, then the sub-second part).
pub open spec fn ts_le(a: Timestamp, b: Timestamp) -> bool {
    a.secs < b.secs || (a.secs == b.secs && a.nanos <= b.nanos)
}

/// Is `a` not later than `b`?
pub fn timestamp_le(a: &Timestamp, b: &Timestamp) -> (r: bool)
    ensures
        r == ts_le(*a, *b),
{
    a.secs < b.secs || (a.secs == b.secs && a.nanos <= b.nanos)
}

/// The instant as nanoseconds since the epoch (the value a system time
/// converted from it holds).
pub open spec fn ts_nanos(t: Timestamp) -> int {
    t.secs * 1_000_000_000 + t.nanos
}

/// A local copy is up to date when it exists and its modification time, in
/// nanoseconds since the epoch, is not before the remote modification time.
/// `local_modified` is `None` where no local file exists.
pub fn file_is_older(local_modified: Option<i128>, modified: Timestamp) -> (r: bool)
    ensures
        r == match local_modified {
            Some(t) => t >= ts_nanos(modified),
            None => false,
        },
{
    match local_modified {
        Some(t) => {
            let m: i128 = (modified.secs as i128) * 1_000_000_000 + (modified.nanos as i128);
            t >= m
        },
        None => false,
    }
}

/// The whole seconds of a modification time that is not before the epoch, as
/// the duration past the epoch that is written to a file's times.
pub fn modification_secs(modified: Timestamp) -> (r: u64)
    requires
        modified.secs >= 0,
    ensures
        r == modified.secs,
{
    modified.secs as u64
}

} // verus!
