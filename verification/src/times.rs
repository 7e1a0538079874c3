//! Reading feed timestamps. A batch timestamp arrives as text; it is
//! compared and stored as seconds since the epoch, which is also the
//! sentinel for "nothing processed yet".

use vstd::prelude::*;

verus! {

pub uninterp spec fn rfc2822_instant(s: Seq<char>) -> Option<int>;

pub uninterp spec fn rfc3339_instant(s: Seq<char>) -> Option<int>;

/// Relies on chrono's `DateTime::parse_from_rfc2822` and `timestamp`:
/// whether the text is a well-formed RFC 2822 date, and which instant it
/// names, depend on the characters alone.
#[verifier::external_body]
pub fn parse_rfc2822(s: &str) -> (r: Option<i64>)
    ensures
        match r {
            Some(t) => rfc2822_instant(s@) == Some(t as int),
            None => rfc2822_instant(s@) is None,
        },
{
    chrono::DateTime::parse_from_rfc2822(s).ok().map(|d| d.timestamp())
}

/// Relies on chrono's `DateTime::parse_from_rfc3339` and `timestamp`:
/// whether the text is a well-formed RFC 3339 date, and which instant it
/// names, depend on the characters alone.
#[verifier::external_body]
pub fn parse_rfc3339(s: &str) -> (r: Option<i64>)
    ensures
        match r {
            Some(t) => rfc3339_instant(s@) == Some(t as int),
            None => rfc3339_instant(s@) is None,
        },
{
    chrono::DateTime::parse_from_rfc3339(s).ok().map(|d| d.timestamp())
}

/// The instant a feed's batch timestamp names: its RFC 2822 reading, or
/// failing that its RFC 3339 reading.
pub open spec fn batch_instant(s: Seq<char>) -> Option<int> {
    match rfc2822_instant(s) {
        Some(t) => Some(t),
        None => rfc3339_instant(s),
    }
}

/// Read a feed's batch timestamp, accepting either dated form.
pub fn parse_batch_timestamp(s: &str) -> (r: Option<i64>)
    ensures
        match r {
            Some(t) => batch_instant(s@) == Some(t as int),
            None => batch_instant(s@) is None,
        },
{
    match parse_rfc2822(s) {
        Some(t) => Some(t),
        None => parse_rfc3339(s),
    }
}

} // verus!
