use vstd::prelude::*;
use chrono::{DateTime, SecondsFormat, Utc};
use crate::timestamp::Timestamp;

verus! {

/// The RFC 3339 text that chrono writes for the UTC instant `secs` seconds
/// and `nanos` nanoseconds after 1970 (with `Z`, and as many fraction digits as needed).
pub uninterp spec fn rfc3339_text(secs: int, nanos: int) -> Seq<char>;

/// The UTC instant, as seconds since 1970 and nanoseconds, that chrono reads
/// from an RFC 3339 text, or `None` where it refuses the text.
pub uninterp spec fn rfc3339_instant(text: Seq<char>) -> Option<(int, int)>;

/// Relies on chrono::DateTime::from_timestamp and
/// DateTime::to_rfc3339_opts(SecondsFormat::AutoSi, true), the form that
/// chrono's serde support writes; `None` where chrono cannot hold the instant,
/// which from_timestamp gives only outside its date range or for nanoseconds
/// of two seconds or more.
#[verifier::external_body]
pub(crate) fn format_rfc3339(secs: i64, nanos: u32) -> (r: Option<String>)
    ensures
        Timestamp::range_ok(secs as int, nanos as int) ==> r is Some,
        r matches Some(t) ==> t@ == rfc3339_text(secs as int, nanos as int),
{
    match DateTime::from_timestamp(secs, nanos) {
        Some(d) => Some(d.to_rfc3339_opts(SecondsFormat::AutoSi, true)),
        None => None,
    }
}

/// Relies on chrono's FromStr for DateTime<Utc> (relaxed RFC 3339, the form
/// its serde support reads), read back through DateTime::timestamp and
/// DateTime::timestamp_subsec_nanos.
#[verifier::external_body]
pub(crate) fn parse_rfc3339(text: &str) -> (r: Option<(i64, u32)>)
    ensures
        match r {
            Some(p) => rfc3339_instant(text@) == Some((p.0 as int, p.1 as int)),
            None => rfc3339_instant(text@) is None,
        },
{
    match text.parse::<DateTime<Utc>>() {
        Ok(d) => Some((d.timestamp(), d.timestamp_subsec_nanos())),
        Err(_) => None,
    }
}

/// The instant an RFC 3339 text names, where chrono reads it and it is within range.
pub open spec fn spec_parse_timestamp(text: Seq<char>) -> Option<Timestamp> {
    match rfc3339_instant(text) {
        Some(p) => if Timestamp::range_ok(p.0, p.1) {
            Some(Timestamp { secs: p.0 as i64, nanos: p.1 as u32 })
        } else {
            None
        },
        None => None,
    }
}

/// Reads an instant from RFC 3339 text; `None` where chrono refuses the
/// text or the instant is out of range.
pub fn parse_timestamp(text: &str) -> (r: Option<Timestamp>)
    ensures
        r == spec_parse_timestamp(text@),
        r matches Some(t) ==> t.wf(),
{
    match parse_rfc3339(text) {
        Some(p) => Timestamp::from_parts(p.0, p.1),
        None => None,
    }
}

/// Writes an instant as RFC 3339 text in UTC; always `Some` for an instant within range.
pub fn format_timestamp(t: &Timestamp) -> (r: Option<String>)
    ensures
        t.wf() ==> r is Some,
        r matches Some(s) ==> s@ == rfc3339_text(t.secs as int, t.nanos as int),
{
    format_rfc3339(t.secs, t.nanos)
}

} // verus!
