use vstd::prelude::*;
use chrono_humanize::{Accuracy, HumanTime, Tense};
use crate::timestamp::Timestamp;

verus! {

/// Largest number of seconds, either way, that a chrono duration can be built from.
pub const MAX_SPAN_SECS: i64 = 9_223_372_036_854_775;

/// The phrase chrono-humanize gives, precise and in the present tense, for a
/// span of `secs` whole seconds ("1 hour", "3 days and 1 hour").
pub uninterp spec fn precise_text(secs: int) -> Seq<char>;

/// Relies on chrono_humanize::HumanTime::to_text_en with Accuracy::Precise
/// and Tense::Present, on chrono::Duration::seconds(secs) (which panics
/// beyond `MAX_SPAN_SECS` either way).
#[verifier::external_body]
fn humanize_precise(secs: i64) -> (r: String)
    requires
        -MAX_SPAN_SECS <= secs <= MAX_SPAN_SECS,
    ensures
        r@ == precise_text(secs as int),
{
    HumanTime::from(chrono::Duration::seconds(secs)).to_text_en(Accuracy::Precise, Tense::Present)
}

/// The phrase for a span of `secs` whole seconds.
pub fn human_readable(secs: i64) -> (r: String)
    requires
        -MAX_SPAN_SECS <= secs <= MAX_SPAN_SECS,
    ensures
        r@ == precise_text(secs as int),
{
    humanize_precise(secs)
}

/// The phrase for the time from `then` to `now`, in whole seconds truncated toward zero.
pub fn time_since_text(now: &Timestamp, then: &Timestamp) -> (r: String)
    requires
        now.wf(),
        then.wf(),
    ensures
        r@ == precise_text(now.spec_seconds_since(*then)),
{
    let secs = now.seconds_since(then);
    human_readable(secs)
}

} // verus!
