//! The age of an item, in whole minutes.

use vstd::prelude::*;

verus! {

/// The whole minutes in a span of `millis` milliseconds; a part of a minute is
/// dropped, towards zero.
pub open spec fn whole_minutes_of(millis: int) -> int {
    if millis >= 0 {
        millis / 60_000
    } else {
        -((-millis) / 60_000)
    }
}

/// The age in whole minutes, at `now`, of what was created at `created_at`;
/// both are in milliseconds since the Unix epoch.
pub open spec fn age_minutes(now: int, created_at: int) -> int {
    whole_minutes_of(now - created_at)
}

/// Created less than sixty minutes before `now`.
pub open spec fn is_recent(now: int, created_at: int) -> bool {
    age_minutes(now, created_at) < 60
}

/// An item is recent exactly when fewer than 3 600 000 milliseconds lie
/// between its creation and `now`; one stamped after `now` is recent.
pub proof fn lemma_recent_is_under_an_hour(now: int, created_at: int)
    ensures
        is_recent(now, created_at) <==> now - created_at < 3_600_000,
{
}

/// `chrono::TimeDelta::milliseconds` followed by `TimeDelta::num_minutes`:
/// the span's whole seconds, rounded towards zero, divided by sixty with the
/// remainder dropped. The constructor refuses only `i64::MIN`.
#[verifier::external_body]
fn span_minutes(millis: i64) -> (minutes: i64)
    requires
        millis > i64::MIN,
    ensures
        minutes == whole_minutes_of(millis as int),
{
    chrono::TimeDelta::milliseconds(millis).num_minutes()
}

/// Whether what was created at `created_at` is less than sixty minutes old at
/// `now`.
pub fn created_recently(now: i64, created_at: i64) -> (recent: bool)
    ensures
        recent == is_recent(now as int, created_at as int),
{
    let span: i128 = now as i128 - created_at as i128;
    if span <= i64::MIN as i128 {
        true
    } else if span > i64::MAX as i128 {
        false
    } else {
        span_minutes(span as i64) < 60
    }
}

} // verus!
