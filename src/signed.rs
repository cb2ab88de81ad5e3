//! Conversions between durations and `chrono`'s signed `TimeDelta`.

use vstd::prelude::*;

use crate::adapter::InvalidValue;
use crate::duration::Duration;
use crate::parse::{from_iso8601, parse_iso};

verus! {

#[verifier::external_type_specification]
#[verifier::external_body]
pub struct ExTimeDelta(chrono::TimeDelta);

/// Largest span, in nanoseconds, that a `TimeDelta` holds: `i64::MAX` milliseconds.
pub open spec fn time_delta_max_nanos() -> int {
    i64::MAX as int * 1_000_000
}

/// The span of a `TimeDelta`, in nanoseconds.
pub uninterp spec fn time_delta_nanos(d: chrono::TimeDelta) -> int;

/// Whether a duration fits in a `TimeDelta`.
pub open spec fn fits_time_delta(d: Duration) -> bool {
    d.total_nanos() <= time_delta_max_nanos()
}

/// Relies on `chrono::TimeDelta::to_std`: it fails exactly when the span is negative,
/// and otherwise gives the same span.
#[verifier::external_body]
fn time_delta_to_std(d: &chrono::TimeDelta) -> (r: Option<Duration>)
    ensures
        r is Some <==> time_delta_nanos(*d) >= 0,
        r matches Some(x) ==> x.wf() && x.total_nanos() == time_delta_nanos(*d),
{
    match d.to_std() {
        Ok(s) => Some(Duration { secs: s.as_secs(), nanos: s.subsec_nanos() }),
        Err(_) => None,
    }
}

/// Relies on `chrono::TimeDelta::from_std`: it fails exactly when the span is longer
/// than `i64::MAX` milliseconds, and otherwise gives the same span.
#[verifier::external_body]
fn time_delta_from_std(d: &Duration) -> (r: Option<chrono::TimeDelta>)
    requires
        d.wf(),
    ensures
        r is Some <==> fits_time_delta(*d),
        r matches Some(t) ==> time_delta_nanos(t) == d.total_nanos(),
{
    chrono::TimeDelta::from_std(std::time::Duration::new(d.secs, d.nanos)).ok()
}

/// The duration that a `TimeDelta` spans; `None` when it is negative.
pub fn from_time_delta(d: &chrono::TimeDelta) -> (r: Option<Duration>)
    ensures
        r is Some <==> time_delta_nanos(*d) >= 0,
        r matches Some(x) ==> x.wf() && x.total_nanos() == time_delta_nanos(*d),
{
    time_delta_to_std(d)
}

/// The `TimeDelta` that spans `d`; `None` when `d` is longer than `i64::MAX`
/// milliseconds.
pub fn to_time_delta(d: &Duration) -> (r: Option<chrono::TimeDelta>)
    requires
        d.wf(),
    ensures
        r is Some <==> fits_time_delta(*d),
        r matches Some(t) ==> time_delta_nanos(t) == d.total_nanos(),
{
    time_delta_from_std(d)
}

/// The `TimeDelta` that a field's text holds, or an error that carries the text when
/// it does not parse or does not fit.
pub fn decode_time_delta(value: &str) -> (r: Result<chrono::TimeDelta, InvalidValue>)
    ensures
        r is Ok <==> (parse_iso(value@) matches Some(d) && fits_time_delta(d)),
        r matches Ok(t) ==> (parse_iso(value@) matches Some(d) && time_delta_nanos(t)
            == d.total_nanos()),
        r matches Err(e) ==> e.value@ == value@,
{
    match from_iso8601(value) {
        None => Err(InvalidValue { value: value.to_string() }),
        Some(d) => match to_time_delta(&d) {
            Some(t) => Ok(t),
            None => Err(InvalidValue { value: value.to_string() }),
        },
    }
}

} // verus!
