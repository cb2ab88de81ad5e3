//! The decisions behind serializing a duration field as ISO 8601 text: plain fields,
//! optional fields, and signed `chrono` durations.

use vstd::prelude::*;

use crate::duration::Duration;
use crate::format::{iso_text, to_iso8601};
use crate::parse::{from_iso8601, parse_iso};

verus! {

/// Text that is not an ISO 8601 duration, or one that the target type cannot hold.
#[derive(Clone, Debug, PartialEq, Eq)]
pub struct InvalidValue {
    /// The offending text.
    pub value: String,
}

/// The pattern that a duration field's text is expected to follow.
pub const EXPECTED_PATTERN: &'static str = "PdDThHmMsS";

impl InvalidValue {
    /// The pattern that the text was expected to follow.
    pub fn expected(&self) -> (r: &'static str)
        ensures
            r@ == EXPECTED_PATTERN@,
    {
        EXPECTED_PATTERN
    }
}

/// The text of a duration field.
pub fn encode(d: &Duration) -> (r: String)
    requires
        d.wf(),
    ensures
        r@ == iso_text(*d),
{
    to_iso8601(d)
}

/// The duration that a field's text holds, or an error that carries the text.
pub fn decode(value: &str) -> (r: Result<Duration, InvalidValue>)
    ensures
        match parse_iso(value@) {
            Some(d) => r == Ok::<Duration, InvalidValue>(d),
            None => r matches Err(e) && e.value@ == value@,
        },
{
    match from_iso8601(value) {
        Some(d) => Ok(d),
        None => Err(InvalidValue { value: value.to_string() }),
    }
}

/// The text of an optional duration field: present exactly when the duration is.
pub fn encode_opt(opt: &Option<Duration>) -> (r: Option<String>)
    requires
        opt matches Some(d) ==> d.wf(),
    ensures
        match opt {
            Some(d) => r matches Some(t) && t@ == iso_text(*d),
            None => r is None,
        },
{
    match opt {
        Some(d) => Some(to_iso8601(d)),
        None => None,
    }
}

/// The duration of an optional field: absent text gives `None`, text that does not
/// parse gives an error.
pub fn decode_opt(value: Option<&str>) -> (r: Result<Option<Duration>, InvalidValue>)
    ensures
        match value {
            None => r == Ok::<Option<Duration>, InvalidValue>(None),
            Some(v) => match parse_iso(v@) {
                Some(d) => r == Ok::<Option<Duration>, InvalidValue>(Some(d)),
                None => r matches Err(e) && e.value@ == v@,
            },
        },
{
    match value {
        None => Ok(None),
        Some(v) => match decode(v) {
            Ok(d) => Ok(Some(d)),
            Err(e) => Err(e),
        },
    }
}

} // verus!
