use iso_duration::adapter::{decode, decode_opt, encode, encode_opt, InvalidValue};
use iso_duration::signed::{decode_time_delta, from_time_delta, to_time_delta};
use iso_duration::{
    from_hms, from_hms_micro, from_hms_micro_opt, from_hms_milli, from_hms_milli_opt, from_hms_nano,
    from_hms_nano_opt, from_hms_opt, from_iso8601, to_iso8601, Duration,
};

fn secs(s: u64) -> Duration {
    Duration::from_secs(s)
}

fn dur(s: u64, n: u32) -> Duration {
    Duration::new(s, n).unwrap()
}

#[test]
fn ser_opt_dur() {
    let text = encode_opt(&Some(secs(1)));
    assert_eq!(serde_json::to_string(&text).unwrap(), "\"PT1S\"".to_string());

    let text = encode_opt(&None);
    assert_eq!(serde_json::to_string(&text).unwrap(), "null".to_string());
}

#[test]
fn de_opt_dur() {
    let v: Option<String> = serde_json::from_str("\"PT1S\"").unwrap();
    assert_eq!(decode_opt(v.as_deref()), Ok(Some(secs(1))));

    let v: Option<String> = serde_json::from_str("null").unwrap();
    assert_eq!(decode_opt(v.as_deref()), Ok(None));
}

#[test]
fn hms_total_seconds() {
    assert_eq!(from_hms(0, 0, 0), secs(0));
    assert_eq!(from_hms(1, 2, 3).as_secs(), 3723);
    assert_eq!(from_hms(2, 46, 40), secs(10_000));
    assert_eq!(from_hms(277, 46, 40), secs(1_000_000));
    assert_eq!(from_hms(1, 59, 59).subsec_nanos(), 0);
    assert_eq!(from_hms_opt(5, 0, 59), Some(secs(18_059)));
}

#[test]
fn hms_subsecond_units() {
    assert_eq!(from_hms_milli(0, 0, 10, 100), dur(10, 100_000_000));
    assert_eq!(from_hms_micro(0, 1, 0, 999_999), dur(60, 999_999_000));
    assert_eq!(from_hms_nano(1, 0, 0, 1), dur(3600, 1));
    assert_eq!(from_hms_milli_opt(0, 0, 1, 999), Some(dur(1, 999_000_000)));
    assert_eq!(from_hms_micro_opt(0, 0, 1, 5), Some(dur(1, 5_000)));
    assert_eq!(from_hms_nano_opt(0, 0, 1, 999_999_999), Some(dur(1, 999_999_999)));
}

#[test]
fn hms_out_of_range_is_absent() {
    assert_eq!(from_hms_opt(0, 60, 0), None);
    assert_eq!(from_hms_opt(0, 0, 60), None);
    assert_eq!(from_hms_opt(0, 61, 61), None);
    assert_eq!(from_hms_milli_opt(0, 0, 0, 1000), None);
    assert_eq!(from_hms_milli_opt(0, 60, 0, 0), None);
    assert_eq!(from_hms_micro_opt(0, 0, 0, 1_000_000), None);
    assert_eq!(from_hms_micro_opt(0, 0, 60, 0), None);
    assert_eq!(from_hms_nano_opt(0, 0, 0, 1_000_000_000), None);
    assert_eq!(from_hms_nano_opt(0, 60, 0, 0), None);
}

#[test]
fn hms_total_too_large_is_absent() {
    assert_eq!(from_hms_opt(u64::MAX / 3600 + 1, 0, 0), None);
    assert_eq!(from_hms_opt(u64::MAX / 3600, 0, 0), Some(secs(u64::MAX / 3600 * 3600)));
}

#[test]
fn format_zero() {
    assert_eq!(to_iso8601(&secs(0)), "PT0S");
    assert_eq!(to_iso8601(&Duration::zero()), "PT0S");
}

#[test]
fn format_examples() {
    assert_eq!(to_iso8601(&secs(10)), "PT10S");
    assert_eq!(to_iso8601(&dur(10, 100_000_000)), "PT10.1S");
    assert_eq!(to_iso8601(&secs(100)), "PT1M40S");
    assert_eq!(to_iso8601(&secs(10_000)), "PT2H46M40S");
    assert_eq!(to_iso8601(&secs(1_000_000)), "P11DT13H46M40S");
}

#[test]
fn format_minimal_fields() {
    assert_eq!(to_iso8601(&secs(86_400)), "P1D");
    assert_eq!(to_iso8601(&secs(3600)), "PT1H");
    assert_eq!(to_iso8601(&secs(86_460)), "P1DT1M");
    assert_eq!(to_iso8601(&dur(0, 500_000_000)), "PT0.5S");
    assert_eq!(to_iso8601(&dur(0, 1)), "PT0.000000001S");
    assert_eq!(to_iso8601(&dur(61, 120_000_000)), "PT1M1.12S");
    assert_eq!(to_iso8601(&dur(86_400, 1_000)), "P1DT0.000001S");
}

#[test]
fn parse_examples() {
    assert_eq!(from_iso8601("PT0S"), Some(secs(0)));
    assert_eq!(from_iso8601("PT1M40S"), Some(secs(100)));
    assert_eq!(from_iso8601("P11DT13H46M40S"), Some(secs(1_000_000)));
    assert_eq!(from_iso8601("PT10.1S"), Some(dur(10, 100_000_000)));
    assert_eq!(from_iso8601("PT1,5S"), Some(dur(1, 500_000_000)));
    assert_eq!(from_iso8601("PT0.123456789S"), Some(dur(0, 123_456_789)));
    assert_eq!(from_iso8601("P1D"), Some(secs(86_400)));
    assert_eq!(from_iso8601("PT2H"), Some(secs(7200)));
}

#[test]
fn parse_leading_sign_is_ignored() {
    assert_eq!(from_iso8601("+PT1S"), Some(secs(1)));
    assert_eq!(from_iso8601("-PT1S"), Some(secs(1)));
}

#[test]
fn parse_signed_fields() {
    assert_eq!(from_iso8601("P1DT-1H"), Some(secs(82_800)));
    assert_eq!(from_iso8601("PT+5M"), Some(secs(300)));
    assert_eq!(from_iso8601("PT-1S"), None);
    assert_eq!(from_iso8601("PT-1.5S"), None);
    assert_eq!(from_iso8601("PT1M-1.5S"), Some(dur(59, 500_000_000)));
}

#[test]
fn parse_malformed_is_absent() {
    assert_eq!(from_iso8601("T1S"), None);
    assert_eq!(from_iso8601("1S"), None);
    assert_eq!(from_iso8601(""), None);
    assert_eq!(from_iso8601("PT"), None);
    assert_eq!(from_iso8601("P1H"), None);
    assert_eq!(from_iso8601("PT1D"), None);
    assert_eq!(from_iso8601("PT1S1M"), None);
    assert_eq!(from_iso8601("PT1.S"), None);
    assert_eq!(from_iso8601("PT1.0123456789S"), None);
    assert_eq!(from_iso8601("PT1.5M"), None);
    assert_eq!(from_iso8601("PTS"), None);
    assert_eq!(from_iso8601("PT1S "), None);
    assert_eq!(from_iso8601("PT99999999999999999999S"), None);
}

#[test]
fn parse_large_fields_that_cancel() {
    assert_eq!(from_iso8601("P213503982334602DT-18446744073709551616S"), Some(secs(61_184)));
    assert_eq!(
        from_iso8601("P1000000000000000000000000000000DT-86400000000000000000000000000000000S"),
        Some(secs(0))
    );
    assert_eq!(
        from_iso8601("P1000000000000000000000000000000DT-86399999999999999999999999999999995.5S"),
        Some(dur(5, 500_000_000))
    );
    assert_eq!(
        from_iso8601("P1000000000000000000000000000000DT-86400000000000000000000000000000005S"),
        None
    );
    assert_eq!(from_iso8601("PT000000000000000000000000000000000007S"), Some(secs(7)));
}

#[test]
fn parse_edge_forms() {
    assert_eq!(from_iso8601("P"), Some(secs(0)));
    assert_eq!(from_iso8601("P1DT"), Some(secs(86_400)));
    assert_eq!(from_iso8601("PT18446744073709551615S"), Some(secs(u64::MAX)));
    assert_eq!(from_iso8601("PT18446744073709551615.5S"), Some(dur(u64::MAX, 500_000_000)));
    assert_eq!(from_iso8601("PT18446744073709551616S"), None);
    assert_eq!(from_iso8601("P213503982334602D"), None);
}

#[test]
fn round_trip_representative() {
    let samples = [
        secs(0),
        secs(1),
        secs(59),
        secs(3661),
        secs(1_000_000),
        dur(10, 100_000_000),
        dur(0, 1),
        dur(123_456, 789_000_000),
        secs(u64::MAX),
        dur(u64::MAX, 999_999_999),
    ];
    for d in samples.iter() {
        assert_eq!(from_iso8601(&to_iso8601(d)), Some(*d));
    }
}

#[test]
fn adapter_encode_decode() {
    assert_eq!(encode(&secs(100)), "PT1M40S");
    assert_eq!(decode("PT1M40S"), Ok(secs(100)));
}

#[test]
fn adapter_invalid_value() {
    let err = decode("1M40S").unwrap_err();
    assert_eq!(err, InvalidValue { value: "1M40S".to_string() });
    assert_eq!(err.expected(), "PdDThHmMsS");
    let err = decode_opt(Some("nope")).unwrap_err();
    assert_eq!(err.value, "nope");
}

#[test]
fn time_delta_conversions() {
    let t = chrono::TimeDelta::new(90, 5).unwrap();
    assert_eq!(from_time_delta(&t), Some(dur(90, 5)));
    assert_eq!(from_time_delta(&chrono::TimeDelta::seconds(-1)), None);
    assert_eq!(from_time_delta(&chrono::TimeDelta::milliseconds(-500)), None);
    assert_eq!(to_time_delta(&dur(90, 5)), Some(t));
    assert_eq!(to_time_delta(&secs(u64::MAX)), None);
    assert_eq!(to_time_delta(&secs(9_223_372_036_854_775)).is_some(), true);
    assert_eq!(to_time_delta(&dur(9_223_372_036_854_775, 807_000_001)), None);
}

#[test]
fn time_delta_decoding() {
    assert_eq!(decode_time_delta("PT1M"), Ok(chrono::TimeDelta::seconds(60)));
    let err = decode_time_delta("PT18446744073709551615S").unwrap_err();
    assert_eq!(err.value, "PT18446744073709551615S");
    assert!(decode_time_delta("X").is_err());
}

#[test]
fn time_delta_beyond_max_converts_but_does_not_fit_back() {
    let big = chrono::TimeDelta::MAX.checked_mul(2).unwrap();
    let d = from_time_delta(&big).unwrap();
    assert_eq!(d.as_secs(), 18_446_744_073_709_551);
    assert_eq!(d.subsec_nanos(), 614_000_000);
    assert_eq!(to_time_delta(&d), None);
    assert!(decode_time_delta(&encode(&d)).is_err());
}

#[test]
fn time_delta_round_trip() {
    for t in [
        chrono::TimeDelta::zero(),
        chrono::TimeDelta::seconds(100),
        chrono::TimeDelta::new(1_000_000, 100_000_000).unwrap(),
        chrono::TimeDelta::MAX,
    ] {
        let d = from_time_delta(&t).unwrap();
        assert_eq!(decode_time_delta(&encode(&d)), Ok(t));
    }
}
