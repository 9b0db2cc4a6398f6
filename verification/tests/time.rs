use lgtmcli::error::Failure;
use lgtmcli::time::{
    ns_to_rfc3339, parse_rfc3339, parse_since_duration, resolve_range_at, seconds_to_rfc3339,
    to_unix_ns_string, to_unix_seconds_string, Timestamp,
};

fn at_secs(secs: i128) -> Timestamp {
    Timestamp { nanos: secs * 1_000_000_000 }
}

#[test]
fn since_and_from_to_are_mutually_exclusive() {
    let now = at_secs(1_700_000_000);
    let result = resolve_range_at(
        Some("1h"),
        Some("2024-01-01T00:00:00Z"),
        Some("2024-01-01T01:00:00Z"),
        "1h",
        now,
    );

    assert!(result.is_err());
}

#[test]
fn default_since_is_respected() {
    let now = at_secs(1_700_000_000);
    let range = resolve_range_at(None, None, None, "30m", now).expect("range resolves");

    let expected_end = to_unix_ns_string(now).expect("end ns");
    let expected_start = to_unix_ns_string(at_secs(1_700_000_000 - 1800)).expect("start ns");

    assert_eq!(to_unix_ns_string(range.start).unwrap(), expected_start);
    assert_eq!(to_unix_ns_string(range.end).unwrap(), expected_end);
}

#[test]
fn explicit_bounds_are_parsed() {
    let now = at_secs(1_700_000_000);
    let range = resolve_range_at(None, Some("2024-01-01T00:00:00Z"), Some("2024-01-01 01:00:00"), "1h", now)
        .expect("range resolves");
    assert_eq!(range.start.nanos, 1_704_067_200i128 * 1_000_000_000);
    assert_eq!(range.end.nanos, (1_704_067_200i128 + 3600) * 1_000_000_000);
}

#[test]
fn range_errors_are_reported() {
    let now = at_secs(1_700_000_000);
    assert!(matches!(
        resolve_range_at(None, Some("2024-01-01T00:00:00Z"), None, "1h", now),
        Err(Failure::FromToUnpaired)
    ));
    assert!(matches!(
        resolve_range_at(None, Some("2024-01-01T01:00:00Z"), Some("2024-01-01T00:00:00Z"), "1h", now),
        Err(Failure::EmptyRange)
    ));
    assert!(matches!(
        resolve_range_at(None, Some("yesterday"), Some("2024-01-01T00:00:00Z"), "1h", now),
        Err(Failure::InvalidTimestamp(ref raw)) if raw == "yesterday"
    ));
    assert!(matches!(
        resolve_range_at(Some("soon"), None, None, "1h", now),
        Err(Failure::InvalidDuration(ref raw)) if raw == "soon"
    ));
    assert!(matches!(
        resolve_range_at(Some("0s"), None, None, "1h", now),
        Err(Failure::EmptyRange)
    ));
}

#[test]
fn durations_ignore_whitespace_and_leading_minus() {
    let d = parse_since_duration("  -15m ").expect("parses");
    assert_eq!(d.secs, 900);
    assert_eq!(d.nanos, 0);
    let d = parse_since_duration("1.5s").expect("parses");
    assert_eq!((d.secs, d.nanos), (1, 500_000_000));
}

#[test]
fn unix_strings_are_decimal() {
    let t = Timestamp { nanos: 1_710_000_000_123_456_789 };
    assert_eq!(to_unix_ns_string(t).unwrap(), "1710000000123456789");
    assert_eq!(to_unix_seconds_string(t).unwrap(), "1710000000");
    assert!(matches!(to_unix_ns_string(Timestamp { nanos: -1 }), Err(Failure::BeforeEpoch)));
    assert_eq!(to_unix_seconds_string(Timestamp { nanos: 0 }).unwrap(), "0");
}

#[test]
fn timestamps_render_as_rfc3339_millis() {
    assert_eq!(ns_to_rfc3339("1710000000123456789"), "2024-03-09T16:00:00.123Z");
    assert_eq!(seconds_to_rfc3339("1710000000"), "2024-03-09T16:00:00.000Z");
    assert_eq!(ns_to_rfc3339("not-a-number"), "not-a-number");
    assert_eq!(seconds_to_rfc3339("1710000000.5"), "1710000000.5");
    let t = parse_rfc3339("2024-03-09T16:00:00Z").unwrap();
    assert_eq!(t.nanos, 1_710_000_000i128 * 1_000_000_000);
}

#[test]
fn durations_that_could_overflow_are_refused() {
    assert!(matches!(
        parse_since_duration("18446744073709551615s 500ms 500ms"),
        Err(Failure::InvalidDuration(t)) if t == "18446744073709551615s 500ms 500ms"
    ));
    let d = parse_since_duration("18446744073709551615s").unwrap();
    assert_eq!((d.secs, d.nanos), (u64::MAX, 0));
    let d = parse_since_duration("000000000001h").unwrap();
    assert_eq!((d.secs, d.nanos), (3600, 0));
    let d = parse_since_duration("3600000000000ns").unwrap();
    assert_eq!((d.secs, d.nanos), (3600, 0));
    let d = parse_since_duration("1h 30m 1.5s").unwrap();
    assert_eq!((d.secs, d.nanos), (5401, 500_000_000));
    assert!(matches!(parse_since_duration("1000000000000000y"), Err(Failure::InvalidDuration(_))));
}

#[test]
fn milliseconds_render_as_rfc3339() {
    assert_eq!(lgtmcli::time::millis_to_rfc3339("0").as_deref(), Some("1970-01-01T00:00:00Z"));
    assert_eq!(lgtmcli::time::millis_to_rfc3339("1704067200000").as_deref(), Some("2024-01-01T00:00:00Z"));
    assert_eq!(lgtmcli::time::millis_to_rfc3339("1704067200250").as_deref(), Some("2024-01-01T00:00:00.250Z"));
    assert_eq!(lgtmcli::time::millis_to_rfc3339("1.5"), None);
    assert_eq!(lgtmcli::time::millis_to_rfc3339("253402300800000"), None);
}
