use lgtmcli::cli::LogDirectionArg;
use lgtmcli::logs::{compare_timestamp_ns, flatten_streams, format_labels, LokiStream};
use lgtmcli::cli::LogsQueryArgs;
use lgtmcli::logs::logs_window_at;
use lgtmcli::time::Timestamp;

#[test]
fn backward_direction_returns_newest_first() {
    let stream = LokiStream {
        stream: vec![("service".to_string(), "api".to_string())],
        values: vec![
            ("1710000000000000000".to_string(), "first".to_string()),
            ("1710000001000000000".to_string(), "second".to_string()),
        ],
    };

    let lines = flatten_streams(vec![stream], LogDirectionArg::Backward);
    let messages: Vec<&str> = lines.iter().map(|l| l.line.as_str()).collect();

    assert_eq!(messages, vec!["second", "first"]);
}

#[test]
fn forward_direction_merges_streams_oldest_first() {
    let a = LokiStream {
        stream: vec![("app".to_string(), "a".to_string())],
        values: vec![
            ("30".to_string(), "a30".to_string()),
            ("10".to_string(), "a10".to_string()),
        ],
    };
    let b = LokiStream {
        stream: vec![],
        values: vec![("20".to_string(), "b20".to_string()), ("10".to_string(), "b10".to_string())],
    };
    let lines = flatten_streams(vec![a, b], LogDirectionArg::Forward);
    let messages: Vec<&str> = lines.iter().map(|l| l.line.as_str()).collect();
    assert_eq!(messages, vec!["a10", "b10", "b20", "a30"]);
    assert_eq!(lines[0].labels, vec![("app".to_string(), "a".to_string())]);
    assert_eq!(lines[0].timestamp, "1970-01-01T00:00:00.000Z");
}

#[test]
fn timestamps_compare_numerically_when_both_parse() {
    assert!(compare_timestamp_ns("9", "10"));
    assert!(!compare_timestamp_ns("10", "9"));
    assert!(compare_timestamp_ns("10", "9a"));
    assert!(!compare_timestamp_ns("5", "5"));
}

#[test]
fn labels_render_in_braces() {
    assert_eq!(format_labels(&vec![]), "{}");
    assert_eq!(
        format_labels(&vec![("a".to_string(), "1".to_string()), ("b".to_string(), "2".to_string())]),
        "{a=1,b=2}"
    );
}

#[test]
fn log_window_is_in_nanoseconds() {
    let args = LogsQueryArgs {
        query: "{a=\"b\"}".into(),
        datasource_uid: "l".into(),
        since: None,
        from: Some("2024-01-01T00:00:00Z".into()),
        to: Some("2024-01-01T00:10:00Z".into()),
        limit: 100,
        direction: LogDirectionArg::Backward,
    };
    let (start, end) = logs_window_at(&args, Timestamp { nanos: 0 }).unwrap();
    assert_eq!(start, "1704067200000000000");
    assert_eq!(end, "1704067800000000000");
}
