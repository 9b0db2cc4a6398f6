use lgtmcli::json::JsonValue;
use lgtmcli::output::TableOutput;
use lgtmcli::traces::{
    count_spans_in_value, extract_field_texts, extract_span_count, extract_string_field,
    summarize_trace_fields, get as trace_get, UNKNOWN_TRACE_ID,
};
use lgtmcli::traces::{render_trace_table, TraceRow};
use lgtmcli::cli::TracesSearchArgs;
use lgtmcli::time::Timestamp;
use lgtmcli::traces::search_window_at;

fn s(v: &str) -> JsonValue {
    JsonValue::Str(v.to_string())
}

fn n(v: &str) -> JsonValue {
    JsonValue::Number(v.to_string())
}

fn obj(entries: Vec<(&str, JsonValue)>) -> JsonValue {
    JsonValue::Object(entries.into_iter().map(|(k, v)| (k.to_string(), v)).collect())
}

fn arr(items: Vec<JsonValue>) -> JsonValue {
    JsonValue::Array(items)
}

fn first_number(texts: &[String]) -> Option<f64> {
    texts.iter().find_map(|t| t.parse::<f64>().ok())
}

#[test]
fn summarize_trace_extracts_common_fields() {
    let input = obj(vec![
        ("durationMs", n("123.4")),
        ("rootServiceName", s("checkout")),
        ("rootTraceName", s("POST /pay")),
        (
            "spanSets",
            arr(vec![obj(vec![(
                "spans",
                arr(vec![obj(vec![("spanID", s("1"))]), obj(vec![("spanID", s("2"))])]),
            )])]),
        ),
        ("startTimeUnixNano", s("1710000000000000000")),
        ("traceID", s("abc123")),
    ]);

    let summary = summarize_trace_fields(&input);
    assert_eq!(summary.trace_id, "abc123");
    assert_eq!(summary.root_service.as_deref(), Some("checkout"));
    assert_eq!(summary.root_name.as_deref(), Some("POST /pay"));
    assert_eq!(first_number(&summary.duration_texts), Some(123.4));
    assert_eq!(summary.span_count, Some(2));
    assert_eq!(summary.start_time_ns.as_deref(), Some("1710000000000000000"));
    assert_eq!(summary.start_time.as_deref(), Some("2024-03-09T16:00:00.000Z"));
}

#[test]
fn span_counter_counts_nested_spans_arrays() {
    let input = obj(vec![(
        "resourceSpans",
        arr(vec![obj(vec![(
            "scopeSpans",
            arr(vec![
                obj(vec![("spans", arr(vec![obj(vec![("id", n("1"))]), obj(vec![("id", n("2"))])]))]),
                obj(vec![("spans", arr(vec![obj(vec![("id", n("3"))])]))]),
            ]),
        )])]),
    )]);

    assert_eq!(count_spans_in_value(&input), 3);
}

#[test]
fn span_counter_does_not_search_inside_counted_spans() {
    let inner = obj(vec![("spans", arr(vec![n("1"), n("2"), n("3")]))]);
    let input = obj(vec![("spans", arr(vec![inner]))]);
    assert_eq!(count_spans_in_value(&input), 1);
    let not_array = obj(vec![("spans", obj(vec![("spans", arr(vec![n("1"), n("2")]))]))]);
    assert_eq!(count_spans_in_value(&not_array), 2);
    assert_eq!(count_spans_in_value(&s("spans")), 0);
}

#[test]
fn string_field_takes_first_string_or_number() {
    let input = obj(vec![("a", JsonValue::Bool(true)), ("b", n("42")), ("c", s("x"))]);
    assert_eq!(extract_string_field(&input, &["a", "b", "c"]).as_deref(), Some("42"));
    assert_eq!(extract_string_field(&input, &["c", "b"]).as_deref(), Some("x"));
    assert_eq!(extract_string_field(&input, &["a", "z"]), None);
    assert_eq!(extract_field_texts(&input, &["a", "c", "z", "b"]), vec!["x", "42"]);
}

#[test]
fn summary_without_id_or_spans_uses_placeholders() {
    let input = obj(vec![
        ("duration_ms", s("not a number")),
        ("name", s("GET /")),
        ("spanSets", arr(vec![obj(vec![("other", n("1"))])])),
        ("traceId", JsonValue::Null),
    ]);
    let summary = summarize_trace_fields(&input);
    assert_eq!(summary.trace_id, UNKNOWN_TRACE_ID);
    assert_eq!(summary.root_name.as_deref(), Some("GET /"));
    assert_eq!(summary.root_service, None);
    assert_eq!(summary.start_time, None);
    assert_eq!(first_number(&summary.duration_texts), None);
    assert_eq!(summary.span_count, None);
    assert_eq!(extract_span_count(&obj(vec![])), None);
}

#[test]
fn trace_get_renders_summary() {
    let trace = obj(vec![(
        "batches",
        arr(vec![obj(vec![("spans", arr(vec![n("1"), n("2")]))])]),
    )]);
    let result = trace_get("tempo-main".to_string(), "abc123".to_string(), trace);
    assert_eq!(result.detected_span_count, 2);
    assert_eq!(
        result.render_table(),
        "Trace ID: abc123\nDatasource: tempo-main\nDetected spans: 2\nUse --json to print full trace payload.\n"
    );
}

#[test]
fn trace_table_uses_dashes_for_missing_cells() {
    let rows = vec![TraceRow {
        trace_id: "abc".into(),
        root_service: Some("svc".into()),
        root_name: None,
        start_time: None,
        duration_ms: Some("1.500".into()),
        span_count: Some(2),
    }];
    assert_eq!(
        render_trace_table(&rows),
        "TRACE_ID  SERVICE  NAME  START  DURATION_MS  SPANS\nabc       svc      -     -      1.500        2\n"
    );
    assert_eq!(render_trace_table(&vec![]), "No traces found.\n");
}

#[test]
fn search_window_is_in_seconds() {
    let args = TracesSearchArgs {
        query: "{}".into(),
        datasource_uid: "t".into(),
        since: Some("1h".into()),
        from: None,
        to: None,
        limit: 20,
    };
    let (start, end) = search_window_at(&args, Timestamp { nanos: 7_200_000_000_000 }).unwrap();
    assert_eq!((start.as_str(), end.as_str()), ("3600", "7200"));
}
