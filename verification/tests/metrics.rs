use lgtmcli::error::Failure;
use lgtmcli::json::JsonValue;
use lgtmcli::metrics::{collect_samples, compare_samples, MetricSample, PrometheusData, SampleOrder};
use lgtmcli::metrics::instant_time_seconds_at;
use lgtmcli::time::Timestamp;
use lgtmcli::metrics::parse_step;
use lgtmcli::cli::MetricsRangeArgs;
use lgtmcli::metrics::range_window_at;
use lgtmcli::cli::MetricsQueryArgs;
use lgtmcli::metrics::{make_sample, query as metrics_query};
use lgtmcli::output::TableOutput;

fn s(v: &str) -> JsonValue {
    JsonValue::Str(v.to_string())
}

fn n(v: &str) -> JsonValue {
    JsonValue::Number(v.to_string())
}

fn obj(entries: Vec<(&str, JsonValue)>) -> JsonValue {
    JsonValue::Object(entries.into_iter().map(|(k, v)| (k.to_string(), v)).collect())
}

fn label<'a>(sample: &'a MetricSample, key: &str) -> Option<&'a str> {
    sample.labels.iter().find(|(k, _)| k == key).map(|(_, v)| v.as_str())
}

#[test]
fn extracts_vector_samples() {
    let data = PrometheusData {
        result_type: "vector".to_string(),
        result: JsonValue::Array(vec![obj(vec![
            ("metric", obj(vec![("job", s("api"))])),
            ("value", JsonValue::Array(vec![n("1710000000"), s("1")])),
        ])]),
    };

    let samples = collect_samples(&data).expect("extract vector");
    assert_eq!(samples.len(), 1);
    assert_eq!(samples[0].value, "1");
    assert_eq!(label(&samples[0], "job").unwrap(), "api");
}

#[test]
fn extracts_matrix_samples() {
    let data = PrometheusData {
        result_type: "matrix".to_string(),
        result: JsonValue::Array(vec![obj(vec![
            ("metric", obj(vec![("job", s("api"))])),
            (
                "values",
                JsonValue::Array(vec![
                    JsonValue::Array(vec![n("1710000000"), s("1")]),
                    JsonValue::Array(vec![n("1710000060"), s("2")]),
                ]),
            ),
        ])]),
    };

    let samples = collect_samples(&data).expect("extract matrix");
    assert_eq!(samples.len(), 2);
    assert_eq!(samples[0].value, "1");
    assert_eq!(samples[1].value, "2");
    assert_eq!(samples[1].timestamp, "2024-03-09T16:01:00.000Z");
}

#[test]
fn extracts_scalar_and_reports_shape_errors() {
    let data = PrometheusData {
        result_type: "scalar".to_string(),
        result: JsonValue::Array(vec![n("1710000000.5"), s("42")]),
    };
    let samples = collect_samples(&data).unwrap();
    assert_eq!(samples.len(), 1);
    assert_eq!(samples[0].timestamp, "1710000000.5");
    assert!(samples[0].labels.is_empty());

    let bad = PrometheusData { result_type: "streams".to_string(), result: JsonValue::Null };
    assert!(matches!(collect_samples(&bad), Err(Failure::UnsupportedResultType(ref t)) if t == "streams"));
    let bad = PrometheusData { result_type: "vector".to_string(), result: JsonValue::Null };
    assert!(matches!(collect_samples(&bad), Err(Failure::VectorNotArray)));
    let bad = PrometheusData {
        result_type: "matrix".to_string(),
        result: JsonValue::Array(vec![obj(vec![("values", JsonValue::Array(vec![n("1")]))])]),
    };
    assert!(matches!(collect_samples(&bad), Err(Failure::MatrixPointNotArray)));
}

#[test]
fn equal_timestamps_fall_back_to_labels() {
    let a = MetricSample {
        timestamp_unix: "1".to_string(),
        timestamp: "x".to_string(),
        labels: vec![("job".to_string(), "a".to_string())],
        value: "1".to_string(),
    };
    let b = MetricSample {
        timestamp_unix: "1".to_string(),
        timestamp: "x".to_string(),
        labels: vec![("job".to_string(), "b".to_string())],
        value: "1".to_string(),
    };
    assert!(compare_samples(SampleOrder::Equal, &a, &b) == SampleOrder::Less);
    assert!(compare_samples(SampleOrder::Greater, &a, &b) == SampleOrder::Greater);
    assert!(compare_samples(SampleOrder::Equal, &b, &b) == SampleOrder::Equal);
}

#[test]
fn instant_time_defaults_to_now_and_reports_bad_input() {
    let now = Timestamp { nanos: 1_700_000_000_500_000_000 };
    assert_eq!(instant_time_seconds_at(None, now).unwrap(), "1700000000");
    assert_eq!(instant_time_seconds_at(Some("2024-01-01T00:00:00Z"), now).unwrap(), "1704067200");
    assert!(matches!(instant_time_seconds_at(Some("yesterday"), now), Err(Failure::InvalidTime(t)) if t == "yesterday"));
}

#[test]
fn steps_are_whole_seconds_of_at_least_one() {
    assert_eq!(parse_step("1m").unwrap(), 60);
    assert_eq!(parse_step("90s").unwrap(), 90);
    assert!(matches!(parse_step("500ms"), Err(Failure::StepTooSmall)));
    assert!(matches!(parse_step("soon"), Err(Failure::InvalidStep(t)) if t == "soon"));
}

#[test]
fn range_window_checks_range_then_step() {
    let args = |since: Option<&str>, step: &str| MetricsRangeArgs {
        query: "up".into(),
        datasource_uid: "m".into(),
        since: since.map(|s| s.to_string()),
        from: None,
        to: None,
        step: step.into(),
    };
    let now = Timestamp { nanos: 1_700_000_000_000_000_000 };
    let (start, end, step) = range_window_at(&args(Some("2m"), "30s"), now).unwrap();
    assert_eq!((start.as_str(), end.as_str(), step), ("1699999880", "1700000000", 30));
    let (start, _, _) = range_window_at(&args(None, "1m"), now).unwrap();
    assert_eq!(start, "1699996400");
    assert!(matches!(range_window_at(&args(Some("bogus"), "0s"), now), Err(Failure::InvalidDuration(_))));
    assert!(matches!(range_window_at(&args(Some("1h"), "0s"), now), Err(Failure::StepTooSmall)));
}

#[test]
fn metric_results_render_samples() {
    let args = MetricsQueryArgs { query: "up".into(), datasource_uid: "m".into(), time: None };
    let s = make_sample("0".into(), vec![("job".into(), "api".into())], "1".into());
    let r = metrics_query(args, "vector".into(), "0", vec![s]);
    assert_eq!(r.mode, "instant");
    assert_eq!(r.time.as_deref(), Some("1970-01-01T00:00:00.000Z"));
    assert_eq!(r.count, 1);
    assert_eq!(
        r.render_table(),
        "TIMESTAMP                 LABELS     VALUE\n1970-01-01T00:00:00.000Z  {job=api}  1\n"
    );
    let empty = metrics_query(
        MetricsQueryArgs { query: "up".into(), datasource_uid: "m".into(), time: None },
        "vector".into(),
        "0",
        vec![],
    );
    assert_eq!(empty.render_table(), "No metric samples found.\n");
}
