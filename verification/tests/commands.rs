use lgtmcli::auth::{login, login_config, status};
use lgtmcli::cli::{LogDirectionArg, LogsQueryArgs, LogsStatsArgs, MetricsQueryArgs, MetricsRangeArgs, SqlDescribeArgs, SqlTablesArgs, TracesSearchArgs};
use lgtmcli::config::{
    load_saved_profile, profile_path, AuthOverrides, ConfigSource, EnvValue, GrafanaConfig,
    ProfilesFile, StoredProfile,
};
use lgtmcli::datasources::{list, DataSource};
use lgtmcli::grafana::{
    datasource_by_uid_endpoint, datasources_endpoint, ds_query_endpoint, ensure_grafana_success,
    parse_query_response, proxy_endpoint, trace_endpoint, LOKI_QUERY_RANGE_PATH,
    PROMETHEUS_QUERY_PATH, PROMETHEUS_QUERY_RANGE_PATH, TEMPO_SEARCH_PATH,
};
use lgtmcli::json::JsonValue;
use lgtmcli::logs::{logs_window_at, require_metric_result, stats_window_at, LokiStream};
use lgtmcli::metrics::{
    collect_samples, compare_samples, instant_time_seconds_at, range_window_at, MetricSample,
    PrometheusData, PrometheusQueryResponse, SampleOrder,
};
use lgtmcli::output::TableOutput;
use lgtmcli::sql::{check_sql_datasource, parse_ds_query_result, require_table_found, run_sql_query, validate_read_only_sql, SqlCell};
use lgtmcli::time::Timestamp;
use lgtmcli::traces::search_window_at;
use serde_json::Value;
use std::cmp::Ordering;

const SERVER: &str = "http://127.0.0.1:41234";

fn to_json(v: &Value) -> JsonValue {
    match v {
        Value::Null => JsonValue::Null,
        Value::Bool(b) => JsonValue::Bool(*b),
        Value::Number(n) => JsonValue::Number(n.to_string()),
        Value::String(s) => JsonValue::Str(s.clone()),
        Value::Array(a) => JsonValue::Array(a.iter().map(to_json).collect()),
        Value::Object(m) => JsonValue::Object(m.iter().map(|(k, v)| (k.clone(), to_json(v))).collect()),
    }
}

fn parse(text: &str) -> Value {
    serde_json::from_str(text).expect("valid json")
}

fn datasource(v: &Value) -> DataSource {
    DataSource {
        id: v["id"].as_i64().unwrap(),
        uid: v["uid"].as_str().unwrap().to_string(),
        name: v["name"].as_str().unwrap().to_string(),
        ds_type: v["type"].as_str().unwrap().to_string(),
        is_default: v["isDefault"].as_bool().unwrap_or(false),
    }
}

fn profile_file(url: &str, token: &str) -> ProfilesFile {
    ProfilesFile {
        schema_version: 1,
        active_profile: "default".to_string(),
        profiles: vec![(
            "default".to_string(),
            StoredProfile { grafana_url: url.to_string(), grafana_token: token.to_string(), extra: vec![] },
        )],
        extra: vec![],
    }
}

fn env(v: &str) -> EnvValue {
    EnvValue::Present(v.to_string())
}

fn now() -> Timestamp {
    Timestamp { nanos: 1_704_153_600_000_000_000 }
}

fn sorted(mut samples: Vec<MetricSample>) -> Vec<MetricSample> {
    samples.sort_by(|a, b| {
        let ts = match (a.timestamp_unix.parse::<f64>(), b.timestamp_unix.parse::<f64>()) {
            (Ok(x), Ok(y)) => x.partial_cmp(&y).unwrap_or(Ordering::Equal),
            _ => a.timestamp_unix.cmp(&b.timestamp_unix),
        };
        let ts = match ts {
            Ordering::Less => SampleOrder::Less,
            Ordering::Equal => SampleOrder::Equal,
            Ordering::Greater => SampleOrder::Greater,
        };
        match compare_samples(ts, a, b) {
            SampleOrder::Less => Ordering::Less,
            SampleOrder::Equal => Ordering::Equal,
            SampleOrder::Greater => Ordering::Greater,
        }
    });
    samples
}

#[test]
fn auth_status_succeeds_with_valid_credentials() {
    let config = GrafanaConfig::resolve(&AuthOverrides::default(), env(SERVER), env("test-token"), &None).unwrap();
    assert_eq!(datasources_endpoint(&config.base_url), format!("{SERVER}/api/datasources"));
    assert_eq!(config.token, "test-token");
    let body = parse(r#"[
        {"id": 1, "uid": "loki-prod", "name": "Loki Prod", "type": "loki", "isDefault": true}
    ]"#);
    let text = status(&config, body.as_array().unwrap().len()).render_table();
    assert!(text.contains("credentials look good"));
    assert!(text.contains("Visible datasources: 1"));
}

#[test]
fn auth_status_fails_on_unauthorized() {
    let err = ensure_grafana_success(401, r#"{"message":"unauthorized"}"#, "calling Grafana datasources API")
        .unwrap_err();
    assert!(err.message().contains("HTTP 401 Unauthorized"));
}

#[test]
fn auth_uses_saved_profile_when_flags_and_env_are_missing() {
    assert_eq!(
        profile_path(None, Some("/tmp/profile-only")).as_deref(),
        Some("/tmp/profile-only/.config/lgtmcli/profiles.json")
    );
    let loaded = profile_file(SERVER, "profile-token").sanitize().unwrap();
    let profile = load_saved_profile(Some(loaded));
    let config = GrafanaConfig::resolve(&AuthOverrides::default(), EnvValue::NotPresent, EnvValue::NotPresent, &profile)
        .unwrap();
    assert_eq!(config.token, "profile-token");
    let text = status(&config, 0).render_table();
    assert!(text.contains("credentials look good"));
    assert!(text.contains("Token source: saved profile"));
}

#[test]
fn auth_uses_xdg_config_home_for_saved_profile() {
    assert_eq!(
        profile_path(Some("/tmp/xdg-config-home-root"), Some("/tmp/xdg-config-home-home")).as_deref(),
        Some("/tmp/xdg-config-home-root/lgtmcli/profiles.json")
    );
    let loaded = profile_file(SERVER, "xdg-token").sanitize().unwrap();
    let profile = load_saved_profile(Some(loaded));
    let config = GrafanaConfig::resolve(&AuthOverrides::default(), EnvValue::NotPresent, EnvValue::NotPresent, &profile)
        .unwrap();
    assert_eq!(config.token, "xdg-token");
    let text = status(&config, 0).render_table();
    assert!(text.contains("credentials look good"));
    assert!(text.contains("Token source: saved profile"));
}

#[test]
fn auth_env_overrides_saved_profile() {
    let profile = load_saved_profile(Some(profile_file("https://example.invalid", "profile-token").sanitize().unwrap()));
    let config = GrafanaConfig::resolve(&AuthOverrides::default(), env(SERVER), env("env-token"), &profile).unwrap();
    assert_eq!(config.token, "env-token");
    assert_eq!(config.base_url, SERVER);
    assert!(status(&config, 0).render_table().contains("Token source: environment variable"));
}

#[test]
fn auth_flags_override_env_and_saved_profile() {
    let profile = load_saved_profile(Some(profile_file("https://example.invalid", "profile-token").sanitize().unwrap()));
    let overrides = AuthOverrides { base_url: Some(SERVER.to_string()), token: Some("flag-token".to_string()) };
    let config =
        GrafanaConfig::resolve(&overrides, env("https://another.invalid"), env("env-token"), &profile).unwrap();
    assert_eq!(config.token, "flag-token");
    assert_eq!(config.base_url, SERVER);
    assert!(status(&config, 0).render_table().contains("Token source: --url/--token flag"));
}

#[test]
fn auth_login_saves_profile_and_allows_followup_status_without_env() {
    let overrides = AuthOverrides { base_url: Some(SERVER.to_string()), token: Some("saved-token".to_string()) };
    let inputs =
        lgtmcli::config::resolve_auth_inputs(&overrides, EnvValue::NotPresent, EnvValue::NotPresent, &None).unwrap();
    let config = login_config(inputs.base_url.unwrap().value, inputs.token.unwrap().value);
    let saved = ProfilesFile::default().with_saved_profile(&config.base_url, &config.token).unwrap();
    let result = login(config, "/tmp/login-saves-profile/.config/lgtmcli/profiles.json".to_string(), true, 0);
    assert!(result.render_table().contains("saved Grafana credentials"));

    let reloaded = saved.sanitize().unwrap();
    let profile = load_saved_profile(Some(reloaded));
    let config = GrafanaConfig::resolve(&AuthOverrides::default(), EnvValue::NotPresent, EnvValue::NotPresent, &profile)
        .unwrap();
    assert_eq!(config.token, "saved-token");
    assert_eq!(config.token_source, ConfigSource::Profile);
    assert!(status(&config, 0).render_table().contains("Token source: saved profile"));
}

#[test]
fn datasources_list_json_applies_type_filter() {
    let body = parse(r#"[
        {"id": 1, "uid": "loki-prod", "name": "Loki Prod", "type": "loki", "isDefault": true},
        {"id": 2, "uid": "mimir-prod", "name": "Mimir Prod", "type": "prometheus", "isDefault": false},
        {"id": 3, "uid": "loki-dev", "name": "Loki Dev", "type": "Loki", "isDefault": false}
    ]"#);
    let datasources: Vec<DataSource> = body.as_array().unwrap().iter().map(datasource).collect();
    let result = list(datasources, Some("loki".to_string()));
    assert_eq!(result.ds_type.as_deref(), Some("loki"));
    assert_eq!(result.count, 2);
    assert_eq!(result.datasources.len(), 2);
    assert!(result.datasources.iter().all(|d| d.ds_type.eq_ignore_ascii_case("loki")));
}

#[test]
fn logs_query_json_returns_lines() {
    assert_eq!(
        proxy_endpoint(SERVER, "loki-prod", LOKI_QUERY_RANGE_PATH),
        format!("{SERVER}/api/datasources/proxy/uid/loki-prod/loki/api/v1/query_range")
    );
    let body = parse(r#"{
        "status": "success",
        "data": {
            "resultType": "streams",
            "result": [
                {
                    "stream": {"service": "api", "level": "error"},
                    "values": [
                        ["1710000000000000000", "boom"],
                        ["1710000001000000000", "still bad"]
                    ]
                }
            ]
        }
    }"#);
    let streams: Vec<LokiStream> = body["data"]["result"]
        .as_array()
        .unwrap()
        .iter()
        .map(|s| LokiStream {
            stream: s["stream"].as_object().unwrap().iter().map(|(k, v)| (k.clone(), v.as_str().unwrap().to_string())).collect(),
            values: s["values"]
                .as_array()
                .unwrap()
                .iter()
                .map(|p| (p[0].as_str().unwrap().to_string(), p[1].as_str().unwrap().to_string()))
                .collect(),
        })
        .collect();
    let args = LogsQueryArgs {
        query: "{service=\"api\"}".to_string(),
        datasource_uid: "loki-prod".to_string(),
        since: None,
        from: Some("2024-01-01T00:00:00Z".to_string()),
        to: Some("2024-01-01T00:10:00Z".to_string()),
        limit: 100,
        direction: LogDirectionArg::Backward,
    };
    let (start_ns, end_ns) = logs_window_at(&args, now()).unwrap();
    let result = lgtmcli::logs::query(args, start_ns, end_ns, streams);
    assert_eq!(result.datasource_uid, "loki-prod");
    assert_eq!(result.query, "{service=\"api\"}");
    assert_eq!(result.count, 2);
    assert_eq!(result.lines.len(), 2);
    assert_eq!(result.lines[0].line, "still bad");
    assert_eq!(result.lines[1].line, "boom");
}

fn prometheus(text: &str) -> PrometheusQueryResponse {
    let body = parse(text);
    PrometheusQueryResponse {
        status: body["status"].as_str().unwrap().to_string(),
        data: PrometheusData {
            result_type: body["data"]["resultType"].as_str().unwrap().to_string(),
            result: to_json(&body["data"]["result"]),
        },
    }
}

#[test]
fn metrics_query_json_returns_vector_samples() {
    assert_eq!(
        proxy_endpoint(SERVER, "mimir-prod", PROMETHEUS_QUERY_PATH),
        format!("{SERVER}/api/datasources/proxy/uid/mimir-prod/api/v1/query")
    );
    let response = prometheus(r#"{
        "status": "success",
        "data": {
            "resultType": "vector",
            "result": [
                {
                    "metric": {"__name__": "up", "job": "api"},
                    "value": [1710000000, "1"]
                }
            ]
        }
    }"#);
    let args = MetricsQueryArgs {
        query: "up{job=\"api\"}".to_string(),
        datasource_uid: "mimir-prod".to_string(),
        time: Some("2024-01-01T00:00:00Z".to_string()),
    };
    let time = instant_time_seconds_at(args.time.as_deref(), now()).unwrap();
    let data = parse_query_response(response, "Prometheus instant query").unwrap();
    let result_type = data.result_type.clone();
    let samples = sorted(collect_samples(&data).unwrap());
    let result = lgtmcli::metrics::query(args, result_type, &time, samples);
    assert_eq!(result.mode, "instant");
    assert_eq!(result.result_type, "vector");
    assert_eq!(result.count, 1);
    assert_eq!(result.samples[0].value, "1");
}

#[test]
fn metrics_range_json_returns_matrix_samples() {
    assert_eq!(
        proxy_endpoint(SERVER, "mimir-prod", PROMETHEUS_QUERY_RANGE_PATH),
        format!("{SERVER}/api/datasources/proxy/uid/mimir-prod/api/v1/query_range")
    );
    let response = prometheus(r#"{
        "status": "success",
        "data": {
            "resultType": "matrix",
            "result": [
                {
                    "metric": {"__name__": "up", "job": "api"},
                    "values": [
                        [1710000000, "1"],
                        [1710000060, "0"]
                    ]
                }
            ]
        }
    }"#);
    let args = MetricsRangeArgs {
        query: "up{job=\"api\"}".to_string(),
        datasource_uid: "mimir-prod".to_string(),
        since: None,
        from: Some("2024-01-01T00:00:00Z".to_string()),
        to: Some("2024-01-01T00:02:00Z".to_string()),
        step: "1m".to_string(),
    };
    let (start, end, step) = range_window_at(&args, now()).unwrap();
    let data = parse_query_response(response, "Prometheus range query").unwrap();
    let result_type = data.result_type.clone();
    let samples = sorted(collect_samples(&data).unwrap());
    let result = lgtmcli::metrics::range(args, result_type, &start, &end, step, samples);
    assert_eq!(result.mode, "range");
    assert_eq!(result.count, 2);
    assert_eq!(result.samples[0].value, "1");
    assert_eq!(result.samples[1].value, "0");
}

#[test]
fn logs_stats_json_returns_timeseries_samples() {
    assert_eq!(
        proxy_endpoint(SERVER, "loki-prod", LOKI_QUERY_RANGE_PATH),
        format!("{SERVER}/api/datasources/proxy/uid/loki-prod/loki/api/v1/query_range")
    );
    let response = prometheus(r#"{
        "status": "success",
        "data": {
            "resultType": "matrix",
            "result": [
                {
                    "metric": {"host": "app-1", "quantile": "0.95"},
                    "values": [
                        [1710000000, "120.5"],
                        [1710000060, "98.0"]
                    ]
                }
            ]
        }
    }"#);
    let args = LogsStatsArgs {
        query: "quantile_over_time(0.95, ({host=\"app-1\", role=\"web\"} |= \"gunicorn.access\" | json | unwrap server_time_ms)[1m])".to_string(),
        datasource_uid: "loki-prod".to_string(),
        since: None,
        from: Some("2024-01-01T00:00:00Z".to_string()),
        to: Some("2024-01-01T01:00:00Z".to_string()),
        step: "1m".to_string(),
    };
    let (start, end, step) = stats_window_at(&args, now()).unwrap();
    assert_eq!((start.as_str(), end.as_str(), step), ("1704067200", "1704070800", 60));
    let data = parse_query_response(response, "Loki stats query").unwrap();
    assert!(require_metric_result(&data.result_type).is_ok());
    let result_type = data.result_type.clone();
    let samples = sorted(collect_samples(&data).unwrap());
    let result = lgtmcli::logs::stats(args, result_type, &start, &end, step, samples);
    assert_eq!(result.result_type, "matrix");
    assert_eq!(result.count, 2);
    assert_eq!(result.samples[0].value, "120.5");
    assert_eq!(result.samples[1].value, "98.0");
}

#[test]
fn logs_stats_fails_for_stream_queries() {
    let response = prometheus(r#"{
        "status": "success",
        "data": {
            "resultType": "streams",
            "result": [
                {
                    "stream": {"service": "api"},
                    "values": [["1710000000000000000", "line"]]
                }
            ]
        }
    }"#);
    let data = parse_query_response(response, "Loki stats query").unwrap();
    let err = require_metric_result(&data.result_type).unwrap_err();
    assert!(err.message().contains("expects metric LogQL"));
}

fn pg_ro(text: &str) -> DataSource {
    datasource(&parse(text))
}

#[test]
fn sql_query_json_coerces_time_columns_to_rfc3339() {
    let ds = pg_ro(r#"{"id": 42, "uid": "pg-ro", "name": "Postgres Read Replica", "type": "grafana-postgresql-datasource", "isDefault": false}"#);
    let query = "select opened_at, true as flag from users".to_string();
    assert!(validate_read_only_sql(&query).is_ok());
    let response = to_json(&parse(r#"{
        "results": {
            "A": {
                "frames": [
                    {
                        "schema": {"fields": [{"name": "opened_at", "type": "time"}, {"name": "flag", "type": "boolean"}]},
                        "data": {"values": [[0], [true]]}
                    }
                ]
            }
        }
    }"#));
    let parsed = parse_ds_query_result(&response).unwrap();
    let result = run_sql_query(ds.uid, ds.ds_type, query, parsed, 500);
    assert_eq!(lgtmcli::sql::row_value(&result.rows[0], "opened_at"), SqlCell::Text("1970-01-01T00:00:00Z".to_string()));
    assert_eq!(lgtmcli::sql::row_value(&result.rows[0], "flag"), SqlCell::Bool(true));
}

#[test]
fn sql_schemas_lists_rows() {
    let ds = pg_ro(r#"{"id": 42, "uid": "pg-ro", "name": "Postgres Read Replica", "type": "postgres", "isDefault": false}"#);
    let query = lgtmcli::sql::schemas(&ds.ds_type).unwrap();
    assert!(query.contains("information_schema.schemata"));
    let response = to_json(&parse(r#"{
        "results": {
            "A": {
                "frames": [
                    {
                        "schema": {"fields": [{"name": "schema_name"}]},
                        "data": {"values": [["public", "app"]]}
                    }
                ]
            }
        }
    }"#));
    let parsed = parse_ds_query_result(&response).unwrap();
    let result = run_sql_query(ds.uid, ds.ds_type, query, parsed, 500);
    assert_eq!(result.columns[0], "schema_name");
    assert_eq!(result.row_count, 2);
    assert_eq!(lgtmcli::sql::row_value(&result.rows[0], "schema_name"), SqlCell::Text("public".to_string()));
}

#[test]
fn sql_tables_lists_rows() {
    assert_eq!(datasource_by_uid_endpoint(SERVER, "pg-ro"), format!("{SERVER}/api/datasources/uid/pg-ro"));
    assert_eq!(ds_query_endpoint(SERVER), format!("{SERVER}/api/ds/query"));
    let ds = pg_ro(r#"{"id": 42, "uid": "pg-ro", "name": "Postgres Read Replica", "type": "postgres", "isDefault": false}"#);
    let args = SqlTablesArgs { datasource_uid: "pg-ro".to_string(), schema: None, like: None, limit: 500 };
    let query = lgtmcli::sql::tables(&ds.ds_type, &args).unwrap();
    let response = to_json(&parse(r#"{
        "results": {
            "A": {
                "frames": [
                    {
                        "schema": {"fields": [{"name": "schema_name"}, {"name": "table_name"}]},
                        "data": {"values": [["public", "public"], ["users", "orders"]]}
                    }
                ]
            }
        }
    }"#));
    let parsed = parse_ds_query_result(&response).unwrap();
    let result = run_sql_query(ds.uid, ds.ds_type, query, parsed, args.limit);
    assert_eq!(result.columns[0], "schema_name");
    assert_eq!(result.columns[1], "table_name");
    assert_eq!(result.row_count, 2);
    assert_eq!(lgtmcli::sql::row_value(&result.rows[0], "table_name"), SqlCell::Text("users".to_string()));
}

#[test]
fn sql_describe_lists_columns() {
    let ds = pg_ro(r#"{"id": 42, "uid": "pg-ro", "name": "Postgres Read Replica", "type": "postgres", "isDefault": false}"#);
    let args = SqlDescribeArgs {
        table: "users".to_string(),
        datasource_uid: "pg-ro".to_string(),
        schema: Some("public".to_string()),
        limit: 500,
    };
    let query = lgtmcli::sql::describe(&ds.ds_type, &args).unwrap();
    let response = to_json(&parse(r#"{
        "results": {
            "A": {
                "frames": [
                    {
                        "schema": {"fields": [{"name": "schema_name"}, {"name": "column_name"}, {"name": "data_type"}]},
                        "data": {"values": [["public", "public"], ["id", "email"], ["bigint", "text"]]}
                    }
                ]
            }
        }
    }"#));
    let parsed = parse_ds_query_result(&response).unwrap();
    let result = run_sql_query(ds.uid, ds.ds_type, query, parsed, args.limit);
    assert_eq!(result.row_count, 2);
    assert_eq!(lgtmcli::sql::row_value(&result.rows[0], "column_name"), SqlCell::Text("id".to_string()));
    assert_eq!(lgtmcli::sql::row_value(&result.rows[1], "data_type"), SqlCell::Text("text".to_string()));
}

#[test]
fn sql_query_json_returns_rows_and_truncates_with_limit() {
    let ds = pg_ro(r#"{"id": 42, "uid": "pg-ro", "name": "Postgres Read Replica", "type": "grafana-postgresql-datasource", "isDefault": false}"#);
    let query = "select id, email from users order by id".to_string();
    assert!(validate_read_only_sql(&query).is_ok());
    assert!(check_sql_datasource(&ds.ds_type, false).is_ok());
    let response = to_json(&parse(r#"{
        "results": {
            "A": {
                "frames": [
                    {
                        "schema": {"fields": [{"name": "id"}, {"name": "email"}]},
                        "data": {"values": [[1, 2], ["a@example.com", "b@example.com"]]}
                    }
                ]
            }
        }
    }"#));
    let parsed = parse_ds_query_result(&response).unwrap();
    let result = run_sql_query(ds.uid, ds.ds_type, query, parsed, 1);
    assert_eq!(result.datasource_uid, "pg-ro");
    assert_eq!(result.datasource_type, "grafana-postgresql-datasource");
    assert_eq!(result.row_count, 1);
    assert_eq!(result.total_row_count, 2);
    assert!(result.truncated);
    assert_eq!(lgtmcli::sql::row_value(&result.rows[0], "id"), SqlCell::Number("1".to_string()));
    assert_eq!(lgtmcli::sql::row_value(&result.rows[0], "email"), SqlCell::Text("a@example.com".to_string()));
}

#[test]
fn sql_describe_fails_when_table_not_found() {
    let ds = pg_ro(r#"{"id": 42, "uid": "pg-ro", "name": "Postgres Read Replica", "type": "postgres", "isDefault": false}"#);
    let args = SqlDescribeArgs {
        table: "does_not_exist".to_string(),
        datasource_uid: "pg-ro".to_string(),
        schema: None,
        limit: 500,
    };
    assert!(lgtmcli::sql::describe(&ds.ds_type, &args).is_ok());
    let response = to_json(&parse(r#"{
        "results": {
            "A": {
                "frames": [
                    {
                        "schema": {"fields": [{"name": "schema_name"}, {"name": "column_name"}, {"name": "data_type"}]},
                        "data": {"values": [[], [], []]}
                    }
                ]
            }
        }
    }"#));
    let parsed = parse_ds_query_result(&response).unwrap();
    let result = require_table_found(&args, parsed);
    let err = result.unwrap_err();
    assert!(err.message().contains("table 'does_not_exist' was not found"));
}

#[test]
fn sql_query_rejects_non_sql_datasource_types() {
    assert!(validate_read_only_sql("select 1").is_ok());
    let ds = pg_ro(r#"{"id": 7, "uid": "loki-prod", "name": "Loki Prod", "type": "loki", "isDefault": false}"#);
    let err = check_sql_datasource(&ds.ds_type, false).unwrap_err();
    assert!(err.message().contains("is not recognized as SQL by lgtmcli"));
}

#[test]
fn sql_query_force_allows_unknown_datasource_type() {
    assert!(validate_read_only_sql("select 1 as value").is_ok());
    let ds = pg_ro(r#"{"id": 77, "uid": "custom-sql", "name": "Custom SQL Plugin", "type": "my-custom-sql-plugin", "isDefault": false}"#);
    assert!(check_sql_datasource(&ds.ds_type, true).is_ok());
    let response = to_json(&parse(r#"{
        "results": {"A": {"frames": [{"schema": {"fields": [{"name": "value"}]}, "data": {"values": [[1]]}}]}}
    }"#));
    let parsed = parse_ds_query_result(&response).unwrap();
    let result = run_sql_query(ds.uid, ds.ds_type, "select 1 as value".to_string(), parsed, 100);
    assert_eq!(result.row_count, 1);
}

#[test]
fn traces_search_json_returns_trace_summaries() {
    assert_eq!(
        proxy_endpoint(SERVER, "tempo-main", TEMPO_SEARCH_PATH),
        format!("{SERVER}/api/datasources/proxy/uid/tempo-main/api/search")
    );
    let args = TracesSearchArgs {
        query: "{ status = error }".to_string(),
        datasource_uid: "tempo-main".to_string(),
        since: None,
        from: Some("2024-01-01T00:00:00Z".to_string()),
        to: Some("2024-01-01T01:00:00Z".to_string()),
        limit: 20,
    };
    let (start, end) = search_window_at(&args, now()).unwrap();
    let body = parse(r#"{
        "traces": [
            {
                "traceID": "abc123",
                "rootServiceName": "checkout",
                "rootTraceName": "POST /pay",
                "startTimeUnixNano": "1710000000000000000",
                "durationMs": 95.1,
                "spanSets": [{"spans": [{"spanID": "1"}, {"spanID": "2"}]}]
            }
        ]
    }"#);
    let hits: Vec<JsonValue> = body["traces"].as_array().unwrap().iter().map(to_json).collect();
    let result = lgtmcli::traces::search(args, &start, &end, &hits);
    assert_eq!(result.count, 1);
    assert_eq!(result.traces[0].trace_id, "abc123");
    assert_eq!(result.traces[0].root_service.as_deref(), Some("checkout"));
    assert_eq!(result.traces[0].span_count, Some(2));
}

#[test]
fn traces_get_prints_summary_in_table_mode() {
    assert_eq!(
        trace_endpoint(SERVER, "tempo-main", "abc123"),
        format!("{SERVER}/api/datasources/proxy/uid/tempo-main/api/v2/traces/abc123")
    );
    let trace = to_json(&parse(r#"{
        "resourceSpans": [
            {"scopeSpans": [{"spans": [{"spanId": "1"}, {"spanId": "2"}]}]}
        ]
    }"#));
    let text = lgtmcli::traces::get("tempo-main".to_string(), "abc123".to_string(), trace).render_table();
    assert!(text.contains("Trace ID: abc123"));
    assert!(text.contains("Detected spans: 2"));
}
