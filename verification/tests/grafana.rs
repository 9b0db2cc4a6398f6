use lgtmcli::error::Failure;
use lgtmcli::grafana::{
    api_base, datasource_by_uid_endpoint, datasources_endpoint, ds_query_endpoint,
    ensure_grafana_success, instant_params, loki_range_params, parse_query_response, proxy_endpoint,
    range_step_params, sql_query_body, tempo_search_params, trace_endpoint, truncate_for_log,
    LOKI_QUERY_RANGE_PATH,
};
use lgtmcli::json::JsonValue;
use lgtmcli::metrics::{PrometheusData, PrometheusQueryResponse};

fn pairs(v: &[(String, String)]) -> Vec<(&str, &str)> {
    v.iter().map(|(a, b)| (a.as_str(), b.as_str())).collect()
}

#[test]
fn endpoints_drop_trailing_slashes() {
    assert_eq!(api_base("https://g//"), "https://g");
    assert_eq!(datasources_endpoint("https://g/"), "https://g/api/datasources");
    assert_eq!(datasource_by_uid_endpoint("https://g", "pg-ro"), "https://g/api/datasources/uid/pg-ro");
    assert_eq!(ds_query_endpoint("https://g"), "https://g/api/ds/query");
    assert_eq!(
        proxy_endpoint("https://g/", "loki-prod", LOKI_QUERY_RANGE_PATH),
        "https://g/api/datasources/proxy/uid/loki-prod/loki/api/v1/query_range"
    );
    assert_eq!(
        trace_endpoint("https://g", "tempo-main", "abc123"),
        "https://g/api/datasources/proxy/uid/tempo-main/api/v2/traces/abc123"
    );
}

#[test]
fn query_parameters_in_order() {
    assert_eq!(
        pairs(&loki_range_params("{a=\"b\"}", "1", "2", 100, "backward")),
        vec![("query", "{a=\"b\"}"), ("start", "1"), ("end", "2"), ("limit", "100"), ("direction", "backward")]
    );
    assert_eq!(pairs(&range_step_params("up", "1", "2", "60")), vec![("query", "up"), ("start", "1"), ("end", "2"), ("step", "60")]);
    assert_eq!(pairs(&instant_params("up", "5")), vec![("query", "up"), ("time", "5")]);
    assert_eq!(
        pairs(&tempo_search_params("{}", "1", "2", 20)),
        vec![("q", "{}"), ("start", "1"), ("end", "2"), ("limit", "20")]
    );
}

#[test]
fn sql_body_is_compact_json_with_sorted_keys() {
    let body = sql_query_body("pg-ro", "grafana-postgresql-datasource", "select \"x\"");
    assert_eq!(
        body,
        "{\"from\":\"now-1h\",\"queries\":[{\"datasource\":{\"type\":\"grafana-postgresql-datasource\",\"uid\":\"pg-ro\"},\"format\":\"table\",\"intervalMs\":1000,\"maxDataPoints\":1000,\"rawQuery\":true,\"rawSql\":\"select \\\"x\\\"\",\"refId\":\"A\"}],\"to\":\"now\"}"
    );
}

#[test]
fn statuses_map_to_failures() {
    assert!(ensure_grafana_success(200, "", "x").is_ok());
    assert!(ensure_grafana_success(299, "", "x").is_ok());
    assert!(matches!(ensure_grafana_success(401, "", "a"), Err(Failure::Unauthorized(a)) if a == "a"));
    assert!(matches!(ensure_grafana_success(403, "", "a"), Err(Failure::Forbidden(_))));
    assert!(matches!(ensure_grafana_success(404, "", "a"), Err(Failure::NotFound(_))));
    match ensure_grafana_success(500, "boom", "querying") {
        Err(Failure::HttpStatus(code, action, body)) => {
            assert_eq!(code, 500);
            assert_eq!(action, "querying");
            assert_eq!(body, "boom");
        },
        _ => panic!("expected an HTTP failure"),
    }
}

#[test]
fn long_bodies_are_cut_between_characters() {
    let short = "a".repeat(400);
    assert_eq!(truncate_for_log(&short, 400), short);
    let long = "a".repeat(401);
    assert_eq!(truncate_for_log(&long, 400), format!("{}...", "a".repeat(400)));
    let wide = format!("{}é", "a".repeat(399));
    assert_eq!(truncate_for_log(&wide, 400), format!("{}...", "a".repeat(399)));
    assert_eq!(truncate_for_log("héllo", 2), "h...");
}

#[test]
fn query_status_must_be_success() {
    let ok = PrometheusQueryResponse {
        status: "success".into(),
        data: PrometheusData { result_type: "vector".into(), result: JsonValue::Array(vec![]) },
    };
    assert_eq!(parse_query_response(ok, "Prometheus instant query").unwrap().result_type, "vector");
    let bad = PrometheusQueryResponse {
        status: "error".into(),
        data: PrometheusData { result_type: "".into(), result: JsonValue::Null },
    };
    assert!(matches!(
        parse_query_response(bad, "Prometheus range query"),
        Err(Failure::QueryNotSuccessful(k, s)) if k == "Prometheus range query" && s == "error"
    ));
}

#[test]
fn path_segments_are_percent_encoded() {
    assert_eq!(
        datasource_by_uid_endpoint("https://g", "a b/é~x"),
        "https://g/api/datasources/uid/a%20b%2F%C3%A9~x"
    );
    assert_eq!(
        trace_endpoint("https://g", "t?1", "ab#c"),
        "https://g/api/datasources/proxy/uid/t%3F1/api/v2/traces/ab%23c"
    );
    assert_eq!(proxy_endpoint("https://g", "😀", ""), "https://g/api/datasources/proxy/uid/%F0%9F%98%80");
}
