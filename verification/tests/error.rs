use lgtmcli::error::Failure;
use lgtmcli::grafana::ensure_grafana_success;
use lgtmcli::sql::check_sql_datasource;

#[test]
fn messages_name_the_failure() {
    let e = ensure_grafana_success(401, "{\"message\":\"unauthorized\"}", "calling Grafana datasources API").unwrap_err();
    assert_eq!(
        e.message(),
        "HTTP 401 Unauthorized while calling Grafana datasources API. Check Grafana token credentials."
    );
    let e = check_sql_datasource("loki", false).unwrap_err();
    assert!(e.message().contains("is not recognized as SQL by lgtmcli"));
    assert_eq!(
        Failure::<String>::ColumnCountMismatch(3, 2).message(),
        "invalid frame: data.values column count (3) does not match schema.fields (2)"
    );
    assert_eq!(
        Failure::HttpStatus(502, "querying Loki logs".to_string(), "bad".to_string()).message(),
        "HTTP 502 while querying Loki logs. Response: bad"
    );
    assert_eq!(
        Failure::InvalidDuration("x".to_string()).message(),
        "invalid duration 'x' (examples: 15m, 1h, 24h)"
    );
    assert_eq!(Failure::<String>::MissingUrl.message(), "missing Grafana URL. Provide --url, set GRAFANA_URL, or run `lgtmcli auth login`.");
}
