use lgtmcli::datasources::{datasource_type_matches, filter_and_sort, normalize_datasource_type, DataSource};
use lgtmcli::datasources::list;
use lgtmcli::output::TableOutput;

fn ds(id: i64, uid: &str, ds_type: &str, name: &str) -> DataSource {
    DataSource {
        id,
        uid: uid.to_string(),
        name: name.to_string(),
        ds_type: ds_type.to_string(),
        is_default: false,
    }
}

#[test]
fn filter_by_type_is_case_insensitive() {
    let input = vec![
        ds(1, "loki-1", "loki", "Loki A"),
        ds(2, "prom-1", "prometheus", "Prom A"),
        ds(3, "loki-2", "Loki", "Loki B"),
    ];

    let result = filter_and_sort(input, Some("LOKI"));

    assert_eq!(result.len(), 2);
    assert!(result.iter().all(|d| d.ds_type.eq_ignore_ascii_case("loki")));
}

#[test]
fn sorts_by_type_then_name_case_insensitive() {
    let input = vec![
        ds(1, "prom-z", "prometheus", "zeta"),
        ds(2, "loki-b", "loki", "Beta"),
        ds(3, "loki-a", "loki", "alpha"),
        ds(4, "prom-a", "prometheus", "Alpha"),
    ];

    let result = filter_and_sort(input, None);
    let ordered_uids: Vec<&str> = result.iter().map(|d| d.uid.as_str()).collect();

    assert_eq!(ordered_uids, vec!["loki-a", "loki-b", "prom-a", "prom-z"]);
}

#[test]
fn filter_postgres_matches_grafana_postgres_plugin_type() {
    let input = vec![
        ds(1, "pg-ro", "grafana-postgresql-datasource", "Postgres Read Only"),
        ds(2, "loki-1", "loki", "Loki"),
    ];

    let result = filter_and_sort(input, Some("postgres"));

    assert_eq!(result.len(), 1);
    assert_eq!(result[0].uid, "pg-ro");
}

#[test]
fn filter_plugin_type_matches_short_sql_alias() {
    let input = vec![
        ds(1, "pg-ro", "postgres", "Postgres Read Only"),
        ds(2, "mimir", "prometheus", "Mimir"),
    ];

    let result = filter_and_sort(input, Some("grafana-postgresql-datasource"));

    assert_eq!(result.len(), 1);
    assert_eq!(result[0].uid, "pg-ro");
}

#[test]
fn ties_keep_their_input_order() {
    let input = vec![
        ds(1, "second", "Loki", "Same"),
        ds(2, "first-type", "elastic", "x"),
        ds(3, "third", "loki", "same"),
    ];
    let result = filter_and_sort(input, None);
    let ordered_uids: Vec<&str> = result.iter().map(|d| d.uid.as_str()).collect();
    assert_eq!(ordered_uids, vec!["first-type", "second", "third"]);
}

#[test]
fn normalize_trims_lowercases_and_folds_sql_aliases() {
    assert_eq!(normalize_datasource_type("  Grafana-MySQL-Datasource "), "mysql");
    assert_eq!(normalize_datasource_type("SQLServer"), "mssql");
    assert_eq!(normalize_datasource_type(" Tempo"), "tempo");
    assert!(datasource_type_matches("postgresql", "grafana-postgresql-datasource"));
    assert!(!datasource_type_matches("mysql", "postgres"));
}

#[test]
fn filter_that_matches_nothing_gives_empty_list() {
    let input = vec![ds(1, "loki-1", "loki", "Loki")];
    assert!(filter_and_sort(input, Some("tempo")).is_empty());
}

#[test]
fn listing_renders_table_or_empty_message() {
    let r = list(vec![ds(-3, "u", "loki", "L")], Some("tempo".into()));
    assert_eq!(r.count, 0);
    assert_eq!(r.render_table(), "No datasources found for --type 'tempo'.\n");
    let r = list(vec![], None);
    assert_eq!(r.render_table(), "No datasources found.\n");
    let mut d = ds(12, "loki-1", "loki", "Loki");
    d.is_default = true;
    let r = list(vec![d, ds(-3, "p", "prometheus", "P")], None);
    assert_eq!(r.count, 2);
    assert_eq!(
        r.render_table(),
        "ID  UID     TYPE        NAME  DEFAULT\n12  loki-1  loki        Loki  yes\n-3  p       prometheus  P     no\n"
    );
}
