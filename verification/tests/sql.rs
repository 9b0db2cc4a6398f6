use lgtmcli::error::Failure;
use lgtmcli::json::JsonValue;
use lgtmcli::sql::{
    build_describe_query, build_tables_query, normalize_sql_type, parse_ds_query_result,
    resolve_schema_and_table, sql_string_literal, validate_read_only_sql,
};
use lgtmcli::output::TableOutput;
use lgtmcli::sql::{cell_to_text, run_sql_query, row_value, Cell, ParsedSqlTable, SqlCell};
use lgtmcli::sql::check_sql_datasource;
use lgtmcli::sql::{describe as sql_describe, tables as sql_tables};
use lgtmcli::cli::{SqlDescribeArgs, SqlTablesArgs};

fn s(v: &str) -> JsonValue {
    JsonValue::Str(v.to_string())
}

fn n(v: &str) -> JsonValue {
    JsonValue::Number(v.to_string())
}

fn obj(entries: Vec<(&str, JsonValue)>) -> JsonValue {
    JsonValue::Object(entries.into_iter().map(|(k, v)| (k.to_string(), v)).collect())
}

fn cell(row: &[(String, Cell)], column: &str) -> Option<String> {
    row.iter().rev().find(|(k, _)| k == column).map(|(_, v)| cell_to_text(v))
}

#[test]
fn allows_select_queries() {
    let result = validate_read_only_sql("SELECT * FROM users LIMIT 10;");
    assert!(result.is_ok());
}

#[test]
fn rejects_write_queries() {
    let result = validate_read_only_sql("UPDATE users SET admin=true");
    assert!(result.is_err());
}

#[test]
fn rejects_multiple_statements() {
    let result = validate_read_only_sql("SELECT 1; SELECT 2");
    assert!(result.is_err());
}

#[test]
fn read_only_check_reports_each_failure() {
    assert!(matches!(validate_read_only_sql("   "), Err(Failure::EmptySql)));
    assert!(matches!(validate_read_only_sql(";"), Err(Failure::NoStatementType)));
    assert!(matches!(validate_read_only_sql("select 1; drop table x"), Err(Failure::MultipleStatements)));
    assert!(matches!(validate_read_only_sql("delete from x"), Err(Failure::NotReadOnly)));
    assert!(validate_read_only_sql("  with q as (select 1) select * from q ;; ").is_ok());
    assert!(validate_read_only_sql("EXPLAIN select 1").is_ok());
    assert!(validate_read_only_sql("values (1)").is_ok());
    assert!(validate_read_only_sql("Show tables").is_ok());
}

#[test]
fn parses_table_frame_rows() {
    let payload = obj(vec![(
        "results",
        obj(vec![(
            "A",
            obj(vec![(
                "frames",
                JsonValue::Array(vec![obj(vec![
                    ("data", obj(vec![(
                        "values",
                        JsonValue::Array(vec![
                            JsonValue::Array(vec![n("1"), n("2")]),
                            JsonValue::Array(vec![s("a@example.com"), s("b@example.com")]),
                        ]),
                    )])),
                    ("schema", obj(vec![(
                        "fields",
                        JsonValue::Array(vec![obj(vec![("name", s("id"))]), obj(vec![("name", s("email"))])]),
                    )])),
                ])]),
            )]),
        )]),
    )]);

    let parsed = parse_ds_query_result(&payload).expect("parse result");
    assert_eq!(parsed.columns, vec!["id", "email"]);
    assert_eq!(parsed.rows.len(), 2);
    assert_eq!(cell(&parsed.rows[0], "id").unwrap(), "1");
    assert_eq!(cell(&parsed.rows[0], "email").unwrap(), "a@example.com");
}

#[test]
fn query_results_report_errors_and_pad_short_columns() {
    let failed = obj(vec![("results", obj(vec![("A", obj(vec![("error", s("syntax error"))]))]))]);
    assert!(matches!(parse_ds_query_result(&failed), Err(Failure::DatasourceQueryFailed(ref e)) if e == "syntax error"));
    assert!(matches!(parse_ds_query_result(&obj(vec![])), Err(Failure::MissingResults)));
    assert!(matches!(parse_ds_query_result(&obj(vec![("results", obj(vec![]))])), Err(Failure::NoQueryResults)));
    let no_frames = obj(vec![("results", obj(vec![("A", obj(vec![]))]))]);
    let parsed = parse_ds_query_result(&no_frames).unwrap();
    assert!(parsed.columns.is_empty() && parsed.rows.is_empty());

    let frame = obj(vec![
        ("data", obj(vec![(
            "values",
            JsonValue::Array(vec![
                JsonValue::Array(vec![n("1"), n("2")]),
                JsonValue::Array(vec![JsonValue::Null]),
            ]),
        )])),
        ("schema", obj(vec![(
            "fields",
            JsonValue::Array(vec![obj(vec![("name", s("id"))]), obj(vec![("name", s("tags"))])]),
        )])),
    ]);
    let payload = obj(vec![("results", obj(vec![("A", obj(vec![("frames", JsonValue::Array(vec![frame]))]))]))]);
    let parsed = parse_ds_query_result(&payload).unwrap();
    assert_eq!(parsed.rows.len(), 2);
    assert_eq!(cell(&parsed.rows[0], "tags").unwrap(), "null");
    assert_eq!(cell(&parsed.rows[1], "tags").unwrap(), "");
}

#[test]
fn resolve_schema_and_table_from_qualified_name() {
    let (schema, table) = resolve_schema_and_table("public.users", None).expect("parse");
    assert_eq!(schema.as_deref(), Some("public"));
    assert_eq!(table, "users");
}

#[test]
fn resolve_schema_and_table_rejects_both_inputs() {
    let result = resolve_schema_and_table("public.users", Some("public"));
    assert!(result.is_err());
}

#[test]
fn resolve_schema_and_table_edge_cases() {
    assert!(matches!(resolve_schema_and_table("  ", None), Err(Failure::EmptyTableName)));
    assert!(matches!(resolve_schema_and_table("a.b.c", None), Err(Failure::BadTableName)));
    assert!(matches!(resolve_schema_and_table(" .users", None), Err(Failure::BadTableName)));
    let (schema, table) = resolve_schema_and_table("  users ", Some("app")).unwrap();
    assert_eq!(schema.as_deref(), Some("app"));
    assert_eq!(table, "users");
    let (schema, table) = resolve_schema_and_table(" app . users ", None).unwrap();
    assert_eq!(schema.as_deref(), Some("app"));
    assert_eq!(table, "users");
}

#[test]
fn build_tables_query_for_postgres_excludes_system_schemas() {
    let query = build_tables_query("postgres", None, None).expect("query");
    assert!(query.contains("pg_catalog"));
    assert!(query.contains("information_schema"));
}

#[test]
fn build_tables_query_full_text() {
    let query = build_tables_query("MySQL", Some("app"), Some("user%")).unwrap();
    assert_eq!(
        query,
        "SELECT table_schema AS schema_name, table_name\nFROM information_schema.tables\nWHERE table_type = 'BASE TABLE'\n  AND table_schema NOT IN ('information_schema', 'mysql', 'performance_schema', 'sys')\n  AND table_schema = 'app'\n  AND table_name LIKE 'user%'\nORDER BY table_schema, table_name"
    );
    assert!(matches!(build_tables_query("Oracle", None, None), Err(Failure::UnsupportedSqlType(ref t)) if t == "oracle"));
}

#[test]
fn build_describe_query_for_schema() {
    let query = build_describe_query("postgres", Some("public"), "users").expect("query");
    assert!(query.contains("table_name = 'users'"));
    assert!(query.contains("table_schema = 'public'"));
}

#[test]
fn build_describe_query_without_schema() {
    let pg = build_describe_query("postgres", None, "o'brien").unwrap();
    assert!(pg.contains("table_name = 'o''brien'"));
    assert!(pg.contains("NOT IN ('pg_catalog', 'information_schema')"));
    let my = build_describe_query("mssql", None, "users").unwrap();
    assert_eq!(
        my,
        "SELECT table_schema AS schema_name, column_name, data_type, is_nullable, column_default, ordinal_position\nFROM information_schema.columns\nWHERE table_name = 'users'\nORDER BY table_schema, ordinal_position"
    );
}

#[test]
fn normalizes_grafana_sql_plugin_aliases() {
    assert_eq!(normalize_sql_type("grafana-postgresql-datasource"), Some("postgres"));
    assert_eq!(normalize_sql_type("grafana-mysql-datasource"), Some("mysql"));
    assert_eq!(normalize_sql_type("grafana-mssql-datasource"), Some("mssql"));
    assert_eq!(normalize_sql_type("loki"), None);
}

#[test]
fn quotes_are_doubled_in_literals() {
    assert_eq!(sql_string_literal("it's"), "'it''s'");
    assert_eq!(sql_string_literal(""), "''");
}

fn row(pairs: &[(&str, &str)]) -> Vec<(String, Cell)> {
    pairs.iter().map(|(k, v)| (k.to_string(), SqlCell::Text(v.to_string()))).collect()
}

#[test]
fn results_keep_at_most_limit_rows() {
    let parsed = ParsedSqlTable {
        columns: vec!["id".into(), "email".into()],
        rows: vec![row(&[("id", "1"), ("email", "a")]), row(&[("id", "2"), ("email", "b")])],
    };
    let r = run_sql_query("pg".into(), "postgres".into(), "select".into(), parsed, 1);
    assert_eq!((r.row_count, r.total_row_count, r.truncated), (1, 2, true));
    assert_eq!(r.rows.len(), 1);
    let parsed = ParsedSqlTable { columns: vec!["id".into()], rows: vec![row(&[("id", "1")])] };
    let r = run_sql_query("pg".into(), "postgres".into(), "select".into(), parsed, 5);
    assert_eq!((r.row_count, r.total_row_count, r.truncated), (1, 1, false));
}

#[test]
fn sql_table_shows_cells_by_column_and_truncation_note() {
    let parsed = ParsedSqlTable {
        columns: vec!["id".into(), "email".into()],
        rows: vec![row(&[("id", "1"), ("email", "a@x")]), row(&[("id", "22"), ("id", "2")])],
    };
    assert_eq!(row_value(&parsed.rows[1], "id"), SqlCell::Text("2".to_string()));
    assert_eq!(row_value(&parsed.rows[1], "email"), SqlCell::Text(String::new()));
    let r = run_sql_query("pg".into(), "postgres".into(), "q".into(), parsed, 1);
    assert_eq!(
        r.render_table(),
        "id  email\n1   a@x\n\nShowing 1 of 2 rows. Re-run with a higher --limit to see more.\n"
    );
    let empty = run_sql_query("pg".into(), "postgres".into(), "q".into(), ParsedSqlTable { columns: vec![], rows: vec![] }, 5);
    assert_eq!(empty.render_table(), "No tabular result returned.\n");
}

#[test]
fn non_sql_datasources_need_force() {
    assert!(check_sql_datasource("grafana-postgresql-datasource", false).is_ok());
    assert!(matches!(check_sql_datasource("loki", false), Err(Failure::NotSqlDatasource(t)) if t == "loki"));
    assert!(check_sql_datasource("custom", true).is_ok());
}

#[test]
fn catalog_queries_need_a_supported_type() {
    let tables_args = SqlTablesArgs { datasource_uid: "pg".into(), schema: Some("public".into()), like: None, limit: 10 };
    let q = sql_tables("grafana-postgresql-datasource", &tables_args).unwrap();
    assert!(q.contains("pg_catalog"));
    assert!(q.contains("table_schema = 'public'"));
    assert!(matches!(sql_tables("loki", &tables_args), Err(Failure::UnsupportedSqlDatasource(t)) if t == "loki"));
    let describe_args = SqlDescribeArgs { table: "app.users".into(), datasource_uid: "pg".into(), schema: None, limit: 10 };
    let q = sql_describe("mysql", &describe_args).unwrap();
    assert!(q.contains("table_name = 'users'"));
    assert!(q.contains("table_schema = 'app'"));
    let both = SqlDescribeArgs { table: "app.users".into(), datasource_uid: "pg".into(), schema: Some("x".into()), limit: 10 };
    assert!(matches!(sql_describe("mysql", &both), Err(Failure::SchemaGivenTwice)));
}

#[test]
fn cells_keep_their_json_kind() {
    let fields = JsonValue::Array(vec![obj(vec![("name", s("v"))])]);
    let column = JsonValue::Array(vec![
        JsonValue::Null,
        JsonValue::Bool(true),
        n("2.5"),
        s("x"),
        JsonValue::Array(vec![n("1"), s("a")]),
    ]);
    let frame = obj(vec![
        ("data", obj(vec![("values", JsonValue::Array(vec![column]))])),
        ("schema", obj(vec![("fields", fields)])),
    ]);
    let payload = obj(vec![("results", obj(vec![("A", obj(vec![("frames", JsonValue::Array(vec![frame]))]))]))]);
    let parsed = parse_ds_query_result(&payload).unwrap();
    let cells: Vec<Cell> = parsed.rows.iter().map(|r| row_value(r, "v")).collect();
    assert_eq!(
        cells,
        vec![
            SqlCell::Null,
            SqlCell::Bool(true),
            SqlCell::Number("2.5".to_string()),
            SqlCell::Text("x".to_string()),
            SqlCell::Nested("[1,\"a\"]".to_string()),
        ]
    );
    let texts: Vec<String> = cells.iter().map(cell_to_text).collect();
    assert_eq!(texts, vec!["null", "true", "2.5", "x", "[1,\"a\"]"]);
}

#[test]
fn schema_listing_leaves_out_system_schemas() {
    assert_eq!(
        lgtmcli::sql::build_schemas_query("postgres").unwrap(),
        "SELECT schema_name\nFROM information_schema.schemata\nWHERE schema_name NOT IN ('pg_catalog', 'information_schema')\nORDER BY schema_name"
    );
    assert!(lgtmcli::sql::build_schemas_query("mysql").unwrap().contains("'performance_schema'"));
    assert!(matches!(lgtmcli::sql::build_schemas_query("oracle"), Err(Failure::UnsupportedSqlType(t)) if t == "oracle"));
    assert!(matches!(lgtmcli::sql::schemas("loki"), Err(Failure::UnsupportedSqlDatasource(t)) if t == "loki"));
    assert!(lgtmcli::sql::schemas("grafana-mssql-datasource").unwrap().contains("'sys'"));
}

#[test]
fn the_result_with_the_least_key_is_read() {
    let frame = |name: &str| {
        obj(vec![
            ("data", obj(vec![("values", JsonValue::Array(vec![JsonValue::Array(vec![n("1")])]))])),
            ("schema", obj(vec![("fields", JsonValue::Array(vec![obj(vec![("name", s(name))])]))])),
        ])
    };
    let payload = obj(vec![(
        "results",
        obj(vec![
            ("B", obj(vec![("frames", JsonValue::Array(vec![frame("b")]))])),
            ("A", obj(vec![("frames", JsonValue::Array(vec![frame("a")]))])),
        ]),
    )]);
    let parsed = parse_ds_query_result(&payload).unwrap();
    assert_eq!(parsed.columns, vec!["a".to_string()]);
}
