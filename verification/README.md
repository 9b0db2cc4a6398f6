# lgtmcli

A command-line client for Grafana-backed logs (Loki), metrics
(Prometheus/Mimir), traces (Tempo) and SQL datasources, whose query-side logic
is a library verified with Verus.

## Layout

- `src/` — the verified library (`lgtmcli`):
  - `time.rs` — query windows (`--since`, `--from`/`--to`), Unix timestamps and
    their RFC 3339 rendering (parsing and formatting are `humantime`'s);
  - `config.rs` — where the Grafana URL and token come from (flag, environment,
    saved profile), the profiles file kept as a sorted map, and its paths;
  - `grafana.rs` — request URLs, query parameters, the SQL query body, and the
    checks on HTTP statuses and response statuses;
  - `datasources.rs`, `logs.rs`, `metrics.rs`, `traces.rs`, `sql.rs` — the
    commands' logic: filtering and ordering, reading Grafana's JSON answers,
    the read-only SQL guard and catalog queries (schemas, tables, columns),
    typed result cells, `logs stats` over metric LogQL, and the results they
    print;
  - `json.rs`, `text.rs`, `sorting.rs`, `output.rs`, `error.rs` — JSON values,
    text primitives, a verified stable sort, aligned tables, and failures with
    their messages.
- `tests/` — tests of the library.
- `app/` — the program: argument parsing (clap), HTTP (reqwest), files and the
  environment, JSON (de)serialization (serde), prompts (rpassword), and the
  few steps that need floating point.

Each public function states its result in `ensures`; the laws that relate
several functions (credential precedence, saved profiles surviving a reload,
numeric log ordering, SQL literal quoting, error-body truncation, type-filter
matching, result rows following their columns, table-name splitting, matrix
sample counts) are proof functions named `law_*`.
