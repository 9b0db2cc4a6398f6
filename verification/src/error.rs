//! The failures the library reports, each with the text shown to the user.
use vstd::prelude::*;

use crate::text::{decimal, u64_decimal};

verus! {

/// A failure, generic over how its texts are held: `Error` holds `String`s,
/// and its view holds character sequences.
#[derive(Debug)]
pub enum Failure<S> {
    /// `--since` given together with `--from` or `--to`.
    SinceWithFromTo,
    /// Only one of `--from` and `--to` given.
    FromToUnpaired,
    /// A timestamp that does not parse as RFC 3339 (the raw input).
    InvalidTimestamp(S),
    /// A duration that does not parse (the raw input).
    InvalidDuration(S),
    /// The start of a relative range falls before the earliest representable time.
    StartUnderflow,
    /// A range whose start is not before its end.
    EmptyRange,
    /// A time before the Unix epoch where a Unix timestamp is needed.
    BeforeEpoch,
    /// No Grafana URL could be resolved.
    MissingUrl,
    /// No Grafana token could be resolved.
    MissingToken,
    /// A value that is set but blank (the name of the field).
    EmptyValue(S),
    /// An environment variable whose value is not UTF-8 (its name).
    NonUnicodeEnv(S),
    /// An interactive answer that is blank (the prompt's label).
    EmptyInput(S),
    /// An empty SQL text.
    EmptySql,
    /// SQL text holding more than one statement.
    MultipleStatements,
    /// SQL text without a first word.
    NoStatementType,
    /// SQL text that is not a read-only statement.
    NotReadOnly,
    /// A datasource type that is not known as SQL (the type).
    NotSqlDatasource(S),
    /// A datasource type that is not a supported SQL type (the type).
    UnsupportedSqlDatasource(S),
    /// A normalized SQL type that the query builders do not know (lower-cased).
    UnsupportedSqlType(S),
    /// An empty table name.
    EmptyTableName,
    /// A table name that is neither `<table>` nor `<schema.table>`.
    BadTableName,
    /// A schema given both in the table name and by `--schema`.
    SchemaGivenTwice,
    /// A `logs stats` query that returned log streams instead of samples.
    StatsNeedMetricQuery,
    /// A table for which the catalog returned no column (its name).
    TableNotFound(S),
    /// A `/api/ds/query` response without `results`.
    MissingResults,
    /// A `/api/ds/query` response with an empty `results`.
    NoQueryResults,
    /// A datasource query that reported an error (its text).
    DatasourceQueryFailed(S),
    /// Frames whose column sets differ.
    FrameColumnsDiffer,
    /// A frame without `schema.fields`.
    MissingSchemaFields,
    /// A frame field without a name.
    MissingFieldName,
    /// A frame without `data.values`.
    MissingDataValues,
    /// A frame whose `data.values` count differs from its field count.
    ColumnCountMismatch(usize, usize),
    /// A `data.values` entry that is not an array.
    ColumnNotArray,
    /// A Prometheus result type that is not handled (the type).
    UnsupportedResultType(S),
    /// A vector result that is not an array.
    VectorNotArray,
    /// A vector sample without a `value` array.
    VectorValueMissing,
    /// A vector sample whose `value` is not a pair.
    VectorValueNotPair,
    /// A matrix result that is not an array.
    MatrixNotArray,
    /// A matrix series without a `values` array.
    MatrixValuesMissing,
    /// A matrix point that is not an array.
    MatrixPointNotArray,
    /// A matrix point that is not a pair.
    MatrixPointNotPair,
    /// A scalar or string result that is not an array.
    ScalarNotArray,
    /// A scalar or string result that is not a pair.
    ScalarNotPair,
    /// A `--step` value that does not parse (the raw input).
    InvalidStep(S),
    /// A `--step` shorter than one second.
    StepTooSmall,
    /// A `--time` value that does not parse (the raw input).
    InvalidTime(S),
    /// A query response whose status is not `success` (the query kind, the status).
    QueryNotSuccessful(S, S),
    /// HTTP 401 (the action).
    Unauthorized(S),
    /// HTTP 403 (the action).
    Forbidden(S),
    /// HTTP 404 (the action).
    NotFound(S),
    /// Another unsuccessful HTTP status (the code, the action, the start of the body).
    HttpStatus(u16, S, S),
}

/// A failure as the library returns it.
pub type Error = Failure<String>;

/// A failure with its texts as character sequences.
pub type ErrorV = Failure<Seq<char>>;

impl View for Failure<String> {
    type V = Failure<Seq<char>>;

    open spec fn view(&self) -> Failure<Seq<char>> {
        match self {
            Failure::SinceWithFromTo => Failure::SinceWithFromTo,
            Failure::FromToUnpaired => Failure::FromToUnpaired,
            Failure::InvalidTimestamp(s) => Failure::InvalidTimestamp(s@),
            Failure::InvalidDuration(s) => Failure::InvalidDuration(s@),
            Failure::StartUnderflow => Failure::StartUnderflow,
            Failure::EmptyRange => Failure::EmptyRange,
            Failure::BeforeEpoch => Failure::BeforeEpoch,
            Failure::MissingUrl => Failure::MissingUrl,
            Failure::MissingToken => Failure::MissingToken,
            Failure::EmptyValue(s) => Failure::EmptyValue(s@),
            Failure::NonUnicodeEnv(s) => Failure::NonUnicodeEnv(s@),
            Failure::EmptyInput(s) => Failure::EmptyInput(s@),
            Failure::EmptySql => Failure::EmptySql,
            Failure::MultipleStatements => Failure::MultipleStatements,
            Failure::NoStatementType => Failure::NoStatementType,
            Failure::NotReadOnly => Failure::NotReadOnly,
            Failure::NotSqlDatasource(s) => Failure::NotSqlDatasource(s@),
            Failure::UnsupportedSqlDatasource(s) => Failure::UnsupportedSqlDatasource(s@),
            Failure::UnsupportedSqlType(s) => Failure::UnsupportedSqlType(s@),
            Failure::EmptyTableName => Failure::EmptyTableName,
            Failure::BadTableName => Failure::BadTableName,
            Failure::SchemaGivenTwice => Failure::SchemaGivenTwice,
            Failure::StatsNeedMetricQuery => Failure::StatsNeedMetricQuery,
            Failure::TableNotFound(s) => Failure::TableNotFound(s@),
            Failure::MissingResults => Failure::MissingResults,
            Failure::NoQueryResults => Failure::NoQueryResults,
            Failure::DatasourceQueryFailed(s) => Failure::DatasourceQueryFailed(s@),
            Failure::FrameColumnsDiffer => Failure::FrameColumnsDiffer,
            Failure::MissingSchemaFields => Failure::MissingSchemaFields,
            Failure::MissingFieldName => Failure::MissingFieldName,
            Failure::MissingDataValues => Failure::MissingDataValues,
            Failure::ColumnCountMismatch(a, b) => Failure::ColumnCountMismatch(*a, *b),
            Failure::ColumnNotArray => Failure::ColumnNotArray,
            Failure::UnsupportedResultType(s) => Failure::UnsupportedResultType(s@),
            Failure::VectorNotArray => Failure::VectorNotArray,
            Failure::VectorValueMissing => Failure::VectorValueMissing,
            Failure::VectorValueNotPair => Failure::VectorValueNotPair,
            Failure::MatrixNotArray => Failure::MatrixNotArray,
            Failure::MatrixValuesMissing => Failure::MatrixValuesMissing,
            Failure::MatrixPointNotArray => Failure::MatrixPointNotArray,
            Failure::MatrixPointNotPair => Failure::MatrixPointNotPair,
            Failure::ScalarNotArray => Failure::ScalarNotArray,
            Failure::ScalarNotPair => Failure::ScalarNotPair,
            Failure::InvalidStep(s) => Failure::InvalidStep(s@),
            Failure::StepTooSmall => Failure::StepTooSmall,
            Failure::InvalidTime(s) => Failure::InvalidTime(s@),
            Failure::QueryNotSuccessful(a, b) => Failure::QueryNotSuccessful(a@, b@),
            Failure::Unauthorized(s) => Failure::Unauthorized(s@),
            Failure::Forbidden(s) => Failure::Forbidden(s@),
            Failure::NotFound(s) => Failure::NotFound(s@),
            Failure::HttpStatus(c, a, b) => Failure::HttpStatus(*c, a@, b@),
        }
    }
}

/// The results of `f` on each item, concatenated in order; the first failure wins.
pub open spec fn concat_results<A, B>(
    items: Seq<A>,
    f: spec_fn(A) -> Result<Seq<B>, ErrorV>,
) -> Result<Seq<B>, ErrorV>
    decreases items.len(),
{
    if items.len() == 0 {
        Ok(seq![])
    } else {
        match concat_results(items.drop_last(), f) {
            Err(e) => Err(e),
            Ok(prev) => match f(items.last()) {
                Err(e) => Err(e),
                Ok(more) => Ok(prev + more),
            },
        }
    }
}

/// One more item: its result is appended, or its failure is the result.
pub proof fn lemma_concat_results_step<A, B>(
    items: Seq<A>,
    f: spec_fn(A) -> Result<Seq<B>, ErrorV>,
    i: int,
)
    requires
        0 <= i < items.len(),
    ensures
        concat_results(items.take(i + 1), f) == match concat_results(items.take(i), f) {
            Err(e) => Err(e),
            Ok(prev) => match f(items[i]) {
                Err(e) => Err(e),
                Ok(more) => Ok(prev + more),
            },
        },
{
    assert(items.take(i + 1).drop_last() == items.take(i));
    assert(items.take(i + 1).last() == items[i]);
}

/// Once a prefix fails, the whole list fails the same way.
pub proof fn lemma_concat_results_err<A, B>(
    items: Seq<A>,
    f: spec_fn(A) -> Result<Seq<B>, ErrorV>,
    i: int,
)
    requires
        0 <= i <= items.len(),
        concat_results(items.take(i), f) is Err,
    ensures
        concat_results(items, f) == concat_results(items.take(i), f),
    decreases items.len() - i,
{
    if i < items.len() {
        assert(items.drop_last().take(i) == items.take(i));
        lemma_concat_results_err(items.drop_last(), f, i);
    } else {
        assert(items.take(i) == items);
    }
}

/// The whole list, once all of it is processed.
pub proof fn lemma_concat_results_all<A, B>(items: Seq<A>, f: spec_fn(A) -> Result<Seq<B>, ErrorV>)
    ensures
        concat_results(items.take(items.len() as int), f) == concat_results(items, f),
        concat_results(items.take(0), f) == Ok::<Seq<B>, ErrorV>(seq![]),
{
    assert(items.take(items.len() as int) == items);
    assert(items.take(0) =~= Seq::<A>::empty());
}

/// The text shown to the user for a failure.
pub open spec fn message_spec(e: ErrorV) -> Seq<char> {
    match e {
        Failure::SinceWithFromTo => "--since cannot be used together with --from/--to"@,
        Failure::FromToUnpaired => "--from and --to must be provided together"@,
        Failure::InvalidTimestamp(a) => "invalid RFC3339 timestamp '"@ + a + "'"@,
        Failure::InvalidDuration(a) => "invalid duration '"@ + a + "' (examples: 15m, 1h, 24h)"@,
        Failure::StartUnderflow => "computed start time underflow"@,
        Failure::EmptyRange => "start time must be before end time"@,
        Failure::BeforeEpoch => "time value is before Unix epoch"@,
        Failure::MissingUrl => "missing Grafana URL. Provide --url, set GRAFANA_URL, or run `lgtmcli auth login`."@,
        Failure::MissingToken => "missing Grafana token. Provide --token, set GRAFANA_TOKEN, or run `lgtmcli auth login`."@,
        Failure::EmptyValue(a) => a + " is set but empty"@,
        Failure::NonUnicodeEnv(a) => "environment variable "@ + a + " contains non-UTF-8 data"@,
        Failure::EmptyInput(a) => a + " cannot be empty"@,
        Failure::EmptySql => "SQL query must not be empty"@,
        Failure::MultipleStatements => "multiple SQL statements are not allowed"@,
        Failure::NoStatementType => "could not determine SQL statement type"@,
        Failure::NotReadOnly => "only read-only SQL statements are allowed (SELECT/WITH/SHOW/EXPLAIN/VALUES)"@,
        Failure::NotSqlDatasource(a) => "datasource type '"@ + a + "' is not recognized as SQL by lgtmcli (supported: postgres/mysql/mssql and known aliases). Use --force to skip this check."@,
        Failure::UnsupportedSqlDatasource(a) => "datasource type '"@ + a + "' is not a supported SQL datasource type (supported: postgres, mysql, mssql; aliases: grafana-postgresql-datasource, grafana-mysql-datasource, grafana-mssql-datasource)"@,
        Failure::UnsupportedSqlType(a) => "unsupported SQL datasource type '"@ + a + "'"@,
        Failure::EmptyTableName => "table name must not be empty"@,
        Failure::BadTableName => "table must be either <table> or <schema.table>"@,
        Failure::SchemaGivenTwice => "use either <schema.table> or --schema, not both"@,
        Failure::StatsNeedMetricQuery => "logs stats expects metric LogQL (for example rate(...) or count_over_time(...)), but the query returned log streams"@,
        Failure::TableNotFound(a) => "table '"@ + a + "' was not found"@,
        Failure::MissingResults => "invalid /api/ds/query response: missing results"@,
        Failure::NoQueryResults => "/api/ds/query response had no query results"@,
        Failure::DatasourceQueryFailed(a) => "datasource query failed: "@ + a,
        Failure::FrameColumnsDiffer => "query returned multiple frames with different column sets"@,
        Failure::MissingSchemaFields => "invalid frame: missing schema.fields"@,
        Failure::MissingFieldName => "invalid frame field: missing name"@,
        Failure::MissingDataValues => "invalid frame: missing data.values"@,
        Failure::ColumnCountMismatch(a, b) => "invalid frame: data.values column count ("@ + decimal(a as nat) + ") does not match schema.fields ("@ + decimal(b as nat) + ")"@,
        Failure::ColumnNotArray => "invalid frame: each data.values entry must be an array"@,
        Failure::UnsupportedResultType(a) => "unsupported Prometheus resultType '"@ + a + "'"@,
        Failure::VectorNotArray => "invalid Prometheus vector result: expected array"@,
        Failure::VectorValueMissing => "invalid vector sample: expected value array"@,
        Failure::VectorValueNotPair => "invalid vector sample: value should contain [timestamp, value]"@,
        Failure::MatrixNotArray => "invalid Prometheus matrix result: expected array"@,
        Failure::MatrixValuesMissing => "invalid matrix sample: expected values array"@,
        Failure::MatrixPointNotArray => "invalid matrix point: expected [timestamp, value]"@,
        Failure::MatrixPointNotPair => "invalid matrix point: expected exactly two values"@,
        Failure::ScalarNotArray => "invalid scalar/string result: expected [timestamp, value]"@,
        Failure::ScalarNotPair => "invalid scalar/string result: expected exactly two values"@,
        Failure::InvalidStep(a) => "invalid --step value '"@ + a + "'"@,
        Failure::StepTooSmall => "--step must be at least 1s"@,
        Failure::InvalidTime(a) => "invalid --time value '"@ + a + "'"@,
        Failure::QueryNotSuccessful(a, b) => a + " returned non-success status: "@ + b,
        Failure::Unauthorized(a) => "HTTP 401 Unauthorized while "@ + a + ". Check Grafana token credentials."@,
        Failure::Forbidden(a) => "HTTP 403 Forbidden while "@ + a + ". Token lacks required Grafana permissions."@,
        Failure::NotFound(a) => "HTTP 404 Not Found while "@ + a + ". Check Grafana base URL."@,
        Failure::HttpStatus(a, b, c) => "HTTP "@ + decimal(a as nat) + " while "@ + b + ". Response: "@ + c,
    }
}

impl Failure<String> {
    /// The text shown to the user for this failure (see `message_spec`).
    pub fn message(&self) -> (s: String)
        ensures
            s@ == message_spec(self@),
    {
        match self {
            Failure::SinceWithFromTo => {
                let mut s = String::new();
                s.append("--since cannot be used together with --from/--to");
                s
            },
            Failure::FromToUnpaired => {
                let mut s = String::new();
                s.append("--from and --to must be provided together");
                s
            },
            Failure::InvalidTimestamp(a) => {
                let mut s = String::new();
                s.append("invalid RFC3339 timestamp '");
                s.append(a.as_str());
                s.append("'");
                s
            },
            Failure::InvalidDuration(a) => {
                let mut s = String::new();
                s.append("invalid duration '");
                s.append(a.as_str());
                s.append("' (examples: 15m, 1h, 24h)");
                s
            },
            Failure::StartUnderflow => {
                let mut s = String::new();
                s.append("computed start time underflow");
                s
            },
            Failure::EmptyRange => {
                let mut s = String::new();
                s.append("start time must be before end time");
                s
            },
            Failure::BeforeEpoch => {
                let mut s = String::new();
                s.append("time value is before Unix epoch");
                s
            },
            Failure::MissingUrl => {
                let mut s = String::new();
                s.append("missing Grafana URL. Provide --url, set GRAFANA_URL, or run `lgtmcli auth login`.");
                s
            },
            Failure::MissingToken => {
                let mut s = String::new();
                s.append("missing Grafana token. Provide --token, set GRAFANA_TOKEN, or run `lgtmcli auth login`.");
                s
            },
            Failure::EmptyValue(a) => {
                let mut s = String::new();
                s.append(a.as_str());
                s.append(" is set but empty");
                s
            },
            Failure::NonUnicodeEnv(a) => {
                let mut s = String::new();
                s.append("environment variable ");
                s.append(a.as_str());
                s.append(" contains non-UTF-8 data");
                s
            },
            Failure::EmptyInput(a) => {
                let mut s = String::new();
                s.append(a.as_str());
                s.append(" cannot be empty");
                s
            },
            Failure::EmptySql => {
                let mut s = String::new();
                s.append("SQL query must not be empty");
                s
            },
            Failure::MultipleStatements => {
                let mut s = String::new();
                s.append("multiple SQL statements are not allowed");
                s
            },
            Failure::NoStatementType => {
                let mut s = String::new();
                s.append("could not determine SQL statement type");
                s
            },
            Failure::NotReadOnly => {
                let mut s = String::new();
                s.append("only read-only SQL statements are allowed (SELECT/WITH/SHOW/EXPLAIN/VALUES)");
                s
            },
            Failure::NotSqlDatasource(a) => {
                let mut s = String::new();
                s.append("datasource type '");
                s.append(a.as_str());
                s.append("' is not recognized as SQL by lgtmcli (supported: postgres/mysql/mssql and known aliases). Use --force to skip this check.");
                s
            },
            Failure::UnsupportedSqlDatasource(a) => {
                let mut s = String::new();
                s.append("datasource type '");
                s.append(a.as_str());
                s.append("' is not a supported SQL datasource type (supported: postgres, mysql, mssql; aliases: grafana-postgresql-datasource, grafana-mysql-datasource, grafana-mssql-datasource)");
                s
            },
            Failure::UnsupportedSqlType(a) => {
                let mut s = String::new();
                s.append("unsupported SQL datasource type '");
                s.append(a.as_str());
                s.append("'");
                s
            },
            Failure::EmptyTableName => {
                let mut s = String::new();
                s.append("table name must not be empty");
                s
            },
            Failure::BadTableName => {
                let mut s = String::new();
                s.append("table must be either <table> or <schema.table>");
                s
            },
            Failure::SchemaGivenTwice => {
                let mut s = String::new();
                s.append("use either <schema.table> or --schema, not both");
                s
            },
            Failure::StatsNeedMetricQuery => {
                let mut s = String::new();
                s.append("logs stats expects metric LogQL (for example rate(...) or count_over_time(...)), but the query returned log streams");
                s
            },
            Failure::TableNotFound(a) => {
                let mut s = String::new();
                s.append("table '");
                s.append(a.as_str());
                s.append("' was not found");
                s
            },
            Failure::MissingResults => {
                let mut s = String::new();
                s.append("invalid /api/ds/query response: missing results");
                s
            },
            Failure::NoQueryResults => {
                let mut s = String::new();
                s.append("/api/ds/query response had no query results");
                s
            },
            Failure::DatasourceQueryFailed(a) => {
                let mut s = String::new();
                s.append("datasource query failed: ");
                s.append(a.as_str());
                s
            },
            Failure::FrameColumnsDiffer => {
                let mut s = String::new();
                s.append("query returned multiple frames with different column sets");
                s
            },
            Failure::MissingSchemaFields => {
                let mut s = String::new();
                s.append("invalid frame: missing schema.fields");
                s
            },
            Failure::MissingFieldName => {
                let mut s = String::new();
                s.append("invalid frame field: missing name");
                s
            },
            Failure::MissingDataValues => {
                let mut s = String::new();
                s.append("invalid frame: missing data.values");
                s
            },
            Failure::ColumnCountMismatch(a, b) => {
                let mut s = String::new();
                s.append("invalid frame: data.values column count (");
                let d = u64_decimal(*a as u64);
                s.append(d.as_str());
                s.append(") does not match schema.fields (");
                let d = u64_decimal(*b as u64);
                s.append(d.as_str());
                s.append(")");
                s
            },
            Failure::ColumnNotArray => {
                let mut s = String::new();
                s.append("invalid frame: each data.values entry must be an array");
                s
            },
            Failure::UnsupportedResultType(a) => {
                let mut s = String::new();
                s.append("unsupported Prometheus resultType '");
                s.append(a.as_str());
                s.append("'");
                s
            },
            Failure::VectorNotArray => {
                let mut s = String::new();
                s.append("invalid Prometheus vector result: expected array");
                s
            },
            Failure::VectorValueMissing => {
                let mut s = String::new();
                s.append("invalid vector sample: expected value array");
                s
            },
            Failure::VectorValueNotPair => {
                let mut s = String::new();
                s.append("invalid vector sample: value should contain [timestamp, value]");
                s
            },
            Failure::MatrixNotArray => {
                let mut s = String::new();
                s.append("invalid Prometheus matrix result: expected array");
                s
            },
            Failure::MatrixValuesMissing => {
                let mut s = String::new();
                s.append("invalid matrix sample: expected values array");
                s
            },
            Failure::MatrixPointNotArray => {
                let mut s = String::new();
                s.append("invalid matrix point: expected [timestamp, value]");
                s
            },
            Failure::MatrixPointNotPair => {
                let mut s = String::new();
                s.append("invalid matrix point: expected exactly two values");
                s
            },
            Failure::ScalarNotArray => {
                let mut s = String::new();
                s.append("invalid scalar/string result: expected [timestamp, value]");
                s
            },
            Failure::ScalarNotPair => {
                let mut s = String::new();
                s.append("invalid scalar/string result: expected exactly two values");
                s
            },
            Failure::InvalidStep(a) => {
                let mut s = String::new();
                s.append("invalid --step value '");
                s.append(a.as_str());
                s.append("'");
                s
            },
            Failure::StepTooSmall => {
                let mut s = String::new();
                s.append("--step must be at least 1s");
                s
            },
            Failure::InvalidTime(a) => {
                let mut s = String::new();
                s.append("invalid --time value '");
                s.append(a.as_str());
                s.append("'");
                s
            },
            Failure::QueryNotSuccessful(a, b) => {
                let mut s = String::new();
                s.append(a.as_str());
                s.append(" returned non-success status: ");
                s.append(b.as_str());
                s
            },
            Failure::Unauthorized(a) => {
                let mut s = String::new();
                s.append("HTTP 401 Unauthorized while ");
                s.append(a.as_str());
                s.append(". Check Grafana token credentials.");
                s
            },
            Failure::Forbidden(a) => {
                let mut s = String::new();
                s.append("HTTP 403 Forbidden while ");
                s.append(a.as_str());
                s.append(". Token lacks required Grafana permissions.");
                s
            },
            Failure::NotFound(a) => {
                let mut s = String::new();
                s.append("HTTP 404 Not Found while ");
                s.append(a.as_str());
                s.append(". Check Grafana base URL.");
                s
            },
            Failure::HttpStatus(a, b, c) => {
                let mut s = String::new();
                s.append("HTTP ");
                let d = u64_decimal(*a as u64);
                s.append(d.as_str());
                s.append(" while ");
                s.append(b.as_str());
                s.append(". Response: ");
                s.append(c.as_str());
                s
            },
        }
    }
}

} // verus!
