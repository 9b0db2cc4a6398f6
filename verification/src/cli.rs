//! The command line, as plain values.
use vstd::prelude::*;

verus! {

broadcast use vstd::string::group_string_axioms;

/// The whole command line.
pub struct Cli {
    /// Output JSON instead of human-readable table/text.
    pub json: bool,
    /// Grafana base URL given on the command line.
    pub grafana_url: Option<String>,
    /// Grafana token given on the command line.
    pub grafana_token: Option<String>,
    pub command: Commands,
}

/// The command families.
pub enum Commands {
    Auth(AuthCommands),
    Datasources(DatasourceCommands),
    Logs(LogsCommands),
    Metrics(MetricsCommands),
    Traces(TracesCommands),
    Sql(SqlCommands),
}

/// Credential commands.
pub enum AuthCommands {
    /// Verify that the credentials can access the Grafana API.
    Status,
    /// Save credentials to the profile file.
    Login(LoginArgs),
}

/// Arguments of `auth login`.
pub struct LoginArgs {
    pub skip_verification: bool,
}

/// Datasource commands.
pub enum DatasourceCommands {
    /// List Grafana datasources, optionally of one type.
    List { ds_type: Option<String> },
}

/// Log commands.
pub enum LogsCommands {
    Query(LogsQueryArgs),
    Stats(LogsStatsArgs),
}

/// Metric commands.
pub enum MetricsCommands {
    Query(MetricsQueryArgs),
    Range(MetricsRangeArgs),
}

/// Trace commands.
pub enum TracesCommands {
    Search(TracesSearchArgs),
    Get(TraceGetArgs),
}

/// SQL commands.
pub enum SqlCommands {
    Query(SqlQueryArgs),
    Schemas(SqlSchemasArgs),
    Tables(SqlTablesArgs),
    Describe(SqlDescribeArgs),
}

/// The order in which Loki returns log lines.
#[derive(Clone, Copy, PartialEq, Eq, Structural)]
pub enum LogDirectionArg {
    Forward,
    Backward,
}

impl LogDirectionArg {
    /// The `direction` parameter's text.
    pub open spec fn param(self) -> Seq<char> {
        match self {
            LogDirectionArg::Forward => "forward"@,
            LogDirectionArg::Backward => "backward"@,
        }
    }

    /// The `direction` parameter Loki expects.
    pub fn as_loki_param(self) -> (s: &'static str)
        ensures
            s@ == self.param(),
    {
        match self {
            LogDirectionArg::Forward => "forward",
            LogDirectionArg::Backward => "backward",
        }
    }
}

/// Arguments of `logs query`.
pub struct LogsQueryArgs {
    pub query: String,
    pub datasource_uid: String,
    pub since: Option<String>,
    pub from: Option<String>,
    pub to: Option<String>,
    pub limit: u32,
    pub direction: LogDirectionArg,
}

/// Arguments of `logs stats`.
pub struct LogsStatsArgs {
    pub query: String,
    pub datasource_uid: String,
    pub since: Option<String>,
    pub from: Option<String>,
    pub to: Option<String>,
    pub step: String,
}

/// Arguments of `metrics query`.
pub struct MetricsQueryArgs {
    pub query: String,
    pub datasource_uid: String,
    pub time: Option<String>,
}

/// Arguments of `metrics range`.
pub struct MetricsRangeArgs {
    pub query: String,
    pub datasource_uid: String,
    pub since: Option<String>,
    pub from: Option<String>,
    pub to: Option<String>,
    pub step: String,
}

/// Arguments of `traces search`.
pub struct TracesSearchArgs {
    pub query: String,
    pub datasource_uid: String,
    pub since: Option<String>,
    pub from: Option<String>,
    pub to: Option<String>,
    pub limit: u32,
}

/// Arguments of `traces get`.
pub struct TraceGetArgs {
    pub trace_id: String,
    pub datasource_uid: String,
}

/// Arguments of `sql query`.
pub struct SqlQueryArgs {
    pub query: String,
    pub datasource_uid: String,
    pub limit: usize,
    pub force: bool,
}

/// Arguments of `sql schemas`.
pub struct SqlSchemasArgs {
    pub datasource_uid: String,
    pub limit: usize,
}

/// Arguments of `sql tables`.
pub struct SqlTablesArgs {
    pub datasource_uid: String,
    pub schema: Option<String>,
    pub like: Option<String>,
    pub limit: usize,
}

/// Arguments of `sql describe`.
pub struct SqlDescribeArgs {
    pub table: String,
    pub datasource_uid: String,
    pub schema: Option<String>,
    pub limit: usize,
}

} // verus!
