//! Loki log lines: flattening the streams Loki returns into one ordered list.
use vstd::prelude::*;

use crate::cli::{LogDirectionArg, LogsQueryArgs, LogsStatsArgs};
use crate::error::{Error, ErrorV, Failure};
use crate::metrics::{range_window_spec, seconds_window_at, window_view, MetricSample, MetricsQueryResult};
use crate::output::{aligned_table, grid_view, headers_view, render_aligned_table, TableOutput};
use crate::sorting::{permutation_of, rank_consistent, stable_sort, stable_sort_of, Ranked};
use crate::text::{chars_less, chars_of, parse_u128, parse_unsigned, push_char, seq_less};
use crate::text::{opt_str_of, opt_string_view, owned, str_eq};
use crate::time::{
    max_nanos, min_nanos, ns_renderable, seconds_renderable, seconds_rfc3339_spec, seconds_to_rfc3339, ns_rfc3339_spec, ns_to_rfc3339, range_spec, resolve_range_at,
    system_now, to_unix_ns_string, unix_ns_spec, Timestamp, DEFAULT_SINCE,
};

verus! {

broadcast use vstd::string::group_string_axioms;

/// Label pairs in key order.
pub type Labels = Vec<(String, String)>;

/// Label pairs as character sequences.
pub open spec fn labels_view(l: Labels) -> Seq<(Seq<char>, Seq<char>)> {
    l@.map_values(|p: (String, String)| (p.0@, p.1@))
}

/// One label rendered as `key=value`.
pub open spec fn label_text(p: (Seq<char>, Seq<char>)) -> Seq<char> {
    p.0 + seq!['='] + p.1
}

/// Labels rendered as `key=value` joined by commas.
pub open spec fn joined_labels(ls: Seq<(Seq<char>, Seq<char>)>) -> Seq<char>
    decreases ls.len(),
{
    if ls.len() == 0 {
        seq![]
    } else if ls.len() == 1 {
        label_text(ls[0])
    } else {
        joined_labels(ls.drop_last()) + seq![','] + label_text(ls.last())
    }
}

/// Labels rendered in braces: `{}` when there are none, `{a=1,b=2}` otherwise.
pub open spec fn labels_text(ls: Seq<(Seq<char>, Seq<char>)>) -> Seq<char> {
    seq!['{'] + joined_labels(ls) + seq!['}']
}

/// Renders labels in braces, in their order.
pub fn format_labels(labels: &Labels) -> (s: String)
    ensures
        s@ == labels_text(labels_view(*labels)),
{
    let ghost lv = labels_view(*labels);
    let mut s = String::new();
    push_char(&mut s, '{');
    let mut i: usize = 0;
    while i < labels.len()
        invariant
            i <= labels@.len(),
            lv == labels_view(*labels),
            s@ == seq!['{'] + joined_labels(lv.take(i as int)),
        decreases labels.len() - i,
    {
        if i > 0 {
            push_char(&mut s, ',');
        }
        s.append(labels[i].0.as_str());
        push_char(&mut s, '=');
        s.append(labels[i].1.as_str());
        assert(lv.take(i + 1).drop_last() == lv.take(i as int));
        assert(lv[i as int] == (labels@[i as int].0@, labels@[i as int].1@));
        i = i + 1;
    }
    assert(lv.take(labels@.len() as int) == lv);
    push_char(&mut s, '}');
    s
}

/// A copy of label pairs.
pub fn clone_labels(labels: &Labels) -> (c: Labels)
    ensures
        labels_view(c) == labels_view(*labels),
{
    let mut c: Labels = Vec::new();
    let mut i: usize = 0;
    while i < labels.len()
        invariant
            i <= labels@.len(),
            c@.len() == i,
            forall|k: int| 0 <= k < i ==> #[trigger] c@[k] == labels@[k],
        decreases labels.len() - i,
    {
        c.push((labels[i].0.clone(), labels[i].1.clone()));
        i = i + 1;
    }
    assert(labels_view(c) =~= labels_view(*labels));
    c
}

/// A Loki stream: its labels and its (nanosecond timestamp, line) values.
#[derive(Debug)]
pub struct LokiStream {
    pub stream: Labels,
    pub values: Vec<(String, String)>,
}

/// The `data` member of a Loki `query_range` response.
#[derive(Debug)]
pub struct LokiStreamsData {
    pub streams: Vec<LokiStream>,
}

/// A Loki `query_range` response.
#[derive(Debug)]
pub struct LokiQueryRangeResponse {
    pub status: String,
    pub data: LokiStreamsData,
}

/// One log line of the result.
#[derive(Debug)]
pub struct LogLine {
    pub timestamp_ns: String,
    pub timestamp: String,
    pub labels: Labels,
    pub line: String,
}

/// A log line as character sequences: nanosecond timestamp, rendered timestamp,
/// labels, line.
pub type LineV = (Seq<char>, Seq<char>, Seq<(Seq<char>, Seq<char>)>, Seq<char>);

/// A log line as character sequences.
pub open spec fn line_view(l: LogLine) -> LineV {
    (l.timestamp_ns@, l.timestamp@, labels_view(l.labels), l.line@)
}

/// Log lines as character sequences.
pub open spec fn lines_view(ls: Seq<LogLine>) -> Seq<LineV> {
    ls.map_values(|l: LogLine| line_view(l))
}

/// The lines of one stream, each carrying the stream's labels.
pub open spec fn stream_lines(s: LokiStream) -> Seq<LineV> {
    s.values@.map_values(
        |v: (String, String)| (v.0@, ns_rfc3339_spec(v.0@), labels_view(s.stream), v.1@),
    )
}

/// The lines of all streams, stream after stream.
pub open spec fn flat_lines(streams: Seq<LokiStream>) -> Seq<LineV>
    decreases streams.len(),
{
    if streams.len() == 0 {
        seq![]
    } else {
        flat_lines(streams.drop_last()) + stream_lines(streams.last())
    }
}

/// Every timestamp of the streams can be rendered.
pub open spec fn streams_renderable(streams: Seq<LokiStream>) -> bool {
    forall|i: int, j: int|
        0 <= i < streams.len() && 0 <= j < streams[i].values@.len() ==> ns_renderable(
            #[trigger] streams[i].values@[j].0@,
        )
}

/// The order of nanosecond timestamps: numerically when both parse as `u128`,
/// as text otherwise.
pub open spec fn timestamp_less(a: Seq<char>, b: Seq<char>) -> bool {
    match (parse_unsigned(a, u128::MAX as nat), parse_unsigned(b, u128::MAX as nat)) {
        (Some(x), Some(y)) => x < y,
        _ => seq_less(a, b),
    }
}

/// Whether one nanosecond timestamp sorts before another (see `timestamp_less`).
pub fn compare_timestamp_ns(left: &str, right: &str) -> (b: bool)
    ensures
        b == timestamp_less(left@, right@),
        parse_unsigned(left@, u128::MAX as nat) matches Some(x) ==> parse_unsigned(
            right@,
            u128::MAX as nat,
        ) matches Some(y) ==> b == (x < y),
{
    match (parse_u128(left), parse_u128(right)) {
        (Some(a), Some(b)) => a < b,
        _ => chars_less(&chars_of(left), &chars_of(right)),
    }
}

impl Ranked for LogLine {
    open spec fn precedes(self, other: Self) -> bool {
        timestamp_less(self.timestamp_ns@, other.timestamp_ns@)
    }

    fn ranks_before(&self, other: &Self) -> (b: bool) {
        compare_timestamp_ns(self.timestamp_ns.as_str(), other.timestamp_ns.as_str())
    }
}

/// Law: a timestamp that is not a decimal number (when the other one is not
/// either, or is) is ordered with it as text.
pub proof fn law_timestamp_order_falls_back_to_text(a: Seq<char>, b: Seq<char>)
    requires
        parse_unsigned(a, u128::MAX as nat) is None || parse_unsigned(b, u128::MAX as nat) is None,
    ensures
        timestamp_less(a, b) == seq_less(a, b),
{
}

/// Law: two timestamps that are both decimal numbers of nanoseconds are
/// ordered by their full numeric values: one sorts first exactly when its
/// number is smaller, down to the nanosecond.
pub proof fn law_timestamp_order_is_numeric(a: Seq<char>, b: Seq<char>)
    requires
        parse_unsigned(a, u128::MAX as nat) is Some,
        parse_unsigned(b, u128::MAX as nat) is Some,
    ensures
        timestamp_less(a, b) <==> parse_unsigned(a, u128::MAX as nat)->Some_0 < parse_unsigned(
            b,
            u128::MAX as nat,
        )->Some_0,
        timestamp_less(a, b) ==> !timestamp_less(b, a),
        !timestamp_less(a, b) && !timestamp_less(b, a) ==> parse_unsigned(a, u128::MAX as nat)
            == parse_unsigned(b, u128::MAX as nat),
{
}

/// When every timestamp is a number, the timestamp order is consistent.
pub proof fn law_numeric_timestamps_are_ordered(s: Seq<LogLine>)
    requires
        forall|i: int| 0 <= i < s.len() ==> #[trigger] parse_unsigned(
            s[i].timestamp_ns@,
            u128::MAX as nat,
        ) is Some,
    ensures
        rank_consistent(s),
{
    assert forall|x: int, a: int, b: int|
        0 <= x < s.len() && 0 <= a < s.len() && 0 <= b < s.len() && #[trigger] s[x].precedes(s[a])
            && !#[trigger] s[b].precedes(s[a]) implies s[x].precedes(s[b]) by {
        assert(parse_unsigned(s[x].timestamp_ns@, u128::MAX as nat) is Some);
        assert(parse_unsigned(s[a].timestamp_ns@, u128::MAX as nat) is Some);
        assert(parse_unsigned(s[b].timestamp_ns@, u128::MAX as nat) is Some);
    }
    assert forall|i: int, j: int|
        0 <= i < s.len() && 0 <= j < s.len() && #[trigger] s[i].precedes(s[j]) implies !s[j].precedes(
        s[i],
    ) by {
        assert(parse_unsigned(s[i].timestamp_ns@, u128::MAX as nat) is Some);
        assert(parse_unsigned(s[j].timestamp_ns@, u128::MAX as nat) is Some);
    }
}

/// The lines of `v` in reverse order.
fn reversed<T>(v: Vec<T>) -> (r: Vec<T>)
    ensures
        r@ == v@.reverse(),
{
    let ghost orig = v@;
    let mut v = v;
    let mut r: Vec<T> = Vec::new();
    while v.len() > 0
        invariant
            v@ == orig.take(v@.len() as int),
            r@ == orig.skip(v@.len() as int).reverse(),
            v@.len() <= orig.len(),
        decreases v.len(),
    {
        let ghost before = v@.len();
        let x = v.pop().unwrap();
        assert(x == orig[before - 1]);
        r.push(x);
        assert(orig.skip(before - 1).reverse() =~= orig.skip(before as int).reverse().push(x));
        assert(v@ =~= orig.take(before - 1));
    }
    assert(orig.skip(0) == orig);
    r
}

/// The lines of all streams ordered by timestamp (ties keep their order),
/// newest first for the backward direction. When the timestamps are not
/// consistently ordered (numbers mixed with other text) the lines are only
/// rearranged.
pub fn flatten_streams(streams: Vec<LokiStream>, direction: LogDirectionArg) -> (out: Vec<LogLine>)
    requires
        streams_renderable(streams@),
    ensures
        exists|mid: Seq<LogLine>, sorted: Seq<LogLine>|
            lines_view(mid) == flat_lines(streams@) && permutation_of(mid, sorted) && (
            rank_consistent(mid) ==> stable_sort_of(mid, sorted)) && out@ == (if direction
                == LogDirectionArg::Backward {
                sorted.reverse()
            } else {
                sorted
            }),
{
    let ghost orig = streams@;
    let n = streams.len();
    let mut rest = streams;
    let mut lines: Vec<LogLine> = Vec::new();
    let mut i: usize = 0;
    assert(lines_view(lines@) =~= Seq::<LineV>::empty());
    while i < n
        invariant
            i <= n,
            n == orig.len(),
            streams_renderable(orig),
            rest@ == orig.subrange(i as int, n as int),
            lines_view(lines@) == flat_lines(orig.take(i as int)),
        decreases n - i,
    {
        let s = rest.remove(0);
        assert(s == orig[i as int]);
        assert(rest@ == orig.subrange(i + 1, n as int));
        let ghost want = stream_lines(s);
        let ghost base = lines_view(lines@);
        let LokiStream { stream, values } = s;
        let m = values.len();
        let ghost vals = values@;
        let mut vrest = values;
        let mut j: usize = 0;
        while j < m
            invariant
                j <= m,
                m == vals.len(),
                vals == orig[i as int].values@,
                want == stream_lines(orig[i as int]),
                labels_view(stream) == labels_view(orig[i as int].stream),
                i < orig.len(),
                streams_renderable(orig),
                vrest@ == vals.subrange(j as int, m as int),
                lines_view(lines@) == base + want.take(j as int),
            decreases m - j,
        {
            let (ts, text) = vrest.remove(0);
            assert((ts, text) == vals[j as int]);
            assert(vrest@ == vals.subrange(j + 1, m as int));
            assert(ns_renderable(orig[i as int].values@[j as int].0@));
            let timestamp = ns_to_rfc3339(ts.as_str());
            let labels = clone_labels(&stream);
            let ghost before = lines_view(lines@);
            let line = LogLine { timestamp_ns: ts, timestamp, labels, line: text };
            lines.push(line);
            assert(lines_view(lines@) =~= before.push(line_view(line)));
            assert(want[j as int] == line_view(line));
            assert(want.take(j + 1) =~= want.take(j as int).push(want[j as int]));
            j = j + 1;
        }
        assert(want.take(m as int) == want);
        assert(orig.take(i + 1).drop_last() == orig.take(i as int));
        assert(orig.take(i + 1).last() == orig[i as int]);
        i = i + 1;
    }
    assert(orig.take(n as int) == orig);
    let ghost mid = lines@;
    let sorted = stable_sort(lines);
    let ghost sv = sorted@;
    let out = if direction == LogDirectionArg::Backward {
        reversed(sorted)
    } else {
        sorted
    };
    assert(lines_view(mid) == flat_lines(orig) && permutation_of(mid, sv) && (rank_consistent(
        mid,
    ) ==> stable_sort_of(mid, sv)));
    out
}

/// The result of `logs query`.
#[derive(Debug)]
pub struct LogsQueryResult {
    pub datasource_uid: String,
    pub query: String,
    pub start_ns: String,
    pub end_ns: String,
    pub direction: String,
    pub limit: u32,
    pub count: usize,
    pub lines: Vec<LogLine>,
}

/// Assembles the result of `logs query` from its window and the streams Loki
/// returned.
pub fn query(
    args: LogsQueryArgs,
    start_ns: String,
    end_ns: String,
    streams: Vec<LokiStream>,
) -> (r: LogsQueryResult)
    requires
        streams_renderable(streams@),
    ensures
        r.datasource_uid == args.datasource_uid,
        r.query == args.query,
        r.start_ns == start_ns,
        r.end_ns == end_ns,
        r.direction@ == args.direction.param(),
        r.limit == args.limit,
        r.count == r.lines@.len(),
        exists|mid: Seq<LogLine>, sorted: Seq<LogLine>|
            lines_view(mid) == flat_lines(streams@) && permutation_of(mid, sorted) && (
            rank_consistent(mid) ==> stable_sort_of(mid, sorted)) && r.lines@ == (if args.direction
                == LogDirectionArg::Backward {
                sorted.reverse()
            } else {
                sorted
            }),
{
    let lines = flatten_streams(streams, args.direction);
    let count = lines.len();
    LogsQueryResult {
        datasource_uid: args.datasource_uid,
        query: args.query,
        start_ns,
        end_ns,
        direction: crate::text::owned(args.direction.as_loki_param()),
        limit: args.limit,
        count,
        lines,
    }
}

/// The text shown when no lines came back.
pub const NO_LOG_LINES: &'static str = "No log lines found.\n";

/// The table cells of a log line: timestamp, labels, line.
pub open spec fn line_cells(l: LogLine) -> Seq<Seq<char>> {
    seq![l.timestamp@, labels_text(labels_view(l.labels)), l.line@]
}

impl TableOutput for LogsQueryResult {
    open spec fn table_text(&self) -> Seq<char> {
        if self.lines@.len() == 0 {
            NO_LOG_LINES@
        } else {
            aligned_table(
                seq!["TIMESTAMP"@, "LABELS"@, "LINE"@],
                self.lines@.map_values(|l: LogLine| line_cells(l)),
            )
        }
    }

    fn render_table(&self) -> (s: String) {
        if self.lines.len() == 0 {
            return crate::text::owned(NO_LOG_LINES);
        }
        let headers: [&str; 3] = ["TIMESTAMP", "LABELS", "LINE"];
        let mut rows: Vec<Vec<String>> = Vec::new();
        let mut i: usize = 0;
        while i < self.lines.len()
            invariant
                i <= self.lines@.len(),
                rows@.len() == i,
                forall|k: int| 0 <= k < i ==> #[trigger] rows@[k]@.len() == 3,
                grid_view(rows@) == self.lines@.map_values(|l: LogLine| line_cells(l)).take(
                    i as int,
                ),
            decreases self.lines.len() - i,
        {
            let l = &self.lines[i];
            let mut row: Vec<String> = Vec::new();
            row.push(l.timestamp.clone());
            row.push(format_labels(&l.labels));
            row.push(l.line.clone());
            let ghost before = grid_view(rows@);
            rows.push(row);
            assert(crate::output::cells_view(row) =~= line_cells(*l));
            assert(grid_view(rows@) =~= before.push(line_cells(*l)));
            i = i + 1;
        }
        assert(self.lines@.map_values(|l: LogLine| line_cells(l)).take(self.lines@.len() as int)
            =~= self.lines@.map_values(|l: LogLine| line_cells(l)));
        assert(headers_view(headers@) =~= seq!["TIMESTAMP"@, "LABELS"@, "LINE"@]);
        render_aligned_table(&headers, rows.as_slice())
    }
}

/// The window of a log query in Unix nanoseconds.
pub open spec fn ns_window_spec(
    since: Option<Seq<char>>,
    from: Option<Seq<char>>,
    to: Option<Seq<char>>,
    now: int,
) -> Result<(Seq<char>, Seq<char>), ErrorV> {
    match range_spec(since, from, to, DEFAULT_SINCE@, now) {
        Err(e) => Err(e),
        Ok((s, t)) => match unix_ns_spec(s) {
            Err(e) => Err(e),
            Ok(a) => match unix_ns_spec(t) {
                Err(e) => Err(e),
                Ok(b) => Ok((a, b)),
            },
        },
    }
}

/// The view of a pair of texts, or a failure.
pub open spec fn pair_view(r: Result<(String, String), Error>) -> Result<(Seq<char>, Seq<char>), ErrorV> {
    match r {
        Ok((a, b)) => Ok((a@, b@)),
        Err(e) => Err(e@),
    }
}

/// The window of `logs query` relative to `now`, in Unix nanoseconds.
pub fn logs_window_at(args: &LogsQueryArgs, now: Timestamp) -> (r: Result<(String, String), Error>)
    requires
        now.wf(),
    ensures
        pair_view(r) == ns_window_spec(
            opt_string_view(args.since),
            opt_string_view(args.from),
            opt_string_view(args.to),
            now.nanos as int,
        ),
{
    let range = match resolve_range_at(
        opt_str_of(&args.since),
        opt_str_of(&args.from),
        opt_str_of(&args.to),
        DEFAULT_SINCE,
        now,
    ) {
        Ok(r) => r,
        Err(e) => return Err(e),
    };
    let start = match to_unix_ns_string(range.start) {
        Ok(s) => s,
        Err(e) => return Err(e),
    };
    let end = match to_unix_ns_string(range.end) {
        Ok(s) => s,
        Err(e) => return Err(e),
    };
    Ok((start, end))
}

/// The window of `logs query`, `now` read from the system clock.
pub fn logs_window(args: &LogsQueryArgs) -> (r: Result<(String, String), Error>)
    ensures
        exists|now: int|
            min_nanos() <= now <= max_nanos() && pair_view(r) == #[trigger] ns_window_spec(
                opt_string_view(args.since),
                opt_string_view(args.from),
                opt_string_view(args.to),
                now,
            ),
{
    let now = system_now();
    let r = logs_window_at(args, now);
    assert(pair_view(r) == ns_window_spec(
        opt_string_view(args.since),
        opt_string_view(args.from),
        opt_string_view(args.to),
        now.nanos as int,
    ));
    r
}

/// Whether every timestamp of the streams can be rendered (see `streams_renderable`).
pub fn streams_are_renderable(streams: &Vec<LokiStream>) -> (b: bool)
    ensures
        b == streams_renderable(streams@),
{
    let mut i: usize = 0;
    while i < streams.len()
        invariant
            i <= streams@.len(),
            forall|a: int, j: int|
                0 <= a < i && 0 <= j < streams@[a].values@.len() ==> ns_renderable(
                    #[trigger] streams@[a].values@[j].0@,
                ),
        decreases streams.len() - i,
    {
        let values = &streams[i].values;
        let mut j: usize = 0;
        while j < values.len()
            invariant
                i < streams@.len(),
                *values == streams@[i as int].values,
                j <= values@.len(),
                forall|a: int, k: int|
                    0 <= a < i && 0 <= k < streams@[a].values@.len() ==> ns_renderable(
                        #[trigger] streams@[a].values@[k].0@,
                    ),
                forall|k: int| 0 <= k < j ==> ns_renderable(#[trigger] values@[k].0@),
            decreases values.len() - j,
        {
            if !crate::time::ns_is_renderable(values[j].0.as_str()) {
                return false;
            }
            j = j + 1;
        }
        i = i + 1;
    }
    true
}

// ---------------------------------------------------------------------------
// logs stats
// ---------------------------------------------------------------------------

/// The window of `logs stats` relative to `now`: its start and end in Unix
/// seconds and its step, as for a metrics range query (see `range_window_spec`).
pub fn stats_window_at(args: &LogsStatsArgs, now: Timestamp) -> (r: Result<(String, String, u64), Error>)
    requires
        now.wf(),
    ensures
        window_view(r) == range_window_spec(
            opt_string_view(args.since),
            opt_string_view(args.from),
            opt_string_view(args.to),
            args.step@,
            now.nanos as int,
        ),
{
    seconds_window_at(
        opt_str_of(&args.since),
        opt_str_of(&args.from),
        opt_str_of(&args.to),
        args.step.as_str(),
        now,
    )
}

/// The window of `logs stats`, `now` read from the system clock.
pub fn stats_window(args: &LogsStatsArgs) -> (r: Result<(String, String, u64), Error>)
    ensures
        exists|now: int|
            min_nanos() <= now <= max_nanos() && window_view(r) == #[trigger] range_window_spec(
                opt_string_view(args.since),
                opt_string_view(args.from),
                opt_string_view(args.to),
                args.step@,
                now,
            ),
{
    let now = system_now();
    let r = stats_window_at(args, now);
    assert(window_view(r) == range_window_spec(
        opt_string_view(args.since),
        opt_string_view(args.from),
        opt_string_view(args.to),
        args.step@,
        now.nanos as int,
    ));
    r
}

/// A `logs stats` answer must hold samples: a query that selects log lines
/// (Loki answers with `streams`) is refused.
pub fn require_metric_result(result_type: &str) -> (r: Result<(), Error>)
    ensures
        r is Ok <==> result_type@ != "streams"@,
        r matches Err(e) ==> e@ == Failure::<Seq<char>>::StatsNeedMetricQuery,
{
    if str_eq(result_type, "streams") {
        return Err(Failure::StatsNeedMetricQuery);
    }
    Ok(())
}

/// The result of `logs stats`: the window (rendered as RFC 3339), the step,
/// and the samples of the answer.
pub fn stats(
    args: LogsStatsArgs,
    result_type: String,
    start_seconds: &str,
    end_seconds: &str,
    step_seconds: u64,
    samples: Vec<MetricSample>,
) -> (r: MetricsQueryResult)
    requires
        seconds_renderable(start_seconds@),
        seconds_renderable(end_seconds@),
    ensures
        r.mode@ == "range"@,
        r.datasource_uid == args.datasource_uid,
        r.query == args.query,
        r.result_type == result_type,
        r.time is None,
        opt_string_view(r.start) == Some(seconds_rfc3339_spec(start_seconds@)),
        opt_string_view(r.end) == Some(seconds_rfc3339_spec(end_seconds@)),
        r.step_seconds == Some(step_seconds),
        r.count == samples@.len(),
        r.samples == samples,
{
    let count = samples.len();
    MetricsQueryResult {
        mode: owned("range"),
        datasource_uid: args.datasource_uid,
        query: args.query,
        result_type,
        time: None,
        start: Some(seconds_to_rfc3339(start_seconds)),
        end: Some(seconds_to_rfc3339(end_seconds)),
        step_seconds: Some(step_seconds),
        count,
        samples,
    }
}

} // verus!
