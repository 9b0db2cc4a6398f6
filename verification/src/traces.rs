//! Tempo traces: the fields read from a search hit, and span counting.
use vstd::prelude::*;

use crate::cli::TracesSearchArgs;
use crate::error::{Error, ErrorV};
use crate::logs::pair_view;
use crate::text::{opt_str_of, opt_string_view};
use crate::output::{aligned_table, cells_view, grid_view, headers_view, render_aligned_table};
use crate::json::JsonValue;
use crate::output::TableOutput;
use crate::text::{owned, u64_decimal, decimal};
use crate::time::{
    max_nanos, min_nanos, ns_renderable, ns_rfc3339_spec, ns_to_rfc3339, range_spec, resolve_range_at,
    seconds_renderable, seconds_rfc3339_spec, seconds_to_rfc3339, system_now, to_unix_seconds_string,
    unix_seconds_spec, Timestamp, DEFAULT_SINCE,
};

verus! {

broadcast use vstd::string::group_string_axioms;

/// The text of the first of `keys` whose member is a string or a number.
pub open spec fn string_field(value: JsonValue, keys: Seq<Seq<char>>) -> Option<Seq<char>>
    decreases keys.len(),
{
    if keys.len() == 0 {
        None
    } else {
        match value.member(keys[0]) {
            Some(JsonValue::Str(s)) => Some(s@),
            Some(JsonValue::Number(n)) => Some(n@),
            _ => string_field(value, keys.drop_first()),
        }
    }
}

/// Key lists as character sequences.
pub open spec fn keys_view(keys: Seq<&str>) -> Seq<Seq<char>> {
    keys.map_values(|k: &str| k@)
}

/// The text of the first of `keys` whose member is a string or a number.
pub fn extract_string_field(value: &JsonValue, keys: &[&str]) -> (r: Option<String>)
    ensures
        opt_string_view(r) == string_field(*value, keys_view(keys@)),
{
    let ghost kv = keys_view(keys@);
    let mut i: usize = 0;
    assert(kv.skip(0) == kv);
    while i < keys.len()
        invariant
            i <= keys@.len(),
            kv == keys_view(keys@),
            string_field(*value, kv) == string_field(*value, kv.skip(i as int)),
        decreases keys.len() - i,
    {
        let ghost rest = kv.skip(i as int);
        assert(rest[0] == keys@[i as int]@);
        assert(rest.drop_first() == kv.skip(i + 1));
        if let Some(found) = value.get(keys[i]) {
            match found {
                JsonValue::Str(v) => return Some(v.clone()),
                JsonValue::Number(v) => return Some(v.clone()),
                _ => {},
            }
        }
        i = i + 1;
    }
    None
}

/// The texts of the members under `keys` that are strings or numbers, in key order.
pub open spec fn field_texts(value: JsonValue, keys: Seq<Seq<char>>) -> Seq<Seq<char>>
    decreases keys.len(),
{
    if keys.len() == 0 {
        Seq::empty()
    } else {
        let rest = field_texts(value, keys.drop_first());
        match value.member(keys[0]) {
            Some(JsonValue::Str(s)) => seq![s@] + rest,
            Some(JsonValue::Number(n)) => seq![n@] + rest,
            _ => rest,
        }
    }
}

/// The views of owned texts.
pub open spec fn texts_view(v: Seq<String>) -> Seq<Seq<char>> {
    v.map_values(|t: String| t@)
}

/// The texts of the members under `keys` that are strings or numbers, in key
/// order: the candidates from which a numeric field is read.
pub fn extract_field_texts(value: &JsonValue, keys: &[&str]) -> (r: Vec<String>)
    ensures
        texts_view(r@) == field_texts(*value, keys_view(keys@)),
{
    let ghost kv = keys_view(keys@);
    let mut out: Vec<String> = Vec::new();
    let mut i: usize = 0;
    assert(kv.skip(0) == kv);
    while i < keys.len()
        invariant
            i <= keys@.len(),
            kv == keys_view(keys@),
            texts_view(out@) + field_texts(*value, kv.skip(i as int)) == field_texts(*value, kv),
        decreases keys.len() - i,
    {
        let ghost rest = kv.skip(i as int);
        assert(rest[0] == keys@[i as int]@);
        assert(rest.drop_first() == kv.skip(i + 1));
        let ghost before = out@;
        if let Some(found) = value.get(keys[i]) {
            match found {
                JsonValue::Str(v) => {
                    out.push(v.clone());
                    assert(texts_view(out@) == texts_view(before) + seq![v@]);
                },
                JsonValue::Number(v) => {
                    out.push(v.clone());
                    assert(texts_view(out@) == texts_view(before) + seq![v@]);
                },
                _ => {},
            }
        }
        i = i + 1;
    }
    assert(kv.skip(i as int) == Seq::<Seq<char>>::empty());
    out
}

/// Span counts: the lengths of `spans` arrays, wherever they stand; an array
/// under `spans` is counted and not searched further.
pub open spec fn span_total(v: JsonValue) -> nat
    decreases v, 0int,
{
    match v {
        JsonValue::Object(entries) => entries_span_total(entries@),
        JsonValue::Array(items) => items_span_total(items@),
        _ => 0,
    }
}

/// The span counts of object entries.
pub open spec fn entries_span_total(entries: Seq<(String, JsonValue)>) -> nat
    decreases entries, 1int,
{
    if entries.len() == 0 {
        0
    } else {
        let e = entries.last();
        entries_span_total(entries.drop_last()) + if e.0@ == "spans"@ && e.1 is Array {
            match e.1 {
                JsonValue::Array(a) => a@.len(),
                _ => 0,
            }
        } else {
            span_total(e.1)
        }
    }
}

/// The span counts of array items.
pub open spec fn items_span_total(items: Seq<JsonValue>) -> nat
    decreases items, 1int,
{
    if items.len() == 0 {
        0
    } else {
        items_span_total(items.drop_last()) + span_total(items.last())
    }
}

/// `r` is the count `total` when it fits in `usize`, and nothing when it does not.
pub open spec fn count_fits(r: Option<usize>, total: nat) -> bool {
    match r {
        Some(n) => n == total,
        None => total > usize::MAX,
    }
}

/// The number of spans in a trace, or nothing when the count exceeds `usize`.
pub fn checked_span_count(value: &JsonValue) -> (r: Option<usize>)
    ensures
        count_fits(r, span_total(*value)),
    decreases value, 0int,
{
    match value {
        JsonValue::Object(entries) => checked_entries_total(entries),
        JsonValue::Array(items) => checked_items_total(items),
        _ => Some(0),
    }
}

/// The spans under object entries, or nothing when they exceed `usize`.
fn checked_entries_total(entries: &Vec<(String, JsonValue)>) -> (r: Option<usize>)
    ensures
        count_fits(r, entries_span_total(entries@)),
    decreases entries, 1int,
{
    let mut total: usize = 0;
    let mut i: usize = 0;
    while i < entries.len()
        invariant
            i <= entries@.len(),
            total == entries_span_total(entries@.take(i as int)),
        decreases entries.len() - i,
    {
        let ghost pre = entries@.take(i as int);
        let ghost e = entries@[i as int];
        assert(entries@.take(i + 1).drop_last() == pre);
        assert(entries@.take(i + 1).last() == e);
        let key_is_spans = crate::text::str_eq(entries[i].0.as_str(), "spans");
        let listed: Option<usize> = if key_is_spans {
            match &entries[i].1 {
                JsonValue::Array(a) => Some(a.len()),
                _ => None,
            }
        } else {
            None
        };
        let add: usize = match listed {
            Some(n) => n,
            None => {
                assert(decreases_to!(entries => entries@));
                assert(decreases_to!(entries@ => entries@[i as int]));
                assert(decreases_to!(entries@[i as int] => entries@[i as int].1));
                match checked_span_count(&entries[i].1) {
                    Some(n) => n,
                    None => {
                        proof {
                            lemma_entries_span_total_prefix(entries@, i + 1);
                        }
                        return None;
                    },
                }
            },
        };
        assert(entries_span_total(entries@.take(i + 1)) == total + add);
        if total > usize::MAX - add {
            proof {
                lemma_entries_span_total_prefix(entries@, i + 1);
            }
            return None;
        }
        total = total + add;
        i = i + 1;
    }
    assert(entries@.take(entries@.len() as int) == entries@);
    Some(total)
}

/// The spans under array items, or nothing when they exceed `usize`.
fn checked_items_total(items: &Vec<JsonValue>) -> (r: Option<usize>)
    ensures
        count_fits(r, items_span_total(items@)),
    decreases items, 1int,
{
    let mut total: usize = 0;
    let mut i: usize = 0;
    while i < items.len()
        invariant
            i <= items@.len(),
            total == items_span_total(items@.take(i as int)),
        decreases items.len() - i,
    {
        assert(items@.take(i + 1).drop_last() == items@.take(i as int));
        assert(items@.take(i + 1).last() == items@[i as int]);
        assert(decreases_to!(items => items@));
        assert(decreases_to!(items@ => items@[i as int]));
        let add = match checked_span_count(&items[i]) {
            Some(n) => n,
            None => {
                proof {
                    lemma_items_span_total_prefix(items@, i + 1);
                }
                return None;
            },
        };
        if total > usize::MAX - add {
            proof {
                lemma_items_span_total_prefix(items@, i + 1);
            }
            return None;
        }
        total = total + add;
        i = i + 1;
    }
    assert(items@.take(items@.len() as int) == items@);
    Some(total)
}

/// A prefix of the entries never counts more spans than all of them.
proof fn lemma_entries_span_total_prefix(entries: Seq<(String, JsonValue)>, k: int)
    requires
        0 <= k <= entries.len(),
    ensures
        entries_span_total(entries.take(k)) <= entries_span_total(entries),
    decreases entries.len() - k,
{
    if k < entries.len() {
        assert(entries.drop_last().take(k) == entries.take(k));
        lemma_entries_span_total_prefix(entries.drop_last(), k);
    } else {
        assert(entries.take(k) == entries);
    }
}

/// A prefix of the items never counts more spans than all of them.
proof fn lemma_items_span_total_prefix(items: Seq<JsonValue>, k: int)
    requires
        0 <= k <= items.len(),
    ensures
        items_span_total(items.take(k)) <= items_span_total(items),
    decreases items.len() - k,
{
    if k < items.len() {
        assert(items.drop_last().take(k) == items.take(k));
        lemma_items_span_total_prefix(items.drop_last(), k);
    } else {
        assert(items.take(k) == items);
    }
}

/// The number of spans anywhere in a trace document (see `span_total`).
pub fn count_spans_in_value(value: &JsonValue) -> (n: usize)
    requires
        span_total(*value) <= usize::MAX,
    ensures
        n == span_total(*value),
{
    match checked_span_count(value) {
        Some(n) => n,
        None => 0,
    }
}

/// Whether a set of a search hit lists its spans: `spans` is an array.
pub open spec fn set_has_spans(set: JsonValue) -> bool {
    set.member("spans"@) matches Some(JsonValue::Array(_))
}

/// The number of spans a set lists.
pub open spec fn set_span_len(set: JsonValue) -> nat {
    match set.member("spans"@) {
        Some(JsonValue::Array(a)) => a@.len(),
        _ => 0,
    }
}

/// The spans listed by a prefix of the span sets.
pub open spec fn sets_span_total(sets: Seq<JsonValue>) -> nat
    decreases sets.len(),
{
    if sets.len() == 0 {
        0
    } else {
        sets_span_total(sets.drop_last()) + set_span_len(sets.last())
    }
}

/// The span count of a search hit: the spans its `spanSets` list, when at least
/// one set lists them.
pub open spec fn span_sets_count(value: JsonValue) -> Option<nat> {
    match value.member("spanSets"@) {
        Some(JsonValue::Array(sets)) => if exists|i: int|
            0 <= i < sets@.len() && set_has_spans(#[trigger] sets@[i]) {
            Some(sets_span_total(sets@))
        } else {
            None
        },
        _ => None,
    }
}

/// The span count of a search hit (see `span_sets_count`), or nothing.
pub fn extract_span_count(value: &JsonValue) -> (r: Option<usize>)
    requires
        span_sets_count(*value) matches Some(n) ==> n <= usize::MAX,
    ensures
        match r {
            Some(n) => span_sets_count(*value) == Some(n as nat),
            None => span_sets_count(*value) is None,
        },
{
    let sets = match value.get("spanSets") {
        Some(s) => match s.as_array() {
            Some(a) => a,
            None => return None,
        },
        None => return None,
    };
    assert(value.member("spanSets"@) == Some(JsonValue::Array(*sets)));
    let ghost full = sets_span_total(sets@);
    let mut total: usize = 0;
    let mut found_any = false;
    let mut i: usize = 0;
    while i < sets.len()
        invariant
            i <= sets@.len(),
            full == sets_span_total(sets@),
            total == sets_span_total(sets@.take(i as int)),
            found_any == exists|k: int| 0 <= k < i && set_has_spans(#[trigger] sets@[k]),
            span_sets_count(*value) == (if exists|k: int|
                0 <= k < sets@.len() && set_has_spans(#[trigger] sets@[k]) {
                Some(full)
            } else {
                None::<nat>
            }),
            span_sets_count(*value) matches Some(n) ==> n <= usize::MAX,
            found_any ==> full <= usize::MAX,
        decreases sets.len() - i,
    {
        assert(sets@.take(i + 1).drop_last() == sets@.take(i as int));
        assert(sets@.take(i + 1).last() == sets@[i as int]);
        proof {
            lemma_sets_span_total_prefix(sets@, i + 1);
        }
        if let Some(spans) = sets[i].get("spans") {
            if let Some(a) = spans.as_array() {
                assert(set_has_spans(sets@[i as int]));
                assert(span_sets_count(*value) == Some(full));
                assert(sets_span_total(sets@.take(i + 1)) == total + a.len());
                total = total + a.len();
                found_any = true;
            }
        }
        i = i + 1;
    }
    assert(sets@.take(sets@.len() as int) == sets@);
    if found_any {
        Some(total)
    } else {
        None
    }
}

/// A prefix of the sets never lists more spans than all of them.
proof fn lemma_sets_span_total_prefix(sets: Seq<JsonValue>, k: int)
    requires
        0 <= k <= sets.len(),
    ensures
        sets_span_total(sets.take(k)) <= sets_span_total(sets),
    decreases sets.len() - k,
{
    if k < sets.len() {
        assert(sets.drop_last().take(k) == sets.take(k));
        lemma_sets_span_total_prefix(sets.drop_last(), k);
    } else {
        assert(sets.take(k) == sets);
    }
}

/// The trace ID keys, in the order they are tried.
pub open spec fn trace_id_keys() -> Seq<Seq<char>> {
    seq!["traceID"@, "traceId"@, "trace_id"@]
}

/// The root service keys, in the order they are tried.
pub open spec fn root_service_keys() -> Seq<Seq<char>> {
    seq!["rootServiceName"@, "serviceName"@, "root_service_name"@]
}

/// The root span name keys, in the order they are tried.
pub open spec fn root_name_keys() -> Seq<Seq<char>> {
    seq!["rootTraceName"@, "traceName"@, "name"@]
}

/// The duration keys, in the order they are tried.
pub open spec fn duration_keys() -> Seq<Seq<char>> {
    seq!["durationMs"@, "duration_ms"@]
}

/// The start time keys, in the order they are tried.
pub open spec fn start_time_keys() -> Seq<Seq<char>> {
    seq!["startTimeUnixNano"@, "startTimeNano"@]
}

/// The ID shown for a hit without one.
pub const UNKNOWN_TRACE_ID: &'static str = "<unknown-trace-id>";

/// The fields of a search hit. Its duration is the first of `duration_texts`
/// that reads as a number.
#[derive(Debug)]
pub struct TraceFields {
    pub trace_id: String,
    pub root_service: Option<String>,
    pub root_name: Option<String>,
    pub start_time_ns: Option<String>,
    pub start_time: Option<String>,
    pub duration_texts: Vec<String>,
    pub span_count: Option<usize>,
}

/// A search hit can be summarized: its start time renders and its span count fits.
pub open spec fn summarizable(trace: JsonValue) -> bool {
    &&& string_field(trace, start_time_keys()) matches Some(t) ==> ns_renderable(t)
    &&& span_sets_count(trace) matches Some(n) ==> n <= usize::MAX
}

/// Whether a search hit can be summarized (see `summarizable`).
pub fn is_summarizable(trace: &JsonValue) -> (b: bool)
    ensures
        b == summarizable(*trace),
{
    let start_keys: [&str; 2] = ["startTimeUnixNano", "startTimeNano"];
    assert(keys_view(start_keys@) =~= start_time_keys());
    if let Some(t) = extract_string_field(trace, &start_keys) {
        if !crate::time::ns_is_renderable(t.as_str()) {
            return false;
        }
    }
    span_sets_fit(trace)
}

/// Whether the span count of a search hit, if it has one, fits in `usize`.
pub fn span_sets_fit(value: &JsonValue) -> (b: bool)
    ensures
        b == (span_sets_count(*value) matches Some(n) ==> n <= usize::MAX),
{
    let sets = match value.get("spanSets") {
        Some(s) => match s.as_array() {
            Some(a) => a,
            None => return true,
        },
        None => return true,
    };
    assert(value.member("spanSets"@) == Some(JsonValue::Array(*sets)));
    let mut total: usize = 0;
    let mut i: usize = 0;
    while i < sets.len()
        invariant
            i <= sets@.len(),
            value.member("spanSets"@) == Some(JsonValue::Array(*sets)),
            span_sets_count(*value) == (if exists|k: int|
                0 <= k < sets@.len() && set_has_spans(#[trigger] sets@[k]) {
                Some(sets_span_total(sets@))
            } else {
                None::<nat>
            }),
            total == sets_span_total(sets@.take(i as int)),
        decreases sets.len() - i,
    {
        assert(sets@.take(i + 1).drop_last() == sets@.take(i as int));
        assert(sets@.take(i + 1).last() == sets@[i as int]);
        if let Some(spans) = sets[i].get("spans") {
            if let Some(a) = spans.as_array() {
                assert(set_has_spans(sets@[i as int]));
                assert(sets_span_total(sets@.take(i + 1)) == total + a.len());
                if total > usize::MAX - a.len() {
                    proof {
                        lemma_sets_span_total_prefix(sets@, i + 1);
                        assert(span_sets_count(*value) == Some(sets_span_total(sets@)));
                    }
                    return false;
                }
                total = total + a.len();
            }
        }
        i = i + 1;
    }
    assert(sets@.take(sets@.len() as int) == sets@);
    true
}

/// `f` holds the fields of the search hit `trace`: its ID (or a placeholder),
/// root service and name, start time (also rendered as RFC 3339), the candidate
/// texts of its duration, and its span count.
pub open spec fn summarizes(trace: JsonValue, f: TraceFields) -> bool {
    &&& f.trace_id@ == match string_field(trace, trace_id_keys()) {
        Some(t) => t,
        None => UNKNOWN_TRACE_ID@,
    }
    &&& opt_string_view(f.root_service) == string_field(trace, root_service_keys())
    &&& opt_string_view(f.root_name) == string_field(trace, root_name_keys())
    &&& opt_string_view(f.start_time_ns) == string_field(trace, start_time_keys())
    &&& opt_string_view(f.start_time) == match string_field(trace, start_time_keys()) {
        Some(t) => Some(ns_rfc3339_spec(t)),
        None => None,
    }
    &&& texts_view(f.duration_texts@) == field_texts(trace, duration_keys())
    &&& f.span_count == match span_sets_count(trace) {
        Some(n) => Some(n as usize),
        None => None,
    }
}

/// Reads the fields of a Tempo search hit (see `summarizes`).
pub fn summarize_trace_fields(trace: &JsonValue) -> (f: TraceFields)
    requires
        summarizable(*trace),
    ensures
        summarizes(*trace, f),
{
    let id_keys: [&str; 3] = ["traceID", "traceId", "trace_id"];
    assert(keys_view(id_keys@) =~= trace_id_keys());
    let trace_id = match extract_string_field(trace, &id_keys) {
        Some(t) => t,
        None => owned(UNKNOWN_TRACE_ID),
    };
    let service_keys: [&str; 3] = ["rootServiceName", "serviceName", "root_service_name"];
    assert(keys_view(service_keys@) =~= root_service_keys());
    let root_service = extract_string_field(trace, &service_keys);
    let name_keys: [&str; 3] = ["rootTraceName", "traceName", "name"];
    assert(keys_view(name_keys@) =~= root_name_keys());
    let root_name = extract_string_field(trace, &name_keys);
    let start_keys: [&str; 2] = ["startTimeUnixNano", "startTimeNano"];
    assert(keys_view(start_keys@) =~= start_time_keys());
    let start_time_ns = extract_string_field(trace, &start_keys);
    let start_time = match &start_time_ns {
        Some(t) => Some(ns_to_rfc3339(t.as_str())),
        None => None,
    };
    let dur_keys: [&str; 2] = ["durationMs", "duration_ms"];
    assert(keys_view(dur_keys@) =~= duration_keys());
    let duration_texts = extract_field_texts(trace, &dur_keys);
    let span_count = extract_span_count(trace);
    TraceFields {
        trace_id,
        root_service,
        root_name,
        start_time_ns,
        start_time,
        duration_texts,
        span_count,
    }
}

/// The result of `traces search`, each hit's duration still as candidate texts.
#[derive(Debug)]
pub struct TracesSearchResult {
    pub datasource_uid: String,
    pub query: String,
    pub start: String,
    pub end: String,
    pub limit: u32,
    pub count: usize,
    pub traces: Vec<TraceFields>,
}

/// The result of `traces search` for the window (in Unix seconds, also
/// rendered as RFC 3339) and the hits Tempo returned, each summarized, in order.
pub fn search(
    args: TracesSearchArgs,
    start_seconds: &str,
    end_seconds: &str,
    hits: &Vec<JsonValue>,
) -> (r: TracesSearchResult)
    requires
        forall|i: int| 0 <= i < hits@.len() ==> summarizable(#[trigger] hits@[i]),
        seconds_renderable(start_seconds@),
        seconds_renderable(end_seconds@),
    ensures
        r.datasource_uid == args.datasource_uid,
        r.query == args.query,
        r.start@ == seconds_rfc3339_spec(start_seconds@),
        r.end@ == seconds_rfc3339_spec(end_seconds@),
        r.limit == args.limit,
        r.count == hits@.len(),
        r.traces@.len() == hits@.len(),
        forall|i: int| 0 <= i < hits@.len() ==> summarizes(#[trigger] hits@[i], r.traces@[i]),
{
    let mut traces: Vec<TraceFields> = Vec::new();
    let mut i: usize = 0;
    while i < hits.len()
        invariant
            i <= hits@.len(),
            traces@.len() == i,
            forall|k: int| 0 <= k < hits@.len() ==> summarizable(#[trigger] hits@[k]),
            forall|k: int| 0 <= k < i ==> summarizes(#[trigger] hits@[k], traces@[k]),
        decreases hits.len() - i,
    {
        let f = summarize_trace_fields(&hits[i]);
        traces.push(f);
        i = i + 1;
    }
    let count = traces.len();
    TracesSearchResult {
        datasource_uid: args.datasource_uid,
        query: args.query,
        start: seconds_to_rfc3339(start_seconds),
        end: seconds_to_rfc3339(end_seconds),
        limit: args.limit,
        count,
        traces,
    }
}

/// The result of `traces get`.
#[derive(Debug)]
pub struct TraceGetResult {
    pub datasource_uid: String,
    pub trace_id: String,
    pub detected_span_count: usize,
    pub trace: JsonValue,
}

/// Assembles the result of `traces get`.
pub fn get(datasource_uid: String, trace_id: String, trace: JsonValue) -> (r:
    TraceGetResult)
    requires
        span_total(trace) <= usize::MAX,
    ensures
        r.datasource_uid == datasource_uid,
        r.trace_id == trace_id,
        r.detected_span_count == span_total(trace),
        r.trace == trace,
{
    let detected_span_count = count_spans_in_value(&trace);
    TraceGetResult { datasource_uid, trace_id, detected_span_count, trace }
}

impl TableOutput for TraceGetResult {
    open spec fn table_text(&self) -> Seq<char> {
        "Trace ID: "@ + self.trace_id@ + "\nDatasource: "@ + self.datasource_uid@
            + "\nDetected spans: "@ + decimal(self.detected_span_count as nat)
            + "\nUse --json to print full trace payload.\n"@
    }

    fn render_table(&self) -> (s: String) {
        let mut s = owned("Trace ID: ");
        s.append(self.trace_id.as_str());
        s.append("\nDatasource: ");
        s.append(self.datasource_uid.as_str());
        s.append("\nDetected spans: ");
        let n = u64_decimal(self.detected_span_count as u64);
        s.append(n.as_str());
        s.append("\nUse --json to print full trace payload.\n");
        s
    }
}

/// The window of a trace search in Unix seconds.
pub open spec fn seconds_window_spec(
    since: Option<Seq<char>>,
    from: Option<Seq<char>>,
    to: Option<Seq<char>>,
    now: int,
) -> Result<(Seq<char>, Seq<char>), ErrorV> {
    match range_spec(since, from, to, DEFAULT_SINCE@, now) {
        Err(e) => Err(e),
        Ok((s, t)) => match unix_seconds_spec(s) {
            Err(e) => Err(e),
            Ok(a) => match unix_seconds_spec(t) {
                Err(e) => Err(e),
                Ok(b) => Ok((a, b)),
            },
        },
    }
}

/// The window of `traces search` relative to `now`, in Unix seconds.
pub fn search_window_at(args: &TracesSearchArgs, now: Timestamp) -> (r: Result<(String, String), Error>)
    requires
        now.wf(),
    ensures
        pair_view(r) == seconds_window_spec(
            opt_string_view(args.since),
            opt_string_view(args.from),
            opt_string_view(args.to),
            now.nanos as int,
        ),
{
    let range = match resolve_range_at(
        opt_str_of(&args.since),
        opt_str_of(&args.from),
        opt_str_of(&args.to),
        DEFAULT_SINCE,
        now,
    ) {
        Ok(r) => r,
        Err(e) => return Err(e),
    };
    let start = match to_unix_seconds_string(range.start) {
        Ok(s) => s,
        Err(e) => return Err(e),
    };
    let end = match to_unix_seconds_string(range.end) {
        Ok(s) => s,
        Err(e) => return Err(e),
    };
    Ok((start, end))
}

/// The window of `traces search`, `now` read from the system clock.
pub fn search_window(args: &TracesSearchArgs) -> (r: Result<(String, String), Error>)
    ensures
        exists|now: int|
            min_nanos() <= now <= max_nanos() && pair_view(r) == #[trigger] seconds_window_spec(
                opt_string_view(args.since),
                opt_string_view(args.from),
                opt_string_view(args.to),
                now,
            ),
{
    let now = system_now();
    let r = search_window_at(args, now);
    assert(pair_view(r) == seconds_window_spec(
        opt_string_view(args.since),
        opt_string_view(args.from),
        opt_string_view(args.to),
        now.nanos as int,
    ));
    r
}

/// A row of the trace search table: the cells of one hit as texts, the
/// duration already written with three decimals.
#[derive(Debug)]
pub struct TraceRow {
    pub trace_id: String,
    pub root_service: Option<String>,
    pub root_name: Option<String>,
    pub start_time: Option<String>,
    pub duration_ms: Option<String>,
    pub span_count: Option<usize>,
}

/// A cell's text, `-` when it is missing.
pub open spec fn or_dash(o: Option<String>) -> Seq<char> {
    match o {
        Some(s) => s@,
        None => "-"@,
    }
}

/// The cells of a trace row.
pub open spec fn trace_cells(t: TraceRow) -> Seq<Seq<char>> {
    seq![
        t.trace_id@,
        or_dash(t.root_service),
        or_dash(t.root_name),
        or_dash(t.start_time),
        or_dash(t.duration_ms),
        match t.span_count {
            Some(n) => decimal(n as nat),
            None => "-"@,
        },
    ]
}

/// The text shown when a search found nothing.
pub const NO_TRACES: &'static str = "No traces found.\n";

/// The table of a trace search.
pub open spec fn trace_table(rows: Seq<TraceRow>) -> Seq<char> {
    if rows.len() == 0 {
        NO_TRACES@
    } else {
        aligned_table(
            seq!["TRACE_ID"@, "SERVICE"@, "NAME"@, "START"@, "DURATION_MS"@, "SPANS"@],
            rows.map_values(|t: TraceRow| trace_cells(t)),
        )
    }
}

/// An optional cell's text, `-` when it is missing.
fn dash_or(o: &Option<String>) -> (r: String)
    ensures
        r@ == or_dash(*o),
{
    match o {
        Some(s) => s.clone(),
        None => owned("-"),
    }
}

/// Renders the table of a trace search (see `trace_table`).
pub fn render_trace_table(rows: &Vec<TraceRow>) -> (s: String)
    ensures
        s@ == trace_table(rows@),
{
    if rows.len() == 0 {
        return owned(NO_TRACES);
    }
    let headers: [&str; 6] = ["TRACE_ID", "SERVICE", "NAME", "START", "DURATION_MS", "SPANS"];
    let mut grid: Vec<Vec<String>> = Vec::new();
    let mut i: usize = 0;
    while i < rows.len()
        invariant
            i <= rows@.len(),
            grid@.len() == i,
            forall|k: int| 0 <= k < i ==> #[trigger] grid@[k]@.len() == 6,
            grid_view(grid@) == rows@.map_values(|t: TraceRow| trace_cells(t)).take(i as int),
        decreases rows.len() - i,
    {
        let t = &rows[i];
        let mut row: Vec<String> = Vec::new();
        row.push(t.trace_id.clone());
        row.push(dash_or(&t.root_service));
        row.push(dash_or(&t.root_name));
        row.push(dash_or(&t.start_time));
        row.push(dash_or(&t.duration_ms));
        row.push(
            match t.span_count {
                Some(n) => u64_decimal(n as u64),
                None => owned("-"),
            },
        );
        let ghost before = grid_view(grid@);
        grid.push(row);
        assert(cells_view(row) =~= trace_cells(*t));
        assert(grid_view(grid@) =~= before.push(trace_cells(*t)));
        i = i + 1;
    }
    assert(rows@.map_values(|t: TraceRow| trace_cells(t)).take(rows@.len() as int)
        =~= rows@.map_values(|t: TraceRow| trace_cells(t)));
    assert(headers_view(headers@) =~= seq![
        "TRACE_ID"@,
        "SERVICE"@,
        "NAME"@,
        "START"@,
        "DURATION_MS"@,
        "SPANS"@,
    ]);
    render_aligned_table(&headers, grid.as_slice())
}

} // verus!
