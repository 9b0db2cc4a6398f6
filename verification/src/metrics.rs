//! Prometheus (and Loki metric) query results: samples read out of the result
//! JSON, and the command results built around them.
use vstd::prelude::*;

use crate::cli::{MetricsQueryArgs, MetricsRangeArgs};
use crate::error::{
    concat_results, lemma_concat_results_all, lemma_concat_results_err, lemma_concat_results_step,
    Error, ErrorV, Failure,
};
use crate::json::{plain_text, value_to_string, JsonValue};
use crate::logs::{format_labels, labels_text, labels_view, Labels};
use crate::output::{aligned_table, grid_view, headers_view, render_aligned_table, TableOutput};
use crate::text::{chars_eq_str, chars_less, chars_of, opt_str_of, opt_string_view, owned, seq_less,
    lemma_seq_less_asym, lemma_seq_less_total};
use crate::time::{
    parse_rfc3339, parse_since_duration, range_spec, rfc3339_spec, resolve_range_at,
    seconds_renderable, seconds_rfc3339_spec, seconds_to_rfc3339, since_duration_spec,
    to_unix_seconds_string, unix_seconds_spec, Timestamp,
};

verus! {

broadcast use vstd::string::group_string_axioms;

/// The `data` member of a Prometheus query response.
#[derive(Debug)]
pub struct PrometheusData {
    pub result_type: String,
    pub result: JsonValue,
}

/// A Prometheus query response.
#[derive(Debug)]
pub struct PrometheusQueryResponse {
    pub status: String,
    pub data: PrometheusData,
}

/// One sample of the result.
#[derive(Debug)]
pub struct MetricSample {
    pub timestamp_unix: String,
    pub timestamp: String,
    pub labels: Labels,
    pub value: String,
}

/// A sample as read from the JSON: timestamp text, labels, value text.
pub type RawV = (Seq<char>, Seq<(Seq<char>, Seq<char>)>, Seq<char>);

/// A sample as character sequences: Unix timestamp, rendered timestamp, labels, value.
pub type SampleV = (Seq<char>, Seq<char>, Seq<(Seq<char>, Seq<char>)>, Seq<char>);

/// A sample as character sequences.
pub open spec fn sample_view(s: MetricSample) -> SampleV {
    (s.timestamp_unix@, s.timestamp@, labels_view(s.labels), s.value@)
}

/// Samples as character sequences.
pub open spec fn samples_view(s: Seq<MetricSample>) -> Seq<SampleV> {
    s.map_values(|x: MetricSample| sample_view(x))
}

/// A raw sample with its timestamp rendered.
pub open spec fn rendered(r: RawV) -> SampleV {
    (r.0, seconds_rfc3339_spec(r.0), r.1, r.2)
}

/// The labels of a series: the members of its `metric` object, each value as text.
pub open spec fn labels_of(raw: Option<JsonValue>) -> Seq<(Seq<char>, Seq<char>)> {
    match raw {
        Some(JsonValue::Object(entries)) => entries@.map_values(
            |e: (String, JsonValue)| (e.0@, plain_text(e.1)),
        ),
        _ => seq![],
    }
}

/// One vector sample: labels from `metric`, `[timestamp, value]` from `value`.
pub open spec fn vector_item(item: JsonValue) -> Result<Seq<RawV>, ErrorV> {
    let labels = labels_of(item.member("metric"@));
    match item.member("value"@) {
        Some(JsonValue::Array(v)) => if v@.len() != 2 {
            Err(Failure::VectorValueNotPair)
        } else {
            Ok(seq![(plain_text(v@[0]), labels, plain_text(v@[1]))])
        },
        _ => Err(Failure::VectorValueMissing),
    }
}

/// One point of a matrix series.
pub open spec fn matrix_point(labels: Seq<(Seq<char>, Seq<char>)>, p: JsonValue) -> Result<
    Seq<RawV>,
    ErrorV,
> {
    match p {
        JsonValue::Array(pair) => if pair@.len() != 2 {
            Err(Failure::MatrixPointNotPair)
        } else {
            Ok(seq![(plain_text(pair@[0]), labels, plain_text(pair@[1]))])
        },
        _ => Err(Failure::MatrixPointNotArray),
    }
}

/// The points of a matrix series, each with the series' labels.
pub open spec fn matrix_series(item: JsonValue) -> Result<Seq<RawV>, ErrorV> {
    let labels = labels_of(item.member("metric"@));
    match item.member("values"@) {
        Some(JsonValue::Array(values)) => concat_results(
            values@,
            |p: JsonValue| matrix_point(labels, p),
        ),
        _ => Err(Failure::MatrixValuesMissing),
    }
}

/// The samples of a result, in the order the result lists them.
pub open spec fn raw_samples(data: PrometheusData) -> Result<Seq<RawV>, ErrorV> {
    let rt = data.result_type@;
    if rt == "vector"@ {
        match data.result {
            JsonValue::Array(items) => concat_results(items@, |i: JsonValue| vector_item(i)),
            _ => Err(Failure::VectorNotArray),
        }
    } else if rt == "matrix"@ {
        match data.result {
            JsonValue::Array(series) => concat_results(series@, |i: JsonValue| matrix_series(i)),
            _ => Err(Failure::MatrixNotArray),
        }
    } else if rt == "scalar"@ || rt == "string"@ {
        match data.result {
            JsonValue::Array(pair) => if pair@.len() != 2 {
                Err(Failure::ScalarNotPair)
            } else {
                Ok(seq![(plain_text(pair@[0]), seq![], plain_text(pair@[1]))])
            },
            _ => Err(Failure::ScalarNotArray),
        }
    } else {
        Err(Failure::UnsupportedResultType(rt))
    }
}

/// The number of points a series lists (none without a `values` array).
pub open spec fn series_points(item: JsonValue) -> nat {
    match item.member("values"@) {
        Some(JsonValue::Array(values)) => values@.len(),
        _ => 0,
    }
}

/// The number of points all the series list.
pub open spec fn total_points(series: Seq<JsonValue>) -> nat
    decreases series.len(),
{
    if series.len() == 0 {
        0
    } else {
        total_points(series.drop_last()) + series_points(series.last())
    }
}

/// Each point of a series gives one sample, with the series' labels.
proof fn lemma_series_samples(labels: Seq<(Seq<char>, Seq<char>)>, values: Seq<JsonValue>)
    ensures
        concat_results(values, |p: JsonValue| matrix_point(labels, p)) matches Ok(out) ==> {
            &&& out.len() == values.len()
            &&& forall|k: int| 0 <= k < out.len() ==> (#[trigger] out[k]).1 == labels
        },
    decreases values.len(),
{
    if values.len() > 0 {
        lemma_series_samples(labels, values.drop_last());
        let f = |p: JsonValue| matrix_point(labels, p);
        if let Ok(prev) = concat_results(values.drop_last(), f) {
            if let Ok(more) = f(values.last()) {
                let out = prev + more;
                assert forall|k: int| 0 <= k < out.len() implies (#[trigger] out[k]).1 == labels by {
                    if k < prev.len() {
                        assert(out[k] == prev[k]);
                    } else {
                        assert(out[k] == more[k - prev.len()]);
                    }
                }
            }
        }
    }
}

/// The samples of several series number as many as their points.
proof fn lemma_matrix_samples(series: Seq<JsonValue>)
    ensures
        concat_results(series, |i: JsonValue| matrix_series(i)) matches Ok(out) ==> out.len()
            == total_points(series),
    decreases series.len(),
{
    if series.len() > 0 {
        lemma_matrix_samples(series.drop_last());
        let item = series.last();
        let labels = labels_of(item.member("metric"@));
        if let Some(JsonValue::Array(values)) = item.member("values"@) {
            lemma_series_samples(labels, values@);
        }
    }
}

/// Law: a matrix answer gives one sample for each point of each series, so
/// the samples number as many as the points that all series list.
pub proof fn law_matrix_sample_count(data: PrometheusData)
    requires
        data.result_type@ == "matrix"@,
    ensures
        samples_spec(data) matches Ok(v) ==> (data.result matches JsonValue::Array(series)
            && v.len() == total_points(series@)),
{
    reveal_strlit("matrix");
    reveal_strlit("vector");
    if let JsonValue::Array(series) = data.result {
        lemma_matrix_samples(series@);
        assert(data.result_type@[0] != "vector"@[0]);
        assert(raw_samples(data) == concat_results(series@, |i: JsonValue| matrix_series(i)));
        if let Ok(raw) = raw_samples(data) {
            assert(samples_spec(data) == Ok::<Seq<SampleV>, ErrorV>(raw.map_values(|r: RawV| rendered(r))));
            assert(raw.len() == total_points(series@));
        }
    }
}

/// Every sample timestamp of a result can be rendered (when the result is well formed).
pub open spec fn samples_renderable(data: PrometheusData) -> bool {
    raw_samples(data) is Ok ==> timestamps_renderable(raw_samples(data)->Ok_0)
}

/// Every sample timestamp can be rendered.
pub open spec fn timestamps_renderable(raw: Seq<RawV>) -> bool {
    forall|i: int| 0 <= i < raw.len() ==> #[trigger] seconds_renderable(raw[i].0)
}

/// What `collect_samples` yields.
pub open spec fn samples_spec(data: PrometheusData) -> Result<Seq<SampleV>, ErrorV> {
    match raw_samples(data) {
        Ok(raw) => Ok(raw.map_values(|r: RawV| rendered(r))),
        Err(e) => Err(e),
    }
}

/// A raw sample.
pub type RawSample = (String, Labels, String);

/// A raw sample as character sequences.
pub open spec fn raw_view(r: RawSample) -> RawV {
    (r.0@, labels_view(r.1), r.2@)
}

/// Raw samples as character sequences.
pub open spec fn raws_view(s: Seq<RawSample>) -> Seq<RawV> {
    s.map_values(|r: RawSample| raw_view(r))
}

/// The labels of a series (see `labels_of`).
pub fn extract_labels(raw: Option<&JsonValue>) -> (l: Labels)
    ensures
        labels_view(l) == labels_of(match raw {
            Some(v) => Some(*v),
            None => None,
        }),
{
    let entries = match raw {
        Some(v) => match v.as_object() {
            Some(o) => o,
            None => {
                let l: Labels = Vec::new();
                assert(labels_view(l) =~= Seq::<(Seq<char>, Seq<char>)>::empty());
                return l;
            },
        },
        None => {
            let l: Labels = Vec::new();
            assert(labels_view(l) =~= Seq::<(Seq<char>, Seq<char>)>::empty());
            return l;
        },
    };
    let ghost want = entries@.map_values(|e: (String, JsonValue)| (e.0@, plain_text(e.1)));
    let mut l: Labels = Vec::new();
    let mut i: usize = 0;
    while i < entries.len()
        invariant
            i <= entries@.len(),
            want == entries@.map_values(|e: (String, JsonValue)| (e.0@, plain_text(e.1))),
            l@.len() == i,
            labels_view(l) == want.take(i as int),
        decreases entries.len() - i,
    {
        let k = entries[i].0.clone();
        let v = value_to_string(&entries[i].1);
        let ghost before = labels_view(l);
        l.push((k, v));
        assert(labels_view(l) =~= before.push((k@, v@)));
        assert(want.take(i + 1) =~= want.take(i as int).push(want[i as int]));
        i = i + 1;
    }
    assert(want.take(entries@.len() as int) =~= want);
    l
}

/// One vector sample.
fn raw_vector_item(item: &JsonValue) -> (r: Result<RawSample, Error>)
    ensures
        match r {
            Ok(s) => vector_item(*item) == Ok::<Seq<RawV>, ErrorV>(seq![raw_view(s)]),
            Err(e) => vector_item(*item) == Err::<Seq<RawV>, ErrorV>(e@),
        },
{
    let labels = extract_labels(item.get("metric"));
    let value = match item.get("value") {
        Some(v) => match v.as_array() {
            Some(a) => a,
            None => return Err(Failure::VectorValueMissing),
        },
        None => return Err(Failure::VectorValueMissing),
    };
    if value.len() != 2 {
        return Err(Failure::VectorValueNotPair);
    }
    let ts = value_to_string(&value[0]);
    let val = value_to_string(&value[1]);
    Ok((ts, labels, val))
}

/// One matrix point.
fn raw_matrix_point(labels: &Labels, p: &JsonValue) -> (r: Result<RawSample, Error>)
    ensures
        match r {
            Ok(s) => matrix_point(labels_view(*labels), *p) == Ok::<Seq<RawV>, ErrorV>(
                seq![raw_view(s)],
            ),
            Err(e) => matrix_point(labels_view(*labels), *p) == Err::<Seq<RawV>, ErrorV>(e@),
        },
{
    let pair = match p.as_array() {
        Some(a) => a,
        None => return Err(Failure::MatrixPointNotArray),
    };
    if pair.len() != 2 {
        return Err(Failure::MatrixPointNotPair);
    }
    let ts = value_to_string(&pair[0]);
    let val = value_to_string(&pair[1]);
    Ok((ts, crate::logs::clone_labels(labels), val))
}

/// Appends the points of a matrix series.
fn raw_matrix_series(item: &JsonValue, out: &mut Vec<RawSample>) -> (r: Result<(), Error>)
    ensures
        match r {
            Ok(_) => final(out)@.len() >= old(out)@.len() && matrix_series(*item) == Ok::<
                Seq<RawV>,
                ErrorV,
            >(
                raws_view(final(out)@).subrange(old(out)@.len() as int, final(out)@.len() as int),
            ) && final(out)@.subrange(0, old(out)@.len() as int) == old(out)@,
            Err(e) => matrix_series(*item) == Err::<Seq<RawV>, ErrorV>(e@),
        },
{
    let ghost start = out@;
    let labels = extract_labels(item.get("metric"));
    let values = match item.get("values") {
        Some(v) => match v.as_array() {
            Some(a) => a,
            None => return Err(Failure::MatrixValuesMissing),
        },
        None => return Err(Failure::MatrixValuesMissing),
    };
    let ghost lv = labels_view(labels);
    let ghost f = |p: JsonValue| matrix_point(lv, p);
    assert(matrix_series(*item) == concat_results(values@, f));
    proof {
        lemma_concat_results_all(values@, f);
    }
    assert(raws_view(out@).subrange(start.len() as int, out@.len() as int) =~= Seq::<RawV>::empty());
    assert(out@.subrange(0, start.len() as int) =~= start);
    let mut i: usize = 0;
    while i < values.len()
        invariant
            i <= values@.len(),
            lv == labels_view(labels),
            f == (|p: JsonValue| matrix_point(lv, p)),
            matrix_series(*item) == concat_results(values@, f),
            out@.len() >= start.len(),
            out@.subrange(0, start.len() as int) == start,
            concat_results(values@.take(i as int), f) == Ok::<Seq<RawV>, ErrorV>(
                raws_view(out@).subrange(start.len() as int, out@.len() as int),
            ),
        decreases values.len() - i,
    {
        proof {
            lemma_concat_results_step(values@, f, i as int);
        }
        let s = match raw_matrix_point(&labels, &values[i]) {
            Ok(s) => s,
            Err(e) => {
                proof {
                    lemma_concat_results_err(values@, f, i + 1);
                }
                return Err(e);
            },
        };
        let ghost before = out@;
        out.push(s);
        assert(out@.subrange(0, start.len() as int) =~= before.subrange(0, start.len() as int));
        assert(raws_view(out@).subrange(start.len() as int, out@.len() as int) =~= raws_view(
            before,
        ).subrange(start.len() as int, before.len() as int) + seq![raw_view(s)]);
        i = i + 1;
    }
    Ok(())
}

/// The raw samples of a result (see `raw_samples`).
pub fn collect_raw_samples(data: &PrometheusData) -> (r: Result<Vec<RawSample>, Error>)
    ensures
        match r {
            Ok(v) => raw_samples(*data) == Ok::<Seq<RawV>, ErrorV>(raws_view(v@)),
            Err(e) => raw_samples(*data) == Err::<Seq<RawV>, ErrorV>(e@),
        },
{
    let rt = chars_of(data.result_type.as_str());
    if chars_eq_str(&rt, "vector") {
        let items = match data.result.as_array() {
            Some(a) => a,
            None => return Err(Failure::VectorNotArray),
        };
        let ghost f = |i: JsonValue| vector_item(i);
        proof {
            lemma_concat_results_all(items@, f);
        }
        let mut out: Vec<RawSample> = Vec::new();
        assert(raws_view(out@) =~= Seq::<RawV>::empty());
        let mut i: usize = 0;
        while i < items.len()
            invariant
                i <= items@.len(),
                f == (|i: JsonValue| vector_item(i)),
                raw_samples(*data) == concat_results(items@, f),
                concat_results(items@.take(i as int), f) == Ok::<Seq<RawV>, ErrorV>(
                    raws_view(out@),
                ),
            decreases items.len() - i,
        {
            proof {
                lemma_concat_results_step(items@, f, i as int);
            }
            let s = match raw_vector_item(&items[i]) {
                Ok(s) => s,
                Err(e) => {
                    proof {
                        lemma_concat_results_err(items@, f, i + 1);
                    }
                    return Err(e);
                },
            };
            let ghost before = raws_view(out@);
            out.push(s);
            assert(raws_view(out@) =~= before + seq![raw_view(s)]);
            i = i + 1;
        }
        Ok(out)
    } else if chars_eq_str(&rt, "matrix") {
        let series = match data.result.as_array() {
            Some(a) => a,
            None => return Err(Failure::MatrixNotArray),
        };
        let ghost f = |i: JsonValue| matrix_series(i);
        proof {
            lemma_concat_results_all(series@, f);
        }
        let mut out: Vec<RawSample> = Vec::new();
        assert(raws_view(out@) =~= Seq::<RawV>::empty());
        let mut i: usize = 0;
        while i < series.len()
            invariant
                i <= series@.len(),
                f == (|i: JsonValue| matrix_series(i)),
                raw_samples(*data) == concat_results(series@, f),
                concat_results(series@.take(i as int), f) == Ok::<Seq<RawV>, ErrorV>(
                    raws_view(out@),
                ),
            decreases series.len() - i,
        {
            proof {
                lemma_concat_results_step(series@, f, i as int);
            }
            let ghost before = out@;
            match raw_matrix_series(&series[i], &mut out) {
                Ok(_) => {},
                Err(e) => {
                    proof {
                        lemma_concat_results_err(series@, f, i + 1);
                    }
                    return Err(e);
                },
            }
            assert(raws_view(out@) =~= raws_view(before) + raws_view(out@).subrange(
                before.len() as int,
                out@.len() as int,
            )) by {
                assert(out@.subrange(0, before.len() as int) == before);
                assert forall|k: int| 0 <= k < before.len() implies raws_view(out@)[k] == raws_view(
                    before,
                )[k] by {
                    assert(out@[k] == out@.subrange(0, before.len() as int)[k]);
                }
            }
            i = i + 1;
        }
        Ok(out)
    } else if chars_eq_str(&rt, "scalar") || chars_eq_str(&rt, "string") {
        let pair = match data.result.as_array() {
            Some(a) => a,
            None => return Err(Failure::ScalarNotArray),
        };
        if pair.len() != 2 {
            return Err(Failure::ScalarNotPair);
        }
        let ts = value_to_string(&pair[0]);
        let val = value_to_string(&pair[1]);
        let labels: Labels = Vec::new();
        assert(labels_view(labels) =~= Seq::<(Seq<char>, Seq<char>)>::empty());
        let mut out: Vec<RawSample> = Vec::new();
        out.push((ts, labels, val));
        assert(raws_view(out@) =~= seq![(ts@, Seq::<(Seq<char>, Seq<char>)>::empty(), val@)]);
        Ok(out)
    } else {
        Err(Failure::UnsupportedResultType(data.result_type.clone()))
    }
}

/// Whether every sample timestamp of a result can be rendered.
pub fn samples_are_renderable(data: &PrometheusData) -> (b: bool)
    ensures
        b == samples_renderable(*data),
{
    match collect_raw_samples(data) {
        Err(_) => true,
        Ok(raw) => {
            let mut i: usize = 0;
            while i < raw.len()
                invariant
                    i <= raw@.len(),
                    raw_samples(*data) == Ok::<Seq<RawV>, ErrorV>(raws_view(raw@)),
                    forall|k: int| 0 <= k < i ==> seconds_renderable(#[trigger] raws_view(raw@)[k].0),
                decreases raw.len() - i,
            {
                if !crate::time::seconds_is_renderable(raw[i].0.as_str()) {
                    assert(raws_view(raw@)[i as int].0 == raw@[i as int].0@);
                    assert(!seconds_renderable(raws_view(raw@)[i as int].0));
                    return false;
                }
                i = i + 1;
            }
            true
        },
    }
}

/// A renderable result's sample timestamps are each renderable.
proof fn lemma_renderable_at(data: PrometheusData, raw: Seq<RawV>, i: int)
    requires
        samples_renderable(data),
        raw_samples(data) == Ok::<Seq<RawV>, ErrorV>(raw),
        0 <= i < raw.len(),
    ensures
        seconds_renderable(raw[i].0),
{
}

/// A sample with its timestamp rendered as RFC 3339.
pub fn make_sample(timestamp_unix: String, labels: Labels, value: String) -> (s: MetricSample)
    requires
        seconds_renderable(timestamp_unix@),
    ensures
        sample_view(s) == rendered((timestamp_unix@, labels_view(labels), value@)),
{
    let timestamp = seconds_to_rfc3339(timestamp_unix.as_str());
    MetricSample { timestamp_unix, timestamp, labels, value }
}

/// The samples of a result in the order it lists them, each timestamp rendered.
pub fn collect_samples(data: &PrometheusData) -> (r: Result<Vec<MetricSample>, Error>)
    requires
        samples_renderable(*data),
    ensures
        match r {
            Ok(v) => samples_spec(*data) == Ok::<Seq<SampleV>, ErrorV>(samples_view(v@)),
            Err(e) => samples_spec(*data) == Err::<Seq<SampleV>, ErrorV>(e@),
        },
{
    let raw = match collect_raw_samples(data) {
        Ok(raw) => raw,
        Err(e) => return Err(e),
    };
    let ghost rv = raws_view(raw@);
    let n = raw.len();
    let mut rest = raw;
    let mut out: Vec<MetricSample> = Vec::new();
    let mut i: usize = 0;
    while i < n
        invariant
            i <= n,
            n == rv.len(),
            raw_samples(*data) == Ok::<Seq<RawV>, ErrorV>(rv),
            samples_renderable(*data),
            raws_view(rest@) == rv.subrange(i as int, n as int),
            rest@.len() == n - i,
            out@.len() == i,
            forall|k: int| 0 <= k < i ==> #[trigger] samples_view(out@)[k] == rendered(rv[k]),
        decreases n - i,
    {
        let ghost before = raws_view(rest@);
        let ghost first = rest@[0];
        let (ts, labels, value) = rest.remove(0);
        assert(before[0] == rv[i as int]);
        assert(before[0] == raw_view(first));
        assert((ts, labels, value) == first);
        assert((ts@, labels_view(labels), value@) == rv[i as int]);
        assert(raws_view(rest@) =~= before.drop_first());
        proof {
            lemma_renderable_at(*data, rv, i as int);
        }
        let ghost old_out = samples_view(out@);
        let s = make_sample(ts, labels, value);
        out.push(s);
        assert(samples_view(out@)[i as int] == sample_view(s));
        assert(sample_view(s) == rendered(rv[i as int]));
        assert forall|k: int| 0 <= k < i + 1 implies #[trigger] samples_view(out@)[k] == rendered(
            rv[k],
        ) by {
            if k < i {
                assert(samples_view(out@)[k] == old_out[k]);
            }
        }
        i = i + 1;
    }
    assert(samples_view(out@) =~= rv.map_values(|r: RawV| rendered(r)));
    Ok(out)
}

/// The order of two samples once their timestamps are compared.
#[derive(Clone, Copy, Debug, PartialEq, Eq, Structural)]
pub enum SampleOrder {
    Less,
    Equal,
    Greater,
}

/// How two samples compare: by timestamp, then by their rendered labels.
pub open spec fn sample_order_spec(ts_order: SampleOrder, left: MetricSample, right: MetricSample) -> SampleOrder {
    if ts_order != SampleOrder::Equal {
        ts_order
    } else {
        let l = labels_text(labels_view(left.labels));
        let r = labels_text(labels_view(right.labels));
        if seq_less(l, r) {
            SampleOrder::Less
        } else if l == r {
            SampleOrder::Equal
        } else {
            SampleOrder::Greater
        }
    }
}

/// Compares two samples given how their timestamps compare: the timestamp order
/// decides, and equal timestamps fall back to the rendered labels.
pub fn compare_samples(ts_order: SampleOrder, left: &MetricSample, right: &MetricSample) -> (o: SampleOrder)
    ensures
        o == sample_order_spec(ts_order, *left, *right),
        ts_order != SampleOrder::Equal ==> o == ts_order,
{
    if ts_order != SampleOrder::Equal {
        return ts_order;
    }
    let l = chars_of(format_labels(&left.labels).as_str());
    let r = chars_of(format_labels(&right.labels).as_str());
    if chars_less(&l, &r) {
        SampleOrder::Less
    } else if crate::text::chars_eq(&l, &r) {
        SampleOrder::Equal
    } else {
        SampleOrder::Greater
    }
}

/// Law: samples are ordered by time first. Whenever their timestamps differ,
/// the timestamp order is the order of the samples, whatever their labels; the
/// labels only order samples of equal timestamps, ascending by their rendered
/// text, as a strict total order (samples with equal labels tie, swapped
/// samples swap the order).
pub proof fn law_time_orders_samples_first(
    ts_order: SampleOrder,
    left: MetricSample,
    right: MetricSample,
    other_left: MetricSample,
    other_right: MetricSample,
)
    ensures
        ts_order != SampleOrder::Equal ==> sample_order_spec(ts_order, left, right) == ts_order,
        ts_order != SampleOrder::Equal ==> sample_order_spec(ts_order, left, right)
            == sample_order_spec(ts_order, other_left, other_right),
        sample_order_spec(SampleOrder::Equal, left, right) == SampleOrder::Equal <==> labels_text(
            labels_view(left.labels),
        ) == labels_text(labels_view(right.labels)),
        sample_order_spec(SampleOrder::Equal, left, right) == SampleOrder::Less <==> sample_order_spec(
            SampleOrder::Equal,
            right,
            left,
        ) == SampleOrder::Greater,
        sample_order_spec(SampleOrder::Equal, left, right) == SampleOrder::Less <==> seq_less(
            labels_text(labels_view(left.labels)),
            labels_text(labels_view(right.labels)),
        ),
{
    let l = labels_text(labels_view(left.labels));
    let r = labels_text(labels_view(right.labels));
    lemma_seq_less_asym(l, r);
    lemma_seq_less_asym(r, l);
    lemma_seq_less_total(l, r);
}

// ---------------------------------------------------------------------------
// Command results
// ---------------------------------------------------------------------------

/// The instant an instant query is evaluated at, in Unix seconds: `--time`
/// when given (a text that does not parse is refused as such), else `now`.
pub open spec fn instant_time_spec(time: Option<Seq<char>>, now: int) -> Result<Seq<char>, ErrorV> {
    match time {
        Some(raw) => match rfc3339_spec(raw) {
            Err(_) => Err(Failure::InvalidTime(raw)),
            Ok(n) => unix_seconds_spec(n),
        },
        None => unix_seconds_spec(now),
    }
}

/// The evaluation time of an instant query (see `instant_time_spec`).
pub fn instant_time_seconds_at(time: Option<&str>, now: Timestamp) -> (r: Result<String, Error>)
    ensures
        crate::time::text_result_view(r) == instant_time_spec(crate::time::opt_view(time), now.nanos as int),
{
    let t = match time {
        Some(raw) => match parse_rfc3339(raw) {
            Ok(t) => t,
            Err(_) => return Err(Failure::InvalidTime(owned(raw))),
        },
        None => now,
    };
    to_unix_seconds_string(t)
}

/// The evaluation time of an instant query, `now` read from the system clock.
pub fn instant_time_seconds(time: Option<&str>) -> (r: Result<String, Error>)
    ensures
        exists|now: int| crate::time::text_result_view(r) == #[trigger] instant_time_spec(crate::time::opt_view(time), now),
{
    let now = crate::time::system_now();
    let r = instant_time_seconds_at(time, now);
    assert(crate::time::text_result_view(r) == instant_time_spec(crate::time::opt_view(time), now.nanos as int));
    r
}

/// The step of a range query in whole seconds: a duration text (refused as
/// such when it does not parse) of at least one second.
pub open spec fn step_spec(raw: Seq<char>) -> Result<u64, ErrorV> {
    match since_duration_spec(raw) {
        Err(_) => Err(Failure::InvalidStep(raw)),
        Ok(d) => if d.0 == 0 {
            Err(Failure::StepTooSmall)
        } else {
            Ok(d.0)
        },
    }
}

/// The step of a range query (see `step_spec`).
pub fn parse_step(raw: &str) -> (r: Result<u64, Error>)
    ensures
        match r {
            Ok(s) => step_spec(raw@) == Ok::<u64, ErrorV>(s),
            Err(e) => step_spec(raw@) == Err::<u64, ErrorV>(e@),
        },
{
    let d = match parse_since_duration(raw) {
        Ok(d) => d,
        Err(_) => return Err(Failure::InvalidStep(owned(raw))),
    };
    if d.secs == 0 {
        return Err(Failure::StepTooSmall);
    }
    Ok(d.secs)
}

/// The window of a range query: its start and end in Unix seconds and its
/// step, checked in that order.
pub open spec fn range_window_spec(
    since: Option<Seq<char>>,
    from: Option<Seq<char>>,
    to: Option<Seq<char>>,
    step: Seq<char>,
    now: int,
) -> Result<(Seq<char>, Seq<char>, u64), ErrorV> {
    match range_spec(since, from, to, crate::time::DEFAULT_SINCE@, now) {
        Err(e) => Err(e),
        Ok((s, t)) => match step_spec(step) {
            Err(e) => Err(e),
            Ok(st) => match unix_seconds_spec(s) {
                Err(e) => Err(e),
                Ok(a) => match unix_seconds_spec(t) {
                    Err(e) => Err(e),
                    Ok(b) => Ok((a, b, st)),
                },
            },
        },
    }
}

/// The view of a window result.
pub open spec fn window_view(r: Result<(String, String, u64), Error>) -> Result<
    (Seq<char>, Seq<char>, u64),
    ErrorV,
> {
    match r {
        Ok((a, b, s)) => Ok((a@, b@, s)),
        Err(e) => Err(e@),
    }
}

/// The window of `metrics range` relative to `now` (see `range_window_spec`).
pub fn range_window_at(args: &MetricsRangeArgs, now: Timestamp) -> (r: Result<(String, String, u64), Error>)
    requires
        now.wf(),
    ensures
        window_view(r) == range_window_spec(
            opt_string_view(args.since),
            opt_string_view(args.from),
            opt_string_view(args.to),
            args.step@,
            now.nanos as int,
        ),
{
    seconds_window_at(
        opt_str_of(&args.since),
        opt_str_of(&args.from),
        opt_str_of(&args.to),
        args.step.as_str(),
        now,
    )
}

/// The window of a range query relative to `now` (see `range_window_spec`).
pub(crate) fn seconds_window_at(
    since: Option<&str>,
    from: Option<&str>,
    to: Option<&str>,
    step: &str,
    now: Timestamp,
) -> (r: Result<(String, String, u64), Error>)
    requires
        now.wf(),
    ensures
        window_view(r) == range_window_spec(
            crate::time::opt_view(since),
            crate::time::opt_view(from),
            crate::time::opt_view(to),
            step@,
            now.nanos as int,
        ),
{
    let range = match resolve_range_at(since, from, to, crate::time::DEFAULT_SINCE, now) {
        Ok(r) => r,
        Err(e) => return Err(e),
    };
    let step = match parse_step(step) {
        Ok(s) => s,
        Err(e) => return Err(e),
    };
    let start = match to_unix_seconds_string(range.start) {
        Ok(s) => s,
        Err(e) => return Err(e),
    };
    let end = match to_unix_seconds_string(range.end) {
        Ok(s) => s,
        Err(e) => return Err(e),
    };
    Ok((start, end, step))
}

/// The window of `metrics range`, `now` read from the system clock.
pub fn range_window(args: &MetricsRangeArgs) -> (r: Result<(String, String, u64), Error>)
    ensures
        exists|now: int|
            crate::time::min_nanos() <= now <= crate::time::max_nanos() && window_view(r)
                == #[trigger] range_window_spec(
                opt_string_view(args.since),
                opt_string_view(args.from),
                opt_string_view(args.to),
                args.step@,
                now,
            ),
{
    let now = crate::time::system_now();
    let r = range_window_at(args, now);
    assert(window_view(r) == range_window_spec(
        opt_string_view(args.since),
        opt_string_view(args.from),
        opt_string_view(args.to),
        args.step@,
        now.nanos as int,
    ));
    r
}

/// The result of `metrics query` or `metrics range`.
#[derive(Debug)]
pub struct MetricsQueryResult {
    pub mode: String,
    pub datasource_uid: String,
    pub query: String,
    pub result_type: String,
    pub time: Option<String>,
    pub start: Option<String>,
    pub end: Option<String>,
    pub step_seconds: Option<u64>,
    pub count: usize,
    pub samples: Vec<MetricSample>,
}

/// The result of `metrics query`: evaluated at `time_seconds` (also rendered
/// as RFC 3339), with the samples of the answer.
pub fn query(
    args: MetricsQueryArgs,
    result_type: String,
    time_seconds: &str,
    samples: Vec<MetricSample>,
) -> (r: MetricsQueryResult)
    requires
        seconds_renderable(time_seconds@),
    ensures
        r.mode@ == "instant"@,
        r.datasource_uid == args.datasource_uid,
        r.query == args.query,
        r.result_type == result_type,
        opt_string_view(r.time) == Some(seconds_rfc3339_spec(time_seconds@)),
        r.start is None,
        r.end is None,
        r.step_seconds is None,
        r.count == samples@.len(),
        r.samples == samples,
{
    let count = samples.len();
    MetricsQueryResult {
        mode: owned("instant"),
        datasource_uid: args.datasource_uid,
        query: args.query,
        result_type,
        time: Some(seconds_to_rfc3339(time_seconds)),
        start: None,
        end: None,
        step_seconds: None,
        count,
        samples,
    }
}

/// The result of `metrics range`: the window (rendered as RFC 3339), the step,
/// and the samples of the answer.
pub fn range(
    args: MetricsRangeArgs,
    result_type: String,
    start_seconds: &str,
    end_seconds: &str,
    step_seconds: u64,
    samples: Vec<MetricSample>,
) -> (r: MetricsQueryResult)
    requires
        seconds_renderable(start_seconds@),
        seconds_renderable(end_seconds@),
    ensures
        r.mode@ == "range"@,
        r.datasource_uid == args.datasource_uid,
        r.query == args.query,
        r.result_type == result_type,
        r.time is None,
        opt_string_view(r.start) == Some(seconds_rfc3339_spec(start_seconds@)),
        opt_string_view(r.end) == Some(seconds_rfc3339_spec(end_seconds@)),
        r.step_seconds == Some(step_seconds),
        r.count == samples@.len(),
        r.samples == samples,
{
    let count = samples.len();
    MetricsQueryResult {
        mode: owned("range"),
        datasource_uid: args.datasource_uid,
        query: args.query,
        result_type,
        time: None,
        start: Some(seconds_to_rfc3339(start_seconds)),
        end: Some(seconds_to_rfc3339(end_seconds)),
        step_seconds: Some(step_seconds),
        count,
        samples,
    }
}

/// The text shown when no samples came back.
pub const NO_METRIC_SAMPLES: &'static str = "No metric samples found.\n";

/// The table cells of a sample: timestamp, labels, value.
pub open spec fn sample_cells(s: MetricSample) -> Seq<Seq<char>> {
    seq![s.timestamp@, labels_text(labels_view(s.labels)), s.value@]
}

impl TableOutput for MetricsQueryResult {
    open spec fn table_text(&self) -> Seq<char> {
        if self.samples@.len() == 0 {
            NO_METRIC_SAMPLES@
        } else {
            aligned_table(
                seq!["TIMESTAMP"@, "LABELS"@, "VALUE"@],
                self.samples@.map_values(|s: MetricSample| sample_cells(s)),
            )
        }
    }

    fn render_table(&self) -> (s: String) {
        if self.samples.len() == 0 {
            return owned(NO_METRIC_SAMPLES);
        }
        let headers: [&str; 3] = ["TIMESTAMP", "LABELS", "VALUE"];
        let mut rows: Vec<Vec<String>> = Vec::new();
        let mut i: usize = 0;
        while i < self.samples.len()
            invariant
                i <= self.samples@.len(),
                rows@.len() == i,
                forall|k: int| 0 <= k < i ==> #[trigger] rows@[k]@.len() == 3,
                grid_view(rows@) == self.samples@.map_values(|s: MetricSample| sample_cells(s)).take(
                    i as int,
                ),
            decreases self.samples.len() - i,
        {
            let x = &self.samples[i];
            let mut row: Vec<String> = Vec::new();
            row.push(x.timestamp.clone());
            row.push(format_labels(&x.labels));
            row.push(x.value.clone());
            let ghost before = grid_view(rows@);
            rows.push(row);
            assert(crate::output::cells_view(row) =~= sample_cells(*x));
            assert(grid_view(rows@) =~= before.push(sample_cells(*x)));
            i = i + 1;
        }
        assert(self.samples@.map_values(|s: MetricSample| sample_cells(s)).take(
            self.samples@.len() as int,
        ) =~= self.samples@.map_values(|s: MetricSample| sample_cells(s)));
        assert(headers_view(headers@) =~= seq!["TIMESTAMP"@, "LABELS"@, "VALUE"@]);
        render_aligned_table(&headers, rows.as_slice())
    }
}

} // verus!
