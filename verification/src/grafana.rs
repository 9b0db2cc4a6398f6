//! What is sent to Grafana's HTTP API, and how its answers are checked.
use vstd::prelude::*;

use crate::error::{Error, ErrorV, Failure};
use crate::json::{quoted, write_quoted};
use crate::logs::{LokiQueryRangeResponse, LokiStream};
use crate::metrics::{PrometheusData, PrometheusQueryResponse};
use crate::text::{chars_of, lemma_trim_end_char_skip, owned, push_char, str_eq, trim_end_char, u64_decimal, decimal, string_of, slice_range};

verus! {

broadcast use vstd::string::group_string_axioms;

/// The base URL without its trailing slashes.
pub fn api_base(base_url: &str) -> (r: String)
    ensures
        r@ == trim_end_char(base_url@, '/'),
{
    let v = chars_of(base_url);
    let mut j: usize = v.len();
    while j > 0 && v[j - 1] == '/'
        invariant
            j <= v@.len(),
            forall|k: int| j <= k < v@.len() ==> #[trigger] v@[k] == '/',
        decreases j,
    {
        j = j - 1;
    }
    proof {
        lemma_trim_end_char_skip(v@, '/', j as int);
        let p = v@.subrange(0, j as int);
        assert(j == 0 || p.last() != '/');
        assert(trim_end_char(p, '/') == p);
    }
    let kept = slice_range(&v, 0, j);
    string_of(&kept)
}

/// Characters that stand for themselves in a URL path segment (RFC 3986's
/// unreserved characters).
pub open spec fn is_unreserved(c: char) -> bool {
    ('A' <= c && c <= 'Z') || ('a' <= c && c <= 'z') || ('0' <= c && c <= '9') || c == '-' || c
        == '.' || c == '_' || c == '~'
}

/// The UTF-8 bytes of a character.
pub open spec fn utf8_bytes(c: char) -> Seq<u8> {
    let u = c as u32;
    if u < 0x80 {
        seq![u as u8]
    } else if u < 0x800 {
        seq![(0xC0 + u / 64) as u8, (0x80 + u % 64) as u8]
    } else if u < 0x10000 {
        seq![(0xE0 + u / 4096) as u8, (0x80 + (u / 64) % 64) as u8, (0x80 + u % 64) as u8]
    } else {
        seq![
            (0xF0 + u / 262144) as u8,
            (0x80 + (u / 4096) % 64) as u8,
            (0x80 + (u / 64) % 64) as u8,
            (0x80 + u % 64) as u8,
        ]
    }
}

/// The upper-case hexadecimal digit of `d < 16`.
pub open spec fn hex_upper(d: nat) -> char {
    if d < 10 {
        (48 + d) as char
    } else {
        (55 + d) as char
    }
}

/// Bytes written as `%XX` each.
pub open spec fn percent_bytes(b: Seq<u8>) -> Seq<char>
    decreases b.len(),
{
    if b.len() == 0 {
        seq![]
    } else {
        percent_bytes(b.drop_last()) + seq![
            '%',
            hex_upper((b.last() / 16) as nat),
            hex_upper((b.last() % 16) as nat),
        ]
    }
}

/// A character as it stands in a path segment.
pub open spec fn encoded_char(c: char) -> Seq<char> {
    if is_unreserved(c) {
        seq![c]
    } else {
        percent_bytes(utf8_bytes(c))
    }
}

/// A text made fit to be one URL path segment: unreserved characters stay,
/// every other character is written as the `%XX` escapes of its UTF-8 bytes.
pub open spec fn path_segment(s: Seq<char>) -> Seq<char>
    decreases s.len(),
{
    if s.len() == 0 {
        seq![]
    } else {
        path_segment(s.drop_last()) + encoded_char(s.last())
    }
}

/// The upper-case hexadecimal digit of `d < 16`.
fn hex_digit_upper(d: u8) -> (c: char)
    requires
        d < 16,
    ensures
        c == hex_upper(d as nat),
{
    if d < 10 {
        let b: u8 = 48 + d;
        b as char
    } else {
        let b: u8 = 55 + d;
        b as char
    }
}

/// Appends `%XX` for one byte.
fn push_percent(out: &mut String, b: u8)
    ensures
        final(out)@ == old(out)@ + seq!['%', hex_upper((b / 16) as nat), hex_upper((b % 16) as nat)],
{
    push_char(out, '%');
    push_char(out, hex_digit_upper(b / 16));
    push_char(out, hex_digit_upper(b % 16));
}

/// Appends the escapes of a character's UTF-8 bytes.
fn push_encoded_char(out: &mut String, c: char)
    ensures
        final(out)@ == old(out)@ + encoded_char(c),
{
    let ghost start = out@;
    if ('A' <= c && c <= 'Z') || ('a' <= c && c <= 'z') || ('0' <= c && c <= '9') || c == '-' || c
        == '.' || c == '_' || c == '~' {
        push_char(out, c);
        return;
    }
    let u = c as u32;
    let ghost bytes = utf8_bytes(c);
    proof {
        reveal_with_fuel(percent_bytes, 5);
    }
    if u < 0x80 {
        push_percent(out, u as u8);
        assert(bytes.drop_last().len() == 0);
    } else if u < 0x800 {
        push_percent(out, (0xC0 + u / 64) as u8);
        push_percent(out, (0x80 + u % 64) as u8);
        assert(bytes.drop_last().drop_last().len() == 0);
    } else if u < 0x10000 {
        push_percent(out, (0xE0 + u / 4096) as u8);
        push_percent(out, (0x80 + (u / 64) % 64) as u8);
        push_percent(out, (0x80 + u % 64) as u8);
        assert(bytes.drop_last().drop_last().drop_last().len() == 0);
    } else {
        push_percent(out, (0xF0 + u / 262144) as u8);
        push_percent(out, (0x80 + (u / 4096) % 64) as u8);
        push_percent(out, (0x80 + (u / 64) % 64) as u8);
        push_percent(out, (0x80 + u % 64) as u8);
        assert(bytes.drop_last().drop_last().drop_last().drop_last().len() == 0);
    }
    assert(out@ =~= start + encoded_char(c));
}

/// Appends a text as one URL path segment (see `path_segment`).
pub fn push_path_segment(out: &mut String, s: &str)
    ensures
        final(out)@ == old(out)@ + path_segment(s@),
{
    let ghost start = out@;
    let v = chars_of(s);
    let mut i: usize = 0;
    while i < v.len()
        invariant
            i <= v@.len(),
            v@ == s@,
            out@ == start + path_segment(v@.take(i as int)),
        decreases v.len() - i,
    {
        push_encoded_char(out, v[i]);
        assert(v@.take(i + 1).drop_last() == v@.take(i as int));
        assert(v@.take(i + 1).last() == v@[i as int]);
        i = i + 1;
    }
    assert(v@.take(v@.len() as int) == v@);
}

/// `/api/datasources`.
pub open spec fn datasources_url(base: Seq<char>) -> Seq<char> {
    trim_end_char(base, '/') + "/api/datasources"@
}

/// The URL that lists datasources.
pub fn datasources_endpoint(base_url: &str) -> (r: String)
    ensures
        r@ == datasources_url(base_url@),
{
    let mut r = api_base(base_url);
    r.append("/api/datasources");
    r
}

/// `/api/datasources/uid/<uid>`.
pub open spec fn datasource_by_uid_url(base: Seq<char>, uid: Seq<char>) -> Seq<char> {
    trim_end_char(base, '/') + "/api/datasources/uid/"@ + path_segment(uid)
}

/// The URL that describes one datasource (the UID escaped as a path segment).
pub fn datasource_by_uid_endpoint(base_url: &str, uid: &str) -> (r: String)
    ensures
        r@ == datasource_by_uid_url(base_url@, uid@),
{
    let mut r = api_base(base_url);
    r.append("/api/datasources/uid/");
    push_path_segment(&mut r, uid);
    r
}

/// `/api/ds/query`.
pub open spec fn ds_query_url(base: Seq<char>) -> Seq<char> {
    trim_end_char(base, '/') + "/api/ds/query"@
}

/// The URL that runs datasource queries.
pub fn ds_query_endpoint(base_url: &str) -> (r: String)
    ensures
        r@ == ds_query_url(base_url@),
{
    let mut r = api_base(base_url);
    r.append("/api/ds/query");
    r
}

/// A path under the proxy of a datasource: `/api/datasources/proxy/uid/<uid><path>`.
pub open spec fn proxy_url(base: Seq<char>, uid: Seq<char>, path: Seq<char>) -> Seq<char> {
    trim_end_char(base, '/') + "/api/datasources/proxy/uid/"@ + path_segment(uid) + path
}

/// A URL under the proxy of a datasource (the UID escaped as a path segment).
pub fn proxy_endpoint(base_url: &str, uid: &str, path: &str) -> (r: String)
    ensures
        r@ == proxy_url(base_url@, uid@, path@),
{
    let mut r = api_base(base_url);
    r.append("/api/datasources/proxy/uid/");
    push_path_segment(&mut r, uid);
    r.append(path);
    r
}

/// Loki's range query path.
pub const LOKI_QUERY_RANGE_PATH: &'static str = "/loki/api/v1/query_range";

/// Prometheus's instant query path.
pub const PROMETHEUS_QUERY_PATH: &'static str = "/api/v1/query";

/// Prometheus's range query path.
pub const PROMETHEUS_QUERY_RANGE_PATH: &'static str = "/api/v1/query_range";

/// Tempo's search path.
pub const TEMPO_SEARCH_PATH: &'static str = "/api/search";

/// The URL of one trace in Tempo: `/api/v2/traces/<trace_id>` under the
/// proxy, the trace ID escaped as a path segment.
pub fn trace_endpoint(base_url: &str, uid: &str, trace_id: &str) -> (r: String)
    ensures
        r@ == proxy_url(base_url@, uid@, "/api/v2/traces/"@ + path_segment(trace_id@)),
{
    let mut r = proxy_endpoint(base_url, uid, "/api/v2/traces/");
    push_path_segment(&mut r, trace_id);
    r
}

/// Query parameters as character sequences.
pub open spec fn params_view(p: Seq<(String, String)>) -> Seq<(Seq<char>, Seq<char>)> {
    p.map_values(|x: (String, String)| (x.0@, x.1@))
}

/// A query parameter.
fn param(name: &str, value: &str) -> (r: (String, String))
    ensures
        r.0@ == name@,
        r.1@ == value@,
{
    (owned(name), owned(value))
}

/// The parameters of a Loki log query.
pub fn loki_range_params(query: &str, start_ns: &str, end_ns: &str, limit: u32, direction: &str) -> (r: Vec<(String, String)>)
    ensures
        params_view(r@) == seq![
            ("query"@, query@),
            ("start"@, start_ns@),
            ("end"@, end_ns@),
            ("limit"@, decimal(limit as nat)),
            ("direction"@, direction@),
        ],
{
    let limit_text = u64_decimal(limit as u64);
    let r = vec![
        param("query", query),
        param("start", start_ns),
        param("end", end_ns),
        param("limit", limit_text.as_str()),
        param("direction", direction),
    ];
    assert(params_view(r@) =~= seq![
        ("query"@, query@),
        ("start"@, start_ns@),
        ("end"@, end_ns@),
        ("limit"@, decimal(limit as nat)),
        ("direction"@, direction@),
    ]);
    r
}

/// The parameters of a range query with a step (Loki metric queries and
/// Prometheus range queries).
pub fn range_step_params(query: &str, start: &str, end: &str, step_seconds: &str) -> (r: Vec<(String, String)>)
    ensures
        params_view(r@) == seq![
            ("query"@, query@),
            ("start"@, start@),
            ("end"@, end@),
            ("step"@, step_seconds@),
        ],
{
    let r = vec![
        param("query", query),
        param("start", start),
        param("end", end),
        param("step", step_seconds),
    ];
    assert(params_view(r@) =~= seq![
        ("query"@, query@),
        ("start"@, start@),
        ("end"@, end@),
        ("step"@, step_seconds@),
    ]);
    r
}

/// The parameters of a Prometheus instant query.
pub fn instant_params(query: &str, time_seconds: &str) -> (r: Vec<(String, String)>)
    ensures
        params_view(r@) == seq![("query"@, query@), ("time"@, time_seconds@)],
{
    let r = vec![param("query", query), param("time", time_seconds)];
    assert(params_view(r@) =~= seq![("query"@, query@), ("time"@, time_seconds@)]);
    r
}

/// The parameters of a Tempo search.
pub fn tempo_search_params(query: &str, start_seconds: &str, end_seconds: &str, limit: u32) -> (r: Vec<(String, String)>)
    ensures
        params_view(r@) == seq![
            ("q"@, query@),
            ("start"@, start_seconds@),
            ("end"@, end_seconds@),
            ("limit"@, decimal(limit as nat)),
        ],
{
    let limit_text = u64_decimal(limit as u64);
    let r = vec![
        param("q", query),
        param("start", start_seconds),
        param("end", end_seconds),
        param("limit", limit_text.as_str()),
    ];
    assert(params_view(r@) =~= seq![
        ("q"@, query@),
        ("start"@, start_seconds@),
        ("end"@, end_seconds@),
        ("limit"@, decimal(limit as nat)),
    ]);
    r
}

/// The JSON body of a SQL query: one table-format query for the datasource,
/// over the last hour.
pub open spec fn sql_query_body_text(uid: Seq<char>, ds_type: Seq<char>, raw_sql: Seq<char>) -> Seq<char> {
    "{\"from\":\"now-1h\",\"queries\":[{\"datasource\":{\"type\":"@ + quoted(ds_type) + ",\"uid\":"@
        + quoted(uid) + "},\"format\":\"table\",\"intervalMs\":1000,\"maxDataPoints\":1000,\"rawQuery\":true,\"rawSql\":"@
        + quoted(raw_sql) + ",\"refId\":\"A\"}],\"to\":\"now\"}"@
}

/// The JSON body of a SQL query (see `sql_query_body_text`), keys in order.
pub fn sql_query_body(datasource_uid: &str, datasource_type: &str, raw_sql: &str) -> (r: String)
    ensures
        r@ == sql_query_body_text(datasource_uid@, datasource_type@, raw_sql@),
{
    let mut r = owned("{\"from\":\"now-1h\",\"queries\":[{\"datasource\":{\"type\":");
    write_quoted(&mut r, datasource_type);
    r.append(",\"uid\":");
    write_quoted(&mut r, datasource_uid);
    r.append("},\"format\":\"table\",\"intervalMs\":1000,\"maxDataPoints\":1000,\"rawQuery\":true,\"rawSql\":");
    write_quoted(&mut r, raw_sql);
    r.append(",\"refId\":\"A\"}],\"to\":\"now\"}");
    r
}

/// The number of bytes `c` takes in UTF-8.
pub open spec fn utf8_width(c: char) -> nat {
    let u = c as u32;
    if u < 0x80 {
        1
    } else if u < 0x800 {
        2
    } else if u < 0x10000 {
        3
    } else {
        4
    }
}

/// The number of bytes `s` takes in UTF-8 (`str::len`).
pub open spec fn utf8_size(s: Seq<char>) -> nat
    decreases s.len(),
{
    if s.len() == 0 {
        0
    } else {
        utf8_size(s.drop_last()) + utf8_width(s.last())
    }
}

/// How many leading characters of `s` fit in `budget` bytes.
pub open spec fn fitting_chars(s: Seq<char>, budget: int) -> nat
    decreases s.len(),
{
    if s.len() == 0 || utf8_width(s[0]) > budget {
        0
    } else {
        1 + fitting_chars(s.drop_first(), budget - utf8_width(s[0]))
    }
}

/// A response body as shown in an error: whole when it takes at most
/// `max_len` bytes, else its longest prefix of whole characters within
/// `max_len` bytes followed by `...`.
pub open spec fn log_snippet(s: Seq<char>, max_len: nat) -> Seq<char> {
    if utf8_size(s) <= max_len {
        s
    } else {
        s.take(fitting_chars(s, max_len as int) as int) + "..."@
    }
}

/// The UTF-8 width of a character.
fn char_width(c: char) -> (w: usize)
    ensures
        w == utf8_width(c),
{
    let u = c as u32;
    if u < 0x80 {
        1
    } else if u < 0x800 {
        2
    } else if u < 0x10000 {
        3
    } else {
        4
    }
}

/// A prefix never takes more bytes than the whole.
proof fn lemma_utf8_size_prefix(s: Seq<char>, k: int)
    requires
        0 <= k <= s.len(),
    ensures
        utf8_size(s.take(k)) <= utf8_size(s),
    decreases s.len() - k,
{
    if k < s.len() {
        assert(s.drop_last().take(k) == s.take(k));
        lemma_utf8_size_prefix(s.drop_last(), k);
    } else {
        assert(s.take(k) == s);
    }
}

/// A response body shortened for an error message (see `log_snippet`); the cut
/// falls between characters.
pub fn truncate_for_log(value: &str, max_len: usize) -> (r: String)
    ensures
        r@ == log_snippet(value@, max_len as nat),
{
    let v = chars_of(value);
    let max: u128 = max_len as u128;
    let mut used: u128 = 0;
    let mut i: usize = 0;
    assert(v@.skip(0) == v@);
    assert(v@.take(0) =~= Seq::<char>::empty());
    while i < v.len() && used + (char_width(v[i]) as u128) <= max
        invariant
            i <= v@.len(),
            used <= max,
            max == max_len,
            used == utf8_size(v@.take(i as int)),
            fitting_chars(v@, max as int) == i + fitting_chars(v@.skip(i as int), max - used),
        decreases v.len() - i,
    {
        let w = char_width(v[i]);
        proof {
            let rest = v@.skip(i as int);
            assert(rest[0] == v@[i as int]);
            assert(rest.drop_first() == v@.skip(i + 1));
            assert(v@.take(i + 1).drop_last() == v@.take(i as int));
            assert(v@.take(i + 1).last() == v@[i as int]);
        }
        used = used + w as u128;
        i = i + 1;
    }
    if i == v.len() {
        assert(v@.take(i as int) == v@);
        string_of(&v)
    } else {
        proof {
            let rest = v@.skip(i as int);
            assert(rest[0] == v@[i as int]);
            assert(v@.take(i + 1).drop_last() == v@.take(i as int));
            assert(v@.take(i + 1).last() == v@[i as int]);
            lemma_utf8_size_prefix(v@, i + 1);
        }
        let kept = slice_range(&v, 0, i);
        let mut r = string_of(&kept);
        r.append("...");
        assert(kept@ == v@.take(i as int));
        r
    }
}

/// The size of a character followed by more text.
proof fn lemma_utf8_size_cons(s: Seq<char>)
    requires
        s.len() > 0,
    ensures
        utf8_size(s) == utf8_width(s[0]) + utf8_size(s.drop_first()),
    decreases s.len(),
{
    if s.len() > 1 {
        lemma_utf8_size_cons(s.drop_last());
        assert(s.drop_last()[0] == s[0]);
        assert(s.drop_last().drop_first() == s.drop_first().drop_last());
        assert(s.drop_first().last() == s.last());
        assert(utf8_size(s.drop_first()) == utf8_size(s.drop_first().drop_last()) + utf8_width(
            s.drop_first().last(),
        ));
    } else {
        assert(s.drop_first().len() == 0);
        assert(s.drop_last().len() == 0);
        assert(utf8_size(s.drop_first()) == 0);
        assert(utf8_size(s.drop_last()) == 0);
        assert(s.last() == s[0]);
    }
}

/// The characters that `fitting_chars` counts take at most the budget, and one
/// more character, when there is one, would exceed it.
proof fn lemma_fitting_chars(s: Seq<char>, budget: int)
    requires
        budget >= 0,
    ensures
        fitting_chars(s, budget) <= s.len(),
        utf8_size(s.take(fitting_chars(s, budget) as int)) <= budget,
        fitting_chars(s, budget) < s.len() ==> utf8_size(
            s.take(fitting_chars(s, budget) as int + 1),
        ) > budget,
    decreases s.len(),
{
    let k = fitting_chars(s, budget);
    if s.len() == 0 {
        assert(s.take(0) =~= Seq::<char>::empty());
    } else if utf8_width(s[0]) > budget {
        assert(s.take(0) =~= Seq::<char>::empty());
        assert(s.take(1).len() == 1);
        lemma_utf8_size_cons(s.take(1));
        assert(s.take(1).drop_first() =~= Seq::<char>::empty());
    } else {
        let t = s.drop_first();
        let b = budget - utf8_width(s[0]);
        lemma_fitting_chars(t, b);
        let j = fitting_chars(t, b);
        assert(k == j + 1);
        lemma_utf8_size_cons(s.take(k as int));
        assert(s.take(k as int).drop_first() =~= t.take(j as int));
        if k < s.len() {
            lemma_utf8_size_cons(s.take(k as int + 1));
            assert(s.take(k as int + 1).drop_first() =~= t.take(j as int + 1));
        }
    }
}

/// An error message keeps a body that fits whole; of a longer body it keeps the
/// longest run of whole leading characters that fits in `max_len` bytes, then
/// `...`: the cut never splits a character and never exceeds the limit.
pub proof fn law_snippet_within_limit(s: Seq<char>, max_len: nat)
    ensures
        utf8_size(s) <= max_len ==> log_snippet(s, max_len) == s,
        utf8_size(s) > max_len ==> {
            let k = fitting_chars(s, max_len as int);
            &&& k < s.len()
            &&& log_snippet(s, max_len) == s.take(k as int) + "..."@
            &&& utf8_size(s.take(k as int)) <= max_len
            &&& utf8_size(s.take(k as int + 1)) > max_len
        },
{
    lemma_fitting_chars(s, max_len as int);
    let k = fitting_chars(s, max_len as int);
    if utf8_size(s) > max_len && k == s.len() {
        assert(s.take(k as int) == s);
    }
}

/// A successful status is in 200..=299; 401, 403 and 404 name their cause;
/// another status is reported with the start of the response body.
pub open spec fn status_spec(status: u16, body: Seq<char>, action: Seq<char>) -> Result<(), ErrorV> {
    if 200 <= status <= 299 {
        Ok(())
    } else if status == 401 {
        Err(Failure::Unauthorized(action))
    } else if status == 403 {
        Err(Failure::Forbidden(action))
    } else if status == 404 {
        Err(Failure::NotFound(action))
    } else {
        Err(Failure::HttpStatus(status, action, log_snippet(body, 400)))
    }
}

/// Checks the status of an HTTP response (see `status_spec`).
pub fn ensure_grafana_success(status: u16, body: &str, action: &str) -> (r: Result<(), Error>)
    ensures
        match r {
            Ok(_) => status_spec(status, body@, action@) == Ok::<(), ErrorV>(()),
            Err(e) => status_spec(status, body@, action@) == Err::<(), ErrorV>(e@),
        },
{
    if 200 <= status && status <= 299 {
        Ok(())
    } else if status == 401 {
        Err(Failure::Unauthorized(owned(action)))
    } else if status == 403 {
        Err(Failure::Forbidden(owned(action)))
    } else if status == 404 {
        Err(Failure::NotFound(owned(action)))
    } else {
        Err(Failure::HttpStatus(status, owned(action), truncate_for_log(body, 400)))
    }
}

/// The data of a Prometheus-style response, when its status is `success`.
pub fn parse_query_response(response: PrometheusQueryResponse, query_kind: &str) -> (r: Result<PrometheusData, Error>)
    ensures
        match r {
            Ok(d) => response.status@ == "success"@ && d == response.data,
            Err(e) => response.status@ != "success"@ && e@ == Failure::QueryNotSuccessful(
                query_kind@,
                response.status@,
            ),
        },
{
    if str_eq(response.status.as_str(), "success") {
        Ok(response.data)
    } else {
        Err(Failure::QueryNotSuccessful(owned(query_kind), response.status))
    }
}

/// The streams of a Loki response, when its status is `success`.
pub fn loki_streams(response: LokiQueryRangeResponse) -> (r: Result<Vec<LokiStream>, Error>)
    ensures
        match r {
            Ok(s) => response.status@ == "success"@ && s == response.data.streams,
            Err(e) => response.status@ != "success"@ && e@ == Failure::QueryNotSuccessful(
                "Loki query"@,
                response.status@,
            ),
        },
{
    if str_eq(response.status.as_str(), "success") {
        Ok(response.data.streams)
    } else {
        Err(Failure::QueryNotSuccessful(owned("Loki query"), response.status))
    }
}

} // verus!
