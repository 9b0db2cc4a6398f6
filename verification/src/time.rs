//! Time ranges given on the command line, and the timestamps sent to and
//! received from Grafana.
use vstd::prelude::*;

use crate::error::{Error, ErrorV, Failure};
use crate::text::{
    chars_of, decimal, parse_u128, parse_unsigned, slice_range, string_of, trim_chars,
    trim_seq, trim_start_char, lemma_trim_start_char_skip, u128_decimal, owned, chars_eq_str,
    is_whitespace, is_ws,
};

verus! {

/// Nanoseconds in a second.
pub const NANOS_PER_SEC: u64 = 1_000_000_000;

/// The earliest instant that a system time holds on Unix, in nanoseconds since
/// the epoch (`i64::MIN` seconds).
pub open spec fn min_nanos() -> int {
    -9_223_372_036_854_775_808int * 1_000_000_000
}

/// The latest instant that a system time holds on Unix, in nanoseconds since
/// the epoch (`i64::MAX` seconds and 999 999 999 nanoseconds).
pub open spec fn max_nanos() -> int {
    9_223_372_036_854_775_807int * 1_000_000_000 + 999_999_999
}

/// An instant, as nanoseconds relative to the Unix epoch (negative before it).
#[derive(Clone, Copy, Debug)]
pub struct Timestamp {
    pub nanos: i128,
}

impl Timestamp {
    /// The instant lies within the range a system time can hold.
    pub open spec fn wf(self) -> bool {
        min_nanos() <= self.nanos <= max_nanos()
    }
}

/// A length of time: whole seconds and the nanoseconds beyond them.
#[derive(Clone, Copy, Debug)]
pub struct TimeSpan {
    pub secs: u64,
    pub nanos: u32,
}

impl TimeSpan {
    /// The span in nanoseconds.
    pub open spec fn total(self) -> int {
        self.secs * 1_000_000_000 + self.nanos
    }

    /// The nanosecond part is below one second.
    pub open spec fn wf(self) -> bool {
        self.nanos < 1_000_000_000
    }
}

/// A half-open query window.
#[derive(Clone, Copy, Debug)]
pub struct TimeRange {
    pub start: Timestamp,
    pub end: Timestamp,
}

// ---------------------------------------------------------------------------
// Calls into humantime
// ---------------------------------------------------------------------------

/// What `humantime::parse_duration` yields for a text: the seconds and
/// nanoseconds of the duration, or nothing on a parse error.
pub uninterp spec fn spec_parse_duration(s: Seq<char>) -> Option<(u64, u32)>;

/// What `humantime::parse_rfc3339_weak` yields for a text: the seconds and
/// nanoseconds after the Unix epoch, or nothing on a parse error.
pub uninterp spec fn spec_parse_rfc3339_weak(s: Seq<char>) -> Option<(u64, u32)>;

/// The text of `humantime::format_rfc3339_millis` for the instant that lies
/// the given seconds and nanoseconds after the Unix epoch.
pub uninterp spec fn spec_format_rfc3339_millis(secs: u64, nanos: u32) -> Seq<char>;

/// The text of `humantime::format_rfc3339_seconds` for the instant that lies
/// the given seconds after the Unix epoch.
pub uninterp spec fn spec_format_rfc3339_seconds(secs: u64) -> Seq<char>;

/// The window of a range command without `--since`, `--from` or `--to`.
pub const DEFAULT_SINCE: &'static str = "1h";

/// The first second that `humantime`'s RFC 3339 formatter refuses (year 10000).
pub open spec fn rfc3339_secs_limit() -> int {
    253_402_300_800
}

// ---------------------------------------------------------------------------
// A bound on the seconds a duration text adds up to
// ---------------------------------------------------------------------------

/// The cap of the counters of a duration scan (2^64, above every `u64`).
pub open spec fn scan_cap() -> nat {
    0x1_0000_0000_0000_0000
}

/// A counter held at the cap.
pub open spec fn capped(x: nat) -> nat {
    if x > scan_cap() {
        scan_cap()
    } else {
        x
    }
}

/// The value of a decimal digit.
pub open spec fn digit_value(c: char) -> nat {
    (c as int - '0' as int) as nat
}

/// A character that may stand in a unit name (`a`-`z`, `A`-`Z`, `µ`).
pub open spec fn is_unit_letter(c: char) -> bool {
    ('a' <= c <= 'z') || ('A' <= c <= 'Z') || c == '\u{b5}'
}

/// The seconds and the nanoseconds in one of a duration unit, for the unit
/// names a duration text may use.
pub open spec fn unit_scale(u: Seq<char>) -> Option<(nat, nat)> {
    if u == "nanos"@ || u == "nsec"@ || u == "ns"@ {
        Some((0, 1))
    } else if u == "usec"@ || u == "us"@ || u == "\u{b5}s"@ {
        Some((0, 1000))
    } else if u == "millis"@ || u == "msec"@ || u == "ms"@ {
        Some((0, 1_000_000))
    } else if u == "seconds"@ || u == "second"@ || u == "secs"@ || u == "sec"@ || u == "s"@ {
        Some((1, 0))
    } else if u == "minutes"@ || u == "minute"@ || u == "min"@ || u == "mins"@ || u == "m"@ {
        Some((60, 0))
    } else if u == "hours"@ || u == "hour"@ || u == "hr"@ || u == "hrs"@ || u == "h"@ {
        Some((3600, 0))
    } else if u == "days"@ || u == "day"@ || u == "d"@ {
        Some((86400, 0))
    } else if u == "weeks"@ || u == "week"@ || u == "wk"@ || u == "wks"@ || u == "w"@ {
        Some((604800, 0))
    } else if u == "months"@ || u == "month"@ || u == "M"@ {
        Some((2_630_016, 0))
    } else if u == "years"@ || u == "year"@ || u == "yr"@ || u == "yrs"@ || u == "y"@ {
        Some((31_557_600, 0))
    } else {
        None
    }
}

/// An upper bound on the seconds one span adds: its whole units, the seconds
/// its nanoseconds carry (at most one more than they make up), and for a
/// fraction (below one unit) one unit and one carried second more.
pub open spec fn span_seconds(count: nat, fraction: bool, scale: (nat, nat)) -> nat {
    count * scale.0 + count * scale.1 / 1_000_000_000 + (if scale.1 > 0 {
        1nat
    } else {
        0nat
    }) + (if fraction {
        scale.0 + 1
    } else {
        0nat
    })
}

/// Where a scan of a duration text stands: the mode (0 between spans, 1 in a
/// number, 2 in a fraction, 3 in a unit name, 4 stopped at a character that
/// ends the parse), the number read, whether it has a fraction, the unit name
/// read, and the seconds bound of the spans closed so far.
pub type DurationScanV = (int, nat, bool, Seq<char>, nat);

/// A scan that stopped.
pub open spec fn scan_stopped(st: DurationScanV) -> DurationScanV {
    (4, st.1, st.2, st.3, st.4)
}

/// The scan once the span read so far is closed: its bound is added when its
/// unit is known; an unknown unit ends the parse.
pub open spec fn scan_close(st: DurationScanV, mode: int, count: nat) -> DurationScanV {
    match unit_scale(st.3) {
        None => scan_stopped(st),
        Some(scale) => (mode, count, false, seq![], capped(st.4 + span_seconds(st.1, st.2, scale))),
    }
}

/// One character of a duration text, read the way the duration parser reads it:
/// whitespace inside a number is skipped, a letter starts the unit name, `.`
/// starts a fraction, and a unit name ends at whitespace or at the next digit.
pub open spec fn scan_step(st: DurationScanV, c: char) -> DurationScanV {
    let digit = '0' <= c <= '9';
    if st.0 == 0 {
        if digit {
            (1, digit_value(c), false, seq![], st.4)
        } else if is_ws(c) {
            st
        } else {
            scan_stopped(st)
        }
    } else if st.0 == 1 {
        if digit {
            (1, capped(st.1 * 10 + digit_value(c)), false, st.3, st.4)
        } else if is_ws(c) {
            st
        } else if is_unit_letter(c) {
            (3, st.1, false, seq![c], st.4)
        } else if c == '.' {
            (2, st.1, true, st.3, st.4)
        } else {
            scan_stopped(st)
        }
    } else if st.0 == 2 {
        if digit || is_ws(c) {
            st
        } else if is_unit_letter(c) {
            (3, st.1, true, seq![c], st.4)
        } else {
            scan_stopped(st)
        }
    } else if st.0 == 3 {
        if is_unit_letter(c) {
            (3, st.1, st.2, st.3.push(c), st.4)
        } else if digit {
            scan_close(st, 1, digit_value(c))
        } else if is_ws(c) {
            scan_close(st, 0, 0)
        } else {
            scan_stopped(st)
        }
    } else {
        st
    }
}

/// The scan of a whole text.
pub open spec fn duration_scan(s: Seq<char>) -> DurationScanV
    decreases s.len(),
{
    if s.len() == 0 {
        (0, 0, false, seq![], 0)
    } else {
        scan_step(duration_scan(s.drop_last()), s.last())
    }
}

/// An upper bound on every sum of seconds the duration parser forms while it
/// reads a text (held at `scan_cap`).
pub open spec fn duration_seconds_bound(s: Seq<char>) -> nat {
    let st = duration_scan(s);
    if st.0 == 3 {
        scan_close(st, 0, 0).4
    } else {
        st.4
    }
}

/// Calls `humantime::parse_duration`.
///
/// Claims that the result is a function of the text alone (named by
/// `spec_parse_duration`), and that its nanosecond part is below one second,
/// as for every `std::time::Duration`. The parser adds the spans one by one
/// and panics only when an addition leaves the seconds at `u64::MAX` with the
/// nanoseconds summing to exactly one second; such an addition needs a carry
/// of nanoseconds, which `duration_seconds_bound` counts as one more second,
/// so a text whose bound stays within `u64::MAX` never reaches that point,
/// which `requires` asks.
#[verifier::external_body]
fn humantime_parse_duration(s: &str) -> (r: Option<(u64, u32)>)
    requires
        duration_seconds_bound(s@) <= u64::MAX,
    ensures
        r == spec_parse_duration(s@),
        r matches Some(d) ==> d.1 < 1_000_000_000,
{
    match humantime::parse_duration(s) {
        Ok(d) => Some((d.as_secs(), d.subsec_nanos())),
        Err(_) => None,
    }
}

/// Calls `humantime::parse_rfc3339_weak` and reads the instant it returns as a
/// distance from the Unix epoch.
///
/// Claims that the result is a function of the text alone (named by
/// `spec_parse_rfc3339_weak`); that a parsed instant is never after
/// 9999-12-31T23:59:59 (the crate's source refuses larger totals, and smaller
/// ones on 32-bit targets), so that the distance from the epoch always exists
/// (the source refuses years before 1970); and that the nanosecond part is
/// below one second.
#[verifier::external_body]
fn humantime_parse_rfc3339_weak(s: &str) -> (r: Option<(u64, u32)>)
    ensures
        r == spec_parse_rfc3339_weak(s@),
        r matches Some(d) ==> d.0 < rfc3339_secs_limit() && d.1 < 1_000_000_000,
{
    match humantime::parse_rfc3339_weak(s) {
        Ok(t) => match t.duration_since(std::time::UNIX_EPOCH) {
            Ok(d) => Some((d.as_secs(), d.subsec_nanos())),
            Err(_) => None,
        },
        Err(_) => None,
    }
}

/// Calls `humantime::format_rfc3339_millis` on the instant that lies `secs`
/// seconds and `nanos` nanoseconds after the Unix epoch, and renders it.
///
/// Claims only that the text is a function of the two numbers (named by
/// `spec_format_rfc3339_millis`). Rendering panics from the year 10000 on,
/// which `requires` leaves out.
#[verifier::external_body]
fn humantime_format_rfc3339_millis(secs: u64, nanos: u32) -> (s: String)
    requires
        secs < rfc3339_secs_limit(),
        nanos < 1_000_000_000,
    ensures
        s@ == spec_format_rfc3339_millis(secs, nanos),
{
    humantime::format_rfc3339_millis(
        std::time::UNIX_EPOCH + std::time::Duration::new(secs, nanos),
    ).to_string()
}

/// Calls `humantime::format_rfc3339_seconds` on the instant that lies `secs`
/// seconds after the Unix epoch, and renders it.
///
/// Claims only that the text is a function of the number (named by
/// `spec_format_rfc3339_seconds`). Rendering panics from the year 10000 on,
/// which `requires` leaves out.
#[verifier::external_body]
fn humantime_format_rfc3339_seconds(secs: u64) -> (s: String)
    requires
        secs < rfc3339_secs_limit(),
    ensures
        s@ == spec_format_rfc3339_seconds(secs),
{
    humantime::format_rfc3339_seconds(std::time::UNIX_EPOCH + std::time::Duration::from_secs(secs))
        .to_string()
}

/// Reads the system clock (`SystemTime::now`) and measures it against the Unix
/// epoch (`duration_since`): whether the instant lies before the epoch, and its
/// distance from the epoch in nanoseconds.
///
/// Claims only that the distance fits the range a system time holds on Unix
/// (`i64` seconds on either side of the epoch).
#[verifier::external_body]
fn system_clock_offset() -> (r: (bool, u128))
    ensures
        r.0 ==> r.1 <= -min_nanos(),
        !r.0 ==> r.1 <= max_nanos(),
{
    match std::time::SystemTime::now().duration_since(std::time::UNIX_EPOCH) {
        Ok(d) => (false, d.as_nanos()),
        Err(e) => (true, e.duration().as_nanos()),
    }
}

/// The current instant of the system clock.
pub(crate) fn system_now() -> (t: Timestamp)
    ensures
        t.wf(),
{
    let (before, distance) = system_clock_offset();
    let n: i128 = distance as i128;
    if before {
        Timestamp { nanos: -n }
    } else {
        Timestamp { nanos: n }
    }
}

// ---------------------------------------------------------------------------
// Parsing
// ---------------------------------------------------------------------------

/// The text that is handed to the duration parser: trimmed, then stripped of
/// leading `-`.
pub open spec fn duration_body(raw: Seq<char>) -> Seq<char> {
    trim_start_char(trim_seq(raw), '-')
}

/// What `parse_since_duration` yields.
/// A duration whose seconds bound (see `duration_seconds_bound`) exceeds
/// `u64::MAX` is refused.
pub open spec fn since_duration_spec(raw: Seq<char>) -> Result<(u64, u32), ErrorV> {
    if duration_seconds_bound(duration_body(raw)) > u64::MAX {
        Err(Failure::InvalidDuration(raw))
    } else {
        match spec_parse_duration(duration_body(raw)) {
            Some(d) => Ok(d),
            None => Err(Failure::InvalidDuration(raw)),
        }
    }
}

/// What `parse_rfc3339` yields, in nanoseconds since the epoch.
pub open spec fn rfc3339_spec(raw: Seq<char>) -> Result<int, ErrorV> {
    match spec_parse_rfc3339_weak(raw) {
        Some(d) => Ok(d.0 * 1_000_000_000 + d.1),
        None => Err(Failure::InvalidTimestamp(raw)),
    }
}

/// Parses a relative duration such as `15m`, `1h` or `-24h` (a leading sign is
/// ignored). A text whose seconds could reach past `u64::MAX` (see
/// `duration_seconds_bound`) is refused.
pub fn parse_since_duration(raw: &str) -> (r: Result<TimeSpan, Error>)
    ensures
        match r {
            Ok(d) => since_duration_spec(raw@) == Ok::<(u64, u32), ErrorV>((d.secs, d.nanos))
                && d.wf(),
            Err(e) => since_duration_spec(raw@) == Err::<(u64, u32), ErrorV>(e@),
        },
{
    let v = chars_of(raw);
    let t = trim_chars(&v);
    let mut i: usize = 0;
    while i < t.len() && t[i] == '-'
        invariant
            i <= t@.len(),
            forall|k: int| 0 <= k < i ==> #[trigger] t@[k] == '-',
        decreases t.len() - i,
    {
        i = i + 1;
    }
    proof {
        lemma_trim_start_char_skip(t@, '-', i as int);
    }
    let body = slice_range(&t, i, t.len());
    assert(i == t.len() || body@[0] != '-');
    assert(trim_start_char(body@, '-') == body@);
    if seconds_bound(&body) > 18_446_744_073_709_551_615u128 {
        return Err(Failure::InvalidDuration(owned(raw)));
    }
    let text = string_of(&body);
    match humantime_parse_duration(text.as_str()) {
        Some((secs, nanos)) => Ok(TimeSpan { secs, nanos }),
        None => Err(Failure::InvalidDuration(owned(raw))),
    }
}

/// The state of a duration scan (see `DurationScanV`).
struct DurationScan {
    mode: u8,
    count: u128,
    fraction: bool,
    unit: Vec<char>,
    bound: u128,
}

/// The view of a duration scan.
spec fn scan_view(st: DurationScan) -> DurationScanV {
    (st.mode as int, st.count as nat, st.fraction, st.unit@, st.bound as nat)
}

/// The counters of a scan stay within the cap.
spec fn scan_ok(st: DurationScan) -> bool {
    st.count <= scan_cap() && st.bound <= scan_cap()
}

/// A counter held at the cap (see `capped`).
fn cap_at_limit(x: u128) -> (r: u128)
    ensures
        r == capped(x as nat),
{
    if x > 0x1_0000_0000_0000_0000u128 {
        0x1_0000_0000_0000_0000u128
    } else {
        x
    }
}

/// The scale of a unit name (see `unit_scale`).
fn unit_scale_of(u: &Vec<char>) -> (r: Option<(u128, u128)>)
    ensures
        match r {
            Some(p) => unit_scale(u@) == Some((p.0 as nat, p.1 as nat)),
            None => unit_scale(u@) is None,
        },
{
    if chars_eq_str(u, "nanos") || chars_eq_str(u, "nsec") || chars_eq_str(u, "ns") {
        Some((0, 1))
    } else if chars_eq_str(u, "usec") || chars_eq_str(u, "us") || chars_eq_str(u, "\u{b5}s") {
        Some((0, 1000))
    } else if chars_eq_str(u, "millis") || chars_eq_str(u, "msec") || chars_eq_str(u, "ms") {
        Some((0, 1_000_000))
    } else if chars_eq_str(u, "seconds") || chars_eq_str(u, "second") || chars_eq_str(u, "secs")
        || chars_eq_str(u, "sec") || chars_eq_str(u, "s") {
        Some((1, 0))
    } else if chars_eq_str(u, "minutes") || chars_eq_str(u, "minute") || chars_eq_str(u, "min")
        || chars_eq_str(u, "mins") || chars_eq_str(u, "m") {
        Some((60, 0))
    } else if chars_eq_str(u, "hours") || chars_eq_str(u, "hour") || chars_eq_str(u, "hr")
        || chars_eq_str(u, "hrs") || chars_eq_str(u, "h") {
        Some((3600, 0))
    } else if chars_eq_str(u, "days") || chars_eq_str(u, "day") || chars_eq_str(u, "d") {
        Some((86400, 0))
    } else if chars_eq_str(u, "weeks") || chars_eq_str(u, "week") || chars_eq_str(u, "wk")
        || chars_eq_str(u, "wks") || chars_eq_str(u, "w") {
        Some((604800, 0))
    } else if chars_eq_str(u, "months") || chars_eq_str(u, "month") || chars_eq_str(u, "M") {
        Some((2_630_016, 0))
    } else if chars_eq_str(u, "years") || chars_eq_str(u, "year") || chars_eq_str(u, "yr")
        || chars_eq_str(u, "yrs") || chars_eq_str(u, "y") {
        Some((31_557_600, 0))
    } else {
        None
    }
}

/// Closes the span read so far (see `scan_close`).
fn close_span(st: DurationScan, mode: u8, count: u128) -> (r: DurationScan)
    requires
        scan_ok(st),
        count <= 9,
    ensures
        scan_view(r) == scan_close(scan_view(st), mode as int, count as nat),
        scan_ok(r),
{
    match unit_scale_of(&st.unit) {
        None => DurationScan { mode: 4, ..st },
        Some((secs, nanos)) => {
            let c = st.count;
            assert(secs <= 31_557_600 && nanos <= 1_000_000);
            assert(c * secs <= 0x1_0000_0000_0000_0000 * 31_557_600) by (nonlinear_arith)
                requires
                    c <= 0x1_0000_0000_0000_0000u128,
                    secs <= 31_557_600,
            ;
            assert(c * nanos <= 0x1_0000_0000_0000_0000 * 1_000_000) by (nonlinear_arith)
                requires
                    c <= 0x1_0000_0000_0000_0000u128,
                    nanos <= 1_000_000,
            ;
            let carry: u128 = if nanos > 0 {
                1
            } else {
                0
            };
            let extra: u128 = if st.fraction {
                secs + 1
            } else {
                0
            };
            let span = c * secs + c * nanos / 1_000_000_000 + carry + extra;
            let bound = cap_at_limit(st.bound + span);
            DurationScan { mode, count, fraction: false, unit: Vec::new(), bound }
        },
    }
}

/// Reads one character of a duration text (see `scan_step`).
fn scan_char(st: DurationScan, c: char) -> (r: DurationScan)
    requires
        scan_ok(st),
    ensures
        scan_view(r) == scan_step(scan_view(st), c),
        scan_ok(r),
{
    let digit = '0' <= c && c <= '9';
    let letter = ('a' <= c && c <= 'z') || ('A' <= c && c <= 'Z') || c == '\u{b5}';
    let ws = is_whitespace(c);
    let value: u128 = if digit {
        (c as u32 - '0' as u32) as u128
    } else {
        0
    };
    assert(digit ==> value as nat == digit_value(c));
    if st.mode == 0 {
        if digit {
            DurationScan { mode: 1, count: value, fraction: false, unit: Vec::new(), bound: st.bound }
        } else if ws {
            st
        } else {
            DurationScan { mode: 4, ..st }
        }
    } else if st.mode == 1 {
        if digit {
            let count = cap_at_limit(st.count * 10 + value);
            DurationScan { mode: 1, count, fraction: false, ..st }
        } else if ws {
            st
        } else if letter {
            let mut unit: Vec<char> = Vec::new();
            unit.push(c);
            DurationScan { mode: 3, count: st.count, fraction: false, unit, bound: st.bound }
        } else if c == '.' {
            DurationScan { mode: 2, fraction: true, ..st }
        } else {
            DurationScan { mode: 4, ..st }
        }
    } else if st.mode == 2 {
        if digit || ws {
            st
        } else if letter {
            let mut unit: Vec<char> = Vec::new();
            unit.push(c);
            DurationScan { mode: 3, count: st.count, fraction: true, unit, bound: st.bound }
        } else {
            DurationScan { mode: 4, ..st }
        }
    } else if st.mode == 3 {
        if letter {
            let mut st = st;
            st.unit.push(c);
            st
        } else if digit {
            close_span(st, 1, value)
        } else if ws {
            close_span(st, 0, 0)
        } else {
            DurationScan { mode: 4, ..st }
        }
    } else {
        st
    }
}

/// The seconds bound of a duration text (see `duration_seconds_bound`).
fn seconds_bound(v: &Vec<char>) -> (b: u128)
    ensures
        b == duration_seconds_bound(v@),
{
    let mut st = DurationScan { mode: 0, count: 0, fraction: false, unit: Vec::new(), bound: 0 };
    let mut i: usize = 0;
    assert(v@.take(0) =~= Seq::<char>::empty());
    assert(st.unit@ =~= Seq::<char>::empty());
    while i < v.len()
        invariant
            i <= v@.len(),
            scan_ok(st),
            scan_view(st) == duration_scan(v@.take(i as int)),
        decreases v.len() - i,
    {
        assert(v@.take(i + 1).drop_last() == v@.take(i as int));
        assert(v@.take(i + 1).last() == v@[i as int]);
        st = scan_char(st, v[i]);
        i = i + 1;
    }
    assert(v@.take(v@.len() as int) == v@);
    if st.mode == 3 {
        let closed = close_span(st, 0, 0);
        closed.bound
    } else {
        st.bound
    }
}

/// Parses an RFC 3339 timestamp, also in its relaxed forms (space for `T`, no zone).
pub fn parse_rfc3339(raw: &str) -> (r: Result<Timestamp, Error>)
    ensures
        match r {
            Ok(t) => rfc3339_spec(raw@) == Ok::<int, ErrorV>(t.nanos as int) && t.wf() && t.nanos
                >= 0,
            Err(e) => rfc3339_spec(raw@) == Err::<int, ErrorV>(e@),
        },
{
    match humantime_parse_rfc3339_weak(raw) {
        Some((secs, nanos)) => {
            let n = (secs as i128) * 1_000_000_000 + (nanos as i128);
            Ok(Timestamp { nanos: n })
        },
        None => Err(Failure::InvalidTimestamp(owned(raw))),
    }
}

// ---------------------------------------------------------------------------
// Ranges
// ---------------------------------------------------------------------------

/// The optional text's characters.
pub open spec fn opt_view(o: Option<&str>) -> Option<Seq<char>> {
    match o {
        Some(s) => Some(s@),
        None => None,
    }
}

/// The window that `resolve_range_at` picks, as nanosecond bounds.
pub open spec fn range_spec(
    since: Option<Seq<char>>,
    from: Option<Seq<char>>,
    to: Option<Seq<char>>,
    default_since: Seq<char>,
    now: int,
) -> Result<(int, int), ErrorV> {
    if since is Some && (from is Some || to is Some) {
        Err(Failure::SinceWithFromTo)
    } else {
        let bounds: Result<(int, int), ErrorV> = match (from, to) {
            (Some(a), Some(b)) => match rfc3339_spec(a) {
                Err(e) => Err(e),
                Ok(s) => match rfc3339_spec(b) {
                    Err(e) => Err(e),
                    Ok(t) => Ok((s, t)),
                },
            },
            (None, None) => {
                let raw = match since {
                    Some(s) => s,
                    None => default_since,
                };
                match since_duration_spec(raw) {
                    Err(e) => Err(e),
                    Ok(d) => {
                        let start = now - (d.0 * 1_000_000_000 + d.1);
                        if start < min_nanos() {
                            Err(Failure::StartUnderflow)
                        } else {
                            Ok((start, now))
                        }
                    },
                }
            },
            _ => Err(Failure::FromToUnpaired),
        };
        match bounds {
            Err(e) => Err(e),
            Ok((s, t)) => if s >= t {
                Err(Failure::EmptyRange)
            } else {
                Ok((s, t))
            },
        }
    }
}

/// The view of a resolved range.
pub open spec fn range_result_view(r: Result<TimeRange, Error>) -> Result<(int, int), ErrorV> {
    match r {
        Ok(t) => Ok((t.start.nanos as int, t.end.nanos as int)),
        Err(e) => Err(e@),
    }
}

/// Resolves the query window from `--since` or `--from`/`--to`, relative to `now`.
///
/// Either a relative duration (or `default_since` when nothing is given) ending
/// at `now`, or the explicit bounds; the two forms exclude each other, the
/// explicit bounds come in pairs, and the window is never empty.
pub fn resolve_range_at(
    since: Option<&str>,
    from: Option<&str>,
    to: Option<&str>,
    default_since: &str,
    now: Timestamp,
) -> (r: Result<TimeRange, Error>)
    requires
        now.wf(),
    ensures
        range_result_view(r) == range_spec(
            opt_view(since),
            opt_view(from),
            opt_view(to),
            default_since@,
            now.nanos as int,
        ),
        r matches Ok(t) ==> t.start.wf() && t.end.wf() && t.start.nanos < t.end.nanos,
{
    if since.is_some() && (from.is_some() || to.is_some()) {
        return Err(Failure::SinceWithFromTo);
    }
    let (start, end) = match (from, to) {
        (Some(a), Some(b)) => {
            let s = match parse_rfc3339(a) {
                Ok(s) => s,
                Err(e) => return Err(e),
            };
            let t = match parse_rfc3339(b) {
                Ok(t) => t,
                Err(e) => return Err(e),
            };
            (s, t)
        },
        (None, None) => {
            let raw = match since {
                Some(s) => s,
                None => default_since,
            };
            let d = match parse_since_duration(raw) {
                Ok(d) => d,
                Err(e) => return Err(e),
            };
            let span: i128 = (d.secs as i128) * 1_000_000_000 + (d.nanos as i128);
            let floor: i128 = -9_223_372_036_854_775_808i128 * 1_000_000_000;
            if now.nanos - span < floor {
                return Err(Failure::StartUnderflow);
            }
            (Timestamp { nanos: now.nanos - span }, now)
        },
        _ => return Err(Failure::FromToUnpaired),
    };
    if start.nanos >= end.nanos {
        return Err(Failure::EmptyRange);
    }
    Ok(TimeRange { start, end })
}

/// Resolves the query window relative to the current time of the system clock.
pub fn resolve_range(
    since: Option<&str>,
    from: Option<&str>,
    to: Option<&str>,
    default_since: &str,
) -> (r: Result<TimeRange, Error>)
    ensures
        exists|now: int|
            min_nanos() <= now <= max_nanos() && range_result_view(r) == #[trigger] range_spec(
                opt_view(since),
                opt_view(from),
                opt_view(to),
                default_since@,
                now,
            ),
{
    let now = system_now();
    let r = resolve_range_at(since, from, to, default_since, now);
    assert(range_result_view(r) == range_spec(
        opt_view(since),
        opt_view(from),
        opt_view(to),
        default_since@,
        now.nanos as int,
    ));
    r
}

// ---------------------------------------------------------------------------
// Rendering
// ---------------------------------------------------------------------------

/// `to_unix_ns_string`'s result.
pub open spec fn unix_ns_spec(nanos: int) -> Result<Seq<char>, ErrorV> {
    if nanos < 0 {
        Err(Failure::BeforeEpoch)
    } else {
        Ok(decimal(nanos as nat))
    }
}

/// `to_unix_seconds_string`'s result.
pub open spec fn unix_seconds_spec(nanos: int) -> Result<Seq<char>, ErrorV> {
    if nanos < 0 {
        Err(Failure::BeforeEpoch)
    } else {
        Ok(decimal((nanos / 1_000_000_000) as nat))
    }
}

/// The view of a textual result.
pub open spec fn text_result_view(r: Result<String, Error>) -> Result<Seq<char>, ErrorV> {
    match r {
        Ok(s) => Ok(s@),
        Err(e) => Err(e@),
    }
}

/// Nanoseconds since the Unix epoch, in decimal.
pub fn to_unix_ns_string(value: Timestamp) -> (r: Result<String, Error>)
    ensures
        text_result_view(r) == unix_ns_spec(value.nanos as int),
{
    if value.nanos < 0 {
        return Err(Failure::BeforeEpoch);
    }
    Ok(u128_decimal(value.nanos as u128))
}

/// Whole seconds since the Unix epoch, in decimal.
pub fn to_unix_seconds_string(value: Timestamp) -> (r: Result<String, Error>)
    ensures
        text_result_view(r) == unix_seconds_spec(value.nanos as int),
{
    if value.nanos < 0 {
        return Err(Failure::BeforeEpoch);
    }
    Ok(u128_decimal((value.nanos / 1_000_000_000) as u128))
}

/// Whether `ns_to_rfc3339` can render a text without the formatter failing: it
/// does not parse, or its seconds exceed `u64`, or they precede the year 10000.
pub open spec fn ns_renderable(ns: Seq<char>) -> bool {
    match parse_unsigned(ns, u128::MAX as nat) {
        None => true,
        Some(v) => v / 1_000_000_000 > u64::MAX || v / 1_000_000_000 < rfc3339_secs_limit(),
    }
}

/// What `ns_to_rfc3339` returns.
pub open spec fn ns_rfc3339_spec(ns: Seq<char>) -> Seq<char> {
    match parse_unsigned(ns, u128::MAX as nat) {
        None => ns,
        Some(v) => if v / 1_000_000_000 > u64::MAX {
            ns
        } else {
            spec_format_rfc3339_millis(
                (v / 1_000_000_000) as u64,
                (v % 1_000_000_000) as u32,
            )
        },
    }
}

/// Whether `seconds_to_rfc3339` can render a text without the formatter failing.
pub open spec fn seconds_renderable(s: Seq<char>) -> bool {
    match parse_unsigned(s, u64::MAX as nat) {
        None => true,
        Some(v) => v < rfc3339_secs_limit(),
    }
}

/// What `seconds_to_rfc3339` returns.
pub open spec fn seconds_rfc3339_spec(s: Seq<char>) -> Seq<char> {
    match parse_unsigned(s, u64::MAX as nat) {
        None => s,
        Some(v) => spec_format_rfc3339_millis(v as u64, 0),
    }
}

/// Whether a nanosecond timestamp text can be rendered (see `ns_renderable`).
pub fn ns_is_renderable(ns: &str) -> (b: bool)
    ensures
        b == ns_renderable(ns@),
{
    match parse_u128(ns) {
        None => true,
        Some(v) => {
            let secs = v / 1_000_000_000;
            secs > u64::MAX as u128 || secs < 253_402_300_800
        },
    }
}

/// Whether a seconds timestamp text can be rendered (see `seconds_renderable`).
pub fn seconds_is_renderable(s: &str) -> (b: bool)
    ensures
        b == seconds_renderable(s@),
{
    match parse_u128(s) {
        None => {
            proof {
                lemma_parse_u64_from_u128(s@);
            }
            true
        },
        Some(v) => {
            proof {
                lemma_parse_u64_from_u128(s@);
            }
            v > u64::MAX as u128 || v < 253_402_300_800
        },
    }
}

/// A decimal nanosecond timestamp rendered as RFC 3339 with milliseconds; a text
/// that is not such a timestamp comes back unchanged.
pub fn ns_to_rfc3339(ns: &str) -> (r: String)
    requires
        ns_renderable(ns@),
    ensures
        r@ == ns_rfc3339_spec(ns@),
{
    let parsed = match parse_u128(ns) {
        Some(v) => v,
        None => return owned(ns),
    };
    let secs = parsed / 1_000_000_000;
    if secs > u64::MAX as u128 {
        return owned(ns);
    }
    let nanos = (parsed % 1_000_000_000) as u32;
    humantime_format_rfc3339_millis(secs as u64, nanos)
}

/// A decimal seconds timestamp rendered as RFC 3339 with milliseconds; a text that
/// is not such a timestamp comes back unchanged.
pub fn seconds_to_rfc3339(seconds: &str) -> (r: String)
    requires
        seconds_renderable(seconds@),
    ensures
        r@ == seconds_rfc3339_spec(seconds@),
{
    proof {
        lemma_parse_u64_from_u128(seconds@);
    }
    let secs = match parse_u128(seconds) {
        Some(v) => {
            if v > u64::MAX as u128 {
                return owned(seconds);
            }
            v as u64
        },
        None => return owned(seconds),
    };
    humantime_format_rfc3339_millis(secs, 0)
}

/// What `millis_to_rfc3339` yields: for a decimal count of milliseconds since
/// the epoch that falls before the year 10000, its RFC 3339 text, in whole
/// seconds when there are no milliseconds beyond them and with milliseconds
/// otherwise.
pub open spec fn millis_rfc3339(ms: Seq<char>) -> Option<Seq<char>> {
    match parse_unsigned(ms, u128::MAX as nat) {
        Some(v) => if v / 1000 >= rfc3339_secs_limit() {
            None
        } else if v % 1000 == 0 {
            Some(spec_format_rfc3339_seconds((v / 1000) as u64))
        } else {
            Some(spec_format_rfc3339_millis((v / 1000) as u64, ((v % 1000) * 1_000_000) as u32))
        },
        None => None,
    }
}

/// A decimal count of milliseconds since the epoch as RFC 3339 text; nothing
/// for a text that is no such count, or one from the year 10000 on.
pub fn millis_to_rfc3339(ms: &str) -> (r: Option<String>)
    ensures
        match r {
            Some(t) => millis_rfc3339(ms@) == Some(t@),
            None => millis_rfc3339(ms@) is None,
        },
{
    let v = match parse_u128(ms) {
        Some(v) => v,
        None => return None,
    };
    let secs = v / 1000;
    if secs >= 253_402_300_800 {
        return None;
    }
    if v % 1000 == 0 {
        return Some(humantime_format_rfc3339_seconds(secs as u64));
    }
    let nanos = ((v % 1000) * 1_000_000) as u32;
    Some(humantime_format_rfc3339_millis(secs as u64, nanos))
}

/// Parsing as `u64` is parsing as `u128` and checking the smaller bound.
pub proof fn lemma_parse_u64_from_u128(s: Seq<char>)
    ensures
        parse_unsigned(s, u64::MAX as nat) == match parse_unsigned(s, u128::MAX as nat) {
            None => None,
            Some(v) => if v <= u64::MAX {
                Some(v)
            } else {
                None
            },
        },
{
}

} // verus!
