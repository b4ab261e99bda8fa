//! Background host monitor: paces the host audit on a fixed interval and
//! surfaces only the findings that are new since the last report.
//!
//! The timer and the audit itself run in the application; what is decided
//! here is how an interval is written, how findings are identified, which
//! of them are new, and when the monitor stops.
use vstd::prelude::*;

use crate::seq_util::{concat_map, lemma_concat_map_take, lemma_take_full};
use crate::text::{chars_of, contains_str, dedup, distinct, has_suffix, is_white_space, lemma_dedup, strs, white_space};

verus! {

/// The `Duration` of `secs` whole seconds, as `Duration::from_secs` makes it.
pub uninterp spec fn duration_from_secs(secs: u64) -> std::time::Duration;

/// The `Duration` of `ms` milliseconds, as `Duration::from_millis` makes it.
pub uninterp spec fn duration_from_millis(ms: u64) -> std::time::Duration;

/// Calls `Duration::from_secs`.
#[verifier::external_body]
fn secs(n: u64) -> (d: std::time::Duration)
    ensures
        d == duration_from_secs(n),
{
    std::time::Duration::from_secs(n)
}

/// Calls `Duration::from_millis`.
#[verifier::external_body]
fn millis(n: u64) -> (d: std::time::Duration)
    ensures
        d == duration_from_millis(n),
{
    std::time::Duration::from_millis(n)
}

/// Sentinel settings: how often to audit and, optionally, after how many
/// rounds to stop.
pub struct SentinelConfig {
    pub interval: std::time::Duration,
    pub max_rounds: Option<u32>,
}

impl Default for SentinelConfig {
    fn default() -> (c: Self)
        ensures
            c.interval == duration_from_secs(30),
            c.max_rounds is None,
    {
        SentinelConfig { interval: secs(30), max_rounds: None }
    }
}

/// Number of leading white-space characters of `s`.
pub open spec fn leading_ws(s: Seq<char>) -> int
    decreases s.len(),
{
    if s.len() > 0 && is_white_space(s[0]) { 1 + leading_ws(s.drop_first()) } else { 0 }
}

/// Number of trailing white-space characters of `s`.
pub open spec fn trailing_ws(s: Seq<char>) -> int
    decreases s.len(),
{
    if s.len() > 0 && is_white_space(s.last()) { 1 + trailing_ws(s.drop_last()) } else { 0 }
}

/// `s` without leading and trailing white space, as `str::trim` returns it.
pub open spec fn trim(s: Seq<char>) -> Seq<char> {
    let a = leading_ws(s);
    if a == s.len() { Seq::empty() } else { s.subrange(a, s.len() - trailing_ws(s)) }
}

proof fn lemma_leading_ws(s: Seq<char>)
    ensures
        0 <= leading_ws(s) <= s.len(),
        forall|k: int| 0 <= k < leading_ws(s) ==> is_white_space(#[trigger] s[k]),
        leading_ws(s) < s.len() ==> !is_white_space(s[leading_ws(s)]),
    decreases s.len(),
{
    if s.len() > 0 && is_white_space(s[0]) {
        lemma_leading_ws(s.drop_first());
        assert forall|k: int| 0 <= k < leading_ws(s) implies is_white_space(#[trigger] s[k]) by {
            if k > 0 {
                assert(s[k] == s.drop_first()[k - 1]);
            }
        }
    }
}

proof fn lemma_trailing_ws(s: Seq<char>)
    ensures
        0 <= trailing_ws(s) <= s.len(),
        forall|k: int| s.len() - trailing_ws(s) <= k < s.len() ==> is_white_space(#[trigger] s[k]),
        trailing_ws(s) < s.len() ==> !is_white_space(s[s.len() - 1 - trailing_ws(s)]),
    decreases s.len(),
{
    if s.len() > 0 && is_white_space(s.last()) {
        lemma_trailing_ws(s.drop_last());
        assert forall|k: int| s.len() - trailing_ws(s) <= k < s.len() implies is_white_space(#[trigger] s[k]) by {
            if k < s.len() - 1 {
                assert(s[k] == s.drop_last()[k]);
            }
        }
    }
}

proof fn lemma_leading_ws_exact(s: Seq<char>, a: int)
    requires
        0 <= a <= s.len(),
        forall|k: int| 0 <= k < a ==> is_white_space(#[trigger] s[k]),
        a < s.len() ==> !is_white_space(s[a]),
    ensures
        leading_ws(s) == a,
    decreases s.len(),
{
    if a > 0 {
        assert(is_white_space(s[0]));
        assert forall|k: int| 0 <= k < a - 1 implies is_white_space(#[trigger] s.drop_first()[k]) by {
            assert(s.drop_first()[k] == s[k + 1]);
        }
        if a - 1 < s.drop_first().len() {
            assert(s.drop_first()[a - 1] == s[a]);
        }
        lemma_leading_ws_exact(s.drop_first(), a - 1);
    } else if s.len() > 0 {
        assert(!is_white_space(s[0]));
    }
}

proof fn lemma_trailing_ws_exact(s: Seq<char>, b: int)
    requires
        0 <= b <= s.len(),
        forall|k: int| s.len() - b <= k < s.len() ==> is_white_space(#[trigger] s[k]),
        b < s.len() ==> !is_white_space(s[s.len() - 1 - b]),
    ensures
        trailing_ws(s) == b,
    decreases s.len(),
{
    if b > 0 {
        assert(is_white_space(s[s.len() - 1]));
        let t = s.drop_last();
        assert forall|k: int| t.len() - (b - 1) <= k < t.len() implies is_white_space(#[trigger] t[k]) by {
            assert(t[k] == s[k]);
        }
        if b - 1 < t.len() {
            assert(t[t.len() - 1 - (b - 1)] == s[s.len() - 1 - b]);
        }
        lemma_trailing_ws_exact(t, b - 1);
    } else if s.len() > 0 {
        assert(!is_white_space(s[s.len() - 1]));
    }
}

/// The characters of `s` without leading and trailing white space.
fn trim_chars(s: &str) -> (t: Vec<char>)
    ensures
        t@ == trim(s@),
{
    let cs = chars_of(s);
    let n = cs.len();
    let mut a: usize = 0;
    while a < n && white_space(cs[a])
        invariant
            n == cs@.len(),
            0 <= a <= n,
            forall|k: int| 0 <= k < a ==> is_white_space(#[trigger] cs@[k]),
        decreases n - a,
    {
        a += 1;
    }
    proof {
        lemma_leading_ws_exact(cs@, a as int);
    }
    if a == n {
        return Vec::new();
    }
    let mut b: usize = 0;
    while b < n && white_space(cs[n - 1 - b])
        invariant
            n == cs@.len(),
            0 <= b <= n,
            forall|k: int| n - b <= k < n ==> is_white_space(#[trigger] cs@[k]),
        decreases n - b,
    {
        b += 1;
    }
    proof {
        lemma_trailing_ws_exact(cs@, b as int);
        lemma_leading_ws(cs@);
        lemma_trailing_ws(cs@);
        // a non-white-space character sits at position a, so the trailing run stops after it
        if a as int >= n - b {
            assert(is_white_space(cs@[a as int]));
        }
    }
    let mut t: Vec<char> = Vec::new();
    let mut i = a;
    while i < n - b
        invariant
            n == cs@.len(),
            a <= i <= n - b,
            t@ == cs@.subrange(a as int, i as int),
        decreases n - b - i,
    {
        t.push(cs[i]);
        assert(cs@.subrange(a as int, i + 1) =~= cs@.subrange(a as int, i as int).push(cs@[i as int]));
        i += 1;
    }
    t
}

/// Is `c` an ASCII decimal digit?
pub open spec fn is_digit(c: char) -> bool {
    '0' <= c <= '9'
}

/// The decimal value of a run of digits.
pub open spec fn decimal_value(ds: Seq<char>) -> int
    decreases ds.len(),
{
    if ds.len() == 0 { 0 } else { decimal_value(ds.drop_last()) * 10 + (ds.last() as int - '0' as int) }
}

/// The characters after an optional leading `+`.
pub open spec fn digits_part(cs: Seq<char>) -> Seq<char> {
    if cs.len() > 0 && cs[0] == '+' { cs.drop_first() } else { cs }
}

/// What `u64::from_str` returns: an optional `+` followed by at least one
/// decimal digit, nothing else, and a value that fits in 64 bits.
pub open spec fn parse_u64(cs: Seq<char>) -> Option<u64> {
    let ds = digits_part(cs);
    if ds.len() == 0 || exists|k: int| 0 <= k < ds.len() && !is_digit(#[trigger] ds[k]) {
        None
    } else if decimal_value(ds) > u64::MAX {
        None
    } else {
        Some(decimal_value(ds) as u64)
    }
}

proof fn lemma_decimal_value_nonneg(ds: Seq<char>)
    requires
        forall|k: int| 0 <= k < ds.len() ==> is_digit(#[trigger] ds[k]),
    ensures
        decimal_value(ds) >= 0,
    decreases ds.len(),
{
    if ds.len() > 0 {
        assert forall|k: int| 0 <= k < ds.drop_last().len() implies is_digit(#[trigger] ds.drop_last()[k]) by {
            assert(ds.drop_last()[k] == ds[k]);
        }
        lemma_decimal_value_nonneg(ds.drop_last());
        assert(is_digit(ds[ds.len() - 1]));
    }
}

proof fn lemma_decimal_value_grows(ds: Seq<char>, i: int)
    requires
        0 <= i <= ds.len(),
        forall|k: int| 0 <= k < ds.len() ==> is_digit(#[trigger] ds[k]),
    ensures
        decimal_value(ds.take(i)) <= decimal_value(ds),
    decreases ds.len() - i,
{
    if i < ds.len() {
        lemma_decimal_value_grows(ds, i + 1);
        assert(ds.take(i + 1).drop_last() =~= ds.take(i));
        assert forall|k: int| 0 <= k < ds.take(i).len() implies is_digit(#[trigger] ds.take(i)[k]) by {
            assert(ds.take(i)[k] == ds[k]);
        }
        lemma_decimal_value_nonneg(ds.take(i));
        assert(is_digit(ds[i]));
    } else {
        assert(ds.take(i) =~= ds);
    }
}

/// Parse `cs[from..to]` as `u64::from_str` does.
fn parse_u64_range(cs: &Vec<char>, from: usize, to: usize) -> (r: Option<u64>)
    requires
        from <= to <= cs.len(),
    ensures
        r == parse_u64(cs@.subrange(from as int, to as int)),
{
    let ghost s = cs@.subrange(from as int, to as int);
    let mut start = from;
    if from < to && cs[from] == '+' {
        start = from + 1;
    }
    let ghost ds = cs@.subrange(start as int, to as int);
    proof {
        if from < to && cs@[from as int] == '+' {
            assert(s.drop_first() =~= ds);
        } else {
            assert(s =~= ds);
        }
    }
    if start == to {
        assert(ds.len() == 0);
        return None;
    }
    let mut k = start;
    while k < to
        invariant
            start <= k <= to <= cs@.len(),
            ds == cs@.subrange(start as int, to as int),
            ds == digits_part(s),
            s == cs@.subrange(from as int, to as int),
            ds.len() > 0,
            forall|j: int| start <= j < k ==> is_digit(#[trigger] cs@[j]),
        decreases to - k,
    {
        if !('0' <= cs[k] && cs[k] <= '9') {
            proof {
                assert(ds[k - start] == cs@[k as int]);
                assert(!is_digit(ds[k - start]));
                assert(ds.len() > 0);
                assert(parse_u64(s) == None::<u64>);
            }
            return None;
        }
        k += 1;
    }
    assert forall|j: int| 0 <= j < ds.len() implies is_digit(#[trigger] ds[j]) by {
        assert(ds[j] == cs@[start + j]);
    }
    let mut v: u64 = 0;
    let mut i = start;
    while i < to
        invariant
            start <= i <= to <= cs@.len(),
            ds == cs@.subrange(start as int, to as int),
            ds == digits_part(s),
            s == cs@.subrange(from as int, to as int),
            forall|j: int| 0 <= j < ds.len() ==> is_digit(#[trigger] ds[j]),
            v == decimal_value(ds.take(i - start)),
        decreases to - i,
    {
        proof {
            assert(is_digit(ds[i - start]));
            assert(ds[i - start] == cs@[i as int]);
        }
        let d = (cs[i] as u32 - '0' as u32) as u64;
        proof {
            assert(ds.take(i - start + 1).drop_last() =~= ds.take(i - start));
            assert(decimal_value(ds.take(i - start + 1)) == v * 10 + d);
        }
        if v > (u64::MAX - d) / 10 {
            proof {
                lemma_decimal_value_grows(ds, i - start + 1);
                assert(v * 10 + d > u64::MAX) by (nonlinear_arith)
                    requires
                        v > (u64::MAX - d) / 10,
                        d <= 9;
                assert(decimal_value(ds) > u64::MAX);
                assert(parse_u64(s) == None::<u64>);
            }
            return None;
        }
        proof {
            assert(v * 10 + d <= u64::MAX) by (nonlinear_arith)
                requires
                    v <= (u64::MAX - d) / 10,
                    d <= 9;
        }
        v = v * 10 + d;
        i += 1;
    }
    assert(ds.take(to - start) =~= ds);
    Some(v)
}

/// Why an interval was refused: the number before the named unit is not a
/// valid `u64`.
#[derive(Debug, Clone, Copy, PartialEq, Eq, Structural)]
pub enum IntervalError {
    Milliseconds,
    Seconds,
    Minutes,
}

/// The trimmed input with its last `k` characters removed.
pub open spec fn strip_last(t: Seq<char>, k: int) -> Seq<char> {
    t.subrange(0, t.len() - k)
}

/// A minutes value whose number of seconds does not fit in 64 bits (the
/// multiplication by 60 overflows).
pub open spec fn minutes_overflow(s: Seq<char>) -> bool {
    let t = trim(s);
    &&& !has_suffix(t, "ms"@)
    &&& !has_suffix(t, "s"@)
    &&& has_suffix(t, "m"@)
    &&& parse_u64(strip_last(t, 1)) matches Some(n)
    &&& n * 60 > u64::MAX
}

/// What `parse_interval` returns: `<n>ms` is milliseconds, `<n>s` seconds,
/// `<n>m` minutes and a bare `<n>` seconds, after trimming white space.
pub open spec fn spec_parse_interval(s: Seq<char>) -> Result<std::time::Duration, IntervalError> {
    let t = trim(s);
    if has_suffix(t, "ms"@) {
        match parse_u64(strip_last(t, 2)) {
            Some(n) => Ok(duration_from_millis(n)),
            None => Err(IntervalError::Milliseconds),
        }
    } else if has_suffix(t, "s"@) {
        match parse_u64(strip_last(t, 1)) {
            Some(n) => Ok(duration_from_secs(n)),
            None => Err(IntervalError::Seconds),
        }
    } else if has_suffix(t, "m"@) {
        match parse_u64(strip_last(t, 1)) {
            Some(n) => Ok(duration_from_secs((n * 60) as u64)),
            None => Err(IntervalError::Minutes),
        }
    } else {
        match parse_u64(t) {
            Some(n) => Ok(duration_from_secs(n)),
            None => Err(IntervalError::Seconds),
        }
    }
}

/// Parse an interval such as `750ms`, `45s`, `5m` or `60` (seconds).
pub fn parse_interval(s: &str) -> (r: Result<std::time::Duration, IntervalError>)
    requires
        !minutes_overflow(s@),
    ensures
        r == spec_parse_interval(s@),
{
    let t = trim_chars(s);
    let n = t.len();
    proof {
        reveal_strlit("ms");
        reveal_strlit("s");
        reveal_strlit("m");
    }
    let ms = chars_of("ms");
    let sec = chars_of("s");
    let min = chars_of("m");
    if crate::text::ends_with_chars(&t, &ms) {
        return match parse_u64_range(&t, 0, n - 2) {
            Some(v) => Ok(millis(v)),
            None => Err(IntervalError::Milliseconds),
        };
    }
    if crate::text::ends_with_chars(&t, &sec) {
        return match parse_u64_range(&t, 0, n - 1) {
            Some(v) => Ok(secs(v)),
            None => Err(IntervalError::Seconds),
        };
    }
    if crate::text::ends_with_chars(&t, &min) {
        return match parse_u64_range(&t, 0, n - 1) {
            Some(v) => {
                assert(v * 60 <= u64::MAX);
                Ok(secs(v * 60))
            },
            None => Err(IntervalError::Minutes),
        };
    }
    assert(t@.subrange(0, n as int) =~= t@);
    match parse_u64_range(&t, 0, n) {
        Some(v) => Ok(secs(v)),
        None => Err(IntervalError::Seconds),
    }
}

/// One audit finding, as the sentinel identifies it.
pub struct Finding {
    pub category: String,
    pub detail: String,
}

/// The identity of a finding: `category::detail` (its score plays no part).
pub open spec fn fingerprint(f: Finding) -> Seq<char> {
    f.category@ + "::"@ + f.detail@
}

/// The fingerprint of each finding, in order.
pub open spec fn fingerprints(findings: Seq<Finding>) -> Seq<Seq<char>> {
    findings.map_values(|f: Finding| fingerprint(f))
}

/// The fingerprints of `findings`, each once, in order of first appearance.
pub fn fingerprint_set(findings: &Vec<Finding>) -> (r: Vec<String>)
    ensures
        strs(r@) == dedup(fingerprints(findings@)),
        distinct(strs(r@)),
{
    proof {
        lemma_dedup(fingerprints(findings@));
    }
    let ghost fps = findings@.map_values(|f: Finding| fingerprint(f));
    let mut r: Vec<String> = Vec::new();
    let mut i: usize = 0;
    while i < findings.len()
        invariant
            0 <= i <= findings@.len(),
            fps == findings@.map_values(|f: Finding| fingerprint(f)),
            strs(r@) == dedup(fps.take(i as int)),
        decreases findings.len() - i,
    {
        let f = &findings[i];
        let mut fp = f.category.clone();
        fp.append("::");
        fp.append(f.detail.as_str());
        proof {
            assert(fps.take(i + 1).drop_last() =~= fps.take(i as int));
            assert(fps[i as int] == fp@);
        }
        if !contains_str(&r, &fp) {
            proof {
                assert(strs(r@.push(fp)) =~= strs(r@).push(fp@));
            }
            r.push(fp);
        }
        i += 1;
    }
    proof {
        lemma_take_full(fps);
    }
    r
}

/// `[x]` unless `x` is in `prev`.
pub open spec fn new_fn(prev: Seq<Seq<char>>) -> spec_fn(Seq<char>) -> Seq<Seq<char>> {
    |x: Seq<char>| if prev.contains(x) { Seq::empty() } else { seq![x] }
}

/// The elements of `current` that are not in `prev`, in order.
pub open spec fn spec_diff(prev: Seq<Seq<char>>, current: Seq<Seq<char>>) -> Seq<Seq<char>> {
    concat_map(current, new_fn(prev))
}

/// The fingerprints of `current` that were not reported in `prev`.
pub fn diff_findings(prev: &Vec<String>, current: &Vec<String>) -> (r: Vec<String>)
    requires
        distinct(strs(prev@)),
        distinct(strs(current@)),
    ensures
        strs(r@) == spec_diff(strs(prev@), strs(current@)),
        distinct(strs(r@)),
{
    proof {
        lemma_diff_distinct(strs(prev@), strs(current@));
    }
    let ghost f = new_fn(strs(prev@));
    let mut r: Vec<String> = Vec::new();
    let mut i: usize = 0;
    while i < current.len()
        invariant
            0 <= i <= current@.len(),
            f == new_fn(strs(prev@)),
            strs(r@) == concat_map(strs(current@).take(i as int), f),
        decreases current.len() - i,
    {
        proof {
            lemma_concat_map_take(strs(current@), f, i as int);
        }
        let x = &current[i];
        if !contains_str(prev, x) {
            let c = x.clone();
            proof {
                assert(strs(r@.push(c)) =~= strs(r@) + seq![c@]);
            }
            r.push(c);
        } else {
            assert(strs(r@) =~= strs(r@) + Seq::<Seq<char>>::empty());
        }
        i += 1;
    }
    proof {
        lemma_take_full(strs(current@));
    }
    r
}

/// What the sentinel remembers between rounds: the round counter and the
/// fingerprints it last reported.
pub struct SentinelState {
    pub round: u32,
    pub prev: Vec<String>,
}

/// What one round decides: the findings to report and whether to stop.
pub struct RoundOutcome {
    pub new_findings: Vec<String>,
    pub stop: bool,
}

impl SentinelState {
    /// Nothing reported yet, no round run.
    pub fn new() -> (s: Self)
        ensures
            s.round == 0,
            s.prev@.len() == 0,
    {
        SentinelState { round: 0, prev: Vec::new() }
    }
}

/// One sentinel round on the fingerprints of the current audit: report the
/// new ones (and remember this audit when there are any), then stop once
/// `max_rounds` rounds have run.
pub fn sentinel_round(max_rounds: Option<u32>, state: &mut SentinelState, current: Vec<String>) -> (out: RoundOutcome)
    requires
        old(state).round < u32::MAX,
        distinct(strs(old(state).prev@)),
        distinct(strs(current@)),
    ensures
        final(state).round == old(state).round + 1,
        distinct(strs(final(state).prev@)),
        strs(out.new_findings@) == spec_diff(strs(old(state).prev@), strs(current@)),
        out.new_findings@.len() > 0 ==> final(state).prev@ == current@,
        out.new_findings@.len() == 0 ==> final(state).prev@ == old(state).prev@,
        out.stop == (max_rounds matches Some(m) && final(state).round >= m),
{
    state.round = state.round + 1;
    let new_findings = diff_findings(&state.prev, &current);
    if new_findings.len() > 0 {
        state.prev = current;
    }
    let stop = match max_rounds {
        Some(m) => state.round >= m,
        None => false,
    };
    RoundOutcome { new_findings, stop }
}

// ----- laws ----------------------------------------------------------------

/// Diffing reports exactly the fingerprints of the current audit that were
/// not reported before.
pub proof fn law_diff_is_new_findings(prev: Seq<Seq<char>>, current: Seq<Seq<char>>, x: Seq<char>)
    ensures
        spec_diff(prev, current).contains(x) <==> (current.contains(x) && !prev.contains(x)),
    decreases current.len(),
{
    if current.len() > 0 {
        let c0 = current.drop_last();
        law_diff_is_new_findings(prev, c0, x);
        assert(current =~= c0.push(current.last()));
        let d0 = spec_diff(prev, c0);
        let tail = new_fn(prev)(current.last());
        assert(spec_diff(prev, current) =~= d0 + tail);
        if (d0 + tail).contains(x) {
            let j = choose|j: int| 0 <= j < (d0 + tail).len() && (d0 + tail)[j] == x;
            if j < d0.len() {
                assert(d0[j] == x);
            } else {
                assert(current[current.len() - 1] == x);
            }
        }
        if current.contains(x) && !prev.contains(x) {
            let j = choose|j: int| 0 <= j < current.len() && current[j] == x;
            if j < current.len() - 1 {
                assert(c0[j] == x);
                let k = choose|k: int| 0 <= k < d0.len() && d0[k] == x;
                assert((d0 + tail)[k] == x);
            } else {
                assert((d0 + tail)[d0.len() as int] == x);
            }
        }
    }
}

/// The new findings of two sets of fingerprints form a set.
proof fn lemma_diff_distinct(prev: Seq<Seq<char>>, current: Seq<Seq<char>>)
    requires
        distinct(current),
    ensures
        distinct(spec_diff(prev, current)),
    decreases current.len(),
{
    if current.len() > 0 {
        let c0 = current.drop_last();
        let x = current.last();
        assert(distinct(c0)) by {
            assert forall|i: int, j: int| 0 <= i < j < c0.len() implies #[trigger] c0[i] != #[trigger] c0[j] by {
                assert(c0[i] == current[i] && c0[j] == current[j]);
            }
        }
        lemma_diff_distinct(prev, c0);
        let d0 = spec_diff(prev, c0);
        let tail = new_fn(prev)(x);
        assert(current =~= c0.push(x));
        assert(spec_diff(prev, current) =~= d0 + tail);
        if !prev.contains(x) {
            law_diff_is_new_findings(prev, c0, x);
            assert(!c0.contains(x)) by {
                if c0.contains(x) {
                    let k = choose|k: int| 0 <= k < c0.len() && c0[k] == x;
                    assert(current[k] == current[current.len() - 1]);
                }
            }
            assert forall|i: int, j: int| 0 <= i < j < (d0 + tail).len() implies #[trigger] (d0 + tail)[i]
                != #[trigger] (d0 + tail)[j] by {
                if j == d0.len() {
                    assert((d0 + tail)[j] == x);
                    assert((d0 + tail)[i] == d0[i]);
                    if d0[i] == x {
                        assert(d0.contains(x));
                    }
                } else {
                    assert((d0 + tail)[i] == d0[i] && (d0 + tail)[j] == d0[j]);
                }
            }
        } else {
            assert(d0 + tail =~= d0);
        }
    }
}

/// An audit that repeats the previous one reports nothing.
pub proof fn law_repeat_audit_is_quiet(prev: Seq<Seq<char>>)
    ensures
        spec_diff(prev, prev).len() == 0,
{
    if spec_diff(prev, prev).len() > 0 {
        let x = spec_diff(prev, prev)[0];
        law_diff_is_new_findings(prev, prev, x);
        assert(spec_diff(prev, prev).contains(x));
    }
}

/// The fingerprints of an audit form a set: each once, and exactly the
/// fingerprints of its findings.
pub proof fn law_fingerprints_are_a_set(findings: Seq<Finding>)
    ensures
        distinct(dedup(fingerprints(findings))),
        forall|x: Seq<char>|
            #[trigger] dedup(fingerprints(findings)).contains(x) <==> exists|k: int|
                0 <= k < findings.len() && fingerprint(#[trigger] findings[k]) == x,
{
    let fps = fingerprints(findings);
    lemma_dedup(fps);
    assert forall|x: Seq<char>| #[trigger] dedup(fps).contains(x) <==> exists|k: int|
        0 <= k < findings.len() && fingerprint(#[trigger] findings[k]) == x by {
        assert(dedup(fps).contains(x) == fps.contains(x));
        if fps.contains(x) {
            let j = choose|j: int| 0 <= j < fps.len() && fps[j] == x;
            assert(fingerprint(findings[j]) == x);
        }
        if exists|k: int| 0 <= k < findings.len() && fingerprint(#[trigger] findings[k]) == x {
            let k = choose|k: int| 0 <= k < findings.len() && fingerprint(#[trigger] findings[k]) == x;
            assert(fps[k] == x);
        }
    }
}

/// The decimal digit for a value below 10.
pub open spec fn digit_char(d: nat) -> char {
    (d + 48) as char
}

/// The decimal numeral of `n`, without sign or leading zeros.
pub open spec fn decimal(n: nat) -> Seq<char>
    decreases n,
{
    if n < 10 {
        seq![digit_char(n)]
    } else {
        decimal(n / 10).push(digit_char(n % 10))
    }
}

proof fn lemma_decimal(n: nat)
    ensures
        decimal(n).len() > 0,
        forall|k: int| 0 <= k < decimal(n).len() ==> is_digit(#[trigger] decimal(n)[k]),
        decimal_value(decimal(n)) == n,
    decreases n,
{
    if n >= 10 {
        lemma_decimal(n / 10);
        let d = decimal(n / 10);
        let c = digit_char(n % 10);
        assert(c as int == (n % 10) + 48);
        assert('0' as int == 48);
        assert(decimal(n) == d.push(c));
        assert(d.push(c).drop_last() =~= d);
        assert(d.push(c).last() == c);
        assert(decimal_value(d.push(c)) == decimal_value(d) * 10 + (n % 10));
        assert((n / 10) * 10 + n % 10 == n);
        assert forall|k: int| 0 <= k < decimal(n).len() implies is_digit(#[trigger] decimal(n)[k]) by {
            if k < d.len() {
                assert(decimal(n)[k] == d[k]);
            }
        }
    } else {
        assert(digit_char(n) as int == n + 48);
        assert('0' as int == 48);
        assert(seq![digit_char(n)].drop_last() =~= Seq::<char>::empty());
        assert(decimal_value(Seq::<char>::empty()) == 0);
        assert(seq![digit_char(n)].last() == digit_char(n));
    }
}

proof fn lemma_parse_decimal(n: u64)
    ensures
        parse_u64(decimal(n as nat)) == Some(n),
{
    lemma_decimal(n as nat);
    let ds = decimal(n as nat);
    assert(is_digit(ds[0]));
    assert(digits_part(ds) == ds);
}

/// `w1 + t + w2` trims to `t` when `w1` and `w2` are white space and `t`
/// neither starts nor ends with white space.
proof fn lemma_trim_padded(w1: Seq<char>, t: Seq<char>, w2: Seq<char>)
    requires
        forall|k: int| 0 <= k < w1.len() ==> is_white_space(#[trigger] w1[k]),
        forall|k: int| 0 <= k < w2.len() ==> is_white_space(#[trigger] w2[k]),
        t.len() > 0,
        !is_white_space(t[0]),
        !is_white_space(t.last()),
    ensures
        trim(w1 + t + w2) == t,
{
    let s = w1 + t + w2;
    assert forall|k: int| 0 <= k < w1.len() implies is_white_space(#[trigger] s[k]) by {
        assert(s[k] == w1[k]);
    }
    assert(s[w1.len() as int] == t[0]);
    lemma_leading_ws_exact(s, w1.len() as int);
    assert forall|k: int| s.len() - w2.len() <= k < s.len() implies is_white_space(#[trigger] s[k]) by {
        assert(s[k] == w2[k - w1.len() - t.len()]);
    }
    assert(s[s.len() - 1 - w2.len()] == t.last());
    lemma_trailing_ws_exact(s, w2.len() as int);
    assert(s.subrange(w1.len() as int, s.len() - w2.len()) =~= t);
}

/// Every numeral with a unit, padded with white space, reads back as its
/// interval: `<n>ms` as `n` milliseconds, `<n>s` and a bare `<n>` as `n`
/// seconds, and `<n>m` as `60 n` seconds whenever that fits in 64 bits.
pub proof fn law_interval_round_trip(n: u64, w1: Seq<char>, w2: Seq<char>)
    requires
        forall|k: int| 0 <= k < w1.len() ==> is_white_space(#[trigger] w1[k]),
        forall|k: int| 0 <= k < w2.len() ==> is_white_space(#[trigger] w2[k]),
    ensures
        spec_parse_interval(w1 + decimal(n as nat) + "ms"@ + w2) == Ok::<_, IntervalError>(duration_from_millis(n)),
        spec_parse_interval(w1 + decimal(n as nat) + "s"@ + w2) == Ok::<_, IntervalError>(duration_from_secs(n)),
        spec_parse_interval(w1 + decimal(n as nat) + w2) == Ok::<_, IntervalError>(duration_from_secs(n)),
        n * 60 <= u64::MAX ==> spec_parse_interval(w1 + decimal(n as nat) + "m"@ + w2)
            == Ok::<_, IntervalError>(duration_from_secs((n * 60) as u64)),
{
    reveal_strlit("ms");
    reveal_strlit("s");
    reveal_strlit("m");
    lemma_decimal(n as nat);
    lemma_parse_decimal(n);
    let d = decimal(n as nat);
    assert(is_digit(d[0]) && is_digit(d.last()));
    // `<n>ms`
    let t1 = d + "ms"@;
    assert(t1[0] == d[0] && t1.last() == 's');
    lemma_trim_padded(w1, t1, w2);
    assert(w1 + d + "ms"@ + w2 =~= w1 + t1 + w2);
    assert(t1.subrange(t1.len() - 2, t1.len() as int) =~= "ms"@);
    assert(strip_last(t1, 2) =~= d);
    // `<n>s`
    let t2 = d + "s"@;
    assert(t2[0] == d[0] && t2.last() == 's');
    lemma_trim_padded(w1, t2, w2);
    assert(w1 + d + "s"@ + w2 =~= w1 + t2 + w2);
    assert(t2.subrange(t2.len() - 1, t2.len() as int) =~= "s"@);
    if has_suffix(t2, "ms"@) {
        assert(t2.subrange(t2.len() - 2, t2.len() as int)[0] == t2[t2.len() - 2]);
        assert(t2[t2.len() - 2] == d.last());
    }
    assert(strip_last(t2, 1) =~= d);
    // bare `<n>`
    lemma_trim_padded(w1, d, w2);
    if has_suffix(d, "s"@) {
        assert(d.subrange(d.len() - 1, d.len() as int)[0] == d.last());
    }
    if has_suffix(d, "ms"@) {
        assert(d.subrange(d.len() - 2, d.len() as int)[1] == d.last());
    }
    if has_suffix(d, "m"@) {
        assert(d.subrange(d.len() - 1, d.len() as int)[0] == d.last());
    }
    // `<n>m`
    let t3 = d + "m"@;
    assert(t3[0] == d[0] && t3.last() == 'm');
    lemma_trim_padded(w1, t3, w2);
    assert(w1 + d + "m"@ + w2 =~= w1 + t3 + w2);
    assert(t3.subrange(t3.len() - 1, t3.len() as int) =~= "m"@);
    if has_suffix(t3, "ms"@) {
        assert(t3.subrange(t3.len() - 2, t3.len() as int)[1] == t3.last());
    }
    if has_suffix(t3, "s"@) {
        assert(t3.subrange(t3.len() - 1, t3.len() as int)[0] == t3.last());
    }
    assert(strip_last(t3, 1) =~= d);
}

} // verus!
