//! The dynamic concurrency ceiling of external endpoints: an AIMD step law
//! driven by scraped vLLM gauges, the per-replica controller decision, and
//! the scan of Prometheus text lines.
use vstd::prelude::*;
use crate::secret::ExternalEndpoint;
use crate::text::{
    chars_of, find, find_spec, is_whitespace, is_ws, lemma_find_from_spec, string_of_range,
    sub_chars, trim, trim_bounds, trim_start, ws_prefix_end, str_eq,
};

verus! {

/// Most a single tick may lower the ceiling.
pub const MAX_DROP_PER_TICK: i64 = 2;

/// Scrape failures after which the controller reports the replica as
/// failing repeatedly.
pub const FAILURE_ERROR_THRESHOLD: u32 = 10;

/// The smaller of two integers.
pub open spec fn min_i64(a: i64, b: i64) -> i64 {
    if a <= b {
        a
    } else {
        b
    }
}

/// The step law of one ceiling `c`: decrease on sustained backlog
/// (`waiting >= threshold`) or on any backlog with the KV cache at its
/// high-water mark, by `min(waiting, 2)` and never below 1; increase by one
/// only when the local limiter is saturated (`inflight == Some(c)`), the KV
/// cache is below the mark and nothing waits; else hold.
pub open spec fn step_spec(
    c: i64,
    waiting: i64,
    kv_at_wall: bool,
    local_inflight: Option<i64>,
    decrease_waiting_threshold: i64,
) -> int {
    if waiting >= decrease_waiting_threshold || (waiting > 0 && kv_at_wall) {
        let d = c - min_i64(waiting, MAX_DROP_PER_TICK);
        if d >= 1 {
            d
        } else {
            1
        }
    } else if local_inflight == Some(c) && !kv_at_wall && waiting == 0 {
        c + 1
    } else {
        c as int
    }
}

/// The step's arithmetic stays within `i64`.
pub open spec fn step_in_range(
    c: i64,
    waiting: i64,
    kv_at_wall: bool,
    local_inflight: Option<i64>,
    decrease_waiting_threshold: i64,
) -> bool {
    &&& (waiting >= decrease_waiting_threshold || (waiting > 0 && kv_at_wall)) ==> i64::MIN <= c
        - min_i64(waiting, MAX_DROP_PER_TICK) <= i64::MAX
    &&& (local_inflight == Some(c) && !kv_at_wall && waiting == 0) ==> c < i64::MAX
}

/// One step of the ceiling law. `kv_at_wall` says whether the scraped KV
/// cache usage is at or above the high-water mark (0.90).
pub fn step(
    c: i64,
    waiting: i64,
    kv_at_wall: bool,
    local_inflight: Option<i64>,
    decrease_waiting_threshold: i64,
) -> (r: i64)
    requires
        step_in_range(c, waiting, kv_at_wall, local_inflight, decrease_waiting_threshold),
    ensures
        r == step_spec(c, waiting, kv_at_wall, local_inflight, decrease_waiting_threshold),
{
    if waiting >= decrease_waiting_threshold || (waiting > 0 && kv_at_wall) {
        let drop = if waiting <= MAX_DROP_PER_TICK {
            waiting
        } else {
            MAX_DROP_PER_TICK
        };
        let d = c - drop;
        if d >= 1 {
            d
        } else {
            1
        }
    } else if local_inflight == Some(c) && !kv_at_wall && waiting == 0 {
        c + 1
    } else {
        c
    }
}

/// The ceiling law never lowers a positive ceiling below 1, never lowers it
/// by more than `MAX_DROP_PER_TICK` (when the threshold is at least 1),
/// raises it by at most one and only when the limiter is saturated with a
/// clean queue and KV cache, and holds it when there is no backlog and the
/// limiter is not saturated.
pub proof fn lemma_step_bounds(
    c: i64,
    waiting: i64,
    kv_at_wall: bool,
    local_inflight: Option<i64>,
    threshold: i64,
)
    requires
        c >= 1,
        threshold >= 1,
    ensures
        step_spec(c, waiting, kv_at_wall, local_inflight, threshold) >= 1,
        step_spec(c, waiting, kv_at_wall, local_inflight, threshold) >= c - MAX_DROP_PER_TICK,
        step_spec(c, waiting, kv_at_wall, local_inflight, threshold) <= c + 1,
        step_spec(c, waiting, kv_at_wall, local_inflight, threshold) == c + 1 ==> (local_inflight
            == Some(c) && !kv_at_wall && waiting == 0),
        waiting <= 0 && local_inflight != Some(c) ==> step_spec(
            c,
            waiting,
            kv_at_wall,
            local_inflight,
            threshold,
        ) == c,
{
}

/// The controller's memory of one replica: consecutive scrape failures and
/// the `(max_concurrency, metrics_url)` pair they were counted for.
#[derive(Debug)]
pub struct SlugState {
    pub consecutive_failures: u32,
    pub pair: (i32, String),
}

/// What a scrape yielded: the summed waiting gauge and whether the KV gauge
/// is at the high-water mark.
#[derive(Clone, Copy, Debug, PartialEq, Eq, Structural)]
pub struct ScrapeSample {
    pub waiting: i64,
    pub kv_at_wall: bool,
}

impl SlugState {
    /// A fresh state: no failures, an empty pair.
    pub fn new() -> (r: Self)
        ensures
            r.consecutive_failures == 0,
            r.pair.0 == 0,
            r.pair.1@ == Seq::<char>::empty(),
    {
        SlugState { consecutive_failures: 0, pair: (0, String::new()) }
    }
}

/// One controller decision for a replica: a changed `(max_concurrency,
/// metrics_url)` pair resets the failure count; a failed scrape counts a
/// failure and freezes the ceiling; a good scrape clears the count and,
/// when the ceiling is known, applies the step law, reporting
/// `(old, new, sample)` when the ceiling moves.
pub fn decide(
    state: SlugState,
    pair: (i32, String),
    ceiling: Option<i64>,
    inflight: Option<i64>,
    decrease_waiting_threshold: i64,
    scrape_result: Result<ScrapeSample, String>,
) -> (r: (SlugState, Option<(i64, i64, ScrapeSample)>))
    requires
        (state.pair.0 == pair.0 && state.pair.1@ == pair.1@ && scrape_result is Err)
            ==> state.consecutive_failures < u32::MAX,
        ceiling matches Some(c) ==> scrape_result matches Ok(m) ==> step_in_range(
            c,
            m.waiting,
            m.kv_at_wall,
            inflight,
            decrease_waiting_threshold,
        ),
    ensures
        r.0.pair.0 == pair.0,
        r.0.pair.1@ == pair.1@,
        match scrape_result {
            Err(_) => r.1 is None && r.0.consecutive_failures == (if state.pair.0 == pair.0
                && state.pair.1@ == pair.1@ {
                state.consecutive_failures + 1
            } else {
                1
            }),
            Ok(m) => r.0.consecutive_failures == 0 && match ceiling {
                None => r.1 is None,
                Some(c) => {
                    let n = step_spec(
                        c,
                        m.waiting,
                        m.kv_at_wall,
                        inflight,
                        decrease_waiting_threshold,
                    );
                    if n != c {
                        r.1 == Some((c, n as i64, m))
                    } else {
                        r.1 is None
                    }
                },
            },
        },
{
    let mut state = state;
    if !(state.pair.0 == pair.0 && str_eq(state.pair.1.as_str(), pair.1.as_str())) {
        state.pair = pair;
        state.consecutive_failures = 0;
    }
    match scrape_result {
        Err(_) => {
            state.consecutive_failures = state.consecutive_failures + 1;
            (state, None)
        },
        Ok(m) => {
            state.consecutive_failures = 0;
            match ceiling {
                None => (state, None),
                Some(c) => {
                    let n = step(c, m.waiting, m.kv_at_wall, inflight, decrease_waiting_threshold);
                    if n != c {
                        (state, Some((c, n, m)))
                    } else {
                        (state, None)
                    }
                },
            }
        },
    }
}

/// The decrease threshold in use: the configured one, at least 1.
pub fn effective_decrease_threshold(configured: i64) -> (r: i64)
    ensures
        r == (if configured < 1 {
            1
        } else {
            configured
        }),
        r >= 1,
{
    if configured < 1 {
        1
    } else {
        configured
    }
}

// ---------------------------------------------------------------------------
// Prometheus text lines
// ---------------------------------------------------------------------------

/// Which control gauge a sample line carries, with its value text.
#[derive(Debug)]
pub enum MetricSample {
    /// Not a control gauge line (comment, blank, other metric, or an
    /// unterminated label set).
    Ignored,
    /// `vllm:num_requests_waiting`.
    Waiting(String),
    /// `vllm:kv_cache_usage_perc` or `vllm:gpu_cache_usage_perc`.
    Kv(String),
}

/// Length of the metric name: up to the first `{` or whitespace.
pub open spec fn name_len(s: Seq<char>) -> nat
    decreases s.len(),
{
    if s.len() == 0 || s[0] == '{' || is_ws(s[0]) {
        0
    } else {
        1 + name_len(s.drop_first())
    }
}

/// Length of the first token: up to the first whitespace.
pub open spec fn token_len(s: Seq<char>) -> nat
    decreases s.len(),
{
    if s.len() == 0 || is_ws(s[0]) {
        0
    } else {
        1 + token_len(s.drop_first())
    }
}

proof fn lemma_name_len(s: Seq<char>, k: int)
    requires
        0 <= k <= s.len(),
        forall|i: int| 0 <= i < k ==> s[i] != '{' && !is_ws(s[i]),
        k == s.len() || s[k] == '{' || is_ws(s[k]),
    ensures
        name_len(s) == k,
    decreases k,
{
    if k > 0 {
        lemma_name_len(s.drop_first(), k - 1);
    }
}

proof fn lemma_token_len(s: Seq<char>, k: int)
    requires
        0 <= k <= s.len(),
        forall|i: int| 0 <= i < k ==> !is_ws(s[i]),
        k == s.len() || is_ws(s[k]),
    ensures
        token_len(s) == k,
    decreases k,
{
    if k > 0 {
        lemma_token_len(s.drop_first(), k - 1);
    }
}

/// The value text after the name: labels `{...}` skipped, then the first
/// token; `None` for an unterminated label set.
pub open spec fn value_text(after_name: Seq<char>) -> Option<Seq<char>> {
    let rest = trim_start(after_name);
    let v = if rest.len() > 0 && rest[0] == '{' {
        let r = rest.skip(1);
        match find_spec(r, seq!['}']) {
            Some(end) => Some(trim_start(r.skip(end + 1))),
            None => None,
        }
    } else {
        Some(rest)
    };
    match v {
        Some(x) => Some(x.take(token_len(x) as int)),
        None => None,
    }
}

/// The classification of one exposition line.
pub open spec fn metric_line_spec(raw: Seq<char>) -> Option<(int, Seq<char>)> {
    let line = trim(raw);
    if line.len() == 0 || line[0] == '#' {
        None
    } else {
        let n = name_len(line);
        let name = line.take(n as int);
        let kind = if name == "vllm:num_requests_waiting"@ {
            1int
        } else if name == "vllm:kv_cache_usage_perc"@ || name == "vllm:gpu_cache_usage_perc"@ {
            2int
        } else {
            0int
        };
        if kind == 0 {
            None
        } else {
            match value_text(line.skip(n as int)) {
                Some(v) => Some((kind, v)),
                None => None,
            }
        }
    }
}

/// A sample by view: `1` waiting, `2` KV, with the value text.
pub open spec fn sample_view(m: MetricSample) -> Option<(int, Seq<char>)> {
    match m {
        MetricSample::Ignored => None,
        MetricSample::Waiting(v) => Some((1int, v@)),
        MetricSample::Kv(v) => Some((2int, v@)),
    }
}

fn name_end(v: &Vec<char>) -> (k: usize)
    ensures
        k == name_len(v@),
        k <= v@.len(),
{
    let mut k: usize = 0;
    while k < v.len() && v[k] != '{' && !is_whitespace(v[k])
        invariant
            k <= v@.len(),
            forall|i: int| 0 <= i < k ==> v@[i] != '{' && !is_ws(v@[i]),
        decreases v@.len() - k,
    {
        k += 1;
    }
    proof {
        lemma_name_len(v@, k as int);
    }
    k
}

fn token_end(v: &Vec<char>) -> (k: usize)
    ensures
        k == token_len(v@),
        k <= v@.len(),
{
    let mut k: usize = 0;
    while k < v.len() && !is_whitespace(v[k])
        invariant
            k <= v@.len(),
            forall|i: int| 0 <= i < k ==> !is_ws(v@[i]),
        decreases v@.len() - k,
    {
        k += 1;
    }
    proof {
        lemma_token_len(v@, k as int);
    }
    k
}

/// Reads one line of a Prometheus text exposition: only exact control-gauge
/// names count (not names that merely start with one); labels are skipped
/// and the first token after them is the value (a trailing timestamp is
/// ignored).
pub fn classify_metric_line(raw_line: &str) -> (r: MetricSample)
    ensures
        sample_view(r) == metric_line_spec(raw_line@),
{
    let raw = chars_of(raw_line);
    let (lo, hi) = trim_bounds(&raw);
    let line = sub_chars(&raw, lo, hi);
    if line.len() == 0 || line[0] == '#' {
        return MetricSample::Ignored;
    }
    let n = name_end(&line);
    let name = string_of_range(&line, 0, n);
    assert(line@.subrange(0, n as int) == line@.take(n as int));
    let kind: u8 = if str_eq(name.as_str(), "vllm:num_requests_waiting") {
        1
    } else if str_eq(name.as_str(), "vllm:kv_cache_usage_perc") || str_eq(
        name.as_str(),
        "vllm:gpu_cache_usage_perc",
    ) {
        2
    } else {
        0
    };
    if kind == 0 {
        return MetricSample::Ignored;
    }
    let after = sub_chars(&line, n, line.len());
    let s = ws_prefix_end(&after);
    let rest = sub_chars(&after, s, after.len());
    assert(rest@ == trim_start(after@));
    let value_start: Vec<char> = if rest.len() > 0 && rest[0] == '{' {
        let r = sub_chars(&rest, 1, rest.len());
        let close = vec!['}'];
        assert(close@ =~= seq!['}']);
        match find(&r, &close) {
            Some(end) => {
                proof {
                    lemma_find_from_spec(r@, close@, 0);
                }
                let tail = sub_chars(&r, end + 1, r.len());
                let t = ws_prefix_end(&tail);
                sub_chars(&tail, t, tail.len())
            },
            None => {
                return MetricSample::Ignored;
            },
        }
    } else {
        rest
    };
    let e = token_end(&value_start);
    let value = string_of_range(&value_start, 0, e);
    assert(value_start@.subrange(0, e as int) == value_start@.take(e as int));
    if kind == 1 {
        MetricSample::Waiting(value)
    } else {
        MetricSample::Kv(value)
    }
}


/// Whether the controller drives an endpoint's ceiling: it has a metrics URL
/// and a finite cap (`max_concurrency >= 0`).
pub fn is_dynamic_endpoint(ep: &ExternalEndpoint) -> (b: bool)
    ensures
        b == (ep.metrics_url is Some && ep.max_concurrency >= 0),
{
    ep.metrics_url.is_some() && ep.max_concurrency >= 0
}

} // verus!
