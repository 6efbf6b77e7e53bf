//! Agent-session decisions: endpoint URL resolution, think-tag stripping,
//! interrupted-turn storage, compaction thresholds and the message vectors
//! sent to the agent model.
use vstd::prelude::*;
use crate::secret::TenantToolRoute;
use crate::text::{
    char_prefix_count, char_suffix_count, chars_of, contains, contains_chars, decimal,
    extend_range, find, find_spec, has_prefix, lemma_find_from_spec, parse_u64, parse_u64_spec,
    push_all, push_range, push_str, starts_with, string_of, string_of_range, strip_prefix,
    sub_chars, to_string, trim, trim_bounds, trim_char, trim_char_bounds, trim_end_char,
    trim_start_char, u64_decimal, str_eq,
};

verus! {

// ---------------------------------------------------------------------------
// Think-tag stripping
// ---------------------------------------------------------------------------

/// The opening tag `<think>`.
pub open spec fn think_open() -> Seq<char> {
    seq!['<', 't', 'h', 'i', 'n', 'k', '>']
}

/// The closing tag `</think>`.
pub open spec fn think_close() -> Seq<char> {
    seq!['<', '/', 't', 'h', 'i', 'n', 'k', '>']
}

/// Removes every `<think>...</think>` block; an unclosed `<think>` drops the
/// rest of the text.
pub open spec fn strip_think_raw(s: Seq<char>) -> Seq<char>
    decreases s.len(),
{
    match find_spec(s, think_open()) {
        None => s,
        Some(i) => {
            let after = s.skip(i);
            match find_spec(after, think_close()) {
                None => s.take(i),
                Some(j) => {
                    proof {
                        lemma_find_from_spec(s, think_open(), 0);
                        lemma_find_from_spec(after, think_close(), 0);
                    }
                    s.take(i) + strip_think_raw(after.skip(j + think_close().len()))
                },
            }
        },
    }
}

/// What `strip_think_tags` returns: the text outside think blocks, trimmed.
pub open spec fn strip_think(s: Seq<char>) -> Seq<char> {
    trim(strip_think_raw(s))
}

/// Text without an opening tag passes through think-tag stripping as it is.
pub proof fn lemma_strip_think_plain(p: Seq<char>)
    requires
        !contains(p, think_open()),
    ensures
        strip_think_raw(p) == p,
{
    lemma_find_from_spec(p, think_open(), 0);
    if find_spec(p, think_open()) is Some {
        let i = find_spec(p, think_open())->0;
        assert(crate::text::occurs_at(p, think_open(), i));
    }
}

/// An unclosed think block is dropped with everything after it: for text
/// `p` without an opening tag, followed by `<think>` and a tail `t` without
/// a closing tag, stripping keeps exactly `p`, whatever `t` holds.
pub proof fn lemma_unclosed_think_dropped(p: Seq<char>, t: Seq<char>)
    requires
        !contains(p, think_open()),
        !contains(t, think_close()),
    ensures
        strip_think_raw(p + think_open() + t) == p,
        strip_think(p + think_open() + t) == trim(p),
{
    let o = think_open();
    let c = think_close();
    let s = p + o + t;
    let n = p.len() as int;
    assert(s.subrange(n, n + 7) =~= o);
    assert(crate::text::occurs_at(s, o, n));
    lemma_find_from_spec(s, o, 0);
    let i = find_spec(s, o)->0;
    if i < n {
        if i + 7 <= n {
            assert(p.subrange(i, i + 7) =~= s.subrange(i, i + 7));
            assert(crate::text::occurs_at(p, o, i));
        } else {
            // the occurrence would hold the '<' of the tag at an inner position
            let k = n - i;
            assert(1 <= k < 7);
            assert(s[n] == '<');
            assert(s.subrange(i, i + 7)[k] == s[n]);
            assert(o[k] != '<');
        }
    }
    assert(i == n);
    let after = s.skip(n);
    assert(after =~= o + t);
    lemma_find_from_spec(after, c, 0);
    if find_spec(after, c) is Some {
        let j = find_spec(after, c)->0;
        assert(crate::text::occurs_at(after, c, j));
        if j < 7 {
            assert(after.subrange(j, j + 8)[0] == after[j]);
            if j == 0 {
                assert(after[1] == 't');
                assert(after.subrange(j, j + 8)[1] == after[1]);
            } else {
                assert(after[j] == o[j]);
                assert(o[j] != '<');
            }
        } else {
            assert(t.subrange(j - 7, j + 1) =~= after.subrange(j, j + 8));
            assert(crate::text::occurs_at(t, c, j - 7));
        }
    }
    assert(s.take(n) =~= p);
}

fn think_open_chars() -> (v: Vec<char>)
    ensures
        v@ == think_open(),
{
    let v = vec!['<', 't', 'h', 'i', 'n', 'k', '>'];
    assert(v@ =~= think_open());
    v
}

fn think_close_chars() -> (v: Vec<char>)
    ensures
        v@ == think_close(),
{
    let v = vec!['<', '/', 't', 'h', 'i', 'n', 'k', '>'];
    assert(v@ =~= think_close());
    v
}

/// Removes `<think>...</think>` blocks (an unclosed `<think>` discards the
/// remainder) and trims the result.
pub fn strip_think_tags(s: &str) -> (r: String)
    ensures
        r@ == strip_think(s@),
{
    let open = think_open_chars();
    let close = think_close_chars();
    let mut out: Vec<char> = Vec::new();
    let mut rest = chars_of(s);
    loop
        invariant_except_break
            out@ + strip_think_raw(rest@) == strip_think_raw(s@),
        invariant
            open@ == think_open(),
            close@ == think_close(),
        ensures
            out@ == strip_think_raw(s@),
        decreases rest@.len(),
    {
        proof {
            lemma_find_from_spec(rest@, think_open(), 0);
        }
        match find(&rest, &open) {
            None => {
                let ghost before = out@;
                extend_range(&mut out, &rest, 0, rest.len());
                assert(rest@.subrange(0, rest@.len() as int) == rest@);
                break ;
            },
            Some(start) => {
                let ghost before = out@;
                extend_range(&mut out, &rest, 0, start);
                assert(rest@.subrange(0, start as int) == rest@.take(start as int));
                let after = sub_chars(&rest, start, rest.len());
                assert(after@ == rest@.skip(start as int));
                proof {
                    lemma_find_from_spec(after@, think_close(), 0);
                }
                match find(&after, &close) {
                    None => {
                        assert(out@ == before + rest@.take(start as int));
                        break ;
                    },
                    Some(end) => {
                        let next = sub_chars(&after, end + close.len(), after.len());
                        assert(next@ == after@.skip(end + think_close().len()));
                        assert(out@ + strip_think_raw(next@) == before + strip_think_raw(rest@));
                        rest = next;
                    },
                }
            },
        }
    }
    let (lo, hi) = trim_bounds(&out);
    string_of_range(&out, lo, hi)
}

// ---------------------------------------------------------------------------
// Interrupted turns
// ---------------------------------------------------------------------------

/// A function call requested by the agent model.
#[derive(Debug, Clone)]
pub struct FunctionCall {
    pub name: String,
    pub arguments: String,
}

/// One tool call of an assistant turn (`type` is carried in `call_type`).
#[derive(Debug, Clone)]
pub struct ToolCall {
    pub id: String,
    pub call_type: String,
    pub function: FunctionCall,
}

/// What is stored when a prompt is interrupted before it completes.
#[derive(Debug, Clone)]
pub enum InterruptedTurnStorageDecision {
    DropUserPrompt,
    StoreAssistantText(String),
    StoreInterruptedMarker,
}

/// Storage decision for an interrupted turn: visible (think-stripped) text
/// is kept; with no visible text, a turn that started tools stores a marker
/// and a turn that did not is dropped together with its user prompt.
pub fn interrupted_turn_storage_decision(partial_content: &str, tool_calls: &[ToolCall]) -> (d:
    InterruptedTurnStorageDecision)
    ensures
        strip_think(partial_content@).len() > 0 ==> (d matches
            InterruptedTurnStorageDecision::StoreAssistantText(t) && t@ == strip_think(
            partial_content@,
        )),
        strip_think(partial_content@).len() == 0 && tool_calls@.len() == 0 ==> d is DropUserPrompt,
        strip_think(partial_content@).len() == 0 && tool_calls@.len() > 0
            ==> d is StoreInterruptedMarker,
{
    let stored_content = strip_think_tags(partial_content);
    if stored_content.as_str().unicode_len() > 0 {
        InterruptedTurnStorageDecision::StoreAssistantText(stored_content)
    } else if tool_calls.len() == 0 {
        InterruptedTurnStorageDecision::DropUserPrompt
    } else {
        InterruptedTurnStorageDecision::StoreInterruptedMarker
    }
}

// ---------------------------------------------------------------------------
// Compaction thresholds
// ---------------------------------------------------------------------------

/// `u64::saturating_mul`.
pub open spec fn sat_mul(a: u64, b: u64) -> u64 {
    if a * b <= u64::MAX {
        (a * b) as u64
    } else {
        u64::MAX
    }
}

/// `u64::saturating_mul`, written with `checked_mul`.
pub fn saturating_mul(a: u64, b: u64) -> (r: u64)
    ensures
        r == sat_mul(a, b),
{
    match a.checked_mul(b) {
        Some(p) => p,
        None => u64::MAX,
    }
}

/// Pure preflight decision: compaction runs before the request when the
/// estimate reaches `ratio_pct` percent of `ctx`. A `ctx` of 0 disables it.
pub fn preflight_decision(estimate_tokens: u64, ctx: u64, ratio_pct: u64) -> (b: bool)
    ensures
        b == (ctx != 0 && estimate_tokens >= sat_mul(ctx, ratio_pct) / 100),
{
    if ctx == 0 {
        return false;
    }
    estimate_tokens >= saturating_mul(ctx, ratio_pct) / 100
}

/// Post-turn compaction ratios above 100 are clamped to 100.
pub fn clamp_postturn_ratio(ratio_pct: u64) -> (r: u64)
    ensures
        r == if ratio_pct <= 100 {
            ratio_pct
        } else {
            100
        },
{
    if ratio_pct <= 100 {
        ratio_pct
    } else {
        100
    }
}

/// Post-turn compaction threshold for the turn's context length `ctx`, with
/// the (already clamped) post-turn ratio `ratio_pct`. A `ctx` of 0 disables it.
pub fn postturn_compaction_threshold(ctx: u64, ratio_pct: u64) -> (r: Option<u64>)
    ensures
        ctx == 0 ==> r is None,
        ctx != 0 ==> r == Some(sat_mul(ctx, ratio_pct) / 100),
{
    if ctx == 0 {
        None
    } else {
        Some(saturating_mul(ctx, ratio_pct) / 100)
    }
}

/// Whether a finished turn compacts the session: the provider reported a
/// positive prompt-token count that reached the post-turn threshold.
pub fn postturn_should_compact(prompt_tokens: u64, ctx: u64, ratio_pct: u64) -> (b: bool)
    ensures
        b == (prompt_tokens > 0 && ctx != 0 && prompt_tokens >= sat_mul(ctx, ratio_pct) / 100),
{
    if prompt_tokens == 0 {
        return false;
    }
    match postturn_compaction_threshold(ctx, ratio_pct) {
        Some(t) => prompt_tokens >= t,
        None => false,
    }
}

/// A ratio or budget override: the trimmed environment value parsed as
/// `u64`, else the configured value.
pub fn ratio_override(env_value: Option<&str>, config_value: u64) -> (r: u64)
    ensures
        r == match env_value {
            Some(e) => match parse_u64_spec(trim(e@)) {
                Some(v) => v,
                None => config_value,
            },
            None => config_value,
        },
{
    match env_value {
        Some(e) => {
            let v = chars_of(e);
            let (lo, hi) = trim_bounds(&v);
            let t = sub_chars(&v, lo, hi);
            match parse_u64(&t) {
                Some(x) => x,
                None => config_value,
            }
        },
        None => config_value,
    }
}

/// Context window used when a published endpoint's context length is missing.
pub const AGENT_FALLBACK_CTX: u64 = 8192;

/// The context length for a turn from the endpoint metadata lookup: a
/// positive stored value, else [`AGENT_FALLBACK_CTX`] (also for an empty slug
/// or a failed lookup, which callers pass as `None`).
pub fn resolve_context_length(slug_is_empty: bool, stored: Option<i64>) -> (r: u64)
    ensures
        r == if !slug_is_empty && stored is Some && stored->0 > 0 {
            stored->0 as u64
        } else {
            AGENT_FALLBACK_CTX
        },
{
    if slug_is_empty {
        return AGENT_FALLBACK_CTX;
    }
    match stored {
        Some(ctx) => if ctx > 0 {
            ctx as u64
        } else {
            AGENT_FALLBACK_CTX
        },
        None => AGENT_FALLBACK_CTX,
    }
}

/// Token estimate of a serialized value of `bytes` bytes (four bytes a token,
/// rounded up).
pub fn estimate_tokens_from_bytes(bytes: u64) -> (r: u64)
    ensures
        r == (bytes as int + 3) / 4,
{
    bytes / 4 + if bytes % 4 == 0 {
        0
    } else {
        1
    }
}

/// Anchored synthesis estimate: the provider-reported prompt tokens of the
/// preceding call plus the estimate of the synthesis-only input.
pub fn estimate_synthesis_tokens(prior_call_prompt_tokens: u64, added_input_estimate: u64) -> (r:
    u64)
    requires
        prior_call_prompt_tokens + added_input_estimate <= u64::MAX,
    ensures
        r == prior_call_prompt_tokens + added_input_estimate,
{
    prior_call_prompt_tokens + added_input_estimate
}

/// Minimum number of most-recent messages kept verbatim after compaction.
pub const COMPACTION_MIN_TAIL: usize = 2;

/// Sum of `t[lo..]`.
pub open spec fn sum_from(t: Seq<u64>, lo: int) -> int
    decreases t.len() - lo,
{
    if lo < 0 || lo >= t.len() {
        0
    } else {
        t[lo] + sum_from(t, lo + 1)
    }
}

/// Start of the recent tail kept verbatim by compaction, given the token
/// estimate of every message. Walking from the newest message, a message is
/// taken while the running sum stays within `budget`; the newest
/// [`COMPACTION_MIN_TAIL`] messages are always taken.
pub open spec fn tail_start_from(t: Seq<u64>, budget: int, i: int) -> int
    decreases i,
{
    if i <= 0 {
        0
    } else if sum_from(t, i - 1) > budget && t.len() - (i - 1) > COMPACTION_MIN_TAIL {
        i
    } else {
        tail_start_from(t, budget, i - 1)
    }
}

/// See [`tail_start_from`].
pub open spec fn compaction_tail_start_spec(t: Seq<u64>, budget: int) -> int {
    tail_start_from(t, budget, t.len() as int)
}

proof fn lemma_sum_from_step(t: Seq<u64>, i: int)
    requires
        0 <= i < t.len(),
    ensures
        sum_from(t, i) == t[i] + sum_from(t, i + 1),
{
}

proof fn lemma_sum_from_nonneg(t: Seq<u64>, i: int)
    ensures
        sum_from(t, i) >= 0,
    decreases t.len() - i,
{
    if 0 <= i < t.len() {
        lemma_sum_from_nonneg(t, i + 1);
    }
}

proof fn lemma_tail_start_bounds(t: Seq<u64>, budget: int, i: int)
    requires
        0 <= i <= t.len(),
    ensures
        0 <= tail_start_from(t, budget, i) <= i,
    decreases i,
{
    if i > 0 {
        lemma_tail_start_bounds(t, budget, i - 1);
    }
}

/// Later suffix sums are no larger than earlier ones.
proof fn lemma_sum_from_mono(t: Seq<u64>, j: int, k: int)
    requires
        0 <= j <= k,
    ensures
        sum_from(t, k) <= sum_from(t, j),
    decreases k - j,
{
    lemma_sum_from_nonneg(t, k);
    if j < k {
        lemma_sum_from_mono(t, j + 1, k);
        if j < t.len() {
            lemma_sum_from_step(t, j);
        }
    }
}

/// Start index of the recent tail that compaction keeps verbatim.
/// `estimates[i]` is the token estimate of message `i`. A result of 0 means
/// the whole history fits and there is nothing to summarize.
pub fn compaction_tail_start(estimates: &Vec<u64>, budget: u64) -> (r: usize)
    requires
        sum_from(estimates@, 0) <= u64::MAX,
    ensures
        r as int == compaction_tail_start_spec(estimates@, budget as int),
        r <= estimates@.len(),
{
    let n = estimates.len();
    let mut acc: u64 = 0;
    let mut i: usize = n;
    proof {
        lemma_tail_start_bounds(estimates@, budget as int, n as int);
    }
    while i > 0
        invariant
            n == estimates@.len(),
            i <= n,
            sum_from(estimates@, 0) <= u64::MAX,
            acc as int == sum_from(estimates@, i as int),
            compaction_tail_start_spec(estimates@, budget as int) == tail_start_from(
                estimates@,
                budget as int,
                i as int,
            ),
        decreases i,
    {
        let t = estimates[i - 1];
        proof {
            lemma_sum_from_step(estimates@, i - 1);
            lemma_sum_from_mono(estimates@, 0, i - 1);
        }
        if acc + t > budget && n - (i - 1) > COMPACTION_MIN_TAIL {
            return i;
        }
        acc = acc + t;
        i -= 1;
    }
    0
}

// ---------------------------------------------------------------------------
// Endpoint URLs
// ---------------------------------------------------------------------------

/// `split_once(c)`: the text before and after the first `c`.
pub open spec fn split_once_spec(s: Seq<char>, c: char) -> Option<(Seq<char>, Seq<char>)> {
    match find_spec(s, seq![c]) {
        Some(i) => Some((s.take(i), s.skip(i + 1))),
        None => None,
    }
}

/// The funccall URL for an endpoint reference `ep`: an absolute URL is used
/// as is; `endpoints/<slug>` and `namespace/modelname` map to the funccall
/// route of `tenant`; anything else is appended to `base` as a raw path.
pub open spec fn agent_endpoint_url_spec(base: Seq<char>, tenant: Seq<char>, ep: Seq<char>) -> Seq<
    char,
> {
    let e = trim(ep);
    if has_prefix(e, "http://"@) || has_prefix(e, "https://"@) {
        e
    } else {
        let n = trim_start_char(e, '/');
        match strip_prefix(n, "endpoints/"@) {
            Some(slug) => base + "/funccall/"@ + tenant + "/endpoints/"@ + trim_char(slug, '/')
                + "/v1/chat/completions"@,
            None => match split_once_spec(n, '/') {
                Some((ns, model)) => if trim_char(ns, '/').len() > 0 && trim_char(model, '/').len()
                    > 0 {
                    base + "/funccall/"@ + tenant + "/"@ + trim_char(ns, '/') + "/"@ + trim_char(
                        model,
                        '/',
                    ) + "/v1/chat/completions"@
                } else {
                    base + "/"@ + n
                },
                None => base + "/"@ + n,
            },
        }
    }
}

/// Builds the funccall URL for an endpoint reference `ep` (an absolute URL,
/// an `endpoints/<slug>` reference, a `namespace/modelname` slug, or a raw
/// path fragment); `base` is the gateway base URL.
pub fn agent_endpoint_url(base: &str, tenant: &str, ep: &str) -> (r: String)
    ensures
        r@ == agent_endpoint_url_spec(base@, tenant@, ep@),
{
    let v = chars_of(ep);
    let (lo, hi) = trim_bounds(&v);
    let e = sub_chars(&v, lo, hi);
    let http = chars_of("http://");
    let https = chars_of("https://");
    if starts_with(&e, &http) || starts_with(&e, &https) {
        return string_of(&e);
    }
    let k = char_prefix_count(&e, '/');
    let n = sub_chars(&e, k, e.len());
    assert(n@ == trim_start_char(e@, '/'));
    let endpoints = chars_of("endpoints/");
    let mut out = String::new();
    push_str(&mut out, base);
    if starts_with(&n, &endpoints) {
        let slug = sub_chars(&n, endpoints.len(), n.len());
        let (a, b) = trim_char_bounds(&slug, '/');
        push_str(&mut out, "/funccall/");
        push_str(&mut out, tenant);
        push_str(&mut out, "/endpoints/");
        push_range(&mut out, &slug, a, b);
        push_str(&mut out, "/v1/chat/completions");
        return out;
    }
    let slash = vec!['/'];
    assert(slash@ =~= seq!['/']);
    match find(&n, &slash) {
        Some(i) => {
            let ns = sub_chars(&n, 0, i);
            let model = sub_chars(&n, i + 1, n.len());
            assert(ns@ == n@.take(i as int));
            assert(model@ == n@.skip(i + 1));
            let (a1, b1) = trim_char_bounds(&ns, '/');
            let (a2, b2) = trim_char_bounds(&model, '/');
            if b1 > a1 && b2 > a2 {
                push_str(&mut out, "/funccall/");
                push_str(&mut out, tenant);
                push_str(&mut out, "/");
                push_range(&mut out, &ns, a1, b1);
                push_str(&mut out, "/");
                push_range(&mut out, &model, a2, b2);
                push_str(&mut out, "/v1/chat/completions");
                return out;
            }
        },
        None => {},
    }
    push_str(&mut out, "/");
    push_all(&mut out, &n);
    out
}

/// The agent model URL for the session-bound published-endpoint `slug`:
/// always the `endpoints/<slug>` funccall route (an `endpoints/` prefix on
/// the slug is accepted and not doubled).
pub open spec fn agent_model_endpoint_spec(base: Seq<char>, tenant: Seq<char>, slug: Seq<char>) -> Seq<
    char,
> {
    agent_endpoint_url_spec(base, tenant, "endpoints/"@ + agent_endpoint_slug(slug))
}

/// The bare published-endpoint slug of a session: trimmed, without leading
/// slashes, and without an `endpoints/` prefix.
pub open spec fn agent_endpoint_slug(slug: Seq<char>) -> Seq<char> {
    let s = trim_start_char(trim(slug), '/');
    match strip_prefix(s, "endpoints/"@) {
        Some(b) => b,
        None => s,
    }
}

/// The agent model is always a published endpoint, never a default: its URL
/// is the `endpoints/<slug>` funccall route of the tenant, with the bare slug
/// stripped of surrounding slashes.
pub proof fn lemma_agent_model_is_published_endpoint(base: Seq<char>, tenant: Seq<char>, slug: Seq<char>)
    ensures
        agent_model_endpoint_spec(base, tenant, slug) == base + "/funccall/"@ + tenant + "/endpoints/"@
            + trim_char(agent_endpoint_slug(slug), '/') + "/v1/chat/completions"@,
{
    reveal_strlit("endpoints/");
    reveal_strlit("http://");
    reveal_strlit("https://");
    let t0 = trim(slug);
    crate::text::lemma_trim_ends_nonspace(slug);
    let t1 = trim_start_char(t0, '/');
    let pre = "endpoints/"@;
    let bare = agent_endpoint_slug(slug);
    let ep = pre + bare;
    // `bare` is a suffix of `t0`
    crate::text::lemma_char_prefix_bound(t0, '/');
    assert(t1.len() > 0 ==> t1.last() == t0.last());
    if has_prefix(t1, pre) {
        assert(bare == t1.skip(pre.len() as int));
    } else {
        assert(bare == t1);
    }
    assert(bare.len() > 0 ==> bare.last() == t1.last());
    assert(ep.len() > 0);
    assert(ep[0] == 'e');
    assert(ep.last() == if bare.len() > 0 { bare.last() } else { '/' });
    assert(!crate::text::is_ws(ep.last()));
    assert(!crate::text::is_ws(ep[0]));
    crate::text::lemma_ws_prefix_len(ep, 0);
    crate::text::lemma_ws_suffix_len(ep, 0);
    assert(crate::text::trim_start(ep) =~= ep);
    assert(trim(ep) =~= ep);
    assert(!has_prefix(ep, "http://"@)) by {
        assert(ep.take(7)[1] == 'n');
        assert("http://"@[1] == 't');
    }
    assert(!has_prefix(ep, "https://"@)) by {
        assert(ep.take(8)[1] == 'n');
        assert("https://"@[1] == 't');
    }
    crate::text::lemma_char_prefix_len(ep, '/', 0);
    assert(trim_start_char(ep, '/') =~= ep);
    assert(ep.take(pre.len() as int) =~= pre);
    assert(ep.skip(pre.len() as int) =~= bare);
    assert(strip_prefix(ep, pre) == Some(bare));
}

/// Resolves the agent model endpoint URL from the session-bound slug.
pub fn agent_model_endpoint(base: &str, tenant: &str, slug: &str) -> (r: String)
    ensures
        r@ == agent_model_endpoint_spec(base@, tenant@, slug@),
{
    let v = chars_of(slug);
    let (lo, hi) = trim_bounds(&v);
    let t = sub_chars(&v, lo, hi);
    let k = char_prefix_count(&t, '/');
    let s = sub_chars(&t, k, t.len());
    let endpoints = chars_of("endpoints/");
    let mut ep = String::new();
    push_str(&mut ep, "endpoints/");
    if starts_with(&s, &endpoints) {
        push_range(&mut ep, &s, endpoints.len(), s.len());
    } else {
        push_all(&mut ep, &s);
        assert(s@.subrange(0, s@.len() as int) == s@);
    }
    assert(Seq::<char>::empty() + "endpoints/"@ == "endpoints/"@);
    agent_endpoint_url(base, tenant, ep.as_str())
}

/// The gateway base URL used for agent calls: the trimmed public base URL
/// (without trailing slashes) when one is configured, else the loopback
/// address on the gateway port.
pub open spec fn agent_base_url_spec(public_base: Option<Seq<char>>, gateway_port: u16) -> Seq<
    char,
> {
    let p = match public_base {
        Some(b) => trim_end_char(trim(b), '/'),
        None => Seq::empty(),
    };
    if p.len() > 0 {
        p
    } else {
        "http://127.0.0.1:"@ + decimal(gateway_port as nat)
    }
}

/// See [`agent_base_url_spec`]; `public_base` is the value of
/// `INFERX_PUBLIC_API_BASE_URL`, if set.
pub fn agent_base_url(public_base: Option<&str>, gateway_port: u16) -> (r: String)
    ensures
        r@ == agent_base_url_spec(
            match public_base {
                Some(b) => Some(b@),
                None => None,
            },
            gateway_port,
        ),
{
    match public_base {
        Some(b) => {
            let v = chars_of(b);
            let (lo, hi) = trim_bounds(&v);
            let t = sub_chars(&v, lo, hi);
            let k = char_suffix_count(&t, '/');
            if k < t.len() {
                return string_of_range(&t, 0, t.len() - k);
            }
        },
        None => {},
    }
    let mut out = String::new();
    push_str(&mut out, "http://127.0.0.1:");
    let port = u64_decimal(gateway_port as u64);
    push_str(&mut out, port.as_str());
    assert(Seq::<char>::empty() + "http://127.0.0.1:"@ == "http://127.0.0.1:"@);
    out
}

/// The chat-completions URL of a routed skill.
pub fn skill_endpoint(gateway_base_url: &str, route: &TenantToolRoute) -> (r: String)
    ensures
        r@ == gateway_base_url@ + "/skills/"@ + route.owner_tenant@ + "/"@
            + route.owner_namespace@ + "/"@ + route.skillname@ + "/v1/chat/completions"@,
{
    let mut out = String::new();
    push_str(&mut out, gateway_base_url);
    push_str(&mut out, "/skills/");
    push_str(&mut out, route.owner_tenant.as_str());
    push_str(&mut out, "/");
    push_str(&mut out, route.owner_namespace.as_str());
    push_str(&mut out, "/");
    push_str(&mut out, route.skillname.as_str());
    push_str(&mut out, "/v1/chat/completions");
    assert(Seq::<char>::empty() + gateway_base_url@ == gateway_base_url@);
    out
}

/// The tenant a caller acts for: its restricted tenant, else its default
/// tenant, else the empty string.
pub fn caller_tenant(restrict_tenant: &Option<String>, default_tenant: &Option<String>) -> (r:
    String)
    ensures
        r@ == match restrict_tenant {
            Some(t) => t@,
            None => match default_tenant {
                Some(t) => t@,
                None => Seq::empty(),
            },
        },
{
    match restrict_tenant {
        Some(t) => t.clone(),
        None => match default_tenant {
            Some(t) => t.clone(),
            None => String::new(),
        },
    }
}

/// A tool offered to the agent model: one skill route, called with a single
/// required string argument `query`.
#[derive(Debug, Clone)]
pub struct AgentTool {
    pub name: String,
    /// The route's description, empty when it has none.
    pub description: String,
}

/// The tools offered for `routes`, one per route, in order.
pub fn build_tools_from_routes(routes: &[TenantToolRoute]) -> (r: Vec<AgentTool>)
    ensures
        r@.len() == routes@.len(),
        forall|i: int|
            0 <= i < r@.len() ==> (#[trigger] r@[i]).name@ == routes@[i].tool_name@ && r@[i].description@
                == match routes@[i].description {
                Some(d) => d@,
                None => Seq::<char>::empty(),
            },
{
    let mut out: Vec<AgentTool> = Vec::new();
    let mut i: usize = 0;
    while i < routes.len()
        invariant
            i <= routes@.len(),
            out@.len() == i,
            forall|k: int|
                0 <= k < i ==> (#[trigger] out@[k]).name@ == routes@[k].tool_name@ && out@[k].description@
                    == match routes@[k].description {
                    Some(d) => d@,
                    None => Seq::<char>::empty(),
                },
        decreases routes@.len() - i,
    {
        let r = &routes[i];
        let description = match &r.description {
            Some(d) => d.clone(),
            None => String::new(),
        };
        out.push(AgentTool { name: r.tool_name.clone(), description });
        i += 1;
    }
    out
}

/// Default page size of a session message listing.
pub fn DefaultLimit() -> (r: usize)
    ensures
        r == 50,
{
    50
}

/// A request to open an agent session.
#[derive(Debug, Clone)]
pub struct CreateSessionRequest {
    pub api_key: String,
    /// Published-endpoint slug chosen as the agent model.
    pub agent_endpoint: Option<String>,
}

/// A prompt sent to a session.
#[derive(Debug, Clone)]
pub struct PromptRequest {
    pub message: String,
    pub stream: bool,
}

/// The answer to an interrupt: whether a running turn was stopped.
#[derive(Debug, Clone, Copy)]
pub struct InterruptSessionResponse {
    pub interrupted: bool,
}

/// Paging of a session's message listing.
#[derive(Debug, Clone, Copy)]
pub struct MessageListQuery {
    /// At most this many messages; [`DefaultLimit`] where the query gives none.
    pub limit: usize,
}

/// The agent endpoint slug that a session stores for a chosen `raw` value:
/// trimmed, without leading `/`, and without one leading `endpoints/`; `None`
/// where no (or a blank) value was chosen.
pub open spec fn agent_slug_spec(raw: Option<Seq<char>>) -> Option<Seq<char>> {
    match raw {
        Some(r) => if trim(r).len() == 0 {
            None
        } else {
            let t = trim_start_char(trim(r), '/');
            match strip_prefix(t, "endpoints/"@) {
                Some(rest) => Some(rest),
                None => Some(t),
            }
        },
        None => None,
    }
}

/// Normalizes the agent endpoint chosen in a session-creation request.
pub fn normalize_agent_slug(raw: Option<&str>) -> (r: Option<String>)
    ensures
        match r {
            Some(s) => agent_slug_spec(
                match raw {
                    Some(x) => Some(x@),
                    None => None,
                },
            ) == Some(s@),
            None => agent_slug_spec(
                match raw {
                    Some(x) => Some(x@),
                    None => None,
                },
            ) is None,
        },
{
    match raw {
        None => None,
        Some(x) => {
            let v = chars_of(x);
            let (lo, hi) = trim_bounds(&v);
            if lo >= hi {
                return None;
            }
            let t = sub_chars(&v, lo, hi);
            let k = char_prefix_count(&t, '/');
            let n = t.len();
            let u = sub_chars(&t, k, n);
            let p = chars_of("endpoints/");
            if starts_with(&u, &p) {
                let m = u.len();
                Some(string_of_range(&u, p.len(), m))
            } else {
                Some(string_of(&u))
            }
        },
    }
}

/// Why a session could not be opened.
#[derive(Debug, Clone, Copy, PartialEq, Eq, Structural)]
pub enum CreateSessionRefusal {
    /// The caller acts for no tenant.
    NoTenant,
    /// No agent model was chosen.
    NoAgentModel,
}

/// The first check of a session-creation request: a caller with a tenant and
/// a chosen model gets the normalized slug of the model (which is then
/// checked against the published endpoints).
pub fn create_session_check(tenant: &str, agent_endpoint: Option<&str>) -> (r: Result<
    String,
    CreateSessionRefusal,
>)
    ensures
        tenant@.len() == 0 ==> r == Err::<String, _>(CreateSessionRefusal::NoTenant),
        tenant@.len() != 0 ==> match r {
            Ok(s) => agent_slug_spec(
                match agent_endpoint {
                    Some(x) => Some(x@),
                    None => None,
                },
            ) == Some(s@),
            Err(e) => e == CreateSessionRefusal::NoAgentModel && agent_slug_spec(
                match agent_endpoint {
                    Some(x) => Some(x@),
                    None => None,
                },
            ) is None,
        },
{
    if chars_of(tenant).len() == 0 {
        return Err(CreateSessionRefusal::NoTenant);
    }
    match normalize_agent_slug(agent_endpoint) {
        Some(s) => Ok(s),
        None => Err(CreateSessionRefusal::NoAgentModel),
    }
}

/// The message for a chosen model that is not available.
pub fn unavailable_model_message(slug: &str, reason: &str) -> (m: String)
    ensures
        m@ == "Selected model '"@ + slug@ + "' is not available: "@ + reason@,
{
    let mut m = to_string("Selected model '");
    push_str(&mut m, slug);
    push_str(&mut m, "' is not available: ");
    push_str(&mut m, reason);
    m
}

/// What a caller may do with a session that it names.
#[derive(Debug, Clone, Copy, PartialEq, Eq, Structural)]
pub enum SessionAccess {
    /// The session exists and belongs to the caller's tenant.
    Owner,
    /// The session belongs to another tenant.
    Forbidden,
    /// No such session.
    NotFound,
}

/// The access of `caller` to a session owned by `owner` (`None`: no such
/// session). Where `hide_foreign` is set (deletion), another tenant's session
/// is reported as not found, so that its existence is not revealed.
pub fn session_access(owner: Option<&str>, caller: &str, hide_foreign: bool) -> (a: SessionAccess)
    ensures
        a == match owner {
            None => SessionAccess::NotFound,
            Some(o) => if o@ == caller@ {
                SessionAccess::Owner
            } else if hide_foreign {
                SessionAccess::NotFound
            } else {
                SessionAccess::Forbidden
            },
        },
{
    match owner {
        None => SessionAccess::NotFound,
        Some(o) => {
            if str_eq(o, caller) {
                SessionAccess::Owner
            } else if hide_foreign {
                SessionAccess::NotFound
            } else {
                SessionAccess::Forbidden
            }
        },
    }
}

// ---------------------------------------------------------------------------
// Backend error classification
// ---------------------------------------------------------------------------

/// What `str::to_lowercase` returns for `s` (full Unicode lowercase mapping).
pub uninterp spec fn unicode_lowercase(s: Seq<char>) -> Seq<char>;

/// `str::to_lowercase` (std). Trusted: the result is the Unicode lowercase
/// mapping of `s`, a function of `s` alone; its content is not stated.
#[verifier::external_body]
fn to_lowercase(s: &str) -> (r: String)
    ensures
        r@ == unicode_lowercase(s@),
{
    s.to_lowercase()
}

/// The user-facing message for a session-bound endpoint that can no longer
/// be dispatched to.
pub open spec fn endpoint_unavailable_message() -> Seq<char> {
    "The selected model is no longer available (it may have been unpublished). Pick a model and start a new session."@
}

/// Classification of an already-lowercased dispatch error message.
pub open spec fn classify_lowered_spec(lowered: Seq<char>) -> Option<Seq<char>> {
    if contains(lowered, "is unpublished"@) || contains(lowered, "endpoint not found"@) || contains(
        lowered,
        "does not exist"@,
    ) {
        Some(endpoint_unavailable_message())
    } else {
        None
    }
}

/// Classifies a lowercased dispatch error: an unpublished / missing endpoint
/// gets the actionable "pick a model" message, anything else `None`.
pub fn classify_lowered_dispatch_error(lowered: &str) -> (r: Option<String>)
    ensures
        match r {
            Some(m) => classify_lowered_spec(lowered@) == Some(m@),
            None => classify_lowered_spec(lowered@) is None,
        },
{
    let l = chars_of(lowered);
    let p1 = chars_of("is unpublished");
    let p2 = chars_of("endpoint not found");
    let p3 = chars_of("does not exist");
    if contains_chars(&l, &p1) || contains_chars(&l, &p2) || contains_chars(&l, &p3) {
        Some(
            to_string(
                "The selected model is no longer available (it may have been unpublished). Pick a model and start a new session.",
            ),
        )
    } else {
        None
    }
}

/// Classifies a raw backend error: an unpublished or missing session-bound
/// endpoint yields the actionable message; unrelated failures yield `None`.
pub fn classify_endpoint_dispatch_error(raw: &str) -> (r: Option<String>)
    ensures
        match r {
            Some(m) => classify_lowered_spec(unicode_lowercase(raw@)) == Some(m@),
            None => classify_lowered_spec(unicode_lowercase(raw@)) is None,
        },
{
    let lowered = to_lowercase(raw);
    classify_lowered_dispatch_error(lowered.as_str())
}

} // verus!
