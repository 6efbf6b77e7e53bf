//! Skill chaining: a skill model may call other skill endpoints through the
//! `call_skillep` tool. This module holds the decisions of a chain: request
//! normalization, child-call gating and outcomes, trace forwarding, result
//! ordering and token-usage accounting.
use vstd::prelude::*;
use crate::json::{JsonNumber, JsonValue};
use crate::text::{
    chars_of, clone_opt, opt_view, decimal, has_prefix, lemma_split_on_nonempty, push_all, push_char, push_str, split_char, split_on, str_eq, views,
    string_of, string_of_range, to_string, trim, trim_str, u64_decimal,
};

verus! {

/// Maximum depth of a skill chain (the root call has depth 1).
pub const SKILL_CHAIN_MAX_DEPTH: u32 = 5;

// ---------------------------------------------------------------------------
// Failure reasons
// ---------------------------------------------------------------------------

/// Why a traced call failed.
#[derive(Clone, Copy, Debug, PartialEq, Eq, Structural)]
pub enum SkillTraceFailReason {
    Timeout,
    MaxDepth,
    TransportError,
    InvalidResponse,
}

/// The wire name of a failure reason.
pub open spec fn fail_reason_name(r: SkillTraceFailReason) -> Seq<char> {
    match r {
        SkillTraceFailReason::Timeout => "timeout"@,
        SkillTraceFailReason::MaxDepth => "max_depth"@,
        SkillTraceFailReason::TransportError => "transport_error"@,
        SkillTraceFailReason::InvalidResponse => "invalid_response"@,
    }
}

impl SkillTraceFailReason {
    /// The wire name: `timeout`, `max_depth`, `transport_error` or
    /// `invalid_response`.
    pub fn as_str(self) -> (r: &'static str)
        ensures
            r@ == fail_reason_name(self),
    {
        match self {
            SkillTraceFailReason::Timeout => "timeout",
            SkillTraceFailReason::MaxDepth => "max_depth",
            SkillTraceFailReason::TransportError => "transport_error",
            SkillTraceFailReason::InvalidResponse => "invalid_response",
        }
    }
}

/// The failure reason a wire name denotes, if any.
pub open spec fn parse_fail_reason_spec(reason: Option<Seq<char>>) -> Option<SkillTraceFailReason> {
    match reason {
        Some(s) => if s == "timeout"@ {
            Some(SkillTraceFailReason::Timeout)
        } else if s == "max_depth"@ {
            Some(SkillTraceFailReason::MaxDepth)
        } else if s == "transport_error"@ {
            Some(SkillTraceFailReason::TransportError)
        } else if s == "invalid_response"@ {
            Some(SkillTraceFailReason::InvalidResponse)
        } else {
            None
        },
        None => None,
    }
}

/// An optional string by view.
pub open spec fn opt_str_view(s: Option<&str>) -> Option<Seq<char>> {
    match s {
        Some(x) => Some(x@),
        None => None,
    }
}

/// Reads a wire failure reason; unknown names and `None` give `None`.
pub fn parse_fail_reason(reason: Option<&str>) -> (r: Option<SkillTraceFailReason>)
    ensures
        r == parse_fail_reason_spec(opt_str_view(reason)),
{
    match reason {
        Some(s) => {
            if str_eq(s, "timeout") {
                Some(SkillTraceFailReason::Timeout)
            } else if str_eq(s, "max_depth") {
                Some(SkillTraceFailReason::MaxDepth)
            } else if str_eq(s, "transport_error") {
                Some(SkillTraceFailReason::TransportError)
            } else if str_eq(s, "invalid_response") {
                Some(SkillTraceFailReason::InvalidResponse)
            } else {
                None
            }
        },
        None => None,
    }
}

/// The tool result reported for a child that finished with `fail`.
pub open spec fn child_fail_message(reason: Option<SkillTraceFailReason>) -> Seq<char> {
    match reason {
        Some(SkillTraceFailReason::Timeout) => "Error: child timed out"@,
        Some(SkillTraceFailReason::MaxDepth) => "Error: child exceeded max chain depth"@,
        Some(SkillTraceFailReason::TransportError) => "Error: child transport error"@,
        Some(SkillTraceFailReason::InvalidResponse) => "Error: child returned invalid response"@,
        None => "Error: child failed"@,
    }
}

/// The tool result reported for a child that finished with `fail`.
pub fn format_child_fail_reason(reason: Option<SkillTraceFailReason>) -> (r: String)
    ensures
        r@ == child_fail_message(reason),
{
    match reason {
        Some(SkillTraceFailReason::Timeout) => to_string("Error: child timed out"),
        Some(SkillTraceFailReason::MaxDepth) => to_string("Error: child exceeded max chain depth"),
        Some(SkillTraceFailReason::TransportError) => to_string("Error: child transport error"),
        Some(SkillTraceFailReason::InvalidResponse) => to_string(
            "Error: child returned invalid response",
        ),
        None => to_string("Error: child failed"),
    }
}

// ---------------------------------------------------------------------------
// Token usage
// ---------------------------------------------------------------------------

/// Token counts of a model call or a whole chain.
#[derive(Clone, Copy, Debug, PartialEq, Eq, Structural)]
pub struct SkillTraceTokenUsage {
    pub prompt_tokens: u64,
    pub completion_tokens: u64,
    pub total_tokens: u64,
}

/// Addition that stops at `u64::MAX`.
pub open spec fn sat_add(a: u64, b: u64) -> u64 {
    if a + b > u64::MAX {
        u64::MAX
    } else {
        (a + b) as u64
    }
}

/// Field-wise saturating sum of two usages.
pub open spec fn usage_sum(a: SkillTraceTokenUsage, b: SkillTraceTokenUsage) -> SkillTraceTokenUsage {
    SkillTraceTokenUsage {
        prompt_tokens: sat_add(a.prompt_tokens, b.prompt_tokens),
        completion_tokens: sat_add(a.completion_tokens, b.completion_tokens),
        total_tokens: sat_add(a.total_tokens, b.total_tokens),
    }
}

impl SkillTraceTokenUsage {
    /// Adds `other` field by field, saturating at `u64::MAX`.
    pub fn add_assign(&mut self, other: &Self)
        ensures
            *final(self) == usage_sum(*old(self), *other),
    {
        self.prompt_tokens = self.prompt_tokens.saturating_add(other.prompt_tokens);
        self.completion_tokens = self.completion_tokens.saturating_add(other.completion_tokens);
        self.total_tokens = self.total_tokens.saturating_add(other.total_tokens);
    }
}

/// Accumulating `u` into an optional running total.
pub open spec fn accumulate_spec(agg: Option<SkillTraceTokenUsage>, u: Option<SkillTraceTokenUsage>) -> Option<
    SkillTraceTokenUsage,
> {
    match u {
        None => agg,
        Some(x) => match agg {
            None => Some(x),
            Some(a) => Some(usage_sum(a, x)),
        },
    }
}

/// Folds a usage into the chain's running total: the first usage starts
/// it, later ones are added with saturation, a missing one changes nothing.
pub fn accumulate_usage(agg: Option<SkillTraceTokenUsage>, u: Option<SkillTraceTokenUsage>) -> (r:
    Option<SkillTraceTokenUsage>)
    ensures
        r == accumulate_spec(agg, u),
{
    match u {
        None => agg,
        Some(x) => match agg {
            None => Some(x),
            Some(a) => {
                let mut t = a;
                t.add_assign(&x);
                Some(t)
            },
        },
    }
}

/// Usage as a model response reports it; the total may be missing.
#[derive(Clone, Copy, Debug)]
pub struct RawUsage {
    pub prompt_tokens: u64,
    pub completion_tokens: u64,
    pub total_tokens: Option<u64>,
}

/// The usage a raw report stands for: a missing total is the saturating
/// sum of the parts; an all-zero report is no usage.
pub open spec fn raw_usage_spec(u: RawUsage) -> Option<SkillTraceTokenUsage> {
    let total = match u.total_tokens {
        Some(t) => t,
        None => sat_add(u.prompt_tokens, u.completion_tokens),
    };
    if u.prompt_tokens == 0 && u.completion_tokens == 0 && total == 0 {
        None
    } else {
        Some(
            SkillTraceTokenUsage {
                prompt_tokens: u.prompt_tokens,
                completion_tokens: u.completion_tokens,
                total_tokens: total,
            },
        )
    }
}

impl RawUsage {
    /// See [`raw_usage_spec`].
    pub fn into_usage(self) -> (r: Option<SkillTraceTokenUsage>)
        ensures
            r == raw_usage_spec(self),
    {
        let total_tokens = match self.total_tokens {
            Some(t) => t,
            None => self.prompt_tokens.saturating_add(self.completion_tokens),
        };
        if self.prompt_tokens == 0 && self.completion_tokens == 0 && total_tokens == 0 {
            return None;
        }
        Some(
            SkillTraceTokenUsage {
                prompt_tokens: self.prompt_tokens,
                completion_tokens: self.completion_tokens,
                total_tokens,
            },
        )
    }
}

/// A raw usage report keeps its counts: the prompt and completion counts
/// are carried over unchanged, a reported total is kept, a missing total
/// is the sum of the parts (stopping at the largest count); the report is
/// dropped exactly when every count is zero.
pub proof fn lemma_raw_usage_keeps_counts(u: RawUsage)
    ensures
        raw_usage_spec(u) matches Some(x) ==> x.prompt_tokens == u.prompt_tokens
            && x.completion_tokens == u.completion_tokens,
        raw_usage_spec(u) matches Some(x) ==> (u.total_tokens matches Some(t) ==> x.total_tokens == t),
        raw_usage_spec(u) matches Some(x) ==> (u.total_tokens is None && u.prompt_tokens
            + u.completion_tokens <= u64::MAX ==> x.total_tokens == u.prompt_tokens
            + u.completion_tokens),
        (u.prompt_tokens != 0 || u.completion_tokens != 0) ==> raw_usage_spec(u) is Some,
        raw_usage_spec(u) is None <==> (u.prompt_tokens == 0 && u.completion_tokens == 0 && (
        u.total_tokens is None || u.total_tokens == Some(0u64))),
{
}

/// The usage a trace event reports: only when all three counts are present.
pub fn usage_from_counts(prompt: Option<u64>, completion: Option<u64>, total: Option<u64>) -> (r:
    Option<SkillTraceTokenUsage>)
    ensures
        r == match (prompt, completion, total) {
            (Some(p), Some(c), Some(t)) => Some(
                SkillTraceTokenUsage { prompt_tokens: p, completion_tokens: c, total_tokens: t },
            ),
            _ => None,
        },
{
    match (prompt, completion, total) {
        (Some(p), Some(c), Some(t)) => Some(
            SkillTraceTokenUsage { prompt_tokens: p, completion_tokens: c, total_tokens: t },
        ),
        _ => None,
    }
}

// ---------------------------------------------------------------------------
// Trace level and response mode
// ---------------------------------------------------------------------------

/// Effective trace verbosity.
#[derive(Clone, Copy, Debug, PartialEq, Eq, Structural)]
pub enum SkillTraceLevel {
    Off,
    Basic,
    Verbose,
}

/// The wire number of a trace level.
pub open spec fn level_number(l: SkillTraceLevel) -> u8 {
    match l {
        SkillTraceLevel::Off => 0,
        SkillTraceLevel::Basic => 1,
        SkillTraceLevel::Verbose => 2,
    }
}

impl SkillTraceLevel {
    /// `0`, `1` or `2`.
    pub fn as_u8(self) -> (r: u8)
        ensures
            r == level_number(self),
    {
        match self {
            SkillTraceLevel::Off => 0,
            SkillTraceLevel::Basic => 1,
            SkillTraceLevel::Verbose => 2,
        }
    }
}

/// How the response of a skill call is delivered.
#[derive(Clone, Copy, Debug, PartialEq, Eq, Structural)]
pub enum SkillResponseMode {
    Normal,
    SseTrace,
}

/// Who a gateway-internal skill request is for.
#[derive(Clone, Copy, Debug, PartialEq, Eq, Structural)]
pub enum InternalSkillRequestProfile {
    /// An MCP tool call looped back through the gateway: capped at 5000
    /// output tokens, at temperature 0.
    McpToolLoopback,
    /// A child skill of a chain: the skill's own defaults apply.
    ChildSkillLoopback,
}

/// A gateway-internal, non-streamed skill request carrying one user
/// message.
#[derive(Debug, Clone)]
pub struct LoopbackSkillRequest {
    /// The content of the single user message.
    pub query: String,
    pub max_tokens: Option<u32>,
    /// Whether the request pins the temperature to 0.
    pub zero_temperature: bool,
    /// The `skill_trace` number sent.
    pub skill_trace: u8,
}

/// The loopback request asking `query` at trace level `skill_trace`.
pub fn build_skill_chat_request(
    query: &str,
    skill_trace: SkillTraceLevel,
    profile: InternalSkillRequestProfile,
) -> (r: LoopbackSkillRequest)
    ensures
        r.query@ == query@,
        r.skill_trace == level_number(skill_trace),
        profile == InternalSkillRequestProfile::McpToolLoopback ==> r.max_tokens == Some(5000u32)
            && r.zero_temperature,
        profile == InternalSkillRequestProfile::ChildSkillLoopback ==> r.max_tokens is None
            && !r.zero_temperature,
{
    match profile {
        InternalSkillRequestProfile::McpToolLoopback => LoopbackSkillRequest {
            query: to_string(query),
            max_tokens: Some(5000),
            zero_temperature: true,
            skill_trace: skill_trace.as_u8(),
        },
        InternalSkillRequestProfile::ChildSkillLoopback => LoopbackSkillRequest {
            query: to_string(query),
            max_tokens: None,
            zero_temperature: false,
            skill_trace: skill_trace.as_u8(),
        },
    }
}

// ---------------------------------------------------------------------------
// Small helpers of the chain
// ---------------------------------------------------------------------------

/// A request is a chain child only when its child header is exactly `1`.
pub fn extract_is_child_request(header_value: Option<&str>) -> (b: bool)
    ensures
        b == (opt_str_view(header_value) == Some("1"@)),
{
    match header_value {
        Some(v) => str_eq(v, "1"),
        None => false,
    }
}

/// A trace text, or `-` when absent.
pub fn summarize_trace_text(value: Option<&str>) -> (r: String)
    ensures
        r@ == match value {
            Some(t) => t@,
            None => "-"@,
        },
{
    match value {
        Some(t) => to_string(t),
        None => to_string("-"),
    }
}

/// A child tool error always starts with `Error: `.
pub open spec fn child_tool_error(m: Seq<char>) -> Seq<char> {
    if has_prefix(m, "Error: "@) {
        m
    } else {
        "Error: "@ + m
    }
}

/// Prefixes `message` with `Error: ` unless it already starts so.
pub fn format_child_tool_error(message: &str) -> (r: String)
    ensures
        r@ == child_tool_error(message@),
{
    let m = chars_of(message);
    let p = chars_of("Error: ");
    if crate::text::starts_with(&m, &p) {
        to_string(message)
    } else {
        let mut out = to_string("Error: ");
        push_str(&mut out, message);
        out
    }
}

// ---------------------------------------------------------------------------
// Skill endpoint ids and tool arguments
// ---------------------------------------------------------------------------

/// The refusal of a malformed skill endpoint id.
pub open spec fn invalid_skillep_message(id: Seq<char>) -> Seq<char> {
    "Error: invalid skillep_id '"@ + id
        + "'. Expected format: owner_tenant/namespace/skillname. Do not retry with the same value."@
}

/// `owner_tenant/namespace/skillname`: exactly three non-empty `/`-pieces.
pub open spec fn skillep_parts(id: Seq<char>) -> Option<(Seq<char>, Seq<char>, Seq<char>)> {
    let p = split_on(id, '/');
    if p.len() == 3 && p[0].len() > 0 && p[1].len() > 0 && p[2].len() > 0 {
        Some((p[0], p[1], p[2]))
    } else {
        None
    }
}

/// Splits a skill endpoint id into owner tenant, namespace and skill name;
/// anything but three non-empty `/`-separated pieces is refused.
pub fn split_skillep_id(skillep_id: &str) -> (r: Result<(String, String, String), String>)
    ensures
        match r {
            Ok((t, n, k)) => skillep_parts(skillep_id@) == Some((t@, n@, k@)) && t@ + "/"@ + n@ + "/"@
                + k@ == skillep_id@,
            Err(e) => skillep_parts(skillep_id@) is None && e@ == invalid_skillep_message(
                skillep_id@,
            ),
        },
{
    let parts = split_char(skillep_id, '/');
    proof {
        lemma_split_on_nonempty(skillep_id@, '/');
        crate::text::lemma_split_join(skillep_id@, '/');
        reveal_strlit("/");
        let p = split_on(skillep_id@, '/');
        if p.len() == 3 {
            let p1 = p.drop_last();
            let p0 = p1.drop_last();
            assert(p0 =~= seq![p[0]]);
            assert(crate::text::join_on(p0, '/') == p[0]);
            assert(p1.last() == p[1]);
            assert(crate::text::join_on(p1, '/') == p[0].push('/') + p[1]);
            assert(crate::text::join_on(p, '/') == (p[0].push('/') + p[1]).push('/') + p[2]);
            assert("/"@ =~= seq!['/']);
            assert((p[0].push('/') + p[1]).push('/') + p[2] =~= p[0] + "/"@ + p[1] + "/"@ + p[2]);
        }
    }
    let ghost ps = views(parts@);
    if parts.len() == 3 && !parts[0].as_str().is_empty() && !parts[1].as_str().is_empty()
        && !parts[2].as_str().is_empty() {
        assert(ps[0] == parts@[0]@ && ps[1] == parts@[1]@ && ps[2] == parts@[2]@);
        Ok((parts[0].clone(), parts[1].clone(), parts[2].clone()))
    } else {
        let mut e = to_string("Error: invalid skillep_id '");
        push_str(&mut e, skillep_id);
        push_str(
            &mut e,
            "'. Expected format: owner_tenant/namespace/skillname. Do not retry with the same value.",
        );
        Err(e)
    }
}

/// What `serde_json` gives for `text` parsed as JSON and then the string
/// field `key` read: `None` when `text` is not JSON, `Some(None)` when the
/// field is missing or not a string.
pub uninterp spec fn json_str_field_spec(text: Seq<char>, key: Seq<char>) -> Option<Option<Seq<char>>>;

/// Parses `text` with `serde_json::from_str` as a JSON value and reads its
/// string field `key` (`Value::get` then `Value::as_str`). Trusted: the result
/// is stated only as a function of `text` and `key`.
#[verifier::external_body]
fn json_str_field(text: &str, key: &str) -> (r: Option<Option<String>>)
    ensures
        match r {
            None => json_str_field_spec(text@, key@) is None,
            Some(f) => json_str_field_spec(text@, key@) == Some(opt_view(f)),
        },
{
    match serde_json::from_str::<serde_json::Value>(text) {
        Ok(v) => Some(v.get(key).and_then(|x| x.as_str()).map(|x| x.to_string())),
        Err(_) => None,
    }
}

/// The refusal of a missing or blank `skillep_id` argument.
pub open spec fn missing_skillep_message() -> Seq<char> {
    "Error: missing or empty skillep_id. Expected format: owner_tenant/namespace/skillname."@
}

/// The outcome of reading the `call_skillep` arguments from the JSON texts'
/// fields: the trimmed, non-empty `skillep_id` and the `query`.
pub open spec fn tool_args_spec(
    id_field: Option<Option<Seq<char>>>,
    query_field: Option<Option<Seq<char>>>,
) -> Result<(Seq<char>, Seq<char>), Seq<char>> {
    match id_field {
        None => Err("Error: invalid tool arguments"@),
        Some(id) => {
            let t = match id {
                Some(x) => trim(x),
                None => Seq::empty(),
            };
            if t.len() == 0 {
                Err(missing_skillep_message())
            } else {
                match query_field {
                    Some(Some(q)) => Ok((t, q)),
                    _ => Err("Error: invalid tool arguments"@),
                }
            }
        },
    }
}

/// A pair of strings by view.
pub open spec fn pair_result_view(r: Result<(String, String), String>) -> Result<
    (Seq<char>, Seq<char>),
    Seq<char>,
> {
    match r {
        Ok((a, b)) => Ok((a@, b@)),
        Err(e) => Err(e@),
    }
}

/// Reads `skillep_id` and `query` from the stringified JSON arguments of a
/// `call_skillep` tool call.
pub fn parse_skillep_tool_args(arguments: &str) -> (r: Result<(String, String), String>)
    ensures
        pair_result_view(r) == tool_args_spec(
            json_str_field_spec(arguments@, "skillep_id"@),
            json_str_field_spec(arguments@, "query"@),
        ),
{
    let id_field = json_str_field(arguments, "skillep_id");
    let query_field = json_str_field(arguments, "query");
    tool_args_from_fields(id_field, query_field)
}

/// A parsed string field by view.
pub open spec fn field_view(f: Option<Option<String>>) -> Option<Option<Seq<char>>> {
    match f {
        Some(x) => Some(opt_view(x)),
        None => None,
    }
}

/// Reads `skillep_id` and `query` from the string fields that parsing the
/// tool arguments gave (`None`: the arguments are not JSON; `Some(None)`:
/// the field is missing or not a string).
pub fn tool_args_from_fields(id: Option<Option<String>>, query: Option<Option<String>>) -> (r: Result<
    (String, String),
    String,
>)
    ensures
        pair_result_view(r) == tool_args_spec(field_view(id), field_view(query)),
{
    match id {
        None => Err(to_string("Error: invalid tool arguments")),
        Some(id) => {
            let t = match id {
                Some(x) => trim_str(x.as_str()),
                None => String::new(),
            };
            if t.as_str().is_empty() {
                return Err(
                    to_string(
                        "Error: missing or empty skillep_id. Expected format: owner_tenant/namespace/skillname.",
                    ),
                );
            }
            match query {
                Some(Some(q)) => Ok((t, q)),
                _ => Err(to_string("Error: invalid tool arguments")),
            }
        },
    }
}

// ---------------------------------------------------------------------------
// Request normalization
// ---------------------------------------------------------------------------

/// The `skill_trace` field of a skill request: absent, or present with the
/// value it holds as a non-negative integer (`None` for null, strings,
/// negative or fractional numbers and any other JSON value).
#[derive(Clone, Copy, Debug)]
pub enum SkillTraceField {
    Absent,
    Present(Option<u64>),
}

/// The shape of client-provided `tools`.
#[derive(Clone, Copy, Debug)]
pub enum ClientTools {
    Absent,
    /// A JSON array of the given length.
    Array(usize),
    /// Any other JSON value.
    NotArray,
}

/// What normalization reads of a skill chat-completions request.
#[derive(Debug)]
pub struct SkillCallWire {
    /// The conversation so far.
    pub messages: Vec<JsonValue>,
    pub max_tokens: Option<u64>,
    /// The `temperature` number as the client sent it.
    pub temperature: Option<JsonNumber>,
    pub skill_trace: SkillTraceField,
    pub tools: ClientTools,
    /// The entries of `mocks` when it is a JSON object: key and the value
    /// when it is a string.
    pub mocks: Vec<(String, Option<String>)>,
    /// The other top-level members of the body, passed through to the model.
    pub extra: Vec<(String, JsonValue)>,
}

/// The gateway-derived (trusted) facts about a skill invocation.
#[derive(Clone, Debug)]
pub struct SkillCallTrust {
    /// The child header was exactly `1`.
    pub is_child_request: bool,
    /// The parsed chain-depth header of a child request.
    pub child_chain_depth: Option<u32>,
    pub is_debug_authorized: bool,
    /// The skill endpoints this skill may call, when it is restricted.
    pub allowed_child_skilleps: Option<Vec<String>>,
}

/// A refused skill call.
#[derive(Debug)]
pub enum NormalizationError {
    /// Answer with this HTTP status and message.
    Http(u16, String),
    /// Answer 200 with a completion-shaped error (invalid child depth).
    CompletionError,
}

/// The fields of every model turn of a chain; the messages are attached
/// per turn.
#[derive(Debug)]
pub struct SkillModelRequestTemplate {
    pub max_tokens: Option<u64>,
    pub temperature: Option<JsonNumber>,
    /// Always `false`: chain turns are not streamed.
    pub stream: bool,
    /// The effective trace level when the client sent one, nothing when it
    /// was absent.
    pub skill_trace: Option<u8>,
    /// The `call_skillep` tool offered to the model; `NoTools` leaves the
    /// field out.
    pub tools: SkillChainTools,
    /// Always `None`: a client `tool_choice` never reaches the model.
    pub tool_choice: Option<JsonValue>,
    pub extra: Vec<(String, JsonValue)>,
}

/// The model-turn template and the message history of a chain.
#[derive(Debug)]
pub struct PreparedSkillChainBody {
    pub template: SkillModelRequestTemplate,
    pub history: Vec<JsonValue>,
}

/// A validated skill call.
#[derive(Debug)]
pub struct NormalizedSkillCall {
    pub prepared_body: PreparedSkillChainBody,
    pub effective_trace: SkillTraceLevel,
    pub response_mode: SkillResponseMode,
    pub current_depth: u32,
    /// The string-valued mocks, by skill endpoint id.
    pub debug_mocks: Vec<(String, String)>,
}

/// The refusal of an invalid `skill_trace`.
pub open spec fn invalid_trace_message() -> Seq<char> {
    "service failure: invalid skill_trace value"@
}

/// The effective trace level, or `None` when the field is invalid.
pub open spec fn trace_level_spec(f: SkillTraceField) -> Option<SkillTraceLevel> {
    match f {
        SkillTraceField::Absent => Some(SkillTraceLevel::Off),
        SkillTraceField::Present(Some(0)) => Some(SkillTraceLevel::Off),
        SkillTraceField::Present(Some(1)) => Some(SkillTraceLevel::Basic),
        SkillTraceField::Present(Some(2)) => Some(SkillTraceLevel::Verbose),
        SkillTraceField::Present(_) => None,
    }
}

/// The outcome of normalization, errors by status and message:
/// `Err(None)` is the completion-shaped error.
pub open spec fn normalize_spec(w: SkillTraceField, tools: ClientTools, t: SkillCallTrust) -> Result<
    (SkillTraceLevel, u32),
    Option<(u16, Seq<char>)>,
> {
    match trace_level_spec(w) {
        None => Err(Some((400u16, invalid_trace_message()))),
        Some(level) => if level == SkillTraceLevel::Verbose && !t.is_child_request
            && !t.is_debug_authorized {
            Err(Some((403u16, "service failure: verbose trace requires debug privilege"@)))
        } else if t.is_child_request && (t.child_chain_depth is None || t.child_chain_depth
            == Some(0u32)) {
            Err(None)
        } else if !t.is_child_request && (tools matches ClientTools::Array(n) && n > 0) {
            Err(Some((400u16, "skill endpoint does not accept client-provided tools"@)))
        } else if !t.is_child_request && tools is NotArray {
            Err(Some((400u16, "service failure: invalid request body"@)))
        } else {
            Ok(
                (
                    level,
                    if t.is_child_request {
                        t.child_chain_depth->0
                    } else {
                        1u32
                    },
                ),
            )
        },
    }
}

/// The response mode of a trace level: SSE whenever tracing is on.
pub open spec fn mode_of(l: SkillTraceLevel) -> SkillResponseMode {
    if l == SkillTraceLevel::Off {
        SkillResponseMode::Normal
    } else {
        SkillResponseMode::SseTrace
    }
}

/// The string-valued entries of `mocks`, in order.
pub open spec fn string_mocks(mocks: Seq<(String, Option<String>)>) -> Seq<(Seq<char>, Seq<char>)>
    decreases mocks.len(),
{
    if mocks.len() == 0 {
        Seq::empty()
    } else {
        let rest = string_mocks(mocks.drop_last());
        match mocks.last().1 {
            Some(v) => rest.push((mocks.last().0@, v@)),
            None => rest,
        }
    }
}

/// Key/value pairs by view.
pub open spec fn pairs_view(v: Seq<(String, String)>) -> Seq<(Seq<char>, Seq<char>)> {
    v.map_values(|p: (String, String)| (p.0@, p.1@))
}

fn keep_string_mocks(mocks: &Vec<(String, Option<String>)>) -> (r: Vec<(String, String)>)
    ensures
        pairs_view(r@) == string_mocks(mocks@),
{
    let mut out: Vec<(String, String)> = Vec::new();
    let mut i: usize = 0;
    while i < mocks.len()
        invariant
            i <= mocks@.len(),
            pairs_view(out@) == string_mocks(mocks@.take(i as int)),
        decreases mocks@.len() - i,
    {
        assert(mocks@.take(i + 1).drop_last() == mocks@.take(i as int));
        assert(mocks@.take(i + 1).last() == mocks@[i as int]);
        match &mocks[i].1 {
            Some(v) => {
                let ghost before = pairs_view(out@);
                out.push((mocks[i].0.clone(), v.clone()));
                assert(pairs_view(out@) =~= before.push((mocks@[i as int].0@, v@)));
            },
            None => {},
        }
        i += 1;
    }
    assert(mocks@.take(mocks@.len() as int) == mocks@);
    out
}

/// Validates a skill call against its trusted context:
/// - `skill_trace`: absent or 0 is off, 1 basic, 2 verbose; anything else
///   is refused with 400;
/// - verbose tracing on a root request needs debug privilege (else 403);
/// - a child request needs a positive chain depth (else the completion-shaped
///   error); a root request has depth 1;
/// - a root request may not bring tools: a non-empty array gives 400, a
///   non-array gives 400 (invalid request body);
/// - the string-valued mocks are kept;
/// - the model-turn template carries `max_tokens`, `temperature`, the traced
///   level and the other fields, is never streamed, drops any client
///   `tool_choice` and offers the `call_skillep` tool for the allowed child
///   skill endpoints; the messages are kept as the history.
pub fn normalize_skill_call(wire: SkillCallWire, ctx: &SkillCallTrust) -> (r: Result<
    NormalizedSkillCall,
    NormalizationError,
>)
    ensures
        match r {
            Ok(n) => {
                &&& normalize_spec(wire.skill_trace, wire.tools, *ctx) == Ok::<
                    (SkillTraceLevel, u32),
                    Option<(u16, Seq<char>)>,
                >((n.effective_trace, n.current_depth))
                &&& n.response_mode == mode_of(n.effective_trace)
                &&& n.prepared_body.template.skill_trace == (if wire.skill_trace is Absent {
                    None
                } else {
                    Some(level_number(n.effective_trace))
                })
                &&& n.prepared_body.template.stream == false
                &&& n.prepared_body.template.tool_choice is None
                &&& tool_plan_spec(opt_seq(ctx.allowed_child_skilleps), n.prepared_body.template.tools)
                &&& n.prepared_body.template.max_tokens == wire.max_tokens
                &&& n.prepared_body.template.temperature == wire.temperature
                &&& n.prepared_body.template.extra@ == wire.extra@
                &&& n.prepared_body.history@ == wire.messages@
                &&& pairs_view(n.debug_mocks@) == string_mocks(wire.mocks@)
            },
            Err(NormalizationError::Http(code, m)) => normalize_spec(
                wire.skill_trace,
                wire.tools,
                *ctx,
            ) == Err::<(SkillTraceLevel, u32), Option<(u16, Seq<char>)>>(Some((code, m@))),
            Err(NormalizationError::CompletionError) => normalize_spec(
                wire.skill_trace,
                wire.tools,
                *ctx,
            ) == Err::<(SkillTraceLevel, u32), Option<(u16, Seq<char>)>>(None),
        },
{
    let effective_trace = match wire.skill_trace {
        SkillTraceField::Absent => SkillTraceLevel::Off,
        SkillTraceField::Present(Some(0)) => SkillTraceLevel::Off,
        SkillTraceField::Present(Some(1)) => SkillTraceLevel::Basic,
        SkillTraceField::Present(Some(2)) => SkillTraceLevel::Verbose,
        SkillTraceField::Present(_) => {
            return Err(
                NormalizationError::Http(400, to_string("service failure: invalid skill_trace value")),
            );
        },
    };
    if effective_trace == SkillTraceLevel::Verbose && !ctx.is_child_request
        && !ctx.is_debug_authorized {
        return Err(
            NormalizationError::Http(
                403,
                to_string("service failure: verbose trace requires debug privilege"),
            ),
        );
    }
    let current_depth: u32 = if ctx.is_child_request {
        match ctx.child_chain_depth {
            None => {
                return Err(NormalizationError::CompletionError);
            },
            Some(d) => {
                if d == 0 {
                    return Err(NormalizationError::CompletionError);
                }
                d
            },
        }
    } else {
        1
    };
    if !ctx.is_child_request {
        match wire.tools {
            ClientTools::Array(n) => {
                if n > 0 {
                    return Err(
                        NormalizationError::Http(
                            400,
                            to_string("skill endpoint does not accept client-provided tools"),
                        ),
                    );
                }
            },
            ClientTools::Absent => {},
            ClientTools::NotArray => {
                return Err(
                    NormalizationError::Http(400, to_string("service failure: invalid request body")),
                );
            },
        }
    }
    let debug_mocks = keep_string_mocks(&wire.mocks);
    let response_mode = match effective_trace {
        SkillTraceLevel::Off => SkillResponseMode::Normal,
        _ => SkillResponseMode::SseTrace,
    };
    let template_skill_trace = match wire.skill_trace {
        SkillTraceField::Absent => None,
        _ => Some(effective_trace.as_u8()),
    };
    let tools = skill_chain_tool_plan(
        match &ctx.allowed_child_skilleps {
            Some(a) => Some(a),
            None => None,
        },
    );
    let template = SkillModelRequestTemplate {
        max_tokens: wire.max_tokens,
        temperature: wire.temperature,
        stream: false,
        skill_trace: template_skill_trace,
        tools,
        tool_choice: None,
        extra: wire.extra,
    };
    Ok(
        NormalizedSkillCall {
            prepared_body: PreparedSkillChainBody { template, history: wire.messages },
            effective_trace,
            response_mode,
            current_depth,
            debug_mocks,
        },
    )
}

// ---------------------------------------------------------------------------
// Child calls
// ---------------------------------------------------------------------------

/// What `String::from_utf8_lossy` returns for `bytes`.
pub uninterp spec fn lossy_utf8(bytes: Seq<u8>) -> Seq<char>;

/// `String::from_utf8_lossy` (std). Trusted: the result is a function of the
/// bytes, and equals their decoding when they are valid UTF-8 (what the
/// documentation promises); how invalid sequences are replaced is not stated.
#[verifier::external_body]
pub(crate) fn utf8_lossy(bytes: &[u8]) -> (r: String)
    ensures
        r@ == lossy_utf8(bytes@),
        vstd::utf8::valid_utf8(bytes@) ==> r@ == vstd::utf8::decode_utf8(bytes@),
{
    String::from_utf8_lossy(bytes).into_owned()
}

/// The result of one child tool call, with the position of its tool call in
/// the model response.
#[derive(Debug)]
pub struct ParallelChildResult {
    pub original_index: usize,
    pub tool_call_id: String,
    pub tool_result: String,
    pub fail_reason: Option<SkillTraceFailReason>,
    pub usage: Option<SkillTraceTokenUsage>,
}

/// A child result by view.
pub open spec fn child_view(r: ParallelChildResult) -> (
    usize,
    Seq<char>,
    Seq<char>,
    Option<SkillTraceFailReason>,
    Option<SkillTraceTokenUsage>,
) {
    (r.original_index, r.tool_call_id@, r.tool_result@, r.fail_reason, r.usage)
}

/// Child results by view.
pub open spec fn children_view(rs: Seq<ParallelChildResult>) -> Seq<
    (usize, Seq<char>, Seq<char>, Option<SkillTraceFailReason>, Option<SkillTraceTokenUsage>),
> {
    rs.map_values(|r: ParallelChildResult| child_view(r))
}

/// The usage a child result reports.
pub fn child_result_usage(result: &ParallelChildResult) -> (r: Option<SkillTraceTokenUsage>)
    ensures
        r == result.usage,
{
    result.usage
}

fn clone_child_result(r: &ParallelChildResult) -> (c: ParallelChildResult)
    ensures
        child_view(c) == child_view(*r),
{
    ParallelChildResult {
        original_index: r.original_index,
        tool_call_id: r.tool_call_id.clone(),
        tool_result: r.tool_result.clone(),
        fail_reason: r.fail_reason,
        usage: r.usage,
    }
}

/// The view of the last result in `vs` for tool call `k`.
pub open spec fn last_for_index<T>(vs: Seq<(usize, T, T, Option<SkillTraceFailReason>, Option<SkillTraceTokenUsage>)>, k: int) -> Option<
    (usize, T, T, Option<SkillTraceFailReason>, Option<SkillTraceTokenUsage>),
>
    decreases vs.len(),
{
    if vs.len() == 0 {
        None
    } else if vs.last().0 == k {
        Some(vs.last())
    } else {
        last_for_index(vs.drop_last(), k)
    }
}

/// One past the largest tool-call position in `vs` (0 when empty).
pub open spec fn index_bound<T>(vs: Seq<(usize, T, T, Option<SkillTraceFailReason>, Option<SkillTraceTokenUsage>)>) -> nat
    decreases vs.len(),
{
    if vs.len() == 0 {
        0
    } else {
        let b = index_bound(vs.drop_last());
        if vs.last().0 + 1 > b {
            (vs.last().0 + 1) as nat
        } else {
            b
        }
    }
}

/// The committed results for positions `0..n`: for each position that has
/// a result, the last one that arrived for it, in position order.
pub open spec fn committed<T>(vs: Seq<(usize, T, T, Option<SkillTraceFailReason>, Option<SkillTraceTokenUsage>)>, n: nat) -> Seq<
    (usize, T, T, Option<SkillTraceFailReason>, Option<SkillTraceTokenUsage>),
>
    decreases n,
{
    if n == 0 {
        Seq::empty()
    } else {
        let prev = committed(vs, (n - 1) as nat);
        match last_for_index(vs, n - 1) {
            Some(x) => prev.push(x),
            None => prev,
        }
    }
}

/// A found result carries the position it was looked up by.
pub proof fn lemma_last_for_index<T>(vs: Seq<(usize, T, T, Option<SkillTraceFailReason>, Option<SkillTraceTokenUsage>)>, k: int)
    ensures
        last_for_index(vs, k) matches Some(x) ==> x.0 == k && vs.contains(x),
    decreases vs.len(),
{
    if vs.len() > 0 {
        lemma_last_for_index(vs.drop_last(), k);
        if vs.last().0 != k {
            if let Some(x) = last_for_index(vs.drop_last(), k) {
                let i = choose|i: int| 0 <= i < vs.drop_last().len() && vs.drop_last()[i] == x;
                assert(vs[i] == x);
            }
        } else {
            assert(vs[vs.len() - 1] == vs.last());
        }
    }
}

/// Results committed in order are strictly increasing by position and
/// each stands below the bound.
pub proof fn lemma_committed_ordered<T>(vs: Seq<(usize, T, T, Option<SkillTraceFailReason>, Option<SkillTraceTokenUsage>)>, n: nat)
    ensures
        forall|a: int, b: int|
            0 <= a < b < committed(vs, n).len() ==> (#[trigger] committed(vs, n)[a]).0 < (
            #[trigger] committed(vs, n)[b]).0,
        forall|a: int| 0 <= a < committed(vs, n).len() ==> (#[trigger] committed(vs, n)[a]).0 < n,
    decreases n,
{
    if n > 0 {
        lemma_committed_ordered(vs, (n - 1) as nat);
        lemma_last_for_index(vs, n - 1);
        let prev = committed(vs, (n - 1) as nat);
        let c = committed(vs, n);
        match last_for_index(vs, n - 1) {
            Some(x) => {
                assert(c == prev.push(x));
                assert forall|a: int| 0 <= a < c.len() implies (#[trigger] c[a]).0 < n by {
                    if a < prev.len() {
                        assert(c[a] == prev[a]);
                    }
                }
                assert forall|a: int, b: int| 0 <= a < b < c.len() implies (#[trigger] c[a]).0 < (
                #[trigger] c[b]).0 by {
                    assert(c[a] == prev[a]);
                    if b < prev.len() {
                        assert(c[b] == prev[b]);
                    }
                }
            },
            None => {
                assert(c == prev);
            },
        }
    }
}

fn last_result_at(results: &Vec<ParallelChildResult>, k: usize) -> (r: Option<usize>)
    ensures
        match r {
            Some(j) => j < results@.len() && last_for_index(children_view(results@), k as int)
                == Some(child_view(results@[j as int])),
            None => last_for_index(children_view(results@), k as int) is None,
        },
{
    let ghost vs = children_view(results@);
    let mut j: usize = results.len();
    assert(vs.take(j as int) == vs);
    while j > 0
        invariant
            j <= results@.len(),
            vs == children_view(results@),
            last_for_index(vs, k as int) == last_for_index(vs.take(j as int), k as int),
        decreases j,
    {
        let ghost t = vs.take(j as int);
        assert(t.drop_last() == vs.take(j - 1));
        assert(t.last() == child_view(results@[j - 1]));
        if results[j - 1].original_index == k {
            return Some(j - 1);
        }
        j -= 1;
    }
    None
}

/// Commits child results in tool-call order whatever order they finished
/// in: for each position, the last result reported for it.
pub fn commit_in_original_order(results: &Vec<ParallelChildResult>) -> (r: Vec<ParallelChildResult>)
    requires
        forall|i: int| 0 <= i < results@.len() ==> (#[trigger] results@[i]).original_index < usize::MAX,
    ensures
        children_view(r@) == committed(
            children_view(results@),
            index_bound(children_view(results@)),
        ),
{
    let ghost vs = children_view(results@);
    let mut bound: usize = 0;
    let mut i: usize = 0;
    while i < results.len()
        invariant
            i <= results@.len(),
            vs == children_view(results@),
            forall|q: int| 0 <= q < results@.len() ==> (#[trigger] results@[q]).original_index < usize::MAX,
            bound == index_bound(vs.take(i as int)),
        decreases results@.len() - i,
    {
        assert(vs.take(i + 1).drop_last() == vs.take(i as int));
        assert(vs.take(i + 1).last() == child_view(results@[i as int]));
        let next = results[i].original_index + 1;
        if next > bound {
            bound = next;
        }
        i += 1;
    }
    assert(vs.take(vs.len() as int) == vs);
    let mut out: Vec<ParallelChildResult> = Vec::new();
    let mut k: usize = 0;
    while k < bound
        invariant
            k <= bound,
            vs == children_view(results@),
            bound == index_bound(vs),
            children_view(out@) == committed(vs, k as nat),
        decreases bound - k,
    {
        let ghost before = children_view(out@);
        match last_result_at(results, k) {
            Some(j) => {
                let c = clone_child_result(&results[j]);
                out.push(c);
                assert(children_view(out@) =~= before.push(child_view(results@[j as int])));
            },
            None => {},
        }
        k += 1;
    }
    out
}

/// What to do with one `call_skillep` tool call.
#[derive(Debug)]
pub enum ChildCallPlan {
    /// Answer the tool call at once with this error (no trace failure).
    Refused { tool_result: String },
    /// A debug mock answers for the child.
    Mocked { skillep_id: String, query: String, result: String },
    /// The chain is already at its maximum depth.
    MaxDepth,
    /// Call the child skill endpoint.
    Call {
        skillep_id: String,
        query: String,
        owner_tenant: String,
        namespace: String,
        skillname: String,
        next_depth: u32,
        child_trace: SkillTraceLevel,
        url: String,
    },
}

/// A child-call plan by view.
pub enum ChildPlanSpec {
    Refused(Seq<char>),
    Mocked(Seq<char>, Seq<char>, Seq<char>),
    MaxDepth,
    Call(Seq<char>, Seq<char>, Seq<char>, Seq<char>, Seq<char>, u32, SkillTraceLevel, Seq<char>),
}

/// The view of a plan.
pub open spec fn plan_view(p: ChildCallPlan) -> ChildPlanSpec {
    match p {
        ChildCallPlan::Refused { tool_result } => ChildPlanSpec::Refused(tool_result@),
        ChildCallPlan::Mocked { skillep_id, query, result } => ChildPlanSpec::Mocked(
            skillep_id@,
            query@,
            result@,
        ),
        ChildCallPlan::MaxDepth => ChildPlanSpec::MaxDepth,
        ChildCallPlan::Call {
            skillep_id,
            query,
            owner_tenant,
            namespace,
            skillname,
            next_depth,
            child_trace,
            url,
        } => ChildPlanSpec::Call(
            skillep_id@,
            query@,
            owner_tenant@,
            namespace@,
            skillname@,
            next_depth,
            child_trace,
            url@,
        ),
    }
}

/// The first mock answer for `id`.
pub open spec fn mock_lookup(mocks: Seq<(Seq<char>, Seq<char>)>, id: Seq<char>) -> Option<Seq<char>>
    decreases mocks.len(),
{
    if mocks.len() == 0 {
        None
    } else if mocks[0].0 == id {
        Some(mocks[0].1)
    } else {
        mock_lookup(mocks.drop_first(), id)
    }
}

/// The loopback URL of a child skill endpoint.
pub open spec fn child_url_spec(port: u16, t: Seq<char>, n: Seq<char>, k: Seq<char>) -> Seq<char> {
    "http://127.0.0.1:"@ + decimal(port as nat) + "/skills/"@ + t + "/"@ + n + "/"@ + k
        + "/v1/chat/completions"@
}

/// The trace level asked of a child: verbose when the chain's trace includes
/// content, basic when it traces without content, off when untraced.
pub open spec fn child_trace_spec(trace: Option<bool>) -> SkillTraceLevel {
    match trace {
        None => SkillTraceLevel::Off,
        Some(true) => SkillTraceLevel::Verbose,
        Some(false) => SkillTraceLevel::Basic,
    }
}

/// The plan for a tool call whose arguments read as `args`.
pub open spec fn child_plan_spec(
    args: Result<(Seq<char>, Seq<char>), Seq<char>>,
    allowed: Option<Seq<Seq<char>>>,
    mocks: Seq<(Seq<char>, Seq<char>)>,
    current_depth: u32,
    trace: Option<bool>,
    port: u16,
) -> ChildPlanSpec {
    match args {
        Err(e) => ChildPlanSpec::Refused(e),
        Ok((id, q)) => match skillep_parts(id) {
            None => ChildPlanSpec::Refused(invalid_skillep_message(id)),
            Some((t, n, k)) => if allowed matches Some(a) && !a.contains(id) {
                ChildPlanSpec::Refused("Error: skill endpoint not in allowed list"@)
            } else {
                match mock_lookup(mocks, id) {
                    Some(m) => ChildPlanSpec::Mocked(id, q, m),
                    None => if current_depth + 1 <= SKILL_CHAIN_MAX_DEPTH {
                        ChildPlanSpec::Call(
                            id,
                            q,
                            t,
                            n,
                            k,
                            (current_depth + 1) as u32,
                            child_trace_spec(trace),
                            child_url_spec(port, t, n, k),
                        )
                    } else {
                        ChildPlanSpec::MaxDepth
                    },
                }
            },
        },
    }
}

/// Strings by view.
pub open spec fn strings_view(v: Seq<String>) -> Seq<Seq<char>> {
    v.map_values(|s: String| s@)
}

fn contains_string(v: &Vec<String>, x: &str) -> (b: bool)
    ensures
        b == strings_view(v@).contains(x@),
{
    let mut i: usize = 0;
    while i < v.len()
        invariant
            i <= v@.len(),
            forall|q: int| 0 <= q < i ==> strings_view(v@)[q] != x@,
        decreases v@.len() - i,
    {
        if str_eq(v[i].as_str(), x) {
            assert(strings_view(v@)[i as int] == x@);
            return true;
        }
        i += 1;
    }
    false
}

fn find_mock(mocks: &Vec<(String, String)>, id: &str) -> (r: Option<String>)
    ensures
        opt_view(r) == mock_lookup(pairs_view(mocks@), id@),
{
    let ghost pv = pairs_view(mocks@);
    let mut i: usize = 0;
    assert(pv.skip(0) == pv);
    while i < mocks.len()
        invariant
            i <= mocks@.len(),
            pv == pairs_view(mocks@),
            mock_lookup(pv, id@) == mock_lookup(pv.skip(i as int), id@),
        decreases mocks@.len() - i,
    {
        assert(pv.skip(i as int).drop_first() == pv.skip(i + 1));
        if str_eq(mocks[i].0.as_str(), id) {
            return Some(mocks[i].1.clone());
        }
        i += 1;
    }
    None
}

/// The loopback URL of a child skill endpoint.
pub fn child_url(port: u16, t: &str, n: &str, k: &str) -> (r: String)
    ensures
        r@ == child_url_spec(port, t@, n@, k@),
{
    let mut out = to_string("http://127.0.0.1:");
    let p = u64_decimal(port as u64);
    push_str(&mut out, p.as_str());
    push_str(&mut out, "/skills/");
    push_str(&mut out, t);
    push_str(&mut out, "/");
    push_str(&mut out, n);
    push_str(&mut out, "/");
    push_str(&mut out, k);
    push_str(&mut out, "/v1/chat/completions");
    out
}

/// Decides a `call_skillep` tool call: refused for unreadable arguments, a
/// malformed id or an id outside the allow-list; answered by a debug mock
/// when one exists; refused at the maximum chain depth; else a child call
/// one level deeper, at the trace level the chain asks for. `trace` is
/// `Some(include_content)` when the chain is traced.
pub fn plan_child_call(
    arguments: &str,
    allowed: Option<&Vec<String>>,
    mocks: &Vec<(String, String)>,
    current_depth: u32,
    trace: Option<bool>,
    gateway_port: u16,
) -> (r: ChildCallPlan)
    ensures
        plan_view(r) == child_plan_spec(
            tool_args_spec(
                json_str_field_spec(arguments@, "skillep_id"@),
                json_str_field_spec(arguments@, "query"@),
            ),
            match allowed {
                Some(a) => Some(strings_view(a@)),
                None => None,
            },
            pairs_view(mocks@),
            current_depth,
            trace,
            gateway_port,
        ),
{
    let args = parse_skillep_tool_args(arguments);
    plan_child_call_from_args(args, allowed, mocks, current_depth, trace, gateway_port)
}

/// Decides a `call_skillep` tool call from its parsed arguments (see
/// [`plan_child_call`]).
pub fn plan_child_call_from_args(
    args: Result<(String, String), String>,
    allowed: Option<&Vec<String>>,
    mocks: &Vec<(String, String)>,
    current_depth: u32,
    trace: Option<bool>,
    gateway_port: u16,
) -> (r: ChildCallPlan)
    ensures
        plan_view(r) == child_plan_spec(
            pair_result_view(args),
            match allowed {
                Some(a) => Some(strings_view(a@)),
                None => None,
            },
            pairs_view(mocks@),
            current_depth,
            trace,
            gateway_port,
        ),
{
    let (skillep_id, query) = match args {
        Ok(p) => p,
        Err(e) => {
            return ChildCallPlan::Refused { tool_result: e };
        },
    };
    let (t, n, k) = match split_skillep_id(skillep_id.as_str()) {
        Ok(p) => p,
        Err(e) => {
            return ChildCallPlan::Refused { tool_result: e };
        },
    };
    match allowed {
        Some(a) => {
            if !contains_string(a, skillep_id.as_str()) {
                return ChildCallPlan::Refused {
                    tool_result: to_string("Error: skill endpoint not in allowed list"),
                };
            }
        },
        None => {},
    }
    match find_mock(mocks, skillep_id.as_str()) {
        Some(m) => {
            return ChildCallPlan::Mocked { skillep_id, query, result: m };
        },
        None => {},
    }
    match current_depth.checked_add(1) {
        Some(next_depth) => {
            if next_depth <= SKILL_CHAIN_MAX_DEPTH {
                let child_trace = match trace {
                    None => SkillTraceLevel::Off,
                    Some(true) => SkillTraceLevel::Verbose,
                    Some(false) => SkillTraceLevel::Basic,
                };
                let url = child_url(gateway_port, t.as_str(), n.as_str(), k.as_str());
                return ChildCallPlan::Call {
                    skillep_id,
                    query,
                    owner_tenant: t,
                    namespace: n,
                    skillname: k,
                    next_depth,
                    child_trace,
                    url,
                };
            }
            ChildCallPlan::MaxDepth
        },
        None => ChildCallPlan::MaxDepth,
    }
}

/// What the child's skill result read as.
#[derive(Debug)]
pub enum ChildSkillResult {
    /// The trace stream carried no `skill_result`.
    Missing,
    /// The result is not an OpenAI chat completion.
    Invalid,
    /// A chat completion: its final text and usage.
    Parsed { final_text: Option<String>, usage: Option<SkillTraceTokenUsage> },
}

/// How a child call ended.
#[derive(Debug)]
pub enum ChildCallOutcome {
    /// No HTTP response, or the trace stream broke.
    Transport { message: String, fail_reason: SkillTraceFailReason },
    /// A non-2xx response; `status_text` is the status as displayed.
    HttpError { status_text: String, body: Vec<u8>, terminal_usage: Option<SkillTraceTokenUsage> },
    /// A 2xx response and what its trace stream reported.
    Completed {
        open_descendants: usize,
        terminal_result_code: Option<String>,
        terminal_fail_reason: Option<SkillTraceFailReason>,
        terminal_usage: Option<SkillTraceTokenUsage>,
        skill_result: ChildSkillResult,
    },
}

/// The tool result, failure reason and usage of a finished child call.
pub open spec fn child_outcome_spec(o: ChildCallOutcome) -> (
    Seq<char>,
    Option<SkillTraceFailReason>,
    Option<SkillTraceTokenUsage>,
) {
    match o {
        ChildCallOutcome::Transport { message, fail_reason } => (
            child_tool_error(message@),
            Some(fail_reason),
            None,
        ),
        ChildCallOutcome::HttpError { status_text, body, terminal_usage } => {
            let detail = trim(lossy_utf8(body@));
            (
                if detail.len() == 0 {
                    child_tool_error("child call failed with "@ + status_text@)
                } else {
                    child_tool_error(detail)
                },
                Some(SkillTraceFailReason::TransportError),
                terminal_usage,
            )
        },
        ChildCallOutcome::Completed {
            open_descendants,
            terminal_result_code,
            terminal_fail_reason,
            terminal_usage,
            skill_result,
        } => if open_descendants > 0 {
            (
                "Error: child trace stream left open descendant calls"@,
                Some(SkillTraceFailReason::InvalidResponse),
                terminal_usage,
            )
        } else if opt_view(terminal_result_code) == Some("fail"@) {
            (child_fail_message(terminal_fail_reason), terminal_fail_reason, terminal_usage)
        } else {
            match skill_result {
                ChildSkillResult::Missing => (
                    "Error: child trace stream missing skill_result"@,
                    Some(SkillTraceFailReason::InvalidResponse),
                    terminal_usage,
                ),
                ChildSkillResult::Invalid => (
                    "Error: child returned invalid response"@,
                    Some(SkillTraceFailReason::InvalidResponse),
                    terminal_usage,
                ),
                ChildSkillResult::Parsed { final_text, usage } => match final_text {
                    Some(t) if t@.len() > 0 => (t@, None, usage),
                    _ => (
                        "Error: child returned empty response"@,
                        Some(SkillTraceFailReason::InvalidResponse),
                        usage,
                    ),
                },
            }
        },
    }
}

/// The tool result, failure reason and usage of a finished child call.
pub fn child_call_result(outcome: &ChildCallOutcome) -> (r: (
    String,
    Option<SkillTraceFailReason>,
    Option<SkillTraceTokenUsage>,
))
    ensures
        (r.0@, r.1, r.2) == child_outcome_spec(*outcome),
{
    match outcome {
        ChildCallOutcome::Transport { message, fail_reason } => (
            format_child_tool_error(message.as_str()),
            Some(*fail_reason),
            None,
        ),
        ChildCallOutcome::HttpError { status_text, body, terminal_usage } => {
            let text = utf8_lossy(body.as_slice());
            let detail = trim_str(text.as_str());
            let message = if detail.as_str().is_empty() {
                let mut m = to_string("child call failed with ");
                push_str(&mut m, status_text.as_str());
                format_child_tool_error(m.as_str())
            } else {
                format_child_tool_error(detail.as_str())
            };
            (message, Some(SkillTraceFailReason::TransportError), *terminal_usage)
        },
        ChildCallOutcome::Completed {
            open_descendants,
            terminal_result_code,
            terminal_fail_reason,
            terminal_usage,
            skill_result,
        } => {
            if *open_descendants > 0 {
                return (
                    to_string("Error: child trace stream left open descendant calls"),
                    Some(SkillTraceFailReason::InvalidResponse),
                    *terminal_usage,
                );
            }
            let failed = match terminal_result_code {
                Some(c) => str_eq(c.as_str(), "fail"),
                None => false,
            };
            if failed {
                return (
                    format_child_fail_reason(*terminal_fail_reason),
                    *terminal_fail_reason,
                    *terminal_usage,
                );
            }
            match skill_result {
                ChildSkillResult::Missing => (
                    to_string("Error: child trace stream missing skill_result"),
                    Some(SkillTraceFailReason::InvalidResponse),
                    *terminal_usage,
                ),
                ChildSkillResult::Invalid => (
                    to_string("Error: child returned invalid response"),
                    Some(SkillTraceFailReason::InvalidResponse),
                    *terminal_usage,
                ),
                ChildSkillResult::Parsed { final_text, usage } => match final_text {
                    Some(t) => {
                        if t.as_str().is_empty() {
                            (
                                to_string("Error: child returned empty response"),
                                Some(SkillTraceFailReason::InvalidResponse),
                                *usage,
                            )
                        } else {
                            (t.clone(), None, *usage)
                        }
                    },
                    None => (
                        to_string("Error: child returned empty response"),
                        Some(SkillTraceFailReason::InvalidResponse),
                        *usage,
                    ),
                },
            }
        },
    }
}

/// The result code of a finished call: `fail` when it has a failure
/// reason, else `pass`.
pub fn subcall_result_code(fail_reason: Option<SkillTraceFailReason>) -> (r: &'static str)
    ensures
        r@ == (if fail_reason is Some {
            "fail"@
        } else {
            "pass"@
        }),
{
    match fail_reason {
        Some(_) => "fail",
        None => "pass",
    }
}

// ---------------------------------------------------------------------------
// Forwarding a child's trace
// ---------------------------------------------------------------------------

/// A node of a child's trace that was forwarded into the parent's trace.
#[derive(Debug)]
pub struct ForwardedChildTraceNode {
    pub call_id: String,
    pub parent_call_id: Option<String>,
    pub depth: u32,
    pub skill: String,
}

/// A forwarded node by view.
pub open spec fn node_view(n: ForwardedChildTraceNode) -> (Seq<char>, Option<Seq<char>>, u32, Seq<char>) {
    (n.call_id@, opt_view(n.parent_call_id), n.depth, n.skill@)
}

/// Forwarded nodes by view.
pub open spec fn nodes_view(ns: Seq<ForwardedChildTraceNode>) -> Seq<
    (Seq<char>, Option<Seq<char>>, u32, Seq<char>),
> {
    ns.map_values(|n: ForwardedChildTraceNode| node_view(n))
}

fn clone_node(n: &ForwardedChildTraceNode) -> (r: ForwardedChildTraceNode)
    ensures
        node_view(r) == node_view(*n),
{
    ForwardedChildTraceNode {
        call_id: n.call_id.clone(),
        parent_call_id: clone_opt(&n.parent_call_id),
        depth: n.depth,
        skill: n.skill.clone(),
    }
}

/// Call ids are pairwise distinct.
pub open spec fn unique_calls(ns: Seq<(Seq<char>, Option<Seq<char>>, u32, Seq<char>)>) -> bool {
    forall|i: int, j: int| 0 <= i < ns.len() && 0 <= j < ns.len() && ns[i].0 == ns[j].0 ==> i == j
}

/// The open node with call id `id`, if any.
pub open spec fn open_node(ns: Seq<(Seq<char>, Option<Seq<char>>, u32, Seq<char>)>, id: Seq<char>) -> Option<
    (Seq<char>, Option<Seq<char>>, u32, Seq<char>),
> {
    if exists|i: int| 0 <= i < ns.len() && ns[i].0 == id {
        Some(ns[choose|i: int| 0 <= i < ns.len() && ns[i].0 == id])
    } else {
        None
    }
}

proof fn lemma_open_node_at(ns: Seq<(Seq<char>, Option<Seq<char>>, u32, Seq<char>)>, i: int)
    requires
        unique_calls(ns),
        0 <= i < ns.len(),
    ensures
        open_node(ns, ns[i].0) == Some(ns[i]),
{
    let j = choose|j: int| 0 <= j < ns.len() && ns[j].0 == ns[i].0;
    assert(0 <= j < ns.len() && ns[j].0 == ns[i].0);
}

/// The descendants of a direct child that started but have not finished,
/// keyed by call id.
#[derive(Debug)]
pub struct OpenDescendants {
    nodes: Vec<ForwardedChildTraceNode>,
}

impl View for OpenDescendants {
    type V = Seq<(Seq<char>, Option<Seq<char>>, u32, Seq<char>)>;

    closed spec fn view(&self) -> Self::V {
        nodes_view(self.nodes@)
    }
}

impl OpenDescendants {
    /// Each call id occurs once.
    pub closed spec fn wf(&self) -> bool {
        unique_calls(self@)
    }

    /// No open descendant.
    pub fn new() -> (r: Self)
        ensures
            r.wf(),
            r@.len() == 0,
    {
        let r = OpenDescendants { nodes: Vec::new() };
        assert(r@ =~= Seq::<(Seq<char>, Option<Seq<char>>, u32, Seq<char>)>::empty());
        r
    }

    /// How many descendants are open.
    pub fn len(&self) -> (n: usize)
        ensures
            n == self@.len(),
    {
        self.nodes.len()
    }

    /// Copies of the open descendants.
    pub fn values(&self) -> (r: Vec<ForwardedChildTraceNode>)
        ensures
            nodes_view(r@) == self@,
    {
        let mut out: Vec<ForwardedChildTraceNode> = Vec::new();
        let mut i: usize = 0;
        while i < self.nodes.len()
            invariant
                i <= self.nodes@.len(),
                nodes_view(out@) == nodes_view(self.nodes@).take(i as int),
            decreases self.nodes@.len() - i,
        {
            let ghost before = nodes_view(out@);
            let c = clone_node(&self.nodes[i]);
            out.push(c);
            assert(nodes_view(out@) =~= before.push(node_view(c)));
            assert(nodes_view(self.nodes@).take(i + 1) =~= nodes_view(self.nodes@).take(i as int).push(
                node_view(self.nodes@[i as int]),
            ));
            i += 1;
        }
        assert(nodes_view(self.nodes@).take(self.nodes@.len() as int) == nodes_view(self.nodes@));
        out
    }

    fn position(&self, id: &str) -> (r: Option<usize>)
        ensures
            match r {
                Some(i) => i < self@.len() && self@[i as int].0 == id@,
                None => forall|i: int| 0 <= i < self@.len() ==> self@[i].0 != id@,
            },
    {
        let mut i: usize = 0;
        while i < self.nodes.len()
            invariant
                i <= self.nodes@.len(),
                forall|j: int| 0 <= j < i ==> nodes_view(self.nodes@)[j].0 != id@,
            decreases self.nodes@.len() - i,
        {
            if str_eq(self.nodes[i].call_id.as_str(), id) {
                return Some(i);
            }
            i += 1;
        }
        None
    }

    /// Opens (or re-opens) `node` under its call id.
    pub fn insert(&mut self, node: ForwardedChildTraceNode)
        requires
            old(self).wf(),
        ensures
            final(self).wf(),
            open_node(final(self)@, node_view(node).0) == Some(node_view(node)),
            forall|x: Seq<char>|
                x != node_view(node).0 ==> open_node(final(self)@, x) == open_node(old(self)@, x),
    {
        let ghost nv = node_view(node);
        let ghost ov = old(self)@;
        match self.position(node.call_id.as_str()) {
            Some(i) => {
                self.nodes.set(i, node);
                proof {
                    let nw = self@;
                    assert(nw =~= ov.update(i as int, nv));
                    assert(unique_calls(nw));
                    lemma_open_node_at(nw, i as int);
                    assert forall|x: Seq<char>| x != nv.0 implies open_node(nw, x) == open_node(ov, x) by {
                        if exists|k: int| 0 <= k < ov.len() && ov[k].0 == x {
                            let k = choose|k: int| 0 <= k < ov.len() && ov[k].0 == x;
                            lemma_open_node_at(ov, k);
                            assert(nw[k] == ov[k]);
                            lemma_open_node_at(nw, k);
                        } else {
                            assert forall|k: int| 0 <= k < nw.len() implies nw[k].0 != x by {
                                if k != i {
                                    assert(nw[k] == ov[k]);
                                }
                            }
                        }
                    }
                }
            },
            None => {
                self.nodes.push(node);
                proof {
                    let nw = self@;
                    assert(nw =~= ov.push(nv));
                    assert(unique_calls(nw));
                    lemma_open_node_at(nw, ov.len() as int);
                    assert forall|x: Seq<char>| x != nv.0 implies open_node(nw, x) == open_node(ov, x) by {
                        if exists|k: int| 0 <= k < ov.len() && ov[k].0 == x {
                            let k = choose|k: int| 0 <= k < ov.len() && ov[k].0 == x;
                            lemma_open_node_at(ov, k);
                            lemma_open_node_at(nw, k);
                        } else {
                            assert forall|k: int| 0 <= k < nw.len() implies nw[k].0 != x by {
                                if k < ov.len() {
                                    assert(nw[k] == ov[k]);
                                }
                            }
                        }
                    }
                }
            },
        }
    }

    /// Closes the call `id`.
    pub fn remove(&mut self, id: &str)
        requires
            old(self).wf(),
        ensures
            final(self).wf(),
            open_node(final(self)@, id@) is None,
            forall|x: Seq<char>| x != id@ ==> open_node(final(self)@, x) == open_node(old(self)@, x),
    {
        let ghost ov = old(self)@;
        match self.position(id) {
            Some(i) => {
                let _ = self.nodes.remove(i);
                proof {
                    let nw = self@;
                    assert(nw =~= ov.remove(i as int));
                    assert forall|a: int, b: int|
                        0 <= a < nw.len() && 0 <= b < nw.len() && nw[a].0 == nw[b].0 implies a == b by {
                        let a2 = if a < i {
                            a
                        } else {
                            a + 1
                        };
                        let b2 = if b < i {
                            b
                        } else {
                            b + 1
                        };
                        assert(nw[a] == ov[a2]);
                        assert(nw[b] == ov[b2]);
                    }
                    assert forall|k: int| 0 <= k < nw.len() implies nw[k].0 != id@ by {
                        let k2 = if k < i {
                            k
                        } else {
                            k + 1
                        };
                        assert(nw[k] == ov[k2]);
                    }
                    assert forall|x: Seq<char>| x != id@ implies open_node(nw, x) == open_node(ov, x) by {
                        if exists|k: int| 0 <= k < ov.len() && ov[k].0 == x {
                            let k = choose|k: int| 0 <= k < ov.len() && ov[k].0 == x;
                            lemma_open_node_at(ov, k);
                            let k2 = if k < i {
                                k
                            } else {
                                k - 1
                            };
                            assert(nw[k2] == ov[k]);
                            lemma_open_node_at(nw, k2);
                        } else {
                            assert forall|k: int| 0 <= k < nw.len() implies nw[k].0 != x by {
                                let k2 = if k < i {
                                    k
                                } else {
                                    k + 1
                                };
                                assert(nw[k] == ov[k2]);
                            }
                        }
                    }
                }
            },
            None => {},
        }
    }
}

/// `after` is the open descendants `before` updated for an event of type
/// `t` on node `nv`: a `subcall_start` deeper than the direct child opens
/// the node, a deeper `subcall_finish` closes it, and anything else changes
/// nothing; no other call id is touched.
pub open spec fn open_update(
    before: Seq<(Seq<char>, Option<Seq<char>>, u32, Seq<char>)>,
    after: Seq<(Seq<char>, Option<Seq<char>>, u32, Seq<char>)>,
    t: Seq<char>,
    direct_child_depth: u32,
    nv: (Seq<char>, Option<Seq<char>>, u32, Seq<char>),
) -> bool {
    &&& nv.2 <= direct_child_depth ==> after == before
    &&& nv.2 > direct_child_depth && t == "subcall_start"@ ==> open_node(after, nv.0) == Some(nv)
    &&& nv.2 > direct_child_depth && t == "subcall_finish"@ ==> open_node(after, nv.0) is None
    &&& !(nv.2 > direct_child_depth && (t == "subcall_start"@ || t == "subcall_finish"@)) ==> after
        == before
    &&& forall|x: Seq<char>| x != nv.0 ==> open_node(after, x) == open_node(before, x)
}

/// Tracks the open descendants of a direct child: a deeper `subcall_start`
/// opens a node, a deeper `subcall_finish` closes it; events at or above
/// the direct child's depth and other event types change nothing.
pub fn update_open_descendants(
    open_descendants: &mut OpenDescendants,
    normalized_event_type: &str,
    direct_child_depth: u32,
    node: ForwardedChildTraceNode,
)
    requires
        old(open_descendants).wf(),
    ensures
        final(open_descendants).wf(),
        open_update(
            old(open_descendants)@,
            final(open_descendants)@,
            normalized_event_type@,
            direct_child_depth,
            node_view(node),
        ),
{
    proof {
        reveal_strlit("subcall_start");
        reveal_strlit("subcall_finish");
        assert("subcall_finish"@.len() != "subcall_start"@.len());
        assert("subcall_finish"@ != "subcall_start"@);
    }
    if node.depth <= direct_child_depth {
        return;
    }
    if str_eq(normalized_event_type, "subcall_start") {
        open_descendants.insert(node);
    } else if str_eq(normalized_event_type, "subcall_finish") {
        open_descendants.remove(node.call_id.as_str());
    }
}

/// A child trace event re-emitted in the parent's trace.
#[derive(Debug)]
pub struct ForwardedEvent {
    pub event_type: String,
    pub call_id: String,
    pub parent_call_id: Option<String>,
    pub depth: u32,
    pub skill: String,
    pub usage: Option<SkillTraceTokenUsage>,
    pub fail_reason: Option<SkillTraceFailReason>,
}

/// The event type as forwarded: the child's own `call_start` /
/// `call_finish` become `subcall_start` / `subcall_finish`.
pub open spec fn normalized_type_spec(t: Seq<char>) -> Seq<char> {
    if t == "call_start"@ {
        "subcall_start"@
    } else if t == "call_finish"@ {
        "subcall_finish"@
    } else {
        t
    }
}

/// Subtraction that stops at 0.
pub open spec fn sat_sub_u32(a: u32, b: u32) -> u32 {
    if a >= b {
        (a - b) as u32
    } else {
        0
    }
}

/// `r` is the forwarded form of `event`, and `lr1` the child's local root
/// afterwards, given the local root `lr0` before (see
/// [`forward_child_trace_event`]).
pub open spec fn forward_rel(
    lr0: Option<Seq<char>>,
    lr1: Option<Seq<char>>,
    root_call_id: Seq<char>,
    direct_child_call_id: Seq<char>,
    direct_child_depth: u32,
    event: crate::skill_trace_sse::SkillTraceEventPayload,
    r: Option<ForwardedEvent>,
) -> bool {
    &&& (event.depth == 1 && event.event_type@ == "call_start"@ ==> r is None && lr1 == Some(event.call_id@))
    &&& (event.depth == 1 && event.event_type@ == "call_finish"@ ==> r is None && lr1 == lr0)
    &&& (!(event.depth == 1 && (event.event_type@ == "call_start"@ || event.event_type@
            == "call_finish"@)) ==> {
            let lr = lr0;
            &&& lr1 == lr
            &&& r matches Some(f)
            &&& f.event_type@ == normalized_type_spec(event.event_type@)
            &&& f.call_id@ == (if lr == Some(event.call_id@) {
                direct_child_call_id
            } else {
                event.call_id@
            })
            &&& opt_view(f.parent_call_id) == (if event.depth <= 1 {
                Some(root_call_id)
            } else if opt_view(event.parent_call_id) == lr {
                Some(direct_child_call_id)
            } else {
                opt_view(event.parent_call_id)
            })
            &&& f.depth == direct_child_depth + sat_sub_u32(event.depth, 1)
            &&& f.skill@ == event.skill@
            &&& f.usage == match (event.prompt_tokens, event.completion_tokens, event.total_tokens) {
                (Some(p), Some(c), Some(t)) => Some(
                    SkillTraceTokenUsage { prompt_tokens: p, completion_tokens: c, total_tokens: t },
                ),
                _ => None,
            }
            &&& f.fail_reason == parse_fail_reason_spec(opt_view(event.fail_reason))
        })
}

/// Forwards one event of a direct child's trace into the parent's trace.
/// The child's own root `call_start` records the child's local root call id
/// (kept in `local_root`) and is not forwarded, nor is its root
/// `call_finish`. Other events are re-typed, re-parented (the child's root
/// becomes the direct child's call, depth-1 events hang under the parent's
/// root) and shifted by the direct child's depth.
pub fn forward_child_trace_event(
    local_root: &mut Option<String>,
    root_call_id: &str,
    direct_child_call_id: &str,
    direct_child_depth: u32,
    event: &crate::skill_trace_sse::SkillTraceEventPayload,
) -> (r: Option<ForwardedEvent>)
    requires
        direct_child_depth + sat_sub_u32(event.depth, 1) <= u32::MAX,
    ensures
        forward_rel(
            opt_view(*old(local_root)),
            opt_view(*final(local_root)),
            root_call_id@,
            direct_child_call_id@,
            direct_child_depth,
            *event,
            r,
        ),
{
    proof {
        reveal_strlit("call_start");
        reveal_strlit("call_finish");
        assert("call_start"@.len() != "call_finish"@.len());
    }
    let is_start = str_eq(event.event_type.as_str(), "call_start");
    let is_finish = str_eq(event.event_type.as_str(), "call_finish");
    if event.depth == 1 && is_start {
        *local_root = Some(event.call_id.clone());
        return None;
    }
    if event.depth == 1 && is_finish {
        return None;
    }
    let normalized = if is_start {
        to_string("subcall_start")
    } else if is_finish {
        to_string("subcall_finish")
    } else {
        event.event_type.clone()
    };
    let root_matches = match local_root {
        Some(l) => str_eq(l.as_str(), event.call_id.as_str()),
        None => false,
    };
    let call_id = if root_matches {
        to_string(direct_child_call_id)
    } else {
        event.call_id.clone()
    };
    let parent_matches = match (&event.parent_call_id, &*local_root) {
        (Some(p), Some(l)) => str_eq(p.as_str(), l.as_str()),
        (None, None) => true,
        _ => false,
    };
    let parent_call_id = if event.depth <= 1 {
        Some(to_string(root_call_id))
    } else if parent_matches {
        Some(to_string(direct_child_call_id))
    } else {
        clone_opt(&event.parent_call_id)
    };
    let depth = direct_child_depth + event.depth.saturating_sub(1);
    let usage = usage_from_counts(event.prompt_tokens, event.completion_tokens, event.total_tokens);
    let fail_reason = match &event.fail_reason {
        Some(f) => parse_fail_reason(Some(f.as_str())),
        None => None,
    };
    Some(
        ForwardedEvent {
            event_type: normalized,
            call_id,
            parent_call_id,
            depth,
            skill: event.skill.clone(),
            usage,
            fail_reason,
        },
    )
}

/// What a child's trace stream reported once it ended.
#[derive(Debug)]
pub struct ChildTraceReadResult {
    pub skill_result: Option<String>,
    pub terminal_result_code: Option<String>,
    pub terminal_fail_reason: Option<SkillTraceFailReason>,
    pub terminal_usage: Option<SkillTraceTokenUsage>,
    pub open_descendants: Vec<ForwardedChildTraceNode>,
}

/// Why reading a child's trace stream failed, and which descendants were
/// still open.
#[derive(Debug)]
pub struct ChildTraceReadError {
    pub message: String,
    pub fail_reason: SkillTraceFailReason,
    pub open_descendants: Vec<ForwardedChildTraceNode>,
}

/// The state of reading one direct child's trace stream.
#[derive(Debug)]
pub struct ChildTraceReader {
    pub skill_result: Option<String>,
    pub terminal_result_code: Option<String>,
    pub terminal_fail_reason: Option<SkillTraceFailReason>,
    pub terminal_usage: Option<SkillTraceTokenUsage>,
    pub open: OpenDescendants,
    pub local_root: Option<String>,
}

impl ChildTraceReader {
    /// The reader before any event.
    pub fn new() -> (r: Self)
        ensures
            r.open.wf(),
            r.open@.len() == 0,
            r.skill_result is None,
            r.terminal_result_code is None,
            r.terminal_fail_reason is None,
            r.terminal_usage is None,
            r.local_root is None,
    {
        ChildTraceReader {
            skill_result: None,
            terminal_result_code: None,
            terminal_fail_reason: None,
            terminal_usage: None,
            open: OpenDescendants::new(),
            local_root: None,
        }
    }

    /// Handles one `skill_trace` event: the child's root `call_finish`
    /// records the terminal result code, failure reason and usage; the event
    /// is then forwarded (see [`forward_child_trace_event`], which also keeps
    /// the child's local root) and, when it is forwarded, the open
    /// descendants are updated for the forwarded node (see
    /// [`update_open_descendants`]). Returns the forwarded event, if any.
    pub fn on_trace_payload(
        &mut self,
        root_call_id: &str,
        direct_child_call_id: &str,
        direct_child_depth: u32,
        payload: &crate::skill_trace_sse::SkillTraceEventPayload,
    ) -> (r: Option<ForwardedEvent>)
        requires
            old(self).open.wf(),
            direct_child_depth + sat_sub_u32(payload.depth, 1) <= u32::MAX,
        ensures
            final(self).open.wf(),
            payload.depth == 1 && payload.event_type@ == "call_finish"@ ==> {
                &&& opt_view(final(self).terminal_result_code) == opt_view(
                    payload.result_code,
                )
                &&& final(self).terminal_fail_reason == parse_fail_reason_spec(
                    opt_view(payload.fail_reason),
                )
                &&& final(self).terminal_usage == match (
                    payload.prompt_tokens,
                    payload.completion_tokens,
                    payload.total_tokens,
                ) {
                    (Some(p), Some(c), Some(t)) => Some(
                        SkillTraceTokenUsage {
                            prompt_tokens: p,
                            completion_tokens: c,
                            total_tokens: t,
                        },
                    ),
                    _ => None,
                }
            },
            !(payload.depth == 1 && payload.event_type@ == "call_finish"@) ==> opt_view(
                final(self).terminal_result_code,
            ) == opt_view(old(self).terminal_result_code) && final(self).terminal_fail_reason
                == old(self).terminal_fail_reason && final(self).terminal_usage == old(
                self,
            ).terminal_usage,
            opt_view(final(self).skill_result) == opt_view(old(self).skill_result),
            forward_rel(
                opt_view(old(self).local_root),
                opt_view(final(self).local_root),
                root_call_id@,
                direct_child_call_id@,
                direct_child_depth,
                *payload,
                r,
            ),
            r is None ==> final(self).open@ == old(self).open@,
            r matches Some(f) ==> open_update(
                old(self).open@,
                final(self).open@,
                f.event_type@,
                direct_child_depth,
                (f.call_id@, opt_view(f.parent_call_id), f.depth, f.skill@),
            ),
    {
        if payload.depth == 1 && str_eq(payload.event_type.as_str(), "call_finish") {
            self.terminal_result_code = clone_opt(&payload.result_code);
            self.terminal_fail_reason = match &payload.fail_reason {
                Some(f) => parse_fail_reason(Some(f.as_str())),
                None => None,
            };
            self.terminal_usage = usage_from_counts(
                payload.prompt_tokens,
                payload.completion_tokens,
                payload.total_tokens,
            );
        }
        let fwd = forward_child_trace_event(
            &mut self.local_root,
            root_call_id,
            direct_child_call_id,
            direct_child_depth,
            payload,
        );
        match &fwd {
            Some(f) => {
                let node = ForwardedChildTraceNode {
                    call_id: f.call_id.clone(),
                    parent_call_id: clone_opt(&f.parent_call_id),
                    depth: f.depth,
                    skill: f.skill.clone(),
                };
                update_open_descendants(&mut self.open, f.event_type.as_str(), direct_child_depth, node);
            },
            None => {},
        }
        fwd
    }

    /// Handles one `skill_result` event: its data is the child's result.
    pub fn on_skill_result(&mut self, data: String)
        ensures
            opt_view(final(self).skill_result) == Some(data@),
            final(self).open@ == old(self).open@,
            final(self).open.wf() == old(self).open.wf(),
    {
        self.skill_result = Some(data);
    }

    /// Ends the read: an error when the stream ended before `[DONE]`, else
    /// what it reported; both carry the still-open descendants.
    pub fn finish(self, saw_done: bool) -> (r: Result<ChildTraceReadResult, ChildTraceReadError>)
        ensures
            match r {
                Ok(res) => saw_done && nodes_view(res.open_descendants@) == self.open@
                    && opt_view(res.skill_result) == opt_view(self.skill_result)
                    && opt_view(res.terminal_result_code) == opt_view(
                    self.terminal_result_code,
                ) && res.terminal_fail_reason == self.terminal_fail_reason && res.terminal_usage
                    == self.terminal_usage,
                Err(e) => !saw_done && e.message@ == "child trace stream ended before [DONE]"@
                    && e.fail_reason == SkillTraceFailReason::InvalidResponse && nodes_view(
                    e.open_descendants@,
                ) == self.open@,
            },
    {
        let open_descendants = self.open.values();
        if !saw_done {
            return Err(
                ChildTraceReadError {
                    message: to_string("child trace stream ended before [DONE]"),
                    fail_reason: SkillTraceFailReason::InvalidResponse,
                    open_descendants,
                },
            );
        }
        Ok(
            ChildTraceReadResult {
                skill_result: self.skill_result,
                terminal_result_code: self.terminal_result_code,
                terminal_fail_reason: self.terminal_fail_reason,
                terminal_usage: self.terminal_usage,
                open_descendants,
            },
        )
    }
}

/// Where the line ending at the `\n` at `p` ends: before a `\r` that
/// precedes the `\n`, else at the `\n`.
pub open spec fn line_end(s: Seq<char>, p: int) -> int {
    if p > 0 && s[p - 1] == '\r' {
        p - 1
    } else {
        p
    }
}

/// Takes the first complete line out of `buf`: everything up to the first
/// `\n`, without the `\n` and without one `\r` before it.
pub fn take_line(buf: &mut Vec<char>) -> (r: Option<String>)
    ensures
        match crate::text::find_spec(old(buf)@, seq!['\n']) {
            None => r is None && final(buf)@ == old(buf)@,
            Some(p) => r matches Some(line) && line@ == old(buf)@.take(line_end(old(buf)@, p))
                && final(buf)@ == old(buf)@.skip(p + 1),
        },
{
    let nl = vec!['\n'];
    assert(nl@ =~= seq!['\n']);
    match crate::text::find(buf, &nl) {
        None => None,
        Some(i) => {
            proof {
                crate::text::lemma_find_from_spec(buf@, nl@, 0);
                assert(crate::text::occurs_at(buf@, nl@, i as int));
                assert(nl@.len() == 1);
                assert(i + 1 <= buf@.len());
            }
            let end: usize = if i > 0 && buf[i - 1] == '\r' {
                i - 1
            } else {
                i
            };
            let line = string_of_range(buf, 0, end);
            let n = buf.len();
            let rest = crate::text::sub_chars(buf, i + 1, n);
            *buf = rest;
            assert(line@ == old(buf)@.take(end as int));
            Some(line)
        },
    }
}

// ---------------------------------------------------------------------------
// Model turns of a chain
// ---------------------------------------------------------------------------

/// The `call_skillep` tool offered to the skill model.
#[derive(Debug)]
pub enum SkillChainTools {
    /// An empty allow-list: no tool is offered.
    NoTools,
    /// No allow-list: any skill endpoint id may be given.
    Unconstrained,
    /// The allowed ids, sorted, as the enumeration of `skillep_id`.
    Enum(Vec<String>),
}

/// The elements of an optional list.
pub open spec fn opt_seq(o: Option<Vec<String>>) -> Option<Seq<String>> {
    match o {
        Some(v) => Some(v@),
        None => None,
    }
}

/// `r` is the tool offered for an allow-list (`None` = no allow-list): none
/// for an empty list, an unconstrained tool without a list, else a tool whose
/// id is one of the listed ids, sorted.
pub open spec fn tool_plan_spec(allowed: Option<Seq<String>>, r: SkillChainTools) -> bool {
    match allowed {
        None => r is Unconstrained,
        Some(a) => if a.len() == 0 {
            r is NoTools
        } else {
            r matches SkillChainTools::Enum(ids) && crate::text::lex_sorted(crate::text::views(ids@))
                && crate::text::views(ids@).to_multiset() == crate::text::views(a).to_multiset()
        },
    }
}

/// The tool offered for an allow-list (`None` = no allow-list): none for an
/// empty list, an unconstrained tool without a list, else a tool whose id is
/// one of the listed ids, sorted.
pub fn skill_chain_tool_plan(allowed: Option<&Vec<String>>) -> (r: SkillChainTools)
    ensures
        tool_plan_spec(
            match allowed {
                Some(a) => Some(a@),
                None => None,
            },
            r,
        ),
{
    match allowed {
        None => SkillChainTools::Unconstrained,
        Some(a) => {
            if a.len() == 0 {
                SkillChainTools::NoTools
            } else {
                SkillChainTools::Enum(crate::text::sort_strings(a))
            }
        },
    }
}

/// An element of an array-valued message content.
#[derive(Debug)]
pub enum ContentPart {
    /// A JSON string.
    Text(String),
    /// A JSON object, with its `text` field when that is a string.
    Object(Option<String>),
    /// Any other JSON value.
    Other,
}

/// A message content as JSON.
#[derive(Debug)]
pub enum ContentValue {
    Null,
    Text(String),
    Array(Vec<ContentPart>),
    /// Any other JSON value, with its JSON rendering.
    Other(String),
}

/// The text an array content contributes: its strings and the `text` of its
/// objects, concatenated.
pub open spec fn parts_text(ps: Seq<ContentPart>) -> Seq<char>
    decreases ps.len(),
{
    if ps.len() == 0 {
        Seq::empty()
    } else {
        parts_text(ps.drop_last()) + match ps.last() {
            ContentPart::Text(s) => s@,
            ContentPart::Object(Some(t)) => t@,
            _ => Seq::empty(),
        }
    }
}

/// The text of a message content: a string itself; an array its joined
/// texts when not empty; null nothing; any other value its JSON rendering.
pub open spec fn json_text_spec(v: ContentValue) -> Option<Seq<char>> {
    match v {
        ContentValue::Null => None,
        ContentValue::Text(s) => Some(s@),
        ContentValue::Array(ps) => {
            let t = parts_text(ps@);
            if t.len() == 0 {
                None
            } else {
                Some(t)
            }
        },
        ContentValue::Other(r) => Some(r@),
    }
}

/// See [`json_text_spec`].
pub fn json_text(value: &ContentValue) -> (r: Option<String>)
    ensures
        opt_view(r) == json_text_spec(*value),
{
    match value {
        ContentValue::Null => None,
        ContentValue::Text(s) => Some(s.clone()),
        ContentValue::Array(ps) => {
            let mut out = String::new();
            let mut i: usize = 0;
            while i < ps.len()
                invariant
                    i <= ps@.len(),
                    out@ == parts_text(ps@.take(i as int)),
                decreases ps@.len() - i,
            {
                assert(ps@.take(i + 1).drop_last() == ps@.take(i as int));
                assert(ps@.take(i + 1).last() == ps@[i as int]);
                match &ps[i] {
                    ContentPart::Text(t) => push_str(&mut out, t.as_str()),
                    ContentPart::Object(Some(t)) => push_str(&mut out, t.as_str()),
                    _ => {
                        assert(out@ + Seq::<char>::empty() == out@);
                    },
                }
                i += 1;
            }
            assert(ps@.take(ps@.len() as int) == ps@);
            if out.as_str().is_empty() {
                None
            } else {
                Some(out)
            }
        },
        ContentValue::Other(r) => Some(r.clone()),
    }
}

/// A tool call as the model response carries it.
#[derive(Debug)]
pub struct RawToolCall {
    pub id: Option<String>,
    pub name: Option<String>,
    pub arguments: Option<String>,
}

/// A tool call of a model response, missing parts read as empty.
#[derive(Debug)]
pub struct ParsedSkillToolCall {
    pub id: String,
    pub name: String,
    pub arguments: String,
}

/// The message or delta of a response choice.
#[derive(Debug)]
pub struct ChatMessagePayload {
    pub content: Option<ContentValue>,
    pub tool_calls: Option<Vec<RawToolCall>>,
}

/// One choice of a chat-completion response.
#[derive(Debug)]
pub struct ChatChoice {
    pub finish_reason: Option<String>,
    pub message: Option<ChatMessagePayload>,
    pub delta: Option<ChatMessagePayload>,
}

/// A chat-completion response as read from JSON.
#[derive(Debug)]
pub struct ChatCompletionResponse {
    pub choices: Vec<ChatChoice>,
    pub usage: Option<RawUsage>,
}

/// What a model turn returned.
#[derive(Debug)]
pub struct ParsedSkillResponse {
    pub tool_calls: Vec<ParsedSkillToolCall>,
    pub final_text: Option<String>,
    pub usage: Option<SkillTraceTokenUsage>,
}

/// A string or empty.
pub open spec fn or_empty(s: Option<String>) -> Seq<char> {
    match s {
        Some(x) => x@,
        None => Seq::empty(),
    }
}

/// A raw tool call as parsed.
pub open spec fn parsed_call(c: RawToolCall) -> (Seq<char>, Seq<char>, Seq<char>) {
    (or_empty(c.id), or_empty(c.name), or_empty(c.arguments))
}

/// Parsed tool calls by view.
pub open spec fn calls_view(cs: Seq<ParsedSkillToolCall>) -> Seq<(Seq<char>, Seq<char>, Seq<char>)> {
    cs.map_values(|c: ParsedSkillToolCall| (c.id@, c.name@, c.arguments@))
}

/// The tool calls of a choice: the message's, else the delta's.
pub open spec fn choice_calls(c: ChatChoice) -> Option<Seq<RawToolCall>> {
    match c.message {
        Some(ChatMessagePayload { tool_calls: Some(v), .. }) => Some(v@),
        _ => match c.delta {
            Some(ChatMessagePayload { tool_calls: Some(v), .. }) => Some(v@),
            _ => None,
        },
    }
}

/// The text of a choice: the message content's, else the delta content's.
pub open spec fn choice_text(c: ChatChoice) -> Option<Seq<char>> {
    let m = match c.message {
        Some(ChatMessagePayload { content: Some(v), .. }) => json_text_spec(v),
        _ => None,
    };
    match m {
        Some(t) => Some(t),
        None => match c.delta {
            Some(ChatMessagePayload { content: Some(v), .. }) => json_text_spec(v),
            _ => None,
        },
    }
}

fn parse_calls(v: &Vec<RawToolCall>) -> (r: Vec<ParsedSkillToolCall>)
    ensures
        calls_view(r@) == v@.map_values(|c: RawToolCall| parsed_call(c)),
{
    let mut out: Vec<ParsedSkillToolCall> = Vec::new();
    let mut i: usize = 0;
    while i < v.len()
        invariant
            i <= v@.len(),
            calls_view(out@) == v@.take(i as int).map_values(|c: RawToolCall| parsed_call(c)),
        decreases v@.len() - i,
    {
        let c = &v[i];
        let id = match &c.id {
            Some(x) => x.clone(),
            None => String::new(),
        };
        let name = match &c.name {
            Some(x) => x.clone(),
            None => String::new(),
        };
        let arguments = match &c.arguments {
            Some(x) => x.clone(),
            None => String::new(),
        };
        let ghost before = calls_view(out@);
        out.push(ParsedSkillToolCall { id, name, arguments });
        assert(calls_view(out@) =~= before.push(parsed_call(v@[i as int])));
        assert(v@.take(i + 1).map_values(|c: RawToolCall| parsed_call(c)) =~= v@.take(
            i as int,
        ).map_values(|c: RawToolCall| parsed_call(c)).push(parsed_call(v@[i as int])));
        i += 1;
    }
    assert(v@.take(v@.len() as int) == v@);
    out
}

/// Reads a model turn from a chat-completion response (`None` when the body
/// is not one): the first choice's tool calls (message, else delta) count
/// only when there are some or the finish reason is `tool_calls`; its text
/// (message, else delta); the usage of the response.
pub fn parse_skill_response(body: Option<&ChatCompletionResponse>) -> (r: Option<ParsedSkillResponse>)
    ensures
        match body {
            None => r is None,
            Some(b) => if b.choices@.len() == 0 {
                r is None
            } else {
                let c = b.choices@[0];
                let calls = match choice_calls(c) {
                    Some(v) => v.map_values(|x: RawToolCall| parsed_call(x)),
                    None => Seq::empty(),
                };
                let has = calls.len() > 0 || opt_view(c.finish_reason) == Some(
                    "tool_calls"@,
                );
                r matches Some(p) && calls_view(p.tool_calls@) == (if has {
                    calls
                } else {
                    Seq::empty()
                }) && opt_view(p.final_text) == choice_text(c) && p.usage == match b.usage {
                    Some(u) => raw_usage_spec(u),
                    None => None,
                }
            },
        },
{
    let b = match body {
        Some(b) => b,
        None => {
            return None;
        },
    };
    if b.choices.len() == 0 {
        return None;
    }
    let c = &b.choices[0];
    let from_message = match &c.message {
        Some(m) => match &m.tool_calls {
            Some(v) => Some(v),
            None => None,
        },
        None => None,
    };
    let raw = match from_message {
        Some(v) => Some(v),
        None => match &c.delta {
            Some(d) => match &d.tool_calls {
                Some(v) => Some(v),
                None => None,
            },
            None => None,
        },
    };
    let tool_calls = match raw {
        Some(v) => parse_calls(v),
        None => {
            let e: Vec<ParsedSkillToolCall> = Vec::new();
            assert(calls_view(e@) =~= Seq::<(Seq<char>, Seq<char>, Seq<char>)>::empty());
            e
        },
    };
    let finish_is_tools = match &c.finish_reason {
        Some(f) => str_eq(f.as_str(), "tool_calls"),
        None => false,
    };
    let has_tool_calls = tool_calls.len() > 0 || finish_is_tools;
    let text_from_message = match &c.message {
        Some(m) => match &m.content {
            Some(v) => json_text(v),
            None => None,
        },
        None => None,
    };
    let final_text = match text_from_message {
        Some(t) => Some(t),
        None => match &c.delta {
            Some(d) => match &d.content {
                Some(v) => json_text(v),
                None => None,
            },
            None => None,
        },
    };
    let usage = match b.usage {
        Some(u) => u.into_usage(),
        None => None,
    };
    let tool_calls = if has_tool_calls {
        tool_calls
    } else {
        let e: Vec<ParsedSkillToolCall> = Vec::new();
        assert(calls_view(e@) =~= Seq::<(Seq<char>, Seq<char>, Seq<char>)>::empty());
        e
    };
    Some(ParsedSkillResponse { tool_calls, final_text, usage })
}

/// What a chain does after a model turn.
#[derive(Clone, Copy, Debug, PartialEq, Eq, Structural)]
pub enum TurnDecision {
    /// The response is not a chat completion: pass it through as is.
    PassThrough,
    /// No tool calls: this is the chain's final response.
    Final,
    /// Some tool call is not `call_skillep`: answer every call with an
    /// error and run another turn.
    UnsupportedTools,
    /// Run the `call_skillep` calls as child calls.
    CallChildren,
}

/// The decision after a model turn.
pub open spec fn turn_decision_spec(parsed: Option<Seq<(Seq<char>, Seq<char>, Seq<char>)>>) -> TurnDecision {
    match parsed {
        None => TurnDecision::PassThrough,
        Some(calls) => if calls.len() == 0 {
            TurnDecision::Final
        } else if exists|i: int| 0 <= i < calls.len() && calls[i].1 != "call_skillep"@ {
            TurnDecision::UnsupportedTools
        } else {
            TurnDecision::CallChildren
        },
    }
}

/// Decides what follows a model turn.
pub fn turn_decision(parsed: Option<&ParsedSkillResponse>) -> (r: TurnDecision)
    ensures
        r == turn_decision_spec(
            match parsed {
                Some(p) => Some(calls_view(p.tool_calls@)),
                None => None,
            },
        ),
{
    match parsed {
        None => TurnDecision::PassThrough,
        Some(p) => {
            if p.tool_calls.len() == 0 {
                return TurnDecision::Final;
            }
            let ghost cv = calls_view(p.tool_calls@);
            let mut i: usize = 0;
            while i < p.tool_calls.len()
                invariant
                    i <= p.tool_calls@.len(),
                    parsed == Some(p),
                    cv == calls_view(p.tool_calls@),
                    forall|k: int| 0 <= k < i ==> cv[k].1 == "call_skillep"@,
                decreases p.tool_calls@.len() - i,
            {
                if !str_eq(p.tool_calls[i].name.as_str(), "call_skillep") {
                    assert(cv[i as int].1 != "call_skillep"@);
                    assert(exists|k: int| 0 <= k < cv.len() && cv[k].1 != "call_skillep"@);
                    return TurnDecision::UnsupportedTools;
                }
                i += 1;
            }
            TurnDecision::CallChildren
        },
    }
}

/// `v` is a string JSON value holding `t`.
pub open spec fn json_string_is(v: JsonValue, t: Seq<char>) -> bool {
    v matches JsonValue::String(x) && x@ == t
}

/// `v` is the history message of a model turn that asked for tools:
/// `{"role":"assistant","content":null,"tool_calls":[..raw..]}`.
pub open spec fn assistant_tool_calls_message(v: JsonValue, raw: Seq<JsonValue>) -> bool {
    &&& v matches JsonValue::Object(fs)
    &&& fs@.len() == 3
    &&& fs@[0].0@ == "role"@ && json_string_is(fs@[0].1, "assistant"@)
    &&& fs@[1].0@ == "content"@ && fs@[1].1 is Null
    &&& fs@[2].0@ == "tool_calls"@ && (fs@[2].1 matches JsonValue::Array(items) && items@ == raw)
}

/// `v` is the history message of a tool result:
/// `{"role":"tool","tool_call_id":id,"content":content}`.
pub open spec fn tool_result_message(v: JsonValue, id: Seq<char>, content: Seq<char>) -> bool {
    &&& v matches JsonValue::Object(fs)
    &&& fs@.len() == 3
    &&& fs@[0].0@ == "role"@ && json_string_is(fs@[0].1, "tool"@)
    &&& fs@[1].0@ == "tool_call_id"@ && json_string_is(fs@[1].1, id)
    &&& fs@[2].0@ == "content"@ && json_string_is(fs@[2].1, content)
}

fn tool_message(id: &str, content: &str) -> (r: JsonValue)
    ensures
        tool_result_message(r, id@, content@),
{
    let fs = vec![
        (to_string("role"), JsonValue::String(to_string("tool"))),
        (to_string("tool_call_id"), JsonValue::String(to_string(id))),
        (to_string("content"), JsonValue::String(to_string(content))),
    ];
    JsonValue::Object(fs)
}

/// Records a tool turn in a chain's history: the assistant message carrying
/// the model's raw tool calls, then one tool message per `(tool_call_id,
/// content)` result, in order.
pub fn append_tool_turn(
    history: &mut Vec<JsonValue>,
    raw_tool_calls: Vec<JsonValue>,
    results: &Vec<(String, String)>,
)
    ensures
        final(history)@.len() == old(history)@.len() + 1 + results@.len(),
        final(history)@.take(old(history)@.len() as int) == old(history)@,
        assistant_tool_calls_message(final(history)@[old(history)@.len() as int], raw_tool_calls@),
        forall|i: int|
            0 <= i < results@.len() ==> tool_result_message(
                #[trigger] final(history)@[old(history)@.len() + 1 + i],
                results@[i].0@,
                results@[i].1@,
            ),
{
    let ghost raw = raw_tool_calls@;
    let fs = vec![
        (to_string("role"), JsonValue::String(to_string("assistant"))),
        (to_string("content"), JsonValue::Null),
        (to_string("tool_calls"), JsonValue::Array(raw_tool_calls)),
    ];
    history.push(JsonValue::Object(fs));
    let ghost n = old(history)@.len();
    let mut i: usize = 0;
    while i < results.len()
        invariant
            i <= results@.len(),
            n == old(history)@.len(),
            history@.len() == n + 1 + i,
            history@.take(n as int) == old(history)@,
            assistant_tool_calls_message(history@[n as int], raw),
            forall|j: int|
                0 <= j < i ==> tool_result_message(
                    #[trigger] history@[n + 1 + j],
                    results@[j].0@,
                    results@[j].1@,
                ),
        decreases results@.len() - i,
    {
        let ghost before = history@;
        history.push(tool_message(results[i].0.as_str(), results[i].1.as_str()));
        assert(history@.take(n as int) =~= before.take(n as int));
        assert forall|j: int| 0 <= j < i implies tool_result_message(
            #[trigger] history@[n + 1 + j],
            results@[j].0@,
            results@[j].1@,
        ) by {
            assert(history@[n + 1 + j] == before[n + 1 + j]);
        }
        i += 1;
    }
}

/// The tool result given to a call of a turn with an unsupported tool.
pub open spec fn unsupported_tool_message(name: Seq<char>) -> Seq<char> {
    if name == "call_skillep"@ {
        "Error: turn aborted (other tool in same response was unsupported)"@
    } else {
        child_tool_error("unsupported tool '"@ + name + "'"@)
    }
}

/// See [`unsupported_tool_message`].
pub fn unsupported_tool_result(name: &str) -> (r: String)
    ensures
        r@ == unsupported_tool_message(name@),
{
    if str_eq(name, "call_skillep") {
        to_string("Error: turn aborted (other tool in same response was unsupported)")
    } else {
        let mut m = to_string("unsupported tool '");
        push_str(&mut m, name);
        push_str(&mut m, "'");
        format_child_tool_error(m.as_str())
    }
}

/// The instruction that keeps a skill model to the listed skill endpoints.
pub open spec fn skill_ep_constraint() -> Seq<char> {
    "IMPORTANT: When using the call_skillep tool, you MUST only call skill endpoint IDs that are explicitly listed below. Do not invent or assume other skill endpoint IDs exist. If a skill endpoint is not listed below, do not call it."@
}

/// The system prompt prefix of a chain: with the constraint enabled, the
/// constraint alone for a blank prefix, else the constraint, a blank line
/// and the trimmed prefix; without it, the prefix as is.
pub open spec fn prompt_prefix_spec(constraint_enabled: bool, prefix: Seq<char>) -> Seq<char> {
    if constraint_enabled {
        if trim(prefix).len() == 0 {
            skill_ep_constraint()
        } else {
            skill_ep_constraint() + "\n\n"@ + trim(prefix)
        }
    } else {
        prefix
    }
}

/// See [`prompt_prefix_spec`].
pub fn skill_prompt_prefix(constraint_enabled: bool, prefix: &str) -> (r: String)
    ensures
        r@ == prompt_prefix_spec(constraint_enabled, prefix@),
{
    if !constraint_enabled {
        return to_string(prefix);
    }
    let t = trim_str(prefix);
    let mut out = to_string(
        "IMPORTANT: When using the call_skillep tool, you MUST only call skill endpoint IDs that are explicitly listed below. Do not invent or assume other skill endpoint IDs exist. If a skill endpoint is not listed below, do not call it.",
    );
    if t.as_str().is_empty() {
        return out;
    }
    push_str(&mut out, "\n\n");
    push_str(&mut out, t.as_str());
    out
}

/// How a traced chain ended.
#[derive(Clone, Copy, Debug, PartialEq, Eq, Structural)]
pub enum ChainEnd {
    /// A final chat completion.
    Completion,
    /// A response that is not a chat completion.
    NotCompletion,
    /// The chain failed.
    Failed,
}

/// The root `call_finish` of a traced chain: pass for a completion; fail
/// with `invalid_response` for a non-completion; fail with
/// `transport_error` for a failed chain.
pub fn root_finish(end: ChainEnd) -> (r: (&'static str, Option<SkillTraceFailReason>))
    ensures
        end == ChainEnd::Completion ==> r.0@ == "pass"@ && r.1 is None,
        end == ChainEnd::NotCompletion ==> r.0@ == "fail"@ && r.1 == Some(
            SkillTraceFailReason::InvalidResponse,
        ),
        end == ChainEnd::Failed ==> r.0@ == "fail"@ && r.1 == Some(
            SkillTraceFailReason::TransportError,
        ),
{
    match end {
        ChainEnd::Completion => ("pass", None),
        ChainEnd::NotCompletion => ("fail", Some(SkillTraceFailReason::InvalidResponse)),
        ChainEnd::Failed => ("fail", Some(SkillTraceFailReason::TransportError)),
    }
}

/// One message of the chain history, as read from JSON.
#[derive(Debug)]
pub struct HistoryEntry {
    /// The message is a JSON object.
    pub is_object: bool,
    /// Its `role` when that is a string.
    pub role: Option<String>,
    pub content: Option<ContentValue>,
}

/// The text of the latest user message that has one.
pub open spec fn latest_user_query_spec(h: Seq<HistoryEntry>) -> Option<Seq<char>>
    decreases h.len(),
{
    if h.len() == 0 {
        None
    } else {
        let e = h.last();
        let t = if e.is_object && opt_view(e.role) == Some("user"@) {
            match e.content {
                Some(c) => json_text_spec(c),
                None => None,
            }
        } else {
            None
        };
        match t {
            Some(x) => Some(x),
            None => latest_user_query_spec(h.drop_last()),
        }
    }
}

/// The text of the latest user message of the history that has one.
pub fn latest_user_query(history: &Vec<HistoryEntry>) -> (r: Option<String>)
    ensures
        opt_view(r) == latest_user_query_spec(history@),
{
    let mut j: usize = history.len();
    assert(history@.take(j as int) == history@);
    while j > 0
        invariant
            j <= history@.len(),
            latest_user_query_spec(history@) == latest_user_query_spec(history@.take(j as int)),
        decreases j,
    {
        let e = &history[j - 1];
        assert(history@.take(j as int).drop_last() == history@.take(j - 1));
        assert(history@.take(j as int).last() == history@[j - 1]);
        let is_user = e.is_object && match &e.role {
            Some(r) => str_eq(r.as_str(), "user"),
            None => false,
        };
        if is_user {
            match &e.content {
                Some(c) => {
                    match json_text(c) {
                        Some(t) => {
                            return Some(t);
                        },
                        None => {},
                    }
                },
                None => {},
            }
        }
        j -= 1;
    }
    None
}

// ---------------------------------------------------------------------------
// Log previews
// ---------------------------------------------------------------------------

/// Most bytes of a payload shown in a log line.
pub const MAX_LOG_BYTES: usize = 4096;

/// `s` with every line feed written as the two characters `\n`.
pub open spec fn escape_newlines(s: Seq<char>) -> Seq<char>
    decreases s.len(),
{
    if s.len() == 0 {
        Seq::empty()
    } else {
        escape_newlines(s.drop_last()) + if s.last() == '\n' {
            seq!['\\', 'n']
        } else {
            seq![s.last()]
        }
    }
}

/// The log preview of a payload: its first `MAX_LOG_BYTES` bytes decoded
/// leniently with line feeds escaped, and a truncation note when longer.
pub open spec fn bytes_preview_spec(b: Seq<u8>) -> Seq<char> {
    if b.len() > MAX_LOG_BYTES {
        escape_newlines(lossy_utf8(b.take(MAX_LOG_BYTES as int))) + "...[truncated "@ + decimal(
            (b.len() - MAX_LOG_BYTES) as nat,
        ) + " bytes]"@
    } else {
        escape_newlines(lossy_utf8(b))
    }
}

fn escape_newlines_exec(s: &str) -> (r: String)
    ensures
        r@ == escape_newlines(s@),
{
    let v = chars_of(s);
    let mut out = String::new();
    let mut i: usize = 0;
    while i < v.len()
        invariant
            i <= v@.len(),
            v@ == s@,
            out@ == escape_newlines(v@.take(i as int)),
        decreases v@.len() - i,
    {
        assert(v@.take(i + 1).drop_last() == v@.take(i as int));
        assert(v@.take(i + 1).last() == v@[i as int]);
        let ghost before = out@;
        if v[i] == '\n' {
            push_char(&mut out, '\\');
            push_char(&mut out, 'n');
            assert(out@ =~= before + seq!['\\', 'n']);
        } else {
            push_char(&mut out, v[i]);
            assert(out@ =~= before + seq![v@[i as int]]);
        }
        i += 1;
    }
    assert(v@.take(v@.len() as int) == v@);
    out
}

/// See [`bytes_preview_spec`].
pub fn summarize_bytes_for_log(bytes: &[u8]) -> (r: String)
    ensures
        r@ == bytes_preview_spec(bytes@),
{
    if bytes.len() > MAX_LOG_BYTES {
        let mut head: Vec<u8> = Vec::new();
        let mut i: usize = 0;
        while i < MAX_LOG_BYTES
            invariant
                i <= MAX_LOG_BYTES < bytes@.len(),
                head@ == bytes@.take(i as int),
            decreases MAX_LOG_BYTES - i,
        {
            head.push(bytes[i]);
            assert(head@ =~= bytes@.take(i + 1));
            i += 1;
        }
        let text = utf8_lossy(head.as_slice());
        let mut out = escape_newlines_exec(text.as_str());
        push_str(&mut out, "...[truncated ");
        let n = u64_decimal((bytes.len() - MAX_LOG_BYTES) as u64);
        push_str(&mut out, n.as_str());
        push_str(&mut out, " bytes]");
        out
    } else {
        let text = utf8_lossy(bytes);
        escape_newlines_exec(text.as_str())
    }
}

} // verus!
