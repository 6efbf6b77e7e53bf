//! Decisions of the MCP server that exposes a tenant's subscribed skills as
//! tools: API-key extraction, skill URLs, trace-stream handling and the
//! final outcome of a tool call.
use vstd::prelude::*;
use vstd::utf8::encode_utf8;
use crate::skill_chain::{
    bytes_preview_spec, json_text_spec, opt_str_view, parts_text,
    summarize_bytes_for_log, ContentPart, ContentValue,
};
use crate::session_store::new_uuid;
use crate::skill_trace_sse::{SkillTraceEventPayload, SseMessage};
use crate::text::{
    chars_of, contains, contains_chars, has_prefix, push_str, starts_with, str_eq, string_of_range,
    to_ascii_lowercase, to_string, trim, trim_str, ascii_lower, opt_view,
};

verus! {

/// The bearer API key of an `Authorization` header value.
pub open spec fn bearer_key_spec(auth: Option<Seq<char>>) -> Result<Seq<char>, Seq<char>> {
    match auth {
        None => Err("missing Authorization header"@),
        Some(a) => if has_prefix(a, "Bearer "@) && trim(a.skip(7)).len() > 0 {
            Ok(trim(a.skip(7)))
        } else {
            Err("Authorization header must be Bearer <apikey>"@)
        },
    }
}

/// Reads the API key of a `Bearer <apikey>` authorization header; returns
/// the header and the trimmed key, or the refusal message.
pub fn extract_bearer_apikey(authorization: Option<&str>) -> (r: Result<(String, String), String>)
    ensures
        match r {
            Ok((h, k)) => opt_str_view(authorization) == Some(h@) && bearer_key_spec(
                opt_str_view(authorization),
            ) == Ok::<Seq<char>, Seq<char>>(k@),
            Err(e) => bearer_key_spec(opt_str_view(authorization)) == Err::<Seq<char>, Seq<char>>(
                e@,
            ),
        },
{
    proof {
        reveal_strlit("Bearer ");
    }
    let a = match authorization {
        None => {
            return Err(to_string("missing Authorization header"));
        },
        Some(a) => a,
    };
    let v = chars_of(a);
    let p = chars_of("Bearer ");
    if starts_with(&v, &p) {
        let rest = string_of_range(&v, 7, v.len());
        assert(v@.subrange(7, v@.len() as int) == v@.skip(7));
        let key = trim_str(rest.as_str());
        if !key.as_str().is_empty() {
            return Ok((to_string(a), key));
        }
    }
    Err(to_string("Authorization header must be Bearer <apikey>"))
}

/// MCP needs a tenant-restricted API key: its tenant, or the refusal.
pub fn tenant_from_apikey(restrict_tenant: Option<String>) -> (r: Result<String, String>)
    ensures
        match restrict_tenant {
            Some(t) => r matches Ok(x) && x@ == t@,
            None => r matches Err(e) && e@
                == "MCP requires a tenant-restricted API key so skill tools can be resolved"@,
        },
{
    match restrict_tenant {
        Some(t) => Ok(t),
        None => Err(
            to_string("MCP requires a tenant-restricted API key so skill tools can be resolved"),
        ),
    }
}

/// The chat-completions URL of a skill behind the gateway.
pub fn skill_url(gateway_base_url: &str, owner_tenant: &str, owner_namespace: &str, skillname: &str) -> (r:
    String)
    ensures
        r@ == gateway_base_url@ + "/skills/"@ + owner_tenant@ + "/"@ + owner_namespace@ + "/"@
            + skillname@ + "/v1/chat/completions"@,
{
    let mut out = to_string(gateway_base_url);
    push_str(&mut out, "/skills/");
    push_str(&mut out, owner_tenant);
    push_str(&mut out, "/");
    push_str(&mut out, owner_namespace);
    push_str(&mut out, "/");
    push_str(&mut out, skillname);
    push_str(&mut out, "/v1/chat/completions");
    out
}

/// The final text of a completion's first message content: a string
/// itself; an array its joined texts, or its JSON rendering when they are
/// empty; null nothing; any other value its JSON rendering.
pub open spec fn completion_text_spec(content: Option<ContentValue>, rendering: Seq<char>) -> Option<
    Seq<char>,
> {
    match content {
        None => None,
        Some(ContentValue::Array(ps)) => if parts_text(ps@).len() == 0 {
            Some(rendering)
        } else {
            Some(parts_text(ps@))
        },
        Some(v) => json_text_spec(v),
    }
}

/// See [`completion_text_spec`]; `rendering` is the JSON text of the content.
pub fn extract_text_from_completion(content: Option<&ContentValue>, rendering: &str) -> (r: Option<
    String,
>)
    ensures
        opt_view(r) == completion_text_spec(
            match content {
                Some(c) => Some(*c),
                None => None,
            },
            rendering@,
        ),
{
    match content {
        None => None,
        Some(c) => match c {
            ContentValue::Array(ps) => {
                let t = crate::skill_chain::json_text(c);
                match t {
                    Some(x) => Some(x),
                    None => Some(to_string(rendering)),
                }
            },
            _ => crate::skill_chain::json_text(c),
        },
    }
}

/// The log preview of a text (its UTF-8 bytes, see
/// [`bytes_preview_spec`]).
pub fn summarize_str_for_log(text: &str) -> (r: String)
    ensures
        r@ == bytes_preview_spec(encode_utf8(text@)),
{
    summarize_bytes_for_log(text.as_bytes())
}

/// The message of a failed skill, by wire failure reason.
pub open spec fn skill_fail_message(reason: Option<Seq<char>>) -> Seq<char> {
    match reason {
        Some(r) => if r == "timeout"@ {
            "skill timed out"@
        } else if r == "transport_error"@ {
            "skill transport error"@
        } else if r == "invalid_response"@ {
            "skill returned invalid response"@
        } else if r == "max_depth"@ {
            "skill exceeded max chain depth"@
        } else {
            "skill failed"@
        },
        None => "skill failed"@,
    }
}

/// See [`skill_fail_message`].
pub fn format_skill_fail_reason(reason: Option<&str>) -> (r: &'static str)
    ensures
        r@ == skill_fail_message(opt_str_view(reason)),
{
    match reason {
        Some(x) => {
            if str_eq(x, "timeout") {
                "skill timed out"
            } else if str_eq(x, "transport_error") {
                "skill transport error"
            } else if str_eq(x, "invalid_response") {
                "skill returned invalid response"
            } else if str_eq(x, "max_depth") {
                "skill exceeded max chain depth"
            } else {
                "skill failed"
            }
        },
        None => "skill failed",
    }
}

/// Records the failure of the root call: a depth-1 `call_finish` with
/// result `fail` sets `terminal_failure` to `skill: message`; any other
/// event leaves it unchanged.
pub fn update_terminal_failure(event: &SkillTraceEventPayload, terminal_failure: &mut Option<String>)
    ensures
        (event.depth == 1 && event.event_type@ == "call_finish"@ && opt_view(
            event.result_code,
        ) == Some("fail"@)) ==> opt_view(*final(terminal_failure)) == Some(
            event.skill@ + ": "@ + skill_fail_message(opt_view(event.fail_reason)),
        ),
        !(event.depth == 1 && event.event_type@ == "call_finish"@ && opt_view(
            event.result_code,
        ) == Some("fail"@)) ==> opt_view(*final(terminal_failure)) == opt_view(
            *old(terminal_failure),
        ),
{
    let failed = match &event.result_code {
        Some(c) => str_eq(c.as_str(), "fail"),
        None => false,
    };
    if event.depth == 1 && str_eq(event.event_type.as_str(), "call_finish") && failed {
        let mut m = to_string(event.skill.as_str());
        push_str(&mut m, ": ");
        let reason = match &event.fail_reason {
            Some(f) => format_skill_fail_reason(Some(f.as_str())),
            None => format_skill_fail_reason(None),
        };
        push_str(&mut m, reason);
        *terminal_failure = Some(m);
    }
}

/// The outcome of a traced tool call once its stream ended: the skill
/// result when there is one (even after a recorded failure); else the
/// recorded failure, or a missing-result error; and an error when the
/// stream ended before `[DONE]` without a result.
pub fn resolve_skill_trace_outcome<T>(final_result: Option<T>, terminal_failure: Option<String>, saw_done: bool) -> (r: Result<T, String>)
    ensures
        match final_result {
            Some(v) => r == Ok::<T, String>(v),
            None => r matches Err(e) && e@ == (if !saw_done {
                "trace stream ended before [DONE]"@
            } else {
                match terminal_failure {
                    Some(f) => f@,
                    None => "trace stream missing skill_result"@,
                }
            }),
        },
{
    match final_result {
        Some(v) => Ok(v),
        None => {
            if !saw_done {
                return Err(to_string("trace stream ended before [DONE]"));
            }
            match terminal_failure {
                Some(f) => Err(f),
                None => Err(to_string("trace stream missing skill_result")),
            }
        },
    }
}

/// What an event-stream message asks of a trace reader.
#[derive(Debug)]
pub enum SseAction {
    /// A comment or an unrelated event.
    Ignore,
    /// The `[DONE]` marker.
    Done,
    /// A `skill_trace` event with this JSON data.
    Trace(String),
    /// A `skill_result` event with this JSON data.
    SkillResult(String),
}

/// Classifies an event-stream message: comments and unrelated events are
/// ignored; data `[DONE]` ends the stream; `skill_trace` and
/// `skill_result` events carry their data.
pub fn classify_sse_message(m: &SseMessage) -> (r: SseAction)
    ensures
        match *m {
            SseMessage::Comment(_) => r is Ignore,
            SseMessage::Event { event, data } => if data@ == "[DONE]"@ {
                r is Done
            } else if opt_view(event) == Some("skill_trace"@) {
                r matches SseAction::Trace(d) && d@ == data@
            } else if opt_view(event) == Some("skill_result"@) {
                r matches SseAction::SkillResult(d) && d@ == data@
            } else {
                r is Ignore
            },
        },
{
    match m {
        SseMessage::Comment(_) => SseAction::Ignore,
        SseMessage::Event { event, data } => {
            if str_eq(data.as_str(), "[DONE]") {
                return SseAction::Done;
            }
            match event {
                Some(e) => {
                    if str_eq(e.as_str(), "skill_trace") {
                        SseAction::Trace(data.clone())
                    } else if str_eq(e.as_str(), "skill_result") {
                        SseAction::SkillResult(data.clone())
                    } else {
                        SseAction::Ignore
                    }
                },
                None => SseAction::Ignore,
            }
        },
    }
}

/// A response is an event stream when its content type, lower-cased,
/// contains `text/event-stream` (a missing type counts as empty).
pub fn is_event_stream(content_type: Option<&str>) -> (b: bool)
    ensures
        b == match content_type {
            Some(c) => contains(ascii_lower(c@), "text/event-stream"@),
            None => contains(Seq::<char>::empty(), "text/event-stream"@),
        },
{
    let lowered = match content_type {
        Some(c) => to_ascii_lowercase(c),
        None => String::new(),
    };
    let l = chars_of(lowered.as_str());
    let p = chars_of("text/event-stream");
    contains_chars(&l, &p)
}

/// The error of a non-2xx skill response: the status, and the trimmed body
/// when it is not blank.
pub fn endpoint_error_message(status_text: &str, detail: &str) -> (r: String)
    ensures
        r@ == (if trim(detail@).len() == 0 {
            "endpoint returned error: "@ + status_text@
        } else {
            "endpoint returned error: "@ + status_text@ + ": "@ + trim(detail@)
        }),
{
    let t = trim_str(detail);
    let mut m = to_string("endpoint returned error: ");
    push_str(&mut m, status_text);
    if !t.as_str().is_empty() {
        push_str(&mut m, ": ");
        push_str(&mut m, t.as_str());
    }
    m
}

/// The progress line shown for a trace event; `timing` is the elapsed time
/// already rendered (` 1.2s`, or empty when unknown).
pub open spec fn trace_message_spec(event: SkillTraceEventPayload, timing: Seq<char>) -> Seq<char> {
    let t = event.event_type@;
    if t == "call_start"@ {
        event.skill@ + ": started"@
    } else if t == "subcall_start"@ {
        "calling "@ + event.skill@
    } else if t == "heartbeat"@ {
        let phase = match event.phase {
            Some(p) => p@,
            None => "working"@,
        };
        event.skill@ + ": "@ + phase.map_values(|c: char| if c == '_' { ' ' } else { c }) + timing
    } else if t == "subcall_finish"@ || t == "call_finish"@ {
        let result = match event.result_code {
            Some(r) => r@,
            None => "pass"@,
        };
        event.skill@ + ": "@ + result + timing
    } else {
        event.skill@ + ": "@ + t
    }
}

fn underscores_to_spaces(s: &str) -> (r: String)
    ensures
        r@ == s@.map_values(|c: char| if c == '_' { ' ' } else { c }),
{
    let v = chars_of(s);
    let mut out = String::new();
    let mut i: usize = 0;
    while i < v.len()
        invariant
            i <= v@.len(),
            v@ == s@,
            out@ == v@.take(i as int).map_values(|c: char| if c == '_' { ' ' } else { c }),
        decreases v@.len() - i,
    {
        let c = v[i];
        let d = if c == '_' {
            ' '
        } else {
            c
        };
        crate::text::push_char(&mut out, d);
        assert(v@.take(i + 1).map_values(|c: char| if c == '_' { ' ' } else { c }) =~= v@.take(
            i as int,
        ).map_values(|c: char| if c == '_' { ' ' } else { c }).push(d));
        i += 1;
    }
    assert(v@.take(v@.len() as int) == v@);
    out
}

/// See [`trace_message_spec`].
pub fn format_trace_message(event: &SkillTraceEventPayload, timing: &str) -> (r: String)
    ensures
        r@ == trace_message_spec(*event, timing@),
{
    let t = event.event_type.as_str();
    if str_eq(t, "call_start") {
        let mut m = to_string(event.skill.as_str());
        push_str(&mut m, ": started");
        m
    } else if str_eq(t, "subcall_start") {
        let mut m = to_string("calling ");
        push_str(&mut m, event.skill.as_str());
        m
    } else if str_eq(t, "heartbeat") {
        let phase = match &event.phase {
            Some(p) => underscores_to_spaces(p.as_str()),
            None => underscores_to_spaces("working"),
        };
        let mut m = to_string(event.skill.as_str());
        push_str(&mut m, ": ");
        push_str(&mut m, phase.as_str());
        push_str(&mut m, timing);
        m
    } else if str_eq(t, "subcall_finish") || str_eq(t, "call_finish") {
        let mut m = to_string(event.skill.as_str());
        push_str(&mut m, ": ");
        match &event.result_code {
            Some(r) => push_str(&mut m, r.as_str()),
            None => push_str(&mut m, "pass"),
        }
        push_str(&mut m, timing);
        m
    } else {
        let mut m = to_string(event.skill.as_str());
        push_str(&mut m, ": ");
        push_str(&mut m, t);
        m
    }
}

// ---------------------------------------------------------------------------
// Cancellation registry
// ---------------------------------------------------------------------------

/// The cancellation tokens of running tool calls, each under the random id
/// it was registered with; a caller later finds its token by that id.
pub struct McpCancelRegistry<T> {
    tokens: Vec<(String, T)>,
}

impl<T> View for McpCancelRegistry<T> {
    type V = Map<Seq<char>, T>;

    closed spec fn view(&self) -> Map<Seq<char>, T> {
        Map::new(
            |k: Seq<char>| exists|i: int| self.id_at(i, k),
            |k: Seq<char>| self.tokens@[choose|i: int| self.id_at(i, k)].1,
        )
    }
}

impl<T> McpCancelRegistry<T> {
    /// Entry `i` is registered under `k`.
    closed spec fn id_at(&self, i: int, k: Seq<char>) -> bool {
        0 <= i < self.tokens@.len() && self.tokens@[i].0@ == k
    }

    /// No id is registered twice.
    pub closed spec fn wf(&self) -> bool {
        forall|i: int, j: int|
            0 <= i < j < self.tokens@.len() ==> #[trigger] self.tokens@[i].0@
                != #[trigger] self.tokens@[j].0@
    }

    /// Entry `i` is what the registry holds under its id.
    proof fn lemma_entry(&self, i: int)
        requires
            self.wf(),
            0 <= i < self.tokens@.len(),
        ensures
            self@.contains_key(self.tokens@[i].0@),
            self@[self.tokens@[i].0@] == self.tokens@[i].1,
    {
        let k = self.tokens@[i].0@;
        assert(self.id_at(i, k));
        let j = choose|j: int| self.id_at(j, k);
        if j < i {
            assert(self.tokens@[j].0@ != self.tokens@[i].0@);
        } else if i < j {
            assert(self.tokens@[i].0@ != self.tokens@[j].0@);
        }
    }

    /// A key of the registry is the id of some entry.
    proof fn lemma_key(&self, k: Seq<char>) -> (i: int)
        requires
            self@.contains_key(k),
        ensures
            self.id_at(i, k),
    {
        choose|i: int| self.id_at(i, k)
    }

    /// An empty registry.
    pub fn new() -> (r: Self)
        ensures
            r.wf(),
            r@ == Map::<Seq<char>, T>::empty(),
    {
        let r = McpCancelRegistry { tokens: Vec::new() };
        assert(r@ =~= Map::<Seq<char>, T>::empty());
        r
    }

    /// The entry registered under `id`, if any.
    fn find(&self, id: &str) -> (r: Option<usize>)
        ensures
            r matches Some(i) ==> self.id_at(i as int, id@),
            r is None ==> forall|i: int| !self.id_at(i, id@),
    {
        let mut i: usize = 0;
        while i < self.tokens.len()
            invariant
                i <= self.tokens@.len(),
                forall|j: int| 0 <= j < i ==> !self.id_at(j, id@),
            decreases self.tokens@.len() - i,
        {
            if str_eq(self.tokens[i].0.as_str(), id) {
                return Some(i);
            }
            i += 1;
        }
        None
    }

    /// Registers `token` under a fresh random id, which it returns. Should
    /// the id already be taken, the new token replaces the old one.
    pub fn register(&mut self, token: T) -> (id: String)
        requires
            old(self).wf(),
        ensures
            final(self).wf(),
            final(self)@ == old(self)@.insert(id@, token),
    {
        let id = new_uuid();
        let ghost k0 = id@;
        let ghost before = *self;
        match self.find(id.as_str()) {
            Some(p) => {
                self.tokens.set(p, (to_string(id.as_str()), token));
                proof {
                    assert forall|i: int, j: int| 0 <= i < j < self.tokens@.len() implies
                        #[trigger] self.tokens@[i].0@ != #[trigger] self.tokens@[j].0@ by {
                        assert(self.tokens@[i].0@ == before.tokens@[i].0@);
                        assert(self.tokens@[j].0@ == before.tokens@[j].0@);
                    }
                    self.lemma_entry(p as int);
                    assert forall|k: Seq<char>| #[trigger] self@.contains_key(k)
                        == before@.insert(k0, token).contains_key(k) by {
                        if self@.contains_key(k) {
                            let i = self.lemma_key(k);
                            if i != p {
                                assert(before.id_at(i, k));
                            }
                        }
                        if before@.contains_key(k) {
                            let i = before.lemma_key(k);
                            if i != p {
                                assert(self.id_at(i, k));
                            }
                        }
                    }
                    assert forall|k: Seq<char>| #[trigger] self@.contains_key(k) implies self@[k]
                        == before@.insert(k0, token)[k] by {
                        if k != k0 {
                            let i = self.lemma_key(k);
                            assert(i != p);
                            self.lemma_entry(i);
                            before.lemma_entry(i);
                        }
                    }
                    assert(self@ =~= before@.insert(k0, token));
                }
            },
            None => {
                self.tokens.push((to_string(id.as_str()), token));
                proof {
                    let n = before.tokens@.len() as int;
                    assert forall|i: int, j: int| 0 <= i < j < self.tokens@.len() implies
                        #[trigger] self.tokens@[i].0@ != #[trigger] self.tokens@[j].0@ by {
                        if j == n {
                            assert(!before.id_at(i, k0));
                        } else {
                            assert(before.tokens@[i].0@ != before.tokens@[j].0@);
                        }
                    }
                    self.lemma_entry(n);
                    assert forall|k: Seq<char>| #[trigger] self@.contains_key(k)
                        == before@.insert(k0, token).contains_key(k) by {
                        if self@.contains_key(k) && k != k0 {
                            let i = self.lemma_key(k);
                            assert(i != n);
                            assert(before.id_at(i, k));
                        }
                        if before@.contains_key(k) {
                            let i = before.lemma_key(k);
                            assert(self.id_at(i, k));
                        }
                    }
                    assert forall|k: Seq<char>| #[trigger] self@.contains_key(k) implies self@[k]
                        == before@.insert(k0, token)[k] by {
                        if k != k0 {
                            let i = self.lemma_key(k);
                            assert(i != n);
                            self.lemma_entry(i);
                            before.lemma_entry(i);
                        }
                    }
                    assert(self@ =~= before@.insert(k0, token));
                }
            },
        }
        id
    }

    /// The token registered under `id`; `None` if it was never registered
    /// or has been removed.
    pub fn lookup(&self, id: &str) -> (r: Option<&T>)
        requires
            self.wf(),
        ensures
            r is Some <==> self@.contains_key(id@),
            r matches Some(t) ==> *t == self@[id@],
    {
        match self.find(id) {
            Some(i) => {
                proof {
                    self.lemma_entry(i as int);
                }
                Some(&self.tokens[i].1)
            },
            None => {
                proof {
                    if self@.contains_key(id@) {
                        let i = self.lemma_key(id@);
                    }
                }
                None
            },
        }
    }

    /// Forgets the token registered under `id`, if any.
    pub fn remove(&mut self, id: &str)
        requires
            old(self).wf(),
        ensures
            final(self).wf(),
            final(self)@ == old(self)@.remove(id@),
    {
        let ghost before = *self;
        match self.find(id) {
            Some(p) => {
                self.tokens.remove(p);
                proof {
                    assert forall|i: int, j: int| 0 <= i < j < self.tokens@.len() implies
                        #[trigger] self.tokens@[i].0@ != #[trigger] self.tokens@[j].0@ by {
                        if j < p {
                            assert(before.tokens@[i].0@ != before.tokens@[j].0@);
                        } else if i < p {
                            assert(before.tokens@[i].0@ != before.tokens@[j + 1].0@);
                        } else {
                            assert(before.tokens@[i + 1].0@ != before.tokens@[j + 1].0@);
                        }
                    }
                    assert forall|k: Seq<char>| #[trigger] self@.contains_key(k)
                        == before@.remove(id@).contains_key(k) by {
                        if self@.contains_key(k) {
                            let i = self.lemma_key(k);
                            let bi = if i < p { i } else { i + 1 };
                            assert(before.id_at(bi, k));
                            if k == id@ {
                                if bi < p {
                                    assert(before.tokens@[bi].0@ != before.tokens@[p as int].0@);
                                } else {
                                    assert(before.tokens@[p as int].0@ != before.tokens@[bi].0@);
                                }
                            }
                        }
                        if before@.contains_key(k) && k != id@ {
                            let i = before.lemma_key(k);
                            assert(i != p);
                            if i < p {
                                assert(self.id_at(i, k));
                            } else {
                                assert(self.id_at(i - 1, k));
                            }
                        }
                    }
                    assert forall|k: Seq<char>| #[trigger] self@.contains_key(k) implies self@[k]
                        == before@.remove(id@)[k] by {
                        let i = self.lemma_key(k);
                        self.lemma_entry(i);
                        if i < p {
                            before.lemma_entry(i);
                        } else {
                            before.lemma_entry(i + 1);
                        }
                    }
                    assert(self@ =~= before@.remove(id@));
                }
            },
            None => {
                proof {
                    if self@.contains_key(id@) {
                        let i = self.lemma_key(id@);
                    }
                    assert(self@ =~= before@.remove(id@));
                }
            },
        }
    }
}

/// A token registered under an id is what a lookup of that id finds; once
/// the id is removed, nothing is found under it.
pub proof fn lemma_register_lookup_remove<T>(reg: Map<Seq<char>, T>, id: Seq<char>, token: T)
    ensures
        reg.insert(id, token).contains_key(id),
        reg.insert(id, token)[id] == token,
        !reg.insert(id, token).remove(id).contains_key(id),
{
}

} // verus!
