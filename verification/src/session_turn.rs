//! One agent turn of a session: the messages sent to the model, the reading
//! of its streamed reply (content, usage and tool-call deltas), the decision
//! that ends the first call, tool routing, synthesis preflight and the
//! compaction request.
use vstd::prelude::*;
use crate::json::{
    as_str_spec, as_u64_spec, first_spec, get_spec, oget, ostr, ou64, ofirst, JsonValue,
};
use crate::secret::TenantToolRoute;
use crate::session::{
    classify_lowered_spec, preflight_decision, sat_mul, strip_think, strip_think_tags, unicode_lowercase,
    FunctionCall, ToolCall,
};
use crate::session_store::{
    assistant_message, lookup, without_id, Message, MessageView, PartView, SessionStore, SessionView,
};
use crate::text::{
    chars_of, contains, contains_chars, has_prefix, push_char, push_str, starts_with, str_eq,
    string_of_range, to_string, trim, trim_str,
};

verus! {

// ---------------------------------------------------------------------------
// Model messages
// ---------------------------------------------------------------------------

/// A tool call by view: id, type, function name, arguments.
pub type CallView = (Seq<char>, Seq<char>, Seq<char>, Seq<char>);

/// A model message by view: role, content, tool calls, tool call id.
pub type MsgView = (Seq<char>, Seq<char>, Option<Seq<CallView>>, Option<Seq<char>>);

/// A message of a model request.
#[derive(Debug)]
pub struct ModelMessage {
    pub role: String,
    pub content: String,
    pub tool_calls: Option<Vec<ToolCall>>,
    pub tool_call_id: Option<String>,
}

/// A tool call by view.
pub open spec fn call_view(c: ToolCall) -> CallView {
    (c.id@, c.call_type@, c.function.name@, c.function.arguments@)
}

/// Tool calls by view.
pub open spec fn calls_view(cs: Seq<ToolCall>) -> Seq<CallView> {
    cs.map_values(|c: ToolCall| call_view(c))
}

/// A model message by view.
pub open spec fn mm_view(m: ModelMessage) -> MsgView {
    (
        m.role@,
        m.content@,
        match m.tool_calls {
            Some(v) => Some(calls_view(v@)),
            None => None,
        },
        match m.tool_call_id {
            Some(s) => Some(s@),
            None => None,
        },
    )
}

/// Model messages by view.
pub open spec fn mms_view(ms: Seq<ModelMessage>) -> Seq<MsgView> {
    ms.map_values(|m: ModelMessage| mm_view(m))
}

/// A message with only a role and a content.
pub open spec fn plain(role: Seq<char>, content: Seq<char>) -> MsgView {
    (role, content, None, None)
}

/// The history messages as plain model messages.
pub open spec fn history_view(h: Seq<Message>) -> Seq<MsgView> {
    h.map_values(|m: Message| plain(m@.role, m@.content))
}

/// System prompt of the first model call.
pub open spec fn first_call_system_prompt() -> Seq<char> {
    "You are a helpful assistant. When responding, ALWAYS use proper markdown formatting with explicit newlines:\n\n1. Use double newlines (\\n\\n) to separate paragraphs\n2. Use single newlines for line breaks within sections\n3. Format lists with each item on its own line\n4. Format tables with each row on its own line\n5. Use headers (###) on their own lines with blank lines before and after\n6. NEVER run text together without proper spacing\n\nYour responses should be well-formatted markdown that renders correctly."@
}

/// System prompt of the synthesis call.
pub open spec fn synthesis_system_prompt() -> Seq<char> {
    "You are a helpful assistant."@
}

fn plain_message(role: &str, content: &str) -> (m: ModelMessage)
    ensures
        mm_view(m) == plain(role@, content@),
{
    ModelMessage {
        role: to_string(role),
        content: to_string(content),
        tool_calls: None,
        tool_call_id: None,
    }
}

fn push_history(v: &mut Vec<ModelMessage>, history: &[Message])
    ensures
        mms_view(final(v)@) == mms_view(old(v)@) + history_view(history@),
{
    let mut i: usize = 0;
    while i < history.len()
        invariant
            i <= history@.len(),
            mms_view(v@) == mms_view(old(v)@) + history_view(history@.take(i as int)),
        decreases history@.len() - i,
    {
        let ghost before = mms_view(v@);
        let m = plain_message(history[i].role.as_str(), history[i].content.as_str());
        v.push(m);
        assert(mms_view(v@) =~= before.push(plain(history@[i as int]@.role, history@[i as int]@.content)));
        assert(history_view(history@.take(i + 1)) =~= history_view(history@.take(i as int)).push(
            plain(history@[i as int]@.role, history@[i as int]@.content),
        ));
        i += 1;
    }
    assert(history@.take(history@.len() as int) == history@);
}

/// The first-call messages: the formatting system prompt, then the history.
pub fn build_first_call_messages(history: &[Message]) -> (r: Vec<ModelMessage>)
    ensures
        mms_view(r@) == seq![plain("system"@, first_call_system_prompt())] + history_view(history@),
{
    let mut v: Vec<ModelMessage> = Vec::new();
    v.push(
        plain_message(
            "system",
            "You are a helpful assistant. When responding, ALWAYS use proper markdown formatting with explicit newlines:\n\n1. Use double newlines (\\n\\n) to separate paragraphs\n2. Use single newlines for line breaks within sections\n3. Format lists with each item on its own line\n4. Format tables with each row on its own line\n5. Use headers (###) on their own lines with blank lines before and after\n6. NEVER run text together without proper spacing\n\nYour responses should be well-formatted markdown that renders correctly.",
        ),
    );
    assert(mms_view(v@) =~= seq![plain("system"@, first_call_system_prompt())]);
    push_history(&mut v, history);
    v
}

fn clone_call(c: &ToolCall) -> (r: ToolCall)
    ensures
        call_view(r) == call_view(*c),
{
    ToolCall {
        id: c.id.clone(),
        call_type: c.call_type.clone(),
        function: FunctionCall { name: c.function.name.clone(), arguments: c.function.arguments.clone() },
    }
}

fn clone_calls(cs: &[ToolCall]) -> (r: Vec<ToolCall>)
    ensures
        calls_view(r@) == calls_view(cs@),
{
    let mut out: Vec<ToolCall> = Vec::new();
    let mut i: usize = 0;
    while i < cs.len()
        invariant
            i <= cs@.len(),
            calls_view(out@) == calls_view(cs@.take(i as int)),
        decreases cs@.len() - i,
    {
        let ghost before = calls_view(out@);
        out.push(clone_call(&cs[i]));
        assert(calls_view(out@) =~= before.push(call_view(cs@[i as int])));
        assert(calls_view(cs@.take(i + 1)) =~= calls_view(cs@.take(i as int)).push(call_view(cs@[i as int])));
        i += 1;
    }
    assert(cs@.take(cs@.len() as int) == cs@);
    out
}

/// The synthesis-only suffix of a turn: the assistant message carrying the
/// tool calls, then one `tool` message per result, in order.
pub open spec fn synthesis_suffix_spec(calls: Seq<CallView>, results: Seq<(Seq<char>, Seq<char>)>) -> Seq<
    MsgView,
> {
    seq![("assistant"@, Seq::<char>::empty(), Some(calls), Option::<Seq<char>>::None)]
        + results.map_values(|r: (Seq<char>, Seq<char>)| ("tool"@, r.1, Option::<Seq<CallView>>::None, Some(r.0)))
}

/// See [`synthesis_suffix_spec`]; `tool_results` are `(tool_call_id, result)`.
pub fn build_synthesis_suffix(tool_calls: &[ToolCall], tool_results: &[(String, String)]) -> (r: Vec<
    ModelMessage,
>)
    ensures
        mms_view(r@) == synthesis_suffix_spec(
            calls_view(tool_calls@),
            tool_results@.map_values(|p: (String, String)| (p.0@, p.1@)),
        ),
{
    let ghost rv = tool_results@.map_values(|p: (String, String)| (p.0@, p.1@));
    let mut v: Vec<ModelMessage> = Vec::new();
    v.push(
        ModelMessage {
            role: to_string("assistant"),
            content: String::new(),
            tool_calls: Some(clone_calls(tool_calls)),
            tool_call_id: None,
        },
    );
    let ghost head = mms_view(v@);
    let mut i: usize = 0;
    while i < tool_results.len()
        invariant
            i <= tool_results@.len(),
            rv == tool_results@.map_values(|p: (String, String)| (p.0@, p.1@)),
            mms_view(v@) == head + rv.take(i as int).map_values(
                |r: (Seq<char>, Seq<char>)| ("tool"@, r.1, Option::<Seq<CallView>>::None, Some(r.0)),
            ),
        decreases tool_results@.len() - i,
    {
        let ghost before = mms_view(v@);
        let m = ModelMessage {
            role: to_string("tool"),
            content: tool_results[i].1.clone(),
            tool_calls: None,
            tool_call_id: Some(tool_results[i].0.clone()),
        };
        v.push(m);
        assert(mms_view(v@) =~= before.push(mm_view(m)));
        assert(rv.take(i + 1) =~= rv.take(i as int).push(rv[i as int]));
        assert(rv.take(i + 1).map_values(
            |r: (Seq<char>, Seq<char>)| ("tool"@, r.1, Option::<Seq<CallView>>::None, Some(r.0)),
        ) =~= rv.take(i as int).map_values(
            |r: (Seq<char>, Seq<char>)| ("tool"@, r.1, Option::<Seq<CallView>>::None, Some(r.0)),
        ).push(mm_view(m)));
        i += 1;
    }
    assert(rv.take(rv.len() as int) == rv);
    v
}

fn clone_model_message(m: &ModelMessage) -> (r: ModelMessage)
    ensures
        mm_view(r) == mm_view(*m),
{
    ModelMessage {
        role: m.role.clone(),
        content: m.content.clone(),
        tool_calls: match &m.tool_calls {
            Some(cs) => Some(clone_calls(cs.as_slice())),
            None => None,
        },
        tool_call_id: match &m.tool_call_id {
            Some(s) => Some(s.clone()),
            None => None,
        },
    }
}

/// The synthesis messages: the synthesis system prompt, the (compacted)
/// history, then the suffix.
pub fn build_synthesis_messages(history: &[Message], suffix: &[ModelMessage]) -> (r: Vec<ModelMessage>)
    ensures
        mms_view(r@) == seq![plain("system"@, synthesis_system_prompt())] + history_view(history@)
            + mms_view(suffix@),
{
    let mut v: Vec<ModelMessage> = Vec::new();
    v.push(plain_message("system", "You are a helpful assistant."));
    assert(mms_view(v@) =~= seq![plain("system"@, synthesis_system_prompt())]);
    push_history(&mut v, history);
    let ghost head = mms_view(v@);
    let mut i: usize = 0;
    while i < suffix.len()
        invariant
            i <= suffix@.len(),
            mms_view(v@) == head + mms_view(suffix@.take(i as int)),
        decreases suffix@.len() - i,
    {
        let ghost before = mms_view(v@);
        let m = clone_model_message(&suffix[i]);
        v.push(m);
        assert(mms_view(v@) =~= before.push(mm_view(suffix@[i as int])));
        assert(mms_view(suffix@.take(i + 1)) =~= mms_view(suffix@.take(i as int)).push(mm_view(suffix@[i as int])));
        i += 1;
    }
    assert(suffix@.take(suffix@.len() as int) == suffix@);
    v
}

// ---------------------------------------------------------------------------
// Reading a streamed model reply
// ---------------------------------------------------------------------------

/// What one line of a streamed model reply is.
#[derive(Debug)]
pub enum StreamLine {
    /// Not a `data: ` line.
    NotData,
    /// `data: [DONE]`.
    Done,
    /// The JSON text after `data: `.
    Data(String),
}

/// What a streamed line holds.
pub open spec fn stream_line_spec(line: Seq<char>) -> Option<Option<Seq<char>>> {
    if has_prefix(line, "data: "@) {
        let d = line.skip(6);
        if d == "[DONE]"@ {
            Some(None)
        } else {
            Some(Some(d))
        }
    } else {
        None
    }
}

/// Classifies one line of a streamed model reply.
pub fn stream_line_data(line: &str) -> (r: StreamLine)
    ensures
        match r {
            StreamLine::NotData => stream_line_spec(line@) is None,
            StreamLine::Done => stream_line_spec(line@) == Some(Option::<Seq<char>>::None),
            StreamLine::Data(d) => stream_line_spec(line@) == Some(Some(d@)),
        },
{
    proof {
        reveal_strlit("data: ");
    }
    let v = chars_of(line);
    let p = chars_of("data: ");
    if !starts_with(&v, &p) {
        return StreamLine::NotData;
    }
    let d = string_of_range(&v, 6, v.len());
    assert(v@.subrange(6, v@.len() as int) == v@.skip(6));
    if str_eq(d.as_str(), "[DONE]") {
        StreamLine::Done
    } else {
        StreamLine::Data(d)
    }
}

/// The position a streamed tool-call delta is routed to.
pub open spec fn delta_index(tc: JsonValue) -> int {
    match ou64(get_spec(tc, "index"@)) {
        Some(i) => (i as usize) as int,
        None => 0,
    }
}

/// Every tool-call delta of a chunk can be routed without overflowing.
pub open spec fn deltas_routable(json: JsonValue) -> bool {
    let delta = oget(ofirst(get_spec(json, "choices"@)), "delta"@);
    match oget(delta, "tool_calls"@) {
        Some(JsonValue::Array(items)) => forall|k: int|
            0 <= k < items@.len() ==> delta_index(#[trigger] items@[k]) < usize::MAX,
        _ => true,
    }
}

/// An empty tool-call slot.
pub open spec fn empty_slot() -> CallView {
    (Seq::empty(), "function"@, Seq::empty(), Seq::empty())
}

/// Merges one streamed tool-call delta into the calls gathered so far: the
/// delta is routed by its `index` (0 when missing), gaps are filled with
/// empty slots; the first non-empty `id` (with its `type`, `function` when
/// missing) and the first `function.name` stick; `function.arguments` pieces
/// are appended. A delta that is not an object is ignored.
pub open spec fn merge_delta(calls: Seq<CallView>, tc: JsonValue) -> Seq<CallView> {
    if !(tc is Object) {
        calls
    } else {
        let idx = delta_index(tc);
        let id = match ostr(get_spec(tc, "id"@)) {
            Some(x) => x,
            None => Seq::empty(),
        };
        let ty = match ostr(get_spec(tc, "type"@)) {
            Some(x) => x,
            None => "function"@,
        };
        let grown = if calls.len() <= idx {
            calls + Seq::new((idx + 1 - calls.len()) as nat, |k: int| empty_slot())
        } else {
            calls
        };
        let c0 = grown[idx];
        let c1 = if id.len() > 0 && c0.0.len() == 0 {
            (id, ty, c0.2, c0.3)
        } else {
            c0
        };
        let c2 = match get_spec(tc, "function"@) {
            Some(f) => if f is Object {
                let named = match ostr(get_spec(f, "name"@)) {
                    Some(n) => if c1.2.len() == 0 {
                        (c1.0, c1.1, n, c1.3)
                    } else {
                        c1
                    },
                    None => c1,
                };
                match ostr(get_spec(f, "arguments"@)) {
                    Some(a) => (named.0, named.1, named.2, named.3 + a),
                    None => named,
                }
            } else {
                c1
            },
            None => c1,
        };
        grown.update(idx, c2)
    }
}

/// A tool-call delta that names its slot `i` changes slot `i` only: the
/// calls grow to hold slot `i` (new slots between are empty), and every
/// other slot keeps what it held.
pub proof fn lemma_delta_touches_only_its_slot(calls: Seq<CallView>, tc: JsonValue, i: u64)
    requires
        tc is Object,
        ou64(get_spec(tc, "index"@)) == Some(i),
        i < usize::MAX,
    ensures
        merge_delta(calls, tc).len() == if calls.len() <= i {
            i + 1
        } else {
            calls.len() as int
        },
        forall|k: int|
            0 <= k < merge_delta(calls, tc).len() && k != i ==> #[trigger] merge_delta(calls, tc)[k] == if k
                < calls.len() {
                calls[k]
            } else {
                empty_slot()
            },
{
    assert(delta_index(tc) == i as int);
}

/// Deltas naming the slots after the gathered calls, one each and in order,
/// each open a slot of their own: from `m` calls, deltas for slots `m`,
/// `m + 1`, ... leave `m` plus their number of calls.
pub proof fn lemma_deltas_with_distinct_indices_make_distinct_calls(
    calls: Seq<CallView>,
    items: Seq<JsonValue>,
)
    requires
        calls.len() + items.len() < usize::MAX,
        forall|k: int|
            0 <= k < items.len() ==> (#[trigger] items[k]) is Object && ou64(get_spec(items[k], "index"@))
                == Some((calls.len() + k) as u64),
    ensures
        merge_deltas(calls, items).len() == calls.len() + items.len(),
    decreases items.len(),
{
    if items.len() > 0 {
        let m = calls.len();
        assert(items[0] is Object && ou64(get_spec(items[0], "index"@)) == Some(m as u64));
        lemma_delta_touches_only_its_slot(calls, items[0], m as u64);
        let next = merge_delta(calls, items[0]);
        assert(next.len() == m + 1);
        let rest = items.drop_first();
        assert forall|k: int| 0 <= k < rest.len() implies (#[trigger] rest[k]) is Object && ou64(
            get_spec(rest[k], "index"@),
        ) == Some((next.len() + k) as u64) by {
            assert(rest[k] == items[k + 1]);
        }
        lemma_deltas_with_distinct_indices_make_distinct_calls(next, rest);
    }
}

/// Merges the deltas `items` in order.
pub open spec fn merge_deltas(calls: Seq<CallView>, items: Seq<JsonValue>) -> Seq<CallView>
    decreases items.len(),
{
    if items.len() == 0 {
        calls
    } else {
        merge_deltas(merge_delta(calls, items[0]), items.drop_first())
    }
}

/// What a model reply stream has delivered so far.
#[derive(Debug)]
pub struct StreamTurn {
    pub full_content: String,
    pub tool_calls: Vec<ToolCall>,
    pub prompt_tokens: u64,
    pub finish_reason: Option<String>,
}

/// The state of a reply stream by view.
pub open spec fn turn_view(t: StreamTurn) -> (Seq<char>, Seq<CallView>, u64, Option<Seq<char>>) {
    (
        t.full_content@,
        calls_view(t.tool_calls@),
        t.prompt_tokens,
        match t.finish_reason {
            Some(f) => Some(f@),
            None => None,
        },
    )
}

/// The state after one `data:` JSON chunk, and the content to forward.
pub open spec fn on_chunk_spec(st: (Seq<char>, Seq<CallView>, u64, Option<Seq<char>>), json: JsonValue) -> (
    (Seq<char>, Seq<CallView>, u64, Option<Seq<char>>),
    Option<Seq<char>>,
) {
    match get_spec(json, "usage"@) {
        Some(u) => {
            let p = match ou64(get_spec(u, "prompt_tokens"@)) {
                Some(x) => x,
                None => 0,
            };
            ((st.0, st.1, if p > 0 { p } else { st.2 }, st.3), None)
        },
        None => match ofirst(get_spec(json, "choices"@)) {
            None => (st, None),
            Some(choice) => {
                let delta = get_spec(choice, "delta"@);
                let content = ostr(oget(delta, "content"@));
                let text = match content {
                    Some(d) => st.0 + d,
                    None => st.0,
                };
                let calls = match oget(delta, "tool_calls"@) {
                    Some(JsonValue::Array(items)) => merge_deltas(st.1, items@),
                    _ => st.1,
                };
                let fr = match ostr(get_spec(choice, "finish_reason"@)) {
                    Some(f) => Some(f),
                    None => st.3,
                };
                ((text, calls, st.2, fr), content)
            },
        },
    }
}

fn empty_call() -> (c: ToolCall)
    ensures
        call_view(c) == empty_slot(),
{
    ToolCall {
        id: String::new(),
        call_type: to_string("function"),
        function: FunctionCall { name: String::new(), arguments: String::new() },
    }
}

impl StreamTurn {
    /// Nothing received yet.
    pub fn new() -> (r: Self)
        ensures
            turn_view(r) == (Seq::<char>::empty(), Seq::<CallView>::empty(), 0u64, Option::<Seq<char>>::None),
    {
        let r = StreamTurn {
            full_content: String::new(),
            tool_calls: Vec::new(),
            prompt_tokens: 0,
            finish_reason: None,
        };
        assert(calls_view(r.tool_calls@) =~= Seq::<CallView>::empty());
        r
    }

    fn merge_one(&mut self, tc: &JsonValue)
        requires
            tc is Object ==> delta_index(*tc) < usize::MAX,
        ensures
            calls_view(final(self).tool_calls@) == merge_delta(calls_view(old(self).tool_calls@), *tc),
            final(self).full_content@ == old(self).full_content@,
            final(self).prompt_tokens == old(self).prompt_tokens,
            final(self).finish_reason == old(self).finish_reason,
    {
        if !tc.is_object() {
            return;
        }
        let idx: usize = match tc.get("index") {
            Some(v) => match v.as_u64() {
                Some(i) => i as usize,
                None => 0,
            },
            None => 0,
        };
        let id = match tc.get("id") {
            Some(v) => match v.as_str() {
                Some(x) => to_string(x),
                None => String::new(),
            },
            None => String::new(),
        };
        let ty = match tc.get("type") {
            Some(v) => match v.as_str() {
                Some(x) => to_string(x),
                None => to_string("function"),
            },
            None => to_string("function"),
        };
        let ghost old_calls = calls_view(self.tool_calls@);
        while self.tool_calls.len() <= idx
            invariant
                idx < usize::MAX,
                calls_view(self.tool_calls@) == old_calls + Seq::new(
                    (self.tool_calls@.len() - old_calls.len()) as nat,
                    |k: int| empty_slot(),
                ),
                self.tool_calls@.len() >= old_calls.len(),
                self.tool_calls@.len() <= (if old_calls.len() <= idx { idx + 1 } else { old_calls.len() as int }),
                self.full_content@ == old(self).full_content@,
                self.prompt_tokens == old(self).prompt_tokens,
                self.finish_reason == old(self).finish_reason,
            decreases idx + 1 - self.tool_calls@.len(),
        {
            let ghost before = calls_view(self.tool_calls@);
            let ghost n = (self.tool_calls@.len() - old_calls.len()) as nat;
            self.tool_calls.push(empty_call());
            assert(calls_view(self.tool_calls@) =~= before.push(empty_slot()));
            assert(before.push(empty_slot()) =~= old_calls + Seq::new(n + 1, |k: int| empty_slot()));
            assert(calls_view(self.tool_calls@) =~= old_calls + Seq::new(
                (self.tool_calls@.len() - old_calls.len()) as nat,
                |k: int| empty_slot(),
            ));
        }
        let ghost grown = calls_view(self.tool_calls@);
        assert(grown == (if old_calls.len() <= idx {
            old_calls + Seq::new((idx + 1 - old_calls.len()) as nat, |k: int| empty_slot())
        } else {
            old_calls
        })) by {
            if old_calls.len() > idx {
                assert(grown =~= old_calls);
            }
        }
        let mut c = clone_call(&self.tool_calls[idx]);
        if id.as_str().unicode_len() > 0 && c.id.as_str().unicode_len() == 0 {
            c.id = id;
            c.call_type = ty;
        }
        match tc.get("function") {
            Some(f) => {
                if f.is_object() {
                    match f.get("name") {
                        Some(n) => match n.as_str() {
                            Some(name) => {
                                if c.function.name.as_str().unicode_len() == 0 {
                                    c.function.name = to_string(name);
                                }
                            },
                            None => {},
                        },
                        None => {},
                    }
                    match f.get("arguments") {
                        Some(a) => match a.as_str() {
                            Some(args) => {
                                push_str(&mut c.function.arguments, args);
                            },
                            None => {},
                        },
                        None => {},
                    }
                }
            },
            None => {},
        }
        self.tool_calls.set(idx, c);
        assert(calls_view(self.tool_calls@) =~= grown.update(idx as int, call_view(c)));
    }

    /// Folds one `data:` JSON chunk of the first model call into the turn: a
    /// usage chunk updates the prompt tokens (when positive) and nothing else;
    /// otherwise the first choice's content delta is appended (and returned,
    /// to be forwarded), its tool-call deltas are merged and its finish
    /// reason recorded.
    pub fn on_chunk(&mut self, json: &JsonValue) -> (r: Option<String>)
        requires
            deltas_routable(*json),
        ensures
            (turn_view(*final(self)), match r {
                Some(d) => Some(d@),
                None => None,
            }) == on_chunk_spec(turn_view(*old(self)), *json),
    {
        match json.get("usage") {
            Some(u) => {
                let p: u64 = match u.get("prompt_tokens") {
                    Some(v) => match v.as_u64() {
                        Some(x) => x,
                        None => 0,
                    },
                    None => 0,
                };
                if p > 0 {
                    self.prompt_tokens = p;
                }
                return None;
            },
            None => {},
        }
        let choice = match json.get("choices") {
            Some(c) => c.first(),
            None => None,
        };
        let choice = match choice {
            Some(c) => c,
            None => {
                return None;
            },
        };
        let delta = choice.get("delta");
        let content: Option<String> = match delta {
            Some(d) => match d.get("content") {
                Some(c) => match c.as_str() {
                    Some(x) => Some(to_string(x)),
                    None => None,
                },
                None => None,
            },
            None => None,
        };
        match &content {
            Some(d) => push_str(&mut self.full_content, d.as_str()),
            None => {},
        }
        match delta {
            Some(d) => match d.get("tool_calls") {
                Some(JsonValue::Array(items)) => {
                    let mut k: usize = 0;
                    let ghost start = calls_view(self.tool_calls@);
                    assert(items@.skip(0) == items@);
                    while k < items.len()
                        invariant
                            k <= items@.len(),
                            forall|q: int|
                                0 <= q < items@.len() ==> delta_index(#[trigger] items@[q])
                                    < usize::MAX,
                            merge_deltas(start, items@) == merge_deltas(
                                calls_view(self.tool_calls@),
                                items@.skip(k as int),
                            ),
                            self.full_content@ == old(self).full_content@ + match content {
                                Some(d) => d@,
                                None => Seq::<char>::empty(),
                            },
                            self.prompt_tokens == old(self).prompt_tokens,
                            self.finish_reason == old(self).finish_reason,
                        decreases items@.len() - k,
                    {
                        assert(items@.skip(k as int)[0] == items@[k as int]);
                        assert(items@.skip(k as int).drop_first() == items@.skip(k + 1));
                        self.merge_one(&items[k]);
                        k += 1;
                    }
                    assert(items@.skip(items@.len() as int) =~= Seq::<JsonValue>::empty());
                },
                _ => {},
            },
            None => {},
        }
        match choice.get("finish_reason") {
            Some(f) => match f.as_str() {
                Some(x) => {
                    self.finish_reason = Some(to_string(x));
                },
                None => {},
            },
            None => {},
        }
        content
    }
}

// ---------------------------------------------------------------------------
// Decisions of a turn
// ---------------------------------------------------------------------------

/// How the first model call of a streamed turn ended.
#[derive(Clone, Copy, Debug, PartialEq, Eq, Structural)]
pub enum FirstCallEnd {
    /// The user interrupted the turn.
    Interrupted,
    /// The stream broke; the user prompt is rolled back when nothing at all
    /// was delivered.
    StreamError { rollback_user_message: bool },
    /// The model asked for tools: run them, then synthesize.
    RunTools,
    /// A plain reply: store it.
    StoreReply,
    /// Neither content nor tool calls: roll back the user prompt and report
    /// an empty response.
    EmptyReply,
}

/// See [`FirstCallEnd`].
pub open spec fn first_call_end_spec(
    interrupted: bool,
    stream_error: bool,
    content_len: nat,
    tool_calls_len: nat,
    finish_reason: Option<Seq<char>>,
) -> FirstCallEnd {
    if interrupted {
        FirstCallEnd::Interrupted
    } else if stream_error {
        FirstCallEnd::StreamError { rollback_user_message: content_len == 0 && tool_calls_len == 0 }
    } else if tool_calls_len > 0 || finish_reason == Some("tool_calls"@) {
        FirstCallEnd::RunTools
    } else if content_len > 0 {
        FirstCallEnd::StoreReply
    } else {
        FirstCallEnd::EmptyReply
    }
}

/// Decides how the first model call of a streamed turn ended.
pub fn first_call_end(interrupted: bool, stream_error: bool, turn: &StreamTurn) -> (r: FirstCallEnd)
    ensures
        r == first_call_end_spec(
            interrupted,
            stream_error,
            turn.full_content@.len(),
            turn.tool_calls@.len(),
            turn_view(*turn).3,
        ),
{
    let content_empty = turn.full_content.as_str().is_empty();
    if interrupted {
        return FirstCallEnd::Interrupted;
    }
    if stream_error {
        return FirstCallEnd::StreamError {
            rollback_user_message: content_empty && turn.tool_calls.len() == 0,
        };
    }
    let fr_tools = match &turn.finish_reason {
        Some(f) => str_eq(f.as_str(), "tool_calls"),
        None => false,
    };
    if turn.tool_calls.len() > 0 || fr_tools {
        FirstCallEnd::RunTools
    } else if !content_empty {
        FirstCallEnd::StoreReply
    } else {
        FirstCallEnd::EmptyReply
    }
}

/// A line of a content-only reply stream (synthesis or retry).
#[derive(Debug)]
pub enum ParsedContentStreamLine {
    Ignore,
    Done,
    Usage { prompt_tokens: u64 },
    ContentDelta(String),
}

/// What a content-only stream line carries, given its JSON (`None` when the
/// data is not JSON): the usage's prompt tokens when present, else the
/// first choice's content delta.
pub open spec fn content_json_spec(json: Option<JsonValue>) -> Option<Result<u64, Seq<char>>> {
    match json {
        None => None,
        Some(j) => match ou64(oget(get_spec(j, "usage"@), "prompt_tokens"@)) {
            Some(p) => Some(Ok(p)),
            None => match ostr(oget(oget(ofirst(get_spec(j, "choices"@)), "delta"@), "content"@)) {
                Some(d) => Some(Err(d)),
                None => None,
            },
        },
    }
}

/// Classifies the JSON of a content-only stream line.
pub fn classify_content_json(json: Option<&JsonValue>) -> (r: ParsedContentStreamLine)
    ensures
        match r {
            ParsedContentStreamLine::Ignore => content_json_spec(
                match json {
                    Some(j) => Some(*j),
                    None => None,
                },
            ) is None,
            ParsedContentStreamLine::Done => false,
            ParsedContentStreamLine::Usage { prompt_tokens } => content_json_spec(
                match json {
                    Some(j) => Some(*j),
                    None => None,
                },
            ) == Some(Ok::<u64, Seq<char>>(prompt_tokens)),
            ParsedContentStreamLine::ContentDelta(d) => content_json_spec(
                match json {
                    Some(j) => Some(*j),
                    None => None,
                },
            ) == Some(Err::<u64, Seq<char>>(d@)),
        },
{
    let j = match json {
        Some(j) => j,
        None => {
            return ParsedContentStreamLine::Ignore;
        },
    };
    let usage = j.get("usage");
    let p = match usage {
        Some(u) => match u.get("prompt_tokens") {
            Some(v) => v.as_u64(),
            None => None,
        },
        None => None,
    };
    match p {
        Some(x) => {
            return ParsedContentStreamLine::Usage { prompt_tokens: x };
        },
        None => {},
    }
    let choice = match j.get("choices") {
        Some(c) => c.first(),
        None => None,
    };
    let delta = match choice {
        Some(c) => c.get("delta"),
        None => None,
    };
    let content = match delta {
        Some(d) => match d.get("content") {
            Some(c) => c.as_str(),
            None => None,
        },
        None => None,
    };
    match content {
        Some(d) => ParsedContentStreamLine::ContentDelta(to_string(d)),
        None => ParsedContentStreamLine::Ignore,
    }
}

/// What a content-only stream has delivered: its text and the latest
/// positive prompt-token usage (0 when none was reported).
#[derive(Debug)]
pub struct ContentStreamState {
    pub content: String,
    pub prompt_tokens: u64,
}

impl ContentStreamState {
    /// Nothing delivered yet.
    pub fn new() -> (r: Self)
        ensures
            r.content@.len() == 0,
            r.prompt_tokens == 0,
    {
        ContentStreamState { content: String::new(), prompt_tokens: 0 }
    }

    /// Folds one classified line: a positive usage replaces the prompt
    /// tokens, a delta is appended and returned to be forwarded.
    pub fn apply(&mut self, line: &ParsedContentStreamLine) -> (fwd: Option<String>)
        ensures
            match *line {
                ParsedContentStreamLine::Usage { prompt_tokens } => final(self).content@ == old(
                    self,
                ).content@ && final(self).prompt_tokens == (if prompt_tokens > 0 {
                    prompt_tokens
                } else {
                    old(self).prompt_tokens
                }) && fwd is None,
                ParsedContentStreamLine::ContentDelta(d) => final(self).content@ == old(
                    self,
                ).content@ + d@ && final(self).prompt_tokens == old(self).prompt_tokens
                    && (fwd matches Some(x) && x@ == d@),
                _ => final(self).content@ == old(self).content@ && final(self).prompt_tokens == old(
                    self,
                ).prompt_tokens && fwd is None,
            },
    {
        match line {
            ParsedContentStreamLine::Usage { prompt_tokens } => {
                if *prompt_tokens > 0 {
                    self.prompt_tokens = *prompt_tokens;
                }
                None
            },
            ParsedContentStreamLine::ContentDelta(d) => {
                push_str(&mut self.content, d.as_str());
                Some(d.clone())
            },
            _ => None,
        }
    }
}

/// The route of the tool named `name`: the first route with that tool name.
pub fn find_route(routes: &[TenantToolRoute], name: &str) -> (r: Option<usize>)
    ensures
        match r {
            Some(i) => i < routes@.len() && routes@[i as int].tool_name@ == name@ && forall|j: int|
                0 <= j < i ==> routes@[j].tool_name@ != name@,
            None => forall|j: int| 0 <= j < routes@.len() ==> routes@[j].tool_name@ != name@,
        },
{
    let mut i: usize = 0;
    while i < routes.len()
        invariant
            i <= routes@.len(),
            forall|j: int| 0 <= j < i ==> routes@[j].tool_name@ != name@,
        decreases routes@.len() - i,
    {
        if str_eq(routes[i].tool_name.as_str(), name) {
            return Some(i);
        }
        i += 1;
    }
    None
}

/// The tool result for a tool no route serves.
pub fn unknown_tool_message(name: &str) -> (r: String)
    ensures
        r@ == "Unknown tool: "@ + name@,
{
    let mut m = to_string("Unknown tool: ");
    push_str(&mut m, name);
    m
}

/// The query sent to a skill tool: the `query` string of the JSON
/// arguments, else the raw arguments.
pub fn skill_tool_query(arguments: &str, parsed: Option<&JsonValue>) -> (r: String)
    ensures
        r@ == match ostr(oget(
            match parsed {
                Some(j) => Some(*j),
                None => None,
            },
            "query"@,
        )) {
            Some(q) => q,
            None => arguments@,
        },
{
    let q = match parsed {
        Some(j) => match j.get("query") {
            Some(v) => v.as_str(),
            None => None,
        },
        None => None,
    };
    match q {
        Some(x) => to_string(x),
        None => to_string(arguments),
    }
}

/// The tool result of a skill reply: the first choice's message content
/// without think blocks, else a note that there was none.
pub fn skill_tool_reply(json: &JsonValue) -> (r: String)
    ensures
        r@ == match ostr(oget(oget(ofirst(get_spec(*json, "choices"@)), "message"@), "content"@)) {
            Some(c) => strip_think(c),
            None => "No content in skill response"@,
        },
{
    let choice = match json.get("choices") {
        Some(c) => c.first(),
        None => None,
    };
    let message = match choice {
        Some(c) => c.get("message"),
        None => None,
    };
    let content = match message {
        Some(m) => match m.get("content") {
            Some(c) => c.as_str(),
            None => None,
        },
        None => None,
    };
    match content {
        Some(c) => strip_think_tags(c),
        None => to_string("No content in skill response"),
    }
}

/// A model reply is its trimmed content when that is not empty.
pub fn reply_content(content: Option<&str>) -> (r: Option<String>)
    ensures
        match content {
            Some(c) => if trim(c@).len() > 0 {
                r matches Some(x) && x@ == trim(c@)
            } else {
                r is None
            },
            None => r is None,
        },
{
    match content {
        Some(c) => {
            let t = trim_str(c);
            if t.as_str().is_empty() {
                None
            } else {
                Some(t)
            }
        },
        None => None,
    }
}

/// The error shown for a failed prompt: the actionable message for an
/// endpoint that can no longer be reached, else `Model error: ...`.
pub fn prompt_error_content(message: &str) -> (r: String)
    ensures
        r@ == match classify_lowered_spec(unicode_lowercase(message@)) {
            Some(m) => m,
            None => "Model error: "@ + message@,
        },
{
    match crate::session::classify_endpoint_dispatch_error(message) {
        Some(m) => m,
        None => {
            let mut e = to_string("Model error: ");
            push_str(&mut e, message);
            e
        },
    }
}

/// The output cap of the first model call: half the context window, at
/// least 512, when the window is known; else 20000 (as an `i32`).
pub fn first_call_max_tokens(ctx: u64) -> (r: i32)
    ensures
        r == (if ctx > 0 {
            (if ctx / 2 >= 512 { ctx / 2 } else { 512 }) as i32
        } else {
            20000i32
        }),
{
    if ctx > 0 {
        let h = ctx / 2;
        let m: u64 = if h >= 512 {
            h
        } else {
            512
        };
        #[verifier::truncate]
        (m as i32)
    } else {
        20000
    }
}

/// The output cap of the synthesis retry: a quarter of the context window,
/// at least 512, when the window is known; else 4096 (as an `i32`).
pub fn retry_max_tokens(ctx: u64) -> (r: i32)
    ensures
        r == (if ctx > 0 {
            (if ctx / 4 >= 512 { ctx / 4 } else { 512 }) as i32
        } else {
            4096i32
        }),
{
    if ctx > 0 {
        let q = ctx / 4;
        let m: u64 = if q >= 512 {
            q
        } else {
            512
        };
        #[verifier::truncate]
        (m as i32)
    } else {
        4096
    }
}

/// The synthesis preflight estimate: anchored on the preceding call's
/// reported prompt tokens plus the suffix estimate when usage was reported,
/// else the estimate of the whole rebuilt request.
pub fn synthesis_estimate(prompt_tokens: u64, suffix_estimate: u64, whole_estimate: u64) -> (r: u64)
    requires
        prompt_tokens > 0 ==> prompt_tokens + suffix_estimate <= u64::MAX,
    ensures
        r == (if prompt_tokens > 0 {
            prompt_tokens + suffix_estimate
        } else {
            whole_estimate as int
        }),
{
    if prompt_tokens > 0 {
        crate::session::estimate_synthesis_tokens(prompt_tokens, suffix_estimate)
    } else {
        whole_estimate
    }
}

/// How a compaction attempt ended.
#[derive(Clone, Copy, Debug, PartialEq, Eq, Structural)]
pub enum CompactionResult {
    Compacted,
    NoChange,
    NoOp,
    Failed,
}

/// The error reported when a synthesis call overflowed the context and
/// compaction could not help; `None` when compaction succeeded and the
/// synthesis is retried.
pub fn overflow_compaction_message(result: CompactionResult) -> (r: Option<&'static str>)
    ensures
        match result {
            CompactionResult::Compacted => r is None,
            CompactionResult::Failed => r matches Some(m) && m@
                == "Synthesis failed and history compaction also failed"@,
            CompactionResult::NoOp => r matches Some(m) && m@
                == "Request exceeds context window; history is too short to compact further"@,
            CompactionResult::NoChange => r matches Some(m) && m@
                == "Request exceeds context window; compaction returned no usable summary"@,
        },
{
    match result {
        CompactionResult::Compacted => None,
        CompactionResult::Failed => Some("Synthesis failed and history compaction also failed"),
        CompactionResult::NoOp => Some(
            "Request exceeds context window; history is too short to compact further",
        ),
        CompactionResult::NoChange => Some(
            "Request exceeds context window; compaction returned no usable summary",
        ),
    }
}

/// The compaction outcome of a summarizer reply: compacted with the trimmed
/// summary when it is not empty, else no change.
pub fn compaction_summary(content: Option<&str>) -> (r: (CompactionResult, Option<String>))
    ensures
        match content {
            Some(c) => if trim(c@).len() > 0 {
                r.0 == CompactionResult::Compacted && (r.1 matches Some(s) && s@ == trim(c@))
            } else {
                r.0 == CompactionResult::NoChange && r.1 is None
            },
            None => r.0 == CompactionResult::NoChange && r.1 is None,
        },
{
    match reply_content(content) {
        Some(s) => (CompactionResult::Compacted, Some(s)),
        None => (CompactionResult::NoChange, None),
    }
}

/// A context-overflow error text.
pub open spec fn overflow_text(s: Seq<char>) -> bool {
    contains(s, "maximum context length"@) || contains(s, "context_length_exceeded"@)
}

/// Whether a 400 body reports a context overflow: by its `error.message`
/// when the body is JSON carrying one, else by the raw body.
pub fn is_context_overflow(body: &str, parsed: Option<&JsonValue>) -> (b: bool)
    ensures
        b == match ostr(oget(oget(
            match parsed {
                Some(j) => Some(*j),
                None => None,
            },
            "error"@,
        ), "message"@)) {
            Some(m) => overflow_text(m),
            None => overflow_text(body@),
        },
{
    let msg = match parsed {
        Some(j) => match j.get("error") {
            Some(e) => match e.get("message") {
                Some(m) => m.as_str(),
                None => None,
            },
            None => None,
        },
        None => None,
    };
    let text = match msg {
        Some(m) => chars_of(m),
        None => chars_of(body),
    };
    let a = chars_of("maximum context length");
    let c = chars_of("context_length_exceeded");
    contains_chars(&text, &a) || contains_chars(&text, &c)
}

/// The conversation text handed to the summarizer: the non-system messages
/// as `role: content`, separated by blank lines.
pub open spec fn history_text(h: Seq<MessageView>) -> Seq<char>
    decreases h.len(),
{
    if h.len() == 0 {
        Seq::empty()
    } else {
        let prev = history_text(h.drop_last());
        let m = h.last();
        if m.role == "system"@ {
            prev
        } else {
            let line = m.role + ": "@ + m.content;
            if !exists_non_system(h.drop_last()) {
                line
            } else {
                prev + "\n\n"@ + line
            }
        }
    }
}

proof fn lemma_history_text_empty(h: Seq<MessageView>)
    requires
        !exists_non_system(h),
    ensures
        history_text(h) == Seq::<char>::empty(),
    decreases h.len(),
{
    if h.len() > 0 {
        assert(h[h.len() - 1].role == "system"@);
        assert forall|i: int| 0 <= i < h.drop_last().len() implies h.drop_last()[i].role == "system"@ by {
            assert(h.drop_last()[i] == h[i]);
        }
        lemma_history_text_empty(h.drop_last());
    }
}

/// Some message is not a system message.
pub open spec fn exists_non_system(h: Seq<MessageView>) -> bool {
    exists|i: int| 0 <= i < h.len() && h[i].role != "system"@
}

/// The summarizer's request text: an update of the previous summary when
/// the summarized head starts with one (a system message beginning
/// `## Summary`), else a fresh summary request.
pub open spec fn compaction_request_spec(h: Seq<MessageView>) -> Seq<char> {
    if h.len() > 0 && h[0].role == "system"@ && has_prefix(h[0].content, "## Summary"@) {
        "Update the summary below with the new conversation history.\n<previous-summary>\n"@
            + h[0].content + "\n</previous-summary>\n\nNew history:\n"@ + history_text(h)
    } else {
        "Summarize this conversation history:\n\n"@ + history_text(h)
    }
}

fn history_text_exec(head: &[Message]) -> (r: String)
    ensures
        r@ == history_text(head@.map_values(|m: Message| m@)),
{
    let ghost hv = head@.map_values(|m: Message| m@);
    let mut out = String::new();
    let mut any = false;
    let mut i: usize = 0;
    while i < head.len()
        invariant
            i <= head@.len(),
            hv == head@.map_values(|m: Message| m@),
            out@ == history_text(hv.take(i as int)),
            any == exists_non_system(hv.take(i as int)),
        decreases head@.len() - i,
    {
        let ghost t = hv.take(i + 1);
        assert(t.drop_last() == hv.take(i as int));
        assert(t.last() == head@[i as int]@);
        let m = &head[i];
        if !str_eq(m.role.as_str(), "system") {
            if any {
                push_str(&mut out, "\n\n");
            }
            push_str(&mut out, m.role.as_str());
            push_str(&mut out, ": ");
            push_str(&mut out, m.content.as_str());
            proof {
                assert(t[i as int].role != "system"@);
                if !any {
                    lemma_history_text_empty(hv.take(i as int));
                    assert(out@ =~= head@[i as int]@.role + ": "@ + head@[i as int]@.content);
                }
            }
            any = true;
        } else {
            proof {
                if exists_non_system(t) {
                    let k = choose|k: int| 0 <= k < t.len() && t[k].role != "system"@;
                    assert(k < i);
                    assert(hv.take(i as int)[k] == t[k]);
                }
                if exists_non_system(hv.take(i as int)) {
                    let k = choose|k: int| 0 <= k < i && hv.take(i as int)[k].role != "system"@;
                    assert(t[k] == hv.take(i as int)[k]);
                }
            }
        }
        proof {
            if m.role@ != "system"@ {
                assert(t[i as int].role != "system"@);
                assert(exists_non_system(t));
            }
            if exists_non_system(hv.take(i as int)) {
                let k = choose|k: int| 0 <= k < i && hv.take(i as int)[k].role != "system"@;
                assert(t[k] == hv.take(i as int)[k]);
            }
        }
        i += 1;
    }
    assert(hv.take(hv.len() as int) == hv);
    out
}

/// See [`compaction_request_spec`]; `head` is the model history being
/// summarized.
pub fn compaction_request_text(head: &[Message]) -> (r: String)
    ensures
        r@ == compaction_request_spec(head@.map_values(|m: Message| m@)),
{
    let history = history_text_exec(head);
    let is_update = head.len() > 0 && str_eq(head[0].role.as_str(), "system") && {
        let c = chars_of(head[0].content.as_str());
        let p = chars_of("## Summary");
        starts_with(&c, &p)
    };
    if is_update {
        let mut s = to_string(
            "Update the summary below with the new conversation history.\n<previous-summary>\n",
        );
        push_str(&mut s, head[0].content.as_str());
        push_str(&mut s, "\n</previous-summary>\n\nNew history:\n");
        push_str(&mut s, history.as_str());
        s
    } else {
        let mut s = to_string("Summarize this conversation history:\n\n");
        push_str(&mut s, history.as_str());
        s
    }
}


// ---------------------------------------------------------------------------
// Interrupted turns
// ---------------------------------------------------------------------------

/// The reply stored for a turn interrupted after its tools ran but before
/// any visible answer.
pub open spec fn interrupted_tool_turn_message() -> Seq<char> {
    "Request interrupted after tool execution before a final answer was produced."@
}

/// The session `after` is `before` with one more assistant message, whose
/// content is `content`, in both the transcript and the model context; its
/// other fields are unchanged but for the update time.
pub open spec fn appended_reply(before: SessionView, after: SessionView, content: Seq<char>) -> bool {
    &&& after.messages.len() == before.messages.len() + 1
    &&& after.messages.drop_last() == before.messages
    &&& after.messages.last().role == "assistant"@
    &&& after.messages.last().content == content
    &&& after.model_messages == before.model_messages.push(after.messages.last())
    &&& after == SessionView {
        messages: after.messages,
        model_messages: after.model_messages,
        updated_at_ms: after.updated_at_ms,
        ..before
    }
}

/// Stores what is left of an interrupted turn (see
/// [`interrupted_turn_storage_decision`]): visible text becomes the
/// assistant reply; with no visible text, a turn that ran tools stores a
/// marker reply, and a turn that did not removes its user message.
pub fn finalize_interrupted_prompt(
    store: &mut SessionStore,
    session_id: &str,
    user_message_id: &str,
    partial_content: &str,
    tool_calls: &[ToolCall],
)
    requires
        old(store).wf(),
    ensures
        final(store).wf(),
        forall|x: Seq<char>| x != session_id@ ==> lookup(final(store)@, x) == lookup(old(store)@, x),
        lookup(old(store)@, session_id@) is None ==> final(store)@ == old(store)@,
        lookup(old(store)@, session_id@) matches Some(s) ==> lookup(final(store)@, session_id@) matches Some(t) && {
            if strip_think(partial_content@).len() > 0 {
                appended_reply(s, t, strip_think(partial_content@))
            } else if tool_calls@.len() > 0 {
                appended_reply(s, t, interrupted_tool_turn_message())
            } else {
                t == SessionView {
                    messages: without_id(s.messages, user_message_id@),
                    model_messages: without_id(s.model_messages, user_message_id@),
                    updated_at_ms: t.updated_at_ms,
                    ..s
                }
            }
        },
{
    match crate::session::interrupted_turn_storage_decision(partial_content, tool_calls) {
        crate::session::InterruptedTurnStorageDecision::DropUserPrompt => {
            store.RemoveMessageById(session_id, user_message_id);
        },
        crate::session::InterruptedTurnStorageDecision::StoreAssistantText(text) => {
            let m = assistant_message(text);
            let ghost mv = m@;
            let _ = store.AddMessage(session_id, m);
            proof {
                if let Some(s) = lookup(old(store)@, session_id@) {
                    let t = lookup(store@, session_id@)->0;
                    assert(t.messages == s.messages.push(mv));
                    assert(t.messages.drop_last() =~= s.messages);
                }
            }
        },
        crate::session::InterruptedTurnStorageDecision::StoreInterruptedMarker => {
            let m = assistant_message(
                to_string("Request interrupted after tool execution before a final answer was produced."),
            );
            let ghost mv = m@;
            let _ = store.AddMessage(session_id, m);
            proof {
                if let Some(s) = lookup(old(store)@, session_id@) {
                    let t = lookup(store@, session_id@)->0;
                    assert(t.messages == s.messages.push(mv));
                    assert(t.messages.drop_last() =~= s.messages);
                }
            }
        },
    }
}

// ---------------------------------------------------------------------------
// The synthesis phase of a streamed turn
// ---------------------------------------------------------------------------

/// Where the synthesis phase of a turn that ran tools stands.
#[derive(Clone, Copy, Debug, PartialEq, Eq, Structural)]
pub enum SynthesisState {
    /// The tools have answered; the synthesis preflight comes next.
    AfterTools,
    /// History was compacted by the preflight; the request is re-estimated.
    CompactedForPreflight,
    /// The synthesis request was sent.
    AwaitingSynthesis,
    /// The synthesis overflowed the context and history is being compacted.
    CompactingForOverflow,
    /// The synthesis is retried on the compacted history.
    Retrying,
    /// The phase is over.
    Done,
}

/// What happened next in the synthesis phase.
#[derive(Debug)]
pub enum SynthesisEvent {
    /// The synthesis request's token estimate against the context window.
    Estimate { estimate: u64, ctx: u64, ratio_pct: u64 },
    /// The turn was cancelled before the synthesis answered.
    Cancelled,
    /// The synthesis request could not be sent.
    SendFailed(String),
    /// The synthesis was answered with a non-success status; `overflow`:
    /// the body says the context window was exceeded.
    Rejected { status: u16, overflow: bool },
    /// The synthesis stream completed; whether it carried no content.
    Completed { content_empty: bool },
    /// The synthesis stream was interrupted.
    StreamInterrupted,
    /// The synthesis stream failed.
    StreamFailed(String),
    /// The overflow compaction ended.
    Compaction(CompactionResult),
}

/// What the turn does next.
#[derive(Debug)]
pub enum SynthesisAction {
    /// Compact the history (announcing it), then report the new estimate.
    CompactHistory,
    /// Send the synthesis request built from the model context.
    SendSynthesis,
    /// Store what the interrupted turn left and announce the interruption.
    FinalizeInterrupted,
    /// Store the synthesized reply (then the post-turn compaction check).
    StoreReply,
    /// Retry the synthesis on the compacted history.
    RetryAfterCompaction,
    /// Send this error event.
    Fail { error: String, message: String },
    /// The event does not belong to the current state: nothing happens.
    Ignore,
}

/// An action by view.
pub enum SynthesisActionSpec {
    CompactHistory,
    SendSynthesis,
    FinalizeInterrupted,
    StoreReply,
    RetryAfterCompaction,
    Fail(Seq<char>, Seq<char>),
    Ignore,
}

/// See [`SynthesisActionSpec`].
pub open spec fn synthesis_action_view(a: SynthesisAction) -> SynthesisActionSpec {
    match a {
        SynthesisAction::CompactHistory => SynthesisActionSpec::CompactHistory,
        SynthesisAction::SendSynthesis => SynthesisActionSpec::SendSynthesis,
        SynthesisAction::FinalizeInterrupted => SynthesisActionSpec::FinalizeInterrupted,
        SynthesisAction::StoreReply => SynthesisActionSpec::StoreReply,
        SynthesisAction::RetryAfterCompaction => SynthesisActionSpec::RetryAfterCompaction,
        SynthesisAction::Fail { error, message } => SynthesisActionSpec::Fail(error@, message@),
        SynthesisAction::Ignore => SynthesisActionSpec::Ignore,
    }
}

/// The message of an overflow compaction that did not help.
pub open spec fn overflow_failure_message(r: CompactionResult) -> Seq<char> {
    match r {
        CompactionResult::Failed => "Synthesis failed and history compaction also failed"@,
        CompactionResult::NoOp => "Request exceeds context window; history is too short to compact further"@,
        _ => "Request exceeds context window; compaction returned no usable summary"@,
    }
}

/// One step of the synthesis phase:
/// - after the tools, a preflight estimate at the threshold compacts the
///   history first, else the synthesis is sent; after that compaction, an
///   estimate still at the threshold fails the turn (the tool results alone
///   are too large), else the synthesis is sent;
/// - a sent synthesis ends with the interruption stored on cancel or an
///   interrupted stream, the reply stored when it has content, an
///   `empty_response` error when not, an `upstream_error` when it could not
///   be sent or was refused, a `stream_error` when its stream failed; a 400
///   that reports a context overflow compacts the history instead;
/// - that compaction, when it compacted, retries the synthesis; otherwise
///   the turn fails with the reason;
/// - the retry ends as a sent synthesis does, except that any 400 fails the
///   turn (the tool results may exceed the context window) and is never
///   compacted again;
/// - any other event leaves the state as it is.
pub open spec fn synthesis_step_spec(s: SynthesisState, e: SynthesisEvent) -> (SynthesisState, SynthesisActionSpec) {
    match (s, e) {
        (SynthesisState::AfterTools, SynthesisEvent::Estimate { estimate, ctx, ratio_pct }) =>
            if ctx != 0 && estimate >= sat_mul(ctx, ratio_pct) / 100 {
                (SynthesisState::CompactedForPreflight, SynthesisActionSpec::CompactHistory)
            } else {
                (SynthesisState::AwaitingSynthesis, SynthesisActionSpec::SendSynthesis)
            },
        (SynthesisState::CompactedForPreflight, SynthesisEvent::Estimate { estimate, ctx, ratio_pct }) =>
            if ctx != 0 && estimate >= sat_mul(ctx, ratio_pct) / 100 {
                (
                    SynthesisState::Done,
                    SynthesisActionSpec::Fail(
                        "tool_results_too_large"@,
                        "Current-turn tool results still exceed the usable context window after history compaction"@,
                    ),
                )
            } else {
                (SynthesisState::AwaitingSynthesis, SynthesisActionSpec::SendSynthesis)
            },
        (SynthesisState::AwaitingSynthesis, SynthesisEvent::Cancelled) => (
            SynthesisState::Done,
            SynthesisActionSpec::FinalizeInterrupted,
        ),
        (SynthesisState::AwaitingSynthesis, SynthesisEvent::StreamInterrupted) => (
            SynthesisState::Done,
            SynthesisActionSpec::FinalizeInterrupted,
        ),
        (SynthesisState::AwaitingSynthesis, SynthesisEvent::SendFailed(m)) => (
            SynthesisState::Done,
            SynthesisActionSpec::Fail("upstream_error"@, "Skill synthesis call failed: "@ + m@),
        ),
        (SynthesisState::AwaitingSynthesis, SynthesisEvent::Rejected { status, overflow }) =>
            if status == 400 && overflow {
                (SynthesisState::CompactingForOverflow, SynthesisActionSpec::CompactHistory)
            } else {
                (SynthesisState::Done, SynthesisActionSpec::Fail("upstream_error"@, "Skill synthesis call failed"@))
            },
        (SynthesisState::AwaitingSynthesis, SynthesisEvent::Completed { content_empty }) =>
            if content_empty {
                (SynthesisState::Done, SynthesisActionSpec::Fail("empty_response"@, "Model returned no content"@))
            } else {
                (SynthesisState::Done, SynthesisActionSpec::StoreReply)
            },
        (SynthesisState::AwaitingSynthesis, SynthesisEvent::StreamFailed(m)) => (
            SynthesisState::Done,
            SynthesisActionSpec::Fail("stream_error"@, "Skill synthesis call failed: "@ + m@),
        ),
        (SynthesisState::CompactingForOverflow, SynthesisEvent::Compaction(r)) =>
            if r == CompactionResult::Compacted {
                (SynthesisState::Retrying, SynthesisActionSpec::RetryAfterCompaction)
            } else {
                (SynthesisState::Done, SynthesisActionSpec::Fail("upstream_error"@, overflow_failure_message(r)))
            },
        (SynthesisState::Retrying, SynthesisEvent::Cancelled) => (
            SynthesisState::Done,
            SynthesisActionSpec::FinalizeInterrupted,
        ),
        (SynthesisState::Retrying, SynthesisEvent::StreamInterrupted) => (
            SynthesisState::Done,
            SynthesisActionSpec::FinalizeInterrupted,
        ),
        (SynthesisState::Retrying, SynthesisEvent::SendFailed(m)) => (
            SynthesisState::Done,
            SynthesisActionSpec::Fail("upstream_error"@, "Skill synthesis call failed: "@ + m@),
        ),
        (SynthesisState::Retrying, SynthesisEvent::Rejected { status, overflow }) =>
            if status == 400 {
                (
                    SynthesisState::Done,
                    SynthesisActionSpec::Fail(
                        "upstream_error"@,
                        "Synthesis failed after compaction; tool results may exceed context window"@,
                    ),
                )
            } else {
                (SynthesisState::Done, SynthesisActionSpec::Fail("upstream_error"@, "Skill synthesis call failed"@))
            },
        (SynthesisState::Retrying, SynthesisEvent::Completed { content_empty }) =>
            if content_empty {
                (SynthesisState::Done, SynthesisActionSpec::Fail("empty_response"@, "Model returned no content"@))
            } else {
                (SynthesisState::Done, SynthesisActionSpec::StoreReply)
            },
        (SynthesisState::Retrying, SynthesisEvent::StreamFailed(m)) => (
            SynthesisState::Done,
            SynthesisActionSpec::Fail("stream_error"@, "Skill synthesis call failed: "@ + m@),
        ),
        (st, _) => (st, SynthesisActionSpec::Ignore),
    }
}

fn fail(error: &str, message: String) -> (a: SynthesisAction)
    ensures
        synthesis_action_view(a) == SynthesisActionSpec::Fail(error@, message@),
{
    SynthesisAction::Fail { error: to_string(error), message }
}

fn prefixed(prefix: &str, m: &str) -> (r: String)
    ensures
        r@ == prefix@ + m@,
{
    let mut r = to_string(prefix);
    push_str(&mut r, m);
    r
}

/// See [`synthesis_step_spec`].
pub fn synthesis_step(s: SynthesisState, e: SynthesisEvent) -> (r: (SynthesisState, SynthesisAction))
    ensures
        (r.0, synthesis_action_view(r.1)) == synthesis_step_spec(s, e),
{
    match (s, e) {
        (SynthesisState::AfterTools, SynthesisEvent::Estimate { estimate, ctx, ratio_pct }) => {
            if preflight_decision(estimate, ctx, ratio_pct) {
                (SynthesisState::CompactedForPreflight, SynthesisAction::CompactHistory)
            } else {
                (SynthesisState::AwaitingSynthesis, SynthesisAction::SendSynthesis)
            }
        },
        (SynthesisState::CompactedForPreflight, SynthesisEvent::Estimate { estimate, ctx, ratio_pct }) => {
            if preflight_decision(estimate, ctx, ratio_pct) {
                (
                    SynthesisState::Done,
                    fail(
                        "tool_results_too_large",
                        to_string(
                            "Current-turn tool results still exceed the usable context window after history compaction",
                        ),
                    ),
                )
            } else {
                (SynthesisState::AwaitingSynthesis, SynthesisAction::SendSynthesis)
            }
        },
        (SynthesisState::AwaitingSynthesis, SynthesisEvent::Cancelled) => (
            SynthesisState::Done,
            SynthesisAction::FinalizeInterrupted,
        ),
        (SynthesisState::AwaitingSynthesis, SynthesisEvent::StreamInterrupted) => (
            SynthesisState::Done,
            SynthesisAction::FinalizeInterrupted,
        ),
        (SynthesisState::AwaitingSynthesis, SynthesisEvent::SendFailed(m)) => (
            SynthesisState::Done,
            fail("upstream_error", prefixed("Skill synthesis call failed: ", m.as_str())),
        ),
        (SynthesisState::AwaitingSynthesis, SynthesisEvent::Rejected { status, overflow }) => {
            if status == 400 && overflow {
                (SynthesisState::CompactingForOverflow, SynthesisAction::CompactHistory)
            } else {
                (SynthesisState::Done, fail("upstream_error", to_string("Skill synthesis call failed")))
            }
        },
        (SynthesisState::AwaitingSynthesis, SynthesisEvent::Completed { content_empty }) => {
            if content_empty {
                (SynthesisState::Done, fail("empty_response", to_string("Model returned no content")))
            } else {
                (SynthesisState::Done, SynthesisAction::StoreReply)
            }
        },
        (SynthesisState::AwaitingSynthesis, SynthesisEvent::StreamFailed(m)) => (
            SynthesisState::Done,
            fail("stream_error", prefixed("Skill synthesis call failed: ", m.as_str())),
        ),
        (SynthesisState::CompactingForOverflow, SynthesisEvent::Compaction(r)) => {
            match overflow_compaction_message(r) {
                None => (SynthesisState::Retrying, SynthesisAction::RetryAfterCompaction),
                Some(m) => (SynthesisState::Done, fail("upstream_error", to_string(m))),
            }
        },
        (SynthesisState::Retrying, SynthesisEvent::Cancelled) => (
            SynthesisState::Done,
            SynthesisAction::FinalizeInterrupted,
        ),
        (SynthesisState::Retrying, SynthesisEvent::StreamInterrupted) => (
            SynthesisState::Done,
            SynthesisAction::FinalizeInterrupted,
        ),
        (SynthesisState::Retrying, SynthesisEvent::SendFailed(m)) => (
            SynthesisState::Done,
            fail("upstream_error", prefixed("Skill synthesis call failed: ", m.as_str())),
        ),
        (SynthesisState::Retrying, SynthesisEvent::Rejected { status, overflow: _ }) => {
            if status == 400 {
                (
                    SynthesisState::Done,
                    fail(
                        "upstream_error",
                        to_string(
                            "Synthesis failed after compaction; tool results may exceed context window",
                        ),
                    ),
                )
            } else {
                (SynthesisState::Done, fail("upstream_error", to_string("Skill synthesis call failed")))
            }
        },
        (SynthesisState::Retrying, SynthesisEvent::Completed { content_empty }) => {
            if content_empty {
                (SynthesisState::Done, fail("empty_response", to_string("Model returned no content")))
            } else {
                (SynthesisState::Done, SynthesisAction::StoreReply)
            }
        },
        (SynthesisState::Retrying, SynthesisEvent::StreamFailed(m)) => (
            SynthesisState::Done,
            fail("stream_error", prefixed("Skill synthesis call failed: ", m.as_str())),
        ),
        (st, _) => (st, SynthesisAction::Ignore),
    }
}

} // verus!
