//! Token-usage handling of model calls: whether a request asked for usage,
//! reading usage from a response or an SSE chunk, and removing usage from
//! what is returned to the caller.
use vstd::prelude::*;
use crate::json::{
    as_u64_spec, get_spec, jview, jview_items, jview_members, member, strip_usage, strip_usage_items,
    strip_usage_members, JsonNumber, JsonSpec, JsonValue,
    lemma_items_push, lemma_members_push, lemma_strip_items_push, lemma_strip_members_push,
};
use crate::text::{
    chars_of, has_prefix, lemma_split_on_nonempty, push_str, split_char, split_on, starts_with, str_eq,
    string_of_range, to_string, trim, trim_str, views,
};

verus! {

/// Stream options of an OpenAI-compatible request.
#[derive(Debug, Clone, Copy)]
pub struct StreamOptions {
    pub include_usage: bool,
    pub continuous_usage_stats: bool,
}

/// Details of the prompt tokens.
#[derive(Debug, Clone, Copy)]
pub struct PromptTokenUsageInfo {
    pub cached_tokens: Option<u32>,
}

/// Token usage of a call.
#[derive(Debug, Clone, Copy)]
pub struct UsageInfo {
    pub prompt_tokens: u32,
    pub completion_tokens: u32,
    pub total_tokens: u32,
    pub prompt_tokens_details: Option<PromptTokenUsageInfo>,
}

/// The boolean member `key` of an object value.
pub open spec fn bool_member(v: JsonValue, key: Seq<char>) -> Option<bool> {
    match get_spec(v, key) {
        Some(JsonValue::Bool(b)) => Some(b),
        _ => None,
    }
}

/// Whether a request body (as JSON, `None` when it is not) asks for usage in
/// a stream: `stream_options.include_usage` when the body says so, else no.
pub open spec fn usage_enabled_spec(body: Option<JsonValue>) -> bool {
    match body {
        Some(JsonValue::Object(fs)) => match get_spec(JsonValue::Object(fs), "stream_options"@) {
            Some(JsonValue::Object(so)) => match bool_member(
                JsonValue::Object(so),
                "include_usage"@,
            ) {
                Some(b) => b,
                None => false,
            },
            _ => false,
        },
        _ => false,
    }
}

fn bool_at(v: &JsonValue, key: &str) -> (r: Option<bool>)
    ensures
        r == bool_member(*v, key@),
{
    match v.get(key) {
        Some(JsonValue::Bool(b)) => Some(*b),
        _ => None,
    }
}

/// See [`usage_enabled_spec`].
pub fn RequestHasUsageEnabled(body: Option<&JsonValue>) -> (b: bool)
    ensures
        b == usage_enabled_spec(
            match body {
                Some(j) => Some(*j),
                None => None,
            },
        ),
{
    match body {
        Some(v) => {
            if !v.is_object() {
                return false;
            }
            match v.get("stream_options") {
                Some(so) => {
                    if !so.is_object() {
                        return false;
                    }
                    match bool_at(so, "include_usage") {
                        Some(b) => b,
                        None => false,
                    }
                },
                None => false,
            }
        },
        None => false,
    }
}

/// Whether a request body (as JSON) asks for a stream: its boolean
/// `stream` member, else no.
pub fn IsStreamingRequest(body: Option<&JsonValue>) -> (b: bool)
    ensures
        b == match body {
            Some(v) => match bool_member(*v, "stream"@) {
                Some(x) => x,
                None => false,
            },
            None => false,
        },
{
    match body {
        Some(v) => match bool_at(v, "stream") {
            Some(x) => x,
            None => false,
        },
        None => false,
    }
}

/// A count read as `u64` and narrowed to `u32` (0 when missing).
pub open spec fn count_u32(v: Option<JsonValue>) -> u32 {
    match v {
        Some(x) => match as_u64_spec(x) {
            Some(n) => n as u32,
            None => 0,
        },
        None => 0,
    }
}

/// The usage an object response or chunk reports, with or without its
/// prompt-token details.
pub open spec fn usage_spec(body: JsonValue, with_details: bool) -> Option<UsageInfo> {
    match body {
        JsonValue::Object(_) => match get_spec(body, "usage"@) {
            Some(JsonValue::Object(us)) => {
                let u = JsonValue::Object(us);
                Some(
                    UsageInfo {
                        prompt_tokens: count_u32(get_spec(u, "prompt_tokens"@)),
                        completion_tokens: count_u32(get_spec(u, "completion_tokens"@)),
                        total_tokens: count_u32(get_spec(u, "total_tokens"@)),
                        prompt_tokens_details: if with_details {
                            match get_spec(u, "prompt_tokens_details"@) {
                                Some(JsonValue::Object(ds)) => Some(
                                    PromptTokenUsageInfo {
                                        cached_tokens: match get_spec(
                                            JsonValue::Object(ds),
                                            "cached_tokens"@,
                                        ) {
                                            Some(c) => match as_u64_spec(c) {
                                                Some(n) => Some(n as u32),
                                                None => None,
                                            },
                                            None => None,
                                        },
                                    },
                                ),
                                _ => None,
                            }
                        } else {
                            None
                        },
                    },
                )
            },
            _ => None,
        },
        _ => None,
    }
}

/// The usage read from an object body is its `usage` object's counts:
/// each count the body gives as an unsigned integer that fits is kept as
/// it is, and with details asked for, a `cached_tokens` count under
/// `prompt_tokens_details` is kept (cut to 32 bits); a body whose `usage`
/// is not an object reports none.
pub proof fn lemma_usage_reads_the_counts(body: JsonValue, u: JsonValue, with_details: bool)
    requires
        body is Object,
        get_spec(body, "usage"@) == Some(u),
    ensures
        !(u is Object) ==> usage_spec(body, with_details) is None,
        u is Object ==> usage_spec(body, with_details) is Some,
        as_u64_spec_opt(get_spec(u, "prompt_tokens"@)) matches Some(p) ==> (u is Object && p <= u32::MAX
            ==> usage_spec(body, with_details)->0.prompt_tokens == p),
        as_u64_spec_opt(get_spec(u, "completion_tokens"@)) matches Some(c) ==> (u is Object && c
            <= u32::MAX ==> usage_spec(body, with_details)->0.completion_tokens == c),
        as_u64_spec_opt(get_spec(u, "total_tokens"@)) matches Some(t) ==> (u is Object && t <= u32::MAX
            ==> usage_spec(body, with_details)->0.total_tokens == t),
        !with_details && u is Object ==> usage_spec(body, with_details)->0.prompt_tokens_details is None,
        get_spec(u, "prompt_tokens_details"@) matches Some(d) ==> (get_spec(d, "cached_tokens"@) matches Some(
            c,
        ) ==> (as_u64_spec(c) matches Some(n) ==> (with_details && u is Object && d is Object ==> (usage_spec(
            body,
            with_details,
        )->0.prompt_tokens_details matches Some(pd) && pd.cached_tokens == Some(n as u32))))),
{
}

/// `Value::as_u64` lifted over an optional value.
pub open spec fn as_u64_spec_opt(v: Option<JsonValue>) -> Option<u64> {
    match v {
        Some(x) => as_u64_spec(x),
        None => None,
    }
}

fn count_at(v: &JsonValue, key: &str) -> (r: u32)
    ensures
        r == count_u32(get_spec(*v, key@)),
{
    match v.get(key) {
        Some(x) => match x.as_u64() {
            Some(n) => #[verifier::truncate]
            (n as u32),
            None => 0,
        },
        None => 0,
    }
}

/// Reads the usage of an object response or chunk; `with_details` also
/// reads the cached prompt tokens.
pub fn usage_from_json(body: &JsonValue, with_details: bool) -> (r: Option<UsageInfo>)
    ensures
        r == usage_spec(*body, with_details),
{
    if !body.is_object() {
        return None;
    }
    let u = match body.get("usage") {
        Some(u) => u,
        None => {
            return None;
        },
    };
    if !u.is_object() {
        return None;
    }
    let details = if with_details {
        match u.get("prompt_tokens_details") {
            Some(d) => {
                if d.is_object() {
                    let cached = match d.get("cached_tokens") {
                        Some(c) => match c.as_u64() {
                            Some(n) => Some(
                                #[verifier::truncate]
                                (n as u32),
                            ),
                            None => None,
                        },
                        None => None,
                    };
                    Some(PromptTokenUsageInfo { cached_tokens: cached })
                } else {
                    None
                }
            },
            None => None,
        }
    } else {
        None
    };
    Some(
        UsageInfo {
            prompt_tokens: count_at(u, "prompt_tokens"),
            completion_tokens: count_at(u, "completion_tokens"),
            total_tokens: count_at(u, "total_tokens"),
            prompt_tokens_details: details,
        },
    )
}

/// The JSON text of an SSE chunk: after a `data: ` (or `data:`) prefix,
/// trimmed; `None` for the `[DONE]` marker.
pub open spec fn chunk_json_spec(text: Seq<char>) -> Option<Seq<char>> {
    let body = if has_prefix(text, "data: "@) {
        text.skip(6)
    } else if has_prefix(text, "data:"@) {
        text.skip(5)
    } else {
        text
    };
    let t = trim(body);
    if t == "[DONE]"@ {
        None
    } else {
        Some(t)
    }
}

/// See [`chunk_json_spec`].
pub fn chunk_json_text(text: &str) -> (r: Option<String>)
    ensures
        match r {
            Some(s) => chunk_json_spec(text@) == Some(s@),
            None => chunk_json_spec(text@) is None,
        },
{
    proof {
        reveal_strlit("data: ");
        reveal_strlit("data:");
    }
    let v = chars_of(text);
    let p1 = chars_of("data: ");
    let p2 = chars_of("data:");
    let start: usize = if starts_with(&v, &p1) {
        6
    } else if starts_with(&v, &p2) {
        5
    } else {
        0
    };
    let body = string_of_range(&v, start, v.len());
    assert(v@.subrange(start as int, v@.len() as int) == v@.skip(start as int));
    assert(v@.skip(0) == v@);
    let t = trim_str(body.as_str());
    if str_eq(t.as_str(), "[DONE]") {
        None
    } else {
        Some(t)
    }
}

/// How a line of a streamed response is handled when usage is filtered out:
/// `None` passes the line through unchanged (not a `data:` line, or
/// `[DONE]`); `Some((prefix, json))` is a data line whose JSON text `json`
/// (trimmed) is filtered and re-emitted after `prefix` (`data: ` or `data:`).
pub open spec fn usage_line_spec(line: Seq<char>) -> Option<(Seq<char>, Seq<char>)> {
    let prefix = if has_prefix(line, "data: "@) {
        Some("data: "@)
    } else if has_prefix(line, "data:"@) {
        Some("data:"@)
    } else {
        None
    };
    match prefix {
        None => None,
        Some(p) => {
            let j = trim(line.skip(p.len() as int));
            if j == "[DONE]"@ {
                None
            } else {
                Some((p, j))
            }
        },
    }
}

/// Splits a streamed line for usage filtering; see [`usage_line_spec`].
pub fn usage_line_parts(line: &str) -> (r: Option<(String, String)>)
    ensures
        match r {
            None => usage_line_spec(line@) is None,
            Some((p, j)) => usage_line_spec(line@) == Some((p@, j@)),
        },
{
    proof {
        reveal_strlit("data: ");
        reveal_strlit("data:");
    }
    let v = chars_of(line);
    let p1 = chars_of("data: ");
    let p2 = chars_of("data:");
    let (prefix, n): (&str, usize) = if starts_with(&v, &p1) {
        ("data: ", 6)
    } else if starts_with(&v, &p2) {
        ("data:", 5)
    } else {
        return None;
    };
    let rest = string_of_range(&v, n, v.len());
    assert(v@.subrange(n as int, v@.len() as int) == v@.skip(n as int));
    let j = trim_str(rest.as_str());
    if str_eq(j.as_str(), "[DONE]") {
        None
    } else {
        Some((to_string(prefix), j))
    }
}

/// The re-emitted data line: `prefix`, the filtered JSON text, a newline.
pub fn usage_line_rejoin(prefix: &str, filtered_json: &str) -> (r: String)
    ensures
        r@ == prefix@ + filtered_json@ + seq!['\n'],
{
    let mut r = to_string(prefix);
    push_str(&mut r, filtered_json);
    push_str(&mut r, "\n");
    proof {
        reveal_strlit("\n");
    }
    r
}

/// The usage reported by an SSE chunk whose JSON text (per
/// [`chunk_json_text`]) parsed as `json`.
pub fn ParseUsageFromChunk(json: Option<&JsonValue>) -> (r: Option<UsageInfo>)
    ensures
        r == match json {
            Some(j) => usage_spec(*j, true),
            None => None,
        },
{
    match json {
        Some(j) => usage_from_json(j, true),
        None => None,
    }
}

/// The usage of a non-streaming response body (as JSON).
pub fn non_streaming_usage(json: &JsonValue) -> (r: Option<UsageInfo>)
    ensures
        r == usage_spec(*json, false),
{
    usage_from_json(json, false)
}

/// The JSON value with every `usage` member removed, at any depth (what is
/// returned to a caller that did not ask for usage).
pub fn FilterUsageFromJson(value: &JsonValue) -> (r: JsonValue)
    ensures
        jview(r) == strip_usage(jview(*value)),
    decreases *value,
{
    match value {
        JsonValue::Null => JsonValue::Null,
        JsonValue::Bool(b) => JsonValue::Bool(*b),
        JsonValue::Number(n) => JsonValue::Number(JsonNumber { as_u64: n.as_u64, text: n.text.clone() }),
        JsonValue::String(t) => JsonValue::String(t.clone()),
        JsonValue::Array(items) => {
            let mut out: Vec<JsonValue> = Vec::new();
            let mut i: usize = 0;
            proof {
                assert(items@.take(0) =~= Seq::<JsonValue>::empty());
                assert(jview_items(out@) =~= Seq::<JsonSpec>::empty());
                assert(strip_usage_items(Seq::<JsonSpec>::empty()) =~= Seq::<JsonSpec>::empty());
            }
            while i < items.len()
                invariant
                    i <= items@.len(),
                    *value == JsonValue::Array(*items),
                    jview_items(out@) == strip_usage_items(jview_items(items@.take(i as int))),
                decreases items@.len() - i,
            {
                proof {
                    assert(decreases_to!(*value => (*value)->Array_0));
                    assert(decreases_to!(*items => items@));
                    assert(decreases_to!(items@ => items@[i as int]));
                }
                let x = FilterUsageFromJson(&items[i]);
                let ghost before = out@;
                out.push(x);
                proof {
                    lemma_items_push(before, x);
                    assert(items@.take(i + 1) =~= items@.take(i as int).push(items@[i as int]));
                    lemma_items_push(items@.take(i as int), items@[i as int]);
                    lemma_strip_items_push(jview_items(items@.take(i as int)), jview(items@[i as int]));
                }
                i += 1;
            }
            assert(items@.take(items@.len() as int) =~= items@);
            JsonValue::Array(out)
        },
        JsonValue::Object(fs) => {
            let mut out: Vec<(String, JsonValue)> = Vec::new();
            let mut i: usize = 0;
            proof {
                assert(fs@.take(0) =~= Seq::<(String, JsonValue)>::empty());
                assert(jview_members(out@) =~= Seq::<(Seq<char>, JsonSpec)>::empty());
                assert(strip_usage_members(Seq::<(Seq<char>, JsonSpec)>::empty()) =~= Seq::<(Seq<char>, JsonSpec)>::empty());
            }
            while i < fs.len()
                invariant
                    i <= fs@.len(),
                    *value == JsonValue::Object(*fs),
                    jview_members(out@) == strip_usage_members(jview_members(fs@.take(i as int))),
                decreases fs@.len() - i,
            {
                let ghost before = out@;
                proof {
                    assert(fs@.take(i + 1) =~= fs@.take(i as int).push(fs@[i as int]));
                    lemma_members_push(fs@.take(i as int), fs@[i as int]);
                    lemma_strip_members_push(
                        jview_members(fs@.take(i as int)),
                        (fs@[i as int].0@, jview(fs@[i as int].1)),
                    );
                }
                if !str_eq(fs[i].0.as_str(), "usage") {
                    proof {
                        assert(decreases_to!(*value => (*value)->Object_0));
                        assert(decreases_to!(*fs => fs@));
                        assert(decreases_to!(fs@ => fs@[i as int]));
                        assert(decreases_to!(fs@[i as int] => fs@[i as int].1));
                    }
                    let x = FilterUsageFromJson(&fs[i].1);
                    let k = fs[i].0.clone();
                    out.push((k, x));
                    proof {
                        lemma_members_push(before, (k, x));
                    }
                }
                i += 1;
            }
            assert(fs@.take(fs@.len() as int) =~= fs@);
            JsonValue::Object(out)
        },
    }
}

// ---------------------------------------------------------------------------
// Streamed responses, chunk by chunk
// ---------------------------------------------------------------------------

/// A line without its one trailing carriage return.
pub open spec fn strip_cr(x: Seq<char>) -> Seq<char> {
    if x.len() > 0 && x.last() == '\r' {
        x.drop_last()
    } else {
        x
    }
}

/// `str::lines`: the pieces between line feeds, each line ended by a line
/// feed without its one trailing carriage return; a final line feed ends
/// the last line rather than starting an empty one.
pub open spec fn lines_spec(s: Seq<char>) -> Seq<Seq<char>> {
    let p = split_on(s, '\n');
    let ended = p.drop_last().map_values(|x: Seq<char>| strip_cr(x));
    if p.last().len() == 0 {
        ended
    } else {
        ended.push(p.last())
    }
}

/// The lines of a chunk's text (see [`lines_spec`]).
pub fn text_lines(s: &str) -> (r: Vec<String>)
    ensures
        views(r@) == lines_spec(s@),
{
    let parts = split_char(s, '\n');
    proof {
        lemma_split_on_nonempty(s@, '\n');
    }
    let ghost p = split_on(s@, '\n');
    let n: usize = parts.len() - 1;
    let mut out: Vec<String> = Vec::new();
    let mut i: usize = 0;
    while i < n
        invariant
            i <= n,
            n + 1 == parts@.len(),
            p == views(parts@),
            out@.len() == i,
            forall|k: int| 0 <= k < i ==> (#[trigger] out@[k])@ == strip_cr(p[k]),
        decreases n - i,
    {
        let v = chars_of(parts[i].as_str());
        let len = v.len();
        let end: usize = if len > 0 && v[len - 1] == '\r' {
            len - 1
        } else {
            len
        };
        let line = string_of_range(&v, 0, end);
        assert(p[i as int] == parts@[i as int]@);
        assert(line@ =~= strip_cr(p[i as int]));
        out.push(line);
        i += 1;
    }
    let ghost ended = p.drop_last().map_values(|x: Seq<char>| strip_cr(x));
    assert(views(out@) =~= ended);
    assert(p.last() == parts@[n as int]@);
    if !parts[n].as_str().is_empty() {
        let last = to_string(parts[n].as_str());
        out.push(last);
        assert(views(out@) =~= ended.push(p.last()));
    }
    out
}

/// The filtered lines joined: each present line as it is, absent ones left
/// out.
pub open spec fn concat_present(fs: Seq<Option<String>>) -> Seq<char>
    decreases fs.len(),
{
    if fs.len() == 0 {
        Seq::empty()
    } else {
        concat_present(fs.drop_last()) + match fs.last() {
            Some(x) => x@,
            None => Seq::empty(),
        }
    }
}

/// The first usage reported among `us`.
pub open spec fn first_usage(us: Seq<Option<UsageInfo>>) -> Option<UsageInfo>
    decreases us.len(),
{
    if us.len() == 0 {
        None
    } else {
        match us[0] {
            Some(u) => Some(u),
            None => first_usage(us.drop_first()),
        }
    }
}

fn first_line_usage(line_usage: &Vec<Option<UsageInfo>>) -> (r: Option<UsageInfo>)
    ensures
        r == first_usage(line_usage@),
{
    let mut i: usize = 0;
    let ghost us = line_usage@;
    assert(us.skip(0) == us);
    while i < line_usage.len()
        invariant
            i <= line_usage@.len(),
            us == line_usage@,
            first_usage(us) == first_usage(us.skip(i as int)),
        decreases line_usage@.len() - i,
    {
        assert(us.skip(i as int).drop_first() == us.skip(i + 1));
        match line_usage[i] {
            Some(u) => {
                return Some(u);
            },
            None => {},
        }
        i += 1;
    }
    None
}

/// What a streamed response has passed on so far: whether usage is
/// filtered out of the data lines, whether the usage is taken, and the
/// first usage reported.
#[derive(Debug)]
pub struct StreamUsageState {
    pub filter_usage: bool,
    pub extract_usage: bool,
    pub usage: Option<UsageInfo>,
}

impl StreamUsageState {
    /// Before the first chunk.
    pub fn new(filter_usage: bool, extract_usage: bool) -> (r: Self)
        ensures
            r.filter_usage == filter_usage,
            r.extract_usage == extract_usage,
            r.usage is None,
    {
        StreamUsageState { filter_usage, extract_usage, usage: None }
    }

    /// One chunk. `lines` are its lines when it is UTF-8 (see
    /// [`text_lines`]); `line_usage` and `filtered` hold, per line, the usage
    /// it reports and its form with usage filtered out; `chunk_usage` is the
    /// usage the whole chunk reports. Returns the text passed on in place of
    /// the chunk when filtering a UTF-8 chunk, else `None`: the chunk passes
    /// unchanged. The usage kept is the first one reported, by a line in
    /// order and then by the whole chunk.
    pub fn on_chunk(
        &mut self,
        lines: Option<&Vec<String>>,
        line_usage: &Vec<Option<UsageInfo>>,
        filtered: &Vec<Option<String>>,
        chunk_usage: Option<UsageInfo>,
    ) -> (r: Option<String>)
        requires
            lines matches Some(ls) ==> line_usage@.len() == ls@.len() && filtered@.len() == ls@.len(),
        ensures
            final(self).filter_usage == old(self).filter_usage,
            final(self).extract_usage == old(self).extract_usage,
            r is Some <==> (old(self).filter_usage && lines is Some),
            r matches Some(t) ==> t@ == concat_present(filtered@),
            final(self).usage == if old(self).extract_usage && old(self).usage is None {
                match (if lines is Some { first_usage(line_usage@) } else { None }) {
                    Some(u) => Some(u),
                    None => chunk_usage,
                }
            } else {
                old(self).usage
            },
    {
        if !self.filter_usage && !self.extract_usage {
            return None;
        }
        let mut out: Option<String> = None;
        match lines {
            Some(ls) => {
                if self.extract_usage && self.usage.is_none() {
                    self.usage = first_line_usage(line_usage);
                }
                if self.filter_usage {
                    let mut text = String::new();
                    let mut i: usize = 0;
                    while i < filtered.len()
                        invariant
                            i <= filtered@.len(),
                            text@ == concat_present(filtered@.take(i as int)),
                        decreases filtered@.len() - i,
                    {
                        assert(filtered@.take(i + 1).drop_last() == filtered@.take(i as int));
                        assert(filtered@.take(i + 1).last() == filtered@[i as int]);
                        match &filtered[i] {
                            Some(l) => push_str(&mut text, l.as_str()),
                            None => {
                                assert(text@ + Seq::<char>::empty() == text@);
                            },
                        }
                        i += 1;
                    }
                    assert(filtered@.take(filtered@.len() as int) == filtered@);
                    out = Some(text);
                }
            },
            None => {},
        }
        if self.extract_usage && self.usage.is_none() {
            self.usage = chunk_usage;
        }
        out
    }
}

} // verus!
