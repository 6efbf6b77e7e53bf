//! Request bodies of the gateway's model-call routes.
use vstd::prelude::*;
use crate::json::{as_str_spec, first_spec, get_spec, JsonValue};
use crate::text::{
    chars_of, contains, contains_chars, find_from, occurs_at, find_from_spec, push_str, split_char, split_on, string_of,
    sub_chars, to_string, views,
};

verus! {

/// A prompt addressed to a function of a namespace.
#[derive(Debug, Default, Clone)]
pub struct PromptReq {
    pub tenant: String,
    pub namespace: String,
    pub funcname: String,
    pub prompt: String,
    /// Optional image reference; empty when the request has none.
    pub image: String,
}

/// An OpenAI-style completion request.
#[derive(Debug, Clone)]
pub struct OpenAIReq {
    pub prompt: String,
    pub model: String,
    pub max_tokens: usize,
    pub temperature: usize,
    pub stream: bool,
}

/// A prompt about an image.
#[derive(Debug, Clone)]
pub struct LlavaReq {
    pub prompt: String,
    pub image: String,
}

impl Default for LlavaReq {
    /// The sample question about a sample image.
    fn default() -> (r: Self)
        ensures
            r.prompt@ == "What is shown in this image?"@,
            r.image@ == "https://www.ilankelman.org/stopsigns/australia.jpg"@,
    {
        LlavaReq {
            prompt: to_string("What is shown in this image?"),
            image: to_string("https://www.ilankelman.org/stopsigns/australia.jpg"),
        }
    }
}


// ---------------------------------------------------------------------------
// Function-call routes
// ---------------------------------------------------------------------------

/// `/` followed by each of `parts[lo..]` in turn.
pub open spec fn slash_join_from(parts: Seq<Seq<char>>, lo: int) -> Seq<char>
    decreases parts.len() - lo,
{
    if lo >= parts.len() || lo < 0 {
        Seq::empty()
    } else {
        "/"@ + parts[lo] + slash_join_from(parts, lo + 1)
    }
}

/// The target of a function call at `path`
/// (`/funccall/{tenant}/{namespace}/{funcname}/{rest...}`): tenant,
/// namespace, function, and the remaining path that the function is called
/// on (each remaining piece after a `/`).
pub open spec fn funccall_target(path: Seq<char>) -> (Seq<char>, Seq<char>, Seq<char>, Seq<char>) {
    let parts = split_on(path, '/');
    (parts[2], parts[3], parts[4], slash_join_from(parts, 5))
}

/// Reads the target of a function call from its route path, which has at
/// least five `/`-pieces.
pub fn parse_funccall_path(path: &str) -> (r: (String, String, String, String))
    requires
        split_on(path@, '/').len() >= 5,
    ensures
        (r.0@, r.1@, r.2@, r.3@) == funccall_target(path@),
{
    let parts = split_char(path, '/');
    let ghost ps = views(parts@);
    let n = parts.len();
    assert(ps[2] == parts@[2]@ && ps[3] == parts@[3]@ && ps[4] == parts@[4]@);
    let tenant = parts[2].clone();
    let namespace = parts[3].clone();
    let funcname = parts[4].clone();
    let mut remain = String::new();
    let mut i: usize = 5;
    assert(remain@ + slash_join_from(ps, 5) =~= slash_join_from(ps, 5));
    while i < n
        invariant
            5 <= i <= n,
            n == parts@.len(),
            ps == views(parts@),
            remain@ + slash_join_from(ps, i as int) == slash_join_from(ps, 5),
        decreases n - i,
    {
        let ghost before = remain@;
        assert(ps[i as int] == parts@[i as int]@);
        push_str(&mut remain, "/");
        push_str(&mut remain, parts[i].as_str());
        assert(before + slash_join_from(ps, i as int) =~= remain@ + slash_join_from(ps, i + 1));
        i += 1;
    }
    assert(remain@ =~= remain@ + slash_join_from(ps, i as int));
    (tenant, namespace, funcname, remain)
}

/// The address at which a leased worker serves the remaining path.
pub fn worker_call_uri(remain_path: &str) -> (r: String)
    ensures
        r@ == "http://127.0.0.1"@ + remain_path@,
{
    let mut r = to_string("http://127.0.0.1");
    push_str(&mut r, remain_path);
    r
}

/// The gateway's own function-call URL for a prompt to `tenant`,
/// `namespace`, `funcname`, on the function's sample-call path `path`.
pub fn funccall_url(tenant: &str, namespace: &str, funcname: &str, path: &str) -> (r: String)
    ensures
        r@ == "http://localhost:4000/funccall/"@ + tenant@ + "/"@ + namespace@ + "/"@ + funcname@ + "/"@
            + path@,
{
    let mut r = to_string("http://localhost:4000/funccall/");
    push_str(&mut r, tenant);
    push_str(&mut r, "/");
    push_str(&mut r, namespace);
    push_str(&mut r, "/");
    push_str(&mut r, funcname);
    push_str(&mut r, "/");
    push_str(&mut r, path);
    r
}

// ---------------------------------------------------------------------------
// Prompts
// ---------------------------------------------------------------------------

/// Entries read as a map: a later entry replaces an earlier one with the
/// same key.
pub open spec fn entries_map(es: Seq<(String, String)>) -> Map<Seq<char>, Seq<char>>
    decreases es.len(),
{
    if es.len() == 0 {
        Map::empty()
    } else {
        entries_map(es.drop_last()).insert(es.last().0@, es.last().1@)
    }
}

/// The body of a prompt call: the function's sample-call body with `prompt`
/// set, and `image` too for an image-to-text function.
pub open spec fn prompt_body_spec(
    sample: Map<Seq<char>, Seq<char>>,
    is_image2text: bool,
    prompt: Seq<char>,
    image: Seq<char>,
) -> Map<Seq<char>, Seq<char>> {
    let b = sample.insert("prompt"@, prompt);
    if is_image2text {
        b.insert("image"@, image)
    } else {
        b
    }
}

/// Builds the body of a prompt call from the function's sample-call body.
pub fn prompt_call_body(sample: &Vec<(String, String)>, is_image2text: bool, req: &PromptReq) -> (r: Vec<
    (String, String),
>)
    ensures
        entries_map(r@) == prompt_body_spec(entries_map(sample@), is_image2text, req.prompt@, req.image@),
{
    let mut out: Vec<(String, String)> = Vec::new();
    let mut i: usize = 0;
    while i < sample.len()
        invariant
            i <= sample@.len(),
            entries_map(out@) == entries_map(sample@.take(i as int)),
        decreases sample@.len() - i,
    {
        assert(sample@.take(i + 1).drop_last() == sample@.take(i as int));
        let ghost before = out@;
        out.push((to_string(sample[i].0.as_str()), to_string(sample[i].1.as_str())));
        assert(out@.drop_last() == before);
        i += 1;
    }
    assert(sample@.take(sample@.len() as int) == sample@);
    let ghost base = out@;
    let p = to_string("prompt");
    out.push((p, to_string(req.prompt.as_str())));
    assert(out@.drop_last() == base);
    assert(out@.last().0@ == "prompt"@);
    assert(entries_map(out@) == entries_map(sample@).insert("prompt"@, req.prompt@));
    if is_image2text {
        let ghost with_prompt = out@;
        let m = to_string("image");
        out.push((m, to_string(req.image.as_str())));
        assert(out@.drop_last() == with_prompt);
        assert(out@.last().0@ == "image"@);
        assert(entries_map(out@) == entries_map(with_prompt).insert("image"@, req.image@));
    }
    out
}

/// The marker between the events of a completion stream.
pub open spec fn data_marker() -> Seq<char> {
    seq!['d', 'a', 't', 'a', ':']
}

/// The marker of the stream's end.
pub open spec fn done_marker() -> Seq<char> {
    seq!['[', 'D', 'O', 'N', 'E', ']']
}

/// A piece is forwarded when it is not empty and is not the end marker.
pub open spec fn kept_piece(x: Seq<char>) -> Seq<Seq<char>> {
    if x.len() > 0 && !contains(x, done_marker()) {
        seq![x]
    } else {
        Seq::empty()
    }
}

/// The pieces of `s` from position `k` on, split at each `data:`, keeping
/// the non-empty pieces that hold no `[DONE]`.
pub open spec fn data_pieces_from(s: Seq<char>, k: int) -> Seq<Seq<char>>
    decreases s.len() - k,
{
    if k < 0 || k > s.len() {
        Seq::empty()
    } else {
        match find_from_spec(s, data_marker(), k) {
            Some(i) => if k <= i && i + 5 <= s.len() {
                kept_piece(s.subrange(k, i)) + data_pieces_from(s, i + 5)
            } else {
                Seq::empty()
            },
            None => kept_piece(s.subrange(k, s.len() as int)),
        }
    }
}

/// The pieces of a completion-stream chunk: the chunk split at each
/// `data:`, keeping the non-empty pieces that hold no `[DONE]`.
pub open spec fn data_pieces_spec(s: Seq<char>) -> Seq<Seq<char>> {
    data_pieces_from(s, 0)
}

/// Splits a text-to-text completion chunk into the pieces to parse.
pub fn prompt_chunk_pieces(chunk: &str) -> (r: Vec<String>)
    ensures
        views(r@) == data_pieces_spec(chunk@),
{
    let v = chars_of(chunk);
    let marker = vec!['d', 'a', 't', 'a', ':'];
    let done = vec!['[', 'D', 'O', 'N', 'E', ']'];
    assert(marker@ =~= data_marker());
    assert(done@ =~= done_marker());
    let mut out: Vec<String> = Vec::new();
    let mut k: usize = 0;
    let len = v.len();
    loop
        invariant
            k <= v@.len(),
            len == v@.len(),
            v@ == chunk@,
            marker@ == data_marker(),
            done@ == done_marker(),
            views(out@) + data_pieces_from(v@, k as int) == data_pieces_from(v@, 0),
        decreases v@.len() - k,
    {
        let ghost before = views(out@);
        match find_from(&v, &marker, k) {
            Some(i) => {
                assert(marker@.len() == 5);
                assert(occurs_at(v@, marker@, i as int));
                assert(i + 5 <= len);
                let piece = sub_chars(&v, k, i);
                if piece.len() > 0 && !contains_chars(&piece, &done) {
                    out.push(string_of(&piece));
                    assert(views(out@) == before + kept_piece(v@.subrange(k as int, i as int)));
                } else {
                    assert(views(out@) == before + kept_piece(v@.subrange(k as int, i as int)));
                }
                assert(data_pieces_from(v@, k as int) == kept_piece(v@.subrange(k as int, i as int))
                    + data_pieces_from(v@, i + 5));
                assert(before + data_pieces_from(v@, k as int) =~= views(out@) + data_pieces_from(v@, i + 5));
                k = i + 5;
            },
            None => {
                let n = len;
                let piece = sub_chars(&v, k, n);
                if piece.len() > 0 && !contains_chars(&piece, &done) {
                    out.push(string_of(&piece));
                }
                assert(views(out@) == before + kept_piece(v@.subrange(k as int, n as int)));
                assert(data_pieces_from(v@, k as int) == kept_piece(v@.subrange(k as int, n as int)));
                assert(views(out@) =~= data_pieces_from(v@, 0));
                assert(data_pieces_spec(chunk@) == data_pieces_from(v@, 0));
                return out;
            },
        }
    }
}

/// The text of a parsed completion event: the `text` of its first choice.
pub open spec fn choice_text(l: JsonValue) -> Option<Seq<char>> {
    match get_spec(l, "choices"@) {
        Some(c) => match first_spec(c) {
            Some(f) => match get_spec(f, "text"@) {
                Some(t) => as_str_spec(t),
                None => None,
            },
            None => None,
        },
        None => None,
    }
}

/// What is forwarded for the parsed events of a chunk: each event's text,
/// or `fail_text` for an event without one.
pub fn prompt_stream_texts(lines: &Vec<JsonValue>, fail_text: &str) -> (r: Vec<String>)
    ensures
        r@.len() == lines@.len(),
        forall|i: int|
            0 <= i < lines@.len() ==> (#[trigger] r@[i])@ == match choice_text(lines@[i]) {
                Some(t) => t,
                None => fail_text@,
            },
{
    let mut out: Vec<String> = Vec::new();
    let mut i: usize = 0;
    while i < lines.len()
        invariant
            i <= lines@.len(),
            out@.len() == i,
            forall|j: int|
                0 <= j < i ==> (#[trigger] out@[j])@ == match choice_text(lines@[j]) {
                    Some(t) => t,
                    None => fail_text@,
                },
        decreases lines@.len() - i,
    {
        let text = match lines[i].get("choices") {
            Some(c) => match c.first() {
                Some(f) => match f.get("text") {
                    Some(t) => t.as_str(),
                    None => None,
                },
                None => None,
            },
            None => None,
        };
        match text {
            Some(t) => out.push(to_string(t)),
            None => out.push(to_string(fail_text)),
        }
        i += 1;
    }
    out
}

} // verus!
