//! Server-sent-event framing of skill traces: a line-oriented parser and the
//! trace event payload.
use vstd::prelude::*;
use crate::text::{chars_of, has_prefix, push_char, push_str, starts_with, string_of_range, trim, trim_str};

verus! {

/// One message of an event stream.
#[derive(Debug)]
pub enum SseMessage {
    /// A dispatched event: its `event:` name, if any, and its joined data.
    Event { event: Option<String>, data: String },
    /// A `:` comment line, trimmed.
    Comment(String),
}

/// The view of a message.
pub enum SseMessageSpec {
    Event(Option<Seq<char>>, Seq<char>),
    Comment(Seq<char>),
}

/// A message by view.
pub open spec fn message_view(m: SseMessage) -> SseMessageSpec {
    match m {
        SseMessage::Event { event, data } => SseMessageSpec::Event(
            match event {
                Some(e) => Some(e@),
                None => None,
            },
            data@,
        ),
        SseMessage::Comment(c) => SseMessageSpec::Comment(c@),
    }
}

/// Accumulates `event:` and `data:` lines until a blank line dispatches them.
#[derive(Debug)]
pub struct SseParser {
    pending_event: Option<String>,
    data_lines: Vec<String>,
}

/// Data lines joined with `\n`.
pub open spec fn join_lines(ls: Seq<Seq<char>>) -> Seq<char>
    decreases ls.len(),
{
    if ls.len() == 0 {
        Seq::empty()
    } else if ls.len() == 1 {
        ls[0]
    } else {
        join_lines(ls.drop_last()) + seq!['\n'] + ls.last()
    }
}

/// The parser state by view: the pending event name and the data lines.
pub struct SseParserSpec {
    pub pending_event: Option<Seq<char>>,
    pub data_lines: Seq<Seq<char>>,
}

impl View for SseParser {
    type V = SseParserSpec;

    closed spec fn view(&self) -> SseParserSpec {
        SseParserSpec {
            pending_event: match self.pending_event {
                Some(e) => Some(e@),
                None => None,
            },
            data_lines: self.data_lines@.map_values(|l: String| l@),
        }
    }
}

/// The next state and the message, if any, after one line.
pub open spec fn push_line_spec(st: SseParserSpec, line: Seq<char>) -> (
    SseParserSpec,
    Option<SseMessageSpec>,
) {
    if has_prefix(line, seq![':']) {
        (st, Some(SseMessageSpec::Comment(trim(line.skip(1)))))
    } else if line.len() == 0 {
        let data = join_lines(st.data_lines);
        let cleared = SseParserSpec { pending_event: None, data_lines: Seq::empty() };
        if data.len() == 0 && st.pending_event is None {
            (cleared, None)
        } else {
            (cleared, Some(SseMessageSpec::Event(st.pending_event, data)))
        }
    } else if has_prefix(line, "event:"@) {
        (SseParserSpec { pending_event: Some(trim(line.skip(6))), ..st }, None)
    } else if has_prefix(line, "data:"@) {
        (SseParserSpec { data_lines: st.data_lines.push(trim(line.skip(5))), ..st }, None)
    } else {
        (st, None)
    }
}

fn join_data_lines(ls: &Vec<String>) -> (r: String)
    ensures
        r@ == join_lines(ls@.map_values(|l: String| l@)),
{
    let ghost lv = ls@.map_values(|l: String| l@);
    let mut out = String::new();
    let mut i: usize = 0;
    while i < ls.len()
        invariant
            i <= ls@.len(),
            lv == ls@.map_values(|l: String| l@),
            out@ == join_lines(lv.take(i as int)),
        decreases ls@.len() - i,
    {
        assert(lv.take(i + 1).drop_last() == lv.take(i as int));
        assert(lv.take(i + 1).last() == ls@[i as int]@);
        if i > 0 {
            push_char(&mut out, '\n');
        }
        let ghost before = out@;
        push_str(&mut out, ls[i].as_str());
        proof {
            if i == 0 {
                assert(lv.take(1)[0] == ls@[0]@);
                assert(before == Seq::<char>::empty());
                assert(out@ == ls@[0]@);
            }
        }
        i += 1;
    }
    assert(lv.take(lv.len() as int) == lv);
    out
}

impl SseParser {
    /// An empty parser.
    pub fn new() -> (p: Self)
        ensures
            p@.pending_event is None,
            p@.data_lines.len() == 0,
    {
        SseParser { pending_event: None, data_lines: Vec::new() }
    }

    /// Feeds one line (without its line terminator): a `:` line is a
    /// comment; a blank line dispatches the pending event and data (nothing
    /// when both are empty); `event:` sets the event name; `data:` adds a
    /// data line; other lines are ignored.
    pub fn push_line(&mut self, line: &str) -> (r: Option<SseMessage>)
        ensures
            (final(self)@, match r {
                Some(m) => Some(message_view(m)),
                None => None,
            }) == push_line_spec(old(self)@, line@),
    {
        let v = chars_of(line);
        let colon = vec![':'];
        assert(colon@ =~= seq![':']);
        if starts_with(&v, &colon) {
            let rest = string_of_range(&v, 1, v.len());
            assert(v@.subrange(1, v@.len() as int) == v@.skip(1));
            return Some(SseMessage::Comment(trim_str(rest.as_str())));
        }
        if v.len() == 0 {
            let data = join_data_lines(&self.data_lines);
            let event = self.pending_event.take();
            self.data_lines = Vec::new();
            assert(self@.data_lines =~= Seq::<Seq<char>>::empty());
            if data.as_str().is_empty() && event.is_none() {
                return None;
            }
            return Some(SseMessage::Event { event, data });
        }
        let ev = chars_of("event:");
        proof {
            reveal_strlit("event:");
        }
        if starts_with(&v, &ev) {
            let rest = string_of_range(&v, ev.len(), v.len());
            assert(v@.subrange(6, v@.len() as int) == v@.skip(6));
            self.pending_event = Some(trim_str(rest.as_str()));
            return None;
        }
        let da = chars_of("data:");
        proof {
            reveal_strlit("data:");
        }
        if starts_with(&v, &da) {
            let rest = string_of_range(&v, da.len(), v.len());
            assert(v@.subrange(5, v@.len() as int) == v@.skip(5));
            let ghost before = self@.data_lines;
            self.data_lines.push(trim_str(rest.as_str()));
            assert(self@.data_lines =~= before.push(trim(v@.skip(5))));
        }
        None
    }
}

/// A trace event as the gateway emits it in `skill_trace` events.
#[derive(Debug, Clone, Default)]
pub struct SkillTraceEventPayload {
    pub event_type: String,
    pub call_id: String,
    pub parent_call_id: Option<String>,
    pub depth: u32,
    pub skill: String,
    pub ts_ms: i64,
    pub elapsed_ms: Option<u64>,
    pub phase: Option<String>,
    pub query: Option<String>,
    pub output: Option<String>,
    pub result_code: Option<String>,
    pub fail_reason: Option<String>,
    pub prompt_tokens: Option<u64>,
    pub completion_tokens: Option<u64>,
    pub total_tokens: Option<u64>,
}

} // verus!
