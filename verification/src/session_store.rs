//! Agent sessions: the visible transcript, the compacted model working
//! context, and the in-memory store that owns them.
//!
//! Times are millisecond UNIX timestamps.
use vstd::prelude::*;
use crate::text::{chars_of, clone_opt, opt_view, str_eq, string_of_range};

verus! {

/// Idle time after which a session expires: more than ten whole minutes.
pub const SESSION_TIMEOUT_MINUTES: i64 = 10;

/// One structured part of a transcript message.
#[derive(Debug)]
pub enum Part {
    Text { text: String },
    /// A tool invocation; `input_json` is the JSON text of the tool input.
    Tool { tool_name: String, input_json: String, output: Option<String>, status: String },
    Thinking { text: String },
    /// Marker left in the visible transcript when older history was summarized.
    Compaction { summary: String },
}

/// Mathematical value of a [`Part`].
pub enum PartView {
    Text { text: Seq<char> },
    Tool { tool_name: Seq<char>, input_json: Seq<char>, output: Option<Seq<char>>, status: Seq<char> },
    Thinking { text: Seq<char> },
    Compaction { summary: Seq<char> },
}

impl View for Part {
    type V = PartView;

    open spec fn view(&self) -> PartView {
        match self {
            Part::Text { text } => PartView::Text { text: text@ },
            Part::Tool { tool_name, input_json, output, status } => PartView::Tool {
                tool_name: tool_name@,
                input_json: input_json@,
                output: opt_view(*output),
                status: status@,
            },
            Part::Thinking { text } => PartView::Thinking { text: text@ },
            Part::Compaction { summary } => PartView::Compaction { summary: summary@ },
        }
    }
}

/// One message of a session.
#[derive(Debug)]
pub struct Message {
    pub id: String,
    pub role: String,
    pub content: String,
    pub created_at_ms: i64,
    pub parts: Vec<Part>,
}

/// Mathematical value of a [`Message`].
pub struct MessageView {
    pub id: Seq<char>,
    pub role: Seq<char>,
    pub content: Seq<char>,
    pub created_at_ms: i64,
    pub parts: Seq<PartView>,
}

impl View for Message {
    type V = MessageView;

    open spec fn view(&self) -> MessageView {
        MessageView {
            id: self.id@,
            role: self.role@,
            content: self.content@,
            created_at_ms: self.created_at_ms,
            parts: parts_view(self.parts@),
        }
    }
}

/// The views of a vector of parts.
pub open spec fn parts_view(v: Seq<Part>) -> Seq<PartView> {
    v.map_values(|p: Part| p@)
}

/// The views of a vector of messages.
pub open spec fn messages_view(v: Seq<Message>) -> Seq<MessageView> {
    v.map_values(|m: Message| m@)
}

/// An agent session.
#[derive(Debug)]
pub struct Session {
    pub id: String,
    pub title: String,
    pub tenant: String,
    pub created_at_ms: i64,
    pub updated_at_ms: i64,
    /// The append-only visible transcript.
    pub messages: Vec<Message>,
    /// The compacted model working context used to build outbound requests.
    pub model_messages: Vec<Message>,
    pub skill_api_key: String,
    pub last_prompt_tokens: u64,
    /// Published-endpoint slug of the agent model.
    pub agent_endpoint: String,
}

/// Mathematical value of a [`Session`].
pub struct SessionView {
    pub id: Seq<char>,
    pub title: Seq<char>,
    pub tenant: Seq<char>,
    pub created_at_ms: i64,
    pub updated_at_ms: i64,
    pub messages: Seq<MessageView>,
    pub model_messages: Seq<MessageView>,
    pub skill_api_key: Seq<char>,
    pub last_prompt_tokens: u64,
    pub agent_endpoint: Seq<char>,
}

impl View for Session {
    type V = SessionView;

    open spec fn view(&self) -> SessionView {
        SessionView {
            id: self.id@,
            title: self.title@,
            tenant: self.tenant@,
            created_at_ms: self.created_at_ms,
            updated_at_ms: self.updated_at_ms,
            messages: messages_view(self.messages@),
            model_messages: messages_view(self.model_messages@),
            skill_api_key: self.skill_api_key@,
            last_prompt_tokens: self.last_prompt_tokens,
            agent_endpoint: self.agent_endpoint@,
        }
    }
}

/// A copy of a part.
pub fn clone_part(p: &Part) -> (r: Part)
    ensures
        r@ == p@,
{
    match p {
        Part::Text { text } => Part::Text { text: text.clone() },
        Part::Tool { tool_name, input_json, output, status } => Part::Tool {
            tool_name: tool_name.clone(),
            input_json: input_json.clone(),
            output: clone_opt(output),
            status: status.clone(),
        },
        Part::Thinking { text } => Part::Thinking { text: text.clone() },
        Part::Compaction { summary } => Part::Compaction { summary: summary.clone() },
    }
}

/// A copy of a message.
pub fn clone_message(m: &Message) -> (r: Message)
    ensures
        r@ == m@,
{
    let mut parts: Vec<Part> = Vec::new();
    let mut i: usize = 0;
    while i < m.parts.len()
        invariant
            i <= m.parts@.len(),
            parts@.len() == i,
            parts_view(parts@) == parts_view(m.parts@.take(i as int)),
        decreases m.parts@.len() - i,
    {
        let p = clone_part(&m.parts[i]);
        let ghost old_parts = parts@;
        parts.push(p);
        assert(m.parts@.take(i + 1) == m.parts@.take(i as int).push(m.parts@[i as int]));
        assert forall|k: int| 0 <= k < i + 1 implies parts_view(parts@)[k] == parts_view(
            m.parts@.take(i + 1),
        )[k] by {
            if k < i {
                assert(parts_view(old_parts)[k] == parts_view(m.parts@.take(i as int))[k]);
            }
        }
        assert(parts_view(parts@) =~= parts_view(m.parts@.take(i + 1)));
        i += 1;
    }
    assert(m.parts@.take(m.parts@.len() as int) == m.parts@);
    Message {
        id: m.id.clone(),
        role: m.role.clone(),
        content: m.content.clone(),
        created_at_ms: m.created_at_ms,
        parts,
    }
}

/// Copies `v[lo..hi]`.
pub fn clone_messages_range(v: &Vec<Message>, lo: usize, hi: usize) -> (r: Vec<Message>)
    requires
        lo <= hi <= v@.len(),
    ensures
        messages_view(r@) == messages_view(v@.subrange(lo as int, hi as int)),
{
    let mut r: Vec<Message> = Vec::new();
    let mut i: usize = lo;
    while i < hi
        invariant
            lo <= i <= hi <= v@.len(),
            r@.len() == i - lo,
            messages_view(r@) == messages_view(v@.subrange(lo as int, i as int)),
        decreases hi - i,
    {
        let m = clone_message(&v[i]);
        let ghost old_r = r@;
        r.push(m);
        assert(v@.subrange(lo as int, i + 1) == v@.subrange(lo as int, i as int).push(v@[i as int]));
        assert forall|k: int| 0 <= k < i + 1 - lo implies messages_view(r@)[k] == messages_view(
            v@.subrange(lo as int, i + 1),
        )[k] by {
            if k < i - lo {
                assert(messages_view(old_r)[k] == messages_view(v@.subrange(lo as int, i as int))[k]);
            }
        }
        assert(messages_view(r@) =~= messages_view(v@.subrange(lo as int, i + 1)));
        i += 1;
    }
    r
}

/// Copies a vector of messages.
pub fn clone_messages(v: &Vec<Message>) -> (r: Vec<Message>)
    ensures
        messages_view(r@) == messages_view(v@),
{
    let r = clone_messages_range(v, 0, v.len());
    assert(v@.subrange(0, v@.len() as int) == v@);
    r
}

/// A copy of a session.
pub fn clone_session(s: &Session) -> (r: Session)
    ensures
        r@ == s@,
{
    Session {
        id: s.id.clone(),
        title: s.title.clone(),
        tenant: s.tenant.clone(),
        created_at_ms: s.created_at_ms,
        updated_at_ms: s.updated_at_ms,
        messages: clone_messages(&s.messages),
        model_messages: clone_messages(&s.model_messages),
        skill_api_key: s.skill_api_key.clone(),
        last_prompt_tokens: s.last_prompt_tokens,
        agent_endpoint: s.agent_endpoint.clone(),
    }
}

/// The `limit` most recent messages when `limit` is positive and smaller
/// than the transcript, else the whole transcript.
pub open spec fn message_page(msgs: Seq<MessageView>, limit: nat) -> Seq<MessageView> {
    if limit > 0 && msgs.len() > limit {
        msgs.skip(msgs.len() - limit)
    } else {
        msgs
    }
}

/// Time of the last activity of a session: its newest message, else its
/// creation.
pub open spec fn last_activity(s: SessionView) -> i64 {
    if s.messages.len() > 0 {
        s.messages.last().created_at_ms
    } else {
        s.created_at_ms
    }
}

/// Whole minutes elapsed from `from` to `now`, truncated toward zero, as
/// `chrono::Duration::num_minutes` counts them.
pub open spec fn whole_minutes(now: i64, from: i64) -> int {
    let d = now - from;
    if d >= 0 {
        d / 60000
    } else {
        -((-d) / 60000)
    }
}

/// A session has timed out when more than ten whole minutes passed since its
/// last activity.
pub open spec fn timed_out(s: SessionView, now: i64) -> bool {
    whole_minutes(now, last_activity(s)) > SESSION_TIMEOUT_MINUTES
}

/// Activity is timed from the newest message: after a message of time `t`
/// is appended, the last activity is `t`, and the session is not timed out
/// at any time `now` no more than ten minutes after `t`; a session without
/// messages is timed from its creation.
pub proof fn lemma_activity_follows_newest_message(s: SessionView, m: MessageView, now: i64)
    ensures
        last_activity(SessionView { messages: s.messages.push(m), ..s }) == m.created_at_ms,
        now - m.created_at_ms <= 10 * 60000 ==> !timed_out(
            SessionView { messages: s.messages.push(m), ..s },
            now,
        ),
        s.messages.len() == 0 ==> last_activity(s) == s.created_at_ms,
        s.messages.len() > 0 ==> last_activity(s) == s.messages[s.messages.len() - 1].created_at_ms,
{
    let d = now - m.created_at_ms;
    if 0 <= d <= 600000 {
        assert(d / 60000 <= 10) by (nonlinear_arith)
            requires
                0 <= d <= 600000,
        ;
    }
}

/// Whether more than ten whole minutes passed between `last` and `now`.
pub fn is_timed_out(last: i64, now: i64) -> (b: bool)
    ensures
        b == (whole_minutes(now, last) > SESSION_TIMEOUT_MINUTES),
{
    let d: i128 = now as i128 - last as i128;
    let m: i128 = if d >= 0 {
        d / 60000
    } else {
        -((-d) / 60000)
    };
    m > SESSION_TIMEOUT_MINUTES as i128
}

/// Last-activity time of a session.
pub fn session_last_activity(s: &Session) -> (t: i64)
    ensures
        t == last_activity(s@),
{
    if s.messages.len() > 0 {
        s.messages[s.messages.len() - 1].created_at_ms
    } else {
        s.created_at_ms
    }
}

/// Title of a new session: `Session ` and the first eight characters of its id.
pub open spec fn session_title(id: Seq<char>) -> Seq<char> {
    "Session "@ + id.take(if id.len() < 8 {
        id.len() as int
    } else {
        8
    })
}

/// Builds the title of a new session.
pub fn make_session_title(id: &str) -> (r: String)
    ensures
        r@ == session_title(id@),
{
    let v = chars_of(id);
    let n: usize = if v.len() < 8 {
        v.len()
    } else {
        8
    };
    let mut out = crate::text::to_string("Session ");
    crate::text::push_range(&mut out, &v, 0, n);
    assert(v@.subrange(0, n as int) == v@.take(n as int));
    out
}

/// The text form of a UUID: 36 characters, lower-case hexadecimal digits
/// with hyphens at positions 8, 13, 18 and 23.
pub open spec fn uuid_text(s: Seq<char>) -> bool {
    &&& s.len() == 36
    &&& forall|i: int|
        0 <= i < 36 ==> if i == 8 || i == 13 || i == 18 || i == 23 {
            #[trigger] s[i] == '-'
        } else {
            ('0' <= s[i] && s[i] <= '9') || ('a' <= s[i] && s[i] <= 'f')
        }
}

/// A fresh random UUID (v4) rendered as text (`uuid::Uuid::new_v4`, then its
/// `Display`, which writes the lower-case hyphenated form).
/// Trusted: the text has that form; its digits are random and nothing more
/// is stated of them.
#[verifier::external_body]
pub(crate) fn new_uuid() -> (r: String)
    ensures
        uuid_text(r@),
{
    uuid::Uuid::new_v4().to_string()
}

/// The current time in milliseconds since the Unix epoch (`chrono::Utc::now`,
/// which panics on a clock before the epoch, then `timestamp_millis`).
/// Trusted: the value is not negative; nothing more is stated of it, as it
/// is the clock's.
#[verifier::external_body]
pub(crate) fn now_ms() -> (r: i64)
    ensures
        r >= 0,
{
    chrono::Utc::now().timestamp_millis()
}

/// A fresh user message carrying `content` as its text and as its one text
/// part, with a random id and the current time.
pub fn user_message(content: String) -> (m: Message)
    ensures
        m@.role == "user"@,
        m@.content == content@,
        m@.parts == seq![PartView::Text { text: content@ }],
        uuid_text(m@.id),
        m@.created_at_ms >= 0,
{
    let text = content.clone();
    let parts = vec![Part::Text { text }];
    let m = Message {
        id: new_uuid(),
        role: crate::text::to_string("user"),
        content,
        created_at_ms: now_ms(),
        parts,
    };
    assert(m@.parts =~= seq![PartView::Text { text: m@.content }]);
    m
}

/// A fresh assistant message carrying `content` as its text and as its one
/// text part, with a random id and the current time.
pub fn assistant_message(content: String) -> (m: Message)
    ensures
        m@.role == "assistant"@,
        m@.content == content@,
        m@.parts == seq![PartView::Text { text: content@ }],
        uuid_text(m@.id),
        m@.created_at_ms >= 0,
{
    let text = content.clone();
    let parts = vec![Part::Text { text }];
    let m = Message {
        id: new_uuid(),
        role: crate::text::to_string("assistant"),
        content,
        created_at_ms: now_ms(),
        parts,
    };
    assert(m@.parts =~= seq![PartView::Text { text: m@.content }]);
    m
}

/// The in-memory session store: sessions with pairwise distinct ids.
pub struct SessionStore {
    sessions: Vec<Session>,
}

impl View for SessionStore {
    type V = Seq<SessionView>;

    closed spec fn view(&self) -> Seq<SessionView> {
        self.sessions@.map_values(|s: Session| s@)
    }
}

/// Position of the session with id `id` in a store view.
pub open spec fn index_of(ss: Seq<SessionView>, id: Seq<char>) -> Option<int> {
    if exists|i: int| 0 <= i < ss.len() && ss[i].id == id {
        Some(choose|i: int| 0 <= i < ss.len() && ss[i].id == id)
    } else {
        None
    }
}

/// Ids are pairwise distinct.
pub open spec fn unique_ids(ss: Seq<SessionView>) -> bool {
    forall|i: int, j: int| 0 <= i < ss.len() && 0 <= j < ss.len() && ss[i].id == ss[j].id ==> i == j
}

/// The session with id `id`, if any.
pub open spec fn lookup(ss: Seq<SessionView>, id: Seq<char>) -> Option<SessionView> {
    match index_of(ss, id) {
        Some(i) => Some(ss[i]),
        None => None,
    }
}

impl SessionStore {
    /// The store holds sessions with pairwise distinct ids.
    pub closed spec fn wf(&self) -> bool {
        unique_ids(self@)
    }

    /// An empty store.
    pub fn New() -> (r: Self)
        ensures
            r.wf(),
            r@ == Seq::<SessionView>::empty(),
    {
        let r = SessionStore { sessions: Vec::new() };
        assert(r@ =~= Seq::<SessionView>::empty());
        r
    }

    fn find_index(&self, id: &str) -> (r: Option<usize>)
        ensures
            match r {
                Some(i) => i < self@.len() && self@[i as int].id == id@,
                None => forall|i: int| 0 <= i < self@.len() ==> self@[i].id != id@,
            },
    {
        let mut i: usize = 0;
        while i < self.sessions.len()
            invariant
                i <= self.sessions@.len(),
                self@ == self.sessions@.map_values(|s: Session| s@),
                forall|j: int| 0 <= j < i ==> self@[j].id != id@,
            decreases self.sessions@.len() - i,
        {
            if str_eq(self.sessions[i].id.as_str(), id) {
                return Some(i);
            }
            i += 1;
        }
        None
    }

    /// Index of the session `id` in a well-formed store.
    proof fn lemma_index_of(ss: Seq<SessionView>, i: int, id: Seq<char>)
        requires
            unique_ids(ss),
            0 <= i < ss.len(),
            ss[i].id == id,
        ensures
            index_of(ss, id) == Some(i),
    {
        let j = choose|j: int| 0 <= j < ss.len() && ss[j].id == id;
        assert(0 <= j < ss.len() && ss[j].id == id);
    }

    proof fn lemma_absent(ss: Seq<SessionView>, id: Seq<char>)
        requires
            forall|i: int| 0 <= i < ss.len() ==> ss[i].id != id,
        ensures
            index_of(ss, id) is None,
    {
    }

    /// Replaces the session at index `i` by `s`, keeping ids unique.
    fn put_at(&mut self, i: usize, s: Session)
        requires
            old(self).wf(),
            i < old(self)@.len(),
            s@.id == old(self)@[i as int].id,
        ensures
            final(self).wf(),
            final(self)@ == old(self)@.update(i as int, s@),
    {
        self.sessions.set(i, s);
        assert(self@ =~= old(self)@.update(i as int, s@));
    }

    /// Inserts `s`, replacing a session with the same id (map insert).
    pub fn insert_session(&mut self, s: Session)
        requires
            old(self).wf(),
        ensures
            final(self).wf(),
            lookup(final(self)@, s@.id) == Some(s@),
            forall|x: Seq<char>| x != s@.id ==> lookup(final(self)@, x) == lookup(old(self)@, x),
    {
        let ghost sv = s@;
        match self.find_index(s.id.as_str()) {
            Some(i) => {
                self.put_at(i, s);
                proof {
                    Self::lemma_index_of(self@, i as int, sv.id);
                    assert forall|x: Seq<char>| x != sv.id implies lookup(self@, x) == lookup(
                        old(self)@,
                        x,
                    ) by {
                        if exists|k: int| 0 <= k < old(self)@.len() && old(self)@[k].id == x {
                            let k = choose|k: int| 0 <= k < old(self)@.len() && old(self)@[k].id == x;
                            Self::lemma_index_of(old(self)@, k, x);
                            assert(self@[k] == old(self)@[k]);
                            Self::lemma_index_of(self@, k, x);
                        } else {
                            assert forall|k: int| 0 <= k < self@.len() implies self@[k].id != x by {
                                if k != i {
                                    assert(self@[k] == old(self)@[k]);
                                }
                            }
                        }
                    }
                }
            },
            None => {
                self.sessions.push(s);
                proof {
                    assert(self@ =~= old(self)@.push(sv));
                    assert(unique_ids(self@));
                    Self::lemma_index_of(self@, old(self)@.len() as int, sv.id);
                    assert forall|x: Seq<char>| x != sv.id implies lookup(self@, x) == lookup(
                        old(self)@,
                        x,
                    ) by {
                        if exists|k: int| 0 <= k < old(self)@.len() && old(self)@[k].id == x {
                            let k = choose|k: int| 0 <= k < old(self)@.len() && old(self)@[k].id == x;
                            Self::lemma_index_of(old(self)@, k, x);
                            Self::lemma_index_of(self@, k, x);
                        } else {
                            assert forall|k: int| 0 <= k < self@.len() implies self@[k].id != x by {
                                if k < old(self)@.len() {
                                    assert(self@[k] == old(self)@[k]);
                                }
                            }
                        }
                    }
                }
            },
        }
    }

    /// Looking up after replacing the session at `i` by one with the same id.
    proof fn lemma_update_lookup(ss: Seq<SessionView>, i: int, sv: SessionView)
        requires
            unique_ids(ss),
            0 <= i < ss.len(),
            ss[i].id == sv.id,
        ensures
            unique_ids(ss.update(i, sv)),
            lookup(ss.update(i, sv), sv.id) == Some(sv),
            forall|x: Seq<char>| x != sv.id ==> lookup(ss.update(i, sv), x) == lookup(ss, x),
    {
        let nw = ss.update(i, sv);
        assert(unique_ids(nw));
        Self::lemma_index_of(nw, i, sv.id);
        assert forall|x: Seq<char>| x != sv.id implies lookup(nw, x) == lookup(ss, x) by {
            if exists|k: int| 0 <= k < ss.len() && ss[k].id == x {
                let k = choose|k: int| 0 <= k < ss.len() && ss[k].id == x;
                Self::lemma_index_of(ss, k, x);
                Self::lemma_index_of(nw, k, x);
            } else {
                assert forall|k: int| 0 <= k < nw.len() implies nw[k].id != x by {
                    if k != i {
                        assert(nw[k] == ss[k]);
                    }
                }
            }
        }
    }

    /// Looking up after removing the session at `i`.
    proof fn lemma_remove_lookup(ss: Seq<SessionView>, i: int)
        requires
            unique_ids(ss),
            0 <= i < ss.len(),
        ensures
            unique_ids(ss.remove(i)),
            lookup(ss.remove(i), ss[i].id) is None,
            forall|x: Seq<char>| x != ss[i].id ==> lookup(ss.remove(i), x) == lookup(ss, x),
    {
        let nw = ss.remove(i);
        assert forall|a: int, b: int|
            0 <= a < nw.len() && 0 <= b < nw.len() && nw[a].id == nw[b].id implies a == b by {
            let a2 = if a < i {
                a
            } else {
                a + 1
            };
            let b2 = if b < i {
                b
            } else {
                b + 1
            };
            assert(nw[a] == ss[a2]);
            assert(nw[b] == ss[b2]);
        }
        assert forall|k: int| 0 <= k < nw.len() implies nw[k].id != ss[i].id by {
            let k2 = if k < i {
                k
            } else {
                k + 1
            };
            assert(nw[k] == ss[k2]);
        }
        assert forall|x: Seq<char>| x != ss[i].id implies lookup(nw, x) == lookup(ss, x) by {
            if exists|k: int| 0 <= k < ss.len() && ss[k].id == x {
                let k = choose|k: int| 0 <= k < ss.len() && ss[k].id == x;
                Self::lemma_index_of(ss, k, x);
                let k2 = if k < i {
                    k
                } else {
                    k - 1
                };
                assert(nw[k2] == ss[k]);
                Self::lemma_index_of(nw, k2, x);
            } else {
                assert forall|k: int| 0 <= k < nw.len() implies nw[k].id != x by {
                    let k2 = if k < i {
                        k
                    } else {
                        k + 1
                    };
                    assert(nw[k] == ss[k2]);
                }
            }
        }
    }

    /// Removes the session at index `i`.
    fn remove_at(&mut self, i: usize) -> (r: Session)
        requires
            old(self).wf(),
            i < old(self)@.len(),
        ensures
            final(self).wf(),
            r@ == old(self)@[i as int],
            final(self)@ == old(self)@.remove(i as int),
            lookup(final(self)@, r@.id) is None,
            forall|x: Seq<char>| x != r@.id ==> lookup(final(self)@, x) == lookup(old(self)@, x),
    {
        let r = self.sessions.remove(i);
        proof {
            assert(self@ =~= old(self)@.remove(i as int));
            Self::lemma_remove_lookup(old(self)@, i as int);
        }
        r
    }

    /// The session `id`, if present.
    pub fn GetSession(&self, id: &str) -> (r: Option<Session>)
        requires
            self.wf(),
        ensures
            match r {
                Some(s) => lookup(self@, id@) == Some(s@),
                None => lookup(self@, id@) is None,
            },
    {
        match self.find_index(id) {
            Some(i) => {
                proof {
                    Self::lemma_index_of(self@, i as int, id@);
                }
                Some(clone_session(&self.sessions[i]))
            },
            None => None,
        }
    }

    /// Creates a session for `tenant` with a fresh random id and stores it.
    pub fn CreateSession(&mut self, tenant: String, skill_api_key: String, agent_endpoint: String) -> (r:
        Session)
        requires
            old(self).wf(),
        ensures
            final(self).wf(),
            uuid_text(r@.id),
            r@.created_at_ms >= 0,
            r@.title == session_title(r@.id),
            r@.tenant == tenant@,
            r@.created_at_ms == r@.updated_at_ms,
            r@.messages.len() == 0,
            r@.model_messages.len() == 0,
            r@.skill_api_key == skill_api_key@,
            r@.last_prompt_tokens == 0,
            r@.agent_endpoint == agent_endpoint@,
            lookup(final(self)@, r@.id) == Some(r@),
            forall|x: Seq<char>| x != r@.id ==> lookup(final(self)@, x) == lookup(old(self)@, x),
    {
        let id = new_uuid();
        let now = now_ms();
        let title = make_session_title(id.as_str());
        let session = Session {
            id,
            title,
            tenant,
            created_at_ms: now,
            updated_at_ms: now,
            messages: Vec::new(),
            model_messages: Vec::new(),
            skill_api_key,
            last_prompt_tokens: 0,
            agent_endpoint,
        };
        let copy = clone_session(&session);
        self.insert_session(copy);
        session
    }

    /// Sessions that belong to `tenant`, in store order.
    pub fn ListSessionsForTenant(&self, tenant: &str) -> (r: Vec<Session>)
        requires
            self.wf(),
        ensures
            r@.map_values(|s: Session| s@) == of_tenant(self@, tenant@),
    {
        let mut out: Vec<Session> = Vec::new();
        let mut i: usize = 0;
        while i < self.sessions.len()
            invariant
                i <= self.sessions@.len(),
                self@ == self.sessions@.map_values(|s: Session| s@),
                out@.map_values(|s: Session| s@) == of_tenant(self@.take(i as int), tenant@),
            decreases self.sessions@.len() - i,
        {
            assert(self@.take(i + 1).drop_last() == self@.take(i as int));
            if str_eq(self.sessions[i].tenant.as_str(), tenant) {
                let c = clone_session(&self.sessions[i]);
                out.push(c);
                assert(out@.map_values(|s: Session| s@) =~= of_tenant(self@.take(i as int), tenant@).push(
                    self@[i as int],
                ));
            }
            i += 1;
        }
        assert(self@.take(self@.len() as int) == self@);
        out
    }

    /// Records the provider-reported prompt tokens of the session's last call.
    pub fn UpdateTokens(&mut self, session_id: &str, prompt_tokens: u64)
        requires
            old(self).wf(),
        ensures
            final(self).wf(),
            match lookup(old(self)@, session_id@) {
                None => final(self)@ == old(self)@,
                Some(s) => lookup(final(self)@, session_id@) == Some(
                    SessionView { last_prompt_tokens: prompt_tokens, ..s },
                ),
            },
            forall|x: Seq<char>| x != session_id@ ==> lookup(final(self)@, x) == lookup(old(self)@, x),
    {
        match self.find_index(session_id) {
            Some(i) => {
                let mut s = clone_session(&self.sessions[i]);
                s.last_prompt_tokens = prompt_tokens;
                proof {
                    Self::lemma_index_of(self@, i as int, session_id@);
                    Self::lemma_update_lookup(self@, i as int, s@);
                }
                self.put_at(i, s);
            },
            None => {
                proof {
                    Self::lemma_absent(self@, session_id@);
                }
            },
        }
    }

    /// Appends `message` to the visible transcript and mirrors it into the
    /// model working context. Returns the message when the session exists.
    pub fn AddMessage(&mut self, session_id: &str, message: Message) -> (r: Option<Message>)
        requires
            old(self).wf(),
        ensures
            final(self).wf(),
            match lookup(old(self)@, session_id@) {
                None => r is None && final(self)@ == old(self)@,
                Some(s) => (r matches Some(m) && m@ == message@) && (lookup(final(self)@, session_id@)
                    matches Some(t) && t == SessionView {
                    messages: s.messages.push(message@),
                    model_messages: s.model_messages.push(message@),
                    updated_at_ms: t.updated_at_ms,
                    ..s
                }),
            },
            forall|x: Seq<char>| x != session_id@ ==> lookup(final(self)@, x) == lookup(old(self)@, x),
    {
        match self.find_index(session_id) {
            Some(i) => {
                let mut s = clone_session(&self.sessions[i]);
                let ghost s0 = s@;
                s.messages.push(clone_message(&message));
                s.model_messages.push(clone_message(&message));
                s.updated_at_ms = now_ms();
                proof {
                    assert(messages_view(s.messages@) =~= s0.messages.push(message@));
                    assert(messages_view(s.model_messages@) =~= s0.model_messages.push(message@));
                    Self::lemma_index_of(self@, i as int, session_id@);
                    Self::lemma_update_lookup(self@, i as int, s@);
                }
                self.put_at(i, s);
                Some(message)
            },
            None => {
                proof {
                    Self::lemma_absent(self@, session_id@);
                }
                None
            },
        }
    }

    /// Removes the messages with id `message_id` from both the transcript and
    /// the model working context (rollback of an unanswered user message).
    pub fn RemoveMessageById(&mut self, session_id: &str, message_id: &str)
        requires
            old(self).wf(),
        ensures
            final(self).wf(),
            match lookup(old(self)@, session_id@) {
                None => final(self)@ == old(self)@,
                Some(s) => lookup(final(self)@, session_id@) matches Some(t) && t == SessionView {
                    messages: without_id(s.messages, message_id@),
                    model_messages: without_id(s.model_messages, message_id@),
                    updated_at_ms: t.updated_at_ms,
                    ..s
                },
            },
            forall|x: Seq<char>| x != session_id@ ==> lookup(final(self)@, x) == lookup(old(self)@, x),
    {
        match self.find_index(session_id) {
            Some(i) => {
                let mut s = clone_session(&self.sessions[i]);
                let ghost s0 = s@;
                let msgs = retain_other_ids(&s.messages, message_id);
                let model = retain_other_ids(&s.model_messages, message_id);
                s.messages = msgs;
                s.model_messages = model;
                s.updated_at_ms = now_ms();
                proof {
                    Self::lemma_index_of(self@, i as int, session_id@);
                    Self::lemma_update_lookup(self@, i as int, s@);
                }
                self.put_at(i, s);
            },
            None => {
                proof {
                    Self::lemma_absent(self@, session_id@);
                }
            },
        }
    }

    /// The session's transcript page: the `limit` newest messages when
    /// `limit` is positive and smaller than the transcript, else all of it;
    /// empty for an unknown session.
    pub fn GetMessages(&self, session_id: &str, limit: usize) -> (r: Vec<Message>)
        requires
            self.wf(),
        ensures
            messages_view(r@) == match lookup(self@, session_id@) {
                Some(s) => message_page(s.messages, limit as nat),
                None => Seq::empty(),
            },
    {
        match self.find_index(session_id) {
            Some(i) => {
                proof {
                    Self::lemma_index_of(self@, i as int, session_id@);
                }
                let msgs = &self.sessions[i].messages;
                if limit > 0 && msgs.len() > limit {
                    let r = clone_messages_range(msgs, msgs.len() - limit, msgs.len());
                    proof {
                        let sv = self@[i as int];
                        assert(messages_view(msgs@.subrange((msgs@.len() - limit) as int, msgs@.len() as int))
                            =~= sv.messages.skip(sv.messages.len() - limit));
                    }
                    r
                } else {
                    clone_messages(msgs)
                }
            },
            None => {
                proof {
                    Self::lemma_absent(self@, session_id@);
                }
                let r: Vec<Message> = Vec::new();
                assert(messages_view(r@) =~= Seq::<MessageView>::empty());
                r
            },
        }
    }

    /// Rewrites only the model working context to `[summary] + tail`, where
    /// the summary is a fresh `system` message; resets the prompt-token
    /// anchor. The visible transcript is untouched.
    pub fn ReplaceModelMessagesWithSummary(&mut self, session_id: &str, summary: String, tail: Vec<
        Message,
    >)
        requires
            old(self).wf(),
        ensures
            final(self).wf(),
            match lookup(old(self)@, session_id@) {
                None => final(self)@ == old(self)@,
                Some(s) => lookup(final(self)@, session_id@) matches Some(t) && t.model_messages.len()
                    == tail@.len() + 1 && t.model_messages[0].role == "system"@
                    && t.model_messages[0].content == summary@ && t.model_messages[0].parts.len() == 0
                    && t.model_messages.skip(1) == messages_view(tail@) && t == SessionView {
                    model_messages: t.model_messages,
                    last_prompt_tokens: 0,
                    updated_at_ms: t.updated_at_ms,
                    ..s
                },
            },
            forall|x: Seq<char>| x != session_id@ ==> lookup(final(self)@, x) == lookup(old(self)@, x),
    {
        match self.find_index(session_id) {
            Some(i) => {
                let mut s = clone_session(&self.sessions[i]);
                let now = now_ms();
                let summary_msg = Message {
                    id: new_uuid(),
                    role: crate::text::to_string("system"),
                    content: summary,
                    created_at_ms: now,
                    parts: Vec::new(),
                };
                let mut model: Vec<Message> = Vec::new();
                model.push(summary_msg);
                let mut j: usize = 0;
                while j < tail.len()
                    invariant
                        j <= tail@.len(),
                        model@.len() == j + 1,
                        model@[0]@.role == "system"@,
                        model@[0]@.content == summary@,
                        model@[0]@.parts.len() == 0,
                        messages_view(model@).skip(1) == messages_view(tail@.take(j as int)),
                    decreases tail@.len() - j,
                {
                    let ghost old_model = model@;
                    model.push(clone_message(&tail[j]));
                    proof {
                        assert(tail@.take(j + 1) == tail@.take(j as int).push(tail@[j as int]));
                        assert(messages_view(model@).skip(1) =~= messages_view(old_model).skip(1).push(
                            tail@[j as int]@,
                        ));
                    }
                    j += 1;
                }
                assert(tail@.take(tail@.len() as int) == tail@);
                s.model_messages = model;
                s.last_prompt_tokens = 0;
                s.updated_at_ms = now;
                proof {
                    Self::lemma_index_of(self@, i as int, session_id@);
                    Self::lemma_update_lookup(self@, i as int, s@);
                }
                self.put_at(i, s);
            },
            None => {
                proof {
                    Self::lemma_absent(self@, session_id@);
                }
            },
        }
    }

    /// Appends one compaction marker (role `compaction`, empty content, one
    /// `Compaction` part carrying the summary) to the visible transcript
    /// only; the model working context is untouched.
    pub fn AppendCompactionMarker(&mut self, session_id: &str, summary: String)
        requires
            old(self).wf(),
        ensures
            final(self).wf(),
            match lookup(old(self)@, session_id@) {
                None => final(self)@ == old(self)@,
                Some(s) => lookup(final(self)@, session_id@) matches Some(t) && t.messages.len()
                    == s.messages.len() + 1 && t.messages.take(s.messages.len() as int) == s.messages
                    && t.messages.last().role == "compaction"@ && t.messages.last().content.len() == 0
                    && t.messages.last().parts == seq![PartView::Compaction { summary: summary@ }]
                    && t == SessionView { messages: t.messages, updated_at_ms: t.updated_at_ms, ..s },
            },
            forall|x: Seq<char>| x != session_id@ ==> lookup(final(self)@, x) == lookup(old(self)@, x),
    {
        match self.find_index(session_id) {
            Some(i) => {
                let mut s = clone_session(&self.sessions[i]);
                let ghost s0 = s@;
                let now = now_ms();
                let mut parts: Vec<Part> = Vec::new();
                parts.push(Part::Compaction { summary });
                let marker = Message {
                    id: new_uuid(),
                    role: crate::text::to_string("compaction"),
                    content: String::new(),
                    created_at_ms: now,
                    parts,
                };
                s.messages.push(marker);
                s.updated_at_ms = now;
                proof {
                    assert(messages_view(s.messages@).take(s0.messages.len() as int) =~= s0.messages);
                    assert(parts_view(s.messages@.last().parts@) =~= seq![
                        PartView::Compaction { summary: summary@ },
                    ]);
                    Self::lemma_index_of(self@, i as int, session_id@);
                    Self::lemma_update_lookup(self@, i as int, s@);
                }
                self.put_at(i, s);
            },
            None => {
                proof {
                    Self::lemma_absent(self@, session_id@);
                }
            },
        }
    }

    /// Drops the session `id`. Returns whether it existed.
    pub fn DeleteSession(&mut self, id: &str) -> (r: bool)
        requires
            old(self).wf(),
        ensures
            final(self).wf(),
            r == (lookup(old(self)@, id@) is Some),
            lookup(final(self)@, id@) is None,
            forall|x: Seq<char>| x != id@ ==> lookup(final(self)@, x) == lookup(old(self)@, x),
    {
        match self.find_index(id) {
            Some(i) => {
                proof {
                    Self::lemma_index_of(self@, i as int, id@);
                }
                self.remove_at(i);
                true
            },
            None => {
                proof {
                    Self::lemma_absent(self@, id@);
                }
                false
            },
        }
    }

    /// Drops the session `id` if it has timed out at `now`; returns whether
    /// it did.
    pub fn CheckAndDeleteIfTimedOut(&mut self, session_id: &str, now: i64) -> (r: bool)
        requires
            old(self).wf(),
        ensures
            final(self).wf(),
            r == (match lookup(old(self)@, session_id@) {
                Some(s) => timed_out(s, now),
                None => false,
            }),
            r ==> lookup(final(self)@, session_id@) is None,
            !r ==> final(self)@ == old(self)@,
            forall|x: Seq<char>| x != session_id@ ==> lookup(final(self)@, x) == lookup(old(self)@, x),
    {
        match self.find_index(session_id) {
            Some(i) => {
                proof {
                    Self::lemma_index_of(self@, i as int, session_id@);
                }
                let last = session_last_activity(&self.sessions[i]);
                if is_timed_out(last, now) {
                    self.remove_at(i);
                    true
                } else {
                    false
                }
            },
            None => {
                proof {
                    Self::lemma_absent(self@, session_id@);
                }
                false
            },
        }
    }

    /// Drops every session that has timed out at `now`; returns their ids,
    /// in store order.
    pub fn CleanupTimedOutSessions(&mut self, now: i64) -> (r: Vec<String>)
        requires
            old(self).wf(),
        ensures
            final(self).wf(),
            final(self)@ == live_sessions(old(self)@, now),
            r@.map_values(|s: String| s@) == timed_out_ids(old(self)@, now),
    {
        let mut kept: Vec<Session> = Vec::new();
        let mut removed: Vec<String> = Vec::new();
        let mut i: usize = 0;
        while i < self.sessions.len()
            invariant
                i <= self.sessions@.len(),
                self@ == old(self)@,
                self@ == self.sessions@.map_values(|s: Session| s@),
                kept@.map_values(|s: Session| s@) == live_sessions(self@.take(i as int), now),
                removed@.map_values(|s: String| s@) == timed_out_ids(self@.take(i as int), now),
            decreases self.sessions@.len() - i,
        {
            assert(self@.take(i + 1).drop_last() == self@.take(i as int));
            let last = session_last_activity(&self.sessions[i]);
            if is_timed_out(last, now) {
                removed.push(self.sessions[i].id.clone());
                assert(removed@.map_values(|s: String| s@) =~= timed_out_ids(self@.take(i as int), now).push(
                    self@[i as int].id,
                ));
            } else {
                kept.push(clone_session(&self.sessions[i]));
                assert(kept@.map_values(|s: Session| s@) =~= live_sessions(self@.take(i as int), now).push(
                    self@[i as int],
                ));
            }
            i += 1;
        }
        assert(self@.take(self@.len() as int) == self@);
        proof {
            lemma_live_sessions_unique(self@, now);
        }
        self.sessions = kept;
        assert(self@ =~= live_sessions(old(self)@, now));
        removed
    }
}

/// The sessions of `tenant`, in order.
pub open spec fn of_tenant(ss: Seq<SessionView>, tenant: Seq<char>) -> Seq<SessionView>
    decreases ss.len(),
{
    if ss.len() == 0 {
        Seq::empty()
    } else if ss.last().tenant == tenant {
        of_tenant(ss.drop_last(), tenant).push(ss.last())
    } else {
        of_tenant(ss.drop_last(), tenant)
    }
}

/// The messages of `msgs` whose id differs from `id`, in order.
pub open spec fn without_id(msgs: Seq<MessageView>, id: Seq<char>) -> Seq<MessageView>
    decreases msgs.len(),
{
    if msgs.len() == 0 {
        Seq::empty()
    } else if msgs.last().id == id {
        without_id(msgs.drop_last(), id)
    } else {
        without_id(msgs.drop_last(), id).push(msgs.last())
    }
}

/// Copies the messages of `v` whose id differs from `id`.
pub fn retain_other_ids(v: &Vec<Message>, id: &str) -> (r: Vec<Message>)
    ensures
        messages_view(r@) == without_id(messages_view(v@), id@),
{
    let mut r: Vec<Message> = Vec::new();
    let mut i: usize = 0;
    while i < v.len()
        invariant
            i <= v@.len(),
            messages_view(r@) == without_id(messages_view(v@.take(i as int)), id@),
        decreases v@.len() - i,
    {
        assert(messages_view(v@.take(i + 1)).drop_last() =~= messages_view(v@.take(i as int)));
        assert(messages_view(v@.take(i + 1)).last() == v@[i as int]@);
        if !str_eq(v[i].id.as_str(), id) {
            r.push(clone_message(&v[i]));
            assert(messages_view(r@) =~= without_id(messages_view(v@.take(i as int)), id@).push(
                v@[i as int]@,
            ));
        }
        i += 1;
    }
    assert(v@.take(v@.len() as int) == v@);
    r
}

/// The sessions that have not timed out at `now`, in order.
pub open spec fn live_sessions(ss: Seq<SessionView>, now: i64) -> Seq<SessionView>
    decreases ss.len(),
{
    if ss.len() == 0 {
        Seq::empty()
    } else if timed_out(ss.last(), now) {
        live_sessions(ss.drop_last(), now)
    } else {
        live_sessions(ss.drop_last(), now).push(ss.last())
    }
}

/// The ids of the sessions that have timed out at `now`, in order.
pub open spec fn timed_out_ids(ss: Seq<SessionView>, now: i64) -> Seq<Seq<char>>
    decreases ss.len(),
{
    if ss.len() == 0 {
        Seq::empty()
    } else if timed_out(ss.last(), now) {
        timed_out_ids(ss.drop_last(), now).push(ss.last().id)
    } else {
        timed_out_ids(ss.drop_last(), now)
    }
}

/// Every kept session is one of the sessions before the cleanup, in an order-preserving
/// way, so distinct ids stay distinct.
proof fn lemma_live_sessions_sub(ss: Seq<SessionView>, now: i64)
    ensures
        forall|a: int|
            #![trigger live_sessions(ss, now)[a]]
            0 <= a < live_sessions(ss, now).len() ==> exists|b: int|
                #![trigger ss[b]]
                0 <= b < ss.len() && live_sessions(ss, now)[a] == ss[b],
        live_sessions(ss, now).len() <= ss.len(),
    decreases ss.len(),
{
    if ss.len() > 0 {
        lemma_live_sessions_sub(ss.drop_last(), now);
        let p = ss.drop_last();
        assert forall|a: int|
            #![trigger live_sessions(ss, now)[a]]
            0 <= a < live_sessions(ss, now).len() implies exists|b: int|
            #![trigger ss[b]]
            0 <= b < ss.len() && live_sessions(ss, now)[a] == ss[b] by {
            if a < live_sessions(p, now).len() {
                let b = choose|b: int| #![trigger p[b]] 0 <= b < p.len() && live_sessions(p, now)[a] == p[b];
                assert(ss[b] == p[b]);
            } else {
                assert(live_sessions(ss, now)[a] == ss[ss.len() - 1]);
            }
        }
    }
}

/// Kept sessions keep pairwise distinct ids.
proof fn lemma_live_sessions_unique(ss: Seq<SessionView>, now: i64)
    requires
        unique_ids(ss),
    ensures
        unique_ids(live_sessions(ss, now)),
    decreases ss.len(),
{
    if ss.len() > 0 {
        let p = ss.drop_last();
        assert(unique_ids(p));
        lemma_live_sessions_unique(p, now);
        lemma_live_sessions_sub(p, now);
        if !timed_out(ss.last(), now) {
            let l = live_sessions(ss, now);
            assert forall|a: int, b: int|
                0 <= a < l.len() && 0 <= b < l.len() && l[a].id == l[b].id implies a == b by {
                let lp = live_sessions(p, now);
                if a < lp.len() && b == lp.len() {
                    let k = choose|k: int| #![trigger p[k]] 0 <= k < p.len() && lp[a] == p[k];
                    assert(ss[k] == p[k]);
                    assert(ss[ss.len() - 1].id == ss[k].id);
                } else if b < lp.len() && a == lp.len() {
                    let k = choose|k: int| #![trigger p[k]] 0 <= k < p.len() && lp[b] == p[k];
                    assert(ss[k] == p[k]);
                    assert(ss[ss.len() - 1].id == ss[k].id);
                }
            }
        }
    }
}

} // verus!
