//! A conversation with the model: its messages, the bound on their number, and
//! the JSONL framing used to store it.

use vstd::prelude::*;
use crate::text::{all_white_space, is_whitespace, lines_from, lines_of, str_chars, str_lines, string_push, strip_cr};
use crate::tools::ToolCall;

verus! {

/// Who wrote a message.
#[derive(Clone, Copy, PartialEq, Eq, Structural)]
pub enum Role {
    System,
    User,
    Assistant,
    Tool,
}

/// A moment in UTC: seconds since the Unix epoch and nanoseconds within the second.
#[derive(Clone, Copy)]
pub struct Timestamp {
    pub secs: i64,
    pub nanos: u32,
}

/// One message of a conversation.
pub struct Message {
    /// A UUID (version 7) as its 128-bit value.
    pub id: u128,
    pub role: Role,
    pub content: String,
    pub tool_calls: Vec<ToolCall>,
    pub tool_call_id: Option<String>,
    pub used_tokens: Option<u32>,
    pub timestamp: Timestamp,
}

/// A fresh message id: `uuid::Uuid::now_v7()` as its 128-bit value. It depends
/// on the clock and on random bits; the contract claims only that it carries
/// version 7 and the RFC 4122 variant, which `uuid` sets in every such id.
#[verifier::external_body]
pub(crate) fn fresh_message_id() -> (id: u128)
    ensures
        (id >> 76u128) & 0xfu128 == 7,
        (id >> 62u128) & 0x3u128 == 2,
{
    uuid::Uuid::now_v7().as_u128()
}

/// The current time from `chrono::Utc::now()`. Nothing is claimed of it.
#[verifier::external_body]
pub(crate) fn current_time() -> Timestamp {
    let t = chrono::Utc::now();
    Timestamp { secs: t.timestamp(), nanos: t.timestamp_subsec_nanos() }
}

/// Whether `m` is a message of role `role` with text `content`, no tool calls,
/// answering the tool call `tool_call_id`, without a token count.
pub open spec fn is_plain_message(
    m: Message,
    role: Role,
    content: Seq<char>,
    tool_call_id: Option<Seq<char>>,
) -> bool {
    &&& m.role == role
    &&& m.content@ == content
    &&& m.tool_calls@.len() == 0
    &&& match (m.tool_call_id, tool_call_id) {
        (None, None) => true,
        (Some(a), Some(b)) => a@ == b,
        _ => false,
    }
    &&& m.used_tokens is None
}

/// The history after dropping the oldest messages but the first so that at most
/// `max` remain; nothing is dropped when `max` is 0.
pub open spec fn trimmed(msgs: Seq<Message>, max: usize) -> Seq<Message> {
    if msgs.len() <= max || max == 0 {
        msgs
    } else {
        seq![msgs[0]] + msgs.skip(msgs.len() - max + 1)
    }
}

/// The token count of the latest message that has one.
pub open spec fn latest_tokens(msgs: Seq<Message>) -> Option<u32>
    decreases msgs.len(),
{
    if msgs.len() == 0 {
        None
    } else if msgs.last().used_tokens is Some {
        msgs.last().used_tokens
    } else {
        latest_tokens(msgs.drop_last())
    }
}

/// The text of the first system message, if any.
pub open spec fn first_system_content(msgs: Seq<Message>) -> Option<Seq<char>>
    decreases msgs.len(),
{
    if msgs.len() == 0 {
        None
    } else if msgs[0].role == Role::System {
        Some(msgs[0].content@)
    } else {
        first_system_content(msgs.drop_first())
    }
}

fn plain_message(role: Role, content: &str, tool_call_id: Option<&str>) -> (m: Message)
    ensures
        is_plain_message(
            m,
            role,
            content@,
            match tool_call_id {
                Some(t) => Some(t@),
                None => None,
            },
        ),
{
    Message {
        id: fresh_message_id(),
        role,
        content: String::from_str(content),
        tool_calls: Vec::new(),
        tool_call_id: match tool_call_id {
            Some(t) => Some(String::from_str(t)),
            None => None,
        },
        used_tokens: None,
        timestamp: current_time(),
    }
}

pub struct Session {
    system_message: String,
    messages: Vec<Message>,
    max_history: usize,
}

impl Session {
    /// The messages, oldest first.
    pub closed spec fn messages(&self) -> Seq<Message> {
        self.messages@
    }

    /// The system prompt.
    pub closed spec fn system_prompt(&self) -> Seq<char> {
        self.system_message@
    }

    /// The bound on the number of messages kept (0: no bound).
    pub closed spec fn history_bound(&self) -> usize {
        self.max_history
    }

    /// The first message is a system message holding the system prompt.
    pub open spec fn prompt_first(&self) -> bool {
        &&& self.messages().len() >= 1
        &&& self.messages()[0].role == Role::System
        &&& self.messages()[0].content@ == self.system_prompt()
    }

    /// A session holding only the system prompt.
    pub fn new(system_message: String, max_history: usize) -> (s: Self)
        ensures
            s.system_prompt() == system_message@,
            s.history_bound() == max_history,
            s.messages().len() == 1,
            is_plain_message(s.messages()[0], Role::System, system_message@, None),
            s.prompt_first(),
    {
        let mut session = Session { system_message, messages: Vec::new(), max_history };
        session.init_system_prompt();
        session
    }

    fn init_system_prompt(&mut self)
        ensures
            final(self).system_message == old(self).system_message,
            final(self).max_history == old(self).max_history,
            final(self).messages@.len() == old(self).messages@.len() + 1,
            final(self).messages@.drop_last() == old(self).messages@,
            is_plain_message(
                final(self).messages@.last(),
                Role::System,
                old(self).system_message@,
                None,
            ),
    {
        let m = plain_message(Role::System, self.system_message.as_str(), None);
        self.messages.push(m);
        proof {
            assert(self.messages@.drop_last() =~= old(self).messages@);
        }
    }

    fn trim_history(&mut self)
        ensures
            final(self).messages@ == trimmed(old(self).messages@, old(self).max_history),
            final(self).system_message == old(self).system_message,
            final(self).max_history == old(self).max_history,
    {
        let len = self.messages.len();
        if len <= self.max_history {
            return;
        }
        if self.max_history >= 1 {
            // keep the first message and the newest `max_history - 1`
            let drain_end = len - self.max_history + 1;
            let ghost old_msgs = self.messages@;
            let mut tail = self.messages.split_off(drain_end);
            self.messages.truncate(1);
            self.messages.append(&mut tail);
            proof {
                assert(self.messages@ =~= seq![old_msgs[0]] + old_msgs.skip(drain_end as int));
            }
        }
    }

    /// Appends a user message with text `content`, then trims the history.
    pub fn add_user_message(&mut self, content: &str)
        ensures
            final(self).system_prompt() == old(self).system_prompt(),
            final(self).history_bound() == old(self).history_bound(),
            exists|m: Message|
                is_plain_message(m, Role::User, content@, None) && final(self).messages()
                    == trimmed(old(self).messages().push(m), old(self).history_bound()),
            old(self).prompt_first() ==> final(self).prompt_first(),
    {
        let m = plain_message(Role::User, content, None);
        self.add_message(m);
    }

    /// Appends `message`, then trims the history.
    pub fn add_message(&mut self, message: Message)
        ensures
            final(self).system_prompt() == old(self).system_prompt(),
            final(self).history_bound() == old(self).history_bound(),
            final(self).messages() == trimmed(
                old(self).messages().push(message),
                old(self).history_bound(),
            ),
            old(self).prompt_first() ==> final(self).prompt_first(),
    {
        let ghost before = self.messages@;
        let ghost m = message;
        self.messages.push(message);
        self.trim_history();
        proof {
            if before.len() >= 1 {
                lemma_first_message_kept(before, m, self.max_history);
            }
        }
    }

    /// Appends the output `content` of the tool call `tool_call_id`, then trims
    /// the history.
    pub fn add_tool_message(&mut self, tool_call_id: &str, content: &str)
        ensures
            final(self).system_prompt() == old(self).system_prompt(),
            final(self).history_bound() == old(self).history_bound(),
            exists|m: Message|
                is_plain_message(m, Role::Tool, content@, Some(tool_call_id@))
                    && final(self).messages() == trimmed(
                    old(self).messages().push(m),
                    old(self).history_bound(),
                ),
            old(self).prompt_first() ==> final(self).prompt_first(),
    {
        let m = plain_message(Role::Tool, content, Some(tool_call_id));
        self.add_message(m);
    }

    pub fn get_messages(&self) -> (ms: &[Message])
        ensures
            ms@ == self.messages(),
    {
        self.messages.as_slice()
    }

    /// The token count of the latest message that has one.
    pub fn total_tokens(&self) -> (t: Option<u32>)
        ensures
            t == latest_tokens(self.messages()),
    {
        let mut i = self.messages.len();
        proof {
            assert(self.messages@.take(i as int) =~= self.messages@);
        }
        while i > 0
            invariant
                i <= self.messages@.len(),
                latest_tokens(self.messages@) == latest_tokens(self.messages@.take(i as int)),
            decreases i,
        {
            proof {
                assert(self.messages@.take(i as int).drop_last() =~= self.messages@.take(i - 1));
            }
            match self.messages[i - 1].used_tokens {
                Some(t) => {
                    return Some(t);
                },
                None => {},
            }
            i = i - 1;
        }
        None
    }

    /// Drops every message and starts again from the system prompt.
    pub fn clear_messages(&mut self)
        ensures
            final(self).system_prompt() == old(self).system_prompt(),
            final(self).history_bound() == old(self).history_bound(),
            final(self).messages().len() == 1,
            is_plain_message(final(self).messages()[0], Role::System, old(self).system_prompt(), None),
            final(self).prompt_first(),
    {
        self.messages = Vec::new();
        self.init_system_prompt();
    }

    /// The JSONL text of encoded records: each record followed by a line break.
    pub fn to_jsonl(records: &Vec<String>) -> (text: String)
        ensures
            text@ == join_lines(records@.map_values(|r: String| r@)),
    {
        let mut buf = String::new();
        let ghost rs = records@.map_values(|r: String| r@);
        let mut i = records.len();
        // build from the back: buf == join_lines(rs.skip(i))
        let mut parts: Vec<char> = Vec::new();
        proof {
            assert(rs.skip(i as int) =~= Seq::<Seq<char>>::empty());
        }
        while i > 0
            invariant
                i <= records@.len(),
                rs == records@.map_values(|r: String| r@),
                parts@.reverse() == join_lines(rs.skip(i as int)),
            decreases i,
        {
            i = i - 1;
            let r = str_chars(records[i].as_str());
            let ghost before = parts@;
            parts.push('\n');
            let mut k = r.len();
            while k > 0
                invariant
                    k <= r@.len(),
                    parts@ == before.push('\n') + r@.skip(k as int).reverse(),
                decreases k,
            {
                k = k - 1;
                proof {
                    assert(r@.skip(k as int).reverse() =~= r@.skip(k + 1).reverse().push(r@[k as int]));
                }
                parts.push(r[k]);
            }
            proof {
                assert(rs.skip(i as int) =~= seq![rs[i as int]] + rs.skip(i + 1));
                assert(rs.skip(i as int).drop_first() =~= rs.skip(i + 1));
                assert(r@.skip(0) =~= r@);
                assert(parts@.reverse() =~= r@ + seq!['\n'] + before.reverse());
            }
        }
        let mut j = parts.len();
        while j > 0
            invariant
                j <= parts@.len(),
                buf@ == parts@.skip(j as int).reverse(),
            decreases j,
        {
            j = j - 1;
            proof {
                assert(parts@.skip(j as int).reverse() =~= parts@.skip(j + 1).reverse().push(parts@[j as int]));
            }
            string_push(&mut buf, parts[j]);
        }
        proof {
            assert(parts@.skip(0) =~= parts@);
            assert(rs.skip(0) =~= rs);
        }
        buf
    }

    /// A session made of decoded `records`, kept as they are; its system prompt is
    /// the text of the first system message, or `default_system_message`.
    pub fn from_jsonl(records: Vec<Message>, default_system_message: &str, max_history: usize) -> (s:
        Self)
        ensures
            s.messages() == records@,
            s.history_bound() == max_history,
            s.system_prompt() == match first_system_content(records@) {
                Some(c) => c,
                None => default_system_message@,
            },
            records@.len() >= 1 && records@[0].role == Role::System ==> s.prompt_first(),
    {
        let mut i: usize = 0;
        proof {
            assert(records@.skip(0) =~= records@);
        }
        while i < records.len() && records[i].role != Role::System
            invariant
                i <= records.len(),
                first_system_content(records@) == first_system_content(records@.skip(i as int)),
            decreases records.len() - i,
        {
            proof {
                assert(records@.skip(i as int).drop_first() =~= records@.skip(i + 1));
                assert(records@.skip(i as int)[0] == records@[i as int]);
            }
            i = i + 1;
        }
        let system_message = if i < records.len() {
            proof {
                assert(records@.skip(i as int)[0] == records@[i as int]);
            }
            records[i].content.clone()
        } else {
            proof {
                assert(records@.skip(i as int) =~= Seq::<Message>::empty());
            }
            String::from_str(default_system_message)
        };
        Session { system_message, messages: records, max_history }
    }
}

/// Records followed each by a line break.
pub open spec fn join_lines(rs: Seq<Seq<char>>) -> Seq<char>
    decreases rs.len(),
{
    if rs.len() == 0 {
        Seq::empty()
    } else {
        rs[0] + seq!['\n'] + join_lines(rs.drop_first())
    }
}

/// The non-blank lines of a JSONL text: the records it holds.
pub open spec fn jsonl_records(text: Seq<char>) -> Seq<Seq<char>> {
    str_lines(text).filter(|l: Seq<char>| !all_white_space(l))
}

/// The records of a JSONL text: its lines, without the blank ones.
pub fn jsonl_lines(text: &str) -> (records: Vec<String>)
    ensures
        records@.map_values(|r: String| r@) == jsonl_records(text@),
{
    let chars = str_chars(text);
    let lines = lines_of(&chars);
    let ghost ls = lines@.map_values(|l: String| l@);
    let ghost pred = |l: Seq<char>| !all_white_space(l);
    let mut out: Vec<String> = Vec::new();
    let mut i: usize = 0;
    proof {
        reveal(Seq::filter);
        assert(out@.map_values(|r: String| r@) =~= ls.take(0).filter(pred));
    }
    while i < lines.len()
        invariant
            i <= lines.len(),
            ls == lines@.map_values(|l: String| l@),
            pred == (|l: Seq<char>| !all_white_space(l)),
            out@.map_values(|r: String| r@) == ls.take(i as int).filter(pred),
        decreases lines.len() - i,
    {
        let l = str_chars(lines[i].as_str());
        let mut blank = true;
        let mut k: usize = 0;
        while k < l.len()
            invariant
                k <= l.len(),
                blank <==> forall|j: int| 0 <= j < k ==> crate::text::unicode_white_space(#[trigger] l@[j]),
            decreases l.len() - k,
        {
            if !is_whitespace(l[k]) {
                blank = false;
            }
            k = k + 1;
        }
        proof {
            assert(ls.take(i + 1) =~= ls.take(i as int).push(ls[i as int]));
            crate::text::lemma_filter_push(ls.take(i as int), pred, ls[i as int]);
            assert(blank == all_white_space(ls[i as int]));
        }
        if !blank {
            let r = lines[i].clone();
            proof {
                assert(out@.push(r).map_values(|r: String| r@) =~= out@.map_values(|r: String| r@).push(r@));
            }
            out.push(r);
        }
        i = i + 1;
    }
    proof {
        assert(ls.take(lines.len() as int) =~= ls);
    }
    out
}

} // verus!

verus! {

/// Trimming the history keeps its first message and its newest messages: with a
/// bound `max >= 1`, a non-empty history `msgs` is trimmed to
/// `min(len, max)` messages, the first one unchanged and the others being the
/// last ones of `msgs`, in order.
pub proof fn lemma_trim_keeps_first_and_newest(msgs: Seq<Message>, max: usize)
    requires
        max >= 1,
        msgs.len() >= 1,
    ensures
        trimmed(msgs, max).len() == if msgs.len() <= max { msgs.len() } else { max as nat },
        trimmed(msgs, max)[0] == msgs[0],
        forall|i: int|
            1 <= i < trimmed(msgs, max).len() ==> #[trigger] trimmed(msgs, max)[i] == msgs[msgs.len()
                - trimmed(msgs, max).len() + i],
{
}

/// A history within its bound stays within it when a message is added: the
/// first message stays first and the added message is the newest one kept
/// when the bound leaves room for more than the first message.
pub proof fn lemma_add_stays_bounded(msgs: Seq<Message>, m: Message, max: usize)
    requires
        max >= 1,
        1 <= msgs.len() <= max,
    ensures
        trimmed(msgs.push(m), max).len() <= max,
        trimmed(msgs.push(m), max)[0] == msgs[0],
        max >= 2 ==> trimmed(msgs.push(m), max).last() == m,
{
    lemma_trim_keeps_first_and_newest(msgs.push(m), max);
}

/// The first message of a history (the system prompt) is never dropped when a
/// message is added, whatever the bound.
pub proof fn lemma_first_message_kept(msgs: Seq<Message>, m: Message, max: usize)
    requires
        msgs.len() >= 1,
    ensures
        trimmed(msgs.push(m), max).len() >= 1,
        trimmed(msgs.push(m), max)[0] == msgs[0],
{
}

/// Reading back the messages of a session whose first message holds its system
/// prompt gives that prompt back: it is the text of the first system message.
pub proof fn lemma_reload_restores_prompt(msgs: Seq<Message>)
    requires
        msgs.len() >= 1,
        msgs[0].role == Role::System,
    ensures
        first_system_content(msgs) == Some(msgs[0].content@),
{
}

/// `lines_from` reads a piece without line breaks into the current line.
proof fn lemma_lines_from_piece(r: Seq<char>, t: Seq<char>, cur: Seq<char>, acc: Seq<Seq<char>>)
    requires
        forall|i: int| 0 <= i < r.len() ==> r[i] != '\n',
    ensures
        lines_from(r + t, cur, acc) == lines_from(t, cur + r, acc),
    decreases r.len(),
{
    if r.len() == 0 {
        assert(r + t =~= t);
        assert(cur + r =~= cur);
    } else {
        assert((r + t)[0] == r[0]);
        assert((r + t).drop_first() =~= r.drop_first() + t);
        assert(cur.push(r[0]) + r.drop_first() =~= cur + r);
        lemma_lines_from_piece(r.drop_first(), t, cur.push(r[0]), acc);
    }
}

/// Whether `r` can stand as one JSONL record: no line break, no trailing
/// carriage return, and not blank.
pub open spec fn is_record(r: Seq<char>) -> bool {
    &&& forall|i: int| 0 <= i < r.len() ==> r[i] != '\n'
    &&& !(r.len() > 0 && r.last() == '\r')
    &&& !all_white_space(r)
}

proof fn lemma_lines_of_joined(rs: Seq<Seq<char>>, acc: Seq<Seq<char>>)
    requires
        forall|i: int| 0 <= i < rs.len() ==> is_record(#[trigger] rs[i]),
    ensures
        lines_from(join_lines(rs), Seq::empty(), acc) == acc + rs,
    decreases rs.len(),
{
    if rs.len() == 0 {
        assert(acc + rs =~= acc);
    } else {
        let r = rs[0];
        assert(is_record(r));
        let rest = join_lines(rs.drop_first());
        assert(join_lines(rs) =~= r + (seq!['\n'] + rest));
        lemma_lines_from_piece(r, seq!['\n'] + rest, Seq::empty(), acc);
        assert(Seq::<char>::empty() + r =~= r);
        assert((seq!['\n'] + rest)[0] == '\n');
        assert((seq!['\n'] + rest).drop_first() =~= rest);
        assert(strip_cr(r) == r);
        assert forall|i: int| 0 <= i < rs.drop_first().len() implies is_record(
            #[trigger] rs.drop_first()[i],
        ) by {
            assert(rs.drop_first()[i] == rs[i + 1]);
        }
        lemma_lines_of_joined(rs.drop_first(), acc.push(r));
        assert(acc.push(r) + rs.drop_first() =~= acc + rs);
    }
}

proof fn lemma_filter_all(rs: Seq<Seq<char>>, pred: spec_fn(Seq<char>) -> bool)
    requires
        forall|i: int| 0 <= i < rs.len() ==> pred(#[trigger] rs[i]),
    ensures
        rs.filter(pred) == rs,
    decreases rs.len(),
{
    reveal(Seq::filter);
    if rs.len() > 0 {
        lemma_filter_all(rs.drop_last(), pred);
        assert(pred(rs[rs.len() - 1]));
        assert(rs.drop_last().push(rs.last()) =~= rs);
    }
}

/// Reading back what was written: the records of the JSONL text of `rs` are
/// `rs`, when each of them is a single non-blank line (as a compact JSON
/// encoding is).
pub proof fn lemma_jsonl_round_trip(rs: Seq<Seq<char>>)
    requires
        forall|i: int| 0 <= i < rs.len() ==> is_record(#[trigger] rs[i]),
    ensures
        jsonl_records(join_lines(rs)) == rs,
{
    lemma_lines_of_joined(rs, Seq::empty());
    assert(Seq::<Seq<char>>::empty() + rs =~= rs);
    lemma_filter_all(rs, |l: Seq<char>| !all_white_space(l));
}

} // verus!

verus! {

/// Saving then loading gives the messages back: when each message is encoded
/// as one record line (`encode`) that `decode` reads back as that message, the
/// JSONL text of the encoded messages holds exactly one record per message, and
/// decoding its records gives the messages, in order.
pub proof fn lemma_save_load_round_trip(
    msgs: Seq<Message>,
    encode: spec_fn(Message) -> Seq<char>,
    decode: spec_fn(Seq<char>) -> Message,
)
    requires
        forall|m: Message| #[trigger] is_record(encode(m)),
        forall|m: Message| #[trigger] decode(encode(m)) == m,
    ensures
        jsonl_records(join_lines(msgs.map_values(encode))).len() == msgs.len(),
        jsonl_records(join_lines(msgs.map_values(encode))).map_values(decode) == msgs,
{
    let rs = msgs.map_values(encode);
    assert forall|i: int| 0 <= i < rs.len() implies is_record(#[trigger] rs[i]) by {
        assert(is_record(encode(msgs[i])));
    }
    lemma_jsonl_round_trip(rs);
    assert forall|i: int| 0 <= i < msgs.len() implies #[trigger] rs.map_values(decode)[i] == msgs[i] by {
        assert(decode(encode(msgs[i])) == msgs[i]);
    }
    assert(rs.map_values(decode) =~= msgs);
}

} // verus!

verus! {

/// Adding a message keeps it as the newest one: with a bound of at least two,
/// the history after adding `m` starts with the first message, ends with `m`,
/// and between them holds the newest earlier messages, in order; it holds every
/// message while they fit, and exactly `max` otherwise.
pub proof fn lemma_added_message_is_newest(msgs: Seq<Message>, m: Message, max: usize)
    requires
        max >= 2,
    ensures
        ({
            let full = msgs.push(m);
            let k = trimmed(full, max);
            &&& k.len() == if full.len() <= max { full.len() } else { max as nat }
            &&& k.last() == m
            &&& k[0] == full[0]
            &&& forall|i: int| 1 <= i < k.len() ==> #[trigger] k[i] == full[full.len() - k.len() + i]
        }),
{
    let full = msgs.push(m);
    assert(full.last() == m);
}

} // verus!
