//! A conversation whose messages carry their role as text, bounded in length
//! with the first message kept.

use vstd::prelude::*;
use crate::tools::ToolCall;

verus! {

pub struct Message {
    pub role: String,
    pub content: String,
    pub tool_calls: Vec<ToolCall>,
    pub tool_call_id: Option<String>,
}

/// `m` has role `role`, text `content`, the calls `calls` and answers `id`.
pub open spec fn message_is(
    m: Message,
    role: Seq<char>,
    content: Seq<char>,
    calls: Seq<ToolCall>,
    id: Option<Seq<char>>,
) -> bool {
    &&& m.role@ == role
    &&& m.content@ == content
    &&& m.tool_calls@ == calls
    &&& match (m.tool_call_id, id) {
        (None, None) => true,
        (Some(a), Some(b)) => a@ == b,
        _ => false,
    }
}

/// The history after dropping the oldest messages but the first so that at most
/// `max` remain; nothing is dropped when `max` is 0.
pub open spec fn kept(msgs: Seq<Message>, max: usize) -> Seq<Message> {
    if msgs.len() <= max || max == 0 {
        msgs
    } else {
        seq![msgs[0]] + msgs.skip(msgs.len() - max + 1)
    }
}

/// The history after adding the messages of `added` one by one, each addition
/// trimmed as `kept` trims.
pub open spec fn kept_all(msgs: Seq<Message>, added: Seq<Message>, max: usize) -> Seq<Message>
    decreases added.len(),
{
    if added.len() == 0 {
        msgs
    } else {
        kept(kept_all(msgs, added.drop_last(), max).push(added.last()), max)
    }
}

pub struct Conversation {
    messages: Vec<Message>,
    max_history: usize,
}

impl Conversation {
    pub closed spec fn messages(&self) -> Seq<Message> {
        self.messages@
    }

    pub closed spec fn history_bound(&self) -> usize {
        self.max_history
    }

    pub fn new(max_history: usize) -> (c: Self)
        ensures
            c.messages() == Seq::<Message>::empty(),
            c.history_bound() == max_history,
    {
        Conversation { messages: Vec::new(), max_history }
    }

    fn push_trimmed(&mut self, m: Message)
        ensures
            final(self).messages() == kept(old(self).messages().push(m), old(self).history_bound()),
            final(self).history_bound() == old(self).history_bound(),
    {
        self.messages.push(m);
        let len = self.messages.len();
        if len <= self.max_history {
            return;
        }
        if self.max_history >= 1 {
            let drain_end = len - self.max_history + 1;
            let ghost before = self.messages@;
            let mut tail = self.messages.split_off(drain_end);
            self.messages.truncate(1);
            self.messages.append(&mut tail);
            proof {
                assert(self.messages@ =~= seq![before[0]] + before.skip(drain_end as int));
            }
        }
    }

    /// Appends a message of role `role` with text `content`.
    pub fn add_message(&mut self, role: &str, content: &str)
        ensures
            final(self).history_bound() == old(self).history_bound(),
            exists|m: Message|
                message_is(m, role@, content@, Seq::empty(), None) && final(self).messages() == kept(
                    old(self).messages().push(m),
                    old(self).history_bound(),
                ),
    {
        let m = Message {
            role: String::from_str(role),
            content: String::from_str(content),
            tool_calls: Vec::new(),
            tool_call_id: None,
        };
        proof {
            assert(m.tool_calls@ =~= Seq::<ToolCall>::empty());
        }
        let ghost gm = m;
        assert(message_is(gm, role@, content@, Seq::empty(), None));
        self.push_trimmed(m);
        assert(final(self).messages() == kept(old(self).messages().push(gm), old(self).history_bound()));
    }

    /// Appends an assistant message with text `content` and the calls `tool_calls`.
    pub fn add_assistant_message(&mut self, content: &str, tool_calls: Vec<ToolCall>)
        ensures
            final(self).history_bound() == old(self).history_bound(),
            exists|m: Message|
                message_is(m, "assistant"@, content@, tool_calls@, None) && final(self).messages()
                    == kept(old(self).messages().push(m), old(self).history_bound()),
    {
        let m = Message {
            role: String::from_str("assistant"),
            content: String::from_str(content),
            tool_calls,
            tool_call_id: None,
        };
        let ghost gm = m;
        assert(message_is(gm, "assistant"@, content@, tool_calls@, None));
        self.push_trimmed(m);
        assert(final(self).messages() == kept(old(self).messages().push(gm), old(self).history_bound()));
    }

    /// Appends the output `content` of tool call `tool_call_id`.
    pub fn add_tool_message(&mut self, tool_call_id: &str, content: &str)
        ensures
            final(self).history_bound() == old(self).history_bound(),
            exists|m: Message|
                message_is(m, "tool"@, content@, Seq::empty(), Some(tool_call_id@))
                    && final(self).messages() == kept(
                    old(self).messages().push(m),
                    old(self).history_bound(),
                ),
    {
        let m = Message {
            role: String::from_str("tool"),
            content: String::from_str(content),
            tool_calls: Vec::new(),
            tool_call_id: Some(String::from_str(tool_call_id)),
        };
        proof {
            assert(m.tool_calls@ =~= Seq::<ToolCall>::empty());
        }
        let ghost gm = m;
        assert(message_is(gm, "tool"@, content@, Seq::empty(), Some(tool_call_id@)));
        self.push_trimmed(m);
        assert(final(self).messages() == kept(old(self).messages().push(gm), old(self).history_bound()));
    }

    pub fn get_messages(&self) -> (ms: &[Message])
        ensures
            ms@ == self.messages(),
    {
        self.messages.as_slice()
    }

    /// Drops every message.
    pub fn clear(&mut self)
        ensures
            final(self).messages() == Seq::<Message>::empty(),
            final(self).history_bound() == old(self).history_bound(),
    {
        self.messages = Vec::new();
    }
}

/// Within a bound of at least one message, a bounded conversation stays bounded
/// and keeps its first message when one is added.
pub proof fn lemma_kept_bounded(msgs: Seq<Message>, m: Message, max: usize)
    requires
        max >= 1,
        1 <= msgs.len() <= max,
    ensures
        kept(msgs.push(m), max).len() <= max,
        kept(msgs.push(m), max)[0] == msgs[0],
{
}

} // verus!

verus! {

/// Adding a message keeps it as the newest one: with a bound of at least two,
/// the history after adding `m` to `msgs` starts with the first message, ends
/// with `m`, and between them holds the newest messages of `msgs`, in order;
/// it holds every message while they fit, and exactly `max` otherwise.
pub proof fn lemma_added_message_is_newest(msgs: Seq<Message>, m: Message, max: usize)
    requires
        max >= 2,
    ensures
        ({
            let full = msgs.push(m);
            let k = kept(full, max);
            &&& k.len() == if full.len() <= max { full.len() } else { max as nat }
            &&& k.len() >= 1
            &&& k.last() == m
            &&& k[0] == full[0]
            &&& forall|i: int| 1 <= i < k.len() ==> #[trigger] k[i] == full[full.len() - k.len() + i]
        }),
{
    let full = msgs.push(m);
    assert(full.last() == m);
}

} // verus!
