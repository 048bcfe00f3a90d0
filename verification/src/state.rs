//! The state of a simple chat interface: the conversation, the scroll position and
//! the answer being streamed.

use vstd::prelude::*;
use crate::message::{kept, kept_all, message_is, Conversation, Message};
use crate::text::concat2;
use crate::tools::{duplicate_calls, ToolRegistry};

verus! {

/// What the model's stream reports.
pub enum LLMEvent {
    Token(String),
    Done(Message),
    Error(String),
}

/// Whether `ms` are the messages that recording answer `msg` adds: the
/// assistant message with its text and calls, then for each call, in order, a
/// tool message answering it with the text of its outcome `outputs[i]`.
pub open spec fn answer_recorded(ms: Seq<Message>, msg: Message, outputs: Seq<Result<String, String>>) -> bool {
    &&& ms.len() == msg.tool_calls@.len() + 1
    &&& outputs.len() == msg.tool_calls@.len()
    &&& message_is(ms[0], "assistant"@, msg.content@, msg.tool_calls@, None)
    &&& forall|k: int|
        0 <= k < msg.tool_calls@.len() ==> message_is(
            #[trigger] ms[k + 1],
            "tool"@,
            crate::agent::tool_output_text(outputs[k]),
            Seq::empty(),
            Some(msg.tool_calls@[k].id@),
        )
}

pub struct AppState {
    pub conversation: Conversation,
    pub tool_registry: ToolRegistry,
    pub scroll: u16,
    pub auto_scroll: bool,
    pub streaming: bool,
    pub current_response: String,
}

impl AppState {
    pub fn new(conversation: Conversation, tool_registry: ToolRegistry) -> (s: Self)
        ensures
            s.conversation == conversation,
            s.tool_registry == tool_registry,
            s.scroll == 0,
            s.auto_scroll,
            !s.streaming,
            s.current_response@ == Seq::<char>::empty(),
    {
        AppState {
            conversation,
            tool_registry,
            scroll: 0,
            auto_scroll: true,
            streaming: false,
            current_response: String::new(),
        }
    }

    /// Adds the user's message and starts streaming the answer.
    pub fn submit_user_message(&mut self, content: &str)
        ensures
            final(self).streaming,
            final(self).auto_scroll,
            final(self).current_response@ == Seq::<char>::empty(),
            final(self).scroll == old(self).scroll,
            final(self).conversation.history_bound() == old(self).conversation.history_bound(),
            exists|m: Message|
                message_is(m, "user"@, content@, Seq::empty(), None)
                    && final(self).conversation.messages() == kept(
                    old(self).conversation.messages().push(m),
                    old(self).conversation.history_bound(),
                ),
    {
        self.conversation.add_message("user", content);
        self.auto_scroll = true;
        self.start_stream();
    }

    /// Marks a stream as started: streaming, following the end, no answer yet.
    pub fn start_stream(&mut self)
        ensures
            final(self).streaming,
            final(self).auto_scroll,
            final(self).current_response@ == Seq::<char>::empty(),
            final(self).scroll == old(self).scroll,
            final(self).conversation == old(self).conversation,
    {
        self.streaming = true;
        self.auto_scroll = true;
        self.current_response = String::new();
    }

    /// An event of the stream. A finished answer joins the conversation as an
    /// assistant message, followed by one tool message per call it makes, in
    /// order, holding `tool_outputs[i]` (the outcome of running call `i`); the
    /// answer is handed back when it calls tools. An error joins the
    /// conversation as an assistant message `Error: ...`.
    pub fn handle_llm_event(&mut self, event: LLMEvent, tool_outputs: Vec<Result<String, String>>) -> (followups:
        Vec<Message>)
        requires
            event matches LLMEvent::Done(msg) ==> tool_outputs@.len() == msg.tool_calls@.len(),
        ensures
            final(self).scroll == old(self).scroll,
            final(self).auto_scroll == old(self).auto_scroll,
            final(self).conversation.history_bound() == old(self).conversation.history_bound(),
            match event {
                LLMEvent::Token(t) => followups@.len() == 0 && final(self).current_response@
                    == old(self).current_response@ + t@ && final(self).streaming
                    == old(self).streaming && final(self).conversation == old(self).conversation,
                LLMEvent::Done(msg) => !final(self).streaming && final(self).current_response@
                    == Seq::<char>::empty() && (exists|ms: Seq<Message>|
                    #[trigger] answer_recorded(ms, msg, tool_outputs@)
                        && final(self).conversation.messages() == kept_all(
                        old(self).conversation.messages(),
                        ms,
                        old(self).conversation.history_bound(),
                    )) && if msg.tool_calls@.len() > 0 {
                    followups@ == seq![msg]
                } else {
                    followups@.len() == 0
                },
                LLMEvent::Error(e) => followups@.len() == 0 && !final(self).streaming
                    && final(self).current_response@ == Seq::<char>::empty() && exists|m: Message|
                    message_is(m, "assistant"@, "Error: "@ + e@, Seq::empty(), None)
                        && final(self).conversation.messages() == kept(
                        old(self).conversation.messages().push(m),
                        old(self).conversation.history_bound(),
                    ),
            },
    {
        match event {
            LLMEvent::Token(token) => {
                self.current_response.append(token.as_str());
                Vec::new()
            },
            LLMEvent::Done(msg) => {
                self.streaming = false;
                let calls = duplicate_calls(&msg.tool_calls);
                let ghost c0 = self.conversation.messages();
                let ghost max = self.conversation.history_bound();
                self.conversation.add_assistant_message(msg.content.as_str(), calls);
                let ghost a = choose|m: Message|
                    message_is(m, "assistant"@, msg.content@, msg.tool_calls@, None)
                        && self.conversation.messages() == kept(c0.push(m), max);
                let ghost outs = tool_outputs@;
                let ghost mut ms: Seq<Message> = seq![a];
                proof {
                    assert(ms.drop_last() =~= Seq::<Message>::empty());
                    assert(kept_all(c0, Seq::<Message>::empty(), max) == c0);
                    assert(ms.last() == a);
                    assert(kept_all(c0, ms, max) == kept(c0.push(a), max));
                }
                let mut rest = tool_outputs;
                let mut i: usize = 0;
                while i < msg.tool_calls.len()
                    invariant
                        i <= msg.tool_calls@.len(),
                        outs.len() == msg.tool_calls@.len(),
                        rest@ == outs.skip(i as int),
                        ms.len() == i + 1,
                        message_is(ms[0], "assistant"@, msg.content@, msg.tool_calls@, None),
                        forall|k: int|
                            0 <= k < i ==> message_is(
                                #[trigger] ms[k + 1],
                                "tool"@,
                                crate::agent::tool_output_text(outs[k]),
                                Seq::empty(),
                                Some(msg.tool_calls@[k].id@),
                            ),
                        self.conversation.messages() == kept_all(c0, ms, max),
                        self.conversation.history_bound() == max,
                        self.scroll == old(self).scroll,
                        self.auto_scroll == old(self).auto_scroll,
                        !self.streaming,
                    decreases msg.tool_calls@.len() - i,
                {
                    let o = rest.remove(0);
                    proof {
                        assert(outs.skip(i as int)[0] == outs[i as int]);
                        assert(outs.skip(i as int).drop_first() =~= outs.skip(i + 1));
                    }
                    let ghost before = self.conversation.messages();
                    self.add_tool_output(msg.tool_calls[i].id.as_str(), o);
                    let ghost t = choose|m: Message|
                        message_is(
                            m,
                            "tool"@,
                            crate::agent::tool_output_text(outs[i as int]),
                            Seq::empty(),
                            Some(msg.tool_calls@[i as int].id@),
                        ) && self.conversation.messages() == kept(before.push(m), max);
                    proof {
                        let ms2 = ms.push(t);
                        assert(ms2.drop_last() =~= ms);
                        assert(ms2.last() == t);
                        assert forall|k: int| 0 <= k < i + 1 implies message_is(
                            #[trigger] ms2[k + 1],
                            "tool"@,
                            crate::agent::tool_output_text(outs[k]),
                            Seq::empty(),
                            Some(msg.tool_calls@[k].id@),
                        ) by {
                            if k < i {
                                assert(ms2[k + 1] == ms[k + 1]);
                            }
                        }
                        ms = ms2;
                    }
                    i = i + 1;
                }
                self.current_response = String::new();
                proof {
                    assert(answer_recorded(ms, msg, outs));
                }
                let mut followups: Vec<Message> = Vec::new();
                if msg.tool_calls.len() > 0 {
                    followups.push(msg);
                    proof {
                        assert(followups@ =~= seq![msg]);
                    }
                }
                followups
            },
            LLMEvent::Error(e) => {
                self.streaming = false;
                self.current_response = String::new();
                let text = concat2("Error: ", e.as_str());
                self.conversation.add_message("assistant", text.as_str());
                Vec::new()
            },
        }
    }

    /// Records the outcome of tool call `tool_call_id`: its output, or `Error: `
    /// and the failure's message.
    pub fn add_tool_output(&mut self, tool_call_id: &str, output: Result<String, String>)
        ensures
            final(self).conversation.history_bound() == old(self).conversation.history_bound(),
            final(self).scroll == old(self).scroll,
            final(self).auto_scroll == old(self).auto_scroll,
            final(self).streaming == old(self).streaming,
            final(self).current_response == old(self).current_response,
            exists|m: Message|
                message_is(
                    m,
                    "tool"@,
                    crate::agent::tool_output_text(output),
                    Seq::empty(),
                    Some(tool_call_id@),
                ) && final(self).conversation.messages() == kept(
                    old(self).conversation.messages().push(m),
                    old(self).conversation.history_bound(),
                ),
    {
        let ghost expected = crate::agent::tool_output_text(output);
        let text = match output {
            Ok(o) => o,
            Err(e) => concat2("Error: ", e.as_str()),
        };
        assert(text@ == expected);
        self.conversation.add_tool_message(tool_call_id, text.as_str());
    }

    /// Scrolls one row up and stops following the end.
    pub fn scroll_up(&mut self)
        ensures
            !final(self).auto_scroll,
            final(self).scroll == if old(self).scroll > 0 {
                (old(self).scroll - 1) as u16
            } else {
                0
            },
    {
        self.auto_scroll = false;
        self.scroll = self.scroll.saturating_sub(1);
    }

    /// Scrolls one row down.
    pub fn scroll_down(&mut self)
        ensures
            final(self).auto_scroll == old(self).auto_scroll,
            final(self).scroll == if old(self).scroll < u16::MAX {
                (old(self).scroll + 1) as u16
            } else {
                u16::MAX
            },
    {
        self.scroll = self.scroll.saturating_add(1);
    }

    pub fn scroll_to_end(&mut self)
        ensures
            final(self).auto_scroll,
            final(self).scroll == old(self).scroll,
    {
        self.auto_scroll = true;
    }

    /// Stops the stream and drops the partial answer.
    pub fn cancel(&mut self)
        ensures
            !final(self).streaming,
            final(self).current_response@ == Seq::<char>::empty(),
            final(self).conversation == old(self).conversation,
    {
        self.streaming = false;
        self.current_response = String::new();
    }

    /// Empties the conversation and the view.
    pub fn clear(&mut self)
        ensures
            final(self).conversation.messages() == Seq::<Message>::empty(),
            final(self).scroll == 0,
            final(self).auto_scroll,
            !final(self).streaming,
            final(self).current_response@ == Seq::<char>::empty(),
    {
        self.conversation.clear();
        self.scroll = 0;
        self.auto_scroll = true;
        self.streaming = false;
        self.current_response = String::new();
    }
}

} // verus!
