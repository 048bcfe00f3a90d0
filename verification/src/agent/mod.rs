//! The decisions of the agent loop: what to do with a streamed answer and with
//! the output of each tool call. The loop itself (streaming, running tools,
//! channels) runs outside the library and asks these functions at each step.

use vstd::prelude::*;
use crate::agent::session::{is_plain_message, trimmed, Message, Role, Session};
use crate::text::concat2;
use crate::tools::{duplicate_calls, ToolCall};

pub mod provider;
pub mod session;
pub mod store;

verus! {

/// What the agent reports to the interface.
pub enum AgentEvent {
    /// A piece of the answer's text.
    Token(String),
    /// An answer with tool calls is complete; another round follows.
    MessageDone,
    /// The turn is over.
    Finished,
    /// The model could not be reached; the error's message.
    Error(String),
}

/// What the loop does after a streamed answer.
pub enum TurnStep {
    /// Run these calls, report each output, then stream again.
    RunTools(Vec<ToolCall>),
    /// Report this event and end the turn.
    Stop(AgentEvent),
}

/// Before each round: a cancelled turn ends with `Finished` instead of asking
/// the model again.
pub fn on_round_start(cancelled: bool) -> (e: Option<AgentEvent>)
    ensures
        cancelled ==> e matches Some(AgentEvent::Finished),
        !cancelled ==> e is None,
{
    if cancelled {
        Some(AgentEvent::Finished)
    } else {
        None
    }
}

/// After a streamed answer: a received answer joins the conversation; if it
/// calls tools they run next, otherwise the turn finishes. A failure ends the
/// turn with its message and leaves the conversation as it was.
pub fn on_stream_result(session: &mut Session, result: Result<Message, String>) -> (step: TurnStep)
    ensures
        final(session).system_prompt() == old(session).system_prompt(),
        final(session).history_bound() == old(session).history_bound(),
        match result {
            Ok(msg) => final(session).messages() == trimmed(
                old(session).messages().push(msg),
                old(session).history_bound(),
            ) && if msg.tool_calls@.len() > 0 {
                step matches TurnStep::RunTools(calls) && calls@ == msg.tool_calls@
            } else {
                step matches TurnStep::Stop(AgentEvent::Finished)
            },
            Err(e) => final(session).messages() == old(session).messages() && (
            step matches TurnStep::Stop(AgentEvent::Error(m)) && m@ == e@),
        },
        old(session).prompt_first() ==> final(session).prompt_first(),
{
    match result {
        Ok(msg) => {
            let calls = duplicate_calls(&msg.tool_calls);
            let has_tool_calls = calls.len() > 0;
            session.add_message(msg);
            if has_tool_calls {
                TurnStep::RunTools(calls)
            } else {
                TurnStep::Stop(AgentEvent::Finished)
            }
        },
        Err(e) => TurnStep::Stop(AgentEvent::Error(e)),
    }
}

/// The text recorded for a tool call's outcome: its output, or `Error: ` and
/// the failure's message.
pub open spec fn tool_output_text(output: Result<String, String>) -> Seq<char> {
    match output {
        Ok(o) => o@,
        Err(e) => "Error: "@ + e@,
    }
}

/// Records the outcome of tool call `call` as a tool message answering it.
pub fn on_tool_output(session: &mut Session, call: &ToolCall, output: Result<String, String>)
    ensures
        final(session).system_prompt() == old(session).system_prompt(),
        final(session).history_bound() == old(session).history_bound(),
        exists|m: Message|
            is_plain_message(m, Role::Tool, tool_output_text(output), Some(call.id@))
                && final(session).messages() == trimmed(
                old(session).messages().push(m),
                old(session).history_bound(),
            ),
        old(session).prompt_first() ==> final(session).prompt_first(),
{
    let ghost expected = tool_output_text(output);
    let text = match output {
        Ok(o) => o,
        Err(e) => concat2("Error: ", e.as_str()),
    };
    assert(text@ == expected);
    session.add_tool_message(call.id.as_str(), text.as_str());
}

/// After all the calls of an answer have run: report the answer as done; the
/// loop streams again.
pub fn after_tools() -> (e: AgentEvent)
    ensures
        e matches AgentEvent::MessageDone,
{
    AgentEvent::MessageDone
}

} // verus!

verus! {

/// Whether `e` ends a turn.
pub open spec fn is_terminal(e: AgentEvent) -> bool {
    e is Finished || e is Error
}

/// Whether every event of `evs` is a piece of an answer or the end of an answer.
pub open spec fn only_progress(evs: Seq<AgentEvent>) -> bool {
    forall|i: int| 0 <= i < evs.len() ==> #[trigger] evs[i] is Token || evs[i] is MessageDone
}

/// A turn about to start a round. Its events so far are pieces of answers and
/// ends of answers; a round starts only at the turn's start or right after the
/// end of an answer that called tools.
pub struct TurnStart {
    events: Ghost<Seq<AgentEvent>>,
}

/// A turn whose answer is being streamed.
pub struct TurnStream {
    events: Ghost<Seq<AgentEvent>>,
}

/// A turn running the tool calls of an answer.
pub struct TurnTools {
    events: Ghost<Seq<AgentEvent>>,
}

/// A turn that is over: its last event, and only that one, ends it.
pub struct TurnOver {
    events: Ghost<Seq<AgentEvent>>,
}

/// How a round starts.
pub enum RoundStart {
    /// The turn was cancelled: report the event; the turn is over.
    Cancelled(TurnOver, AgentEvent),
    /// Stream the answer.
    Streaming(TurnStream),
}

/// How a round ends.
pub enum RoundEnd {
    /// Run these calls, record each outcome, then end the answer.
    RunTools(TurnTools, Vec<ToolCall>),
    /// Report the event; the turn is over.
    Over(TurnOver, AgentEvent),
}

impl TurnStart {
    #[verifier::type_invariant]
    spec fn inv(&self) -> bool {
        &&& only_progress(self.events@)
        &&& self.events@.len() == 0 || self.events@.last() is MessageDone
    }

    /// The events the turn has reported.
    pub closed spec fn events(&self) -> Seq<AgentEvent> {
        self.events@
    }

    /// A turn that has reported nothing yet.
    pub fn new() -> (t: Self)
        ensures
            t.events() == Seq::<AgentEvent>::empty(),
    {
        TurnStart { events: Ghost(Seq::empty()) }
    }

    /// The turn's events so far are pieces and ends of answers, and the last
    /// one, if any, ends an answer.
    pub fn lemma_starts_after_answer(&self)
        ensures
            only_progress(self.events()),
            self.events().len() == 0 || self.events().last() is MessageDone,
    {
        proof {
            use_type_invariant(self);
        }
    }

    /// Starts a round: a cancelled turn ends with `Finished` (see
    /// `on_round_start`); otherwise the answer is streamed.
    pub fn begin_round(self, cancelled: bool) -> (r: RoundStart)
        ensures
            cancelled ==> (r matches RoundStart::Cancelled(over, e) && e is Finished && over.events()
                == self.events().push(e)),
            !cancelled ==> (r matches RoundStart::Streaming(s) && s.events() == self.events()),
    {
        proof {
            use_type_invariant(&self);
        }
        match on_round_start(cancelled) {
            Some(e) => {
                let ghost evs = self.events@.push(e);
                proof {
                    assert(evs.drop_last() =~= self.events@);
                }
                RoundStart::Cancelled(TurnOver { events: Ghost(evs) }, e)
            },
            None => RoundStart::Streaming(TurnStream { events: self.events }),
        }
    }
}

impl TurnStream {
    #[verifier::type_invariant]
    spec fn inv(&self) -> bool {
        only_progress(self.events@)
    }

    /// The events the turn has reported.
    pub closed spec fn events(&self) -> Seq<AgentEvent> {
        self.events@
    }

    /// A piece `t` of the answer: the event that reports it.
    pub fn token(&mut self, t: &str) -> (e: AgentEvent)
        ensures
            e matches AgentEvent::Token(x) && x@ == t@,
            final(self).events() == old(self).events().push(e),
    {
        proof {
            use_type_invariant(&*self);
        }
        let e = AgentEvent::Token(String::from_str(t));
        let ghost evs = self.events@.push(e);
        proof {
            assert(only_progress(evs)) by {
                assert forall|i: int| 0 <= i < evs.len() implies #[trigger] evs[i] is Token
                    || evs[i] is MessageDone by {
                    if i < self.events@.len() {
                        assert(evs[i] == self.events@[i]);
                    }
                }
            }
        }
        self.events = Ghost(evs);
        e
    }

    /// The streamed answer, or the failure to get it: recorded as
    /// `on_stream_result` does; an answer that calls tools leads to running
    /// them, anything else ends the turn with the event reported.
    pub fn finish(self, session: &mut Session, result: Result<Message, String>) -> (r: RoundEnd)
        ensures
            final(session).system_prompt() == old(session).system_prompt(),
            final(session).history_bound() == old(session).history_bound(),
            old(session).prompt_first() ==> final(session).prompt_first(),
            match result {
                Ok(msg) => final(session).messages() == trimmed(
                    old(session).messages().push(msg),
                    old(session).history_bound(),
                ) && if msg.tool_calls@.len() > 0 {
                    r matches RoundEnd::RunTools(t, calls) && calls@ == msg.tool_calls@ && t.events()
                        == self.events()
                } else {
                    r matches RoundEnd::Over(o, e) && e is Finished && o.events() == self.events().push(e)
                },
                Err(m) => final(session).messages() == old(session).messages() && (
                r matches RoundEnd::Over(o, e) && (e matches AgentEvent::Error(x) && x@ == m@)
                    && o.events() == self.events().push(e)),
            },
    {
        proof {
            use_type_invariant(&self);
        }
        match on_stream_result(session, result) {
            TurnStep::RunTools(calls) => RoundEnd::RunTools(TurnTools { events: self.events }, calls),
            TurnStep::Stop(e) => {
                let ghost evs = self.events@.push(e);
                proof {
                    assert(evs.drop_last() =~= self.events@);
                }
                RoundEnd::Over(TurnOver { events: Ghost(evs) }, e)
            },
        }
    }
}

impl TurnTools {
    #[verifier::type_invariant]
    spec fn inv(&self) -> bool {
        only_progress(self.events@)
    }

    /// The events the turn has reported.
    pub closed spec fn events(&self) -> Seq<AgentEvent> {
        self.events@
    }

    /// Records the outcome of call `call`, as `on_tool_output` does.
    pub fn record(&mut self, session: &mut Session, call: &ToolCall, output: Result<String, String>)
        ensures
            final(self).events() == old(self).events(),
            final(session).system_prompt() == old(session).system_prompt(),
            final(session).history_bound() == old(session).history_bound(),
            old(session).prompt_first() ==> final(session).prompt_first(),
            exists|m: Message|
                is_plain_message(m, Role::Tool, tool_output_text(output), Some(call.id@))
                    && final(session).messages() == trimmed(
                    old(session).messages().push(m),
                    old(session).history_bound(),
                ),
    {
        on_tool_output(session, call, output);
    }

    /// All calls have run: the answer ends (`MessageDone`) and the next round
    /// may start.
    pub fn done(self) -> (r: (TurnStart, AgentEvent))
        ensures
            r.1 is MessageDone,
            r.0.events() == self.events().push(r.1),
    {
        proof {
            use_type_invariant(&self);
        }
        let e = after_tools();
        let ghost evs = self.events@.push(e);
        proof {
            assert forall|i: int| 0 <= i < evs.len() implies #[trigger] evs[i] is Token
                || evs[i] is MessageDone by {
                if i < self.events@.len() {
                    assert(evs[i] == self.events@[i]);
                }
            }
        }
        (TurnStart { events: Ghost(evs) }, e)
    }
}

impl TurnOver {
    #[verifier::type_invariant]
    spec fn inv(&self) -> bool {
        &&& self.events@.len() > 0
        &&& is_terminal(self.events@.last())
        &&& only_progress(self.events@.drop_last())
    }

    /// The events the turn has reported.
    pub closed spec fn events(&self) -> Seq<AgentEvent> {
        self.events@
    }

    /// A turn that is over has reported exactly one event that ends it, and
    /// that event came last.
    pub fn lemma_ends_once(&self)
        ensures
            self.events().len() > 0,
            is_terminal(self.events().last()),
            forall|i: int| 0 <= i < self.events().len() - 1 ==> !is_terminal(#[trigger] self.events()[i]),
    {
        proof {
            use_type_invariant(self);
            assert forall|i: int| 0 <= i < self.events().len() - 1 implies !is_terminal(
                #[trigger] self.events()[i],
            ) by {
                assert(self.events@.drop_last()[i] == self.events@[i]);
            }
        }
    }
}

} // verus!
