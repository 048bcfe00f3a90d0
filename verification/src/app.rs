//! The application's decisions: what a submitted line, a cancel request, an
//! agent event or the outcome of a session command does to the visible state.

use vstd::prelude::*;
use crate::agent::AgentEvent;
use crate::text::{
    concat2, concat3, is_whitespace, join_strings, join_with, str_chars, str_eq, string_from_chars,
    trim, trim_chars, unicode_white_space,
};
use crate::tui::TUICommand;

verus! {

/// Position of the first whitespace character of `s` at or after `i`
/// (`s.len()` if none).
pub open spec fn first_white_from(s: Seq<char>, i: int) -> int
    decreases s.len() - i,
{
    if i < 0 || i >= s.len() {
        s.len() as int
    } else if unicode_white_space(s[i]) {
        i
    } else {
        first_white_from(s, i + 1)
    }
}

/// The command word of a slash command line: the trimmed line up to its first
/// whitespace.
pub open spec fn command_word(input: Seq<char>) -> Seq<char> {
    let t = trim(input);
    t.take(first_white_from(t, 0))
}

/// The argument of a slash command line: what follows the command word and one
/// whitespace character, trimmed; empty when nothing follows.
pub open spec fn command_arg(input: Seq<char>) -> Seq<char> {
    let t = trim(input);
    let w = first_white_from(t, 0);
    if w < t.len() {
        trim(t.skip(w + 1))
    } else {
        Seq::empty()
    }
}

/// The session work a slash command asks for.
pub enum SlashAction {
    /// Clear the conversation and the view.
    Clear,
    /// Save the conversation under this name.
    Save(String),
    /// Load the session of this name.
    Load(String),
    /// List the saved sessions.
    ListSessions,
    /// Nothing more to do: the status line says why.
    Nothing,
}

/// What the application does after a command from the interface.
pub enum AppAction {
    /// Nothing.
    Idle,
    /// Hand this user message to the agent.
    Submit(String),
    /// Do this session work.
    Slash(SlashAction),
    /// Stop the running turn.
    CancelAgent,
    /// Leave the application.
    Exit,
}

/// The visible state of the application.
pub struct App {
    streaming: bool,
    current_response: String,
    status_message: String,
    model: String,
    system_message: String,
}

impl App {
    /// Whether a turn is running.
    pub closed spec fn is_streaming(&self) -> bool {
        self.streaming
    }

    /// The answer being streamed.
    pub closed spec fn response(&self) -> Seq<char> {
        self.current_response@
    }

    /// The status line.
    pub closed spec fn status(&self) -> Seq<char> {
        self.status_message@
    }

    pub closed spec fn model_name(&self) -> Seq<char> {
        self.model@
    }

    pub closed spec fn system_prompt(&self) -> Seq<char> {
        self.system_message@
    }

    pub fn new(model: String, system_message: String) -> (a: Self)
        ensures
            !a.is_streaming(),
            a.response() == Seq::<char>::empty(),
            a.status() == Seq::<char>::empty(),
            a.model_name() == model@,
            a.system_prompt() == system_message@,
    {
        App {
            streaming: false,
            current_response: String::new(),
            status_message: String::new(),
            model,
            system_message,
        }
    }

    pub fn streaming(&self) -> (b: bool)
        ensures
            b == self.is_streaming(),
    {
        self.streaming
    }

    pub fn current_response(&self) -> (s: &str)
        ensures
            s@ == self.response(),
    {
        self.current_response.as_str()
    }

    pub fn status_message(&self) -> (s: &str)
        ensures
            s@ == self.status(),
    {
        self.status_message.as_str()
    }

    pub fn model(&self) -> (s: &str)
        ensures
            s@ == self.model_name(),
    {
        self.model.as_str()
    }

    pub fn system_message(&self) -> (s: &str)
        ensures
            s@ == self.system_prompt(),
    {
        self.system_message.as_str()
    }

    /// A command from the interface. A submitted line starting with `/` is a
    /// slash command; any other starts a turn (clearing the status line). A
    /// cancel stops a running turn and drops its partial answer.
    pub fn on_command(&mut self, cmd: TUICommand) -> (act: AppAction)
        ensures
            (final(self).is_streaming(), final(self).response()) == app_step(
                (old(self).is_streaming(), old(self).response()),
                AppInput::Command(cmd),
            ),
            final(self).model_name() == old(self).model_name(),
            final(self).system_prompt() == old(self).system_prompt(),
            match cmd {
                TUICommand::Exit => act is Exit && *final(self) == *old(self),
                TUICommand::Cancel => if old(self).is_streaming() {
                    act is CancelAgent && !final(self).is_streaming() && final(self).response()
                        == Seq::<char>::empty() && final(self).status() == old(self).status()
                } else {
                    act is Idle && *final(self) == *old(self)
                },
                TUICommand::Submit(content) => if content@.len() > 0 && content@[0] == '/' {
                    act matches AppAction::Slash(s) && slash_ok(
                        content@,
                        old(self).is_streaming(),
                        s,
                        final(self).status(),
                        old(self).status(),
                    ) && final(self).is_streaming() == old(self).is_streaming()
                        && final(self).response() == old(self).response()
                } else {
                    (act matches AppAction::Submit(c) && c@ == content@) && final(self).is_streaming()
                        && final(self).status() == Seq::<char>::empty() && final(self).response()
                        == old(self).response()
                },
            },
    {
        match cmd {
            TUICommand::Exit => AppAction::Exit,
            TUICommand::Cancel => {
                if self.streaming {
                    self.current_response = String::new();
                    self.streaming = false;
                    AppAction::CancelAgent
                } else {
                    AppAction::Idle
                }
            },
            TUICommand::Submit(content) => {
                let chars = str_chars(content.as_str());
                if chars.len() > 0 && chars[0] == '/' {
                    let s = self.slash_command(content.as_str());
                    AppAction::Slash(s)
                } else {
                    self.status_message = String::new();
                    self.streaming = true;
                    AppAction::Submit(content)
                }
            },
        }
    }

    /// Parses a slash command line and sets the status line for the commands
    /// that need no session work or that fail at once.
    pub fn slash_command(&mut self, input: &str) -> (act: SlashAction)
        ensures
            final(self).is_streaming() == old(self).is_streaming(),
            final(self).response() == old(self).response(),
            final(self).model_name() == old(self).model_name(),
            final(self).system_prompt() == old(self).system_prompt(),
            slash_ok(input@, old(self).is_streaming(), act, final(self).status(), old(self).status()),
    {
        let chars = str_chars(input);
        let t = trim_chars(&chars);
        let mut w: usize = 0;
        proof {
            assert(first_white_from(t@, 0) == first_white_from(t@, 0));
        }
        while w < t.len() && !is_whitespace(t[w])
            invariant
                w <= t.len(),
                first_white_from(t@, 0) == first_white_from(t@, w as int),
            decreases t.len() - w,
        {
            w = w + 1;
        }
        let mut word: Vec<char> = Vec::new();
        let mut i: usize = 0;
        while i < w
            invariant
                i <= w <= t.len(),
                word@ == t@.take(i as int),
            decreases w - i,
        {
            proof {
                assert(t@.take(i + 1) =~= t@.take(i as int).push(t@[i as int]));
            }
            word.push(t[i]);
            i = i + 1;
        }
        let mut rest: Vec<char> = Vec::new();
        if w < t.len() {
            let mut k = w + 1;
            while k < t.len()
                invariant
                    w + 1 <= k <= t.len(),
                    rest@ == t@.subrange(w + 1, k as int),
                decreases t.len() - k,
            {
                proof {
                    assert(t@.subrange(w + 1, k + 1) =~= t@.subrange(w + 1, k as int).push(t@[k as int]));
                }
                rest.push(t[k]);
                k = k + 1;
            }
            proof {
                assert(t@.subrange(w + 1, t.len() as int) =~= t@.skip(w + 1));
            }
        }
        let arg_chars = trim_chars(&rest);
        proof {
            if w >= t.len() {
                assert(rest@ =~= Seq::<char>::empty());
                assert(trim(Seq::<char>::empty()) =~= Seq::<char>::empty());
            }
        }
        let cmd = string_from_chars(word.as_slice());
        let arg = string_from_chars(arg_chars.as_slice());
        let ghost a = command_arg(input@);
        assert(cmd@ == command_word(input@));
        assert(arg@ == a);
        if str_eq(cmd.as_str(), "/clear") {
            self.status_message = String::from_str("Conversation cleared");
            SlashAction::Clear
        } else if str_eq(cmd.as_str(), "/save") {
            if arg_chars.len() == 0 {
                self.status_message = String::from_str("Usage: /save <name>");
                SlashAction::Nothing
            } else {
                SlashAction::Save(arg)
            }
        } else if str_eq(cmd.as_str(), "/load") {
            if arg_chars.len() == 0 {
                self.status_message = String::from_str("Usage: /load <name>");
                SlashAction::Nothing
            } else if self.streaming {
                self.status_message = String::from_str("Cannot load while streaming");
                SlashAction::Nothing
            } else {
                SlashAction::Load(arg)
            }
        } else if str_eq(cmd.as_str(), "/sessions") {
            SlashAction::ListSessions
        } else {
            self.status_message = concat2("Unknown command: ", input);
            SlashAction::Nothing
        }
    }

    /// The outcome of saving: the file's path, or the failure's message.
    pub fn on_save_result(&mut self, result: Result<String, String>)
        ensures
            final(self).is_streaming() == old(self).is_streaming(),
            final(self).response() == old(self).response(),
            final(self).status() == match result {
                Ok(path) => "Saved session to "@ + path@,
                Err(e) => "Save failed: "@ + e@,
            },
    {
        self.status_message = match result {
            Ok(path) => concat2("Saved session to ", path.as_str()),
            Err(e) => concat2("Save failed: ", e.as_str()),
        };
    }

    /// The outcome of loading session `name`.
    pub fn on_load_result(&mut self, name: &str, result: Result<(), String>)
        ensures
            final(self).is_streaming() == old(self).is_streaming(),
            final(self).response() == old(self).response(),
            final(self).status() == match result {
                Ok(_) => "Loaded session '"@ + name@ + "'"@,
                Err(e) => "Load failed: "@ + e@,
            },
    {
        self.status_message = match result {
            Ok(_) => concat3("Loaded session '", name, "'"),
            Err(e) => concat2("Load failed: ", e.as_str()),
        };
    }

    /// The outcome of listing the sessions.
    pub fn on_list_result(&mut self, result: Result<Vec<String>, String>)
        ensures
            final(self).is_streaming() == old(self).is_streaming(),
            final(self).response() == old(self).response(),
            final(self).status() == match result {
                Ok(names) => if names@.len() == 0 {
                    "No saved sessions"@
                } else {
                    "Sessions: "@ + join_with(names@.map_values(|n: String| n@), ", "@)
                },
                Err(e) => "List failed: "@ + e@,
            },
    {
        self.status_message = match result {
            Ok(names) => {
                if names.len() == 0 {
                    String::from_str("No saved sessions")
                } else {
                    let j = join_strings(&names, ", ");
                    concat2("Sessions: ", j.as_str())
                }
            },
            Err(e) => concat2("List failed: ", e.as_str()),
        };
    }

    /// An event of the agent: tokens grow the streamed answer; the end of an
    /// answer clears it; the end of the turn also stops streaming; an error
    /// does too and shows its message.
    pub fn on_agent_event(&mut self, event: AgentEvent)
        ensures
            (final(self).is_streaming(), final(self).response()) == app_step(
                (old(self).is_streaming(), old(self).response()),
                AppInput::Agent(event),
            ),
            final(self).model_name() == old(self).model_name(),
            final(self).system_prompt() == old(self).system_prompt(),
            match event {
                AgentEvent::Token(t) => final(self).response() == old(self).response() + t@
                    && final(self).is_streaming() == old(self).is_streaming() && final(self).status()
                    == old(self).status(),
                AgentEvent::MessageDone => final(self).response() == Seq::<char>::empty()
                    && final(self).is_streaming() == old(self).is_streaming() && final(self).status()
                    == old(self).status(),
                AgentEvent::Finished => final(self).response() == Seq::<char>::empty()
                    && !final(self).is_streaming() && final(self).status() == old(self).status(),
                AgentEvent::Error(e) => final(self).response() == Seq::<char>::empty()
                    && !final(self).is_streaming() && final(self).status() == e@,
            },
    {
        match event {
            AgentEvent::Token(t) => {
                self.current_response.append(t.as_str());
            },
            AgentEvent::MessageDone => {
                self.current_response = String::new();
            },
            AgentEvent::Finished => {
                self.current_response = String::new();
                self.streaming = false;
            },
            AgentEvent::Error(e) => {
                self.current_response = String::new();
                self.streaming = false;
                self.status_message = e;
            },
        }
    }
}

/// What a slash command line `input` does: the action and the status line
/// after it (`prev` is the status line before).
pub open spec fn slash_ok(
    input: Seq<char>,
    streaming: bool,
    act: SlashAction,
    status: Seq<char>,
    prev: Seq<char>,
) -> bool {
    let cmd = command_word(input);
    let arg = command_arg(input);
    if cmd == "/clear"@ {
        act is Clear && status == "Conversation cleared"@
    } else if cmd == "/save"@ {
        if arg.len() == 0 {
            act is Nothing && status == "Usage: /save <name>"@
        } else {
            (act matches SlashAction::Save(n) && n@ == arg) && status == prev
        }
    } else if cmd == "/load"@ {
        if arg.len() == 0 {
            act is Nothing && status == "Usage: /load <name>"@
        } else if streaming {
            act is Nothing && status == "Cannot load while streaming"@
        } else {
            (act matches SlashAction::Load(n) && n@ == arg) && status == prev
        }
    } else if cmd == "/sessions"@ {
        act is ListSessions && status == prev
    } else {
        act is Nothing && status == "Unknown command: "@ + input
    }
}

} // verus!

verus! {

/// An input of the application: a command from the interface or an event of
/// the agent.
pub enum AppInput {
    Command(TUICommand),
    Agent(AgentEvent),
}

/// What an input does to whether a turn is running and to the answer being
/// streamed.
pub open spec fn app_step(st: (bool, Seq<char>), i: AppInput) -> (bool, Seq<char>) {
    match i {
        AppInput::Command(TUICommand::Exit) => st,
        AppInput::Command(TUICommand::Cancel) => if st.0 {
            (false, Seq::empty())
        } else {
            st
        },
        AppInput::Command(TUICommand::Submit(c)) => if c@.len() > 0 && c@[0] == '/' {
            st
        } else {
            (true, st.1)
        },
        AppInput::Agent(AgentEvent::Token(t)) => (st.0, st.1 + t@),
        AppInput::Agent(AgentEvent::MessageDone) => (st.0, Seq::empty()),
        AppInput::Agent(AgentEvent::Finished) => (false, Seq::empty()),
        AppInput::Agent(AgentEvent::Error(_)) => (false, Seq::empty()),
    }
}

/// The state after the inputs `evs`, one after the other, from `st`.
pub open spec fn run_state(st: (bool, Seq<char>), evs: Seq<AppInput>) -> (bool, Seq<char>)
    decreases evs.len(),
{
    if evs.len() == 0 {
        st
    } else {
        app_step(run_state(st, evs.drop_last()), evs.last())
    }
}

/// Whether input `i`, arriving in state `st`, drops the streamed answer: the
/// end of an answer or of the turn, an error, or a cancel while a turn runs.
pub open spec fn clears(st: (bool, Seq<char>), i: AppInput) -> bool {
    match i {
        AppInput::Command(TUICommand::Cancel) => st.0,
        AppInput::Agent(AgentEvent::MessageDone) => true,
        AppInput::Agent(AgentEvent::Finished) => true,
        AppInput::Agent(AgentEvent::Error(_)) => true,
        _ => false,
    }
}

/// The text of the tokens among `evs`, in order.
pub open spec fn token_text(evs: Seq<AppInput>) -> Seq<char>
    decreases evs.len(),
{
    if evs.len() == 0 {
        Seq::empty()
    } else {
        token_text(evs.drop_last()) + match evs.last() {
            AppInput::Agent(AgentEvent::Token(t)) => t@,
            _ => Seq::empty(),
        }
    }
}

/// If nothing from position `k` on drops the answer, the answer after `evs` is
/// the answer after the first `k` inputs followed by the tokens that came after.
proof fn lemma_answer_grows_by_tokens(st: (bool, Seq<char>), evs: Seq<AppInput>, k: int)
    requires
        0 <= k <= evs.len(),
        forall|j: int| k <= j < evs.len() ==> !clears(run_state(st, evs.take(j)), #[trigger] evs[j]),
    ensures
        run_state(st, evs).1 == run_state(st, evs.take(k)).1 + token_text(evs.skip(k)),
    decreases evs.len(),
{
    if k == evs.len() {
        assert(evs.take(k) =~= evs);
        assert(evs.skip(k) =~= Seq::<AppInput>::empty());
    } else {
        let d = evs.drop_last();
        assert forall|j: int| k <= j < d.len() implies !clears(run_state(st, d.take(j)), #[trigger] d[j]) by {
            assert(d.take(j) =~= evs.take(j));
            assert(d[j] == evs[j]);
            assert(!clears(run_state(st, evs.take(j)), evs[j]));
        }
        lemma_answer_grows_by_tokens(st, d, k);
        assert(d.take(k) =~= evs.take(k));
        let n = evs.len() - 1;
        assert(evs.take(n) =~= d);
        assert(!clears(run_state(st, evs.take(n)), evs[n]));
        assert(evs.skip(k).drop_last() =~= d.skip(k));
        assert(evs.skip(k).last() == evs.last());
    }
}

/// Over any run of the application, the answer shown is the text of the tokens
/// received since the last input that dropped it (an answer's end, the turn's
/// end, an error, or a cancel while a turn ran); when nothing dropped it, it is
/// the answer at the start followed by all the tokens.
pub proof fn lemma_answer_is_tokens_since_clear(st: (bool, Seq<char>), evs: Seq<AppInput>, k: int)
    requires
        0 <= k < evs.len(),
        clears(run_state(st, evs.take(k)), evs[k]),
        forall|j: int| k < j < evs.len() ==> !clears(run_state(st, evs.take(j)), #[trigger] evs[j]),
    ensures
        run_state(st, evs).1 == token_text(evs.skip(k + 1)),
{
    lemma_answer_grows_by_tokens(st, evs, k + 1);
    assert(evs.take(k + 1).drop_last() =~= evs.take(k));
    assert(evs.take(k + 1).last() == evs[k]);
    assert(run_state(st, evs.take(k + 1)).1 =~= Seq::<char>::empty());
    assert(Seq::<char>::empty() + token_text(evs.skip(k + 1)) =~= token_text(evs.skip(k + 1)));
}

/// Over a run in which nothing dropped the answer, the answer is the one at the
/// start followed by the text of all the tokens.
pub proof fn lemma_answer_without_clear(st: (bool, Seq<char>), evs: Seq<AppInput>)
    requires
        forall|j: int| 0 <= j < evs.len() ==> !clears(run_state(st, evs.take(j)), #[trigger] evs[j]),
    ensures
        run_state(st, evs).1 == st.1 + token_text(evs),
{
    lemma_answer_grows_by_tokens(st, evs, 0);
    assert(evs.take(0) =~= Seq::<AppInput>::empty());
    assert(evs.skip(0) =~= evs);
}

/// The end of the turn or an error stops the turn, and a line that is not a
/// slash command starts one, whatever came before.
pub proof fn lemma_turn_flag(st: (bool, Seq<char>), evs: Seq<AppInput>)
    requires
        evs.len() > 0,
    ensures
        (evs.last() is Agent && (evs.last()->Agent_0 is Finished || evs.last()->Agent_0 is Error))
            ==> !run_state(st, evs).0,
        (evs.last() matches AppInput::Command(TUICommand::Submit(c)) && !(c@.len() > 0 && c@[0] == '/'))
            ==> run_state(st, evs).0,
{
}

} // verus!
