use rode::agent::session::{Message, Role, Timestamp};
use rode::message::Conversation;
use rode::state::{AppState, LLMEvent};
use rode::tool::{apply_edit, command_output, get_available_tools, plan_call, written, CallAction, ToolCall};
use rode::tools::{ArgField, ToolRegistry};
use rode::tui::line::{chat_layout, LayoutLine, MessageLinesBuilder};
use rode::ui::{build_chat_lines, compute_scroll};

fn fixed_call(name: &str, arguments: &str) -> ToolCall {
    ToolCall { id: "1".to_string(), name: name.to_string(), arguments: arguments.to_string() }
}

fn message(role: Role, content: &str) -> Message {
    Message {
        id: 3,
        role,
        content: content.to_string(),
        tool_calls: Vec::new(),
        tool_call_id: None,
        used_tokens: None,
        timestamp: Timestamp { secs: 0, nanos: 0 },
    }
}

fn describe(ls: &[LayoutLine]) -> Vec<String> {
    ls.iter()
        .map(|l| match l {
            LayoutLine::UserPadding(w) => format!("pad {}", w),
            LayoutLine::UserText { text, right_pad } => format!("user {} +{}", text, right_pad),
            LayoutLine::Markdown(t) => format!("md {}", t),
            LayoutLine::ToolCall(t) => format!("call {}", t),
            LayoutLine::Blank => "blank".to_string(),
        })
        .collect()
}

#[test]
fn fixed_tool_set_is_announced() {
    let tools = get_available_tools();
    let names: Vec<&str> = tools.iter().map(|t| t.name.as_str()).collect();
    assert_eq!(names, vec!["bash", "read_file", "write_file", "edit_file"]);
    assert_eq!(tools[0].parameters.len(), 1);
    assert_eq!(tools[3].parameters[2].name, "new_content");
    assert_eq!(tools[2].parameters[1].param_type, "string");
}

#[test]
fn fixed_calls_decide_their_work() {
    match fixed_call("read_file", "{\"path\": \"a\"}").execute() {
        Ok(CallAction::ReadFile { path }) => assert_eq!(path, "a"),
        _ => panic!("expected a read"),
    }
    match fixed_call("bash", "{\"command\": \"echo rm -fr x\"}").execute() {
        Ok(CallAction::Reply(m)) => assert_eq!(m, "Error: Command blocked for security reasons"),
        _ => panic!("expected a block"),
    }
    match fixed_call("bash", "{\"command\": \"RM -RF x\"}").execute() {
        Ok(CallAction::RunCommand { command }) => assert_eq!(command, "RM -RF x"),
        _ => panic!("expected a command"),
    }
    match fixed_call("grep", "{}").execute() {
        Ok(CallAction::Reply(m)) => assert_eq!(m, "Unknown tool: grep"),
        _ => panic!("expected a reply"),
    }
    match fixed_call("write_file", "{\"path\": \"a\"}").execute() {
        Err(e) => assert_eq!(e, "Missing 'content' argument"),
        _ => panic!("expected an error"),
    }
    assert!(fixed_call("bash", "nope").execute().is_err());
}

#[test]
fn fixed_edit_replaces_every_occurrence() {
    let e = apply_edit("a-b-a", "a", "XY");
    assert_eq!(e.updated.as_deref(), Some("XY-b-XY"));
    assert_eq!(e.message, "File edited successfully");
    let e = apply_edit("aaa", "aa", "b");
    assert_eq!(e.updated.as_deref(), Some("ba"));
    let e = apply_edit("ab", "", "-");
    assert_eq!(e.updated.as_deref(), Some("-a-b-"));
    let e = apply_edit("ab", "z", "-");
    assert!(e.updated.is_none());
    assert_eq!(e.message, "Pattern 'z' not found in file");
}

#[test]
fn fixed_tool_outputs() {
    assert_eq!(command_output(true, "out".to_string(), "err"), "out");
    assert_eq!(command_output(false, "out".to_string(), "err"), "Error: err");
    assert_eq!(written(), "File written successfully");
}

#[test]
fn text_role_conversation_keeps_first_message() {
    let mut c = Conversation::new(2);
    c.add_message("system", "s");
    c.add_message("user", "a");
    c.add_message("user", "b");
    let contents: Vec<&str> = c.get_messages().iter().map(|m| m.content.as_str()).collect();
    assert_eq!(contents, vec!["s", "b"]);
    c.clear();
    assert!(c.get_messages().is_empty());
}

#[test]
fn simple_state_follows_stream() {
    let mut s = AppState::new(Conversation::new(10), ToolRegistry::new());
    s.submit_user_message("hi");
    assert!(s.streaming);
    s.handle_llm_event(LLMEvent::Token("par".to_string()), Vec::new());
    assert_eq!(s.current_response, "par");
    let followups = s.handle_llm_event(LLMEvent::Error("down".to_string()), Vec::new());
    assert!(followups.is_empty());
    assert!(!s.streaming);
    let last = s.conversation.get_messages().last().unwrap();
    assert_eq!((last.role.as_str(), last.content.as_str()), ("assistant", "Error: down"));
    s.add_tool_output("c1", Err("bad".to_string()));
    assert_eq!(s.conversation.get_messages().last().unwrap().content, "Error: bad");
    s.scroll_down();
    s.scroll_up();
    s.scroll_up();
    assert_eq!(s.scroll, 0);
    assert!(!s.auto_scroll);
    s.clear();
    assert!(s.auto_scroll);
    assert!(s.conversation.get_messages().is_empty());
}

#[test]
fn scroll_offsets() {
    assert_eq!(compute_scroll(50, 20, true, 0), 30);
    assert_eq!(compute_scroll(50, 20, false, 12), 12);
    assert_eq!(compute_scroll(50, 20, false, 40), 30);
    assert_eq!(compute_scroll(5, 20, true, 3), 0);
}

#[test]
fn chat_lines_per_role() {
    let mut assistant = message(Role::Assistant, "  **hi**");
    assistant.tool_calls.push(rode::tools::ToolCall {
        id: "c".to_string(),
        name: "bash".to_string(),
        arguments: "{\"command\": \"ls\"}".to_string(),
    });
    let ms = vec![message(Role::System, "sys"), message(Role::User, " hello world "), assistant, message(Role::Tool, "x")];
    let ls = chat_layout(&ms, 12, "  partial", true);
    assert_eq!(
        describe(&ls),
        vec![
            "pad 12",
            "user hello wo +2",
            "user rld +7",
            "pad 12",
            "blank",
            "md **hi**",
            "call bash: {...",
            "blank",
            "md partial",
        ]
    );
    let idle = chat_layout(&ms[..1], 12, "ignored", false);
    assert!(idle.is_empty());
}

#[test]
fn simple_view_cuts_tool_arguments() {
    let mut assistant = message(Role::Assistant, "ok");
    assistant.tool_calls.push(rode::tools::ToolCall {
        id: "c".to_string(),
        name: "bash".to_string(),
        arguments: "x".repeat(50),
    });
    let ls = build_chat_lines(&[assistant], 80, "", true);
    assert_eq!(describe(&ls), vec!["md ok".to_string(), format!("call bash: {}", "x".repeat(40)), "blank".to_string()]);
}

#[test]
fn simple_state_records_answer_and_tool_outputs() {
    let mut s = AppState::new(Conversation::new(10), ToolRegistry::new());
    s.submit_user_message("hi");
    let call = |id: &str| rode::tools::ToolCall { id: id.to_string(), name: "bash".to_string(), arguments: "{}".to_string() };
    let answer = rode::message::Message {
        role: "assistant".to_string(),
        content: "running".to_string(),
        tool_calls: vec![call("a"), call("b")],
        tool_call_id: None,
    };
    let followups = s.handle_llm_event(LLMEvent::Done(answer), vec![Ok("out".to_string()), Err("bad".to_string())]);
    assert_eq!(followups.len(), 1);
    assert_eq!(followups[0].tool_calls.len(), 2);
    assert!(!s.streaming);
    let ms = s.conversation.get_messages();
    let view: Vec<(&str, &str, Option<&str>)> =
        ms.iter().map(|m| (m.role.as_str(), m.content.as_str(), m.tool_call_id.as_deref())).collect();
    assert_eq!(
        view,
        vec![("user", "hi", None), ("assistant", "running", None), ("tool", "out", Some("a")), ("tool", "Error: bad", Some("b"))]
    );
    assert_eq!(ms[1].tool_calls.len(), 2);
    let plain = rode::message::Message {
        role: "assistant".to_string(),
        content: "done".to_string(),
        tool_calls: Vec::new(),
        tool_call_id: None,
    };
    assert!(s.handle_llm_event(LLMEvent::Done(plain), Vec::new()).is_empty());
    assert_eq!(s.conversation.get_messages().len(), 5);
}

#[test]
fn plan_call_reads_fields() {
    let f = |k: &str, v: &str| ArgField { key: k.to_string(), text: Some(v.to_string()), unsigned: None };
    match plan_call("edit_file", &vec![f("path", "a"), f("old_content", "x"), f("new_content", "y")]) {
        Ok(CallAction::EditFile { path, old_content, new_content }) => {
            assert_eq!((path.as_str(), old_content.as_str(), new_content.as_str()), ("a", "x", "y"))
        }
        _ => panic!("expected an edit"),
    }
    match plan_call("edit_file", &vec![f("path", "a")]) {
        Err(e) => assert_eq!(e, "Missing 'old_content' argument"),
        _ => panic!("expected an error"),
    }
    match plan_call("bash", &vec![f("command", "ls; rm -rf /")]) {
        Ok(CallAction::Reply(m)) => assert_eq!(m, "Error: Command blocked for security reasons"),
        _ => panic!("expected a block"),
    }
}

#[test]
fn line_cache_keeps_lines_per_id_and_width() {
    let mut b = MessageLinesBuilder::new();
    let mut first = message(Role::Assistant, "one");
    first.id = 10;
    let ls = b.build(&[first], 20, "", false);
    assert_eq!(describe(&ls), vec!["md one", "blank"]);
    // same id, same width: the cached lines are shown
    let mut changed = message(Role::Assistant, "two");
    changed.id = 10;
    assert_eq!(describe(&b.build(&[changed], 20, "", false)), vec!["md one", "blank"]);
    // another width lays the message out again
    let mut changed = message(Role::Assistant, "two");
    changed.id = 10;
    assert_eq!(describe(&b.build(&[changed], 30, "x", true)), vec!["md two", "blank", "md x"]);
    // an id that is no longer shown is dropped from the cache
    let mut other = message(Role::Assistant, "three");
    other.id = 11;
    b.build(&[other], 30, "", false);
    let mut back = message(Role::Assistant, "four");
    back.id = 10;
    assert_eq!(describe(&b.build(&[back], 30, "", false)), vec!["md four", "blank"]);
    // clearing the cache lays every message out again
    let mut again = message(Role::Assistant, "five");
    again.id = 10;
    b.clear_cache();
    assert_eq!(describe(&b.build(&[again], 30, "", false)), vec!["md five", "blank"]);
    // system messages are never cached or shown
    let mut sys = message(Role::System, "sys");
    sys.id = 12;
    assert!(b.build(&[sys], 30, "", false).is_empty());
}

#[test]
fn tui_reset_drops_cached_lines() {
    let mut t = rode::tui::Tui::new();
    let mut m = message(Role::Assistant, "one");
    m.id = 5;
    t.build_lines(&[m], 20, "", false);
    let mut m2 = message(Role::Assistant, "two");
    m2.id = 5;
    assert_eq!(describe(&t.build_lines(&[m2], 20, "", false)), vec!["md one", "blank"]);
    t.reset();
    let mut m3 = message(Role::Assistant, "two");
    m3.id = 5;
    assert_eq!(describe(&t.build_lines(&[m3], 20, "", false)), vec!["md two", "blank"]);
}
