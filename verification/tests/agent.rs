use rode::agent::provider::{
    build_request, request_message, request_messages, tool_schema, LLMProviderConfig, RequestMessage, StreamedReply,
    ToolCallDelta,
};
use rode::agent::session::{Message, Role, Session, Timestamp};
use rode::agent::{
    after_tools, on_round_start, on_stream_result, on_tool_output, AgentEvent, RoundEnd, RoundStart, TurnStart, TurnStep,
};
use rode::tools::bash::BashTool;
use rode::tools::read_file::ReadFileTool;
use rode::tools::{ToolCall, ToolKind, ToolRegistry};

fn message(role: Role, content: &str) -> Message {
    Message {
        id: 1,
        role,
        content: content.to_string(),
        tool_calls: Vec::new(),
        tool_call_id: None,
        used_tokens: None,
        timestamp: Timestamp { secs: 0, nanos: 0 },
    }
}

fn call(id: &str) -> ToolCall {
    ToolCall { id: id.to_string(), name: "bash".to_string(), arguments: "{}".to_string() }
}

fn delta(index: u32, id: Option<&str>, name: Option<&str>, arguments: Option<&str>) -> ToolCallDelta {
    ToolCallDelta {
        index,
        id: id.map(|s| s.to_string()),
        name: name.map(|s| s.to_string()),
        arguments: arguments.map(|s| s.to_string()),
    }
}

#[test]
fn config_from_environment_values() {
    let c = LLMProviderConfig::from_env(Some("k".into()), Some("http://x".into()), Some("m".into())).unwrap();
    assert_eq!((c.api_key(), c.base_url(), c.model()), ("k", "http://x", "m"));
    let err = |r: Result<LLMProviderConfig, String>| match r {
        Err(e) => e,
        Ok(_) => panic!("expected an error"),
    };
    assert_eq!(err(LLMProviderConfig::from_env(None, None, None)), "RODE_API_KEY not found in environment");
    assert_eq!(err(LLMProviderConfig::from_env(Some("k".into()), None, Some("m".into()))), "URL not found in environment");
    assert_eq!(err(LLMProviderConfig::from_env(Some("k".into()), Some("u".into()), None)), "MODEL not found in environment");
}

#[test]
fn streamed_reply_assembles_calls() {
    let mut r = StreamedReply::new();
    r.push_content("Hel");
    r.push_content("lo");
    r.apply_tool_delta(delta(1, Some("b"), Some("read_file"), Some("{\"pa")));
    r.apply_tool_delta(delta(1, None, None, Some("th\": \"x\"}")));
    r.apply_tool_delta(delta(0, Some("a"), Some("bash"), None));
    r.apply_tool_delta(delta(3, None, Some("ghost"), Some("{}")));
    let m = r.finish();
    assert!(m.role == Role::Assistant);
    assert_eq!(m.content, "Hello");
    assert_eq!(m.tool_calls.len(), 2);
    assert_eq!(m.tool_calls[0].id, "a");
    assert_eq!(m.tool_calls[0].name, "bash");
    assert_eq!(m.tool_calls[0].arguments, "");
    assert_eq!(m.tool_calls[1].id, "b");
    assert_eq!(m.tool_calls[1].arguments, "{\"path\": \"x\"}");
    assert!(m.tool_call_id.is_none());
    assert!(m.used_tokens.is_none());
}

#[test]
fn request_messages_follow_roles() {
    let mut assistant = message(Role::Assistant, "");
    assistant.tool_calls.push(call("c1"));
    let mut tool = message(Role::Tool, "out");
    tool.tool_call_id = Some("c1".to_string());
    let ms = vec![message(Role::System, "sys"), message(Role::User, "hi"), assistant, tool, message(Role::Tool, "x")];
    let rs = request_messages(&ms);
    assert_eq!(rs.len(), 5);
    assert!(matches!(&rs[0], RequestMessage::System { content } if content == "sys"));
    assert!(matches!(&rs[1], RequestMessage::User { content } if content == "hi"));
    match &rs[2] {
        RequestMessage::Assistant { content, tool_calls } => {
            assert!(content.is_none());
            assert_eq!(tool_calls[0].id, "c1");
        }
        _ => panic!("expected an assistant message"),
    }
    assert!(matches!(&rs[3], RequestMessage::Tool { content, tool_call_id } if content == "out" && tool_call_id == "c1"));
    assert!(matches!(&rs[4], RequestMessage::Tool { tool_call_id, .. } if tool_call_id.is_empty()));
    match request_message(&message(Role::Assistant, "text")) {
        RequestMessage::Assistant { content, tool_calls } => {
            assert_eq!(content.as_deref(), Some("text"));
            assert!(tool_calls.is_empty());
        }
        _ => panic!("expected an assistant message"),
    }
}

#[test]
fn schema_lists_required_parameters() {
    let s = tool_schema(&ToolKind::Bash(BashTool).info());
    assert_eq!(s.name, "bash");
    assert_eq!(s.description, "Execute a bash command");
    assert_eq!(s.properties.len(), 2);
    assert_eq!(s.properties[0], ("command".to_string(), "string".to_string(), "Bash command to execute".to_string()));
    assert_eq!(s.properties[1].1, "integer");
    assert_eq!(s.required, vec!["command".to_string()]);
}

#[test]
fn cancelled_round_finishes() {
    assert!(matches!(on_round_start(true), Some(AgentEvent::Finished)));
    assert!(on_round_start(false).is_none());
    assert!(matches!(after_tools(), AgentEvent::MessageDone));
}

#[test]
fn answer_without_calls_finishes_turn() {
    let mut s = Session::new("sys".to_string(), usize::MAX);
    s.add_user_message("hi");
    let step = on_stream_result(&mut s, Ok(message(Role::Assistant, "hello")));
    assert!(matches!(step, TurnStep::Stop(AgentEvent::Finished)));
    assert_eq!(s.get_messages().len(), 3);
    assert_eq!(s.get_messages()[2].content, "hello");
}

#[test]
fn answer_with_calls_runs_tools() {
    let mut s = Session::new("sys".to_string(), usize::MAX);
    let mut m = message(Role::Assistant, "");
    m.tool_calls.push(call("c1"));
    m.tool_calls.push(call("c2"));
    match on_stream_result(&mut s, Ok(m)) {
        TurnStep::RunTools(calls) => {
            let ids: Vec<&str> = calls.iter().map(|c| c.id.as_str()).collect();
            assert_eq!(ids, vec!["c1", "c2"]);
            on_tool_output(&mut s, &calls[0], Ok("done".to_string()));
            on_tool_output(&mut s, &calls[1], Err("no such file".to_string()));
        }
        _ => panic!("expected tool calls"),
    }
    let ms = s.get_messages();
    assert_eq!(ms.len(), 4);
    assert!(ms[2].role == Role::Tool);
    assert_eq!(ms[2].content, "done");
    assert_eq!(ms[2].tool_call_id.as_deref(), Some("c1"));
    assert_eq!(ms[3].content, "Error: no such file");
    assert_eq!(ms[3].tool_call_id.as_deref(), Some("c2"));
}

#[test]
fn failed_stream_reports_error() {
    let mut s = Session::new("sys".to_string(), usize::MAX);
    match on_stream_result(&mut s, Err("connection refused".to_string())) {
        TurnStep::Stop(AgentEvent::Error(e)) => assert_eq!(e, "connection refused"),
        _ => panic!("expected an error"),
    }
    assert_eq!(s.get_messages().len(), 1);
}

#[test]
fn request_holds_model_messages_and_tools() {
    let mut reg = ToolRegistry::new();
    reg.register(ToolKind::ReadFile(ReadFileTool));
    reg.register(ToolKind::Bash(BashTool));
    let ms = vec![message(Role::System, "sys"), message(Role::User, "hi")];
    let r = build_request(&ms, &reg, "gpt-x");
    assert_eq!(r.model, "gpt-x");
    assert!(r.stream);
    assert_eq!(r.messages.len(), 2);
    assert!(matches!(&r.messages[1], RequestMessage::User { content } if content == "hi"));
    let names: Vec<&str> = r.tools.iter().map(|t| t.name.as_str()).collect();
    assert_eq!(names, vec!["read_file", "bash"]);
    assert_eq!(r.tools[0].required, vec!["path".to_string()]);
    let empty = build_request(&[], &ToolRegistry::new(), "m");
    assert!(empty.messages.is_empty() && empty.tools.is_empty());
}

#[test]
fn turn_rounds_end_once() {
    let mut s = Session::new("sys".to_string(), usize::MAX);
    // a cancelled turn ends at once with Finished
    match TurnStart::new().begin_round(true) {
        RoundStart::Cancelled(over, e) => {
            assert!(matches!(e, AgentEvent::Finished));
            over.lemma_ends_once();
        }
        RoundStart::Streaming(_) => panic!("expected a cancelled turn"),
    }
    // a round whose answer calls a tool, then a round that finishes
    let mut stream = match TurnStart::new().begin_round(false) {
        RoundStart::Streaming(st) => st,
        _ => panic!("expected streaming"),
    };
    assert!(matches!(stream.token("Hi"), AgentEvent::Token(t) if t == "Hi"));
    let mut m = message(Role::Assistant, "Hi");
    m.tool_calls.push(call("c1"));
    let next = match stream.finish(&mut s, Ok(m)) {
        RoundEnd::RunTools(mut tools, calls) => {
            assert_eq!(calls.len(), 1);
            tools.record(&mut s, &calls[0], Ok("done".to_string()));
            let (next, e) = tools.done();
            assert!(matches!(e, AgentEvent::MessageDone));
            next
        }
        RoundEnd::Over(..) => panic!("expected tool calls"),
    };
    next.lemma_starts_after_answer();
    let stream = match next.begin_round(false) {
        RoundStart::Streaming(st) => st,
        _ => panic!("expected streaming"),
    };
    match stream.finish(&mut s, Err("timeout".to_string())) {
        RoundEnd::Over(_, AgentEvent::Error(e)) => assert_eq!(e, "timeout"),
        _ => panic!("expected an error"),
    }
    let contents: Vec<&str> = s.get_messages().iter().map(|m| m.content.as_str()).collect();
    assert_eq!(contents, vec!["sys", "Hi", "done"]);
}
