use rode::agent::AgentEvent;
use rode::app::{App, AppAction, SlashAction};
use rode::tui::TUICommand;

fn app() -> App {
    App::new("gpt".to_string(), "sys".to_string())
}

fn slash(a: &mut App, line: &str) -> SlashAction {
    match a.on_command(TUICommand::Submit(line.to_string())) {
        AppAction::Slash(s) => s,
        _ => panic!("expected a slash command"),
    }
}

#[test]
fn new_app_is_idle() {
    let a = app();
    assert!(!a.streaming());
    assert_eq!(a.current_response(), "");
    assert_eq!(a.status_message(), "");
    assert_eq!(a.model(), "gpt");
    assert_eq!(a.system_message(), "sys");
}

#[test]
fn submit_starts_turn() {
    let mut a = app();
    a.on_save_result(Err("disk full".to_string()));
    match a.on_command(TUICommand::Submit("hello".to_string())) {
        AppAction::Submit(c) => assert_eq!(c, "hello"),
        _ => panic!("expected a submission"),
    }
    assert!(a.streaming());
    assert_eq!(a.status_message(), "");
}

#[test]
fn cancel_stops_running_turn() {
    let mut a = app();
    assert!(matches!(a.on_command(TUICommand::Cancel), AppAction::Idle));
    a.on_command(TUICommand::Submit("hi".to_string()));
    a.on_agent_event(AgentEvent::Token("par".to_string()));
    assert!(matches!(a.on_command(TUICommand::Cancel), AppAction::CancelAgent));
    assert!(!a.streaming());
    assert_eq!(a.current_response(), "");
    assert!(matches!(a.on_command(TUICommand::Exit), AppAction::Exit));
}

#[test]
fn agent_events_update_response() {
    let mut a = app();
    a.on_command(TUICommand::Submit("hi".to_string()));
    a.on_agent_event(AgentEvent::Token("Hel".to_string()));
    a.on_agent_event(AgentEvent::Token("lo".to_string()));
    assert_eq!(a.current_response(), "Hello");
    a.on_agent_event(AgentEvent::MessageDone);
    assert_eq!(a.current_response(), "");
    assert!(a.streaming());
    a.on_agent_event(AgentEvent::Token("x".to_string()));
    a.on_agent_event(AgentEvent::Finished);
    assert_eq!(a.current_response(), "");
    assert!(!a.streaming());
    a.on_command(TUICommand::Submit("again".to_string()));
    a.on_agent_event(AgentEvent::Error("timeout".to_string()));
    assert!(!a.streaming());
    assert_eq!(a.status_message(), "timeout");
}

#[test]
fn slash_commands() {
    let mut a = app();
    assert!(matches!(slash(&mut a, "/clear"), SlashAction::Clear));
    assert_eq!(a.status_message(), "Conversation cleared");
    assert!(matches!(slash(&mut a, "/save"), SlashAction::Nothing));
    assert_eq!(a.status_message(), "Usage: /save <name>");
    match slash(&mut a, "/save   work  ") {
        SlashAction::Save(n) => assert_eq!(n, "work"),
        _ => panic!("expected a save"),
    }
    match slash(&mut a, "/load\tmy session") {
        SlashAction::Load(n) => assert_eq!(n, "my session"),
        _ => panic!("expected a load"),
    }
    assert!(matches!(slash(&mut a, "/load "), SlashAction::Nothing));
    assert_eq!(a.status_message(), "Usage: /load <name>");
    assert!(matches!(slash(&mut a, "/sessions"), SlashAction::ListSessions));
    assert!(matches!(slash(&mut a, "/quit now"), SlashAction::Nothing));
    assert_eq!(a.status_message(), "Unknown command: /quit now");
    assert!(!a.streaming());
}

#[test]
fn load_refused_while_streaming() {
    let mut a = app();
    a.on_command(TUICommand::Submit("hi".to_string()));
    assert!(matches!(slash(&mut a, "/load x"), SlashAction::Nothing));
    assert_eq!(a.status_message(), "Cannot load while streaming");
    assert!(a.streaming());
}

#[test]
fn session_results_set_status() {
    let mut a = app();
    a.on_save_result(Ok("/tmp/s/work.jsonl".to_string()));
    assert_eq!(a.status_message(), "Saved session to /tmp/s/work.jsonl");
    a.on_save_result(Err("denied".to_string()));
    assert_eq!(a.status_message(), "Save failed: denied");
    a.on_load_result("work", Ok(()));
    assert_eq!(a.status_message(), "Loaded session 'work'");
    a.on_load_result("work", Err("missing".to_string()));
    assert_eq!(a.status_message(), "Load failed: missing");
    a.on_list_result(Ok(Vec::new()));
    assert_eq!(a.status_message(), "No saved sessions");
    a.on_list_result(Ok(vec!["b".to_string(), "a".to_string()]));
    assert_eq!(a.status_message(), "Sessions: b, a");
    a.on_list_result(Err("no dir".to_string()));
    assert_eq!(a.status_message(), "List failed: no dir");
}

#[test]
fn answer_is_tokens_since_last_clear() {
    let mut a = app();
    a.on_command(TUICommand::Submit("hi".to_string()));
    a.on_agent_event(AgentEvent::Token("old".to_string()));
    a.on_agent_event(AgentEvent::MessageDone);
    a.on_command(TUICommand::Submit("/sessions".to_string()));
    a.on_agent_event(AgentEvent::Token("a".to_string()));
    a.on_command(TUICommand::Exit);
    a.on_agent_event(AgentEvent::Token("b".to_string()));
    assert_eq!(a.current_response(), "ab");
    assert!(a.streaming());
    a.on_command(TUICommand::Cancel);
    assert_eq!(a.current_response(), "");
    a.on_command(TUICommand::Cancel);
    a.on_agent_event(AgentEvent::Token("late".to_string()));
    assert_eq!(a.current_response(), "late");
    assert!(!a.streaming());
}
