use rode::agent::session::{jsonl_lines, Message, Role, Session, Timestamp};
use rode::agent::store::{session_name, sessions_newest_first, SavedFile, SessionStore};
use rode::tools::ToolCall;

fn message(role: Role, content: &str, tokens: Option<u32>) -> Message {
    Message {
        id: 7,
        role,
        content: content.to_string(),
        tool_calls: Vec::new(),
        tool_call_id: None,
        used_tokens: tokens,
        timestamp: Timestamp { secs: 0, nanos: 0 },
    }
}

fn contents(s: &Session) -> Vec<String> {
    s.get_messages().iter().map(|m| m.content.clone()).collect()
}

#[test]
fn new_session_holds_system_prompt() {
    let s = Session::new("be brief".to_string(), 10);
    let ms = s.get_messages();
    assert_eq!(ms.len(), 1);
    assert!(ms[0].role == Role::System);
    assert_eq!(ms[0].content, "be brief");
    assert!(ms[0].tool_calls.is_empty());
    assert!(ms[0].tool_call_id.is_none());
    assert!(ms[0].used_tokens.is_none());
}

#[test]
fn messages_get_fresh_ids() {
    let mut s = Session::new("sys".to_string(), 10);
    s.add_user_message("a");
    s.add_user_message("b");
    let ms = s.get_messages();
    assert_ne!(ms[1].id, ms[2].id);
    // version 7 UUIDs carry their version in bits 76..80
    assert_eq!((ms[1].id >> 76) & 0xf, 7);
    // and the RFC variant in bits 62..64
    assert_eq!((ms[2].id >> 62) & 0x3, 2);
}

#[test]
fn history_is_trimmed_keeping_system_message() {
    let mut s = Session::new("sys".to_string(), 3);
    s.add_user_message("one");
    s.add_user_message("two");
    assert_eq!(contents(&s), vec!["sys", "one", "two"]);
    s.add_user_message("three");
    assert_eq!(contents(&s), vec!["sys", "two", "three"]);
    s.add_tool_message("call_1", "output");
    assert_eq!(contents(&s), vec!["sys", "three", "output"]);
    let last = &s.get_messages()[2];
    assert!(last.role == Role::Tool);
    assert_eq!(last.tool_call_id.as_deref(), Some("call_1"));
}

#[test]
fn bound_of_one_keeps_only_system_message() {
    let mut s = Session::new("sys".to_string(), 1);
    s.add_user_message("one");
    assert_eq!(contents(&s), vec!["sys"]);
}

#[test]
fn bound_of_zero_keeps_everything() {
    let mut s = Session::new("sys".to_string(), 0);
    s.add_user_message("one");
    s.add_user_message("two");
    assert_eq!(contents(&s), vec!["sys", "one", "two"]);
}

#[test]
fn total_tokens_is_latest_count() {
    let mut s = Session::new("sys".to_string(), usize::MAX);
    assert_eq!(s.total_tokens(), None);
    s.add_message(message(Role::Assistant, "a", Some(120)));
    s.add_message(message(Role::Assistant, "b", Some(250)));
    s.add_user_message("c");
    assert_eq!(s.total_tokens(), Some(250));
}

#[test]
fn clear_restarts_from_system_prompt() {
    let mut s = Session::new("sys".to_string(), usize::MAX);
    s.add_user_message("a");
    s.add_message(message(Role::Assistant, "b", None));
    s.clear_messages();
    assert_eq!(contents(&s), vec!["sys"]);
    assert!(s.get_messages()[0].role == Role::System);
}

#[test]
fn jsonl_framing_round_trips() {
    let records = vec!["{\"a\":1}".to_string(), "{\"b\":2}".to_string()];
    let text = Session::to_jsonl(&records);
    assert_eq!(text, "{\"a\":1}\n{\"b\":2}\n");
    assert_eq!(jsonl_lines(&text), records);
}

#[test]
fn jsonl_of_nothing_is_empty() {
    assert_eq!(Session::to_jsonl(&Vec::new()), "");
    assert!(jsonl_lines("").is_empty());
}

#[test]
fn jsonl_lines_skips_blank_lines() {
    assert_eq!(jsonl_lines("x\n\n  \t\ny\r\nz"), vec!["x", "y", "z"]);
    assert_eq!(jsonl_lines(" a \n"), vec![" a "]);
}

#[test]
fn from_jsonl_takes_first_system_message() {
    let records = vec![
        message(Role::User, "hi", None),
        message(Role::System, "loaded prompt", None),
        message(Role::System, "second", None),
    ];
    let s = Session::from_jsonl(records, "default", 5);
    assert_eq!(contents(&s), vec!["hi", "loaded prompt", "second"]);
    let mut s = s;
    s.clear_messages();
    assert_eq!(contents(&s), vec!["loaded prompt"]);
}

#[test]
fn from_jsonl_without_system_message_uses_default() {
    let s = Session::from_jsonl(vec![message(Role::User, "hi", None)], "default", 5);
    let mut s = s;
    s.clear_messages();
    assert_eq!(contents(&s), vec!["default"]);
}

#[test]
fn store_paths() {
    let store = SessionStore::new("/home/u/.config/rode/sessions".to_string());
    assert_eq!(store.path_for("work"), "/home/u/.config/rode/sessions/work.jsonl");
    assert_eq!(store.dir(), "/home/u/.config/rode/sessions");
    let slash = SessionStore::new("dir/".to_string());
    assert_eq!(slash.path_for("a"), "dir/a.jsonl");
    let empty = SessionStore::new(String::new());
    assert_eq!(empty.path_for("a"), "a.jsonl");
    assert_eq!(store.path_for("/abs/x"), "/abs/x.jsonl");
}

#[test]
fn default_store_under_home() {
    let s = SessionStore::default_store(Some("/home/u".to_string())).unwrap();
    assert_eq!(s.dir(), "/home/u/.config/rode/sessions");
    assert!(SessionStore::default_store(None).is_none());
}

#[test]
fn session_names_of_files() {
    assert_eq!(session_name("work.jsonl"), Some("work".to_string()));
    assert_eq!(session_name("a.b.jsonl"), Some("a.b".to_string()));
    assert_eq!(session_name(".jsonl"), None);
    assert_eq!(session_name("notes.txt"), None);
    assert_eq!(session_name("jsonl"), None);
}

#[test]
fn sessions_listed_newest_first() {
    let f = |n: &str, t: i128| SavedFile { file_name: n.to_string(), modified: t };
    let files = vec![f("old.jsonl", 10), f("x.txt", 99), f("new.jsonl", 30), f("mid.jsonl", 20), f("tie.jsonl", 30)];
    assert_eq!(sessions_newest_first(&files), vec!["tie", "new", "mid", "old"]);
    assert!(sessions_newest_first(&Vec::new()).is_empty());
}

#[test]
fn messages_keep_tool_calls() {
    let mut m = message(Role::Assistant, "", None);
    m.tool_calls.push(ToolCall { id: "c1".to_string(), name: "bash".to_string(), arguments: "{}".to_string() });
    let mut s = Session::new("sys".to_string(), usize::MAX);
    s.add_message(m);
    assert_eq!(s.get_messages()[1].tool_calls[0].id, "c1");
}

#[test]
fn saved_session_is_listed_under_its_name() {
    let store = SessionStore::new("/data/sessions".to_string());
    let path = store.path_for("notes-1");
    let file_name = path.rsplit('/').next().unwrap();
    assert_eq!(file_name, "notes-1.jsonl");
    assert_eq!(session_name(file_name), Some("notes-1".to_string()));
    let files = vec![SavedFile { file_name: file_name.to_string(), modified: 5 }];
    assert_eq!(sessions_newest_first(&files), vec!["notes-1"]);
}

#[test]
fn system_prompt_survives_every_addition() {
    let mut s = Session::new("sys".to_string(), 2);
    for i in 0..5 {
        s.add_user_message(&format!("m{}", i));
        s.add_tool_message("c", "out");
        let first = &s.get_messages()[0];
        assert!(first.role == Role::System);
        assert_eq!(first.content, "sys");
    }
    assert_eq!(contents(&s), vec!["sys", "out"]);
}
