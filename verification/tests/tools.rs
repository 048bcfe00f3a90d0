use rode::tools::bash::{BashTool, CommandOutcome, DEFAULT_TIMEOUT_SECS};
use rode::tools::edit_file::EditFileTool;
use rode::tools::read_file::ReadFileTool;
use rode::tools::write_file::WriteFileTool;
use rode::tools::{
    get_str_arg, get_u64_arg, ArgField, Tool, ToolAction, ToolCall, ToolError, ToolKind, ToolRegistry,
};

fn registry() -> ToolRegistry {
    let mut r = ToolRegistry::new();
    r.register(ToolKind::Bash(BashTool));
    r.register(ToolKind::ReadFile(ReadFileTool));
    r.register(ToolKind::WriteFile(WriteFileTool));
    r.register(ToolKind::EditFile(EditFileTool));
    r
}

fn call(name: &str, arguments: &str) -> ToolCall {
    ToolCall { id: "call_1".to_string(), name: name.to_string(), arguments: arguments.to_string() }
}

fn reply(r: Result<ToolAction, ToolError>) -> String {
    match r {
        Ok(ToolAction::Reply(s)) => s,
        _ => panic!("expected a reply"),
    }
}

fn error(r: Result<ToolAction, ToolError>) -> String {
    match r {
        Err(e) => e.message(),
        Ok(_) => panic!("expected an error"),
    }
}

fn field(key: &str, text: Option<&str>, unsigned: Option<u64>) -> ArgField {
    ArgField { key: key.to_string(), text: text.map(|t| t.to_string()), unsigned }
}

#[test]
fn argument_members_are_looked_up_by_key() {
    let fs = vec![field("command", Some("ls -l"), None), field("timeout", None, Some(5)), field("n", None, None)];
    assert_eq!(get_str_arg(&fs, "command"), Some("ls -l".to_string()));
    assert_eq!(get_u64_arg(&fs, "timeout"), Some(5));
    assert_eq!(get_str_arg(&fs, "timeout"), None);
    assert_eq!(get_u64_arg(&fs, "n"), None);
    assert_eq!(get_str_arg(&fs, "missing"), None);
    let dup = vec![field("k", Some("first"), None), field("k", Some("second"), None)];
    assert_eq!(get_str_arg(&dup, "k"), Some("first".to_string()));
}

#[test]
fn arguments_are_read_from_json() {
    let r = registry();
    // a negative number and a string are no timeout: the default applies
    match r.execute(&call("bash", "{\"command\": \"ls -l\", \"timeout\": -3}")) {
        Ok(ToolAction::RunCommand { command, timeout_secs }) => {
            assert_eq!(command, "ls -l");
            assert_eq!(timeout_secs, 30);
        }
        _ => panic!("expected a command"),
    }
    // JSON that is not an object has no members
    assert_eq!(error(r.execute(&call("read_file", "[1, 2]"))), "Missing 'path' argument");
    assert!(matches!(r.execute(&call("read_file", "not json")), Err(ToolError::InvalidArguments(_))));
}

#[test]
fn registry_announces_tools_in_order() {
    let infos = registry().available_tools();
    let names: Vec<&str> = infos.iter().map(|i| i.name.as_str()).collect();
    assert_eq!(names, vec!["bash", "read_file", "write_file", "edit_file"]);
    assert_eq!(infos[0].description, "Execute a bash command");
    assert_eq!(infos[0].parameters.len(), 2);
    assert_eq!(infos[0].parameters[1].name, "timeout");
    assert_eq!(infos[0].parameters[1].param_type, "integer");
    assert!(!infos[0].parameters[1].required);
    assert_eq!(infos[3].parameters[1].description, "Exact content to replace");
}

#[test]
fn registering_twice_keeps_one_entry() {
    let mut r = registry();
    r.register(ToolKind::Bash(BashTool));
    assert_eq!(r.available_tools().len(), 4);
    assert!(matches!(r.get("bash"), Some(ToolKind::Bash(_))));
    assert!(r.get("python").is_none());
}

#[test]
fn unknown_tool_is_not_found() {
    let r = registry();
    let res = r.execute(&call("python", "{}"));
    assert!(matches!(res, Err(ToolError::NotFound(_))));
    assert_eq!(error(res), "Tool 'python' not found");
}

#[test]
fn invalid_json_arguments_fail() {
    let r = registry();
    assert!(matches!(r.execute(&call("bash", "{oops")), Err(ToolError::InvalidArguments(_))));
}

#[test]
fn missing_arguments_are_reported() {
    let r = registry();
    assert_eq!(error(r.execute(&call("bash", "{}"))), "Missing 'command' argument");
    assert_eq!(error(r.execute(&call("bash", "{\"command\": 3}"))), "Missing 'command' argument");
    assert_eq!(error(r.execute(&call("read_file", "{}"))), "Missing 'path' argument");
    assert_eq!(error(r.execute(&call("write_file", "{\"path\": \"a\"}"))), "Missing 'content' argument");
    assert_eq!(
        error(r.execute(&call("edit_file", "{\"path\": \"a\", \"old_content\": \"x\"}"))),
        "Missing 'new_content' argument"
    );
    assert_eq!(error(r.execute(&call("edit_file", "{\"path\": \"a\"}"))), "Missing 'old_content' argument");
}

#[test]
fn dangerous_commands_are_blocked() {
    let r = registry();
    assert_eq!(
        reply(r.execute(&call("bash", "{\"command\": \"RM -RF /tmp/x\"}"))),
        "Error: Command blocked for security reasons (pattern: rm -rf)"
    );
    assert_eq!(
        reply(r.execute(&call("bash", "{\"command\": \"dd if=/dev/zero of=x\"}"))),
        "Error: Command blocked for security reasons (pattern: dd if=)"
    );
    // the pattern holds a capital letter, so the lowercased command never contains it
    match r.execute(&call("bash", "{\"command\": \"CHMOD -R 000 /\"}")) {
        Ok(ToolAction::RunCommand { command, .. }) => assert_eq!(command, "CHMOD -R 000 /"),
        _ => panic!("expected a command"),
    }
}

#[test]
fn commands_run_with_timeout() {
    let r = registry();
    match r.execute(&call("bash", "{\"command\": \"echo hi\"}")) {
        Ok(ToolAction::RunCommand { command, timeout_secs }) => {
            assert_eq!(command, "echo hi");
            assert_eq!(timeout_secs, DEFAULT_TIMEOUT_SECS);
            assert_eq!(timeout_secs, 30);
        }
        _ => panic!("expected a command"),
    }
    match r.execute(&call("bash", "{\"command\": \"sleep 1\", \"timeout\": 5}")) {
        Ok(ToolAction::RunCommand { timeout_secs, .. }) => assert_eq!(timeout_secs, 5),
        _ => panic!("expected a command"),
    }
    match r.execute(&call("bash", "{\"command\": \"sleep 1\", \"timeout\": \"5\"}")) {
        Ok(ToolAction::RunCommand { timeout_secs, .. }) => assert_eq!(timeout_secs, 30),
        _ => panic!("expected a command"),
    }
}

#[test]
fn file_tools_plan_their_work() {
    let r = registry();
    match r.execute(&call("read_file", "{\"path\": \"src/main.rs\"}")) {
        Ok(ToolAction::ReadFile { path }) => assert_eq!(path, "src/main.rs"),
        _ => panic!("expected a read"),
    }
    match r.execute(&call("write_file", "{\"path\": \"a.txt\", \"content\": \"hello\"}")) {
        Ok(ToolAction::WriteFile { path, content, message }) => {
            assert_eq!(path, "a.txt");
            assert_eq!(content, "hello");
            assert_eq!(message, "File 'a.txt' written successfully");
        }
        _ => panic!("expected a write"),
    }
    match r.execute(&call("edit_file", "{\"path\": \"a\", \"old_content\": \"x\", \"new_content\": \"y\"}")) {
        Ok(ToolAction::EditFile { path, old_content, new_content }) => {
            assert_eq!((path.as_str(), old_content.as_str(), new_content.as_str()), ("a", "x", "y"));
        }
        _ => panic!("expected an edit"),
    }
}

#[test]
fn command_reports() {
    assert_eq!(BashTool::report(CommandOutcome::TimedOut, 7), "Error: Command timed out after 7 seconds");
    let ok = CommandOutcome::Finished {
        success: true,
        code: Some(0),
        stdout: "out\n".to_string(),
        stderr: "warn".to_string(),
    };
    assert_eq!(BashTool::report(ok, 30), "out\n");
    let failed = CommandOutcome::Finished {
        success: false,
        code: Some(-2),
        stdout: String::new(),
        stderr: "boom".to_string(),
    };
    assert_eq!(BashTool::report(failed, 30), "Error (exit code: Some(-2)):\nboom");
    let killed =
        CommandOutcome::Finished { success: false, code: None, stdout: String::new(), stderr: String::new() };
    assert_eq!(BashTool::report(killed, 30), "Error (exit code: None):\n");
    let code = CommandOutcome::Finished {
        success: false,
        code: Some(127),
        stdout: String::new(),
        stderr: "not found".to_string(),
    };
    assert_eq!(BashTool::report(code, 30), "Error (exit code: Some(127)):\nnot found");
}

#[test]
fn edit_replaces_first_occurrence() {
    let o = EditFileTool::apply("f.txt", "a-b-a", "a", "X");
    assert_eq!(o.updated.as_deref(), Some("X-b-a"));
    assert_eq!(o.message, "File 'f.txt' edited successfully");
    let none = EditFileTool::apply("f.txt", "abc", "z", "X");
    assert!(none.updated.is_none());
    assert_eq!(none.message, "Pattern not found in file 'f.txt'");
    let empty = EditFileTool::apply("f.txt", "abc", "", "X");
    assert_eq!(empty.updated.as_deref(), Some("Xabc"));
}

#[test]
fn tool_kinds_describe_themselves() {
    assert_eq!(BashTool.name(), "bash");
    assert_eq!(WriteFileTool.description(), "Write content to a file (overwrite if exists)");
    assert_eq!(ToolKind::EditFile(EditFileTool).name(), "edit_file");
    assert_eq!(ToolKind::ReadFile(ReadFileTool).parameters().len(), 1);
    let info = ToolKind::WriteFile(WriteFileTool).info();
    assert_eq!(info.parameters[1].name, "content");
}

#[test]
fn lowercase_sees_unicode() {
    // the dangerous-pattern check lowercases with Unicode rules
    let r = registry();
    assert_eq!(
        reply(r.execute(&call("bash", "{\"command\": \"MKFS.ext4 /dev/x\"}"))),
        "Error: Command blocked for security reasons (pattern: mkfs.)"
    );
    match r.execute(&call("bash", "{\"command\": \"ÉCHO rm\"}")) {
        Ok(ToolAction::RunCommand { command, .. }) => assert_eq!(command, "ÉCHO rm"),
        _ => panic!("expected a command"),
    }
}

#[test]
fn edit_with_same_text_changes_nothing() {
    let o = EditFileTool::apply("f.txt", "one two one", "one", "one");
    assert_eq!(o.updated.as_deref(), Some("one two one"));
    let e = EditFileTool::apply("f.txt", "abc", "", "");
    assert_eq!(e.updated.as_deref(), Some("abc"));
}
