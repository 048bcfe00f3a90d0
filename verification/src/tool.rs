//! A fixed tool set: the tools' announcements and the decisions of a tool
//! call, whose outside work (files, processes) the caller performs.

use vstd::prelude::*;
use crate::text::{concat3, contains_seq, find_substring, occurs_at, str_chars, str_eq, string_from_chars, lemma_find_sub_from, find_sub_from};
use crate::tools::{arg_field_views, get_str_arg, json_object_fields, parse_arguments, str_arg, ArgField, ArgFieldView};

verus! {

pub struct ToolParameter {
    pub param_type: String,
    pub name: String,
    pub description: String,
    pub required: bool,
}

pub struct Tool {
    pub name: String,
    pub description: String,
    pub parameters: Vec<ToolParameter>,
}

pub struct ToolCall {
    pub id: String,
    pub name: String,
    pub arguments: String,
}

/// A parameter as plain values: name, description, type, whether required.
pub open spec fn parameter_view(p: ToolParameter) -> (Seq<char>, Seq<char>, Seq<char>, bool) {
    (p.name@, p.description@, p.param_type@, p.required)
}

/// A tool as plain values.
pub open spec fn tool_view(t: Tool) -> (Seq<char>, Seq<char>, Seq<(Seq<char>, Seq<char>, Seq<char>, bool)>) {
    (t.name@, t.description@, t.parameters@.map_values(|p: ToolParameter| parameter_view(p)))
}

/// The announced tools, in order.
pub open spec fn available_tools_spec() -> Seq<(Seq<char>, Seq<char>, Seq<(Seq<char>, Seq<char>, Seq<char>, bool)>)> {
    seq![
        ("bash"@, "Execute a bash command"@, seq![("command"@, "Bash command to execute"@, "string"@, true)]),
        ("read_file"@, "Read the full contents of a file"@, seq![("path"@, "Path to the file"@, "string"@, true)]),
        (
            "write_file"@,
            "Write content to a file (overwrite if exists)"@,
            seq![
                ("path"@, "Path to the file"@, "string"@, true),
                ("content"@, "Content to write"@, "string"@, true),
            ],
        ),
        (
            "edit_file"@,
            "Edit a file by replacing exact old content with new content"@,
            seq![
                ("path"@, "Path to the file"@, "string"@, true),
                ("old_content"@, "Exact content to replace"@, "string"@, true),
                ("new_content"@, "New content to insert"@, "string"@, true),
            ],
        ),
    ]
}

fn param(name: &str, description: &str) -> (p: ToolParameter)
    ensures
        parameter_view(p) == (name@, description@, "string"@, true),
{
    ToolParameter {
        name: String::from_str(name),
        description: String::from_str(description),
        param_type: String::from_str("string"),
        required: true,
    }
}

fn tool(name: &str, description: &str, parameters: Vec<ToolParameter>) -> (t: Tool)
    ensures
        t.name@ == name@,
        t.description@ == description@,
        t.parameters == parameters,
{
    Tool { name: String::from_str(name), description: String::from_str(description), parameters }
}

/// The tools announced to the model.
pub fn get_available_tools() -> (tools: Vec<Tool>)
    ensures
        tools@.map_values(|t: Tool| tool_view(t)) == available_tools_spec(),
{
    let mut bash_params: Vec<ToolParameter> = Vec::new();
    bash_params.push(param("command", "Bash command to execute"));
    let mut read_params: Vec<ToolParameter> = Vec::new();
    read_params.push(param("path", "Path to the file"));
    let mut write_params: Vec<ToolParameter> = Vec::new();
    write_params.push(param("path", "Path to the file"));
    write_params.push(param("content", "Content to write"));
    let mut edit_params: Vec<ToolParameter> = Vec::new();
    edit_params.push(param("path", "Path to the file"));
    edit_params.push(param("old_content", "Exact content to replace"));
    edit_params.push(param("new_content", "New content to insert"));
    let ghost spec = available_tools_spec();
    proof {
        assert(bash_params@.map_values(|p: ToolParameter| parameter_view(p)) =~= spec[0].2);
        assert(read_params@.map_values(|p: ToolParameter| parameter_view(p)) =~= spec[1].2);
        assert(write_params@.map_values(|p: ToolParameter| parameter_view(p)) =~= spec[2].2);
        assert(edit_params@.map_values(|p: ToolParameter| parameter_view(p)) =~= spec[3].2);
    }
    let mut tools: Vec<Tool> = Vec::new();
    tools.push(tool("bash", "Execute a bash command", bash_params));
    tools.push(tool("read_file", "Read the full contents of a file", read_params));
    tools.push(tool("write_file", "Write content to a file (overwrite if exists)", write_params));
    tools.push(
        tool("edit_file", "Edit a file by replacing exact old content with new content", edit_params),
    );
    proof {
        assert(tools@.map_values(|t: Tool| tool_view(t)) =~= spec);
    }
    tools
}

/// The work a call asks for, decided from its name and arguments.
pub enum CallAction {
    ReadFile { path: String },
    WriteFile { path: String, content: String },
    EditFile { path: String, old_content: String, new_content: String },
    RunCommand { command: String },
    /// No outside work: the output is this text.
    Reply(String),
}

/// Texts whose presence in a command blocks it.
pub open spec fn blocked_patterns() -> Seq<Seq<char>> {
    seq!["rm -rf"@, "rm -fr"@, ":(){ :|:& };:"@]
}

/// Whether `command` holds one of the blocked patterns.
pub open spec fn is_blocked(command: Seq<char>) -> bool {
    exists|j: int| 0 <= j < 3 && contains_seq(command, #[trigger] blocked_patterns()[j])
}

/// `Missing '<name>' argument`.
pub open spec fn missing_text(name: Seq<char>) -> Seq<char> {
    "Missing '"@ + name + "' argument"@
}

/// What a call named `name` with argument members `fs` asks for.
pub open spec fn call_ok(name: Seq<char>, fs: Seq<ArgFieldView>, r: Result<CallAction, String>) -> bool {
    if name == "read_file"@ {
        match str_arg(fs, "path"@) {
            None => r matches Err(e) && e@ == missing_text("path"@),
            Some(p) => r matches Ok(CallAction::ReadFile { path }) && path@ == p,
        }
    } else if name == "write_file"@ {
        match (str_arg(fs, "path"@), str_arg(fs, "content"@)) {
            (None, _) => r matches Err(e) && e@ == missing_text("path"@),
            (Some(_), None) => r matches Err(e) && e@ == missing_text("content"@),
            (Some(p), Some(c)) => r matches Ok(CallAction::WriteFile { path, content }) && path@ == p
                && content@ == c,
        }
    } else if name == "edit_file"@ {
        match (str_arg(fs, "path"@), str_arg(fs, "old_content"@), str_arg(fs, "new_content"@)) {
            (None, _, _) => r matches Err(e) && e@ == missing_text("path"@),
            (Some(_), None, _) => r matches Err(e) && e@ == missing_text("old_content"@),
            (Some(_), Some(_), None) => r matches Err(e) && e@ == missing_text("new_content"@),
            (Some(p), Some(o), Some(n)) => r matches Ok(
                CallAction::EditFile { path, old_content, new_content },
            ) && path@ == p && old_content@ == o && new_content@ == n,
        }
    } else if name == "bash"@ {
        match str_arg(fs, "command"@) {
            None => r matches Err(e) && e@ == missing_text("command"@),
            Some(c) => if is_blocked(c) {
                r matches Ok(CallAction::Reply(m)) && m@ == "Error: Command blocked for security reasons"@
            } else {
                r matches Ok(CallAction::RunCommand { command }) && command@ == c
            },
        }
    } else {
        r matches Ok(CallAction::Reply(m)) && m@ == "Unknown tool: "@ + name
    }
}

fn missing_arg(name: &str) -> (e: String)
    ensures
        e@ == missing_text(name@),
{
    concat3("Missing '", name, "' argument")
}

impl ToolCall {
    /// Decides the work of the call: the arguments must be JSON (else the
    /// parser's message is the error); then the tool named reads its
    /// arguments (see `plan_call`).
    pub fn execute(&self) -> (r: Result<CallAction, String>)
        ensures
            match json_object_fields(self.arguments@) {
                None => r is Err,
                Some(fs) => call_ok(self.name@, fs, r),
            },
    {
        match parse_arguments(self.arguments.as_str()) {
            Err(e) => Err(e),
            Ok(fs) => plan_call(self.name.as_str(), &fs),
        }
    }
}

/// Decides the work of a call of tool `name` whose arguments have the members
/// `fs`.
pub fn plan_call(name: &str, fs: &Vec<ArgField>) -> (r: Result<CallAction, String>)
    ensures
        call_ok(name@, arg_field_views(fs@), r),
{
    if str_eq(name, "read_file") {
        match get_str_arg(fs, "path") {
            None => Err(missing_arg("path")),
            Some(path) => Ok(CallAction::ReadFile { path }),
        }
    } else if str_eq(name, "write_file") {
        let path = match get_str_arg(fs, "path") {
            None => {
                return Err(missing_arg("path"));
            },
            Some(p) => p,
        };
        match get_str_arg(fs, "content") {
            None => Err(missing_arg("content")),
            Some(content) => Ok(CallAction::WriteFile { path, content }),
        }
    } else if str_eq(name, "edit_file") {
        let path = match get_str_arg(fs, "path") {
            None => {
                return Err(missing_arg("path"));
            },
            Some(p) => p,
        };
        let old_content = match get_str_arg(fs, "old_content") {
            None => {
                return Err(missing_arg("old_content"));
            },
            Some(p) => p,
        };
        match get_str_arg(fs, "new_content") {
            None => Err(missing_arg("new_content")),
            Some(new_content) => Ok(CallAction::EditFile { path, old_content, new_content }),
        }
    } else if str_eq(name, "bash") {
        match get_str_arg(fs, "command") {
            None => Err(missing_arg("command")),
            Some(command) => {
                let c = str_chars(command.as_str());
                let p0 = str_chars("rm -rf");
                let p1 = str_chars("rm -fr");
                let p2 = str_chars(":(){ :|:& };:");
                let hit0 = find_substring(&c, &p0).is_some();
                let hit1 = find_substring(&c, &p1).is_some();
                let hit2 = find_substring(&c, &p2).is_some();
                proof {
                    if is_blocked(command@) {
                        let j = choose|j: int|
                            0 <= j < 3 && contains_seq(command@, #[trigger] blocked_patterns()[j]);
                        assert(j == 0 || j == 1 || j == 2);
                    }
                    if hit0 {
                        assert(contains_seq(command@, blocked_patterns()[0]));
                    }
                    if hit1 {
                        assert(contains_seq(command@, blocked_patterns()[1]));
                    }
                    if hit2 {
                        assert(contains_seq(command@, blocked_patterns()[2]));
                    }
                }
                if hit0 || hit1 || hit2 {
                    Ok(CallAction::Reply(String::from_str("Error: Command blocked for security reasons")))
                } else {
                    Ok(CallAction::RunCommand { command })
                }
            },
        }
    } else {
        Ok(CallAction::Reply(crate::text::concat2("Unknown tool: ", name)))
    }
}

/// `s` with every occurrence of the non-empty `p`, from left to right without
/// overlap, replaced by `r` (`str::replace`).
pub open spec fn replace_all(s: Seq<char>, p: Seq<char>, r: Seq<char>) -> Seq<char>
    decreases s.len(),
{
    if p.len() == 0 {
        s
    } else {
        match find_sub_from(s, p, 0) {
            Some(i) => if 0 <= i && i + p.len() <= s.len() {
                s.take(i) + r + replace_all(s.skip(i + p.len()), p, r)
            } else {
                s
            },
            None => s,
        }
    }
}

/// `r` before every character of `s` and after the last (`str::replace` with an
/// empty pattern).
pub open spec fn interleave(s: Seq<char>, r: Seq<char>) -> Seq<char>
    decreases s.len(),
{
    if s.len() == 0 {
        r
    } else {
        r + seq![s[0]] + interleave(s.drop_first(), r)
    }
}

/// The outcome of an edit: the text to write back, if any, and the output.
pub struct EditResult {
    pub updated: Option<String>,
    pub message: String,
}

/// Given the file's text, the edit: every occurrence of `old_content` replaced
/// by `new_content` when there is one, otherwise nothing to write.
pub fn apply_edit(content: &str, old_content: &str, new_content: &str) -> (e: EditResult)
    ensures
        contains_seq(content@, old_content@) ==> (e.updated matches Some(u) && u@ == if old_content@.len()
            == 0 {
            interleave(content@, new_content@)
        } else {
            replace_all(content@, old_content@, new_content@)
        }) && e.message@ == "File edited successfully"@,
        !contains_seq(content@, old_content@) ==> e.updated is None && e.message@ == "Pattern '"@
            + old_content@ + "' not found in file"@,
{
    let c = str_chars(content);
    let p = str_chars(old_content);
    let n = str_chars(new_content);
    if find_substring(&c, &p).is_none() {
        return EditResult {
            updated: None,
            message: concat3("Pattern '", old_content, "' not found in file"),
        };
    }
    let mut out: Vec<char> = Vec::new();
    if p.len() == 0 {
        let mut i: usize = 0;
        proof {
            assert(c@.skip(0) =~= c@);
        }
        // out == interleave(c.take(i)) without its final r
        while i < c.len()
            invariant
                i <= c.len(),
                out@ + interleave(c@.skip(i as int), n@) == interleave(c@, n@),
            decreases c.len() - i,
        {
            let mut j: usize = 0;
            let ghost before = out@;
            while j < n.len()
                invariant
                    j <= n.len(),
                    out@ == before + n@.take(j as int),
                decreases n.len() - j,
            {
                proof {
                    assert(n@.take(j + 1) =~= n@.take(j as int).push(n@[j as int]));
                }
                out.push(n[j]);
                j = j + 1;
            }
            out.push(c[i]);
            proof {
                assert(n@.take(n.len() as int) =~= n@);
                assert(c@.skip(i as int)[0] == c@[i as int]);
                assert(c@.skip(i as int).drop_first() =~= c@.skip(i + 1));
                assert(out@ + interleave(c@.skip(i + 1), n@) =~= before + interleave(c@.skip(i as int), n@));
            }
            i = i + 1;
        }
        let mut j: usize = 0;
        let ghost before = out@;
        while j < n.len()
            invariant
                j <= n.len(),
                out@ == before + n@.take(j as int),
            decreases n.len() - j,
        {
            proof {
                assert(n@.take(j + 1) =~= n@.take(j as int).push(n@[j as int]));
            }
            out.push(n[j]);
            j = j + 1;
        }
        proof {
            assert(n@.take(n.len() as int) =~= n@);
            assert(c@.skip(i as int) =~= Seq::<char>::empty());
            assert(out@ =~= interleave(c@, n@));
        }
    } else {
        // `rest` is the part of the text not yet scanned
        let ghost cv = c@;
        let mut rest: Vec<char> = c;
        proof {
            assert(out@ + replace_all(rest@, p@, n@) =~= replace_all(cv, p@, n@));
        }
        loop
            invariant_except_break
                p@.len() > 0,
                out@ + replace_all(rest@, p@, n@) == replace_all(cv, p@, n@),
            ensures
                out@ == replace_all(cv, p@, n@),
            decreases rest@.len(),
        {
            match find_substring(&rest, &p) {
                None => {
                    let mut k: usize = 0;
                    let ghost before = out@;
                    while k < rest.len()
                        invariant
                            k <= rest.len(),
                            out@ == before + rest@.take(k as int),
                        decreases rest.len() - k,
                    {
                        proof {
                            assert(rest@.take(k + 1) =~= rest@.take(k as int).push(rest@[k as int]));
                        }
                        out.push(rest[k]);
                        k = k + 1;
                    }
                    proof {
                        assert(rest@.take(rest.len() as int) =~= rest@);
                        assert(out@ =~= replace_all(cv, p@, n@));
                    }
                    break;
                },
                Some(i) => {
                    proof {
                        lemma_find_sub_from(rest@, p@, 0);
                    }
                    let ghost before = out@;
                    let mut k: usize = 0;
                    while k < i
                        invariant
                            k <= i,
                            i + p.len() <= rest.len(),
                            out@ == before + rest@.take(k as int),
                        decreases i - k,
                    {
                        proof {
                            assert(rest@.take(k + 1) =~= rest@.take(k as int).push(rest@[k as int]));
                        }
                        out.push(rest[k]);
                        k = k + 1;
                    }
                    let mut j: usize = 0;
                    while j < n.len()
                        invariant
                            j <= n.len(),
                            out@ == before + rest@.take(i as int) + n@.take(j as int),
                        decreases n.len() - j,
                    {
                        proof {
                            assert(n@.take(j + 1) =~= n@.take(j as int).push(n@[j as int]));
                        }
                        out.push(n[j]);
                        j = j + 1;
                    }
                    let mut tail: Vec<char> = Vec::new();
                    let mut m: usize = i + p.len();
                    let start = m;
                    while m < rest.len()
                        invariant
                            start == i + p.len(),
                            start <= m <= rest.len(),
                            tail@ == rest@.subrange(start as int, m as int),
                        decreases rest.len() - m,
                    {
                        proof {
                            assert(rest@.subrange(start as int, m + 1) =~= rest@.subrange(start as int, m as int).push(rest@[m as int]));
                        }
                        tail.push(rest[m]);
                        m = m + 1;
                    }
                    proof {
                        assert(n@.take(n.len() as int) =~= n@);
                        assert(tail@ =~= rest@.skip(start as int));
                        assert(out@ + replace_all(tail@, p@, n@) =~= before + replace_all(rest@, p@, n@));
                    }
                    rest = tail;
                },
            }
        }
    }
    EditResult {
        updated: Some(string_from_chars(out.as_slice())),
        message: String::from_str("File edited successfully"),
    }
}

/// The output of a command that ran: its standard output when it succeeded,
/// otherwise `Error: ` and its standard error.
pub fn command_output(success: bool, stdout: String, stderr: &str) -> (s: String)
    ensures
        s@ == if success {
            stdout@
        } else {
            "Error: "@ + stderr@
        },
{
    if success {
        stdout
    } else {
        crate::text::concat2("Error: ", stderr)
    }
}

/// The output of a written file.
pub fn written() -> (s: String)
    ensures
        s@ == "File written successfully"@,
{
    String::from_str("File written successfully")
}

} // verus!
