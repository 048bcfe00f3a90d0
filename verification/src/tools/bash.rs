//! Running a shell command.

use vstd::prelude::*;
use crate::text::{
    concat3, contains_seq, decimal, find_substring, i64_to_decimal, signed_decimal, str_chars,
    to_lowercase, u64_to_decimal, unicode_lowercase,
};
use crate::tools::{
    arg_field_views, get_str_arg, get_u64_arg, missing, parameter, param_views, str_arg, u64_arg,
    ArgField, ArgFieldView, ParamView, Tool, ToolAction, ToolError, ToolParameter,
};

verus! {

pub const NAME: &'static str = "bash";

pub const DESCRIPTION: &'static str = "Execute a bash command";

/// Seconds a command may run when the call names no timeout.
pub const DEFAULT_TIMEOUT_SECS: u64 = 30;

#[derive(Clone, Copy)]
pub struct BashTool;

pub open spec fn parameters_spec() -> Seq<ParamView> {
    seq![
        ("command"@, "Bash command to execute"@, "string"@, true),
        ("timeout"@, "Timeout in seconds (default 30)"@, "integer"@, false),
    ]
}

/// Texts whose presence in the lowercased command blocks it.
pub open spec fn dangerous_patterns() -> Seq<Seq<char>> {
    seq![
        "rm -rf"@,
        "rm -fr"@,
        ":(){ :|:& };:"@,
        "mkfs."@,
        "dd if="@,
        "> /dev/sda"@,
        "mv / "@,
        "mv /* "@,
        "chmod -R 000 /"@,
    ]
}

/// The first dangerous pattern, from the `j`-th on, that occurs in `lower`.
pub open spec fn first_dangerous_from(lower: Seq<char>, j: int) -> Option<int>
    decreases 9 - j,
{
    if j < 0 || j >= 9 {
        None
    } else if contains_seq(lower, dangerous_patterns()[j]) {
        Some(j)
    } else {
        first_dangerous_from(lower, j + 1)
    }
}

/// The output for a command blocked by pattern `p`.
pub open spec fn blocked_message(p: Seq<char>) -> Seq<char> {
    "Error: Command blocked for security reasons (pattern: "@ + p + ")"@
}

/// How a command ended.
pub enum CommandOutcome {
    /// It ran past its timeout and was killed.
    TimedOut,
    /// It exited; `code` is its exit code when it has one.
    Finished { success: bool, code: Option<i32>, stdout: String, stderr: String },
}

/// `format!("{:?}", code)` for an exit code.
pub open spec fn exit_code_debug(code: Option<i32>) -> Seq<char> {
    match code {
        Some(c) => "Some("@ + signed_decimal(c as int) + ")"@,
        None => "None"@,
    }
}

/// The tool's output for a command that ran.
pub open spec fn command_report(outcome: CommandOutcome, timeout_secs: u64) -> Seq<char> {
    match outcome {
        CommandOutcome::TimedOut => "Error: Command timed out after "@ + decimal(
            timeout_secs as nat,
        ) + " seconds"@,
        CommandOutcome::Finished { success, code, stdout, stderr } => if success {
            stdout@
        } else {
            "Error (exit code: "@ + exit_code_debug(code) + "):\n"@ + stderr@
        },
    }
}

/// What planning a call with the argument members `fs` answers.
pub open spec fn plan_ok(fs: Seq<ArgFieldView>, r: Result<ToolAction, ToolError>) -> bool {
    match str_arg(fs, "command"@) {
        None => r matches Err(ToolError::MissingArgument(n)) && n@ == "command"@,
        Some(cmd) => match first_dangerous_from(unicode_lowercase(cmd), 0) {
            Some(j) => r matches Ok(ToolAction::Reply(msg)) && msg@ == blocked_message(
                dangerous_patterns()[j],
            ),
            None => r matches Ok(ToolAction::RunCommand { command, timeout_secs })
                && command@ == cmd && timeout_secs == match u64_arg(
                fs,
                "timeout"@,
            ) {
                Some(t) => t,
                None => DEFAULT_TIMEOUT_SECS,
            },
        },
    }
}

impl Tool for BashTool {
    fn name(&self) -> (s: &'static str)
        ensures
            s@ == NAME@,
    {
        NAME
    }

    fn description(&self) -> (s: &'static str)
        ensures
            s@ == DESCRIPTION@,
    {
        DESCRIPTION
    }

    fn parameters(&self) -> (ps: Vec<ToolParameter>)
        ensures
            param_views(ps@) == parameters_spec(),
    {
        let mut ps: Vec<ToolParameter> = Vec::new();
        ps.push(parameter("command", "Bash command to execute", "string", true));
        ps.push(parameter("timeout", "Timeout in seconds (default 30)", "integer", false));
        proof {
            assert(param_views(ps@) =~= parameters_spec());
        }
        ps
    }
}

fn dangerous_pattern_list() -> (v: Vec<&'static str>)
    ensures
        v@.len() == 9,
        forall|j: int| 0 <= j < 9 ==> (#[trigger] v@[j])@ == dangerous_patterns()[j],
{
    let mut v: Vec<&'static str> = Vec::new();
    v.push("rm -rf");
    v.push("rm -fr");
    v.push(":(){ :|:& };:");
    v.push("mkfs.");
    v.push("dd if=");
    v.push("> /dev/sda");
    v.push("mv / ");
    v.push("mv /* ");
    v.push("chmod -R 000 /");
    v
}

impl BashTool {
    /// Reads the `command` argument and decides: blocked when its lowercase
    /// form contains a dangerous pattern, otherwise run with the `timeout`
    /// argument, or 30 seconds when that is absent or not a `u64`.
    pub fn plan(&self, fs: &Vec<ArgField>) -> (r: Result<ToolAction, ToolError>)
        ensures
            plan_ok(arg_field_views(fs@), r),
    {
        let command = match get_str_arg(fs, "command") {
            None => {
                return Err(missing("command"));
            },
            Some(c) => c,
        };
        let lower = to_lowercase(command.as_str());
        let lower_chars = str_chars(lower.as_str());
        let patterns = dangerous_pattern_list();
        let mut j: usize = 0;
        while j < patterns.len()
            invariant
                patterns@.len() == 9,
                forall|k: int| 0 <= k < 9 ==> (#[trigger] patterns@[k])@ == dangerous_patterns()[k],
                j <= 9,
                lower_chars@ == unicode_lowercase(command@),
                str_arg(arg_field_views(fs@), "command"@) == Some(command@),
                first_dangerous_from(lower_chars@, 0) == first_dangerous_from(
                    lower_chars@,
                    j as int,
                ),
            decreases 9 - j,
        {
            let p = str_chars(patterns[j]);
            if find_substring(&lower_chars, &p).is_some() {
                proof {
                    assert(p@ == dangerous_patterns()[j as int]);
                    assert(contains_seq(lower_chars@, dangerous_patterns()[j as int]));
                    assert(first_dangerous_from(lower_chars@, j as int) == Some(j as int));
                }
                let msg = concat3(
                    "Error: Command blocked for security reasons (pattern: ",
                    patterns[j],
                    ")",
                );
                return Ok(ToolAction::Reply(msg));
            }
            j = j + 1;
        }
        let timeout_secs = match get_u64_arg(fs, "timeout") {
            Some(t) => t,
            None => DEFAULT_TIMEOUT_SECS,
        };
        Ok(ToolAction::RunCommand { command, timeout_secs })
    }

    /// The tool's output for a command that ran (or timed out).
    pub fn report(outcome: CommandOutcome, timeout_secs: u64) -> (s: String)
        ensures
            s@ == command_report(outcome, timeout_secs),
    {
        match outcome {
            CommandOutcome::TimedOut => {
                let d = u64_to_decimal(timeout_secs);
                concat3("Error: Command timed out after ", d.as_str(), " seconds")
            },
            CommandOutcome::Finished { success, code, stdout, stderr } => {
                if success {
                    stdout
                } else {
                    let code_text = match code {
                        Some(c) => {
                            let d = i64_to_decimal(c as i64);
                            concat3("Some(", d.as_str(), ")")
                        },
                        None => String::from_str("None"),
                    };
                    let mut s = concat3("Error (exit code: ", code_text.as_str(), "):\n");
                    s.append(stderr.as_str());
                    s
                }
            },
        }
    }
}

} // verus!
