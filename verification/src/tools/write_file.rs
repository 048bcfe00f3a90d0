//! Writing a whole file.

use vstd::prelude::*;
use crate::text::concat3;
use crate::tools::{
    arg_field_views, get_str_arg, missing, parameter, param_views, str_arg, ArgField, ArgFieldView, ParamView,
    Tool, ToolAction, ToolError, ToolParameter,
};

verus! {

pub const NAME: &'static str = "write_file";

pub const DESCRIPTION: &'static str = "Write content to a file (overwrite if exists)";

#[derive(Clone, Copy)]
pub struct WriteFileTool;

pub open spec fn parameters_spec() -> Seq<ParamView> {
    seq![
        ("path"@, "Path to the file"@, "string"@, true),
        ("content"@, "Content to write"@, "string"@, true),
    ]
}

/// The output of a successful write.
pub open spec fn written_message(path: Seq<char>) -> Seq<char> {
    "File '"@ + path + "' written successfully"@
}

/// What planning a call with the argument members `fs` answers.
pub open spec fn plan_ok(fs: Seq<ArgFieldView>, r: Result<ToolAction, ToolError>) -> bool {
    match (
        str_arg(fs, "path"@),
        str_arg(fs, "content"@),
    ) {
        (None, _) => r matches Err(ToolError::MissingArgument(n)) && n@ == "path"@,
        (Some(_), None) => r matches Err(ToolError::MissingArgument(n)) && n@
            == "content"@,
        (Some(p), Some(c)) => r matches Ok(ToolAction::WriteFile { path, content, message })
            && path@ == p && content@ == c && message@ == written_message(p),
    }
}

impl Tool for WriteFileTool {
    fn name(&self) -> (s: &'static str)
        ensures
            s@ == NAME@,
    {
        NAME
    }

    fn description(&self) -> (s: &'static str)
        ensures
            s@ == DESCRIPTION@,
    {
        DESCRIPTION
    }

    fn parameters(&self) -> (ps: Vec<ToolParameter>)
        ensures
            param_views(ps@) == parameters_spec(),
    {
        let mut ps: Vec<ToolParameter> = Vec::new();
        ps.push(parameter("path", "Path to the file", "string", true));
        ps.push(parameter("content", "Content to write", "string", true));
        proof {
            assert(param_views(ps@) =~= parameters_spec());
        }
        ps
    }
}

impl WriteFileTool {
    /// Reads the `path` and `content` arguments.
    pub fn plan(&self, fs: &Vec<ArgField>) -> (r: Result<ToolAction, ToolError>)
        ensures
            plan_ok(arg_field_views(fs@), r),
    {
        let path = match get_str_arg(fs, "path") {
            None => {
                return Err(missing("path"));
            },
            Some(p) => p,
        };
        let content = match get_str_arg(fs, "content") {
            None => {
                return Err(missing("content"));
            },
            Some(c) => c,
        };
        let message = concat3("File '", path.as_str(), "' written successfully");
        Ok(ToolAction::WriteFile { path, content, message })
    }
}

} // verus!
