//! Reading a whole file.

use vstd::prelude::*;
use crate::tools::{
    arg_field_views, get_str_arg, missing, parameter, param_views, str_arg, ArgField, ArgFieldView, ParamView,
    Tool, ToolAction, ToolError, ToolParameter,
};

verus! {

pub const NAME: &'static str = "read_file";

pub const DESCRIPTION: &'static str = "Read the full contents of a file";

#[derive(Clone, Copy)]
pub struct ReadFileTool;

pub open spec fn parameters_spec() -> Seq<ParamView> {
    seq![("path"@, "Path to the file"@, "string"@, true)]
}

/// What planning a call with the argument members `fs` answers.
pub open spec fn plan_ok(fs: Seq<ArgFieldView>, r: Result<ToolAction, ToolError>) -> bool {
    match str_arg(fs, "path"@) {
        None => r matches Err(ToolError::MissingArgument(n)) && n@ == "path"@,
        Some(p) => r matches Ok(ToolAction::ReadFile { path }) && path@ == p,
    }
}

impl Tool for ReadFileTool {
    fn name(&self) -> (s: &'static str)
        ensures
            s@ == NAME@,
    {
        NAME
    }

    fn description(&self) -> (s: &'static str)
        ensures
            s@ == DESCRIPTION@,
    {
        DESCRIPTION
    }

    fn parameters(&self) -> (ps: Vec<ToolParameter>)
        ensures
            param_views(ps@) == parameters_spec(),
    {
        let mut ps: Vec<ToolParameter> = Vec::new();
        ps.push(parameter("path", "Path to the file", "string", true));
        proof {
            assert(param_views(ps@) =~= parameters_spec());
        }
        ps
    }
}

impl ReadFileTool {
    /// Reads the `path` argument: the file to read.
    pub fn plan(&self, fs: &Vec<ArgField>) -> (r: Result<ToolAction, ToolError>)
        ensures
            plan_ok(arg_field_views(fs@), r),
    {
        match get_str_arg(fs, "path") {
            None => Err(missing("path")),
            Some(path) => Ok(ToolAction::ReadFile { path }),
        }
    }
}

} // verus!
