//! Replacing the first occurrence of a text in a file.

use vstd::prelude::*;
use crate::text::{
    concat3, contains_seq, find_sub_from, find_substring, lemma_find_sub_from, occurs_at, replace_first,
    str_chars,
    string_from_chars,
};
use crate::tools::{
    arg_field_views, get_str_arg, missing, parameter, param_views, str_arg, ArgField, ArgFieldView, ParamView,
    Tool, ToolAction, ToolError, ToolParameter,
};

verus! {

pub const NAME: &'static str = "edit_file";

pub const DESCRIPTION: &'static str = "Edit a file by replacing exact old content with new content";

#[derive(Clone, Copy)]
pub struct EditFileTool;

pub open spec fn parameters_spec() -> Seq<ParamView> {
    seq![
        ("path"@, "Path to the file"@, "string"@, true),
        ("old_content"@, "Exact content to replace"@, "string"@, true),
        ("new_content"@, "New content to insert"@, "string"@, true),
    ]
}

/// The outcome of an edit: the text to write back (none when the pattern is
/// absent) and the tool's output.
pub struct EditOutcome {
    pub updated: Option<String>,
    pub message: String,
}

/// What planning a call with the argument members `fs` answers.
pub open spec fn plan_ok(fs: Seq<ArgFieldView>, r: Result<ToolAction, ToolError>) -> bool {
    match (
        str_arg(fs, "path"@),
        str_arg(fs, "old_content"@),
        str_arg(fs, "new_content"@),
    ) {
        (None, _, _) => r matches Err(ToolError::MissingArgument(n)) && n@ == "path"@,
        (Some(_), None, _) => r matches Err(ToolError::MissingArgument(n)) && n@
            == "old_content"@,
        (Some(_), Some(_), None) => r matches Err(ToolError::MissingArgument(n)) && n@
            == "new_content"@,
        (Some(p), Some(o), Some(n)) => r matches Ok(
            ToolAction::EditFile { path, old_content, new_content },
        ) && path@ == p && old_content@ == o && new_content@ == n,
    }
}

impl Tool for EditFileTool {
    fn name(&self) -> (s: &'static str)
        ensures
            s@ == NAME@,
    {
        NAME
    }

    fn description(&self) -> (s: &'static str)
        ensures
            s@ == DESCRIPTION@,
    {
        DESCRIPTION
    }

    fn parameters(&self) -> (ps: Vec<ToolParameter>)
        ensures
            param_views(ps@) == parameters_spec(),
    {
        let mut ps: Vec<ToolParameter> = Vec::new();
        ps.push(parameter("path", "Path to the file", "string", true));
        ps.push(parameter("old_content", "Exact content to replace", "string", true));
        ps.push(parameter("new_content", "New content to insert", "string", true));
        proof {
            assert(param_views(ps@) =~= parameters_spec());
        }
        ps
    }
}

impl EditFileTool {
    /// Reads the `path`, `old_content` and `new_content` arguments.
    pub fn plan(&self, fs: &Vec<ArgField>) -> (r: Result<ToolAction, ToolError>)
        ensures
            plan_ok(arg_field_views(fs@), r),
    {
        let path = match get_str_arg(fs, "path") {
            None => {
                return Err(missing("path"));
            },
            Some(p) => p,
        };
        let old_content = match get_str_arg(fs, "old_content") {
            None => {
                return Err(missing("old_content"));
            },
            Some(c) => c,
        };
        let new_content = match get_str_arg(fs, "new_content") {
            None => {
                return Err(missing("new_content"));
            },
            Some(c) => c,
        };
        Ok(ToolAction::EditFile { path, old_content, new_content })
    }

    /// Given the file's text `content`, the edit to make: when `old_content`
    /// occurs, the text with its first occurrence replaced by `new_content`, and
    /// a success message; otherwise nothing to write and a not-found message.
    pub fn apply(path: &str, content: &str, old_content: &str, new_content: &str) -> (o:
        EditOutcome)
        ensures
            contains_seq(content@, old_content@) ==> (o.updated matches Some(u) && u@
                == replace_first(content@, old_content@, new_content@)) && o.message@ == "File '"@
                + path@ + "' edited successfully"@,
            !contains_seq(content@, old_content@) ==> o.updated is None && o.message@
                == "Pattern not found in file '"@ + path@ + "'"@,
    {
        let c = str_chars(content);
        let p = str_chars(old_content);
        let n = str_chars(new_content);
        match find_substring(&c, &p) {
            None => EditOutcome {
                updated: None,
                message: concat3("Pattern not found in file '", path, "'"),
            },
            Some(i) => {
                proof {
                    lemma_find_sub_from(c@, p@, 0);
                }
                let mut out: Vec<char> = Vec::new();
                let mut k: usize = 0;
                while k < i
                    invariant
                        k <= i,
                        i + p.len() <= c.len(),
                        out@ == c@.take(k as int),
                    decreases i - k,
                {
                    proof {
                        assert(c@.take(k + 1) =~= c@.take(k as int).push(c@[k as int]));
                    }
                    out.push(c[k]);
                    k = k + 1;
                }
                let mut j: usize = 0;
                while j < n.len()
                    invariant
                        j <= n.len(),
                        out@ == c@.take(i as int) + n@.take(j as int),
                    decreases n.len() - j,
                {
                    proof {
                        assert(n@.take(j + 1) =~= n@.take(j as int).push(n@[j as int]));
                    }
                    out.push(n[j]);
                    j = j + 1;
                }
                let mut m: usize = i + p.len();
                let start = m;
                while m < c.len()
                    invariant
                        start == i + p.len(),
                        start <= m <= c.len(),
                        out@ == c@.take(i as int) + n@ + c@.subrange(start as int, m as int),
                    decreases c.len() - m,
                {
                    proof {
                        assert(c@.subrange(start as int, m + 1) =~= c@.subrange(
                            start as int,
                            m as int,
                        ).push(c@[m as int]));
                    }
                    out.push(c[m]);
                    m = m + 1;
                }
                proof {
                    assert(n@.take(n.len() as int) =~= n@);
                    assert(c@.subrange(start as int, c.len() as int) =~= c@.skip(start as int));
                }
                EditOutcome {
                    updated: Some(string_from_chars(out.as_slice())),
                    message: concat3("File '", path, "' edited successfully"),
                }
            },
        }
    }
}

} // verus!

verus! {

/// An edit that puts back the text it replaces leaves the file as it was.
pub proof fn lemma_same_text_edit_changes_nothing(content: Seq<char>, text: Seq<char>)
    ensures
        replace_first(content, text, text) == content,
{
    lemma_find_sub_from(content, text, 0);
    match find_sub_from(content, text, 0) {
        Some(i) => {
            assert(content.subrange(i, i + text.len()) == text);
            assert(content.take(i) + text + content.skip(i + text.len()) =~= content);
        },
        None => {},
    }
}

/// Replacing the first occurrence keeps what stands before it and after it:
/// the result is the text up to the occurrence, the new text, then the rest.
pub proof fn lemma_edit_keeps_surroundings(content: Seq<char>, old_text: Seq<char>, new_text: Seq<char>)
    requires
        contains_seq(content, old_text),
    ensures
        exists|i: int|
            #![trigger content.take(i)]
            0 <= i && i + old_text.len() <= content.len() && content.subrange(i, i + old_text.len())
                == old_text && (forall|k: int| 0 <= k < i ==> !occurs_at(content, old_text, k))
                && replace_first(content, old_text, new_text) == content.take(i) + new_text
                + content.skip(i + old_text.len()),
{
    lemma_find_sub_from(content, old_text, 0);
    let i = find_sub_from(content, old_text, 0)->0;
    assert(content.take(i) == content.take(i));
}

} // verus!
