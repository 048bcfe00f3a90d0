//! The tools the model can call, their registry, and the reading of a call's
//! JSON arguments.

use vstd::prelude::*;
use crate::text::{concat3, str_chars, str_eq};

pub mod bash;
pub mod edit_file;
pub mod read_file;
pub mod write_file;

use bash::BashTool;
use edit_file::EditFileTool;
use read_file::ReadFileTool;
use write_file::WriteFileTool;

verus! {

/// One parameter of a tool, as announced to the model.
#[derive(Clone)]
pub struct ToolParameter {
    pub param_type: String,
    pub name: String,
    pub description: String,
    pub required: bool,
}

/// A parameter as plain values: name, description, type, whether required.
pub type ParamView = (Seq<char>, Seq<char>, Seq<char>, bool);

pub open spec fn param_view(p: ToolParameter) -> ParamView {
    (p.name@, p.description@, p.param_type@, p.required)
}

pub open spec fn param_views(ps: Seq<ToolParameter>) -> Seq<ParamView> {
    ps.map_values(|p: ToolParameter| param_view(p))
}

/// Builds a parameter from literals.
pub fn parameter(name: &str, description: &str, param_type: &str, required: bool) -> (p:
    ToolParameter)
    ensures
        param_view(p) == (name@, description@, param_type@, required),
{
    ToolParameter {
        param_type: String::from_str(param_type),
        name: String::from_str(name),
        description: String::from_str(description),
        required,
    }
}

/// What the model is told about a tool.
#[derive(Clone)]
pub struct ToolInfo {
    pub name: String,
    pub description: String,
    pub parameters: Vec<ToolParameter>,
}

/// A tool call requested by the model.
#[derive(Clone)]
pub struct ToolCall {
    pub id: String,
    pub name: String,
    pub arguments: String,
}

/// One member of the top-level JSON object of a call's arguments: its key, its
/// value when that is a string, and its value when that is an integer that fits
/// `u64`.
pub struct ArgField {
    pub key: String,
    pub text: Option<String>,
    pub unsigned: Option<u64>,
}

pub type ArgFieldView = (Seq<char>, Option<Seq<char>>, Option<u64>);

pub open spec fn opt_view(o: Option<String>) -> Option<Seq<char>> {
    match o {
        Some(s) => Some(s@),
        None => None,
    }
}

pub open spec fn arg_field_views(fs: Seq<ArgField>) -> Seq<ArgFieldView> {
    fs.map_values(|f: ArgField| (f.key@, opt_view(f.text), f.unsigned))
}

/// The members of the top-level object of the JSON text `text`, each with its
/// readings as a string and as a `u64` (`None` when `text` is not JSON; no
/// members when it is JSON but not an object).
pub uninterp spec fn json_object_fields(text: Seq<char>) -> Option<Seq<ArgFieldView>>;

/// `serde_json::from_str::<serde_json::Value>` followed by reading each member of
/// the top-level object with `Value::as_str` and `Value::as_u64`. The contract
/// claims that success and the members read are a function of the text alone; the
/// wording of the error message is left unsaid.
#[verifier::external_body]
pub(crate) fn parse_arguments(text: &str) -> (r: Result<Vec<ArgField>, String>)
    ensures
        r is Ok <==> json_object_fields(text@) is Some,
        r matches Ok(fs) ==> arg_field_views(fs@) == json_object_fields(text@)->0,
{
    let value: serde_json::Value = serde_json::from_str(text).map_err(|e| e.to_string())?;
    let mut fields = Vec::new();
    if let serde_json::Value::Object(map) = value {
        for (key, v) in map {
            let text = v.as_str().map(|s| s.to_string());
            let unsigned = v.as_u64();
            fields.push(ArgField { key, text, unsigned });
        }
    }
    Ok(fields)
}

/// The first member named `key`, if any.
pub open spec fn field_named(fs: Seq<ArgFieldView>, key: Seq<char>) -> Option<ArgFieldView>
    decreases fs.len(),
{
    if fs.len() == 0 {
        None
    } else if fs[0].0 == key {
        Some(fs[0])
    } else {
        field_named(fs.drop_first(), key)
    }
}

/// `args[key].as_str()`.
pub open spec fn str_arg(fs: Seq<ArgFieldView>, key: Seq<char>) -> Option<Seq<char>> {
    match field_named(fs, key) {
        Some(f) => f.1,
        None => None,
    }
}

/// `args[key].as_u64()`.
pub open spec fn u64_arg(fs: Seq<ArgFieldView>, key: Seq<char>) -> Option<u64> {
    match field_named(fs, key) {
        Some(f) => f.2,
        None => None,
    }
}

fn find_field(fs: &Vec<ArgField>, key: &str) -> (r: Option<usize>)
    ensures
        r matches Some(i) ==> i < fs@.len() && field_named(arg_field_views(fs@), key@) == Some(
            arg_field_views(fs@)[i as int],
        ),
        r is None ==> field_named(arg_field_views(fs@), key@) is None,
{
    let ghost views = arg_field_views(fs@);
    let mut i: usize = 0;
    proof {
        assert(views.skip(0) =~= views);
    }
    while i < fs.len()
        invariant
            i <= fs.len(),
            views == arg_field_views(fs@),
            field_named(views, key@) == field_named(views.skip(i as int), key@),
        decreases fs.len() - i,
    {
        proof {
            assert(views.skip(i as int).drop_first() =~= views.skip(i + 1));
            assert(views.skip(i as int)[0] == views[i as int]);
        }
        if str_eq(fs[i].key.as_str(), key) {
            return Some(i);
        }
        i = i + 1;
    }
    proof {
        assert(views.skip(i as int) =~= Seq::<ArgFieldView>::empty());
    }
    None
}

/// `args[key].as_str()`, copied out.
pub fn get_str_arg(fs: &Vec<ArgField>, key: &str) -> (r: Option<String>)
    ensures
        opt_view(r) == str_arg(arg_field_views(fs@), key@),
{
    match find_field(fs, key) {
        Some(i) => match &fs[i].text {
            Some(t) => Some(t.clone()),
            None => None,
        },
        None => None,
    }
}

/// `args[key].as_u64()`.
pub fn get_u64_arg(fs: &Vec<ArgField>, key: &str) -> (r: Option<u64>)
    ensures
        r == u64_arg(arg_field_views(fs@), key@),
{
    match find_field(fs, key) {
        Some(i) => fs[i].unsigned,
        None => None,
    }
}

/// Why a tool call produced no output.
pub enum ToolError {
    /// No tool of that name is registered.
    NotFound(String),
    /// The arguments are not JSON; the parser's message.
    InvalidArguments(String),
    /// A required string argument is absent or not a string.
    MissingArgument(String),
    /// The tool's own work failed; the failure's message.
    Failed(String),
}

/// The text that a tool error shows.
pub open spec fn tool_error_text(e: ToolError) -> Seq<char> {
    match e {
        ToolError::NotFound(name) => "Tool '"@ + name@ + "' not found"@,
        ToolError::InvalidArguments(msg) => msg@,
        ToolError::MissingArgument(name) => "Missing '"@ + name@ + "' argument"@,
        ToolError::Failed(msg) => msg@,
    }
}

impl ToolError {
    pub fn message(&self) -> (s: String)
        ensures
            s@ == tool_error_text(*self),
    {
        match self {
            ToolError::NotFound(name) => concat3("Tool '", name.as_str(), "' not found"),
            ToolError::InvalidArguments(msg) => msg.clone(),
            ToolError::MissingArgument(name) => concat3("Missing '", name.as_str(), "' argument"),
            ToolError::Failed(msg) => msg.clone(),
        }
    }
}

/// The error for a missing string argument.
pub fn missing(name: &str) -> (e: ToolError)
    ensures
        e matches ToolError::MissingArgument(n) && n@ == name@,
{
    ToolError::MissingArgument(String::from_str(name))
}

/// The work that a tool call asks for, decided from its arguments.
pub enum ToolAction {
    /// Read the whole file at `path`; its text is the output.
    ReadFile { path: String },
    /// Write `content` to `path`; the output is `message`.
    WriteFile { path: String, content: String, message: String },
    /// Read `path`, replace the first occurrence of `old_content` by `new_content`.
    EditFile { path: String, old_content: String, new_content: String },
    /// Run `command` with `sh -c`, giving up after `timeout_secs` seconds.
    RunCommand { command: String, timeout_secs: u64 },
    /// No outside work: the output is this text.
    Reply(String),
}

/// The common interface of the tools: their name, description and parameters.
pub trait Tool {
    fn name(&self) -> &'static str;

    fn description(&self) -> &'static str;

    fn parameters(&self) -> Vec<ToolParameter>;
}

/// The registrable tools.
#[derive(Clone, Copy)]
pub enum ToolKind {
    Bash(BashTool),
    ReadFile(ReadFileTool),
    WriteFile(WriteFileTool),
    EditFile(EditFileTool),
}

/// The name of a tool.
pub open spec fn kind_name(k: ToolKind) -> Seq<char> {
    match k {
        ToolKind::Bash(_) => bash::NAME@,
        ToolKind::ReadFile(_) => read_file::NAME@,
        ToolKind::WriteFile(_) => write_file::NAME@,
        ToolKind::EditFile(_) => edit_file::NAME@,
    }
}

/// The description of a tool.
pub open spec fn kind_description(k: ToolKind) -> Seq<char> {
    match k {
        ToolKind::Bash(_) => bash::DESCRIPTION@,
        ToolKind::ReadFile(_) => read_file::DESCRIPTION@,
        ToolKind::WriteFile(_) => write_file::DESCRIPTION@,
        ToolKind::EditFile(_) => edit_file::DESCRIPTION@,
    }
}

/// The parameters of a tool.
pub open spec fn kind_parameters(k: ToolKind) -> Seq<ParamView> {
    match k {
        ToolKind::Bash(_) => bash::parameters_spec(),
        ToolKind::ReadFile(_) => read_file::parameters_spec(),
        ToolKind::WriteFile(_) => write_file::parameters_spec(),
        ToolKind::EditFile(_) => edit_file::parameters_spec(),
    }
}

impl ToolKind {
    pub fn name(&self) -> (s: &'static str)
        ensures
            s@ == kind_name(*self),
    {
        match self {
            ToolKind::Bash(t) => t.name(),
            ToolKind::ReadFile(t) => t.name(),
            ToolKind::WriteFile(t) => t.name(),
            ToolKind::EditFile(t) => t.name(),
        }
    }

    pub fn description(&self) -> (s: &'static str)
        ensures
            s@ == kind_description(*self),
    {
        match self {
            ToolKind::Bash(t) => t.description(),
            ToolKind::ReadFile(t) => t.description(),
            ToolKind::WriteFile(t) => t.description(),
            ToolKind::EditFile(t) => t.description(),
        }
    }

    pub fn parameters(&self) -> (ps: Vec<ToolParameter>)
        ensures
            param_views(ps@) == kind_parameters(*self),
    {
        match self {
            ToolKind::Bash(t) => t.parameters(),
            ToolKind::ReadFile(t) => t.parameters(),
            ToolKind::WriteFile(t) => t.parameters(),
            ToolKind::EditFile(t) => t.parameters(),
        }
    }
}

} // verus!

verus! {

/// What planning a call of tool `k` with argument members `fs` answers.
pub open spec fn kind_plan_ok(k: ToolKind, fs: Seq<ArgFieldView>, r: Result<
    ToolAction,
    ToolError,
>) -> bool {
    match k {
        ToolKind::Bash(_) => bash::plan_ok(fs, r),
        ToolKind::ReadFile(_) => read_file::plan_ok(fs, r),
        ToolKind::WriteFile(_) => write_file::plan_ok(fs, r),
        ToolKind::EditFile(_) => edit_file::plan_ok(fs, r),
    }
}

/// A tool's announcement as plain values: name, description, parameters.
pub open spec fn info_view(i: ToolInfo) -> (Seq<char>, Seq<char>, Seq<ParamView>) {
    (i.name@, i.description@, param_views(i.parameters@))
}

/// The announcement of tool `k`.
pub open spec fn kind_info(k: ToolKind) -> (Seq<char>, Seq<char>, Seq<ParamView>) {
    (kind_name(k), kind_description(k), kind_parameters(k))
}

impl ToolKind {
    /// Decides the work that a call with arguments `fs` asks of this tool.
    pub fn plan(&self, fs: &Vec<ArgField>) -> (r: Result<ToolAction, ToolError>)
        ensures
            kind_plan_ok(*self, arg_field_views(fs@), r),
    {
        match self {
            ToolKind::Bash(t) => t.plan(fs),
            ToolKind::ReadFile(t) => t.plan(fs),
            ToolKind::WriteFile(t) => t.plan(fs),
            ToolKind::EditFile(t) => t.plan(fs),
        }
    }

    /// The tool's announcement.
    pub fn info(&self) -> (i: ToolInfo)
        ensures
            info_view(i) == kind_info(*self),
    {
        ToolInfo {
            name: String::from_str(self.name()),
            description: String::from_str(self.description()),
            parameters: self.parameters(),
        }
    }
}

/// No two tools of `s` share a name.
pub open spec fn names_unique(s: Seq<ToolKind>) -> bool {
    forall|i: int, j: int| 0 <= i < j < s.len() ==> kind_name(s[i]) != kind_name(s[j])
}

/// The tools of `s` keyed by name (later entries win).
pub open spec fn tool_map(s: Seq<ToolKind>) -> Map<Seq<char>, ToolKind>
    decreases s.len(),
{
    if s.len() == 0 {
        Map::empty()
    } else {
        tool_map(s.drop_last()).insert(kind_name(s.last()), s.last())
    }
}

proof fn lemma_tool_map_push(s: Seq<ToolKind>, t: ToolKind)
    ensures
        tool_map(s.push(t)) == tool_map(s).insert(kind_name(t), t),
{
    assert(s.push(t).drop_last() =~= s);
}

proof fn lemma_tool_map_entries(s: Seq<ToolKind>)
    requires
        names_unique(s),
    ensures
        forall|i: int|
            0 <= i < s.len() ==> tool_map(s).contains_key(kind_name(#[trigger] s[i]))
                && tool_map(s)[kind_name(s[i])] == s[i],
        forall|n: Seq<char>|
            #[trigger] tool_map(s).contains_key(n) ==> exists|i: int|
                0 <= i < s.len() && kind_name(s[i]) == n,
    decreases s.len(),
{
    if s.len() > 0 {
        let d = s.drop_last();
        assert(names_unique(d));
        lemma_tool_map_entries(d);
        assert forall|i: int| 0 <= i < s.len() implies tool_map(s).contains_key(
            kind_name(#[trigger] s[i]),
        ) && tool_map(s)[kind_name(s[i])] == s[i] by {
            if i < s.len() - 1 {
                assert(d[i] == s[i]);
                assert(kind_name(s[i]) != kind_name(s.last()));
            }
        }
        assert forall|n: Seq<char>| #[trigger] tool_map(s).contains_key(n) implies exists|i: int|
            0 <= i < s.len() && kind_name(s[i]) == n by {
            if n == kind_name(s.last()) {
                assert(kind_name(s[s.len() - 1]) == n);
            } else {
                assert(tool_map(d).contains_key(n));
                let i = choose|i: int| 0 <= i < d.len() && kind_name(d[i]) == n;
                assert(kind_name(s[i]) == n);
            }
        }
    }
}

proof fn lemma_tool_map_update(s: Seq<ToolKind>, j: int, t: ToolKind)
    requires
        names_unique(s),
        0 <= j < s.len(),
        kind_name(s[j]) == kind_name(t),
    ensures
        tool_map(s.update(j, t)) == tool_map(s).insert(kind_name(t), t),
    decreases s.len(),
{
    let u = s.update(j, t);
    if j == s.len() - 1 {
        assert(u.drop_last() =~= s.drop_last());
        assert(tool_map(u) =~= tool_map(s).insert(kind_name(t), t));
    } else {
        let d = s.drop_last();
        assert(u.drop_last() =~= d.update(j, t));
        assert(names_unique(d));
        lemma_tool_map_update(d, j, t);
        assert(kind_name(s.last()) != kind_name(t)) by {
            assert(kind_name(s[j]) != kind_name(s[s.len() - 1]));
        }
        assert(u.last() == s.last());
        assert(tool_map(u) =~= tool_map(s).insert(kind_name(t), t));
    }
}

fn copy_kinds(v: &Vec<ToolKind>) -> (r: Vec<ToolKind>)
    ensures
        r@ == v@,
{
    let mut r: Vec<ToolKind> = Vec::new();
    let mut i: usize = 0;
    while i < v.len()
        invariant
            i <= v.len(),
            r@ == v@.take(i as int),
        decreases v.len() - i,
    {
        proof {
            assert(v@.take(i + 1) =~= v@.take(i as int).push(v@[i as int]));
        }
        r.push(v[i]);
        i = i + 1;
    }
    proof {
        assert(v@.take(v.len() as int) =~= v@);
    }
    r
}

/// The registered tools, at most one per name.
pub struct ToolRegistry {
    tools: Vec<ToolKind>,
}

impl ToolRegistry {
    #[verifier::type_invariant]
    spec fn inv(&self) -> bool {
        names_unique(self.tools@)
    }

    /// The registered tools, in registration order.
    pub closed spec fn entries(&self) -> Seq<ToolKind> {
        self.tools@
    }

    /// The registered tools keyed by name.
    pub closed spec fn tools(&self) -> Map<Seq<char>, ToolKind> {
        tool_map(self.tools@)
    }

    /// The entries are exactly the tools: one per name, each found under its name.
    pub fn lemma_entries_are_tools(&self)
        ensures
            names_unique(self.entries()),
            forall|i: int|
                0 <= i < self.entries().len() ==> self.tools().contains_key(
                    kind_name(#[trigger] self.entries()[i]),
                ) && self.tools()[kind_name(self.entries()[i])] == self.entries()[i],
            forall|n: Seq<char>|
                #[trigger] self.tools().contains_key(n) ==> exists|i: int|
                    0 <= i < self.entries().len() && kind_name(self.entries()[i]) == n,
    {
        proof {
            use_type_invariant(self);
            lemma_tool_map_entries(self.tools@);
            assert forall|n: Seq<char>| #[trigger] self.tools().contains_key(n) implies exists|i: int|
                0 <= i < self.entries().len() && kind_name(self.entries()[i]) == n by {
                assert(tool_map(self.tools@).contains_key(n));
                let i = choose|i: int| 0 <= i < self.tools@.len() && kind_name(self.tools@[i]) == n;
                assert(kind_name(self.entries()[i]) == n);
            }
        }
    }

    /// A registry with the same tools.
    pub fn duplicate(&self) -> (r: Self)
        ensures
            r.entries() == self.entries(),
            r.tools() == self.tools(),
    {
        proof {
            use_type_invariant(self);
        }
        ToolRegistry { tools: copy_kinds(&self.tools) }
    }

    pub fn new() -> (r: Self)
        ensures
            r.tools() == Map::<Seq<char>, ToolKind>::empty(),
            r.entries() == Seq::<ToolKind>::empty(),
    {
        ToolRegistry { tools: Vec::new() }
    }

    /// Registers `tool` under its name, replacing a tool of the same name.
    pub fn register(&mut self, tool: ToolKind)
        ensures
            final(self).tools() == old(self).tools().insert(kind_name(tool), tool),
    {
        proof {
            use_type_invariant(&*self);
        }
        let name = tool.name();
        let mut i: usize = 0;
        while i < self.tools.len()
            invariant
                i <= self.tools.len(),
                self.tools@ == old(self).tools@,
                names_unique(self.tools@),
                name@ == kind_name(tool),
                forall|k: int| 0 <= k < i ==> kind_name(#[trigger] self.tools@[k]) != kind_name(tool),
            decreases self.tools.len() - i,
        {
            if str_eq(self.tools[i].name(), name) {
                let mut v = copy_kinds(&self.tools);
                v.set(i, tool);
                proof {
                    lemma_tool_map_update(self.tools@, i as int, tool);
                    assert(v@ =~= self.tools@.update(i as int, tool));
                }
                self.tools = v;
                return;
            }
            i = i + 1;
        }
        let mut v = copy_kinds(&self.tools);
        v.push(tool);
        proof {
            lemma_tool_map_push(self.tools@, tool);
        }
        self.tools = v;
    }

    /// The tool registered under `name`.
    pub fn get(&self, name: &str) -> (r: Option<ToolKind>)
        ensures
            r is Some <==> self.tools().contains_key(name@),
            r matches Some(k) ==> k == self.tools()[name@],
    {
        proof {
            use_type_invariant(self);
            lemma_tool_map_entries(self.tools@);
        }
        let mut i: usize = 0;
        while i < self.tools.len()
            invariant
                i <= self.tools.len(),
                names_unique(self.tools@),
                forall|k: int|
                    0 <= k < self.tools@.len() ==> tool_map(self.tools@).contains_key(
                        kind_name(#[trigger] self.tools@[k]),
                    ) && tool_map(self.tools@)[kind_name(self.tools@[k])] == self.tools@[k],
                forall|n: Seq<char>|
                    #[trigger] tool_map(self.tools@).contains_key(n) ==> exists|k: int|
                        0 <= k < self.tools@.len() && kind_name(self.tools@[k]) == n,
                forall|k: int| 0 <= k < i ==> kind_name(#[trigger] self.tools@[k]) != name@,
            decreases self.tools.len() - i,
        {
            if str_eq(self.tools[i].name(), name) {
                return Some(self.tools[i]);
            }
            i = i + 1;
        }
        None
    }

    /// Decides the work for `call`: the named tool must be registered and the
    /// arguments must be JSON; then the tool reads its arguments.
    pub fn execute(&self, call: &ToolCall) -> (r: Result<ToolAction, ToolError>)
        ensures
            !self.tools().contains_key(call.name@) ==> (r matches Err(ToolError::NotFound(n)) && n@
                == call.name@),
            self.tools().contains_key(call.name@) ==> match json_object_fields(call.arguments@) {
                None => r matches Err(ToolError::InvalidArguments(_)),
                Some(fs) => kind_plan_ok(self.tools()[call.name@], fs, r),
            },
    {
        match self.get(call.name.as_str()) {
            None => Err(ToolError::NotFound(call.name.clone())),
            Some(tool) => match parse_arguments(call.arguments.as_str()) {
                Err(msg) => Err(ToolError::InvalidArguments(msg)),
                Ok(fs) => tool.plan(&fs),
            },
        }
    }

    /// The announcements of the registered tools, in registration order.
    pub fn available_tools(&self) -> (infos: Vec<ToolInfo>)
        ensures
            infos@.len() == self.entries().len(),
            forall|i: int|
                0 <= i < infos@.len() ==> info_view(#[trigger] infos@[i]) == kind_info(
                    self.entries()[i],
                ),
    {
        let mut infos: Vec<ToolInfo> = Vec::new();
        let mut i: usize = 0;
        while i < self.tools.len()
            invariant
                i <= self.tools.len(),
                infos@.len() == i,
                forall|k: int|
                    0 <= k < i ==> info_view(#[trigger] infos@[k]) == kind_info(self.tools@[k]),
            decreases self.tools.len() - i,
        {
            infos.push(self.tools[i].info());
            i = i + 1;
        }
        infos
    }
}

} // verus!

verus! {

impl ToolCall {
    /// A copy of the call.
    pub fn duplicate(&self) -> (r: Self)
        ensures
            r == *self,
    {
        ToolCall { id: self.id.clone(), name: self.name.clone(), arguments: self.arguments.clone() }
    }
}

/// A copy of a list of calls.
pub fn duplicate_calls(v: &Vec<ToolCall>) -> (r: Vec<ToolCall>)
    ensures
        r@ == v@,
{
    let mut r: Vec<ToolCall> = Vec::new();
    let mut i: usize = 0;
    while i < v.len()
        invariant
            i <= v.len(),
            r@ == v@.take(i as int),
        decreases v.len() - i,
    {
        proof {
            assert(v@.take(i + 1) =~= v@.take(i as int).push(v@[i as int]));
        }
        r.push(v[i].duplicate());
        i = i + 1;
    }
    proof {
        assert(v@.take(v.len() as int) =~= v@);
    }
    r
}

} // verus!

verus! {

/// Registering a tool makes it the one found under its name and leaves the
/// tools of other names as they were.
pub proof fn lemma_register_then_lookup(m: Map<Seq<char>, ToolKind>, t: ToolKind, n: Seq<char>)
    ensures
        m.insert(kind_name(t), t).contains_key(kind_name(t)),
        m.insert(kind_name(t), t)[kind_name(t)] == t,
        n != kind_name(t) ==> m.insert(kind_name(t), t).contains_key(n) == m.contains_key(n),
        n != kind_name(t) && m.contains_key(n) ==> m.insert(kind_name(t), t)[n] == m[n],
{
}

/// Tools of different kinds have different names, so registering one of each
/// keeps all of them.
pub proof fn lemma_tool_names_distinct(a: ToolKind, b: ToolKind)
    ensures
        kind_name(a) == kind_name(b) ==> (a is Bash && b is Bash) || (a is ReadFile && b is ReadFile)
            || (a is WriteFile && b is WriteFile) || (a is EditFile && b is EditFile),
{
    reveal_strlit("bash");
    reveal_strlit("read_file");
    reveal_strlit("write_file");
    reveal_strlit("edit_file");
    assert("bash"@.len() == 4);
    assert("read_file"@[0] != "write_file"@[0]);
    assert("read_file"@[0] != "edit_file"@[0]);
    assert("write_file"@[0] != "edit_file"@[0]);
}

} // verus!
