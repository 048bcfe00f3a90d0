//! What the agent sends to and reads from the model's streaming API, as plain
//! values: the connection settings, the request messages, the tool schemas, and
//! the assembly of a streamed answer.

use vstd::prelude::*;
use crate::agent::session::{Message, Role, Timestamp};
use crate::text::str_chars;
use crate::tools::{info_view, kind_info, param_views, ParamView, ToolCall, ToolInfo, ToolRegistry};

verus! {

/// Where and how to reach the model.
pub struct LLMProviderConfig {
    api_key: String,
    base_url: String,
    model: String,
}

impl LLMProviderConfig {
    pub closed spec fn key(&self) -> Seq<char> {
        self.api_key@
    }

    pub closed spec fn url(&self) -> Seq<char> {
        self.base_url@
    }

    pub closed spec fn model_name(&self) -> Seq<char> {
        self.model@
    }

    pub fn new(api_key: String, base_url: String, model: String) -> (c: Self)
        ensures
            c.key() == api_key@,
            c.url() == base_url@,
            c.model_name() == model@,
    {
        LLMProviderConfig { api_key, base_url, model }
    }

    /// The settings from the values of the environment variables `RODE_API_KEY`,
    /// `URL` and `MODEL`; the first one missing is reported.
    pub fn from_env(api_key: Option<String>, base_url: Option<String>, model: Option<String>) -> (r:
        Result<Self, String>)
        ensures
            match (api_key, base_url, model) {
                (Some(k), Some(u), Some(m)) => r matches Ok(c) && c.key() == k@ && c.url() == u@
                    && c.model_name() == m@,
                (None, _, _) => r matches Err(e) && e@ == "RODE_API_KEY not found in environment"@,
                (Some(_), None, _) => r matches Err(e) && e@ == "URL not found in environment"@,
                (Some(_), Some(_), None) => r matches Err(e) && e@
                    == "MODEL not found in environment"@,
            },
    {
        let api_key = match api_key {
            Some(k) => k,
            None => {
                return Err(String::from_str("RODE_API_KEY not found in environment"));
            },
        };
        let base_url = match base_url {
            Some(u) => u,
            None => {
                return Err(String::from_str("URL not found in environment"));
            },
        };
        let model = match model {
            Some(m) => m,
            None => {
                return Err(String::from_str("MODEL not found in environment"));
            },
        };
        Ok(LLMProviderConfig { api_key, base_url, model })
    }

    pub fn api_key(&self) -> (s: &str)
        ensures
            s@ == self.key(),
    {
        self.api_key.as_str()
    }

    pub fn base_url(&self) -> (s: &str)
        ensures
            s@ == self.url(),
    {
        self.base_url.as_str()
    }

    pub fn model(&self) -> (s: &str)
        ensures
            s@ == self.model_name(),
    {
        self.model.as_str()
    }
}

/// One message of a chat-completion request.
pub enum RequestMessage {
    System { content: String },
    User { content: String },
    /// `content` is absent for an empty text; `tool_calls` is empty when there are none.
    Assistant { content: Option<String>, tool_calls: Vec<ToolCall> },
    Tool { content: String, tool_call_id: String },
}

/// The request message for message `m`.
pub open spec fn request_message_ok(m: Message, r: RequestMessage) -> bool {
    match m.role {
        Role::System => r matches RequestMessage::System { content } && content@ == m.content@,
        Role::User => r matches RequestMessage::User { content } && content@ == m.content@,
        Role::Assistant => r matches RequestMessage::Assistant { content, tool_calls } && (if m.content@.len()
            == 0 {
            content is None
        } else {
            content matches Some(c) && c@ == m.content@
        }) && tool_calls@ == m.tool_calls@,
        Role::Tool => r matches RequestMessage::Tool { content, tool_call_id } && content@
            == m.content@ && tool_call_id@ == match m.tool_call_id {
            Some(t) => t@,
            None => Seq::<char>::empty(),
        },
    }
}

/// The request message for one conversation message.
pub fn request_message(m: &Message) -> (r: RequestMessage)
    ensures
        request_message_ok(*m, r),
{
    match m.role {
        Role::System => RequestMessage::System { content: m.content.clone() },
        Role::User => RequestMessage::User { content: m.content.clone() },
        Role::Assistant => {
            let text = str_chars(m.content.as_str());
            let content = if text.len() == 0 {
                None
            } else {
                Some(m.content.clone())
            };
            RequestMessage::Assistant {
                content,
                tool_calls: crate::tools::duplicate_calls(&m.tool_calls),
            }
        },
        Role::Tool => RequestMessage::Tool {
            content: m.content.clone(),
            tool_call_id: match &m.tool_call_id {
                Some(t) => t.clone(),
                None => String::new(),
            },
        },
    }
}

/// The request messages for a conversation, one per message, in order.
pub fn request_messages(messages: &[Message]) -> (r: Vec<RequestMessage>)
    ensures
        r@.len() == messages@.len(),
        forall|i: int| 0 <= i < r@.len() ==> request_message_ok(messages@[i], #[trigger] r@[i]),
{
    let mut r: Vec<RequestMessage> = Vec::new();
    let mut i: usize = 0;
    while i < messages.len()
        invariant
            i <= messages@.len(),
            r@.len() == i,
            forall|k: int| 0 <= k < i ==> request_message_ok(messages@[k], #[trigger] r@[k]),
        decreases messages@.len() - i,
    {
        r.push(request_message(&messages[i]));
        i = i + 1;
    }
    r
}

/// The JSON schema of a tool's parameters: each parameter's name, type and
/// description (an object property), and the names of the required ones.
pub struct FunctionSchema {
    pub name: String,
    pub description: String,
    pub properties: Vec<(String, String, String)>,
    pub required: Vec<String>,
}

/// The names of the required parameters among `ps`, in order.
pub open spec fn required_names(ps: Seq<ParamView>) -> Seq<Seq<char>>
    decreases ps.len(),
{
    if ps.len() == 0 {
        Seq::empty()
    } else {
        let rest = required_names(ps.drop_last());
        if ps.last().3 {
            rest.push(ps.last().0)
        } else {
            rest
        }
    }
}

/// Whether `s` is the function schema of a tool announced as `i` (name,
/// description, parameters): one property per parameter, in order, with its
/// name, type and description, and the names of the required parameters.
pub open spec fn schema_matches(s: FunctionSchema, i: (Seq<char>, Seq<char>, Seq<ParamView>)) -> bool {
    &&& s.name@ == i.0
    &&& s.description@ == i.1
    &&& s.properties@.len() == i.2.len()
    &&& forall|k: int|
        0 <= k < s.properties@.len() ==> {
            let p = (#[trigger] s.properties@[k]);
            p.0@ == i.2[k].0 && p.1@ == i.2[k].2 && p.2@ == i.2[k].1
        }
    &&& s.required@.map_values(|n: String| n@) == required_names(i.2)
}

/// The function schema announced for a tool.
pub fn tool_schema(info: &ToolInfo) -> (s: FunctionSchema)
    ensures
        schema_matches(s, info_view(*info)),
{
    let ghost ps = param_views(info.parameters@);
    let mut properties: Vec<(String, String, String)> = Vec::new();
    let mut required: Vec<String> = Vec::new();
    let mut i: usize = 0;
    proof {
        assert(required@.map_values(|n: String| n@) =~= required_names(ps.take(0)));
    }
    while i < info.parameters.len()
        invariant
            i <= info.parameters@.len(),
            ps == param_views(info.parameters@),
            properties@.len() == i,
            forall|k: int|
                0 <= k < i ==> {
                    let p = (#[trigger] properties@[k]);
                    let q = ps[k];
                    p.0@ == q.0 && p.1@ == q.2 && p.2@ == q.1
                },
            required@.map_values(|n: String| n@) == required_names(ps.take(i as int)),
        decreases info.parameters@.len() - i,
    {
        let p = &info.parameters[i];
        properties.push((p.name.clone(), p.param_type.clone(), p.description.clone()));
        proof {
            assert(ps.take(i + 1).drop_last() =~= ps.take(i as int));
            assert(ps.take(i + 1).last() == ps[i as int]);
        }
        if p.required {
            let ghost before = required@;
            required.push(p.name.clone());
            proof {
                assert(required@.map_values(|n: String| n@) =~= before.map_values(|n: String| n@).push(
                    p.name@,
                ));
            }
        }
        i = i + 1;
    }
    proof {
        assert(ps.take(i as int) =~= ps);
    }
    FunctionSchema {
        name: info.name.clone(),
        description: info.description.clone(),
        properties,
        required,
    }
}

/// A streaming chat-completion request as plain values: the model, whether the
/// answer is streamed, the conversation and the tools offered.
pub struct ChatRequest {
    pub model: String,
    pub stream: bool,
    pub messages: Vec<RequestMessage>,
    pub tools: Vec<FunctionSchema>,
}

/// The request for the answer to `messages` with model `model`: streamed, with
/// one request message per message and the schema of every registered tool, in
/// registration order.
pub fn build_request(messages: &[Message], registry: &ToolRegistry, model: &str) -> (r: ChatRequest)
    ensures
        r.model@ == model@,
        r.stream,
        r.messages@.len() == messages@.len(),
        forall|i: int|
            0 <= i < r.messages@.len() ==> request_message_ok(messages@[i], #[trigger] r.messages@[i]),
        r.tools@.len() == registry.entries().len(),
        forall|i: int|
            0 <= i < r.tools@.len() ==> schema_matches(#[trigger] r.tools@[i], kind_info(registry.entries()[i])),
{
    let infos = registry.available_tools();
    let mut tools: Vec<FunctionSchema> = Vec::new();
    let mut i: usize = 0;
    while i < infos.len()
        invariant
            i <= infos@.len(),
            infos@.len() == registry.entries().len(),
            forall|k: int|
                0 <= k < infos@.len() ==> info_view(#[trigger] infos@[k]) == kind_info(registry.entries()[k]),
            tools@.len() == i,
            forall|k: int|
                0 <= k < i ==> schema_matches(#[trigger] tools@[k], kind_info(registry.entries()[k])),
        decreases infos@.len() - i,
    {
        let s = tool_schema(&infos[i]);
        proof {
            assert(info_view(infos@[i as int]) == kind_info(registry.entries()[i as int]));
        }
        tools.push(s);
        i = i + 1;
    }
    ChatRequest {
        model: String::from_str(model),
        stream: true,
        messages: request_messages(messages),
        tools,
    }
}

/// A piece of a tool call as the stream delivers it.
pub struct ToolCallDelta {
    pub index: u32,
    pub id: Option<String>,
    pub name: Option<String>,
    pub arguments: Option<String>,
}

/// The calls after delta `d`: padded with empty calls up to its index, then the
/// call at that index gets the delta's id and name (when present) and the
/// delta's arguments appended.
pub open spec fn apply_delta(calls: Seq<ToolCall>, d: ToolCallDelta) -> Seq<(Seq<char>, Seq<char>, Seq<char>)> {
    let views = calls.map_values(|c: ToolCall| (c.id@, c.name@, c.arguments@));
    let n: nat = if views.len() > d.index { views.len() } else { (d.index + 1) as nat };
    let padded = Seq::new(
        n as nat,
        |i: int|
            if i < views.len() {
                views[i]
            } else {
                (Seq::<char>::empty(), Seq::<char>::empty(), Seq::<char>::empty())
            },
    );
    let prev = padded[d.index as int];
    padded.update(
        d.index as int,
        (
            match d.id {
                Some(x) => x@,
                None => prev.0,
            },
            match d.name {
                Some(x) => x@,
                None => prev.1,
            },
            match d.arguments {
                Some(x) => prev.2 + x@,
                None => prev.2,
            },
        ),
    )
}

/// The plain values of a call.
pub open spec fn call_view(c: ToolCall) -> (Seq<char>, Seq<char>, Seq<char>) {
    (c.id@, c.name@, c.arguments@)
}

/// An assistant answer being assembled from a stream.
pub struct StreamedReply {
    content: String,
    tool_calls: Vec<ToolCall>,
}

impl StreamedReply {
    /// The text received so far.
    pub closed spec fn text(&self) -> Seq<char> {
        self.content@
    }

    /// The calls received so far.
    pub closed spec fn calls(&self) -> Seq<ToolCall> {
        self.tool_calls@
    }

    pub fn new() -> (r: Self)
        ensures
            r.text() == Seq::<char>::empty(),
            r.calls() == Seq::<ToolCall>::empty(),
    {
        StreamedReply { content: String::new(), tool_calls: Vec::new() }
    }

    /// Appends a piece of the answer's text.
    pub fn push_content(&mut self, delta: &str)
        ensures
            final(self).text() == old(self).text() + delta@,
            final(self).calls() == old(self).calls(),
    {
        self.content.append(delta);
    }

    /// Merges a piece of a tool call.
    pub fn apply_tool_delta(&mut self, d: ToolCallDelta)
        ensures
            final(self).text() == old(self).text(),
            final(self).calls().map_values(|c: ToolCall| call_view(c)) == apply_delta(
                old(self).calls(),
                d,
            ),
    {
        let idx = d.index as usize;
        let ghost d_copy = d;
        let ghost views = self.tool_calls@.map_values(|c: ToolCall| (c.id@, c.name@, c.arguments@));
        while self.tool_calls.len() <= idx
            invariant
                idx == d.index,
                self.content == old(self).content,
                self.tool_calls@.len() <= if views.len() > idx { views.len() } else { (idx + 1) as nat },
                views.len() <= self.tool_calls@.len(),
                forall|i: int|
                    0 <= i < self.tool_calls@.len() ==> call_view(#[trigger] self.tool_calls@[i])
                        == if i < views.len() {
                        views[i]
                    } else {
                        (Seq::<char>::empty(), Seq::<char>::empty(), Seq::<char>::empty())
                    },
                views == old(self).tool_calls@.map_values(|c: ToolCall| (c.id@, c.name@, c.arguments@)),
            decreases idx + 1 - self.tool_calls@.len(),
        {
            self.tool_calls.push(
                ToolCall { id: String::new(), name: String::new(), arguments: String::new() },
            );
        }
        let ghost padded = self.tool_calls@.map_values(|c: ToolCall| call_view(c));
        let mut call = ToolCall {
            id: self.tool_calls[idx].id.clone(),
            name: self.tool_calls[idx].name.clone(),
            arguments: self.tool_calls[idx].arguments.clone(),
        };
        match d.id {
            Some(x) => {
                call.id = x;
            },
            None => {},
        }
        match d.name {
            Some(x) => {
                call.name = x;
            },
            None => {},
        }
        match d.arguments {
            Some(x) => {
                call.arguments.append(x.as_str());
            },
            None => {},
        }
        self.tool_calls.set(idx, call);
        proof {
            let expected = apply_delta(old(self).tool_calls@, d_copy);
            assert(padded.len() == if views.len() > idx { views.len() } else { (idx + 1) as nat });
            assert(self.tool_calls@.map_values(|c: ToolCall| call_view(c)) =~= expected);
        }
    }

    /// The finished answer: an assistant message with the text and the calls
    /// that received an id.
    pub fn finish(self) -> (m: Message)
        ensures
            m.role == Role::Assistant,
            m.content@ == self.text(),
            m.tool_calls@ == self.calls().filter(|c: ToolCall| c.id@.len() > 0),
            m.tool_call_id is None,
            m.used_tokens is None,
    {
        let mut kept: Vec<ToolCall> = Vec::new();
        let ghost calls = self.tool_calls@;
        let total = self.tool_calls.len();
        let ghost pred = |c: ToolCall| c.id@.len() > 0;
        let StreamedReply { content, tool_calls } = self;
        let mut rest = tool_calls;
        let mut i: usize = 0;
        proof {
            reveal(Seq::filter);
            assert(kept@ =~= calls.take(0).filter(pred));
        }
        // move the calls out one by one, keeping those with an id
        while rest.len() > 0
            invariant
                rest@ == calls.skip(i as int),
                calls.len() == total,
                i <= calls.len(),
                i + rest@.len() == calls.len(),
                pred == (|c: ToolCall| c.id@.len() > 0),
                kept@ == calls.take(i as int).filter(pred),
            decreases rest@.len(),
        {
            let c = rest.remove(0);
            proof {
                assert(calls.skip(i as int)[0] == calls[i as int]);
                assert(calls.skip(i as int).drop_first() =~= calls.skip(i + 1));
                assert(calls.take(i + 1) =~= calls.take(i as int).push(calls[i as int]));
                crate::text::lemma_filter_push(calls.take(i as int), pred, calls[i as int]);
            }
            let has_id = str_chars(c.id.as_str()).len() > 0;
            if has_id {
                kept.push(c);
            }
            i = i + 1;
        }
        proof {
            assert(calls.take(i as int) =~= calls);
        }
        Message {
            id: crate::agent::session::fresh_message_id(),
            role: Role::Assistant,
            content,
            tool_calls: kept,
            tool_call_id: None,
            used_tokens: None,
            timestamp: crate::agent::session::current_time(),
        }
    }
}

} // verus!

verus! {

/// The names that `required_names` lists are the names of the parameters
/// marked required, every one of them, in order.
pub proof fn lemma_required_names_are_required_parameters(ps: Seq<ParamView>)
    ensures
        required_names(ps) == ps.filter(|p: ParamView| p.3).map_values(|p: ParamView| p.0),
    decreases ps.len(),
{
    reveal(Seq::filter);
    if ps.len() > 0 {
        lemma_required_names_are_required_parameters(ps.drop_last());
        let f = |p: ParamView| p.3;
        let g = |p: ParamView| p.0;
        assert(ps.filter(f) == if f(ps.last()) {
            ps.drop_last().filter(f).push(ps.last())
        } else {
            ps.drop_last().filter(f)
        });
        if ps.last().3 {
            assert(ps.drop_last().filter(f).push(ps.last()).map_values(g) =~= ps.drop_last().filter(
                f,
            ).map_values(g).push(ps.last().0));
        }
    } else {
        assert(ps.filter(|p: ParamView| p.3) =~= Seq::<ParamView>::empty());
        assert(Seq::<ParamView>::empty().map_values(|p: ParamView| p.0) =~= Seq::<Seq<char>>::empty());
    }
}

/// A schema announces as required exactly the parameters marked required, in
/// order: as many names as such parameters, the `k`-th required parameter's
/// name in place `k`.
pub proof fn lemma_schema_requires_marked_parameters(
    s: FunctionSchema,
    i: (Seq<char>, Seq<char>, Seq<ParamView>),
)
    requires
        schema_matches(s, i),
    ensures
        s.required@.map_values(|n: String| n@) == i.2.filter(|p: ParamView| p.3).map_values(
            |p: ParamView| p.0,
        ),
        s.required@.len() == i.2.filter(|p: ParamView| p.3).len(),
{
    lemma_required_names_are_required_parameters(i.2);
    assert(s.required@.map_values(|n: String| n@).len() == s.required@.len());
}

} // verus!
