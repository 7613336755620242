//! The conversation model: turns, tool-call requests and results, finish
//! reasons and tool definitions.
use vstd::prelude::*;
use crate::json::{into_object, object_entries, object_value, remove_key, value_object};

verus! {

/// Why the model stopped generating.
#[derive(Clone, Debug)]
pub enum FinishReason {
    Stop,
    Length,
    ToolCalls,
    ContentFilter,
    /// A reason that only some providers send.
    Custom(String),
}

/// The function part of a tool call.
#[derive(Clone, Debug)]
pub struct FunctionCall {
    /// Name of the tool to call.
    pub name: String,
    /// JSON-encoded arguments.
    pub arguments: String,
}

/// A tool invocation requested by the model.
#[derive(Clone, Debug)]
pub struct ToolCall {
    /// Identifier issued by the provider, unique within one assistant turn.
    pub id: String,
    /// Kind of call, `"function"` in practice.
    pub call_type: String,
    /// What to call and with which arguments.
    pub function: FunctionCall,
}

/// System turn.
#[derive(Clone, Debug)]
pub struct SystemMessage {
    pub content: String,
}

/// User turn.
#[derive(Clone, Debug)]
pub struct UserMessage {
    pub content: String,
}

/// Assistant turn, with the tool calls it requests, if any.
#[derive(Clone, Debug)]
pub struct AssistantMessage {
    pub content: String,
    pub tool_calls: Option<Vec<ToolCall>>,
}

/// Result of one tool call, sent back to the model.
#[derive(Clone, Debug)]
pub struct ToolMessage {
    pub content: String,
    /// The id of the request this answers.
    pub tool_call_id: String,
}

/// A turn with a provider-specific role and an arbitrary JSON body.
#[derive(Clone, Debug)]
pub struct CustomMessage {
    pub role: String,
    pub body: serde_json::Value,
}

/// One turn of a conversation.
#[derive(Clone, Debug)]
pub enum Message {
    System(SystemMessage),
    User(UserMessage),
    Assistant(AssistantMessage),
    Tool(ToolMessage),
    Custom(CustomMessage),
}

/// A turn together with when it was made and how long it took, both in
/// milliseconds (the timestamp counts from the Unix epoch).
#[derive(Clone, Debug)]
pub struct TimedMessage {
    pub message: Message,
    pub timestamp: u64,
    pub elapsed: u64,
}

/// The result of one tool call, with when the call started and how long it
/// ran, in milliseconds.
#[derive(Clone, Debug)]
pub struct ToolResult {
    pub tool_message: ToolMessage,
    pub timestamp: u64,
    pub elapsed: u64,
}

/// What a tool produced for one call: its text, when the call started and
/// how long it ran, in milliseconds.
#[derive(Clone, Debug)]
pub struct ToolOutput {
    pub content: String,
    pub timestamp: u64,
    pub elapsed: u64,
}

/// What the model client returns for one call.
#[derive(Clone, Debug)]
pub struct LLMResponse {
    pub message: AssistantMessage,
    pub finish_reason: FinishReason,
}

/// A tool as advertised to the model.
#[derive(Clone, Debug)]
pub struct ToolDefinition {
    /// Kind of tool, `"function"` in practice.
    pub tool_type: String,
    pub function: ToolFunction,
}

/// Name, description and argument schema of a tool.
#[derive(Clone, Debug)]
pub struct ToolFunction {
    pub name: String,
    pub description: String,
    pub parameters: Parameters,
}

/// A JSON schema object for a tool's arguments, without the metadata keys
/// `$schema`, `title` and `description`.
#[derive(Clone, Debug)]
pub struct Parameters(serde_json::Map<String, serde_json::Value>);

/// The schema metadata keys, which are removed before a schema is sent.
pub open spec fn schema_metadata_keys() -> Set<Seq<char>> {
    set!["$schema"@, "title"@, "description"@]
}

impl Parameters {
    /// The entries of the schema object.
    pub closed spec fn entries(&self) -> Map<Seq<char>, serde_json::Value> {
        object_entries(self.0)
    }

    /// Creates parameters from a JSON object, dropping `$schema`, `title`
    /// and `description`.
    pub fn from_object(obj: serde_json::Map<String, serde_json::Value>) -> (r: Self)
        ensures
            r.entries() == object_entries(obj).remove_keys(schema_metadata_keys()),
    {
        let mut obj = obj;
        let ghost entries = object_entries(obj);
        let _ = remove_key(&mut obj, "$schema");
        let _ = remove_key(&mut obj, "title");
        let _ = remove_key(&mut obj, "description");
        assert(object_entries(obj) =~= entries.remove_keys(schema_metadata_keys()));
        Parameters(obj)
    }

    /// The schema object.
    pub fn object(&self) -> (r: &serde_json::Map<String, serde_json::Value>)
        ensures
            object_entries(*r) == self.entries(),
    {
        &self.0
    }
}

impl From<SystemMessage> for Message {
    fn from(msg: SystemMessage) -> Self {
        Message::System(msg)
    }
}

impl vstd::std_specs::convert::FromSpecImpl<SystemMessage> for Message {
    open spec fn obeys_from_spec() -> bool {
        true
    }

    open spec fn from_spec(v: SystemMessage) -> Self {
        Message::System(v)
    }
}

impl From<UserMessage> for Message {
    fn from(msg: UserMessage) -> Self {
        Message::User(msg)
    }
}

impl vstd::std_specs::convert::FromSpecImpl<UserMessage> for Message {
    open spec fn obeys_from_spec() -> bool {
        true
    }

    open spec fn from_spec(v: UserMessage) -> Self {
        Message::User(v)
    }
}

impl From<AssistantMessage> for Message {
    fn from(msg: AssistantMessage) -> Self {
        Message::Assistant(msg)
    }
}

impl vstd::std_specs::convert::FromSpecImpl<AssistantMessage> for Message {
    open spec fn obeys_from_spec() -> bool {
        true
    }

    open spec fn from_spec(v: AssistantMessage) -> Self {
        Message::Assistant(v)
    }
}

impl From<ToolMessage> for Message {
    fn from(msg: ToolMessage) -> Self {
        Message::Tool(msg)
    }
}

impl vstd::std_specs::convert::FromSpecImpl<ToolMessage> for Message {
    open spec fn obeys_from_spec() -> bool {
        true
    }

    open spec fn from_spec(v: ToolMessage) -> Self {
        Message::Tool(v)
    }
}

impl From<CustomMessage> for Message {
    fn from(msg: CustomMessage) -> Self {
        Message::Custom(msg)
    }
}

impl vstd::std_specs::convert::FromSpecImpl<CustomMessage> for Message {
    open spec fn obeys_from_spec() -> bool {
        true
    }

    open spec fn from_spec(v: CustomMessage) -> Self {
        Message::Custom(v)
    }
}

impl ToolDefinition {
    /// A function tool with the given name, description and parameters.
    pub fn new(name: String, description: String, parameters: Parameters) -> (r: Self)
        ensures
            r.tool_type@ == "function"@,
            r.function.name == name,
            r.function.description == description,
            r.function.parameters == parameters,
    {
        ToolDefinition {
            tool_type: "function".to_owned(),
            function: ToolFunction { name, description, parameters },
        }
    }
}

/// Removes the schema metadata keys `$schema`, `title` and `description`
/// from a JSON schema object, keeping every other entry; any other value is
/// returned as it is.
pub fn strip_schema_metadata(value: serde_json::Value) -> (r: serde_json::Value)
    ensures
        match value_object(value) {
            Some(entries) => value_object(r) == Some(entries.remove_keys(schema_metadata_keys())),
            None => r == value,
        },
{
    match into_object(value) {
        Ok(obj) => object_value(Parameters::from_object(obj).0),
        Err(v) => v,
    }
}

/// A copy of a tool call.
pub fn copy_tool_call(c: &ToolCall) -> (r: ToolCall)
    ensures
        r == *c,
{
    ToolCall {
        id: c.id.clone(),
        call_type: c.call_type.clone(),
        function: FunctionCall {
            name: c.function.name.clone(),
            arguments: c.function.arguments.clone(),
        },
    }
}

/// A copy of a list of tool calls.
pub fn copy_tool_calls(calls: &Vec<ToolCall>) -> (r: Vec<ToolCall>)
    ensures
        r@ == calls@,
{
    let mut r: Vec<ToolCall> = Vec::new();
    let mut i: usize = 0;
    while i < calls.len()
        invariant
            i <= calls@.len(),
            r@ == calls@.subrange(0, i as int),
        decreases calls@.len() - i,
    {
        r.push(copy_tool_call(&calls[i]));
        i += 1;
        assert(r@ =~= calls@.subrange(0, i as int));
    }
    assert(r@ =~= calls@);
    r
}

} // verus!
