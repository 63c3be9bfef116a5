//! Conversation messages and their content blocks.
use vstd::prelude::*;
use crate::json::JsonValue;

verus! {

/// Who wrote a message.
#[derive(Clone, Copy, Debug, PartialEq, Eq, Structural)]
pub enum Role {
    User,
    Assistant,
}

/// Errors of the agent and of the tools it calls.
#[derive(Clone, Debug, PartialEq)]
pub enum AgentError {
    /// The caller's input is bad; not retried.
    InvalidParameters(String),
    /// A tool or extension failed while running.
    ExecutionError(String),
    /// No tool of that name.
    ToolNotFound(String),
    /// No resource or prompt of that name.
    NotFound(String),
    /// No extension of that name.
    UnknownExtension(String),
    /// Two tools share a prefixed name.
    DuplicateTool(String),
    /// An extension did not come up.
    Initialization(String),
    /// The wire failed.
    Transport(String),
    /// A deadline passed.
    Timeout,
    /// The caller aborted.
    Cancelled,
    /// The provider rejected the payload as too long.
    ContextLengthExceeded(String),
}

impl AgentError {
    /// A copy of this error.
    pub fn duplicate(&self) -> (r: AgentError)
        ensures
            r == *self,
    {
        match self {
            AgentError::InvalidParameters(s) => AgentError::InvalidParameters(s.clone()),
            AgentError::ExecutionError(s) => AgentError::ExecutionError(s.clone()),
            AgentError::ToolNotFound(s) => AgentError::ToolNotFound(s.clone()),
            AgentError::NotFound(s) => AgentError::NotFound(s.clone()),
            AgentError::UnknownExtension(s) => AgentError::UnknownExtension(s.clone()),
            AgentError::DuplicateTool(s) => AgentError::DuplicateTool(s.clone()),
            AgentError::Initialization(s) => AgentError::Initialization(s.clone()),
            AgentError::Transport(s) => AgentError::Transport(s.clone()),
            AgentError::Timeout => AgentError::Timeout,
            AgentError::Cancelled => AgentError::Cancelled,
            AgentError::ContextLengthExceeded(s) => AgentError::ContextLengthExceeded(s.clone()),
        }
    }
}

/// A call of a tool by name, with its JSON arguments.
#[derive(Clone, Debug, PartialEq)]
pub struct ToolCall {
    pub name: String,
    pub arguments: JsonValue,
}

impl ToolCall {
    pub fn new(name: &str, arguments: JsonValue) -> (r: ToolCall)
        ensures
            r.name@ == name@,
            r.arguments == arguments,
    {
        ToolCall { name: name.to_owned(), arguments }
    }
}

/// Display hints of a content block: who should see it and how prominent it
/// is (priority in thousandths). They never change what the model is sent.
#[derive(Clone, Debug, PartialEq)]
pub struct Annotations {
    pub audience: Option<Vec<Role>>,
    pub priority: Option<u32>,
}

/// A block of a tool's result.
#[derive(Clone, Debug, PartialEq)]
pub enum Content {
    Text { text: String, annotations: Annotations },
    Image { data: String, mime_type: String, annotations: Annotations },
}

/// The text of a text block.
pub open spec fn content_text(c: Content) -> Option<Seq<char>> {
    match c {
        Content::Text { text, .. } => Some(text@),
        _ => None,
    }
}

/// The annotations of a block.
pub open spec fn content_annotations(c: Content) -> Annotations {
    match c {
        Content::Text { annotations, .. } => annotations,
        Content::Image { annotations, .. } => annotations,
    }
}

impl Content {
    /// A text block without annotations.
    pub fn text(text: &str) -> (r: Content)
        ensures
            content_text(r) == Some(text@),
            content_annotations(r) == (Annotations { audience: None, priority: None }),
    {
        Content::Text {
            text: text.to_owned(),
            annotations: Annotations { audience: None, priority: None },
        }
    }

    /// An image block holding base64 `data`.
    pub fn image(data: &str, mime_type: &str) -> (r: Content)
        ensures
            r matches Content::Image { data: d, mime_type: m, annotations: a } && d@ == data@
                && m@ == mime_type@ && a == (Annotations { audience: None, priority: None }),
    {
        Content::Image {
            data: data.to_owned(),
            mime_type: mime_type.to_owned(),
            annotations: Annotations { audience: None, priority: None },
        }
    }

    /// This block shown only to `audience`.
    pub fn with_audience(self, audience: Vec<Role>) -> (r: Content)
        ensures
            content_text(r) == content_text(self),
            content_annotations(r) == (Annotations {
                audience: Some(audience),
                priority: content_annotations(self).priority,
            }),
    {
        match self {
            Content::Text { text, annotations } => Content::Text {
                text,
                annotations: Annotations { audience: Some(audience), priority: annotations.priority },
            },
            Content::Image { data, mime_type, annotations } => Content::Image {
                data,
                mime_type,
                annotations: Annotations { audience: Some(audience), priority: annotations.priority },
            },
        }
    }

    /// This block with a priority, in thousandths.
    pub fn with_priority(self, priority: u32) -> (r: Content)
        ensures
            content_text(r) == content_text(self),
            content_annotations(r) == (Annotations {
                audience: content_annotations(self).audience,
                priority: Some(priority),
            }),
    {
        match self {
            Content::Text { text, annotations } => Content::Text {
                text,
                annotations: Annotations { audience: annotations.audience, priority: Some(priority) },
            },
            Content::Image { data, mime_type, annotations } => Content::Image {
                data,
                mime_type,
                annotations: Annotations { audience: annotations.audience, priority: Some(priority) },
            },
        }
    }
}

/// A request, by the model, to call a tool.
#[derive(Debug, PartialEq)]
pub struct ToolRequest {
    pub id: String,
    pub tool_call: Result<ToolCall, AgentError>,
}

/// The outcome of a tool call, answering the request with the same id.
#[derive(Debug, PartialEq)]
pub struct ToolResponse {
    pub id: String,
    pub tool_result: Result<Vec<Content>, AgentError>,
}

impl Clone for ToolRequest {
    fn clone(&self) -> Self {
        let tool_call = match &self.tool_call {
            Ok(c) => Ok(c.clone()),
            Err(e) => Err(e.duplicate()),
        };
        ToolRequest { id: self.id.clone(), tool_call }
    }
}

impl Clone for ToolResponse {
    fn clone(&self) -> Self {
        let tool_result = match &self.tool_result {
            Ok(v) => Ok(v.clone()),
            Err(e) => Err(e.duplicate()),
        };
        ToolResponse { id: self.id.clone(), tool_result }
    }
}

/// A block of a message.
#[derive(Clone, Debug, PartialEq)]
pub enum MessageContent {
    Text(String),
    Image { data: String, mime_type: String },
    ToolRequest(ToolRequest),
    ToolResponse(ToolResponse),
}

impl MessageContent {
    pub fn text(text: &str) -> (r: MessageContent)
        ensures
            r matches MessageContent::Text(t) && t@ == text@,
    {
        MessageContent::Text(text.to_owned())
    }

    pub fn tool_request(id: &str, tool_call: Result<ToolCall, AgentError>) -> (r: MessageContent)
        ensures
            r matches MessageContent::ToolRequest(q) && q.id@ == id@ && q.tool_call == tool_call,
    {
        MessageContent::ToolRequest(ToolRequest { id: id.to_owned(), tool_call })
    }

    pub fn tool_response(id: &str, tool_result: Result<Vec<Content>, AgentError>) -> (r:
        MessageContent)
        ensures
            r matches MessageContent::ToolResponse(p) && p.id@ == id@ && p.tool_result
                == tool_result,
    {
        MessageContent::ToolResponse(ToolResponse { id: id.to_owned(), tool_result })
    }
}

/// A message of the conversation: its author, its creation time in unix
/// seconds and its blocks in order.
#[derive(Clone, Debug, PartialEq)]
pub struct Message {
    pub role: Role,
    pub created: i64,
    pub content: Vec<MessageContent>,
}

/// The message is the user's and holds at least one text block.
pub open spec fn is_user_text(m: Message) -> bool {
    m.role == Role::User && exists|i: int|
        0 <= i < m.content@.len() && (#[trigger] m.content@[i]) is Text
}

impl Message {
    /// An empty message by `role`, created at `created`.
    pub fn new(role: Role, created: i64) -> (r: Message)
        ensures
            r.role == role,
            r.created == created,
            r.content@.len() == 0,
    {
        Message { role, created, content: Vec::new() }
    }

    /// An empty user message.
    pub fn user() -> (r: Message)
        ensures
            r.role == Role::User,
            r.created == 0,
            r.content@.len() == 0,
    {
        Message::new(Role::User, 0)
    }

    /// An empty assistant message.
    pub fn assistant() -> (r: Message)
        ensures
            r.role == Role::Assistant,
            r.created == 0,
            r.content@.len() == 0,
    {
        Message::new(Role::Assistant, 0)
    }

    /// This message with `content` appended.
    pub fn with_content(self, content: MessageContent) -> (r: Message)
        ensures
            r.role == self.role,
            r.created == self.created,
            r.content@ == self.content@.push(content),
    {
        let mut m = self;
        m.content.push(content);
        m
    }

    /// This message with a text block appended.
    pub fn with_text(self, text: &str) -> (r: Message)
        ensures
            r.role == self.role,
            r.created == self.created,
            r.content@.len() == self.content@.len() + 1,
            r.content@.take(self.content@.len() as int) == self.content@,
            r.content@.last() matches MessageContent::Text(t) && t@ == text@,
    {
        let r = self.with_content(MessageContent::text(text));
        assert(r.content@.take(self.content@.len() as int) =~= self.content@);
        r
    }

    /// This message with a tool request appended.
    pub fn with_tool_request(self, id: &str, tool_call: Result<ToolCall, AgentError>) -> (r:
        Message)
        ensures
            r.role == self.role,
            r.created == self.created,
            r.content@.len() == self.content@.len() + 1,
            r.content@.take(self.content@.len() as int) == self.content@,
            r.content@.last() matches MessageContent::ToolRequest(q) && q.id@ == id@
                && q.tool_call == tool_call,
    {
        let r = self.with_content(MessageContent::tool_request(id, tool_call));
        assert(r.content@.take(self.content@.len() as int) =~= self.content@);
        r
    }

    /// This message with a tool response appended.
    pub fn with_tool_response(self, id: &str, tool_result: Result<Vec<Content>, AgentError>) -> (r:
        Message)
        ensures
            r.role == self.role,
            r.created == self.created,
            r.content@.len() == self.content@.len() + 1,
            r.content@.take(self.content@.len() as int) == self.content@,
            r.content@.last() matches MessageContent::ToolResponse(p) && p.id@ == id@
                && p.tool_result == tool_result,
    {
        let r = self.with_content(MessageContent::tool_response(id, tool_result));
        assert(r.content@.take(self.content@.len() as int) =~= self.content@);
        r
    }

    /// Whether the message is the user's and holds a text block.
    pub fn is_user_text(&self) -> (r: bool)
        ensures
            r == is_user_text(*self),
    {
        if self.role != Role::User {
            return false;
        }
        let mut i: usize = 0;
        while i < self.content.len()
            invariant
                self.role == Role::User,
                i <= self.content@.len(),
                forall|j: int| 0 <= j < i ==> !(self.content@[j] is Text),
            decreases self.content.len() - i,
        {
            if let MessageContent::Text(_) = &self.content[i] {
                assert(self.content@[i as int] is Text);
                return true;
            }
            i = i + 1;
        }
        false
    }
}

} // verus!
