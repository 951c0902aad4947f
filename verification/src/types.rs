//! The conversation data model shared by the session and the react loop.
use vstd::prelude::*;
use vstd::string::*;

verus! {

/// Stable identity of a chat thread.
#[derive(Clone, Copy, Debug, PartialEq, Eq, Structural, Hash)]
pub struct SessionId {
    pub id: u64,
}

impl SessionId {
    pub fn new(id: u64) -> (s: SessionId)
        ensures
            s.id == id,
    {
        SessionId { id }
    }
}

/// Role of a simplified conversation message.
#[derive(Clone, Copy, Debug, PartialEq, Eq, Structural)]
pub enum MessageRole {
    System,
    User,
    Assistant,
    Tool,
}

/// An image attached to a user message.
#[derive(Clone, Debug)]
pub enum ImageAttachment {
    Url { url: String, detail: Option<String> },
    Base64 { media_type: String, data: String },
}

/// One tool call requested by the assistant.
#[derive(Clone, Debug)]
pub struct ToolCallMessage {
    pub id: String,
    pub name: String,
    pub arguments: String,
}

/// A message in the provider (LLM API) format.
///
/// `ephemeral` messages are injected for a single turn and removed when the
/// turn ends.
#[derive(Clone, Debug)]
pub enum ChatMessage {
    System { content: String, ephemeral: bool },
    User { content: String, images: Vec<ImageAttachment>, ephemeral: bool },
    Assistant {
        content: Option<String>,
        reasoning_content: Option<String>,
        tool_calls: Option<Vec<ToolCallMessage>>,
        thinking_signature: Option<String>,
    },
    Tool { tool_call_id: String, name: Option<String>, content: String },
}

/// A simplified (role, text) view of a conversation message.
#[derive(Clone, Debug)]
pub struct Message {
    pub role: MessageRole,
    pub content: String,
}

/// True when the message is marked ephemeral.
pub open spec fn spec_is_ephemeral(m: ChatMessage) -> bool {
    match m {
        ChatMessage::System { ephemeral, .. } => ephemeral,
        ChatMessage::User { ephemeral, .. } => ephemeral,
        _ => false,
    }
}

/// The ids of the tool calls an assistant message carries (empty for any
/// other message).
pub open spec fn call_ids_of(m: ChatMessage) -> Seq<Seq<char>> {
    match m {
        ChatMessage::Assistant { tool_calls: Some(tc), .. } => tc@.map_values(|t: ToolCallMessage| t.id@),
        _ => Seq::empty(),
    }
}

/// True for an assistant message that carries at least one tool call.
pub open spec fn has_tool_calls(m: ChatMessage) -> bool {
    match m {
        ChatMessage::Assistant { tool_calls: Some(tc), .. } => tc@.len() > 0,
        _ => false,
    }
}

/// Number of tool calls an assistant message carries (an assistant message
/// whose `tool_calls` is `Some` counts all of them, even zero).
pub open spec fn tool_call_count_of(m: ChatMessage) -> nat {
    match m {
        ChatMessage::Assistant { tool_calls: Some(tc), .. } => tc@.len(),
        _ => 0,
    }
}

pub fn string_of(s: &str) -> (r: String)
    ensures
        r@ == s@,
{
    String::from_str(s)
}

impl ChatMessage {
    pub fn system(content: &str) -> (m: ChatMessage)
        ensures
            m matches ChatMessage::System { content: c, ephemeral: e } && c@ == content@ && !e,
    {
        ChatMessage::System { content: string_of(content), ephemeral: false }
    }

    pub fn system_ephemeral(content: &str) -> (m: ChatMessage)
        ensures
            m matches ChatMessage::System { content: c, ephemeral: e } && c@ == content@ && e,
    {
        ChatMessage::System { content: string_of(content), ephemeral: true }
    }

    pub fn user(content: &str) -> (m: ChatMessage)
        ensures
            m matches ChatMessage::User { content: c, images, ephemeral: e } && c@ == content@
                && images@.len() == 0 && !e,
    {
        ChatMessage::User { content: string_of(content), images: Vec::new(), ephemeral: false }
    }

    pub fn user_ephemeral(content: &str) -> (m: ChatMessage)
        ensures
            m matches ChatMessage::User { content: c, images, ephemeral: e } && c@ == content@
                && images@.len() == 0 && e,
    {
        ChatMessage::User { content: string_of(content), images: Vec::new(), ephemeral: true }
    }

    pub fn user_with_images(content: &str, images: Vec<ImageAttachment>) -> (m: ChatMessage)
        ensures
            m matches ChatMessage::User { content: c, images: i, ephemeral: e } && c@ == content@
                && i == images && !e,
    {
        ChatMessage::User { content: string_of(content), images, ephemeral: false }
    }

    pub fn assistant(content: &str) -> (m: ChatMessage)
        ensures
            m matches ChatMessage::Assistant {
                content: Some(c),
                reasoning_content: None,
                tool_calls: None,
                thinking_signature: None,
            } && c@ == content@,
    {
        ChatMessage::Assistant {
            content: Some(string_of(content)),
            reasoning_content: None,
            tool_calls: None,
            thinking_signature: None,
        }
    }

    pub fn assistant_with_reasoning(content: &str, reasoning: &str) -> (m: ChatMessage)
        ensures
            m matches ChatMessage::Assistant {
                content: Some(c),
                reasoning_content: Some(r),
                tool_calls: None,
                thinking_signature: None,
            } && c@ == content@ && r@ == reasoning@,
    {
        ChatMessage::Assistant {
            content: Some(string_of(content)),
            reasoning_content: Some(string_of(reasoning)),
            tool_calls: None,
            thinking_signature: None,
        }
    }

    /// An assistant message carrying exactly one tool call.
    pub fn assistant_tool_call(id: &str, name: &str, arguments: &str) -> (m: ChatMessage)
        ensures
            m matches ChatMessage::Assistant {
                content: None,
                reasoning_content: None,
                tool_calls: Some(tc),
                thinking_signature: None,
            } && tc@.len() == 1 && tc@[0].id@ == id@ && tc@[0].name@ == name@
                && tc@[0].arguments@ == arguments@,
    {
        let mut tc: Vec<ToolCallMessage> = Vec::new();
        tc.push(
            ToolCallMessage {
                id: string_of(id),
                name: string_of(name),
                arguments: string_of(arguments),
            },
        );
        ChatMessage::Assistant {
            content: None,
            reasoning_content: None,
            tool_calls: Some(tc),
            thinking_signature: None,
        }
    }

    pub fn tool(tool_call_id: &str, content: &str) -> (m: ChatMessage)
        ensures
            m matches ChatMessage::Tool { tool_call_id: i, name: None, content: c }
                && i@ == tool_call_id@ && c@ == content@,
    {
        ChatMessage::Tool { tool_call_id: string_of(tool_call_id), name: None, content: string_of(content) }
    }

    pub fn is_ephemeral(&self) -> (b: bool)
        ensures
            b == spec_is_ephemeral(*self),
    {
        match self {
            ChatMessage::System { ephemeral, .. } => *ephemeral,
            ChatMessage::User { ephemeral, .. } => *ephemeral,
            _ => false,
        }
    }

    pub fn is_user(&self) -> (b: bool)
        ensures
            b == (*self is User),
    {
        match self {
            ChatMessage::User { .. } => true,
            _ => false,
        }
    }

    pub fn is_system(&self) -> (b: bool)
        ensures
            b == (*self is System),
    {
        match self {
            ChatMessage::System { .. } => true,
            _ => false,
        }
    }
}

/// Why the provider stopped generating.
#[derive(Clone, Copy, Debug, PartialEq, Eq, Structural)]
pub enum FinishReason {
    /// A normal stop.
    Stop,
    /// The model asked for tool calls.
    ToolUse,
    /// The output token limit was hit; the response may be cut off.
    Length,
    /// The provider filtered the content.
    ContentFilter,
    /// No or an unrecognised reason.
    Unknown,
}

/// The finish reason a provider reports as `raw`, or `None` when it reports
/// none.
pub open spec fn finish_reason_of(raw: Option<Seq<char>>) -> FinishReason {
    match raw {
        None => FinishReason::Unknown,
        Some(r) => if r == "stop"@ {
            FinishReason::Stop
        } else if r == "tool_calls"@ || r == "tool_use"@ || r == "function_call"@ {
            FinishReason::ToolUse
        } else if r == "length"@ || r == "max_tokens"@ {
            FinishReason::Length
        } else if r == "content_filter"@ {
            FinishReason::ContentFilter
        } else {
            FinishReason::Unknown
        },
    }
}

impl FinishReason {
    /// Read the provider's finish reason.
    pub fn from_raw(raw: Option<&str>) -> (f: FinishReason)
        ensures
            f == finish_reason_of(match raw { Some(r) => Some(r@), None => None }),
    {
        match raw {
            None => FinishReason::Unknown,
            Some(r) => {
                let r = string_of(r);
                proof {
                    reveal_strlit("stop");
                    reveal_strlit("tool_calls");
                    reveal_strlit("tool_use");
                    reveal_strlit("function_call");
                    reveal_strlit("length");
                    reveal_strlit("max_tokens");
                    reveal_strlit("content_filter");
                }
                if r == string_of("stop") {
                    FinishReason::Stop
                } else if r == string_of("tool_calls") || r == string_of("tool_use") || r == string_of("function_call") {
                    FinishReason::ToolUse
                } else if r == string_of("length") || r == string_of("max_tokens") {
                    FinishReason::Length
                } else if r == string_of("content_filter") {
                    FinishReason::ContentFilter
                } else {
                    FinishReason::Unknown
                }
            },
        }
    }

    pub fn is_truncated(&self) -> (b: bool)
        ensures
            b == (*self == FinishReason::Length),
    {
        match self {
            FinishReason::Length => true,
            _ => false,
        }
    }
}

/// How a run ended.
#[derive(Clone, Debug)]
pub enum RunOutcome {
    Completed,
    /// The turn ended but the run goes on.
    Continuing,
    Failed { error: String },
    MaxTurnsExceeded { turns: u32 },
    Cancelled,
}

/// Errors of the agent runtime.
#[derive(Debug)]
pub enum AgentError {
    Internal(String),
    /// A tool call whose arguments could not be parsed.
    ToolArgsInvalid { name: String, raw: String },
    /// A tool that failed while executing.
    ToolExecution { name: String, source: Box<AgentError> },
    /// The user denied a tool call.
    ApprovalDenied { tool_name: String },
    SessionNotFound(u64),
    Cancelled,
}

impl AgentError {
    pub fn internal(message: &str) -> (e: AgentError)
        ensures
            e matches AgentError::Internal(m) && m@ == message@,
    {
        AgentError::Internal(string_of(message))
    }

    pub fn session_not_found(id: u64) -> (e: AgentError)
        ensures
            e == AgentError::SessionNotFound(id),
    {
        AgentError::SessionNotFound(id)
    }

    pub fn is_cancelled(&self) -> (b: bool)
        ensures
            b == (*self is Cancelled),
    {
        match self {
            AgentError::Cancelled => true,
            _ => false,
        }
    }
}

/// Safety limits of a run.
#[derive(Clone, Copy, Debug)]
pub struct SafetyConfig {
    pub max_tool_calls_per_turn: usize,
}

} // verus!
