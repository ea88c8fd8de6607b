//! The conversation model shared by every language-model backend.

use vstd::prelude::*;
use crate::json::JsonValue;

verus! {

/// Who wrote a chat message.
#[derive(Debug, Clone, Copy, PartialEq, Eq, Structural)]
pub enum Role {
    System,
    User,
    Assistant,
    Tool,
}

/// A tool invocation requested by the model.
#[derive(Debug)]
pub struct ToolCall {
    pub id: String,
    pub name: String,
    pub arguments: JsonValue,
}

pub struct ToolCallView {
    pub id: Seq<char>,
    pub name: Seq<char>,
    pub arguments: JsonValue,
}

impl View for ToolCall {
    type V = ToolCallView;

    open spec fn view(&self) -> ToolCallView {
        ToolCallView { id: self.id@, name: self.name@, arguments: self.arguments }
    }
}

pub open spec fn calls_view(calls: Seq<ToolCall>) -> Seq<ToolCallView> {
    calls.map_values(|c: ToolCall| c@)
}

/// One message of a conversation.
#[derive(Debug)]
pub struct ChatMessage {
    pub role: Role,
    pub content: String,
    /// For a tool result: the id of the call it answers.
    pub tool_call_id: Option<String>,
    /// For an assistant message: the tool calls the model requested.
    pub tool_calls: Vec<ToolCall>,
}

pub struct ChatMessageView {
    pub role: Role,
    pub content: Seq<char>,
    pub tool_call_id: Option<Seq<char>>,
    pub tool_calls: Seq<ToolCallView>,
}

impl View for ChatMessage {
    type V = ChatMessageView;

    open spec fn view(&self) -> ChatMessageView {
        ChatMessageView {
            role: self.role,
            content: self.content@,
            tool_call_id: match self.tool_call_id {
                Some(id) => Some(id@),
                None => None,
            },
            tool_calls: calls_view(self.tool_calls@),
        }
    }
}

pub open spec fn messages_view(ms: Seq<ChatMessage>) -> Seq<ChatMessageView> {
    ms.map_values(|m: ChatMessage| m@)
}

/// A message of the given role and text, with no tool data.
pub open spec fn plain_message(role: Role, content: Seq<char>) -> ChatMessageView {
    ChatMessageView { role, content, tool_call_id: None, tool_calls: Seq::empty() }
}

impl ChatMessage {
    pub fn system(content: &str) -> (m: ChatMessage)
        ensures
            m@ == plain_message(Role::System, content@),
    {
        let m = ChatMessage {
            role: Role::System,
            content: content.to_owned(),
            tool_call_id: None,
            tool_calls: Vec::new(),
        };
        assert(m@.tool_calls =~= Seq::<ToolCallView>::empty());
        m
    }

    pub fn user(content: &str) -> (m: ChatMessage)
        ensures
            m@ == plain_message(Role::User, content@),
    {
        let m = ChatMessage {
            role: Role::User,
            content: content.to_owned(),
            tool_call_id: None,
            tool_calls: Vec::new(),
        };
        assert(m@.tool_calls =~= Seq::<ToolCallView>::empty());
        m
    }

    pub fn assistant(content: &str) -> (m: ChatMessage)
        ensures
            m@ == plain_message(Role::Assistant, content@),
    {
        let m = ChatMessage {
            role: Role::Assistant,
            content: content.to_owned(),
            tool_call_id: None,
            tool_calls: Vec::new(),
        };
        assert(m@.tool_calls =~= Seq::<ToolCallView>::empty());
        m
    }

    pub fn assistant_with_tools(content: String, tool_calls: Vec<ToolCall>) -> (m: ChatMessage)
        ensures
            m@ == (ChatMessageView {
                role: Role::Assistant,
                content: content@,
                tool_call_id: None,
                tool_calls: calls_view(tool_calls@),
            }),
    {
        ChatMessage { role: Role::Assistant, content, tool_call_id: None, tool_calls }
    }

    pub fn tool_result(tool_call_id: &str, content: &str) -> (m: ChatMessage)
        ensures
            m@ == (ChatMessageView {
                role: Role::Tool,
                content: content@,
                tool_call_id: Some(tool_call_id@),
                tool_calls: Seq::empty(),
            }),
    {
        let m = ChatMessage {
            role: Role::Tool,
            content: content.to_owned(),
            tool_call_id: Some(tool_call_id.to_owned()),
            tool_calls: Vec::new(),
        };
        assert(m@.tool_calls =~= Seq::<ToolCallView>::empty());
        m
    }
}

/// A tool as offered to the model: its name, what it does, and the JSON
/// schema of its arguments.
#[derive(Debug)]
pub struct ToolDefinition {
    pub name: String,
    pub description: String,
    pub parameters: JsonValue,
}

/// What the model answered: text, tool calls, or both.
#[derive(Debug)]
pub struct CompletionResponse {
    pub content: Option<String>,
    pub tool_calls: Vec<ToolCall>,
}

pub struct CompletionView {
    pub content: Option<Seq<char>>,
    pub tool_calls: Seq<ToolCallView>,
}

impl View for CompletionResponse {
    type V = CompletionView;

    open spec fn view(&self) -> CompletionView {
        CompletionView {
            content: match self.content {
                Some(c) => Some(c@),
                None => None,
            },
            tool_calls: calls_view(self.tool_calls@),
        }
    }
}

/// Why a model request failed.
#[derive(Debug)]
pub enum LlmError {
    RequestFailed { reason: String },
    AuthFailed { provider: String },
    UnsupportedProvider { provider: String },
}

pub enum LlmErrorView {
    RequestFailed { reason: Seq<char> },
    AuthFailed { provider: Seq<char> },
    UnsupportedProvider { provider: Seq<char> },
}

impl View for LlmError {
    type V = LlmErrorView;

    open spec fn view(&self) -> LlmErrorView {
        match self {
            LlmError::RequestFailed { reason } => LlmErrorView::RequestFailed { reason: reason@ },
            LlmError::AuthFailed { provider } => LlmErrorView::AuthFailed { provider: provider@ },
            LlmError::UnsupportedProvider { provider } => LlmErrorView::UnsupportedProvider {
                provider: provider@,
            },
        }
    }
}

/// The text that describes an error.
pub open spec fn llm_error_text(e: LlmErrorView) -> Seq<char> {
    match e {
        LlmErrorView::RequestFailed { reason } => "request failed: "@ + reason,
        LlmErrorView::AuthFailed { provider } => "auth failed for provider "@ + provider,
        LlmErrorView::UnsupportedProvider { provider } => "unsupported provider: "@ + provider,
    }
}

impl LlmError {
    /// The error's message.
    pub fn to_string(&self) -> (r: String)
        ensures
            r@ == llm_error_text(self@),
    {
        match self {
            LlmError::RequestFailed { reason } => crate::text::concat2(
                "request failed: ",
                reason.as_str(),
            ),
            LlmError::AuthFailed { provider } => crate::text::concat2(
                "auth failed for provider ",
                provider.as_str(),
            ),
            LlmError::UnsupportedProvider { provider } => crate::text::concat2(
                "unsupported provider: ",
                provider.as_str(),
            ),
        }
    }
}

} // verus!
