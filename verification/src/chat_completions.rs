//! Wire types for the Chat Completions API (`POST /v1/chat/completions`).
//!
//! Chat Completions streams deltas: tool calls and text arrive in fragments.
//! The chunk types here are therefore one server-sent payload each, not a whole
//! response.
use crate::json::{json_view, JsonView};
use crate::text::same_text;
use serde_json::Value;
use vstd::prelude::*;

verus! {

// ── Request side ─────────────────────────────────────────────────────────────

/// The payload of a Chat Completions request.
#[derive(Debug, Clone, PartialEq)]
pub struct ChatCompletionsRequest {
    pub model: String,
    pub messages: Vec<ChatCompletionMessageParam>,
    /// The only accepted name for the limit on many compatible servers.
    pub max_tokens: Option<i64>,
    /// The modern name for the limit.
    pub max_completion_tokens: Option<i64>,
    /// A decimal number, by its text.
    pub temperature: Option<String>,
    pub tools: Vec<ChatCompletionTool>,
    pub tool_choice: Option<ChatCompletionToolChoice>,
    pub parallel_tool_calls: Option<bool>,
    /// Must be `true` for streaming.
    pub stream: bool,
    /// Asks for token usage on the final chunk.
    pub stream_options: ChatCompletionStreamOptions,
    pub reasoning_effort: Option<String>,
    pub stop: Vec<String>,
}

/// What a [`ChatCompletionsRequest`] says.
pub struct ChatRequestView {
    pub model: Seq<char>,
    pub messages: Seq<ChatMessageView>,
    pub max_tokens: Option<i64>,
    pub max_completion_tokens: Option<i64>,
    pub temperature: Option<Seq<char>>,
    pub tools: Seq<ChatToolView>,
    pub tool_choice: Option<ChatToolChoiceView>,
    pub parallel_tool_calls: Option<bool>,
    pub stream: bool,
    pub stream_options: ChatCompletionStreamOptions,
    pub reasoning_effort: Option<Seq<char>>,
    pub stop: Seq<Seq<char>>,
}

impl DeepView for ChatCompletionsRequest {
    type V = ChatRequestView;

    open spec fn deep_view(&self) -> ChatRequestView {
        ChatRequestView {
            model: self.model@,
            messages: self.messages.deep_view(),
            max_tokens: self.max_tokens,
            max_completion_tokens: self.max_completion_tokens,
            temperature: self.temperature.deep_view(),
            tools: self.tools.deep_view(),
            tool_choice: self.tool_choice.deep_view(),
            parallel_tool_calls: self.parallel_tool_calls,
            stream: self.stream,
            stream_options: self.stream_options,
            reasoning_effort: self.reasoning_effort.deep_view(),
            stop: self.stop.deep_view(),
        }
    }
}

#[derive(Debug, Clone, Copy, PartialEq, Eq)]
pub struct ChatCompletionStreamOptions {
    pub include_usage: bool,
}

/// One conversation turn, by the role that takes it.
#[derive(Debug, Clone, PartialEq, Eq)]
#[allow(inconsistent_fields)]
pub enum ChatCompletionMessageParam {
    System { content: ChatCompletionContent },
    Developer { content: ChatCompletionContent },
    User { content: ChatCompletionContent },
    /// An assistant turn. `content` may be missing where the turn only carries
    /// `tool_calls`; `tool_calls` is empty for plain text turns.
    Assistant {
        content: Option<ChatCompletionContent>,
        tool_calls: Vec<ChatCompletionAssistantToolCall>,
    },
    /// The result of a tool call, returned to the model.
    Tool { tool_call_id: String, content: String },
}

/// What a [`ChatCompletionMessageParam`] says.
#[allow(inconsistent_fields)]
pub enum ChatMessageView {
    System { content: ChatContentView },
    Developer { content: ChatContentView },
    User { content: ChatContentView },
    Assistant { content: Option<ChatContentView>, tool_calls: Seq<ChatToolCallView> },
    Tool { tool_call_id: Seq<char>, content: Seq<char> },
}

impl DeepView for ChatCompletionMessageParam {
    type V = ChatMessageView;

    open spec fn deep_view(&self) -> ChatMessageView {
        match self {
            ChatCompletionMessageParam::System { content } => ChatMessageView::System {
                content: content.deep_view(),
            },
            ChatCompletionMessageParam::Developer { content } => ChatMessageView::Developer {
                content: content.deep_view(),
            },
            ChatCompletionMessageParam::User { content } => ChatMessageView::User {
                content: content.deep_view(),
            },
            ChatCompletionMessageParam::Assistant { content, tool_calls } =>
                ChatMessageView::Assistant {
                    content: content.deep_view(),
                    tool_calls: tool_calls.deep_view(),
                },
            ChatCompletionMessageParam::Tool { tool_call_id, content } => ChatMessageView::Tool {
                tool_call_id: tool_call_id@,
                content: content@,
            },
        }
    }
}

/// Message content: plain text, or a list of typed parts.
#[derive(Debug, Clone, PartialEq, Eq)]
pub enum ChatCompletionContent {
    Text(String),
    Parts(Vec<ChatCompletionContentPart>),
}

/// What a [`ChatCompletionContent`] says.
pub enum ChatContentView {
    Text(Seq<char>),
    Parts(Seq<ChatPartView>),
}

impl DeepView for ChatCompletionContent {
    type V = ChatContentView;

    open spec fn deep_view(&self) -> ChatContentView {
        match self {
            ChatCompletionContent::Text(text) => ChatContentView::Text(text@),
            ChatCompletionContent::Parts(parts) => ChatContentView::Parts(parts.deep_view()),
        }
    }
}

#[derive(Debug, Clone, PartialEq, Eq)]
pub enum ChatCompletionContentPart {
    Text { text: String },
    ImageUrl { image_url: ChatCompletionImageUrl },
}

/// What a [`ChatCompletionContentPart`] says.
pub enum ChatPartView {
    Text { text: Seq<char> },
    ImageUrl { url: Seq<char>, detail: Option<Seq<char>> },
}

impl DeepView for ChatCompletionContentPart {
    type V = ChatPartView;

    open spec fn deep_view(&self) -> ChatPartView {
        match self {
            ChatCompletionContentPart::Text { text } => ChatPartView::Text { text: text@ },
            ChatCompletionContentPart::ImageUrl { image_url } => ChatPartView::ImageUrl {
                url: image_url.url@,
                detail: image_url.detail.deep_view(),
            },
        }
    }
}

#[derive(Debug, Clone, PartialEq, Eq)]
pub struct ChatCompletionImageUrl {
    pub url: String,
    pub detail: Option<String>,
}

/// A tool call of an assistant turn, replayed as history.
#[derive(Debug, Clone, PartialEq, Eq)]
pub struct ChatCompletionAssistantToolCall {
    /// The position of the call in its turn.
    pub index: i64,
    pub id: String,
    pub kind: String,
    pub function: ChatCompletionAssistantToolCallFunction,
}

#[derive(Debug, Clone, PartialEq, Eq)]
pub struct ChatCompletionAssistantToolCallFunction {
    pub name: String,
    /// The arguments as JSON text, not as a JSON object.
    pub arguments: String,
}

/// What a [`ChatCompletionAssistantToolCall`] says.
pub struct ChatToolCallView {
    pub index: int,
    pub id: Seq<char>,
    pub kind: Seq<char>,
    pub name: Seq<char>,
    pub arguments: Seq<char>,
}

impl DeepView for ChatCompletionAssistantToolCall {
    type V = ChatToolCallView;

    open spec fn deep_view(&self) -> ChatToolCallView {
        ChatToolCallView {
            index: self.index as int,
            id: self.id@,
            kind: self.kind@,
            name: self.function.name@,
            arguments: self.function.arguments@,
        }
    }
}

/// A tool definition in function-calling shape.
#[derive(Debug, Clone, PartialEq)]
pub struct ChatCompletionTool {
    pub kind: String,
    pub function: ChatCompletionToolFunction,
}

#[derive(Debug, Clone, PartialEq)]
pub struct ChatCompletionToolFunction {
    pub name: String,
    pub description: Option<String>,
    /// The JSON Schema of the arguments.
    pub parameters: Value,
    pub strict: Option<bool>,
}

/// What a [`ChatCompletionTool`] says.
pub struct ChatToolView {
    pub kind: Seq<char>,
    pub name: Seq<char>,
    pub description: Option<Seq<char>>,
    pub parameters: JsonView,
    pub strict: Option<bool>,
}

impl DeepView for ChatCompletionTool {
    type V = ChatToolView;

    open spec fn deep_view(&self) -> ChatToolView {
        ChatToolView {
            kind: self.kind@,
            name: self.function.name@,
            description: self.function.description.deep_view(),
            parameters: json_view(self.function.parameters),
            strict: self.function.strict,
        }
    }
}

/// Which tools the model may or must call.
#[derive(Debug, Clone, PartialEq, Eq)]
pub enum ChatCompletionToolChoice {
    /// `"auto"`, `"none"` or `"required"`.
    Mode(String),
    Named(ChatCompletionNamedToolChoice),
}

/// What a [`ChatCompletionToolChoice`] says.
pub enum ChatToolChoiceView {
    Mode(Seq<char>),
    Named { kind: Seq<char>, name: Seq<char> },
}

impl DeepView for ChatCompletionToolChoice {
    type V = ChatToolChoiceView;

    open spec fn deep_view(&self) -> ChatToolChoiceView {
        match self {
            ChatCompletionToolChoice::Mode(mode) => ChatToolChoiceView::Mode(mode@),
            ChatCompletionToolChoice::Named(named) => ChatToolChoiceView::Named {
                kind: named.kind@,
                name: named.function.name@,
            },
        }
    }
}

#[derive(Debug, Clone, PartialEq, Eq)]
pub struct ChatCompletionNamedToolChoice {
    pub kind: String,
    pub function: ChatCompletionNamedToolChoiceFunction,
}

#[derive(Debug, Clone, PartialEq, Eq)]
pub struct ChatCompletionNamedToolChoiceFunction {
    pub name: String,
}

// ── Streaming side ───────────────────────────────────────────────────────────

/// One payload of a Chat Completions stream.
#[derive(Debug)]
pub struct ChatCompletionChunk {
    pub id: Option<String>,
    /// The model that the server used.
    pub model: Option<String>,
    pub choices: Vec<ChatCompletionChoice>,
    /// Present on the final chunk where usage was asked for.
    pub usage: Option<ChatCompletionUsage>,
}

/// What a [`ChatCompletionChunk`] says.
pub struct ChatChunkView {
    pub id: Option<Seq<char>>,
    pub model: Option<Seq<char>>,
    pub choices: Seq<ChatChoiceView>,
    pub usage: Option<ChatCompletionUsage>,
}

impl DeepView for ChatCompletionChunk {
    type V = ChatChunkView;

    open spec fn deep_view(&self) -> ChatChunkView {
        ChatChunkView {
            id: self.id.deep_view(),
            model: self.model.deep_view(),
            choices: self.choices.deep_view(),
            usage: self.usage,
        }
    }
}

#[derive(Debug)]
pub struct ChatCompletionChoice {
    pub delta: ChatCompletionDelta,
    pub finish_reason: Option<String>,
}

/// What a [`ChatCompletionChoice`] says.
pub struct ChatChoiceView {
    pub role: Option<Seq<char>>,
    pub content: Option<Seq<char>>,
    pub tool_calls: Seq<ChatToolCallDeltaView>,
    pub finish_reason: Option<Seq<char>>,
}

impl DeepView for ChatCompletionChoice {
    type V = ChatChoiceView;

    open spec fn deep_view(&self) -> ChatChoiceView {
        ChatChoiceView {
            role: self.delta.role.deep_view(),
            content: self.delta.content.deep_view(),
            tool_calls: self.delta.tool_calls.deep_view(),
            finish_reason: self.finish_reason.deep_view(),
        }
    }
}

/// The fragment of a choice that a chunk carries.
#[derive(Debug)]
pub struct ChatCompletionDelta {
    pub role: Option<String>,
    pub content: Option<String>,
    pub tool_calls: Vec<ChatCompletionToolCallDelta>,
}

impl Default for ChatCompletionDelta {
    fn default() -> (r: Self)
        ensures
            r.role is None,
            r.content is None,
            r.tool_calls@.len() == 0,
    {
        ChatCompletionDelta { role: None, content: None, tool_calls: Vec::new() }
    }
}

/// A fragment of a tool call. `index` aligns fragments across chunks; `id` and
/// `function.name` come with the first fragment for an index, and
/// `function.arguments` comes in pieces.
#[derive(Debug, Clone)]
pub struct ChatCompletionToolCallDelta {
    pub index: i64,
    pub id: Option<String>,
    pub function: Option<ChatCompletionToolCallFunctionDelta>,
}

#[derive(Debug, Clone)]
pub struct ChatCompletionToolCallFunctionDelta {
    pub name: Option<String>,
    pub arguments: Option<String>,
}

/// What a [`ChatCompletionToolCallDelta`] says. A fragment without a function
/// says as much as one with a function that has neither name nor arguments.
pub struct ChatToolCallDeltaView {
    pub index: i64,
    pub id: Option<Seq<char>>,
    pub name: Option<Seq<char>>,
    pub arguments: Option<Seq<char>>,
}

impl DeepView for ChatCompletionToolCallDelta {
    type V = ChatToolCallDeltaView;

    open spec fn deep_view(&self) -> ChatToolCallDeltaView {
        ChatToolCallDeltaView {
            index: self.index,
            id: self.id.deep_view(),
            name: match self.function {
                Some(function) => function.name.deep_view(),
                None => None,
            },
            arguments: match self.function {
                Some(function) => function.arguments.deep_view(),
                None => None,
            },
        }
    }
}

impl Default for ChatCompletionToolCallFunctionDelta {
    fn default() -> (r: Self)
        ensures
            r.name is None,
            r.arguments is None,
    {
        ChatCompletionToolCallFunctionDelta { name: None, arguments: None }
    }
}

/// The token usage on the final chunk.
#[derive(Debug, Clone, Copy, PartialEq, Eq)]
pub struct ChatCompletionUsage {
    pub prompt_tokens: i64,
    pub completion_tokens: i64,
    pub total_tokens: i64,
    pub prompt_tokens_details: Option<ChatCompletionPromptTokensDetails>,
    pub completion_tokens_details: Option<ChatCompletionCompletionTokensDetails>,
}

impl Default for ChatCompletionUsage {
    fn default() -> (r: Self)
        ensures
            r == (ChatCompletionUsage {
                prompt_tokens: 0,
                completion_tokens: 0,
                total_tokens: 0,
                prompt_tokens_details: None,
                completion_tokens_details: None,
            }),
    {
        ChatCompletionUsage {
            prompt_tokens: 0,
            completion_tokens: 0,
            total_tokens: 0,
            prompt_tokens_details: None,
            completion_tokens_details: None,
        }
    }
}

#[derive(Debug, Clone, Copy, PartialEq, Eq)]
pub struct ChatCompletionPromptTokensDetails {
    pub cached_tokens: i64,
}

impl Default for ChatCompletionPromptTokensDetails {
    fn default() -> (r: Self)
        ensures
            r.cached_tokens == 0,
    {
        ChatCompletionPromptTokensDetails { cached_tokens: 0 }
    }
}

#[derive(Debug, Clone, Copy, PartialEq, Eq)]
pub struct ChatCompletionCompletionTokensDetails {
    pub reasoning_tokens: i64,
}

impl Default for ChatCompletionCompletionTokensDetails {
    fn default() -> (r: Self)
        ensures
            r.reasoning_tokens == 0,
    {
        ChatCompletionCompletionTokensDetails { reasoning_tokens: 0 }
    }
}

/// The literal payload that ends a Chat Completions stream.
pub const STREAM_DONE_SENTINEL: &'static str = "[DONE]";

/// What a finish reason says about the turn: `Some(true)` where the model ended
/// its turn by itself, `Some(false)` where it stopped for tool calls or at a
/// limit, and nothing for any other reason.
pub open spec fn ends_turn(finish_reason: Seq<char>) -> Option<bool> {
    if finish_reason == "stop"@ || finish_reason == "content_filter"@ {
        Some(true)
    } else if finish_reason == "tool_calls"@ || finish_reason == "function_call"@ || finish_reason
        == "length"@ {
        Some(false)
    } else {
        None
    }
}

/// Maps a Chat Completions `finish_reason` to the closest stop semantics.
pub fn finish_reason_ends_turn(finish_reason: &str) -> (r: Option<bool>)
    ensures
        r == ends_turn(finish_reason@),
{
    if same_text(finish_reason, "stop") || same_text(finish_reason, "content_filter") {
        Some(true)
    } else if same_text(finish_reason, "tool_calls") || same_text(finish_reason, "function_call")
        || same_text(finish_reason, "length") {
        Some(false)
    } else {
        None
    }
}

} // verus!
