//! Wire types for the Anthropic Messages API (`POST /v1/messages`).
use crate::json::{json_view, json_views, opt_json_view, JsonView};
use serde_json::Value;
use vstd::prelude::*;

verus! {

/// The `anthropic-version` header value for the Messages API.
pub const ANTHROPIC_API_VERSION: &'static str = "2023-06-01";

// ── Request side ─────────────────────────────────────────────────────────────

/// The payload of a Messages request.
#[derive(Debug, Clone, PartialEq)]
pub struct AnthropicMessagesRequest {
    pub model: String,
    pub messages: Vec<AnthropicMessageParam>,
    pub max_tokens: i64,
    pub system: Option<AnthropicSystemPrompt>,
    pub stream: bool,
    /// A decimal number, by its text.
    pub temperature: Option<String>,
    pub tools: Vec<Value>,
    pub tool_choice: Option<AnthropicToolChoice>,
    pub thinking: Option<AnthropicThinkingConfig>,
    pub metadata: Option<AnthropicMetadata>,
}

/// What an [`AnthropicMessagesRequest`] says.
pub struct RequestView {
    pub model: Seq<char>,
    pub messages: Seq<MessageView>,
    pub max_tokens: i64,
    pub system: Option<SystemView>,
    pub stream: bool,
    pub temperature: Option<Seq<char>>,
    pub tools: Seq<JsonView>,
    pub tool_choice: Option<ToolChoiceView>,
    pub thinking: Option<ThinkingView>,
    pub user_id: Option<Option<Seq<char>>>,
}

impl DeepView for AnthropicMessagesRequest {
    type V = RequestView;

    open spec fn deep_view(&self) -> RequestView {
        RequestView {
            model: self.model@,
            messages: self.messages.deep_view(),
            max_tokens: self.max_tokens,
            system: self.system.deep_view(),
            stream: self.stream,
            temperature: self.temperature.deep_view(),
            tools: json_views(self.tools@),
            tool_choice: self.tool_choice.deep_view(),
            thinking: self.thinking.deep_view(),
            user_id: match self.metadata {
                Some(metadata) => Some(metadata.user_id.deep_view()),
                None => None,
            },
        }
    }
}

/// A system prompt: plain text, or a list of text blocks.
#[derive(Debug, Clone, PartialEq, Eq)]
pub enum AnthropicSystemPrompt {
    Text(String),
    Blocks(Vec<AnthropicTextBlockParam>),
}

/// What an [`AnthropicSystemPrompt`] says.
pub enum SystemView {
    Text(Seq<char>),
    Blocks(Seq<TextBlockView>),
}

impl DeepView for AnthropicSystemPrompt {
    type V = SystemView;

    open spec fn deep_view(&self) -> SystemView {
        match self {
            AnthropicSystemPrompt::Text(text) => SystemView::Text(text@),
            AnthropicSystemPrompt::Blocks(blocks) => SystemView::Blocks(blocks.deep_view()),
        }
    }
}

/// One conversation turn.
#[derive(Debug, Clone, PartialEq)]
pub struct AnthropicMessageParam {
    pub role: String,
    pub content: AnthropicMessageContent,
}

/// What an [`AnthropicMessageParam`] says.
pub struct MessageView {
    pub role: Seq<char>,
    pub content: ContentView,
}

impl DeepView for AnthropicMessageParam {
    type V = MessageView;

    open spec fn deep_view(&self) -> MessageView {
        MessageView { role: self.role@, content: self.content.deep_view() }
    }
}

/// The content of a turn: plain text, or a list of blocks.
#[derive(Debug, Clone, PartialEq)]
pub enum AnthropicMessageContent {
    Text(String),
    Blocks(Vec<AnthropicContentBlockParam>),
}

/// What an [`AnthropicMessageContent`] says.
pub enum ContentView {
    Text(Seq<char>),
    Blocks(Seq<BlockView>),
}

impl DeepView for AnthropicMessageContent {
    type V = ContentView;

    open spec fn deep_view(&self) -> ContentView {
        match self {
            AnthropicMessageContent::Text(text) => ContentView::Text(text@),
            AnthropicMessageContent::Blocks(blocks) => ContentView::Blocks(blocks.deep_view()),
        }
    }
}

/// A content block of a request.
#[derive(Debug, Clone, PartialEq)]
pub enum AnthropicContentBlockParam {
    Text { text: String, cache_control: Option<AnthropicCacheControl> },
    Image { source: AnthropicImageSource, cache_control: Option<AnthropicCacheControl> },
    ToolUse { id: String, name: String, input: Value },
    ToolResult {
        tool_use_id: String,
        content: AnthropicToolResultContent,
        is_error: Option<bool>,
    },
}

/// What an [`AnthropicContentBlockParam`] says.
pub enum BlockView {
    Text { text: Seq<char>, cache_control: Option<CacheControlView> },
    Image { source: ImageSourceView, cache_control: Option<CacheControlView> },
    ToolUse { id: Seq<char>, name: Seq<char>, input: JsonView },
    ToolResult { tool_use_id: Seq<char>, content: ToolResultView, is_error: Option<bool> },
}

impl DeepView for AnthropicContentBlockParam {
    type V = BlockView;

    open spec fn deep_view(&self) -> BlockView {
        match self {
            AnthropicContentBlockParam::Text { text, cache_control } => BlockView::Text {
                text: text@,
                cache_control: cache_control.deep_view(),
            },
            AnthropicContentBlockParam::Image { source, cache_control } => BlockView::Image {
                source: source.deep_view(),
                cache_control: cache_control.deep_view(),
            },
            AnthropicContentBlockParam::ToolUse { id, name, input } => BlockView::ToolUse {
                id: id@,
                name: name@,
                input: json_view(*input),
            },
            AnthropicContentBlockParam::ToolResult { tool_use_id, content, is_error } =>
                BlockView::ToolResult {
                    tool_use_id: tool_use_id@,
                    content: content.deep_view(),
                    is_error: *is_error,
                },
        }
    }
}

#[derive(Debug, Clone, PartialEq, Eq)]
pub enum AnthropicImageSource {
    Url { url: String },
    Base64 { media_type: String, data: String },
}

/// What an [`AnthropicImageSource`] says.
pub enum ImageSourceView {
    Url { url: Seq<char> },
    Base64 { media_type: Seq<char>, data: Seq<char> },
}

impl DeepView for AnthropicImageSource {
    type V = ImageSourceView;

    open spec fn deep_view(&self) -> ImageSourceView {
        match self {
            AnthropicImageSource::Url { url } => ImageSourceView::Url { url: url@ },
            AnthropicImageSource::Base64 { media_type, data } => ImageSourceView::Base64 {
                media_type: media_type@,
                data: data@,
            },
        }
    }
}

/// The content of a tool result: plain text, or a list of blocks.
#[derive(Debug, Clone, PartialEq, Eq)]
pub enum AnthropicToolResultContent {
    Text(String),
    Blocks(Vec<AnthropicToolResultBlock>),
}

/// What an [`AnthropicToolResultContent`] says.
pub enum ToolResultView {
    Text(Seq<char>),
    Blocks(Seq<ToolResultBlockView>),
}

impl DeepView for AnthropicToolResultContent {
    type V = ToolResultView;

    open spec fn deep_view(&self) -> ToolResultView {
        match self {
            AnthropicToolResultContent::Text(text) => ToolResultView::Text(text@),
            AnthropicToolResultContent::Blocks(blocks) => ToolResultView::Blocks(
                blocks.deep_view(),
            ),
        }
    }
}

#[derive(Debug, Clone, PartialEq, Eq)]
pub enum AnthropicToolResultBlock {
    Text { text: String },
    Image { source: AnthropicImageSource },
}

/// What an [`AnthropicToolResultBlock`] says.
pub enum ToolResultBlockView {
    Text { text: Seq<char> },
    Image { source: ImageSourceView },
}

impl DeepView for AnthropicToolResultBlock {
    type V = ToolResultBlockView;

    open spec fn deep_view(&self) -> ToolResultBlockView {
        match self {
            AnthropicToolResultBlock::Text { text } => ToolResultBlockView::Text { text: text@ },
            AnthropicToolResultBlock::Image { source } => ToolResultBlockView::Image {
                source: source.deep_view(),
            },
        }
    }
}

/// A cache breakpoint.
#[derive(Debug, PartialEq, Eq)]
pub struct AnthropicCacheControl {
    pub cache_type: String,
    pub ttl: Option<String>,
}

/// What an [`AnthropicCacheControl`] says.
pub struct CacheControlView {
    pub cache_type: Seq<char>,
    pub ttl: Option<Seq<char>>,
}

impl DeepView for AnthropicCacheControl {
    type V = CacheControlView;

    open spec fn deep_view(&self) -> CacheControlView {
        CacheControlView { cache_type: self.cache_type@, ttl: self.ttl.deep_view() }
    }
}

impl Clone for AnthropicCacheControl {
    fn clone(&self) -> (r: Self)
        ensures
            r.deep_view() == self.deep_view(),
    {
        AnthropicCacheControl { cache_type: self.cache_type.clone(), ttl: self.ttl.clone() }
    }
}

#[derive(Debug, Clone, PartialEq, Eq)]
pub struct AnthropicTextBlockParam {
    pub text: String,
    pub cache_control: Option<AnthropicCacheControl>,
}

/// What an [`AnthropicTextBlockParam`] says.
pub struct TextBlockView {
    pub text: Seq<char>,
    pub cache_control: Option<CacheControlView>,
}

impl DeepView for AnthropicTextBlockParam {
    type V = TextBlockView;

    open spec fn deep_view(&self) -> TextBlockView {
        TextBlockView { text: self.text@, cache_control: self.cache_control.deep_view() }
    }
}

/// A tool definition: `{ name, description?, input_schema }`.
#[derive(Debug, Clone, PartialEq)]
pub struct AnthropicTool {
    pub name: String,
    pub description: Option<String>,
    pub input_schema: Value,
}

/// Which tools the model may or must call.
#[derive(Debug, Clone, PartialEq, Eq)]
#[allow(inconsistent_fields)]
pub enum AnthropicToolChoice {
    Auto { disable_parallel_tool_use: Option<bool> },
    Any { disable_parallel_tool_use: Option<bool> },
    Tool { name: String, disable_parallel_tool_use: Option<bool> },
    /// The model may call no tool.
    Forbidden,
}

/// What an [`AnthropicToolChoice`] says.
pub enum ToolChoiceView {
    Auto { disable_parallel_tool_use: Option<bool> },
    Any { disable_parallel_tool_use: Option<bool> },
    Tool { name: Seq<char>, disable_parallel_tool_use: Option<bool> },
    Forbidden,
}

impl DeepView for AnthropicToolChoice {
    type V = ToolChoiceView;

    open spec fn deep_view(&self) -> ToolChoiceView {
        match self {
            AnthropicToolChoice::Auto { disable_parallel_tool_use } => ToolChoiceView::Auto {
                disable_parallel_tool_use: *disable_parallel_tool_use,
            },
            AnthropicToolChoice::Any { disable_parallel_tool_use } => ToolChoiceView::Any {
                disable_parallel_tool_use: *disable_parallel_tool_use,
            },
            AnthropicToolChoice::Tool { name, disable_parallel_tool_use } => ToolChoiceView::Tool {
                name: name@,
                disable_parallel_tool_use: *disable_parallel_tool_use,
            },
            AnthropicToolChoice::Forbidden => ToolChoiceView::Forbidden,
        }
    }
}

/// The extended thinking configuration.
#[derive(Debug, Clone, PartialEq, Eq)]
pub enum AnthropicThinkingConfig {
    Enabled { budget_tokens: i64, display: Option<String> },
    Disabled,
    Adaptive { display: Option<String> },
}

/// What an [`AnthropicThinkingConfig`] says.
pub enum ThinkingView {
    Enabled { budget_tokens: i64, display: Option<Seq<char>> },
    Disabled,
    Adaptive { display: Option<Seq<char>> },
}

impl DeepView for AnthropicThinkingConfig {
    type V = ThinkingView;

    open spec fn deep_view(&self) -> ThinkingView {
        match self {
            AnthropicThinkingConfig::Enabled { budget_tokens, display } => ThinkingView::Enabled {
                budget_tokens: *budget_tokens,
                display: display.deep_view(),
            },
            AnthropicThinkingConfig::Disabled => ThinkingView::Disabled,
            AnthropicThinkingConfig::Adaptive { display } => ThinkingView::Adaptive {
                display: display.deep_view(),
            },
        }
    }
}

#[derive(Debug, Clone, PartialEq, Eq)]
pub struct AnthropicMetadata {
    pub user_id: Option<String>,
}

// ── Streaming side ───────────────────────────────────────────────────────────

/// One event of a Messages stream.
#[derive(Debug)]
#[allow(inconsistent_fields)]
pub enum AnthropicStreamEvent {
    MessageStart { message: AnthropicResponseMessage },
    ContentBlockStart { index: i64, content_block: AnthropicResponseContentBlock },
    ContentBlockDelta { index: i64, delta: AnthropicContentBlockDelta },
    ContentBlockStop { index: i64 },
    MessageDelta { delta: AnthropicMessageDelta, usage: AnthropicUsage },
    MessageStop,
    Ping,
}

/// What an [`AnthropicStreamEvent`] says.
#[allow(inconsistent_fields)]
pub enum StreamEventView {
    MessageStart { message: ResponseMessageView },
    ContentBlockStart { index: i64, content_block: ResponseBlockView },
    ContentBlockDelta { index: i64, delta: BlockDeltaView },
    ContentBlockStop { index: i64 },
    MessageDelta { delta: MessageDeltaView, usage: AnthropicUsage },
    MessageStop,
    Ping,
}

impl DeepView for AnthropicStreamEvent {
    type V = StreamEventView;

    open spec fn deep_view(&self) -> StreamEventView {
        match self {
            AnthropicStreamEvent::MessageStart { message } => StreamEventView::MessageStart {
                message: message.deep_view(),
            },
            AnthropicStreamEvent::ContentBlockStart { index, content_block } =>
                StreamEventView::ContentBlockStart {
                    index: *index,
                    content_block: content_block.deep_view(),
                },
            AnthropicStreamEvent::ContentBlockDelta { index, delta } =>
                StreamEventView::ContentBlockDelta { index: *index, delta: delta.deep_view() },
            AnthropicStreamEvent::ContentBlockStop { index } => StreamEventView::ContentBlockStop {
                index: *index,
            },
            AnthropicStreamEvent::MessageDelta { delta, usage } => StreamEventView::MessageDelta {
                delta: delta.deep_view(),
                usage: *usage,
            },
            AnthropicStreamEvent::MessageStop => StreamEventView::MessageStop,
            AnthropicStreamEvent::Ping => StreamEventView::Ping,
        }
    }
}

/// The message that a `message_start` announces.
#[derive(Debug)]
pub struct AnthropicResponseMessage {
    pub id: String,
    pub model: Option<String>,
    pub role: Option<String>,
    pub stop_reason: Option<String>,
    pub stop_sequence: Option<String>,
    pub usage: Option<AnthropicUsage>,
}

/// What an [`AnthropicResponseMessage`] says.
pub struct ResponseMessageView {
    pub id: Seq<char>,
    pub model: Option<Seq<char>>,
    pub role: Option<Seq<char>>,
    pub stop_reason: Option<Seq<char>>,
    pub stop_sequence: Option<Seq<char>>,
    pub usage: Option<AnthropicUsage>,
}

impl DeepView for AnthropicResponseMessage {
    type V = ResponseMessageView;

    open spec fn deep_view(&self) -> ResponseMessageView {
        ResponseMessageView {
            id: self.id@,
            model: self.model.deep_view(),
            role: self.role.deep_view(),
            stop_reason: self.stop_reason.deep_view(),
            stop_sequence: self.stop_sequence.deep_view(),
            usage: self.usage,
        }
    }
}

/// Token usage, as far as the server reports it.
#[derive(Debug, Clone, Copy, PartialEq, Eq)]
pub struct AnthropicUsage {
    pub input_tokens: Option<i64>,
    pub output_tokens: Option<i64>,
    pub cache_read_input_tokens: Option<i64>,
    pub cache_creation_input_tokens: Option<i64>,
}

impl Default for AnthropicUsage {
    fn default() -> (r: Self)
        ensures
            r == (AnthropicUsage {
                input_tokens: None,
                output_tokens: None,
                cache_read_input_tokens: None,
                cache_creation_input_tokens: None,
            }),
    {
        AnthropicUsage {
            input_tokens: None,
            output_tokens: None,
            cache_read_input_tokens: None,
            cache_creation_input_tokens: None,
        }
    }
}

/// The content block that a `content_block_start` opens.
#[derive(Debug)]
pub enum AnthropicResponseContentBlock {
    Text { text: String },
    Thinking { thinking: String, signature: Option<String> },
    RedactedThinking { data: String },
    ToolUse { id: String, name: String, input: Option<Value> },
}

/// What an [`AnthropicResponseContentBlock`] says.
pub enum ResponseBlockView {
    Text { text: Seq<char> },
    Thinking { thinking: Seq<char>, signature: Option<Seq<char>> },
    RedactedThinking { data: Seq<char> },
    ToolUse { id: Seq<char>, name: Seq<char>, input: Option<JsonView> },
}

impl DeepView for AnthropicResponseContentBlock {
    type V = ResponseBlockView;

    open spec fn deep_view(&self) -> ResponseBlockView {
        match self {
            AnthropicResponseContentBlock::Text { text } => ResponseBlockView::Text { text: text@ },
            AnthropicResponseContentBlock::Thinking { thinking, signature } =>
                ResponseBlockView::Thinking {
                    thinking: thinking@,
                    signature: signature.deep_view(),
                },
            AnthropicResponseContentBlock::RedactedThinking { data } =>
                ResponseBlockView::RedactedThinking { data: data@ },
            AnthropicResponseContentBlock::ToolUse { id, name, input } =>
                ResponseBlockView::ToolUse {
                    id: id@,
                    name: name@,
                    input: opt_json_view(*input),
                },
        }
    }
}

/// The fragment that a `content_block_delta` adds.
#[derive(Debug)]
pub enum AnthropicContentBlockDelta {
    TextDelta { text: String },
    InputJsonDelta { partial_json: String },
    ThinkingDelta { thinking: String },
    SignatureDelta { signature: String },
}

/// What an [`AnthropicContentBlockDelta`] says.
pub enum BlockDeltaView {
    TextDelta { text: Seq<char> },
    InputJsonDelta { partial_json: Seq<char> },
    ThinkingDelta { thinking: Seq<char> },
    SignatureDelta { signature: Seq<char> },
}

impl DeepView for AnthropicContentBlockDelta {
    type V = BlockDeltaView;

    open spec fn deep_view(&self) -> BlockDeltaView {
        match self {
            AnthropicContentBlockDelta::TextDelta { text } => BlockDeltaView::TextDelta {
                text: text@,
            },
            AnthropicContentBlockDelta::InputJsonDelta { partial_json } =>
                BlockDeltaView::InputJsonDelta { partial_json: partial_json@ },
            AnthropicContentBlockDelta::ThinkingDelta { thinking } =>
                BlockDeltaView::ThinkingDelta { thinking: thinking@ },
            AnthropicContentBlockDelta::SignatureDelta { signature } =>
                BlockDeltaView::SignatureDelta { signature: signature@ },
        }
    }
}

/// How a message ended.
#[derive(Debug)]
pub struct AnthropicMessageDelta {
    pub stop_reason: Option<String>,
    pub stop_sequence: Option<String>,
}

/// What an [`AnthropicMessageDelta`] says.
pub struct MessageDeltaView {
    pub stop_reason: Option<Seq<char>>,
    pub stop_sequence: Option<Seq<char>>,
}

impl DeepView for AnthropicMessageDelta {
    type V = MessageDeltaView;

    open spec fn deep_view(&self) -> MessageDeltaView {
        MessageDeltaView {
            stop_reason: self.stop_reason.deep_view(),
            stop_sequence: self.stop_sequence.deep_view(),
        }
    }
}

} // verus!
