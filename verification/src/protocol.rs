//! The conversation model: the items a turn is made of, and what a turn costs.
use crate::json::{opt_json_view, JsonView};
use serde_json::Value;
use vstd::prelude::*;

verus! {

/// How closely the model should look at an image.
#[derive(Debug, Clone, Copy, PartialEq, Eq)]
pub enum ImageDetail {
    Auto,
    Low,
    High,
    Original,
}

impl DeepView for ImageDetail {
    type V = ImageDetail;

    open spec fn deep_view(&self) -> ImageDetail {
        *self
    }
}

/// One piece of a message.
#[derive(Debug, Clone, PartialEq, Eq)]
pub enum ContentItem {
    InputText { text: String },
    InputImage { image_url: String, detail: Option<ImageDetail> },
    OutputText { text: String },
}

/// What a [`ContentItem`] says.
pub enum ContentItemView {
    InputText { text: Seq<char> },
    InputImage { image_url: Seq<char>, detail: Option<ImageDetail> },
    OutputText { text: Seq<char> },
}

impl DeepView for ContentItem {
    type V = ContentItemView;

    open spec fn deep_view(&self) -> ContentItemView {
        match self {
            ContentItem::InputText { text } => ContentItemView::InputText { text: text@ },
            ContentItem::InputImage { image_url, detail } => ContentItemView::InputImage {
                image_url: image_url@,
                detail: *detail,
            },
            ContentItem::OutputText { text } => ContentItemView::OutputText { text: text@ },
        }
    }
}

/// One piece of a structured tool output.
#[derive(Debug, Clone, PartialEq, Eq)]
pub enum FunctionCallOutputContentItem {
    InputText { text: String },
    InputImage { image_url: String, detail: Option<ImageDetail> },
    EncryptedContent { encrypted_content: String },
}

/// What a [`FunctionCallOutputContentItem`] says.
pub enum OutputContentItemView {
    InputText { text: Seq<char> },
    InputImage { image_url: Seq<char>, detail: Option<ImageDetail> },
    EncryptedContent { encrypted_content: Seq<char> },
}

impl DeepView for FunctionCallOutputContentItem {
    type V = OutputContentItemView;

    open spec fn deep_view(&self) -> OutputContentItemView {
        match self {
            FunctionCallOutputContentItem::InputText { text } => OutputContentItemView::InputText {
                text: text@,
            },
            FunctionCallOutputContentItem::InputImage { image_url, detail } =>
                OutputContentItemView::InputImage { image_url: image_url@, detail: *detail },
            FunctionCallOutputContentItem::EncryptedContent { encrypted_content } =>
                OutputContentItemView::EncryptedContent { encrypted_content: encrypted_content@ },
        }
    }
}

/// The output of a tool call.
///
/// Structured output carries the plain text it reads as, where there is any:
/// how the pieces are rendered is up to whoever ran the tool.
#[derive(Debug, Clone, PartialEq, Eq)]
pub enum FunctionCallOutputBody {
    Text(String),
    ContentItems { items: Vec<FunctionCallOutputContentItem>, text: Option<String> },
}

/// What a [`FunctionCallOutputBody`] says.
pub enum OutputBodyView {
    Text(Seq<char>),
    ContentItems { items: Seq<OutputContentItemView>, text: Option<Seq<char>> },
}

impl OutputBodyView {
    /// The plain text that the output reads as.
    pub open spec fn text(self) -> Option<Seq<char>> {
        match self {
            OutputBodyView::Text(text) => Some(text),
            OutputBodyView::ContentItems { text, .. } => text,
        }
    }
}

impl DeepView for FunctionCallOutputBody {
    type V = OutputBodyView;

    open spec fn deep_view(&self) -> OutputBodyView {
        match self {
            FunctionCallOutputBody::Text(text) => OutputBodyView::Text(text@),
            FunctionCallOutputBody::ContentItems { items, text } => OutputBodyView::ContentItems {
                items: items.deep_view(),
                text: text.deep_view(),
            },
        }
    }
}

impl FunctionCallOutputBody {
    /// The plain text that the output reads as.
    pub fn to_text(&self) -> (r: Option<String>)
        ensures
            r.deep_view() == self.deep_view().text(),
    {
        match self {
            FunctionCallOutputBody::Text(text) => Some(text.clone()),
            FunctionCallOutputBody::ContentItems { text, .. } => text.clone(),
        }
    }
}

/// The output of a tool call, and whether the call worked, where that is known.
#[derive(Debug, Clone, PartialEq, Eq)]
pub struct FunctionCallOutputPayload {
    pub body: FunctionCallOutputBody,
    pub success: Option<bool>,
}

/// What a [`FunctionCallOutputPayload`] says.
pub struct OutputPayloadView {
    pub body: OutputBodyView,
    pub success: Option<bool>,
}

impl DeepView for FunctionCallOutputPayload {
    type V = OutputPayloadView;

    open spec fn deep_view(&self) -> OutputPayloadView {
        OutputPayloadView { body: self.body.deep_view(), success: self.success }
    }
}

impl FunctionCallOutputPayload {
    /// A plain text output.
    pub fn from_text(text: String) -> (r: Self)
        ensures
            r.deep_view() == (OutputPayloadView {
                body: OutputBodyView::Text(text@),
                success: None,
            }),
    {
        FunctionCallOutputPayload { body: FunctionCallOutputBody::Text(text), success: None }
    }
}

/// Which part of a turn a message belongs to.
#[derive(Debug, Clone, Copy, PartialEq, Eq)]
pub enum MessagePhase {
    Commentary,
    FinalAnswer,
}

/// One item of a conversation.
#[derive(Debug, Clone, PartialEq)]
#[allow(inconsistent_fields)]
pub enum ResponseItem {
    Message {
        id: Option<String>,
        role: String,
        content: Vec<ContentItem>,
        phase: Option<MessagePhase>,
        internal_chat_message_metadata_passthrough: Option<Value>,
    },
    Reasoning {
        id: Option<String>,
        summary: Vec<String>,
        content: Option<Vec<String>>,
        encrypted_content: Option<String>,
        internal_chat_message_metadata_passthrough: Option<Value>,
    },
    FunctionCall {
        id: Option<String>,
        name: String,
        namespace: Option<String>,
        arguments: String,
        call_id: String,
        internal_chat_message_metadata_passthrough: Option<Value>,
    },
    FunctionCallOutput {
        id: Option<String>,
        call_id: String,
        output: FunctionCallOutputPayload,
        internal_chat_message_metadata_passthrough: Option<Value>,
    },
    CustomToolCall {
        id: Option<String>,
        status: Option<String>,
        call_id: String,
        name: String,
        input: String,
        internal_chat_message_metadata_passthrough: Option<Value>,
    },
    CustomToolCallOutput {
        id: Option<String>,
        call_id: String,
        name: Option<String>,
        output: FunctionCallOutputPayload,
        internal_chat_message_metadata_passthrough: Option<Value>,
    },
    /// Anything else: shell calls, searches, generated images, compaction marks.
    Other,
}

/// What a [`ResponseItem`] says.
#[allow(inconsistent_fields)]
pub enum ResponseItemView {
    Message {
        id: Option<Seq<char>>,
        role: Seq<char>,
        content: Seq<ContentItemView>,
        phase: Option<MessagePhase>,
        metadata: Option<JsonView>,
    },
    Reasoning {
        id: Option<Seq<char>>,
        summary: Seq<Seq<char>>,
        content: Option<Seq<Seq<char>>>,
        encrypted_content: Option<Seq<char>>,
        metadata: Option<JsonView>,
    },
    FunctionCall {
        id: Option<Seq<char>>,
        name: Seq<char>,
        namespace: Option<Seq<char>>,
        arguments: Seq<char>,
        call_id: Seq<char>,
        metadata: Option<JsonView>,
    },
    FunctionCallOutput {
        id: Option<Seq<char>>,
        call_id: Seq<char>,
        output: OutputPayloadView,
        metadata: Option<JsonView>,
    },
    CustomToolCall {
        id: Option<Seq<char>>,
        status: Option<Seq<char>>,
        call_id: Seq<char>,
        name: Seq<char>,
        input: Seq<char>,
        metadata: Option<JsonView>,
    },
    CustomToolCallOutput {
        id: Option<Seq<char>>,
        call_id: Seq<char>,
        name: Option<Seq<char>>,
        output: OutputPayloadView,
        metadata: Option<JsonView>,
    },
    Other,
}

impl DeepView for ResponseItem {
    type V = ResponseItemView;

    open spec fn deep_view(&self) -> ResponseItemView {
        match self {
            ResponseItem::Message {
                id,
                role,
                content,
                phase,
                internal_chat_message_metadata_passthrough,
            } => ResponseItemView::Message {
                id: id.deep_view(),
                role: role@,
                content: content.deep_view(),
                phase: *phase,
                metadata: opt_json_view(*internal_chat_message_metadata_passthrough),
            },
            ResponseItem::Reasoning {
                id,
                summary,
                content,
                encrypted_content,
                internal_chat_message_metadata_passthrough,
            } => ResponseItemView::Reasoning {
                id: id.deep_view(),
                summary: summary.deep_view(),
                content: content.deep_view(),
                encrypted_content: encrypted_content.deep_view(),
                metadata: opt_json_view(*internal_chat_message_metadata_passthrough),
            },
            ResponseItem::FunctionCall {
                id,
                name,
                namespace,
                arguments,
                call_id,
                internal_chat_message_metadata_passthrough,
            } => ResponseItemView::FunctionCall {
                id: id.deep_view(),
                name: name@,
                namespace: namespace.deep_view(),
                arguments: arguments@,
                call_id: call_id@,
                metadata: opt_json_view(*internal_chat_message_metadata_passthrough),
            },
            ResponseItem::FunctionCallOutput {
                id,
                call_id,
                output,
                internal_chat_message_metadata_passthrough,
            } => ResponseItemView::FunctionCallOutput {
                id: id.deep_view(),
                call_id: call_id@,
                output: output.deep_view(),
                metadata: opt_json_view(*internal_chat_message_metadata_passthrough),
            },
            ResponseItem::CustomToolCall {
                id,
                status,
                call_id,
                name,
                input,
                internal_chat_message_metadata_passthrough,
            } => ResponseItemView::CustomToolCall {
                id: id.deep_view(),
                status: status.deep_view(),
                call_id: call_id@,
                name: name@,
                input: input@,
                metadata: opt_json_view(*internal_chat_message_metadata_passthrough),
            },
            ResponseItem::CustomToolCallOutput {
                id,
                call_id,
                name,
                output,
                internal_chat_message_metadata_passthrough,
            } => ResponseItemView::CustomToolCallOutput {
                id: id.deep_view(),
                call_id: call_id@,
                name: name.deep_view(),
                output: output.deep_view(),
                metadata: opt_json_view(*internal_chat_message_metadata_passthrough),
            },
            ResponseItem::Other => ResponseItemView::Other,
        }
    }
}

/// How hard a model should think.
#[derive(Debug, Clone, PartialEq, Eq)]
pub enum ReasoningEffort {
    /// No reasoning at all.
    Off,
    Minimal,
    Low,
    Medium,
    High,
    XHigh,
    Ultra,
    Custom(String),
}

/// What a turn cost, in tokens.
#[derive(Debug, Clone, Copy, PartialEq, Eq)]
pub struct TokenUsage {
    pub input_tokens: i64,
    pub cached_input_tokens: i64,
    pub output_tokens: i64,
    pub reasoning_output_tokens: i64,
    pub total_tokens: i64,
}

} // verus!
