//! The request a turn starts from and the events a turn is reported in.
use crate::protocol::{ReasoningEffort, ResponseItem, ResponseItemView, TokenUsage};
use serde_json::Value;
use vstd::prelude::*;

verus! {

/// How a model should reason, and how much of it should be shown.
#[derive(Debug, Clone, PartialEq, Eq)]
pub struct Reasoning {
    pub effort: Option<ReasoningEffort>,
    pub summary: Option<String>,
    pub context: Option<String>,
}

/// The protocol-neutral request for one turn.
#[derive(Debug, Clone, PartialEq)]
pub struct ResponsesApiRequest {
    pub model: String,
    pub instructions: String,
    pub input: Vec<ResponseItem>,
    pub tools: Option<Vec<Value>>,
    pub tool_choice: String,
    pub parallel_tool_calls: bool,
    pub reasoning: Option<Reasoning>,
    pub store: bool,
    pub stream: bool,
    /// The extra parts the response should carry.
    pub extra_outputs: Vec<String>,
    pub service_tier: Option<String>,
    pub prompt_cache_key: Option<String>,
    pub text: Option<Value>,
    pub client_metadata: Option<Value>,
}

/// One event of a turn, whatever protocol it arrived by.
#[derive(Debug, Clone, PartialEq)]
pub enum ResponseEvent {
    Created,
    ServerModel(String),
    OutputItemAdded(ResponseItem),
    OutputItemDone(ResponseItem),
    OutputTextDelta(String),
    ToolCallInputDelta { item_id: String, call_id: Option<String>, delta: String },
    Completed { response_id: String, token_usage: Option<TokenUsage>, end_turn: Option<bool> },
}

/// What a [`ResponseEvent`] says.
pub enum ResponseEventView {
    Created,
    ServerModel(Seq<char>),
    OutputItemAdded(ResponseItemView),
    OutputItemDone(ResponseItemView),
    OutputTextDelta(Seq<char>),
    ToolCallInputDelta { item_id: Seq<char>, call_id: Option<Seq<char>>, delta: Seq<char> },
    Completed {
        response_id: Seq<char>,
        token_usage: Option<TokenUsage>,
        end_turn: Option<bool>,
    },
}

impl DeepView for ResponseEvent {
    type V = ResponseEventView;

    open spec fn deep_view(&self) -> ResponseEventView {
        match self {
            ResponseEvent::Created => ResponseEventView::Created,
            ResponseEvent::ServerModel(model) => ResponseEventView::ServerModel(model@),
            ResponseEvent::OutputItemAdded(item) => ResponseEventView::OutputItemAdded(
                item.deep_view(),
            ),
            ResponseEvent::OutputItemDone(item) => ResponseEventView::OutputItemDone(
                item.deep_view(),
            ),
            ResponseEvent::OutputTextDelta(text) => ResponseEventView::OutputTextDelta(text@),
            ResponseEvent::ToolCallInputDelta { item_id, call_id, delta } =>
                ResponseEventView::ToolCallInputDelta {
                    item_id: item_id@,
                    call_id: call_id.deep_view(),
                    delta: delta@,
                },
            ResponseEvent::Completed { response_id, token_usage, end_turn } =>
                ResponseEventView::Completed {
                    response_id: response_id@,
                    token_usage: *token_usage,
                    end_turn: *end_turn,
                },
        }
    }
}

} // verus!
