//! Server-sent event streams, turned into [`ResponseEvent`]s.
use crate::common::{ResponseEvent, ResponseEventView};
use crate::error::{ApiError, ApiErrorView};
use crate::headers::{header_lines, header_text, is_lower_header_name, text_header};
use crate::protocol::{ContentItem, ContentItemView, ResponseItem, ResponseItemView};
use http::HeaderMap;
use vstd::prelude::*;

pub mod chat_completions;
pub mod messages;

verus! {

/// What the receiver of a stream is told: an event, or why there will be none.
pub open spec fn outcome_view(outcome: Result<ResponseEvent, ApiError>) -> Result<
    ResponseEventView,
    ApiErrorView,
> {
    match outcome {
        Ok(event) => Ok(event.deep_view()),
        Err(error) => Err(error.deep_view()),
    }
}

/// What the receiver of a stream is told, in order.
pub open spec fn outcome_views(outcomes: Seq<Result<ResponseEvent, ApiError>>) -> Seq<
    Result<ResponseEventView, ApiErrorView>,
> {
    Seq::new(outcomes.len(), |i: int| outcome_view(outcomes[i]))
}

/// What to do after a poll of a stream: tell the receiver these outcomes, in
/// order, and stop where the stream is finished.
pub struct StreamStep {
    pub outcomes: Vec<Result<ResponseEvent, ApiError>>,
    pub finished: bool,
}

/// What a [`StreamStep`] says.
pub struct StepView {
    pub outcomes: Seq<Result<ResponseEventView, ApiErrorView>>,
    pub finished: bool,
}

impl DeepView for StreamStep {
    type V = StepView;

    open spec fn deep_view(&self) -> StepView {
        StepView { outcomes: outcome_views(self.outcomes@), finished: self.finished }
    }
}

/// A step that tells nothing and goes on.
pub open spec fn silent_step() -> StepView {
    StepView { outcomes: Seq::empty(), finished: false }
}

/// A step that tells of a failure of the stream and stops.
pub open spec fn failed_step(message: Seq<char>) -> StepView {
    StepView { outcomes: seq![Err(ApiErrorView::Stream(message))], finished: true }
}

/// A step that tells of events.
pub open spec fn told(events: Seq<ResponseEventView>, finished: bool) -> StepView {
    StepView {
        outcomes: events.map_values(
            |event: ResponseEventView| Ok::<ResponseEventView, ApiErrorView>(event),
        ),
        finished,
    }
}

/// Whether an outcome is the last one: the end of the turn, or a failure.
pub open spec fn is_last_word(outcome: Result<ResponseEventView, ApiErrorView>) -> bool {
    match outcome {
        Ok(event) => event is Completed,
        Err(_) => true,
    }
}

/// Whether the stream is finished exactly where the end of the turn or a failure was
/// told, and that once, as the last thing.
pub open spec fn has_one_last_word(step: StepView) -> bool {
    &&& step.finished ==> step.outcomes.len() > 0
    &&& forall|i: int|
        0 <= i < step.outcomes.len() ==> (is_last_word(#[trigger] step.outcomes[i]) <==> (
        step.finished && i == step.outcomes.len() - 1))
}

/// The step that tells nothing and goes on.
pub(crate) fn go_on() -> (r: StreamStep)
    ensures
        r.deep_view() == silent_step(),
{
    let r = StreamStep { outcomes: Vec::new(), finished: false };
    assert(r.deep_view().outcomes =~= Seq::empty());
    r
}

/// The step that tells of a failure of the stream and stops.
pub(crate) fn fail(message: String) -> (r: StreamStep)
    ensures
        r.deep_view() == failed_step(message@),
{
    let mut outcomes: Vec<Result<ResponseEvent, ApiError>> = Vec::new();
    outcomes.push(Err(ApiError::Stream(message)));
    let r = StreamStep { outcomes, finished: true };
    assert(r.deep_view().outcomes =~= failed_step(message@).outcomes);
    r
}

/// A function call item with these parts and nothing else.
pub open spec fn call_item(
    call_id: Seq<char>,
    name: Seq<char>,
    arguments: Seq<char>,
) -> ResponseItemView {
    ResponseItemView::FunctionCall {
        id: None,
        name,
        namespace: None,
        arguments,
        call_id,
        metadata: None,
    }
}

/// An assistant message with this text and nothing else.
pub open spec fn text_item(text: Seq<char>) -> ResponseItemView {
    ResponseItemView::Message {
        id: None,
        role: "assistant"@,
        content: seq![ContentItemView::OutputText { text }],
        phase: None,
        metadata: None,
    }
}

/// An item for an assistant message with this text.
pub(crate) fn message_item(text: String) -> (r: ResponseItem)
    ensures
        r.deep_view() == text_item(text@),
{
    let mut content: Vec<ContentItem> = Vec::new();
    content.push(ContentItem::OutputText { text });
    assert(content.deep_view() =~= seq![ContentItemView::OutputText { text: text@ }]);
    ResponseItem::Message {
        id: None,
        role: "assistant".to_string(),
        content,
        phase: None,
        internal_chat_message_metadata_passthrough: None,
    }
}

/// An item for a function call.
pub(crate) fn function_call_item(
    call_id: String,
    name: String,
    arguments: String,
) -> (r: ResponseItem)
    ensures
        r.deep_view() == call_item(call_id@, name@, arguments@),
{
    ResponseItem::FunctionCall {
        id: None,
        name,
        namespace: None,
        arguments,
        call_id,
        internal_chat_message_metadata_passthrough: None,
    }
}

/// What the response headers of a stream tell about it.
#[derive(Debug, Clone, PartialEq, Eq)]
pub struct StreamHeaders {
    /// The server's id for the request.
    pub upstream_request_id: Option<String>,
    /// The state that ties this turn to the next request.
    pub turn_state: Option<String>,
}

/// Reads what the response headers tell about a stream.
pub fn stream_headers(headers: &HeaderMap) -> (r: StreamHeaders)
    ensures
        r.upstream_request_id.deep_view() == header_text(header_lines(*headers), "request-id"@),
        r.turn_state.deep_view() == header_text(header_lines(*headers), "x-codex-turn-state"@),
{
    proof {
        reveal_strlit("request-id");
        reveal_strlit("x-codex-turn-state");
        assert(is_lower_header_name("request-id"@));
        assert(is_lower_header_name("x-codex-turn-state"@));
    }
    let upstream_request_id = match text_header(headers, "request-id") {
        Some(text) => Some(text.to_string()),
        None => None,
    };
    let turn_state = match text_header(headers, "x-codex-turn-state") {
        Some(text) => Some(text.to_string()),
        None => None,
    };
    StreamHeaders { upstream_request_id, turn_state }
}

} // verus!
