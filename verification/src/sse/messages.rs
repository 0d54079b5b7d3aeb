//! Turns an Anthropic Messages stream into [`ResponseEvent`]s.
//!
//! A state machine keeps track of where content blocks begin and end and puts
//! the fragments of texts and tool calls together.
use crate::anthropic::{
    AnthropicContentBlockDelta, AnthropicResponseContentBlock, AnthropicStreamEvent,
    AnthropicUsage, BlockDeltaView, ResponseBlockView, ResponseMessageView, StreamEventView,
};
use crate::common::{ResponseEvent, ResponseEventView};
use crate::error::{ApiError, ApiErrorView};
use crate::protocol::{ContentItemView, ResponseItemView, TokenUsage};
use crate::sse::{
    call_item, fail, failed_step, function_call_item, go_on, has_one_last_word, is_last_word,
    message_item, outcome_views, silent_step, text_item, told, StepView, StreamStep,
};
use crate::text::{joined, same_text};
use vstd::prelude::*;
use vstd::string::StringExecFns;

verus! {

/// What is known of a turn part way through its stream.
#[derive(Debug)]
pub struct MessagesStreamState {
    /// The id from the most recent `message_start`.
    pub response_id: Option<String>,
    /// The model from `message_start`.
    pub model: Option<String>,
    /// The usage accumulated from `message_start` and `message_delta`.
    pub usage: Option<AnthropicUsage>,
    /// The stop reason from `message_delta`.
    pub stop_reason: Option<String>,
    /// The tool call that is being put together.
    pub active_tool_call: Option<ToolCallState>,
    /// The text of the current text block so far.
    pub current_text: String,
    /// Whether anything but a ping has come.
    pub saw_non_ping: bool,
}

/// A tool call that is being put together.
#[derive(Debug)]
pub struct ToolCallState {
    /// The content block that the call comes in.
    pub index: i64,
    pub call_id: String,
    pub name: String,
    /// The arguments so far.
    pub partial_json: String,
}

/// What a [`MessagesStreamState`] says.
pub struct MessagesStateView {
    pub response_id: Option<Seq<char>>,
    pub model: Option<Seq<char>>,
    pub usage: Option<AnthropicUsage>,
    pub stop_reason: Option<Seq<char>>,
    pub active_tool_call: Option<ToolCallStateView>,
    pub current_text: Seq<char>,
    pub saw_non_ping: bool,
}

/// What a [`ToolCallState`] says.
pub struct ToolCallStateView {
    pub index: i64,
    pub call_id: Seq<char>,
    pub name: Seq<char>,
    pub partial_json: Seq<char>,
}

impl DeepView for ToolCallState {
    type V = ToolCallStateView;

    open spec fn deep_view(&self) -> ToolCallStateView {
        ToolCallStateView {
            index: self.index,
            call_id: self.call_id@,
            name: self.name@,
            partial_json: self.partial_json@,
        }
    }
}

impl DeepView for MessagesStreamState {
    type V = MessagesStateView;

    open spec fn deep_view(&self) -> MessagesStateView {
        MessagesStateView {
            response_id: self.response_id.deep_view(),
            model: self.model.deep_view(),
            usage: self.usage,
            stop_reason: self.stop_reason.deep_view(),
            active_tool_call: self.active_tool_call.deep_view(),
            current_text: self.current_text@,
            saw_non_ping: self.saw_non_ping,
        }
    }
}

/// The state in which a stream starts.
pub open spec fn fresh_messages_state() -> MessagesStateView {
    MessagesStateView {
        response_id: None,
        model: None,
        usage: None,
        stop_reason: None,
        active_tool_call: None,
        current_text: Seq::empty(),
        saw_non_ping: false,
    }
}

impl Default for MessagesStreamState {
    fn default() -> (r: Self)
        ensures
            r.deep_view() == fresh_messages_state(),
    {
        MessagesStreamState {
            response_id: None,
            model: None,
            usage: None,
            stop_reason: None,
            active_tool_call: None,
            current_text: String::new(),
            saw_non_ping: false,
        }
    }
}

// ── What each event means ────────────────────────────────────────────────────

/// A token count that may not have been reported.
pub open spec fn count_or_zero(count: Option<i64>) -> i64 {
    match count {
        Some(n) => n,
        None => 0,
    }
}

/// The sum of the tokens that went in and came out.
pub open spec fn total_tokens(usage: AnthropicUsage) -> int {
    count_or_zero(usage.input_tokens) + count_or_zero(usage.output_tokens)
}

/// Whether the sum of the tokens fits its field.
pub open spec fn total_fits(usage: Option<AnthropicUsage>) -> bool {
    match usage {
        Some(u) => i64::MIN <= total_tokens(u) <= i64::MAX,
        None => true,
    }
}

/// What a turn cost, by the usage that was reported.
pub open spec fn messages_usage(usage: AnthropicUsage) -> TokenUsage {
    TokenUsage {
        input_tokens: count_or_zero(usage.input_tokens),
        cached_input_tokens: count_or_zero(usage.cache_read_input_tokens),
        output_tokens: count_or_zero(usage.output_tokens),
        reasoning_output_tokens: 0,
        total_tokens: total_tokens(usage) as i64,
    }
}

/// A count that is reported, or the one held where none is.
pub open spec fn newer_count(held: Option<i64>, reported: Option<i64>) -> Option<i64> {
    match reported {
        Some(n) => Some(n),
        None => held,
    }
}

/// Usage with a report added: each count that is reported replaces the one held, and
/// each that is left out is kept.
pub open spec fn accumulated(
    held: Option<AnthropicUsage>,
    reported: AnthropicUsage,
) -> AnthropicUsage {
    match held {
        Some(usage) => AnthropicUsage {
            input_tokens: newer_count(usage.input_tokens, reported.input_tokens),
            output_tokens: newer_count(usage.output_tokens, reported.output_tokens),
            cache_read_input_tokens: newer_count(
                usage.cache_read_input_tokens,
                reported.cache_read_input_tokens,
            ),
            cache_creation_input_tokens: newer_count(
                usage.cache_creation_input_tokens,
                reported.cache_creation_input_tokens,
            ),
        },
        None => reported,
    }
}

/// Whether a stop reason means that the model ended its turn by itself.
pub open spec fn stop_ends_turn(stop_reason: Seq<char>) -> bool {
    stop_reason == "end_turn"@ || stop_reason == "stop_sequence"@
}

impl MessagesStateView {
    /// The state once something but a ping has come.
    pub open spec fn heard(self) -> MessagesStateView {
        MessagesStateView { saw_non_ping: true, ..self }
    }

    /// A new message begins. Its model is announced; a message that names none
    /// keeps the model named before.
    pub open spec fn on_message_start(self, message: ResponseMessageView) -> (
        MessagesStateView,
        Option<ResponseEventView>,
    ) {
        let model = match message.model {
            Some(model) => Some(model),
            None => self.model,
        };
        (
            MessagesStateView {
                response_id: Some(message.id),
                model,
                usage: message.usage,
                ..self.heard()
            },
            match model {
                Some(model) => Some(ResponseEventView::ServerModel(model)),
                None => None,
            },
        )
    }

    /// A content block begins: a text starts over, and a tool call is announced.
    pub open spec fn on_block_start(self, index: i64, block: ResponseBlockView) -> (
        MessagesStateView,
        Option<ResponseEventView>,
    ) {
        match block {
            ResponseBlockView::Text { text } => (
                MessagesStateView { current_text: text, ..self.heard() },
                None,
            ),
            ResponseBlockView::ToolUse { id, name, .. } => (
                MessagesStateView {
                    active_tool_call: Some(
                        ToolCallStateView {
                            index,
                            call_id: id,
                            name,
                            partial_json: Seq::empty(),
                        },
                    ),
                    ..self.heard()
                },
                Some(ResponseEventView::OutputItemAdded(call_item(id, name, Seq::empty()))),
            ),
            _ => (self.heard(), None),
        }
    }

    /// A fragment comes: it is passed on, and added to the text or to the tool
    /// call that its block belongs to.
    pub open spec fn on_block_delta(self, index: i64, delta: BlockDeltaView) -> (
        MessagesStateView,
        Option<ResponseEventView>,
    ) {
        match delta {
            BlockDeltaView::TextDelta { text } => (
                MessagesStateView { current_text: self.current_text + text, ..self.heard() },
                Some(ResponseEventView::OutputTextDelta(text)),
            ),
            BlockDeltaView::InputJsonDelta { partial_json } => match self.active_tool_call {
                Some(call) if call.index == index => (
                    MessagesStateView {
                        active_tool_call: Some(
                            ToolCallStateView {
                                partial_json: call.partial_json + partial_json,
                                ..call
                            },
                        ),
                        ..self.heard()
                    },
                    Some(
                        ResponseEventView::ToolCallInputDelta {
                            item_id: call.call_id,
                            call_id: Some(call.call_id),
                            delta: partial_json,
                        },
                    ),
                ),
                _ => (self.heard(), None),
            },
            _ => (self.heard(), None),
        }
    }

    /// A content block ends. A tool call that is being put together ends with
    /// any block, and is complete where it is the one that ended; without one,
    /// the text so far is complete.
    pub open spec fn on_block_stop(self, index: i64) -> (
        MessagesStateView,
        Option<ResponseEventView>,
    ) {
        match self.active_tool_call {
            Some(call) => (
                MessagesStateView { active_tool_call: None, ..self.heard() },
                if call.index == index {
                    Some(
                        ResponseEventView::OutputItemDone(
                            call_item(call.call_id, call.name, call.partial_json),
                        ),
                    )
                } else {
                    None
                },
            ),
            None => if self.current_text.len() > 0 {
                (
                    MessagesStateView { current_text: Seq::empty(), ..self.heard() },
                    Some(ResponseEventView::OutputItemDone(text_item(self.current_text))),
                )
            } else {
                (self.heard(), None)
            },
        }
    }

    /// The event that reports the end of the turn.
    pub open spec fn completion(self) -> ResponseEventView {
        ResponseEventView::Completed {
            response_id: match self.response_id {
                Some(id) => id,
                None => Seq::empty(),
            },
            token_usage: match self.usage {
                Some(usage) => Some(messages_usage(usage)),
                None => None,
            },
            end_turn: match self.stop_reason {
                Some(reason) => Some(stop_ends_turn(reason)),
                None => None,
            },
        }
    }

    /// What an event does to the state, and what it is reported as.
    pub open spec fn on_event(self, event: StreamEventView) -> (
        MessagesStateView,
        Option<ResponseEventView>,
    ) {
        match event {
            StreamEventView::Ping => (self, None),
            StreamEventView::MessageStart { message } => self.on_message_start(message),
            StreamEventView::ContentBlockStart { index, content_block } => self.on_block_start(
                index,
                content_block,
            ),
            StreamEventView::ContentBlockDelta { index, delta } => self.on_block_delta(
                index,
                delta,
            ),
            StreamEventView::ContentBlockStop { index } => self.on_block_stop(index),
            StreamEventView::MessageDelta { delta, usage } => (
                MessagesStateView {
                    stop_reason: delta.stop_reason,
                    usage: Some(accumulated(self.usage, usage)),
                    ..self.heard()
                },
                None,
            ),
            StreamEventView::MessageStop => (
                MessagesStateView { response_id: None, usage: None, ..self.heard() },
                Some(self.completion()),
            ),
        }
    }
}

// ── The state machine ────────────────────────────────────────────────────────

/// What a turn cost, by the usage that was reported.
fn usage_of(usage: &AnthropicUsage) -> (r: TokenUsage)
    requires
        total_fits(Some(*usage)),
    ensures
        r == messages_usage(*usage),
{
    let input_tokens: i64 = usage.input_tokens.unwrap_or(0);
    let output_tokens: i64 = usage.output_tokens.unwrap_or(0);
    TokenUsage {
        input_tokens,
        cached_input_tokens: usage.cache_read_input_tokens.unwrap_or(0),
        output_tokens,
        reasoning_output_tokens: 0,
        total_tokens: input_tokens + output_tokens,
    }
}

/// A count that is reported, or the one held where none is.
fn newer(held: Option<i64>, reported: Option<i64>) -> (r: Option<i64>)
    ensures
        r == newer_count(held, reported),
{
    match reported {
        Some(n) => Some(n),
        None => held,
    }
}

/// Adds a report to the usage held.
fn add_report(held: Option<AnthropicUsage>, reported: AnthropicUsage) -> (r: AnthropicUsage)
    ensures
        r == accumulated(held, reported),
{
    match held {
        Some(usage) => AnthropicUsage {
            input_tokens: newer(usage.input_tokens, reported.input_tokens),
            output_tokens: newer(usage.output_tokens, reported.output_tokens),
            cache_read_input_tokens: newer(
                usage.cache_read_input_tokens,
                reported.cache_read_input_tokens,
            ),
            cache_creation_input_tokens: newer(
                usage.cache_creation_input_tokens,
                reported.cache_creation_input_tokens,
            ),
        },
        None => reported,
    }
}

/// Processes a single event of a Messages stream. No event is refused.
pub fn process_messages_event(
    event: AnthropicStreamEvent,
    state: &mut MessagesStreamState,
) -> (r: Result<Option<ResponseEvent>, ApiError>)
    requires
        event is MessageStop ==> total_fits(old(state).usage),
    ensures
        r is Ok,
        (final(state).deep_view(), r->Ok_0.deep_view()) == old(state).deep_view().on_event(
            event.deep_view(),
        ),
{
    match event {
        AnthropicStreamEvent::Ping => Ok(None),
        AnthropicStreamEvent::MessageStart { message } => {
            state.saw_non_ping = true;
            state.response_id = Some(message.id);
            if let Some(model) = message.model {
                state.model = Some(model);
            }
            state.usage = message.usage;
            match &state.model {
                Some(model) => Ok(Some(ResponseEvent::ServerModel(model.clone()))),
                None => Ok(None),
            }
        },
        AnthropicStreamEvent::ContentBlockStart { index, content_block } => {
            state.saw_non_ping = true;
            match content_block {
                AnthropicResponseContentBlock::Text { text } => {
                    state.current_text = text;
                    Ok(None)
                },
                AnthropicResponseContentBlock::ToolUse { id, name, .. } => {
                    state.active_tool_call = Some(
                        ToolCallState {
                            index,
                            call_id: id.clone(),
                            name: name.clone(),
                            partial_json: String::new(),
                        },
                    );
                    Ok(
                        Some(
                            ResponseEvent::OutputItemAdded(
                                function_call_item(id, name, String::new()),
                            ),
                        ),
                    )
                },
                // Thinking is not reported.
                _ => Ok(None),
            }
        },
        AnthropicStreamEvent::ContentBlockDelta { index, delta } => {
            state.saw_non_ping = true;
            match delta {
                AnthropicContentBlockDelta::TextDelta { text } => {
                    state.current_text.append(text.as_str());
                    Ok(Some(ResponseEvent::OutputTextDelta(text)))
                },
                AnthropicContentBlockDelta::InputJsonDelta { partial_json } => {
                    match state.active_tool_call.take() {
                        Some(mut call) => {
                            if call.index == index {
                                call.partial_json.append(partial_json.as_str());
                                let event = ResponseEvent::ToolCallInputDelta {
                                    item_id: call.call_id.clone(),
                                    call_id: Some(call.call_id.clone()),
                                    delta: partial_json,
                                };
                                state.active_tool_call = Some(call);
                                Ok(Some(event))
                            } else {
                                state.active_tool_call = Some(call);
                                Ok(None)
                            }
                        },
                        None => Ok(None),
                    }
                },
                _ => Ok(None),
            }
        },
        AnthropicStreamEvent::ContentBlockStop { index } => {
            state.saw_non_ping = true;
            match state.active_tool_call.take() {
                Some(call) => {
                    if call.index == index {
                        Ok(
                            Some(
                                ResponseEvent::OutputItemDone(
                                    function_call_item(call.call_id, call.name, call.partial_json),
                                ),
                            ),
                        )
                    } else {
                        Ok(None)
                    }
                },
                None => {
                    if state.current_text.as_str().is_empty() {
                        Ok(None)
                    } else {
                        let mut text = String::new();
                        std::mem::swap(&mut text, &mut state.current_text);
                        Ok(Some(ResponseEvent::OutputItemDone(message_item(text))))
                    }
                },
            }
        },
        AnthropicStreamEvent::MessageDelta { delta, usage } => {
            state.saw_non_ping = true;
            state.stop_reason = delta.stop_reason;
            state.usage = Some(add_report(state.usage, usage));
            Ok(None)
        },
        AnthropicStreamEvent::MessageStop => {
            state.saw_non_ping = true;
            let response_id = match state.response_id.take() {
                Some(id) => id,
                None => String::new(),
            };
            let token_usage = match state.usage.take() {
                Some(usage) => Some(usage_of(&usage)),
                None => None,
            };
            let end_turn = match &state.stop_reason {
                Some(reason) => Some(
                    same_text(reason.as_str(), "end_turn") || same_text(
                        reason.as_str(),
                        "stop_sequence",
                    ),
                ),
                None => None,
            };
            Ok(Some(ResponseEvent::Completed { response_id, token_usage, end_turn }))
        },
    }
}

// ── The stream ───────────────────────────────────────────────────────────────

/// What came of waiting for the next event of a Messages stream.
#[derive(Debug)]
pub enum MessagesPoll {
    /// An event came.
    Event(AnthropicStreamEvent),
    /// Something came that is not an event.
    Unreadable,
    /// The stream broke.
    Failed(String),
    /// The stream ended.
    Closed,
    /// Nothing came for too long.
    IdleTimeout,
}

/// What a [`MessagesPoll`] says.
pub enum MessagesPollView {
    Event(StreamEventView),
    Unreadable,
    Failed(Seq<char>),
    Closed,
    IdleTimeout,
}

impl DeepView for MessagesPoll {
    type V = MessagesPollView;

    open spec fn deep_view(&self) -> MessagesPollView {
        match self {
            MessagesPoll::Event(event) => MessagesPollView::Event(event.deep_view()),
            MessagesPoll::Unreadable => MessagesPollView::Unreadable,
            MessagesPoll::Failed(message) => MessagesPollView::Failed(message@),
            MessagesPoll::Closed => MessagesPollView::Closed,
            MessagesPoll::IdleTimeout => MessagesPollView::IdleTimeout,
        }
    }
}

/// A step that reports an event, where there is one. The end of the turn is the
/// end of the stream.
pub open spec fn report(event: Option<ResponseEventView>) -> StepView {
    match event {
        Some(event) => StepView { outcomes: seq![Ok(event)], finished: event is Completed },
        None => silent_step(),
    }
}

impl MessagesStateView {
    /// What a poll of the stream does to the state, and what to do about it.
    pub open spec fn on_poll(self, poll: MessagesPollView) -> (MessagesStateView, StepView) {
        match poll {
            MessagesPollView::Event(event) => (
                self.on_event(event).0,
                report(self.on_event(event).1),
            ),
            MessagesPollView::Unreadable => (self, silent_step()),
            MessagesPollView::Failed(message) => (self, failed_step(message)),
            MessagesPollView::Closed => (
                self,
                failed_step("messages stream closed before message_stop"@),
            ),
            MessagesPollView::IdleTimeout => (
                self,
                failed_step("idle timeout waiting for Messages SSE"@),
            ),
        }
    }
}

/// Whether the end of the turn can be reported: whether the sum of the tokens
/// fits its field.
pub fn total_tokens_fit(state: &MessagesStreamState) -> (r: bool)
    ensures
        r == total_fits(state.usage),
{
    match &state.usage {
        Some(usage) => {
            let input_tokens: i64 = usage.input_tokens.unwrap_or(0);
            let output_tokens: i64 = usage.output_tokens.unwrap_or(0);
            input_tokens.checked_add(output_tokens).is_some()
        },
        None => true,
    }
}

/// Decides what to do after a poll of a Messages stream.
pub fn messages_stream_step(poll: MessagesPoll, state: &mut MessagesStreamState) -> (r: StreamStep)
    requires
        poll matches MessagesPoll::Event(event) && event is MessageStop ==> total_fits(
            old(state).usage,
        ),
    ensures
        (final(state).deep_view(), r.deep_view()) == old(state).deep_view().on_poll(
            poll.deep_view(),
        ),
{
    match poll {
        MessagesPoll::Event(event) => {
            match process_messages_event(event, state) {
                Ok(Some(event)) => {
                    let finished = match &event {
                        ResponseEvent::Completed { .. } => true,
                        _ => false,
                    };
                    let mut outcomes: Vec<Result<ResponseEvent, ApiError>> = Vec::new();
                    outcomes.push(Ok(event));
                    assert(outcome_views(outcomes@) =~= seq![Ok(event.deep_view())]);
                    StreamStep { outcomes, finished }
                },
                _ => go_on(),
            }
        },
        MessagesPoll::Unreadable => go_on(),
        MessagesPoll::Failed(message) => fail(message),
        MessagesPoll::Closed => fail("messages stream closed before message_stop".to_string()),
        MessagesPoll::IdleTimeout => fail("idle timeout waiting for Messages SSE".to_string()),
    }
}

// ── Laws ─────────────────────────────────────────────────────────────────────

/// The events that a stream is reported as, and the state it leaves.
pub open spec fn run_messages(
    state: MessagesStateView,
    events: Seq<StreamEventView>,
) -> (MessagesStateView, Seq<ResponseEventView>)
    decreases events.len(),
{
    if events.len() == 0 {
        (state, Seq::empty())
    } else {
        let before = run_messages(state, events.drop_last());
        let step = before.0.on_event(events.last());
        (
            step.0,
            match step.1 {
                Some(event) => before.1.push(event),
                None => before.1,
            },
        )
    }
}

proof fn lemma_run_in_parts(
    state: MessagesStateView,
    first: Seq<StreamEventView>,
    second: Seq<StreamEventView>,
)
    ensures
        ({
            let middle = run_messages(state, first);
            let end = run_messages(middle.0, second);
            run_messages(state, first + second) == (end.0, middle.1 + end.1)
        }),
    decreases second.len(),
{
    let middle = run_messages(state, first);
    if second.len() == 0 {
        assert(first + second =~= first);
        assert(middle.1 + Seq::empty() =~= middle.1);
    } else {
        lemma_run_in_parts(state, first, second.drop_last());
        assert((first + second).drop_last() =~= first + second.drop_last());
        let end = run_messages(middle.0, second);
        assert(run_messages(state, first + second).1 =~= middle.1 + end.1);
    }
}

/// Only the end of a message completes a turn, and it always does.
pub proof fn only_message_stop_completes(state: MessagesStateView, event: StreamEventView)
    ensures
        (state.on_event(event).1 matches Some(e) && e is Completed) <==> event is MessageStop,
{
}

/// A stream tells its receiver of at most one thing at a time, and it is over as
/// soon as it has told of the end of the turn or of a failure.
pub proof fn messages_stream_ends_with_its_last_word(
    state: MessagesStateView,
    poll: MessagesPollView,
)
    ensures
        state.on_poll(poll).1.outcomes.len() <= 1,
        has_one_last_word(state.on_poll(poll).1),
{
}

/// What the receiver is told over a run of polls, and the state they leave. A stream
/// that is finished is not polled again.
pub open spec fn run_messages_polls(
    state: MessagesStateView,
    polls: Seq<MessagesPollView>,
) -> (MessagesStateView, StepView)
    decreases polls.len(),
{
    if polls.len() == 0 {
        (state, silent_step())
    } else {
        let before = run_messages_polls(state, polls.drop_last());
        if before.1.finished {
            before
        } else {
            let step = before.0.on_poll(polls.last());
            (
                step.0,
                StepView {
                    outcomes: before.1.outcomes + step.1.outcomes,
                    finished: step.1.finished,
                },
            )
        }
    }
}

/// However a stream goes, over the whole of it the receiver is told of the end of the
/// turn or of a failure once at most, and of nothing after that; and the stream is over
/// exactly then.
pub proof fn messages_run_has_one_last_word(
    state: MessagesStateView,
    polls: Seq<MessagesPollView>,
)
    ensures
        has_one_last_word(run_messages_polls(state, polls).1),
    decreases polls.len(),
{
    if polls.len() > 0 {
        messages_run_has_one_last_word(state, polls.drop_last());
        let before = run_messages_polls(state, polls.drop_last());
        if !before.1.finished {
            messages_stream_ends_with_its_last_word(before.0, polls.last());
            let step = before.0.on_poll(polls.last()).1;
            let whole = run_messages_polls(state, polls).1;
            assert forall|i: int| 0 <= i < whole.outcomes.len() implies (is_last_word(
                #[trigger] whole.outcomes[i],
            ) <==> (whole.finished && i == whole.outcomes.len() - 1)) by {
                if i < before.1.outcomes.len() {
                    assert(whole.outcomes[i] == before.1.outcomes[i]);
                    assert(!is_last_word(before.1.outcomes[i]));
                } else {
                    assert(whole.outcomes[i] == step.outcomes[i - before.1.outcomes.len()]);
                }
            }
        }
    }
}

proof fn lemma_messages_run_over(
    state: MessagesStateView,
    polls: Seq<MessagesPollView>,
    more: Seq<MessagesPollView>,
)
    requires
        run_messages_polls(state, polls).1.finished,
    ensures
        run_messages_polls(state, polls + more) == run_messages_polls(state, polls),
    decreases more.len(),
{
    if more.len() == 0 {
        assert(polls + more =~= polls);
    } else {
        lemma_messages_run_over(state, polls, more.drop_last());
        assert((polls + more).drop_last() =~= polls + more.drop_last());
    }
}

/// Whether a poll leaves the stream open: it brought an event other than the end of the
/// message, or something that is no event.
pub open spec fn leaves_stream_open(poll: MessagesPollView) -> bool {
    match poll {
        MessagesPollView::Event(event) => !(event is MessageStop),
        MessagesPollView::Unreadable => true,
        _ => false,
    }
}

/// The events that polls brought, in order.
pub open spec fn events_in(polls: Seq<MessagesPollView>) -> Seq<StreamEventView>
    decreases polls.len(),
{
    if polls.len() == 0 {
        Seq::empty()
    } else {
        let before = events_in(polls.drop_last());
        match polls.last() {
            MessagesPollView::Event(event) => before.push(event),
            _ => before,
        }
    }
}

proof fn lemma_open_run(state: MessagesStateView, polls: Seq<MessagesPollView>)
    requires
        forall|i: int| 0 <= i < polls.len() ==> leaves_stream_open(#[trigger] polls[i]),
    ensures
        run_messages_polls(state, polls) == (
            run_messages(state, events_in(polls)).0,
            told(run_messages(state, events_in(polls)).1, false),
        ),
    decreases polls.len(),
{
    let run = run_messages(state, events_in(polls));
    if polls.len() == 0 {
        assert(told(run.1, false).outcomes =~= Seq::empty());
    } else {
        let earlier = polls.drop_last();
        assert forall|i: int| 0 <= i < earlier.len() implies leaves_stream_open(
            #[trigger] earlier[i],
        ) by {
            assert(leaves_stream_open(polls[i]));
        }
        assert(leaves_stream_open(polls[polls.len() - 1]));
        lemma_open_run(state, earlier);
        if let MessagesPollView::Event(event) = polls.last() {
            let before = run_messages(state, events_in(earlier));
            only_message_stop_completes(before.0, event);
            assert(events_in(polls).drop_last() =~= events_in(earlier));
        }
        assert(run_messages_polls(state, polls).1.outcomes =~= told(run.1, false).outcomes);
    }
}

/// As long as a stream is open, the receiver has been told what its events are reported
/// as, in order. What ends the stream is told after that, and nothing after it.
pub proof fn messages_stream_tells_events_then_its_end(
    state: MessagesStateView,
    polls: Seq<MessagesPollView>,
    end: MessagesPollView,
    more: Seq<MessagesPollView>,
)
    requires
        forall|i: int| 0 <= i < polls.len() ==> leaves_stream_open(#[trigger] polls[i]),
        !leaves_stream_open(end),
    ensures
        ({
            let read = run_messages(state, events_in(polls));
            let last = read.0.on_poll(end);
            &&& run_messages_polls(state, polls) == (read.0, told(read.1, false))
            &&& run_messages_polls(state, polls.push(end) + more) == (
                last.0,
                StepView {
                    outcomes: told(read.1, false).outcomes + last.1.outcomes,
                    finished: true,
                },
            )
        }),
{
    lemma_open_run(state, polls);
    assert(polls.push(end).drop_last() =~= polls);
    lemma_messages_run_over(state, polls.push(end), more);
}

/// After any events and then the end of the message, the receiver has been told what the
/// events are reported as, in order, then one `Completed`, and nothing after that,
/// whatever would have come.
pub proof fn stopped_stream_tells_everything_once(
    state: MessagesStateView,
    polls: Seq<MessagesPollView>,
    more: Seq<MessagesPollView>,
)
    requires
        forall|i: int| 0 <= i < polls.len() ==> leaves_stream_open(#[trigger] polls[i]),
    ensures
        ({
            let read = run_messages(state, events_in(polls));
            run_messages_polls(
                state,
                polls.push(MessagesPollView::Event(StreamEventView::MessageStop)) + more,
            ).1 == told(read.1.push(read.0.completion()), true)
        }),
{
    let end = MessagesPollView::Event(StreamEventView::MessageStop);
    let read = run_messages(state, events_in(polls));
    messages_stream_tells_events_then_its_end(state, polls, end, more);
    assert(told(read.1, false).outcomes + read.0.on_poll(end).1.outcomes =~= told(
        read.1.push(read.0.completion()),
        true,
    ).outcomes);
}

/// Pings leave no trace, wherever they come.
pub proof fn pings_leave_no_trace(state: MessagesStateView, events: Seq<StreamEventView>)
    ensures
        run_messages(state, events) == run_messages(
            state,
            events.filter(|event: StreamEventView| !(event is Ping)),
        ),
    decreases events.len(),
{
    let keep = |event: StreamEventView| !(event is Ping);
    reveal(Seq::filter);
    if events.len() > 0 {
        pings_leave_no_trace(state, events.drop_last());
        if keep(events.last()) {
            assert(events.filter(keep).drop_last() =~= events.drop_last().filter(keep));
        }
    }
}

/// The events that carry a text in pieces.
pub open spec fn text_deltas(index: i64, pieces: Seq<Seq<char>>) -> Seq<StreamEventView> {
    pieces.map_values(
        |piece: Seq<char>|
            StreamEventView::ContentBlockDelta {
                index,
                delta: BlockDeltaView::TextDelta { text: piece },
            },
    )
}

/// The events that carry the arguments of a tool call in pieces.
pub open spec fn input_deltas(index: i64, pieces: Seq<Seq<char>>) -> Seq<StreamEventView> {
    pieces.map_values(
        |piece: Seq<char>|
            StreamEventView::ContentBlockDelta {
                index,
                delta: BlockDeltaView::InputJsonDelta { partial_json: piece },
            },
    )
}

proof fn lemma_text_deltas(state: MessagesStateView, index: i64, pieces: Seq<Seq<char>>)
    requires
        state.saw_non_ping,
    ensures
        run_messages(state, text_deltas(index, pieces)) == (
            MessagesStateView { current_text: state.current_text + joined(pieces), ..state },
            pieces.map_values(|piece: Seq<char>| ResponseEventView::OutputTextDelta(piece)),
        ),
    decreases pieces.len(),
{
    let events = text_deltas(index, pieces);
    let deltas = |p: Seq<Seq<char>>|
        p.map_values(|piece: Seq<char>| ResponseEventView::OutputTextDelta(piece));
    if pieces.len() == 0 {
        assert(state.current_text + joined(pieces) =~= state.current_text);
        assert(deltas(pieces) =~= Seq::empty());
    } else {
        lemma_text_deltas(state, index, pieces.drop_last());
        assert(events.drop_last() =~= text_deltas(index, pieces.drop_last()));
        assert(deltas(pieces) =~= deltas(pieces.drop_last()).push(
            ResponseEventView::OutputTextDelta(pieces.last()),
        ));
        assert(state.current_text + joined(pieces) =~= (state.current_text + joined(
            pieces.drop_last(),
        )) + pieces.last());
    }
}

/// A text block is reported piece by piece as it comes, and then as one message:
/// the text it began with, followed by every piece in order. A block without any
/// text is not reported.
pub proof fn text_block_adds_up(
    state: MessagesStateView,
    start: i64,
    opening: Seq<char>,
    middle: i64,
    pieces: Seq<Seq<char>>,
    stop: i64,
)
    requires
        state.active_tool_call is None,
    ensures
        ({
            let text = opening + joined(pieces);
            let events = seq![
                StreamEventView::ContentBlockStart {
                    index: start,
                    content_block: ResponseBlockView::Text { text: opening },
                },
            ] + text_deltas(middle, pieces) + seq![
                StreamEventView::ContentBlockStop { index: stop },
            ];
            let deltas = pieces.map_values(
                |piece: Seq<char>| ResponseEventView::OutputTextDelta(piece),
            );
            run_messages(state, events) == (
                MessagesStateView { current_text: Seq::empty(), ..state.heard() },
                if text.len() > 0 {
                    deltas.push(ResponseEventView::OutputItemDone(ResponseItemView::Message {
                    id: None,
                    role: "assistant"@,
                    content: seq![ContentItemView::OutputText { text }],
                    phase: None,
                    metadata: None,
                }))
                } else {
                    deltas
                },
            )
        }),
{
    let text = opening + joined(pieces);
    let first = seq![
        StreamEventView::ContentBlockStart {
            index: start,
            content_block: ResponseBlockView::Text { text: opening },
        },
    ];
    let last = seq![StreamEventView::ContentBlockStop { index: stop }];
    reveal_with_fuel(run_messages, 2);
    assert(first.drop_last() =~= Seq::empty());
    assert(last.drop_last() =~= Seq::empty());
    lemma_run_in_parts(state, first, text_deltas(middle, pieces));
    lemma_run_in_parts(state, first + text_deltas(middle, pieces), last);
    let opened = run_messages(state, first).0;
    lemma_text_deltas(opened, middle, pieces);
    let deltas = pieces.map_values(|piece: Seq<char>| ResponseEventView::OutputTextDelta(piece));
    let read = run_messages(state, first + text_deltas(middle, pieces));
    assert(read.1 =~= deltas);
    let events = first + text_deltas(middle, pieces) + last;
    let result = run_messages(state, events);
    if text.len() > 0 {
        assert(result.1 =~= deltas.push(ResponseEventView::OutputItemDone(ResponseItemView::Message {
                    id: None,
                    role: "assistant"@,
                    content: seq![ContentItemView::OutputText { text }],
                    phase: None,
                    metadata: None,
                })));
    } else {
        assert(text =~= Seq::empty());
        assert(result.1 =~= deltas);
    }
}

proof fn lemma_input_deltas(
    state: MessagesStateView,
    call: ToolCallStateView,
    pieces: Seq<Seq<char>>,
)
    requires
        state.saw_non_ping,
        state.active_tool_call == Some(call),
    ensures
        run_messages(state, input_deltas(call.index, pieces)) == (
            MessagesStateView {
                active_tool_call: Some(
                    ToolCallStateView { partial_json: call.partial_json + joined(pieces), ..call },
                ),
                ..state
            },
            pieces.map_values(
                |piece: Seq<char>|
                    ResponseEventView::ToolCallInputDelta {
                        item_id: call.call_id,
                        call_id: Some(call.call_id),
                        delta: piece,
                    },
            ),
        ),
    decreases pieces.len(),
{
    let events = input_deltas(call.index, pieces);
    let delta = |piece: Seq<char>|
        ResponseEventView::ToolCallInputDelta {
            item_id: call.call_id,
            call_id: Some(call.call_id),
            delta: piece,
        };
    if pieces.len() == 0 {
        assert(call.partial_json + joined(pieces) =~= call.partial_json);
        assert(pieces.map_values(delta) =~= Seq::empty());
    } else {
        lemma_input_deltas(state, call, pieces.drop_last());
        assert(events.drop_last() =~= input_deltas(call.index, pieces.drop_last()));
        assert(pieces.map_values(delta) =~= pieces.drop_last().map_values(delta).push(
            delta(pieces.last()),
        ));
        assert(call.partial_json + joined(pieces) =~= (call.partial_json + joined(
            pieces.drop_last(),
        )) + pieces.last());
    }
}

/// A tool call is announced when its block begins, its arguments are reported
/// piece by piece as they come, and then the call is reported as a whole: under
/// the id and the name it began with, with every piece of the arguments in order.
pub proof fn tool_call_adds_up(
    state: MessagesStateView,
    index: i64,
    id: Seq<char>,
    name: Seq<char>,
    input: Option<crate::json::JsonView>,
    pieces: Seq<Seq<char>>,
)
    ensures
        ({
            let events = seq![
                StreamEventView::ContentBlockStart {
                    index,
                    content_block: ResponseBlockView::ToolUse { id, name, input },
                },
            ] + input_deltas(index, pieces) + seq![StreamEventView::ContentBlockStop { index }];
            run_messages(state, events) == (
                MessagesStateView { active_tool_call: None, ..state.heard() },
                seq![ResponseEventView::OutputItemAdded(ResponseItemView::FunctionCall {
                        id: None,
                        name,
                        namespace: None,
                        arguments: Seq::empty(),
                        call_id: id,
                        metadata: None,
                    })]
                    + pieces.map_values(
                    |piece: Seq<char>|
                        ResponseEventView::ToolCallInputDelta {
                            item_id: id,
                            call_id: Some(id),
                            delta: piece,
                        },
                ) + seq![ResponseEventView::OutputItemDone(ResponseItemView::FunctionCall {
                        id: None,
                        name,
                        namespace: None,
                        arguments: joined(pieces),
                        call_id: id,
                        metadata: None,
                    })],
            )
        }),
{
    let first = seq![
        StreamEventView::ContentBlockStart {
            index,
            content_block: ResponseBlockView::ToolUse { id, name, input },
        },
    ];
    let last = seq![StreamEventView::ContentBlockStop { index }];
    reveal_with_fuel(run_messages, 2);
    assert(first.drop_last() =~= Seq::empty());
    assert(last.drop_last() =~= Seq::empty());
    lemma_run_in_parts(state, first, input_deltas(index, pieces));
    lemma_run_in_parts(state, first + input_deltas(index, pieces), last);
    let opened = run_messages(state, first).0;
    let call = ToolCallStateView { index, call_id: id, name, partial_json: Seq::empty() };
    lemma_input_deltas(opened, call, pieces);
    assert(Seq::<char>::empty() + joined(pieces) =~= joined(pieces));
    let added = ResponseEventView::OutputItemAdded(ResponseItemView::FunctionCall {
            id: None,
            name,
            namespace: None,
            arguments: Seq::empty(),
            call_id: id,
            metadata: None,
        });
    assert(run_messages(state, first).1 =~= seq![added]);
    let closed = run_messages(state, first + input_deltas(index, pieces)).0;
    assert(run_messages(closed, last).1 =~= seq![
        ResponseEventView::OutputItemDone(ResponseItemView::FunctionCall {
                id: None,
                name,
                namespace: None,
                arguments: joined(pieces),
                call_id: id,
                metadata: None,
            }),
    ]);
}

/// The fragments of text that events carry, in order.
pub open spec fn texts_in(events: Seq<StreamEventView>) -> Seq<Seq<char>>
    decreases events.len(),
{
    if events.len() == 0 {
        Seq::empty()
    } else {
        let before = texts_in(events.drop_last());
        match events.last() {
            StreamEventView::ContentBlockDelta {
                delta: BlockDeltaView::TextDelta { text },
                ..
            } => before.push(text),
            _ => before,
        }
    }
}

/// The fragments of arguments that events carry for a block, in order.
pub open spec fn inputs_in(events: Seq<StreamEventView>, block: i64) -> Seq<Seq<char>>
    decreases events.len(),
{
    if events.len() == 0 {
        Seq::empty()
    } else {
        let before = inputs_in(events.drop_last(), block);
        match events.last() {
            StreamEventView::ContentBlockDelta {
                index,
                delta: BlockDeltaView::InputJsonDelta { partial_json },
            } => if index == block {
                before.push(partial_json)
            } else {
                before
            },
            _ => before,
        }
    }
}

/// Whether an event leaves a text block open: it ends no block, and begins neither a text
/// nor a tool call.
pub open spec fn leaves_text_open(event: StreamEventView) -> bool {
    match event {
        StreamEventView::ContentBlockStop { .. } => false,
        StreamEventView::ContentBlockStart { content_block, .. } => !(content_block is Text) && !(
        content_block is ToolUse),
        _ => true,
    }
}

/// Whether an event leaves a tool call open: it ends no block, and begins no tool call.
pub open spec fn leaves_call_open(event: StreamEventView) -> bool {
    match event {
        StreamEventView::ContentBlockStop { .. } => false,
        StreamEventView::ContentBlockStart { content_block, .. } => !(content_block is ToolUse),
        _ => true,
    }
}

proof fn lemma_text_amid(state: MessagesStateView, events: Seq<StreamEventView>)
    requires
        state.active_tool_call is None,
        forall|i: int| 0 <= i < events.len() ==> leaves_text_open(#[trigger] events[i]),
    ensures
        ({
            let run = run_messages(state, events);
            &&& run.0.active_tool_call is None
            &&& run.0.current_text == state.current_text + joined(texts_in(events))
            &&& run.1.filter(|event: ResponseEventView| event is OutputTextDelta) == texts_in(
                events,
            ).map_values(|piece: Seq<char>| ResponseEventView::OutputTextDelta(piece))
        }),
    decreases events.len(),
{
    let delta = |piece: Seq<char>| ResponseEventView::OutputTextDelta(piece);
    reveal(Seq::filter);
    if events.len() == 0 {
        assert(state.current_text + joined(texts_in(events)) =~= state.current_text);
        assert(texts_in(events).map_values(delta) =~= Seq::empty());
    } else {
        let earlier = events.drop_last();
        assert forall|i: int| 0 <= i < earlier.len() implies leaves_text_open(
            #[trigger] earlier[i],
        ) by {
            assert(leaves_text_open(events[i]));
        }
        assert(leaves_text_open(events[events.len() - 1]));
        lemma_text_amid(state, earlier);
        let before = run_messages(state, earlier);
        let step = before.0.on_event(events.last());
        if let Some(event) = step.1 {
            assert(before.1.push(event).drop_last() =~= before.1);
        }
        let texts = texts_in(events);
        if texts.len() > texts_in(earlier).len() {
            assert(texts.drop_last() =~= texts_in(earlier));
            assert(texts.map_values(delta) =~= texts_in(earlier).map_values(delta).push(
                delta(texts.last()),
            ));
            assert(state.current_text + joined(texts) =~= before.0.current_text + texts.last());
        }
    }
}

/// A text block adds up whatever comes between its pieces, as long as that ends no block
/// and begins no other text or tool call: each piece is shown as it comes, in order, and
/// the text that is done is the opening followed by every piece.
pub proof fn text_block_adds_up_amid_others(
    state: MessagesStateView,
    start: i64,
    opening: Seq<char>,
    events: Seq<StreamEventView>,
    stop: i64,
)
    requires
        state.active_tool_call is None,
        forall|i: int| 0 <= i < events.len() ==> leaves_text_open(#[trigger] events[i]),
    ensures
        ({
            let opened = state.on_event(
                StreamEventView::ContentBlockStart {
                    index: start,
                    content_block: ResponseBlockView::Text { text: opening },
                },
            );
            let read = run_messages(opened.0, events);
            let text = opening + joined(texts_in(events));
            &&& opened.1 is None
            &&& read.1.filter(|event: ResponseEventView| event is OutputTextDelta) == texts_in(
                events,
            ).map_values(|piece: Seq<char>| ResponseEventView::OutputTextDelta(piece))
            &&& read.0.on_event(StreamEventView::ContentBlockStop { index: stop }).1 == (
            if text.len() > 0 {
                Some(ResponseEventView::OutputItemDone(ResponseItemView::Message {
                    id: None,
                    role: "assistant"@,
                    content: seq![ContentItemView::OutputText { text }],
                    phase: None,
                    metadata: None,
                }))
            } else {
                None
            })
        }),
{
    let opened = state.on_event(
        StreamEventView::ContentBlockStart {
            index: start,
            content_block: ResponseBlockView::Text { text: opening },
        },
    );
    lemma_text_amid(opened.0, events);
}

proof fn lemma_call_amid(
    state: MessagesStateView,
    call: ToolCallStateView,
    events: Seq<StreamEventView>,
)
    requires
        state.active_tool_call == Some(call),
        forall|i: int| 0 <= i < events.len() ==> leaves_call_open(#[trigger] events[i]),
    ensures
        ({
            let run = run_messages(state, events);
            &&& run.0.active_tool_call == Some(
                ToolCallStateView {
                    partial_json: call.partial_json + joined(inputs_in(events, call.index)),
                    ..call
                },
            )
            &&& run.1.filter(|event: ResponseEventView| event is ToolCallInputDelta)
                == inputs_in(events, call.index).map_values(
                |piece: Seq<char>|
                    ResponseEventView::ToolCallInputDelta {
                        item_id: call.call_id,
                        call_id: Some(call.call_id),
                        delta: piece,
                    },
            )
        }),
    decreases events.len(),
{
    let delta = |piece: Seq<char>|
        ResponseEventView::ToolCallInputDelta {
            item_id: call.call_id,
            call_id: Some(call.call_id),
            delta: piece,
        };
    reveal(Seq::filter);
    if events.len() == 0 {
        assert(call.partial_json + joined(inputs_in(events, call.index)) =~= call.partial_json);
        assert(inputs_in(events, call.index).map_values(delta) =~= Seq::empty());
    } else {
        let earlier = events.drop_last();
        assert forall|i: int| 0 <= i < earlier.len() implies leaves_call_open(
            #[trigger] earlier[i],
        ) by {
            assert(leaves_call_open(events[i]));
        }
        assert(leaves_call_open(events[events.len() - 1]));
        lemma_call_amid(state, call, earlier);
        let before = run_messages(state, earlier);
        let step = before.0.on_event(events.last());
        if let Some(event) = step.1 {
            assert(before.1.push(event).drop_last() =~= before.1);
        }
        let inputs = inputs_in(events, call.index);
        let known = inputs_in(earlier, call.index);
        if inputs.len() > known.len() {
            assert(inputs.drop_last() =~= known);
            assert(inputs.map_values(delta) =~= known.map_values(delta).push(
                delta(inputs.last()),
            ));
            assert(call.partial_json + joined(inputs) =~= (call.partial_json + joined(known))
                + inputs.last());
        }
    }
}

/// A tool call adds up whatever comes between its pieces, as long as that ends no block
/// and begins no other tool call: the call is announced when it begins, each piece of its
/// own arguments is shown as it comes, in order, and the call that is done has them all.
pub proof fn tool_call_adds_up_amid_others(
    state: MessagesStateView,
    index: i64,
    id: Seq<char>,
    name: Seq<char>,
    input: Option<crate::json::JsonView>,
    events: Seq<StreamEventView>,
)
    requires
        forall|i: int| 0 <= i < events.len() ==> leaves_call_open(#[trigger] events[i]),
    ensures
        ({
            let opened = state.on_event(
                StreamEventView::ContentBlockStart {
                    index,
                    content_block: ResponseBlockView::ToolUse { id, name, input },
                },
            );
            let read = run_messages(opened.0, events);
            &&& opened.1 == Some(
                ResponseEventView::OutputItemAdded(ResponseItemView::FunctionCall {
                        id: None,
                        name,
                        namespace: None,
                        arguments: Seq::empty(),
                        call_id: id,
                        metadata: None,
                    }),
            )
            &&& read.1.filter(|event: ResponseEventView| event is ToolCallInputDelta)
                == inputs_in(events, index).map_values(
                |piece: Seq<char>|
                    ResponseEventView::ToolCallInputDelta {
                        item_id: id,
                        call_id: Some(id),
                        delta: piece,
                    },
            )
            &&& read.0.on_event(StreamEventView::ContentBlockStop { index }).1 == Some(
                ResponseEventView::OutputItemDone(
                    ResponseItemView::FunctionCall {
                            id: None,
                            name,
                            namespace: None,
                            arguments: joined(inputs_in(events, index)),
                            call_id: id,
                            metadata: None,
                        },
                ),
            )
        }),
{
    let opened = state.on_event(
        StreamEventView::ContentBlockStart {
            index,
            content_block: ResponseBlockView::ToolUse { id, name, input },
        },
    );
    let call = ToolCallStateView { index, call_id: id, name, partial_json: Seq::empty() };
    lemma_call_amid(opened.0, call, events);
    assert(Seq::<char>::empty() + joined(inputs_in(events, index)) =~= joined(
        inputs_in(events, index),
    ));
}

/// The usage that a turn reports in the end: what its message started with, and every
/// report after that, accumulated.
pub open spec fn usage_over(
    start: Option<AnthropicUsage>,
    events: Seq<StreamEventView>,
) -> Option<AnthropicUsage>
    decreases events.len(),
{
    if events.len() == 0 {
        start
    } else {
        match events.last() {
            StreamEventView::MessageDelta { usage, .. } => Some(
                accumulated(usage_over(start, events.drop_last()), usage),
            ),
            _ => usage_over(start, events.drop_last()),
        }
    }
}

/// The usage that is known before some events, and every report among them, in order.
pub open spec fn usages_in(
    start: Option<AnthropicUsage>,
    events: Seq<StreamEventView>,
) -> Seq<AnthropicUsage>
    decreases events.len(),
{
    if events.len() == 0 {
        match start {
            Some(usage) => seq![usage],
            None => Seq::empty(),
        }
    } else {
        let before = usages_in(start, events.drop_last());
        match events.last() {
            StreamEventView::MessageDelta { usage, .. } => before.push(usage),
            _ => before,
        }
    }
}

/// The counts of the tokens that went in, by report.
pub open spec fn input_counts(usages: Seq<AnthropicUsage>) -> Seq<Option<i64>> {
    usages.map_values(|u: AnthropicUsage| u.input_tokens)
}

/// The counts of the tokens that came out, by report.
pub open spec fn output_counts(usages: Seq<AnthropicUsage>) -> Seq<Option<i64>> {
    usages.map_values(|u: AnthropicUsage| u.output_tokens)
}

/// The counts of the tokens that were read from the cache, by report.
pub open spec fn cached_counts(usages: Seq<AnthropicUsage>) -> Seq<Option<i64>> {
    usages.map_values(|u: AnthropicUsage| u.cache_read_input_tokens)
}

/// The last count among reports that may leave it out, and zero where all of them do.
pub open spec fn last_reported(counts: Seq<Option<i64>>) -> i64
    decreases counts.len(),
{
    if counts.len() == 0 {
        0
    } else {
        match counts.last() {
            Some(count) => count,
            None => last_reported(counts.drop_last()),
        }
    }
}

/// The stop reason that a turn reports in the end: the one that came last.
pub open spec fn last_stop_reason(
    start: Option<Seq<char>>,
    events: Seq<StreamEventView>,
) -> Option<Seq<char>>
    decreases events.len(),
{
    if events.len() == 0 {
        start
    } else {
        match events.last() {
            StreamEventView::MessageDelta { delta, .. } => delta.stop_reason,
            _ => last_stop_reason(start, events.drop_last()),
        }
    }
}

/// Whether events lie within one message.
pub open spec fn within_message(events: Seq<StreamEventView>) -> bool {
    forall|i: int|
        0 <= i < events.len() ==> !(#[trigger] events[i] is MessageStart) && !(
        events[i] is MessageStop)
}

/// Whether a turn ended by itself, by the stop reason that came last, if any came: where
/// that is the end of the turn or a stop sequence, and nowhere else.
pub open spec fn ended_by_itself(stop_reason: Option<Seq<char>>) -> Option<bool> {
    match stop_reason {
        Some(reason) => Some(reason == "end_turn"@ || reason == "stop_sequence"@),
        None => None,
    }
}

/// Whatever comes between the start and the end of a message, the turn completes under
/// the id of that message, with the counts that were reported last, of which those of the
/// tokens that went in and came out are summed up, and as ended by itself or not by the
/// stop reason that came last. Where no usage was reported, there is none.
pub proof fn completion_reports_its_message(
    state: MessagesStateView,
    message: ResponseMessageView,
    events: Seq<StreamEventView>,
)
    requires
        within_message(events),
    ensures
        ({
            let started = state.on_event(StreamEventView::MessageStart { message }).0;
            let usages = usages_in(message.usage, events);
            let input = last_reported(input_counts(usages));
            let output = last_reported(output_counts(usages));
            let cached = last_reported(cached_counts(usages));
            let completed = run_messages(started, events).0.on_event(StreamEventView::MessageStop).1;
            &&& completed matches Some(ResponseEventView::Completed {
                response_id,
                token_usage,
                end_turn,
            })
            &&& response_id == message.id
            &&& end_turn == ended_by_itself(last_stop_reason(state.stop_reason, events))
            &&& usages.len() == 0 ==> token_usage is None
            &&& usages.len() > 0 ==> (token_usage matches Some(cost) && cost.input_tokens == input
                && cost.output_tokens == output && cost.cached_input_tokens == cached
                && cost.reasoning_output_tokens == 0 && (i64::MIN <= input + output <= i64::MAX
                ==> cost.total_tokens == input + output))
            &&& token_usage == (match usage_over(message.usage, events) {
                Some(usage) => Some(messages_usage(usage)),
                None => None,
            })
        }),
{
    let started = state.on_event(StreamEventView::MessageStart { message }).0;
    lemma_within_message(started, events);
}

/// The end of a message completes the turn as ended by itself exactly where the stop reason
/// that is known is the end of the turn or a stop sequence. It is not where the model was
/// cut off, called a tool or refused, and nothing is said where no stop reason is known.
pub proof fn only_two_stop_reasons_end_the_turn(state: MessagesStateView)
    ensures
        state.on_event(StreamEventView::MessageStop).1 matches Some(
            ResponseEventView::Completed { response_id, end_turn, .. },
        ) && (end_turn == Some(true) <==> (state.stop_reason == Some("end_turn"@)
            || state.stop_reason == Some("stop_sequence"@))) && (end_turn is None
            <==> state.stop_reason is None) && (state.response_id matches Some(id) ==> response_id
            == id) && (state.response_id is None ==> response_id.len() == 0),
{
}

/// What holds of usage that was accumulated from reports.
spec fn usage_adds_up(usage: Option<AnthropicUsage>, usages: Seq<AnthropicUsage>) -> bool {
    &&& usage is Some <==> usages.len() > 0
    &&& usage matches Some(u) ==> {
        &&& count_or_zero(u.input_tokens) == last_reported(input_counts(usages))
        &&& count_or_zero(u.output_tokens) == last_reported(output_counts(usages))
        &&& count_or_zero(u.cache_read_input_tokens) == last_reported(cached_counts(usages))
    }
}

proof fn lemma_one_report(usage: AnthropicUsage)
    ensures
        usage_adds_up(Some(usage), seq![usage]),
{
    let usages = seq![usage];
    reveal_with_fuel(last_reported, 2);
    assert(input_counts(usages) =~= seq![usage.input_tokens]);
    assert(output_counts(usages) =~= seq![usage.output_tokens]);
    assert(cached_counts(usages) =~= seq![usage.cache_read_input_tokens]);
}

proof fn lemma_last_reported(counts: Seq<Option<i64>>, count: Option<i64>)
    ensures
        last_reported(counts.push(count)) == (match count {
            Some(n) => n,
            None => last_reported(counts),
        }),
{
    assert(counts.push(count).drop_last() =~= counts);
    assert(counts.push(count).last() == count);
}

proof fn lemma_next_report(
    held: Option<AnthropicUsage>,
    usages: Seq<AnthropicUsage>,
    usage: AnthropicUsage,
)
    requires
        usage_adds_up(held, usages),
    ensures
        usage_adds_up(Some(accumulated(held, usage)), usages.push(usage)),
{
    let all = usages.push(usage);
    assert(input_counts(all) =~= input_counts(usages).push(usage.input_tokens));
    assert(output_counts(all) =~= output_counts(usages).push(usage.output_tokens));
    assert(cached_counts(all) =~= cached_counts(usages).push(usage.cache_read_input_tokens));
    lemma_last_reported(input_counts(usages), usage.input_tokens);
    lemma_last_reported(output_counts(usages), usage.output_tokens);
    lemma_last_reported(cached_counts(usages), usage.cache_read_input_tokens);
    if held is None {
        assert(usages.len() == 0);
        assert(input_counts(usages) =~= Seq::empty());
        assert(output_counts(usages) =~= Seq::empty());
        assert(cached_counts(usages) =~= Seq::empty());
        assert(last_reported(Seq::empty()) == 0);
    }
}

proof fn lemma_within_message(state: MessagesStateView, events: Seq<StreamEventView>)
    requires
        within_message(events),
    ensures
        ({
            let end = run_messages(state, events).0;
            &&& end.response_id == state.response_id
            &&& end.usage == usage_over(state.usage, events)
            &&& usage_adds_up(end.usage, usages_in(state.usage, events))
            &&& end.stop_reason == last_stop_reason(state.stop_reason, events)
        }),
    decreases events.len(),
{
    if events.len() == 0 {
        if let Some(usage) = state.usage {
            lemma_one_report(usage);
        }
    } else {
        let earlier = events.drop_last();
        assert forall|i: int| 0 <= i < earlier.len() implies !(
        #[trigger] earlier[i] is MessageStart) && !(earlier[i] is MessageStop) by {
            assert(!(events[i] is MessageStart));
        }
        lemma_within_message(state, earlier);
        assert(!(events[events.len() - 1] is MessageStart));
        if let StreamEventView::MessageDelta { usage, .. } = events.last() {
            lemma_next_report(
                run_messages(state, earlier).0.usage,
                usages_in(state.usage, earlier),
                usage,
            );
        }
    }
}

/// The model that was named last.
pub open spec fn last_model(events: Seq<StreamEventView>) -> Option<Seq<char>>
    decreases events.len(),
{
    if events.len() == 0 {
        None
    } else {
        match events.last() {
            StreamEventView::MessageStart { message } => match message.model {
                Some(model) => Some(model),
                None => last_model(events.drop_last()),
            },
            _ => last_model(events.drop_last()),
        }
    }
}

proof fn lemma_last_model(events: Seq<StreamEventView>)
    ensures
        run_messages(fresh_messages_state(), events).0.model == last_model(events),
    decreases events.len(),
{
    if events.len() > 0 {
        lemma_last_model(events.drop_last());
    }
}

/// Every message announces its model, or the model that was named last where it names
/// none.
pub proof fn models_are_announced(events: Seq<StreamEventView>, message: ResponseMessageView)
    ensures
        run_messages(fresh_messages_state(), events).0.on_event(
            StreamEventView::MessageStart { message },
        ).1 == (match message.model {
            Some(model) => Some(ResponseEventView::ServerModel(model)),
            None => match last_model(events) {
                Some(model) => Some(ResponseEventView::ServerModel(model)),
                None => None,
            },
        }),
{
    lemma_last_model(events);
}

/// What is reported whatever came before: a fragment of text as it is, and a tool call when
/// it begins, under its id and name and without arguments. Pings, the beginning of a text,
/// thinking and reports about a message are not.
pub proof fn events_are_reported_as_they_come(
    state: MessagesStateView,
    index: i64,
    text: Seq<char>,
    id: Seq<char>,
    name: Seq<char>,
    input: Option<crate::json::JsonView>,
    event: StreamEventView,
)
    ensures
        state.on_event(
            StreamEventView::ContentBlockDelta { index, delta: BlockDeltaView::TextDelta { text } },
        ).1 == Some(ResponseEventView::OutputTextDelta(text)),
        state.on_event(
            StreamEventView::ContentBlockStart {
                index,
                content_block: ResponseBlockView::ToolUse { id, name, input },
            },
        ).1 == Some(
            ResponseEventView::OutputItemAdded(
                ResponseItemView::FunctionCall {
                    id: None,
                    name,
                    namespace: None,
                    arguments: Seq::empty(),
                    call_id: id,
                    metadata: None,
                },
            ),
        ),
        state.on_event(
            StreamEventView::ContentBlockStart {
                index,
                content_block: ResponseBlockView::Text { text },
            },
        ).1 is None,
        event is MessageDelta ==> state.on_event(event).1 is None,
        event is Ping ==> state.on_event(event) == (state, None::<ResponseEventView>),
        is_thinking(event) ==> state.on_event(event) == (
            MessagesStateView { saw_non_ping: true, ..state },
            None::<ResponseEventView>,
        ),
{
}

/// Whether an event belongs to what a model thinks.
pub open spec fn is_thinking(event: StreamEventView) -> bool {
    match event {
        StreamEventView::ContentBlockStart { content_block, .. } => content_block is Thinking
            || content_block is RedactedThinking,
        StreamEventView::ContentBlockDelta { delta, .. } => delta is ThinkingDelta
            || delta is SignatureDelta,
        _ => false,
    }
}

/// Arguments that come for no call, or for another block than that of the call that is
/// open, make no difference.
pub proof fn stray_arguments_make_no_difference(
    state: MessagesStateView,
    index: i64,
    partial_json: Seq<char>,
)
    requires
        state.active_tool_call matches Some(call) ==> call.index != index,
    ensures
        state.on_event(
            StreamEventView::ContentBlockDelta {
                index,
                delta: BlockDeltaView::InputJsonDelta { partial_json },
            },
        ) == (MessagesStateView { saw_non_ping: true, ..state }, None::<ResponseEventView>),
{
}

/// A call ends with the end of any block. Where that is its own, the call is reported with
/// everything that came for it, and elsewhere it is not. In either case the text so far is
/// kept for a later block to end.
pub proof fn calls_end_with_any_block(
    state: MessagesStateView,
    call: ToolCallStateView,
    index: i64,
)
    requires
        state.active_tool_call == Some(call),
    ensures
        ({
            let stopped = state.on_event(StreamEventView::ContentBlockStop { index });
            &&& stopped.0 == (MessagesStateView {
                active_tool_call: None,
                saw_non_ping: true,
                ..state
            })
            &&& index != call.index ==> stopped.1 is None
            &&& index == call.index ==> stopped.1 == Some(
                ResponseEventView::OutputItemDone(
                    ResponseItemView::FunctionCall {
                        id: None,
                        name: call.name,
                        namespace: None,
                        arguments: call.partial_json,
                        call_id: call.call_id,
                        metadata: None,
                    },
                ),
            )
        }),
{
}

/// Where no call is open, the end of any block ends the text so far: all of it is reported as
/// a message of the assistant, where there is any, and the next text starts over.
pub proof fn texts_end_with_any_block(state: MessagesStateView, index: i64)
    requires
        state.active_tool_call is None,
    ensures
        ({
            let stopped = state.on_event(StreamEventView::ContentBlockStop { index });
            &&& stopped.0.current_text.len() == 0
            &&& stopped.0 == (MessagesStateView {
                current_text: stopped.0.current_text,
                saw_non_ping: true,
                ..state
            })
            &&& state.current_text.len() == 0 ==> stopped.1 is None
            &&& state.current_text.len() > 0 ==> stopped.1 == Some(
                ResponseEventView::OutputItemDone(
                    ResponseItemView::Message {
                        id: None,
                        role: "assistant"@,
                        content: seq![ContentItemView::OutputText { text: state.current_text }],
                        phase: None,
                        metadata: None,
                    },
                ),
            )
        }),
{
}

/// What each event adds to what is known, whatever that is: a fragment of text adds to the
/// text alone, also while a call is open; arguments add to their own call alone; a block that
/// begins starts its own text or call over; and what is told of a message concerns that
/// message alone.
pub proof fn events_change_what_they_concern(
    state: MessagesStateView,
    index: i64,
    text: Seq<char>,
    id: Seq<char>,
    name: Seq<char>,
    input: Option<crate::json::JsonView>,
    event: StreamEventView,
)
    ensures
        state.on_event(
            StreamEventView::ContentBlockDelta { index, delta: BlockDeltaView::TextDelta { text } },
        ).0 == (MessagesStateView {
            current_text: state.current_text + text,
            saw_non_ping: true,
            ..state
        }),
        state.active_tool_call matches Some(call) ==> call.index == index ==> state.on_event(
            StreamEventView::ContentBlockDelta {
                index,
                delta: BlockDeltaView::InputJsonDelta { partial_json: text },
            },
        ) == (
            MessagesStateView {
                active_tool_call: Some(
                    ToolCallStateView {
                        index,
                        call_id: call.call_id,
                        name: call.name,
                        partial_json: call.partial_json + text,
                    },
                ),
                saw_non_ping: true,
                ..state
            },
            Some(
                ResponseEventView::ToolCallInputDelta {
                    item_id: call.call_id,
                    call_id: Some(call.call_id),
                    delta: text,
                },
            ),
        ),
        state.on_event(
            StreamEventView::ContentBlockStart {
                index,
                content_block: ResponseBlockView::Text { text },
            },
        ).0 == (MessagesStateView { current_text: text, saw_non_ping: true, ..state }),
        state.on_event(
            StreamEventView::ContentBlockStart {
                index,
                content_block: ResponseBlockView::ToolUse { id, name, input },
            },
        ).0 == (MessagesStateView {
            active_tool_call: Some(
                ToolCallStateView { index, call_id: id, name, partial_json: Seq::empty() },
            ),
            saw_non_ping: true,
            ..state
        }),
        event matches StreamEventView::MessageStart { message } ==> {
            let after = state.on_event(event).0;
            &&& after == (MessagesStateView {
                response_id: after.response_id,
                model: after.model,
                usage: after.usage,
                saw_non_ping: true,
                ..state
            })
            &&& after.response_id == Some(message.id)
            &&& after.usage == message.usage
            &&& message.model is Some ==> after.model == message.model
            &&& message.model is None ==> after.model == state.model
        },
        event matches StreamEventView::MessageDelta { delta, usage } ==> {
            let after = state.on_event(event).0;
            &&& after == (MessagesStateView {
                stop_reason: delta.stop_reason,
                usage: after.usage,
                saw_non_ping: true,
                ..state
            })
            &&& state.usage is None ==> after.usage == Some(usage)
            &&& after.usage matches Some(known) && (usage.input_tokens is Some
                ==> known.input_tokens == usage.input_tokens) && (usage.output_tokens is Some
                ==> known.output_tokens == usage.output_tokens) && (
            usage.cache_read_input_tokens is Some ==> known.cache_read_input_tokens
                == usage.cache_read_input_tokens) && (usage.cache_creation_input_tokens is Some
                ==> known.cache_creation_input_tokens == usage.cache_creation_input_tokens) && (
            state.usage matches Some(held) ==> (usage.input_tokens is None ==> known.input_tokens
                == held.input_tokens) && (usage.output_tokens is None ==> known.output_tokens
                == held.output_tokens) && (usage.cache_read_input_tokens is None
                ==> known.cache_read_input_tokens == held.cache_read_input_tokens) && (
            usage.cache_creation_input_tokens is None ==> known.cache_creation_input_tokens
                == held.cache_creation_input_tokens))
        },
{
}

/// What the receiver is told: each event as it is reported, and nothing for what cannot be
/// read. A stream that breaks off is told as a failure that says why, and only the end of a
/// turn and a failure finish the stream.
pub proof fn messages_polls_are_told(
    state: MessagesStateView,
    event: StreamEventView,
    message: Seq<char>,
)
    ensures
        ({
            let step = state.on_poll(MessagesPollView::Event(event)).1;
            match state.on_event(event).1 {
                Some(reported) => step.outcomes == seq![
                    Ok::<ResponseEventView, ApiErrorView>(reported),
                ] && (step.finished <==> event is MessageStop),
                None => step.outcomes.len() == 0 && !step.finished,
            }
        }),
        state.on_poll(MessagesPollView::Event(event)).0 == state.on_event(event).0,
        state.on_poll(MessagesPollView::Unreadable).0 == state,
        state.on_poll(MessagesPollView::Unreadable).1.outcomes.len() == 0,
        !state.on_poll(MessagesPollView::Unreadable).1.finished,
        state.on_poll(MessagesPollView::Failed(message)).1 == (StepView {
            outcomes: seq![Err(ApiErrorView::Stream(message))],
            finished: true,
        }),
        state.on_poll(MessagesPollView::Closed).1 == (StepView {
            outcomes: seq![
                Err(ApiErrorView::Stream("messages stream closed before message_stop"@)),
            ],
            finished: true,
        }),
        state.on_poll(MessagesPollView::IdleTimeout).1 == (StepView {
            outcomes: seq![Err(ApiErrorView::Stream("idle timeout waiting for Messages SSE"@))],
            finished: true,
        }),
{
}

/// A stream starts with nothing known: where it ends at once, the turn completes without an
/// id, a cost or a reason, and where a block ends, nothing is done.
pub proof fn streams_start_blank(index: i64)
    ensures
        fresh_messages_state().on_event(StreamEventView::MessageStop).1 == Some(
            ResponseEventView::Completed {
                response_id: Seq::empty(),
                token_usage: None,
                end_turn: None,
            },
        ),
        fresh_messages_state().on_event(StreamEventView::ContentBlockStop { index }).1 is None,
        fresh_messages_state().active_tool_call is None,
        fresh_messages_state().current_text.len() == 0,
{
}

/// The end of a turn can be reported exactly where the tokens that went in and those that came
/// out, as far as they are known, add up to what 64 bits can hold.
pub proof fn totals_fit_by_their_sum(usage: AnthropicUsage)
    ensures
        total_fits(None),
        total_fits(Some(usage)) <==> i64::MIN <= (match usage.input_tokens {
            Some(count) => count as int,
            None => 0,
        }) + (match usage.output_tokens {
            Some(count) => count as int,
            None => 0,
        }) <= i64::MAX,
{
}

/// The end of a message leaves its id and its usage behind, so that neither is reported twice,
/// and everything else as it is. And anything but a ping is remembered to have come.
pub proof fn nothing_is_completed_twice(state: MessagesStateView, event: StreamEventView)
    ensures
        state.on_event(StreamEventView::MessageStop).0 == (MessagesStateView {
            response_id: None,
            usage: None,
            saw_non_ping: true,
            ..state
        }),
        state.on_event(event).0.saw_non_ping == (state.saw_non_ping || !(event is Ping)),
{
}

} // verus!
