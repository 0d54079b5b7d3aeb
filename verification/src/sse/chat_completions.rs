//! Turns a Chat Completions stream into [`ResponseEvent`]s.
//!
//! The stream carries fragments: texts and the arguments of tool calls come in
//! pieces and are put together here. The events come in this order:
//!
//! 1. `Created`, once, with the first chunk that carries anything.
//! 2. `OutputTextDelta` for each fragment of text.
//! 3. `OutputItemAdded` when the first fragment of the arguments of a tool call
//!    comes: its id and its name are known by then.
//! 4. `ToolCallInputDelta` for each fragment of arguments.
//! 5. `OutputItemDone` for the message and for each call, when a finish reason
//!    comes, or at the end where none came.
//! 6. `Completed` at the end.
use crate::chat_completions::{
    ends_turn, finish_reason_ends_turn, ChatChoiceView, ChatChunkView, ChatCompletionChoice,
    ChatCompletionChunk, ChatCompletionToolCallDelta, ChatCompletionUsage, ChatToolCallDeltaView,
    STREAM_DONE_SENTINEL,
};
use crate::common::{ResponseEvent, ResponseEventView};
use crate::error::{ApiError, ApiErrorView};
use crate::protocol::{ContentItemView, ResponseItemView, TokenUsage};
use crate::sse::{
    call_item, fail, failed_step, function_call_item, go_on, message_item, outcome_view,
    has_one_last_word, is_last_word, outcome_views, silent_step, text_item, told, StepView,
    StreamStep,
};
use crate::text::{decimal, decimal_text, joined, same_text, trim, trimmed};
use std::collections::BTreeMap;
use vstd::prelude::*;
use vstd::std_specs::btree::increasing_seq;
use vstd::std_specs::cmp::OrdSpec;
use vstd::std_specs::iter::IteratorSpec;
use vstd::string::StringExecFns;

verus! {

/// A tool call that is being put together. Fragments of several calls may come
/// interleaved, told apart by their index.
#[derive(Debug)]
pub struct ToolCallAccumulator {
    pub id: Option<String>,
    pub name: Option<String>,
    /// The arguments so far.
    pub arguments: String,
    /// Whether the call has been announced.
    pub announced: bool,
}

/// What a [`ToolCallAccumulator`] says.
#[verifier::ext_equal]
pub struct CallView {
    pub id: Option<Seq<char>>,
    pub name: Option<Seq<char>>,
    pub arguments: Seq<char>,
    pub announced: bool,
}

impl DeepView for ToolCallAccumulator {
    type V = CallView;

    open spec fn deep_view(&self) -> CallView {
        CallView {
            id: self.id.deep_view(),
            name: self.name.deep_view(),
            arguments: self.arguments@,
            announced: self.announced,
        }
    }
}

/// A call of which nothing is known.
pub open spec fn fresh_call() -> CallView {
    CallView { id: None, name: None, arguments: Seq::empty(), announced: false }
}

impl Default for ToolCallAccumulator {
    fn default() -> (r: Self)
        ensures
            r.deep_view() == fresh_call(),
    {
        ToolCallAccumulator { id: None, name: None, arguments: String::new(), announced: false }
    }
}

/// What is known of a turn part way through its stream.
#[derive(Debug)]
pub struct ChatCompletionsStreamState {
    /// The first id that came.
    pub response_id: Option<String>,
    /// The model that was announced last.
    pub server_model: Option<String>,
    /// The text so far.
    pub text_buffer: String,
    /// The tool calls so far, by index.
    pub tool_calls: BTreeMap<i64, ToolCallAccumulator>,
    /// The most recent usage.
    pub usage: Option<ChatCompletionUsage>,
    /// The first finish reason that came.
    pub finish_reason: Option<String>,
    pub created_emitted: bool,
    /// Whether the text and the tool calls have been reported as done.
    pub flushed: bool,
}

/// What a [`ChatCompletionsStreamState`] says.
pub struct ChatStateView {
    pub response_id: Option<Seq<char>>,
    pub server_model: Option<Seq<char>>,
    pub text_buffer: Seq<char>,
    pub tool_calls: Map<i64, CallView>,
    pub usage: Option<ChatCompletionUsage>,
    pub finish_reason: Option<Seq<char>>,
    pub created_emitted: bool,
    pub flushed: bool,
}

/// What the calls that are being put together say, by index.
pub open spec fn call_views(calls: Map<i64, ToolCallAccumulator>) -> Map<i64, CallView> {
    calls.map_values(|call: ToolCallAccumulator| call.deep_view())
}

impl DeepView for ChatCompletionsStreamState {
    type V = ChatStateView;

    open spec fn deep_view(&self) -> ChatStateView {
        ChatStateView {
            response_id: self.response_id.deep_view(),
            server_model: self.server_model.deep_view(),
            text_buffer: self.text_buffer@,
            tool_calls: call_views(self.tool_calls@),
            usage: self.usage,
            finish_reason: self.finish_reason.deep_view(),
            created_emitted: self.created_emitted,
            flushed: self.flushed,
        }
    }
}

/// The state in which a stream starts.
pub open spec fn fresh_chat_state() -> ChatStateView {
    ChatStateView {
        response_id: None,
        server_model: None,
        text_buffer: Seq::empty(),
        tool_calls: Map::empty(),
        usage: None,
        finish_reason: None,
        created_emitted: false,
        flushed: false,
    }
}

impl Default for ChatCompletionsStreamState {
    fn default() -> (r: Self)
        ensures
            r.deep_view() == fresh_chat_state(),
    {
        let r = ChatCompletionsStreamState {
            response_id: None,
            server_model: None,
            text_buffer: String::new(),
            tool_calls: BTreeMap::new(),
            usage: None,
            finish_reason: None,
            created_emitted: false,
            flushed: false,
        };
        assert(call_views(r.tool_calls@) =~= Map::empty());
        r
    }
}

// ── What each chunk means ────────────────────────────────────────────────────

/// What a turn cost, by the usage that was reported.
pub open spec fn chat_usage(usage: ChatCompletionUsage) -> TokenUsage {
    TokenUsage {
        input_tokens: usage.prompt_tokens,
        cached_input_tokens: match usage.prompt_tokens_details {
            Some(details) => details.cached_tokens,
            None => 0,
        },
        output_tokens: usage.completion_tokens,
        reasoning_output_tokens: match usage.completion_tokens_details {
            Some(details) => details.reasoning_tokens,
            None => 0,
        },
        total_tokens: usage.total_tokens,
    }
}

/// A text that may not have come.
pub open spec fn text_or_empty(text: Option<Seq<char>>) -> Seq<char> {
    match text {
        Some(text) => text,
        None => Seq::empty(),
    }
}

/// The id of a call, or its index in decimal where it has none.
pub open spec fn id_or_index(id: Option<Seq<char>>, index: i64) -> Seq<char> {
    match id {
        Some(id) => id,
        None => decimal_text(index as int),
    }
}

/// The first of two values, or the second where the first has not come.
pub open spec fn first_of<T>(first: Option<T>, second: Option<T>) -> Option<T> {
    match first {
        Some(value) => Some(value),
        None => second,
    }
}

/// Whether a sequence holds the indices of the calls, in ascending order.
pub open spec fn is_call_order(order: Seq<i64>, calls: Map<i64, CallView>) -> bool {
    &&& forall|i: int, j: int| 0 <= i < j < order.len() ==> order[i] < order[j]
    &&& forall|index: i64| #[trigger] order.contains(index) <==> calls.contains_key(index)
}

/// The indices of the calls, in ascending order.
pub open spec fn call_order(calls: Map<i64, CallView>) -> Seq<i64> {
    choose|order: Seq<i64>| is_call_order(order, calls)
}

/// The event that reports a call as done.
pub open spec fn call_done(index: i64, call: CallView) -> ResponseEventView {
    ResponseEventView::OutputItemDone(
        call_item(id_or_index(call.id, index), text_or_empty(call.name), call.arguments),
    )
}

/// The events that report the calls as done, by ascending index.
pub open spec fn calls_done(calls: Map<i64, CallView>) -> Seq<ResponseEventView> {
    call_order(calls).map_values(|index: i64| call_done(index, calls[index]))
}

/// The event that reports a text as done, where there is any text.
pub open spec fn text_done(text: Seq<char>) -> Seq<ResponseEventView> {
    if text.len() > 0 {
        seq![ResponseEventView::OutputItemDone(text_item(text))]
    } else {
        Seq::empty()
    }
}

/// Whether a choice carries anything that opens the turn.
pub open spec fn opens_turn(choice: ChatChoiceView) -> bool {
    choice.role is Some || text_or_empty(choice.content).len() > 0 || choice.tool_calls.len() > 0
}

impl CallView {
    /// What a fragment adds to a call.
    pub open spec fn extended(self, delta: ChatToolCallDeltaView) -> CallView {
        let arguments = text_or_empty(delta.arguments);
        CallView {
            id: first_of(delta.id, self.id),
            name: first_of(delta.name, self.name),
            arguments: self.arguments + arguments,
            announced: self.announced || arguments.len() > 0,
        }
    }
}

impl ChatStateView {
    /// What is known of the call with this index.
    pub open spec fn call(self, index: i64) -> CallView {
        if self.tool_calls.contains_key(index) {
            self.tool_calls[index]
        } else {
            fresh_call()
        }
    }

    /// A fragment of a tool call comes. Where it carries arguments, they are
    /// passed on, after the announcement of the call where it is the first.
    pub open spec fn on_tool_call_delta(self, delta: ChatToolCallDeltaView) -> (
        ChatStateView,
        Seq<ResponseEventView>,
    ) {
        let before = self.call(delta.index);
        let call = before.extended(delta);
        let arguments = text_or_empty(delta.arguments);
        let fragment = ResponseEventView::ToolCallInputDelta {
            item_id: id_or_index(call.id, delta.index),
            call_id: call.id,
            delta: arguments,
        };
        let announcement = ResponseEventView::OutputItemAdded(
            call_item(text_or_empty(call.id), text_or_empty(call.name), Seq::empty()),
        );
        (
            ChatStateView { tool_calls: self.tool_calls.insert(delta.index, call), ..self },
            if arguments.len() == 0 {
                Seq::empty()
            } else if before.announced {
                seq![fragment]
            } else {
                seq![announcement, fragment]
            },
        )
    }

    /// Fragments of tool calls come, one after the other.
    pub open spec fn on_tool_call_deltas(self, deltas: Seq<ChatToolCallDeltaView>) -> (
        ChatStateView,
        Seq<ResponseEventView>,
    )
        decreases deltas.len(),
    {
        if deltas.len() == 0 {
            (self, Seq::empty())
        } else {
            let before = self.on_tool_call_deltas(deltas.drop_last());
            let step = before.0.on_tool_call_delta(deltas.last());
            (step.0, before.1 + step.1)
        }
    }

    /// The turn is announced, where it was not yet and the choice carries
    /// anything.
    pub open spec fn on_opening(self, choice: ChatChoiceView) -> (
        ChatStateView,
        Seq<ResponseEventView>,
    ) {
        if !self.created_emitted && opens_turn(choice) {
            (
                ChatStateView { created_emitted: true, ..self },
                seq![ResponseEventView::Created],
            )
        } else {
            (self, Seq::empty())
        }
    }

    /// A fragment of text comes and is passed on, where there is any text.
    pub open spec fn on_content(self, content: Option<Seq<char>>) -> (
        ChatStateView,
        Seq<ResponseEventView>,
    ) {
        let text = text_or_empty(content);
        (
            ChatStateView { text_buffer: self.text_buffer + text, ..self },
            if text.len() > 0 {
                seq![ResponseEventView::OutputTextDelta(text)]
            } else {
                Seq::empty()
            },
        )
    }

    /// A choice comes: text first, then tool calls. The first finish reason is
    /// kept.
    pub open spec fn on_choice(self, choice: ChatChoiceView) -> (
        ChatStateView,
        Seq<ResponseEventView>,
    ) {
        let opened = self.on_opening(choice);
        let read = opened.0.on_content(choice.content);
        let called = read.0.on_tool_call_deltas(choice.tool_calls);
        (
            ChatStateView {
                finish_reason: first_of(called.0.finish_reason, choice.finish_reason),
                ..called.0
            },
            opened.1 + read.1 + called.1,
        )
    }

    /// Choices come, one after the other.
    pub open spec fn on_choices(self, choices: Seq<ChatChoiceView>) -> (
        ChatStateView,
        Seq<ResponseEventView>,
    )
        decreases choices.len(),
    {
        if choices.len() == 0 {
            (self, Seq::empty())
        } else {
            let before = self.on_choices(choices.drop_last());
            let step = before.0.on_choice(choices.last());
            (step.0, before.1 + step.1)
        }
    }

    /// The part of a chunk outside its choices comes. The first id is kept, and
    /// a model is announced where it differs from the one announced last.
    pub open spec fn on_frame(self, chunk: ChatChunkView) -> (
        ChatStateView,
        Seq<ResponseEventView>,
    ) {
        let known = ChatStateView {
            response_id: first_of(self.response_id, chunk.id),
            usage: first_of(chunk.usage, self.usage),
            server_model: first_of(chunk.model, self.server_model),
            ..self
        };
        match chunk.model {
            Some(model) if self.server_model != Some(model) => (
                known,
                seq![ResponseEventView::ServerModel(model)],
            ),
            _ => (known, Seq::empty()),
        }
    }

    /// The text and the calls are reported as done, once.
    pub open spec fn on_flush(self) -> (ChatStateView, Seq<ResponseEventView>) {
        if self.flushed {
            (self, Seq::empty())
        } else {
            (
                ChatStateView {
                    text_buffer: Seq::empty(),
                    tool_calls: Map::empty(),
                    flushed: true,
                    ..self
                },
                text_done(self.text_buffer) + calls_done(self.tool_calls),
            )
        }
    }

    /// Everything that a chunk carries comes.
    pub open spec fn on_reading(self, chunk: ChatChunkView) -> (
        ChatStateView,
        Seq<ResponseEventView>,
    ) {
        let framed = self.on_frame(chunk);
        let read = framed.0.on_choices(chunk.choices);
        (read.0, framed.1 + read.1)
    }

    /// A chunk comes. Once there is a finish reason, the text and the calls are
    /// done.
    pub open spec fn on_chunk(self, chunk: ChatChunkView) -> (
        ChatStateView,
        Seq<ResponseEventView>,
    ) {
        let read = self.on_reading(chunk);
        if read.0.finish_reason is Some {
            let done = read.0.on_flush();
            (done.0, read.1 + done.1)
        } else {
            read
        }
    }

    /// The event that reports the end of the turn.
    pub open spec fn completion(self) -> ResponseEventView {
        ResponseEventView::Completed {
            response_id: text_or_empty(self.response_id),
            token_usage: match self.usage {
                Some(usage) => Some(chat_usage(usage)),
                None => None,
            },
            end_turn: match self.finish_reason {
                Some(reason) => ends_turn(reason),
                None => None,
            },
        }
    }
}

// ── The state machine ────────────────────────────────────────────────────────

impl<'a> From<&'a ChatCompletionUsage> for TokenUsage {
    fn from(usage: &'a ChatCompletionUsage) -> (r: Self) {
        TokenUsage {
            input_tokens: usage.prompt_tokens,
            cached_input_tokens: match usage.prompt_tokens_details {
                Some(details) => details.cached_tokens,
                None => 0,
            },
            output_tokens: usage.completion_tokens,
            reasoning_output_tokens: match usage.completion_tokens_details {
                Some(details) => details.reasoning_tokens,
                None => 0,
            },
            total_tokens: usage.total_tokens,
        }
    }
}

impl<'a> vstd::std_specs::convert::FromSpecImpl<&'a ChatCompletionUsage> for TokenUsage {
    open spec fn obeys_from_spec() -> bool {
        true
    }

    open spec fn from_spec(usage: &'a ChatCompletionUsage) -> TokenUsage {
        chat_usage(*usage)
    }
}

proof fn lemma_same_order(a: Seq<i64>, b: Seq<i64>)
    requires
        forall|i: int, j: int| 0 <= i < j < a.len() ==> a[i] < a[j],
        forall|i: int, j: int| 0 <= i < j < b.len() ==> b[i] < b[j],
        forall|index: i64|
            #![trigger a.contains(index)]
            #![trigger b.contains(index)]
            a.contains(index) <==> b.contains(index),
    ensures
        a == b,
    decreases a.len(),
{
    if a.len() == 0 {
        if b.len() > 0 {
            assert(b.contains(b[0]));
        }
        assert(a =~= b);
    } else {
        assert(a.contains(a.last()));
        assert(b.len() > 0);
        assert(b.contains(b.last()));
        let i = choose|i: int| 0 <= i < a.len() && a[i] == b.last();
        let j = choose|j: int| 0 <= j < b.len() && b[j] == a.last();
        assert(a.last() == b.last());
        let a1 = a.drop_last();
        let b1 = b.drop_last();
        assert forall|index: i64|
            #![trigger a1.contains(index)]
            #![trigger b1.contains(index)]
            a1.contains(index) <==> b1.contains(index) by {
            if a1.contains(index) {
                let k = choose|k: int| 0 <= k < a1.len() && a1[k] == index;
                assert(a[k] == index);
                assert(a.contains(index));
                let l = choose|l: int| 0 <= l < b.len() && b[l] == index;
                assert(b1[l] == index);
            }
            if b1.contains(index) {
                let k = choose|k: int| 0 <= k < b1.len() && b1[k] == index;
                assert(b[k] == index);
                assert(b.contains(index));
                let l = choose|l: int| 0 <= l < a.len() && a[l] == index;
                assert(a1[l] == index);
            }
        }
        lemma_same_order(a1, b1);
        assert(a =~= a1.push(a.last()));
        assert(b =~= b1.push(b.last()));
    }
}

proof fn lemma_increasing(order: Seq<i64>)
    requires
        increasing_seq(order),
    ensures
        forall|i: int, j: int| 0 <= i < j < order.len() ==> order[i] < order[j],
{
    assert forall|i: int, j: int| 0 <= i < j < order.len() implies order[i] < order[j] by {
        assert(order[i].cmp_spec(&order[j]) is Less);
    }
}

proof fn lemma_call_order(order: Seq<i64>, calls: Map<i64, CallView>)
    requires
        is_call_order(order, calls),
    ensures
        call_order(calls) == order,
{
    lemma_same_order(call_order(calls), order);
}

/// Reads a fragment of a tool call.
fn read_tool_call_delta(
    delta: &ChatCompletionToolCallDelta,
    state: &mut ChatCompletionsStreamState,
    events: &mut Vec<ResponseEvent>,
)
    ensures
        ({
            let step = old(state).deep_view().on_tool_call_delta(delta.deep_view());
            &&& final(state).deep_view() == step.0
            &&& final(events).deep_view() == old(events).deep_view() + step.1
        }),
{
    let ghost before = state.deep_view();
    let ghost told = events.deep_view();
    let mut call = match state.tool_calls.remove(&delta.index) {
        Some(call) => call,
        None => ToolCallAccumulator::default(),
    };
    assert(call.deep_view() == before.call(delta.index));
    if let Some(id) = &delta.id {
        call.id = Some(id.clone());
    }
    if let Some(function) = &delta.function {
        if let Some(name) = &function.name {
            call.name = Some(name.clone());
        }
        if let Some(arguments) = &function.arguments {
            if !arguments.as_str().is_empty() {
                if !call.announced {
                    call.announced = true;
                    let call_id = match &call.id {
                        Some(id) => id.clone(),
                        None => String::new(),
                    };
                    let name = match &call.name {
                        Some(name) => name.clone(),
                        None => String::new(),
                    };
                    events.push(
                        ResponseEvent::OutputItemAdded(
                            function_call_item(call_id, name, String::new()),
                        ),
                    );
                }
                let item_id = match &call.id {
                    Some(id) => id.clone(),
                    None => decimal(delta.index),
                };
                events.push(
                    ResponseEvent::ToolCallInputDelta {
                        item_id,
                        call_id: call.id.clone(),
                        delta: arguments.clone(),
                    },
                );
                call.arguments.append(arguments.as_str());
            }
        }
    }
    let ghost step = before.on_tool_call_delta(delta.deep_view());
    assert(call.deep_view() =~= before.call(delta.index).extended(delta.deep_view()));
    state.tool_calls.insert(delta.index, call);
    assert(call_views(state.tool_calls@) =~= step.0.tool_calls);
    assert(events.deep_view() =~= told + step.1);
}

/// Reads a choice.
fn read_choice(
    choice: &ChatCompletionChoice,
    state: &mut ChatCompletionsStreamState,
    events: &mut Vec<ResponseEvent>,
)
    ensures
        ({
            let step = old(state).deep_view().on_choice(choice.deep_view());
            &&& final(state).deep_view() == step.0
            &&& final(events).deep_view() == old(events).deep_view() + step.1
        }),
{
    let ghost before = state.deep_view();
    let ghost told = events.deep_view();
    let ghost choice_view = choice.deep_view();
    let delta = &choice.delta;
    let has_content = match &delta.content {
        Some(content) => !content.as_str().is_empty(),
        None => false,
    };
    if !state.created_emitted {
        if delta.role.is_some() || has_content || delta.tool_calls.len() > 0 {
            events.push(ResponseEvent::Created);
            state.created_emitted = true;
        }
    }
    let ghost opened = before.on_opening(choice_view);
    assert(state.deep_view() == opened.0);
    assert(events.deep_view() =~= told + opened.1);
    if let Some(content) = &delta.content {
        if !content.as_str().is_empty() {
            events.push(ResponseEvent::OutputTextDelta(content.clone()));
            state.text_buffer.append(content.as_str());
        }
    }
    let ghost read = opened.0.on_content(choice_view.content);
    assert(state.text_buffer@ =~= read.0.text_buffer);
    assert(state.deep_view() == read.0);
    assert(events.deep_view() =~= told + opened.1 + read.1);
    let ghost heard = events.deep_view();
    let mut i: usize = 0;
    assert(choice_view.tool_calls.take(0) =~= Seq::empty());
    assert(heard + Seq::<ResponseEventView>::empty() =~= heard);
    while i < delta.tool_calls.len()
        invariant
            i <= delta.tool_calls.len(),
            choice_view.tool_calls == delta.tool_calls.deep_view(),
            state.deep_view() == read.0.on_tool_call_deltas(
                choice_view.tool_calls.take(i as int),
            ).0,
            events.deep_view() == heard + read.0.on_tool_call_deltas(
                choice_view.tool_calls.take(i as int),
            ).1,
        decreases delta.tool_calls.len() - i,
    {
        read_tool_call_delta(&delta.tool_calls[i], state, events);
        proof {
            let taken = choice_view.tool_calls.take(i + 1);
            assert(taken.drop_last() =~= choice_view.tool_calls.take(i as int));
            assert(taken.last() == delta.tool_calls[i as int].deep_view());
            assert(events.deep_view() =~= heard + read.0.on_tool_call_deltas(taken).1);
        }
        i = i + 1;
    }
    assert(choice_view.tool_calls.take(i as int) =~= choice_view.tool_calls);
    if state.finish_reason.is_none() {
        state.finish_reason = choice.finish_reason.clone();
    }
    assert(events.deep_view() =~= told + before.on_choice(choice_view).1);
}

/// Reports the text and the calls so far as done, once.
pub fn flush(state: &mut ChatCompletionsStreamState, events: &mut Vec<ResponseEvent>)
    ensures
        ({
            let step = old(state).deep_view().on_flush();
            &&& final(state).deep_view() == step.0
            &&& final(events).deep_view() == old(events).deep_view() + step.1
        }),
{
    let ghost before = state.deep_view();
    let ghost told = events.deep_view();
    if state.flushed {
        assert(events.deep_view() =~= told + Seq::empty());
        return;
    }
    state.flushed = true;
    if !state.text_buffer.as_str().is_empty() {
        let mut text = String::new();
        std::mem::swap(&mut text, &mut state.text_buffer);
        events.push(ResponseEvent::OutputItemDone(message_item(text)));
    }
    assert(state.text_buffer@ =~= Seq::empty());
    assert(events.deep_view() =~= told + text_done(before.text_buffer));
    let ghost heard = events.deep_view();
    let mut calls: BTreeMap<i64, ToolCallAccumulator> = BTreeMap::new();
    std::mem::swap(&mut calls, &mut state.tool_calls);
    assert(call_views(state.tool_calls@) =~= Map::empty());
    let entries = calls.iter();
    let ghost pairs = entries.remaining();
    let ghost order = pairs.map_values(|kv: (&i64, &ToolCallAccumulator)| *kv.0);
    let ghost done = |index: i64| call_done(index, before.tool_calls[index]);
    proof {
        lemma_increasing(order);
        assert forall|index: i64|
            #[trigger] order.contains(index) <==> before.tool_calls.contains_key(
            index,
        ) by {
            if order.contains(index) {
                let i = choose|i: int| 0 <= i < order.len() && order[i] == index;
                assert(calls@.contains_key(*pairs[i].0));
            }
            if calls@.contains_key(index) {
                let i = choose|i: int| 0 <= i < pairs.len() && pairs[i] == (&index, &calls@[index]);
                assert(pairs.contains((&index, &calls@[index])));
                assert(order[i] == index);
            }
        }
        lemma_call_order(order, before.tool_calls);
        assert(heard + order.take(0).map_values(done) =~= heard);
    }
    for entry in it: entries
        invariant
            pairs == calls.iter().remaining(),
            it.seq() == pairs,
            order == pairs.map_values(|kv: (&i64, &ToolCallAccumulator)| *kv.0),
            before.tool_calls == call_views(calls@),
            done == |index: i64| call_done(index, before.tool_calls[index]),
            events.deep_view() == heard + order.take(it.index()).map_values(done),
    {
        let (index, call) = entry;
        assert(pairs[it.index()] == (index, call));
        assert(calls@.contains_key(*pairs[it.index()].0));
        let call_id = match &call.id {
            Some(id) => id.clone(),
            None => decimal(*index),
        };
        let name = match &call.name {
            Some(name) => name.clone(),
            None => String::new(),
        };
        let event = ResponseEvent::OutputItemDone(
            function_call_item(call_id, name, call.arguments.clone()),
        );
        assert(before.tool_calls[*index] == call.deep_view());
        assert(event.deep_view() == done(*index));
        let ghost earlier = events.deep_view();
        events.push(event);
        assert(events.deep_view() =~= earlier.push(done(*index)));
        assert(order.take(it.index() + 1) =~= order.take(it.index()).push(*index));
        assert(events.deep_view() =~= heard + order.take(it.index() + 1).map_values(done));
    }
    assert(order.take(order.len() as int) =~= order);
    assert(events.deep_view() =~= told + before.on_flush().1);
}

/// The event that reports the end of the turn.
pub fn completed_event(state: &ChatCompletionsStreamState) -> (r: ResponseEvent)
    ensures
        r.deep_view() == state.deep_view().completion(),
{
    let response_id = match &state.response_id {
        Some(id) => id.clone(),
        None => String::new(),
    };
    let token_usage = match &state.usage {
        Some(usage) => Some(TokenUsage::from(usage)),
        None => None,
    };
    let end_turn = match &state.finish_reason {
        Some(reason) => finish_reason_ends_turn(reason.as_str()),
        None => None,
    };
    ResponseEvent::Completed { response_id, token_usage, end_turn }
}

/// Processes a single chunk of a Chat Completions stream.
pub fn process_chat_completion_chunk(
    chunk: ChatCompletionChunk,
    state: &mut ChatCompletionsStreamState,
) -> (r: Vec<ResponseEvent>)
    ensures
        (final(state).deep_view(), r.deep_view()) == old(state).deep_view().on_chunk(
            chunk.deep_view(),
        ),
{
    let ghost before = state.deep_view();
    let ghost chunk_view = chunk.deep_view();
    let mut events: Vec<ResponseEvent> = Vec::new();
    if state.response_id.is_none() {
        state.response_id = chunk.id;
    }
    if let Some(usage) = chunk.usage {
        state.usage = Some(usage);
    }
    if let Some(model) = chunk.model {
        let announced = match &state.server_model {
            Some(server_model) => same_text(server_model.as_str(), model.as_str()),
            None => false,
        };
        if !announced {
            state.server_model = Some(model.clone());
            events.push(ResponseEvent::ServerModel(model));
        }
    }
    let ghost framed = before.on_frame(chunk_view);
    assert(state.deep_view() == framed.0);
    assert(events.deep_view() =~= framed.1);
    let mut i: usize = 0;
    assert(chunk_view.choices.take(0) =~= Seq::empty());
    assert(framed.1 + Seq::<ResponseEventView>::empty() =~= framed.1);
    while i < chunk.choices.len()
        invariant
            i <= chunk.choices.len(),
            chunk_view.choices == chunk.choices.deep_view(),
            state.deep_view() == framed.0.on_choices(chunk_view.choices.take(i as int)).0,
            events.deep_view() == framed.1 + framed.0.on_choices(
                chunk_view.choices.take(i as int),
            ).1,
        decreases chunk.choices.len() - i,
    {
        read_choice(&chunk.choices[i], state, &mut events);
        proof {
            let taken = chunk_view.choices.take(i + 1);
            assert(taken.drop_last() =~= chunk_view.choices.take(i as int));
            assert(taken.last() == chunk.choices[i as int].deep_view());
            assert(events.deep_view() =~= framed.1 + framed.0.on_choices(taken).1);
        }
        i = i + 1;
    }
    assert(chunk_view.choices.take(i as int) =~= chunk_view.choices);
    if state.finish_reason.is_some() {
        flush(state, &mut events);
    }
    events
}

// ── The stream ───────────────────────────────────────────────────────────────

/// What came of waiting for the next event of a Chat Completions stream.
#[derive(Debug)]
pub enum ChatCompletionPoll {
    /// An event came. `chunk` is the chunk that its data holds, where it holds
    /// one.
    Data { data: String, chunk: Option<ChatCompletionChunk> },
    /// The stream broke.
    Failed(String),
    /// The stream ended.
    Closed,
    /// Nothing came for too long.
    IdleTimeout,
}

/// What a [`ChatCompletionPoll`] says.
pub enum ChatPollView {
    Data { data: Seq<char>, chunk: Option<ChatChunkView> },
    Failed(Seq<char>),
    Closed,
    IdleTimeout,
}

impl DeepView for ChatCompletionPoll {
    type V = ChatPollView;

    open spec fn deep_view(&self) -> ChatPollView {
        match self {
            ChatCompletionPoll::Data { data, chunk } => ChatPollView::Data {
                data: data@,
                chunk: chunk.deep_view(),
            },
            ChatCompletionPoll::Failed(message) => ChatPollView::Failed(message@),
            ChatCompletionPoll::Closed => ChatPollView::Closed,
            ChatCompletionPoll::IdleTimeout => ChatPollView::IdleTimeout,
        }
    }
}

/// Whether the data of an event says that the stream is over.
pub open spec fn is_done_sentinel(data: Seq<char>) -> bool {
    trimmed(data) == STREAM_DONE_SENTINEL@
}

impl ChatStateView {
    /// What a poll of the stream does to the state, and what to do about it. A
    /// stream that ends without saying so is complete where its items are done.
    pub open spec fn on_poll(self, poll: ChatPollView) -> (ChatStateView, StepView) {
        match poll {
            ChatPollView::Data { data, chunk } => if is_done_sentinel(data) {
                let done = self.on_flush();
                (done.0, told(done.1.push(done.0.completion()), true))
            } else {
                match chunk {
                    Some(chunk) => (
                        self.on_chunk(chunk).0,
                        told(self.on_chunk(chunk).1, false),
                    ),
                    None => (self, silent_step()),
                }
            },
            ChatPollView::Failed(message) => (self, failed_step(message)),
            ChatPollView::Closed => if self.flushed {
                (self, told(seq![self.completion()], true))
            } else {
                (self, failed_step("chat completions stream closed before [DONE]"@))
            },
            ChatPollView::IdleTimeout => (
                self,
                failed_step("idle timeout waiting for Chat Completions SSE"@),
            ),
        }
    }
}

/// The step that tells of these events.
fn tell(events: Vec<ResponseEvent>, finished: bool) -> (r: StreamStep)
    ensures
        r.deep_view() == told(events.deep_view(), finished),
{
    let ghost all = events.deep_view();
    let mut outcomes: Vec<Result<ResponseEvent, ApiError>> = Vec::new();
    for event in it: events.into_iter()
        invariant
            it.seq() == events@,
            all == events.deep_view(),
            outcomes.len() == it.index(),
            forall|i: int|
                0 <= i < outcomes.len() ==> outcome_view(#[trigger] outcomes[i]) == Ok::<
                    ResponseEventView,
                    ApiErrorView,
                >(all[i]),
    {
        outcomes.push(Ok(event));
    }
    assert(outcome_views(outcomes@) =~= told(all, finished).outcomes);
    StreamStep { outcomes, finished }
}

/// Whether the data of an event says that the stream is over, blanks around it aside.
pub fn is_stream_done(data: &str) -> (r: bool)
    ensures
        r == is_done_sentinel(data@),
{
    same_text(trim(data), STREAM_DONE_SENTINEL)
}

/// Decides what to do after a poll of a Chat Completions stream.
pub fn chat_completion_stream_step(
    poll: ChatCompletionPoll,
    state: &mut ChatCompletionsStreamState,
) -> (r: StreamStep)
    ensures
        (final(state).deep_view(), r.deep_view()) == old(state).deep_view().on_poll(
            poll.deep_view(),
        ),
{
    match poll {
        ChatCompletionPoll::Data { data, chunk } => {
            if is_stream_done(data.as_str()) {
                let mut events: Vec<ResponseEvent> = Vec::new();
                let ghost done = state.deep_view().on_flush();
                flush(state, &mut events);
                assert(events.deep_view() =~= done.1);
                events.push(completed_event(state));
                assert(events.deep_view() =~= done.1.push(done.0.completion()));
                tell(events, true)
            } else {
                match chunk {
                    Some(chunk) => {
                        let events = process_chat_completion_chunk(chunk, state);
                        tell(events, false)
                    },
                    None => go_on(),
                }
            }
        },
        ChatCompletionPoll::Failed(message) => fail(message),
        ChatCompletionPoll::Closed => {
            if state.flushed {
                let mut events: Vec<ResponseEvent> = Vec::new();
                events.push(completed_event(state));
                assert(events.deep_view() =~= seq![state.deep_view().completion()]);
                tell(events, true)
            } else {
                fail("chat completions stream closed before [DONE]".to_string())
            }
        },
        ChatCompletionPoll::IdleTimeout => fail(
            "idle timeout waiting for Chat Completions SSE".to_string(),
        ),
    }
}

// ── Laws ─────────────────────────────────────────────────────────────────────

/// The events that chunks are reported as, and the state they leave.
pub open spec fn run_chunks(state: ChatStateView, chunks: Seq<ChatChunkView>) -> (
    ChatStateView,
    Seq<ResponseEventView>,
)
    decreases chunks.len(),
{
    if chunks.len() == 0 {
        (state, Seq::empty())
    } else {
        let before = run_chunks(state, chunks.drop_last());
        let step = before.0.on_chunk(chunks.last());
        (step.0, before.1 + step.1)
    }
}

/// An order with one index more, in its place.
spec fn with_index(order: Seq<i64>, index: i64) -> Seq<i64>
    decreases order.len(),
{
    if order.len() == 0 || order.last() < index {
        order.push(index)
    } else {
        with_index(order.drop_last(), index).push(order.last())
    }
}

proof fn lemma_with_index(order: Seq<i64>, index: i64)
    requires
        forall|i: int, j: int| 0 <= i < j < order.len() ==> order[i] < order[j],
        !order.contains(index),
    ensures
        ({
            let more = with_index(order, index);
            &&& forall|i: int, j: int| 0 <= i < j < more.len() ==> more[i] < more[j]
            &&& forall|k: i64| #[trigger] more.contains(k) <==> k == index || order.contains(k)
        }),
    decreases order.len(),
{
    let more = with_index(order, index);
    if order.len() == 0 || order.last() < index {
        assert forall|k: i64| #[trigger] more.contains(k) <==> k == index || order.contains(k) by {
            assert(more[order.len() as int] == index);
            if order.contains(k) {
                let i = choose|i: int| 0 <= i < order.len() && order[i] == k;
                assert(more[i] == k);
            }
        }
    } else {
        let earlier = order.drop_last();
        let last = order.last();
        assert(order[order.len() - 1] == last);
        assert(order.contains(last));
        assert forall|k: i64| earlier.contains(k) implies order.contains(k) by {
            let i = choose|i: int| 0 <= i < earlier.len() && earlier[i] == k;
            assert(order[i] == k);
        }
        lemma_with_index(earlier, index);
        let placed = with_index(earlier, index);
        assert forall|i: int, j: int| 0 <= i < j < more.len() implies more[i] < more[j] by {
            if j == placed.len() {
                assert(placed.contains(placed[i]));
                if placed[i] != index {
                    let k = choose|k: int| 0 <= k < earlier.len() && earlier[k] == placed[i];
                    assert(order[k] < order[order.len() - 1]);
                }
            }
        }
        assert forall|k: i64| #[trigger] more.contains(k) <==> k == index || order.contains(k) by {
            assert(more[placed.len() as int] == last);
            if more.contains(k) {
                let i = choose|i: int| 0 <= i < more.len() && more[i] == k;
                if i < placed.len() {
                    assert(placed[i] == k);
                    assert(placed.contains(k));
                }
            }
            if order.contains(k) && k != last {
                let i = choose|i: int| 0 <= i < order.len() && order[i] == k;
                assert(earlier[i] == k);
                assert(earlier.contains(k));
            }
            if placed.contains(k) {
                let i = choose|i: int| 0 <= i < placed.len() && placed[i] == k;
                assert(more[i] == k);
            }
            if k == index || earlier.contains(k) {
                assert(placed.contains(k));
            }
        }
    }
}

proof fn lemma_order_of(calls: Map<i64, CallView>) -> (order: Seq<i64>)
    requires
        calls.dom().finite(),
    ensures
        is_call_order(order, calls),
    decreases calls.dom().len(),
{
    if calls.dom().len() == 0 {
        assert(calls.dom() =~= Set::empty());
        assert forall|k: i64| #[trigger] Seq::<i64>::empty().contains(k) <==> calls.contains_key(
            k,
        ) by {
            assert(!calls.dom().contains(k));
        }
        Seq::empty()
    } else {
        let index = calls.dom().choose();
        let rest = calls.remove(index);
        assert(rest.dom() =~= calls.dom().remove(index));
        let order = lemma_order_of(rest);
        assert(order.contains(index) <==> rest.contains_key(index));
        lemma_with_index(order, index);
        let more = with_index(order, index);
        assert forall|k: i64| #[trigger] more.contains(k) <==> calls.contains_key(k) by {
            assert(order.contains(k) <==> rest.contains_key(k));
        }
        more
    }
}

/// However the calls came, they have an ascending order, and [`call_order`] is it.
pub proof fn calls_have_an_order(calls: Map<i64, CallView>)
    requires
        calls.dom().finite(),
    ensures
        is_call_order(call_order(calls), calls),
{
    let order = lemma_order_of(calls);
}

/// Whether an event passes on what a choice carries.
pub open spec fn is_fragment(event: ResponseEventView) -> bool {
    event is Created || event is OutputTextDelta || event is OutputItemAdded
        || event is ToolCallInputDelta
}

proof fn lemma_deltas_are_fragments(state: ChatStateView, deltas: Seq<ChatToolCallDeltaView>)
    ensures
        ({
            let events = state.on_tool_call_deltas(deltas).1;
            forall|i: int|
                0 <= i < events.len() ==> (#[trigger] events[i] is OutputItemAdded
                    || events[i] is ToolCallInputDelta)
        }),
        state.on_tool_call_deltas(deltas).0 == (ChatStateView {
            tool_calls: state.on_tool_call_deltas(deltas).0.tool_calls,
            ..state
        }),
    decreases deltas.len(),
{
    if deltas.len() > 0 {
        lemma_deltas_are_fragments(state, deltas.drop_last());
    }
}

proof fn lemma_choices_are_fragments(state: ChatStateView, choices: Seq<ChatChoiceView>)
    ensures
        ({
            let events = state.on_choices(choices).1;
            forall|i: int| 0 <= i < events.len() ==> is_fragment(#[trigger] events[i])
        }),
        ({
            let after = state.on_choices(choices).0;
            &&& after.flushed == state.flushed
            &&& after.response_id == state.response_id
            &&& after.usage == state.usage
            &&& after.server_model == state.server_model
        }),
    decreases choices.len(),
{
    if choices.len() > 0 {
        lemma_choices_are_fragments(state, choices.drop_last());
        let before = state.on_choices(choices.drop_last()).0;
        let choice = choices.last();
        let read = before.on_opening(choice).0.on_content(choice.content).0;
        lemma_deltas_are_fragments(read, choice.tool_calls);
        let events = before.on_choice(choice).1;
        assert forall|i: int| 0 <= i < events.len() implies is_fragment(#[trigger] events[i]) by {
            let calls = read.on_tool_call_deltas(choice.tool_calls).1;
            let first = events.len() - calls.len();
            if i >= first {
                assert(events[i] == calls[i - first]);
            }
        }
    }
}

/// No chunk completes the turn: that is left to the end of the stream. And
/// nothing is reported as done before there is a finish reason.
pub proof fn chunks_do_not_complete(state: ChatStateView, chunk: ChatChunkView)
    ensures
        ({
            let events = state.on_chunk(chunk).1;
            forall|i: int|
                0 <= i < events.len() ==> !(#[trigger] events[i] is Completed) && (
                events[i] is OutputItemDone ==> state.on_chunk(chunk).0.finish_reason is Some)
        }),
{
    lemma_choices_are_fragments(state.on_frame(chunk).0, chunk.choices);
    let read = state.on_reading(chunk);
    let events = state.on_chunk(chunk).1;
    assert forall|i: int| 0 <= i < events.len() implies !(#[trigger] events[i] is Completed) && (
    events[i] is OutputItemDone ==> state.on_chunk(chunk).0.finish_reason is Some) by {
        let framed = state.on_frame(chunk);
        let choices = framed.0.on_choices(chunk.choices).1;
        if framed.1.len() <= i < read.1.len() {
            assert(events[i] == choices[i - framed.1.len()]);
        }
    }
}

/// The text and the calls are reported as done at most once: after that, nothing
/// is.
pub proof fn items_are_done_once(state: ChatStateView, chunk: ChatChunkView)
    requires
        state.flushed,
    ensures
        state.on_chunk(chunk).0.flushed,
        ({
            let events = state.on_chunk(chunk).1;
            forall|i: int| 0 <= i < events.len() ==> !(#[trigger] events[i] is OutputItemDone)
        }),
        state.on_flush() == (state, Seq::<ResponseEventView>::empty()),
{
    lemma_choices_are_fragments(state.on_frame(chunk).0, chunk.choices);
    let events = state.on_chunk(chunk).1;
    let framed = state.on_frame(chunk);
    let choices = framed.0.on_choices(chunk.choices).1;
    assert(events =~= framed.1 + choices);
}

/// A model is not announced again where the next chunk names it again.
pub proof fn same_model_is_announced_once(
    state: ChatStateView,
    first: ChatChunkView,
    second: ChatChunkView,
)
    requires
        first.model is Some,
        first.model == second.model,
    ensures
        ({
            let events = state.on_chunk(first).0.on_chunk(second).1;
            forall|i: int| 0 <= i < events.len() ==> !(#[trigger] events[i] is ServerModel)
        }),
{
    let between = state.on_chunk(first).0;
    lemma_choices_are_fragments(state.on_frame(first).0, first.choices);
    lemma_choices_are_fragments(between.on_frame(second).0, second.choices);
    let events = between.on_chunk(second).1;
    let choices = between.on_frame(second).0.on_choices(second.choices).1;
    assert forall|i: int| 0 <= i < events.len() implies !(#[trigger] events[i] is ServerModel) by {
        if i < choices.len() {
            assert(events[i] == choices[i]);
        }
    }
}

/// The models that events announce, in order.
pub open spec fn models_announced(events: Seq<ResponseEventView>) -> Seq<Seq<char>>
    decreases events.len(),
{
    if events.len() == 0 {
        Seq::empty()
    } else {
        let before = models_announced(events.drop_last());
        match events.last() {
            ResponseEventView::ServerModel(model) => before.push(model),
            _ => before,
        }
    }
}

proof fn lemma_more_models(events: Seq<ResponseEventView>, more: Seq<ResponseEventView>)
    ensures
        models_announced(events + more) == models_announced(events) + models_announced(more),
    decreases more.len(),
{
    if more.len() == 0 {
        assert(events + more =~= events);
        assert(models_announced(events) + models_announced(more) =~= models_announced(events));
    } else {
        lemma_more_models(events, more.drop_last());
        assert((events + more).drop_last() =~= events + more.drop_last());
        assert(models_announced(events + more) =~= models_announced(events) + models_announced(
            more,
        ));
    }
}

proof fn lemma_no_models(events: Seq<ResponseEventView>)
    requires
        forall|i: int| 0 <= i < events.len() ==> !(#[trigger] events[i] is ServerModel),
    ensures
        models_announced(events) == Seq::<Seq<char>>::empty(),
    decreases events.len(),
{
    if events.len() > 0 {
        let earlier = events.drop_last();
        assert forall|i: int| 0 <= i < earlier.len() implies !(
        #[trigger] earlier[i] is ServerModel) by {
            assert(!(events[i] is ServerModel));
        }
        lemma_no_models(earlier);
        assert(!(events[events.len() - 1] is ServerModel));
    }
}

/// A chunk announces its model where that is not the one announced last, and nothing
/// else.
proof fn lemma_chunk_models(state: ChatStateView, chunk: ChatChunkView)
    ensures
        models_announced(state.on_chunk(chunk).1) == (match chunk.model {
            Some(model) if state.server_model != Some(model) => seq![model],
            _ => Seq::empty(),
        }),
        state.on_chunk(chunk).0.server_model == first_of(chunk.model, state.server_model),
{
    let framed = state.on_frame(chunk);
    let read = framed.0.on_choices(chunk.choices);
    let done = read.0.on_flush();
    lemma_choices_are_fragments(framed.0, chunk.choices);
    assert forall|i: int| 0 <= i < read.1.len() implies !(#[trigger] read.1[i] is ServerModel) by {
        assert(is_fragment(read.1[i]));
    }
    lemma_no_models(read.1);
    lemma_no_models(done.1);
    lemma_more_models(framed.1, read.1);
    lemma_more_models(framed.1 + read.1, done.1);
    reveal_with_fuel(models_announced, 2);
    if framed.1.len() > 0 {
        assert(framed.1.drop_last() =~= Seq::empty());
    }
    let expected = match chunk.model {
        Some(model) if state.server_model != Some(model) => seq![model],
        _ => Seq::empty(),
    };
    assert(models_announced(framed.1) =~= expected);
    assert(models_announced(state.on_chunk(chunk).1) =~= expected);
}

/// Over any run of chunks, two models that are announced one after the other differ, and
/// the one announced last is the one that is known.
pub proof fn announced_models_change(chunks: Seq<ChatChunkView>)
    ensures
        ({
            let run = run_chunks(fresh_chat_state(), chunks);
            let models = models_announced(run.1);
            &&& forall|i: int| 1 <= i < models.len() ==> #[trigger] models[i] != models[i - 1]
            &&& run.0.server_model == (if models.len() > 0 {
                Some(models.last())
            } else {
                None
            })
        }),
    decreases chunks.len(),
{
    if chunks.len() > 0 {
        let earlier = chunks.drop_last();
        announced_models_change(earlier);
        let before = run_chunks(fresh_chat_state(), earlier);
        lemma_chunk_models(before.0, chunks.last());
        lemma_more_models(before.1, before.0.on_chunk(chunks.last()).1);
    }
}

/// A stream is over exactly when its receiver has been told of the end of the
/// turn or of a failure, and that is the last thing it is told.
pub proof fn chat_stream_ends_with_its_last_word(state: ChatStateView, poll: ChatPollView)
    ensures
        has_one_last_word(state.on_poll(poll).1),
{
    if let ChatPollView::Data { data, chunk: Some(chunk) } = poll {
        chunks_do_not_complete(state, chunk);
    }
}

/// What the receiver is told over a run of polls, and the state they leave. A stream
/// that is finished is not polled again.
pub open spec fn run_chat_polls(state: ChatStateView, polls: Seq<ChatPollView>) -> (
    ChatStateView,
    StepView,
)
    decreases polls.len(),
{
    if polls.len() == 0 {
        (state, silent_step())
    } else {
        let before = run_chat_polls(state, polls.drop_last());
        if before.1.finished {
            before
        } else {
            let step = before.0.on_poll(polls.last());
            (
                step.0,
                StepView {
                    outcomes: before.1.outcomes + step.1.outcomes,
                    finished: step.1.finished,
                },
            )
        }
    }
}

/// However a stream goes, over the whole of it the receiver is told of the end of the
/// turn or of a failure once at most, and of nothing after that; and the stream is over
/// exactly then.
pub proof fn chat_run_has_one_last_word(state: ChatStateView, polls: Seq<ChatPollView>)
    ensures
        has_one_last_word(run_chat_polls(state, polls).1),
    decreases polls.len(),
{
    if polls.len() > 0 {
        chat_run_has_one_last_word(state, polls.drop_last());
        let before = run_chat_polls(state, polls.drop_last());
        if !before.1.finished {
            chat_stream_ends_with_its_last_word(before.0, polls.last());
            let step = before.0.on_poll(polls.last()).1;
            let whole = run_chat_polls(state, polls).1;
            assert forall|i: int| 0 <= i < whole.outcomes.len() implies (is_last_word(
                #[trigger] whole.outcomes[i],
            ) <==> (whole.finished && i == whole.outcomes.len() - 1)) by {
                if i < before.1.outcomes.len() {
                    assert(whole.outcomes[i] == before.1.outcomes[i]);
                    assert(!is_last_word(before.1.outcomes[i]));
                } else {
                    assert(whole.outcomes[i] == step.outcomes[i - before.1.outcomes.len()]);
                }
            }
        }
    }
}

/// Once a stream is finished, nothing more is told, whatever would have come.
proof fn lemma_chat_run_over(
    state: ChatStateView,
    polls: Seq<ChatPollView>,
    more: Seq<ChatPollView>,
)
    requires
        run_chat_polls(state, polls).1.finished,
    ensures
        run_chat_polls(state, polls + more) == run_chat_polls(state, polls),
    decreases more.len(),
{
    if more.len() == 0 {
        assert(polls + more =~= polls);
    } else {
        lemma_chat_run_over(state, polls, more.drop_last());
        assert((polls + more).drop_last() =~= polls + more.drop_last());
    }
}

/// Whether a poll brought data that does not end the stream: a chunk, or none.
pub open spec fn is_data(poll: ChatPollView) -> bool {
    poll matches ChatPollView::Data { data, .. } && !is_done_sentinel(data)
}

/// The chunks that polls brought, in order.
pub open spec fn chunks_in(polls: Seq<ChatPollView>) -> Seq<ChatChunkView>
    decreases polls.len(),
{
    if polls.len() == 0 {
        Seq::empty()
    } else {
        let before = chunks_in(polls.drop_last());
        match polls.last() {
            ChatPollView::Data { chunk: Some(chunk), .. } => before.push(chunk),
            _ => before,
        }
    }
}

proof fn lemma_data_run(state: ChatStateView, polls: Seq<ChatPollView>)
    requires
        forall|i: int| 0 <= i < polls.len() ==> is_data(#[trigger] polls[i]),
    ensures
        run_chat_polls(state, polls) == (
            run_chunks(state, chunks_in(polls)).0,
            told(run_chunks(state, chunks_in(polls)).1, false),
        ),
    decreases polls.len(),
{
    let run = run_chunks(state, chunks_in(polls));
    if polls.len() == 0 {
        assert(told(run.1, false).outcomes =~= Seq::empty());
    } else {
        let earlier = polls.drop_last();
        assert forall|i: int| 0 <= i < earlier.len() implies is_data(#[trigger] earlier[i]) by {
            assert(is_data(polls[i]));
        }
        assert(is_data(polls[polls.len() - 1]));
        lemma_data_run(state, earlier);
        let chunks = chunks_in(polls);
        let before = run_chunks(state, chunks_in(earlier));
        if let ChatPollView::Data { chunk: Some(chunk), .. } = polls.last() {
            assert(chunks.drop_last() =~= chunks_in(earlier));
            assert(told(before.1, false).outcomes + told(before.0.on_chunk(chunk).1, false).outcomes
                =~= told(run.1, false).outcomes);
        }
        assert(run_chat_polls(state, polls).1.outcomes =~= told(run.1, false).outcomes);
    }
}

/// After any data, the receiver has been told the events of the chunks in order. What
/// ends the stream is told after them, and nothing after that.
pub proof fn chat_stream_tells_chunks_then_its_end(
    state: ChatStateView,
    polls: Seq<ChatPollView>,
    end: ChatPollView,
    more: Seq<ChatPollView>,
)
    requires
        forall|i: int| 0 <= i < polls.len() ==> is_data(#[trigger] polls[i]),
        !is_data(end),
    ensures
        ({
            let read = run_chunks(state, chunks_in(polls));
            let last = read.0.on_poll(end);
            &&& run_chat_polls(state, polls) == (read.0, told(read.1, false))
            &&& run_chat_polls(state, polls.push(end) + more) == (
                last.0,
                StepView {
                    outcomes: told(read.1, false).outcomes + last.1.outcomes,
                    finished: true,
                },
            )
        }),
{
    lemma_data_run(state, polls);
    assert(polls.push(end).drop_last() =~= polls);
    lemma_chat_run_over(state, polls.push(end), more);
}

/// A stream that closes after any data without the sentinel is complete where the items
/// that came are done, and the receiver is then told one `Completed` after the events of
/// the chunks. Elsewhere the receiver is told of a failure in its place.
pub proof fn closed_stream_completes_a_finished_turn(
    polls: Seq<ChatPollView>,
    more: Seq<ChatPollView>,
)
    requires
        forall|i: int| 0 <= i < polls.len() ==> is_data(#[trigger] polls[i]),
    ensures
        ({
            let read = run_chunks(fresh_chat_state(), chunks_in(polls));
            let whole = run_chat_polls(
                fresh_chat_state(),
                polls.push(ChatPollView::Closed) + more,
            ).1;
            if read.0.flushed {
                whole == told(read.1.push(stream_completion(chunks_in(polls))), true)
            } else {
                whole == (StepView {
                    outcomes: told(read.1, false).outcomes + failed_step(
                        "chat completions stream closed before [DONE]"@,
                    ).outcomes,
                    finished: true,
                })
            }
        }),
{
    let read = run_chunks(fresh_chat_state(), chunks_in(polls));
    chat_stream_tells_chunks_then_its_end(fresh_chat_state(), polls, ChatPollView::Closed, more);
    completion_reports_the_stream(chunks_in(polls));
    assert(told(read.1, false).outcomes + told(seq![read.0.completion()], true).outcomes
        =~= told(read.1.push(read.0.completion()), true).outcomes);
}

/// After any data and then the sentinel, the receiver has been told the events of the
/// chunks in order, then the items that were not done yet, then one `Completed`, and
/// nothing after that, whatever would have come.
pub proof fn done_stream_tells_everything_once(
    polls: Seq<ChatPollView>,
    data: Seq<char>,
    chunk: Option<ChatChunkView>,
    more: Seq<ChatPollView>,
)
    requires
        forall|i: int| 0 <= i < polls.len() ==> is_data(#[trigger] polls[i]),
        is_done_sentinel(data),
    ensures
        ({
            let read = run_chunks(fresh_chat_state(), chunks_in(polls));
            let items = if read.0.flushed {
                Seq::empty()
            } else {
                text_done(read.0.text_buffer) + calls_done(read.0.tool_calls)
            };
            run_chat_polls(
                fresh_chat_state(),
                polls.push(ChatPollView::Data { data, chunk }) + more,
            ).1 == told((read.1 + items).push(stream_completion(chunks_in(polls))), true)
        }),
{
    let read = run_chunks(fresh_chat_state(), chunks_in(polls));
    let done = read.0.on_flush();
    let end = ChatPollView::Data { data, chunk };
    chat_stream_tells_chunks_then_its_end(fresh_chat_state(), polls, end, more);
    completion_reports_the_stream(chunks_in(polls));
    let items = done.1.push(done.0.completion());
    assert(told(read.1, false).outcomes + told(items, true).outcomes =~= told(
        (read.1 + done.1).push(done.0.completion()),
        true,
    ).outcomes);
}

/// Whether `Created` is among events.
pub open spec fn has_created(events: Seq<ResponseEventView>) -> bool {
    exists|i: int| 0 <= i < events.len() && #[trigger] events[i] is Created
}

/// Whether `Created` comes at most once, and before anything but the name of the
/// model.
pub open spec fn well_opened(events: Seq<ResponseEventView>) -> bool {
    forall|i: int|
        0 <= i < events.len() ==> if #[trigger] events[i] is Created {
            !has_created(events.take(i))
        } else {
            events[i] is ServerModel || has_created(events.take(i))
        }
}

/// What holds of the events so far and the state they leave.
spec fn opening_invariant(state: ChatStateView, events: Seq<ResponseEventView>) -> bool {
    &&& well_opened(events)
    &&& has_created(events) == state.created_emitted
    &&& !state.created_emitted ==> state.text_buffer.len() == 0 && state.tool_calls
        == Map::<i64, CallView>::empty()
}

proof fn lemma_created_stays(events: Seq<ResponseEventView>, more: Seq<ResponseEventView>)
    requires
        has_created(events),
    ensures
        has_created(events + more),
{
    let i = choose|i: int| 0 <= i < events.len() && #[trigger] events[i] is Created;
    assert((events + more)[i] is Created);
}

proof fn lemma_more_events(events: Seq<ResponseEventView>, more: Seq<ResponseEventView>)
    requires
        well_opened(events),
        forall|i: int|
            0 <= i < more.len() ==> !(#[trigger] more[i] is Created) && (more[i] is ServerModel
                || has_created(events)),
    ensures
        well_opened(events + more),
        has_created(events + more) == has_created(events),
{
    let all = events + more;
    assert forall|i: int| 0 <= i < all.len() implies if #[trigger] all[i] is Created {
        !has_created(all.take(i))
    } else {
        all[i] is ServerModel || has_created(all.take(i))
    } by {
        if i < events.len() {
            assert(all[i] == events[i]);
            assert(all.take(i) =~= events.take(i));
        } else {
            assert(all[i] == more[i - events.len()]);
            assert(all.take(i) =~= events + more.take(i - events.len()));
            if has_created(events) {
                lemma_created_stays(events, more.take(i - events.len()));
            }
        }
    }
    if has_created(events) {
        lemma_created_stays(events, more);
    }
    if has_created(all) {
        let i = choose|i: int| 0 <= i < all.len() && #[trigger] all[i] is Created;
        if i >= events.len() {
            assert(all[i] == more[i - events.len()]);
        }
        assert(events[i] is Created);
    }
}

proof fn lemma_first_created(events: Seq<ResponseEventView>)
    requires
        well_opened(events),
        !has_created(events),
    ensures
        well_opened(events.push(ResponseEventView::Created)),
        has_created(events.push(ResponseEventView::Created)),
{
    let all = events.push(ResponseEventView::Created);
    assert forall|i: int| 0 <= i < all.len() implies if #[trigger] all[i] is Created {
        !has_created(all.take(i))
    } else {
        all[i] is ServerModel || has_created(all.take(i))
    } by {
        assert(all.take(i) =~= events.take(i));
        if i < events.len() {
            assert(all[i] == events[i]);
        } else {
            assert(events.take(i) =~= events);
        }
    }
    assert(all[events.len() as int] is Created);
}

proof fn lemma_choice_keeps_opening(
    state: ChatStateView,
    events: Seq<ResponseEventView>,
    choice: ChatChoiceView,
)
    requires
        opening_invariant(state, events),
    ensures
        opening_invariant(state.on_choice(choice).0, events + state.on_choice(choice).1),
{
    let opened = state.on_opening(choice);
    let read = opened.0.on_content(choice.content);
    let called = read.0.on_tool_call_deltas(choice.tool_calls);
    lemma_deltas_are_fragments(read.0, choice.tool_calls);
    if !state.created_emitted && opens_turn(choice) {
        lemma_first_created(events);
        assert(events + opened.1 =~= events.push(ResponseEventView::Created));
    } else {
        assert(events + opened.1 =~= events);
    }
    if opened.0.created_emitted {
        lemma_more_events(events + opened.1, read.1);
        lemma_more_events(events + opened.1 + read.1, called.1);
    } else {
        assert(read.0.text_buffer =~= Seq::empty());
        assert(choice.tool_calls =~= Seq::empty());
        assert(events + opened.1 + read.1 + called.1 =~= events);
    }
    assert(events + state.on_choice(choice).1 =~= events + opened.1 + read.1 + called.1);
}

proof fn lemma_choices_keep_opening(
    state: ChatStateView,
    events: Seq<ResponseEventView>,
    choices: Seq<ChatChoiceView>,
)
    requires
        opening_invariant(state, events),
    ensures
        opening_invariant(state.on_choices(choices).0, events + state.on_choices(choices).1),
    decreases choices.len(),
{
    if choices.len() == 0 {
        assert(events + state.on_choices(choices).1 =~= events);
    } else {
        let before = state.on_choices(choices.drop_last());
        lemma_choices_keep_opening(state, events, choices.drop_last());
        lemma_choice_keeps_opening(before.0, events + before.1, choices.last());
        assert(events + state.on_choices(choices).1 =~= events + before.1 + before.0.on_choice(
            choices.last(),
        ).1);
    }
}

proof fn lemma_chunk_keeps_opening(
    state: ChatStateView,
    events: Seq<ResponseEventView>,
    chunk: ChatChunkView,
)
    requires
        opening_invariant(state, events),
    ensures
        opening_invariant(state.on_chunk(chunk).0, events + state.on_chunk(chunk).1),
{
    let framed = state.on_frame(chunk);
    let read = framed.0.on_choices(chunk.choices);
    lemma_more_events(events, framed.1);
    lemma_choices_keep_opening(framed.0, events + framed.1, chunk.choices);
    let so_far = events + framed.1 + read.1;
    assert(events + state.on_reading(chunk).1 =~= so_far);
    if read.0.finish_reason is Some {
        lemma_flush_keeps_opening(read.0, so_far);
        assert(events + state.on_chunk(chunk).1 =~= so_far + read.0.on_flush().1);
    }
}

proof fn lemma_flush_keeps_opening(state: ChatStateView, events: Seq<ResponseEventView>)
    requires
        opening_invariant(state, events),
    ensures
        opening_invariant(state.on_flush().0, events + state.on_flush().1),
{
    let done = state.on_flush().1;
    if !state.flushed {
        if !state.created_emitted {
            lemma_call_order(Seq::empty(), state.tool_calls);
            assert(calls_done(state.tool_calls) =~= Seq::empty());
            assert(done =~= Seq::empty());
        }
        lemma_more_events(events, done);
    } else {
        assert(events + done =~= events);
    }
}

/// Over a whole stream, `Created` comes at most once, and before anything but
/// the name of the model.
pub proof fn created_opens_the_turn(chunks: Seq<ChatChunkView>)
    ensures
        ({
            let read = run_chunks(fresh_chat_state(), chunks);
            let done = read.0.on_flush();
            well_opened(read.1) && well_opened(read.1 + done.1)
        }),
{
    lemma_run_keeps_opening(chunks);
    let read = run_chunks(fresh_chat_state(), chunks);
    lemma_flush_keeps_opening(read.0, read.1);
}

proof fn lemma_run_keeps_opening(chunks: Seq<ChatChunkView>)
    ensures
        opening_invariant(
            run_chunks(fresh_chat_state(), chunks).0,
            run_chunks(fresh_chat_state(), chunks).1,
        ),
    decreases chunks.len(),
{
    if chunks.len() > 0 {
        lemma_run_keeps_opening(chunks.drop_last());
        let before = run_chunks(fresh_chat_state(), chunks.drop_last());
        lemma_chunk_keeps_opening(before.0, before.1, chunks.last());
    }
}

/// However many fragments its arguments come in, a call is announced once, before
/// the first of them.
pub proof fn call_is_announced_once(
    state: ChatStateView,
    index: i64,
    deltas: Seq<ChatToolCallDeltaView>,
)
    requires
        !state.call(index).announced,
        forall|i: int| 0 <= i < deltas.len() ==> (#[trigger] deltas[i]).index == index,
    ensures
        ({
            let (after, events) = state.on_tool_call_deltas(deltas);
            &&& after.call(index).announced == (events.len() > 0)
            &&& events.len() > 0 ==> events[0] is OutputItemAdded
            &&& forall|i: int|
                1 <= i < events.len() ==> #[trigger] events[i] is ToolCallInputDelta
        }),
    decreases deltas.len(),
{
    if deltas.len() > 0 {
        let earlier = deltas.drop_last();
        assert forall|i: int| 0 <= i < earlier.len() implies (#[trigger] earlier[i]).index
            == index by {
            assert(deltas[i].index == index);
        }
        call_is_announced_once(state, index, earlier);
        assert(deltas[deltas.len() - 1].index == index);
    }
}

/// The choices of chunks, one after the other.
pub open spec fn all_choices(chunks: Seq<ChatChunkView>) -> Seq<ChatChoiceView>
    decreases chunks.len(),
{
    if chunks.len() == 0 {
        Seq::empty()
    } else {
        all_choices(chunks.drop_last()) + chunks.last().choices
    }
}

/// The text that choices carry.
pub open spec fn all_text(choices: Seq<ChatChoiceView>) -> Seq<char> {
    joined(
        choices.map_values(
            |choice: ChatChoiceView|
                match choice.content {
                    Some(text) => text,
                    None => Seq::empty(),
                },
        ),
    )
}

/// The fragments of tool calls that choices carry, one after the other.
pub open spec fn all_deltas(choices: Seq<ChatChoiceView>) -> Seq<ChatToolCallDeltaView>
    decreases choices.len(),
{
    if choices.len() == 0 {
        Seq::empty()
    } else {
        all_deltas(choices.drop_last()) + choices.last().tool_calls
    }
}

/// The fragments of one call.
pub open spec fn deltas_of(deltas: Seq<ChatToolCallDeltaView>, index: i64) -> Seq<
    ChatToolCallDeltaView,
> {
    deltas.filter(|delta: ChatToolCallDeltaView| delta.index == index)
}

/// The last id that fragments give.
pub open spec fn last_id(deltas: Seq<ChatToolCallDeltaView>) -> Option<Seq<char>>
    decreases deltas.len(),
{
    if deltas.len() == 0 {
        None
    } else {
        match deltas.last().id {
            Some(id) => Some(id),
            None => last_id(deltas.drop_last()),
        }
    }
}

/// The last name that fragments give.
pub open spec fn last_name(deltas: Seq<ChatToolCallDeltaView>) -> Option<Seq<char>>
    decreases deltas.len(),
{
    if deltas.len() == 0 {
        None
    } else {
        match deltas.last().name {
            Some(name) => Some(name),
            None => last_name(deltas.drop_last()),
        }
    }
}

/// The arguments that fragments give.
pub open spec fn all_arguments(deltas: Seq<ChatToolCallDeltaView>) -> Seq<char> {
    joined(
        deltas.map_values(
            |delta: ChatToolCallDeltaView|
                match delta.arguments {
                    Some(arguments) => arguments,
                    None => Seq::empty(),
                },
        ),
    )
}

/// The call that fragments make: the last id and the last name that came, with
/// the arguments put together in order.
pub open spec fn assembled(deltas: Seq<ChatToolCallDeltaView>) -> CallView {
    CallView {
        id: last_id(deltas),
        name: last_name(deltas),
        arguments: all_arguments(deltas),
        announced: all_arguments(deltas).len() > 0,
    }
}

/// Whether a call has any fragment.
pub open spec fn mentioned(deltas: Seq<ChatToolCallDeltaView>, index: i64) -> bool {
    exists|i: int| 0 <= i < deltas.len() && (#[trigger] deltas[i]).index == index
}

/// The calls that fragments make, by index.
pub open spec fn all_calls(deltas: Seq<ChatToolCallDeltaView>) -> Map<i64, CallView> {
    Map::new(
        |index: i64| mentioned(deltas, index),
        |index: i64| assembled(deltas_of(deltas, index)),
    )
}

/// The calls that fragments make are done by ascending index, each once.
pub proof fn calls_are_done_in_order(deltas: Seq<ChatToolCallDeltaView>)
    ensures
        all_calls(deltas).dom().finite(),
        is_call_order(call_order(all_calls(deltas)), all_calls(deltas)),
{
    lemma_all_calls_finite(deltas);
    calls_have_an_order(all_calls(deltas));
}

proof fn lemma_all_calls_finite(deltas: Seq<ChatToolCallDeltaView>)
    ensures
        all_calls(deltas).dom().finite(),
    decreases deltas.len(),
{
    if deltas.len() == 0 {
        assert(all_calls(deltas).dom() =~= Set::empty());
    } else {
        lemma_all_calls_finite(deltas.drop_last());
        lemma_all_calls_push(deltas.drop_last(), deltas.last());
        assert(deltas =~= deltas.drop_last().push(deltas.last()));
    }
}

/// The events that report what choices carried as done.
pub open spec fn finished_items(choices: Seq<ChatChoiceView>) -> Seq<ResponseEventView> {
    text_done(all_text(choices)) + calls_done(all_calls(all_deltas(choices)))
}

proof fn lemma_assembled_push(
    deltas: Seq<ChatToolCallDeltaView>,
    delta: ChatToolCallDeltaView,
)
    ensures
        assembled(deltas.push(delta)) == assembled(deltas).extended(delta),
{
    let all = deltas.push(delta);
    let piece = |delta: ChatToolCallDeltaView|
            match delta.arguments {
                Some(arguments) => arguments,
                None => Seq::<char>::empty(),
            };
    assert(all.drop_last() =~= deltas);
    assert(all.map_values(piece).drop_last() =~= deltas.map_values(piece));
}

proof fn lemma_no_deltas(deltas: Seq<ChatToolCallDeltaView>, index: i64)
    requires
        !mentioned(deltas, index),
    ensures
        deltas_of(deltas, index) == Seq::<ChatToolCallDeltaView>::empty(),
    decreases deltas.len(),
{
    reveal(Seq::filter);
    if deltas.len() > 0 {
        let earlier = deltas.drop_last();
        if mentioned(earlier, index) {
            let i = choose|i: int| 0 <= i < earlier.len() && (#[trigger] earlier[i]).index == index;
            assert(deltas[i].index == index);
        }
        assert(deltas[deltas.len() - 1].index != index);
        lemma_no_deltas(earlier, index);
    }
}

proof fn lemma_all_calls_push(deltas: Seq<ChatToolCallDeltaView>, delta: ChatToolCallDeltaView)
    ensures
        ({
            let known = all_calls(deltas);
            let before = if known.contains_key(delta.index) {
                known[delta.index]
            } else {
                fresh_call()
            };
            all_calls(deltas.push(delta)) == known.insert(delta.index, before.extended(delta))
        }),
{
    let all = deltas.push(delta);
    let known = all_calls(deltas);
    assert(all.drop_last() =~= deltas);
    assert(all.last() == delta);
    let own = deltas_of(deltas, delta.index);
    if !known.contains_key(delta.index) {
        lemma_no_deltas(deltas, delta.index);
        assert(own.map_values(
            |delta: ChatToolCallDeltaView|
            match delta.arguments {
                Some(arguments) => arguments,
                None => Seq::<char>::empty(),
            },
        ) =~= Seq::empty());
    }
    assert forall|index: i64| deltas_of(all, index) == (if index == delta.index {
        deltas_of(deltas, index).push(delta)
    } else {
        deltas_of(deltas, index)
    }) by {
        reveal(Seq::filter);
    }
    assert forall|index: i64| mentioned(all, index) <==> index == delta.index || mentioned(
        deltas,
        index,
    ) by {
        assert(all[deltas.len() as int].index == delta.index);
        if mentioned(deltas, index) {
            let i = choose|i: int| 0 <= i < deltas.len() && (#[trigger] deltas[i]).index == index;
            assert(all[i].index == index);
        }
        if mentioned(all, index) {
            let i = choose|i: int| 0 <= i < all.len() && (#[trigger] all[i]).index == index;
            if i < deltas.len() {
                assert(deltas[i].index == index);
            }
        }
    }
    lemma_assembled_push(own, delta);
}

proof fn lemma_deltas_add_up(
    state: ChatStateView,
    known: Seq<ChatToolCallDeltaView>,
    deltas: Seq<ChatToolCallDeltaView>,
)
    requires
        state.tool_calls == all_calls(known),
    ensures
        state.on_tool_call_deltas(deltas).0.tool_calls == all_calls(known + deltas),
    decreases deltas.len(),
{
    if deltas.len() == 0 {
        assert(known + deltas =~= known);
    } else {
        let earlier = deltas.drop_last();
        lemma_deltas_add_up(state, known, earlier);
        lemma_all_calls_push(known + earlier, deltas.last());
        assert(known + deltas =~= (known + earlier).push(deltas.last()));
    }
}

/// Whether the state holds what choices carried, and has not reported it yet.
spec fn adding_up(state: ChatStateView, choices: Seq<ChatChoiceView>) -> bool {
    &&& !state.flushed
    &&& state.text_buffer == all_text(choices)
    &&& state.tool_calls == all_calls(all_deltas(choices))
}

proof fn lemma_choices_add_up(
    state: ChatStateView,
    known: Seq<ChatChoiceView>,
    choices: Seq<ChatChoiceView>,
)
    requires
        adding_up(state, known),
    ensures
        adding_up(state.on_choices(choices).0, known + choices),
    decreases choices.len(),
{
    if choices.len() == 0 {
        assert(known + choices =~= known);
    } else {
        let earlier = choices.drop_last();
        let choice = choices.last();
        lemma_choices_add_up(state, known, earlier);
        let before = state.on_choices(earlier).0;
        let read = before.on_opening(choice).0.on_content(choice.content).0;
        let all = known + choices;
        let piece = |choice: ChatChoiceView|
            match choice.content {
                Some(text) => text,
                None => Seq::<char>::empty(),
            };
        assert(all.drop_last() =~= known + earlier);
        assert(all.map_values(piece).drop_last() =~= (known + earlier).map_values(piece));
        assert(all.last() == choice);
        assert(read.text_buffer =~= all_text(all));
        lemma_deltas_are_fragments(read, choice.tool_calls);
        lemma_deltas_add_up(read, all_deltas(known + earlier), choice.tool_calls);
    }
}

/// Whether a chunk gives no finish reason.
pub open spec fn is_unfinished(chunk: ChatChunkView) -> bool {
    forall|i: int|
        0 <= i < chunk.choices.len() ==> (#[trigger] chunk.choices[i]).finish_reason is None
}

proof fn lemma_finish_reason(state: ChatStateView, choices: Seq<ChatChoiceView>)
    requires
        state.finish_reason is None,
    ensures
        state.on_choices(choices).0.finish_reason is None <==> forall|i: int|
            0 <= i < choices.len() ==> (#[trigger] choices[i]).finish_reason is None,
    decreases choices.len(),
{
    if choices.len() > 0 {
        let earlier = choices.drop_last();
        let choice = choices.last();
        lemma_finish_reason(state, earlier);
        let before = state.on_choices(earlier).0;
        let read = before.on_opening(choice).0.on_content(choice.content).0;
        lemma_deltas_are_fragments(read, choice.tool_calls);
        assert(choices[choices.len() - 1] == choice);
        assert forall|i: int|
            0 <= i < earlier.len() implies earlier[i] == #[trigger] choices[i] by {
        }
        if state.on_choices(choices).0.finish_reason is None {
            assert forall|i: int| 0 <= i < choices.len() implies (
            #[trigger] choices[i]).finish_reason is None by {
                if i < earlier.len() {
                    assert(earlier[i].finish_reason is None);
                }
            }
        }
    }
}

proof fn lemma_unfinished_run(chunks: Seq<ChatChunkView>)
    requires
        forall|i: int| 0 <= i < chunks.len() ==> is_unfinished(#[trigger] chunks[i]),
    ensures
        ({
            let state = run_chunks(fresh_chat_state(), chunks).0;
            adding_up(state, all_choices(chunks)) && state.finish_reason is None
        }),
    decreases chunks.len(),
{
    if chunks.len() == 0 {
        let none = Seq::<ChatChoiceView>::empty();
        assert(none.map_values(|choice: ChatChoiceView|
            match choice.content {
                Some(text) => text,
                None => Seq::<char>::empty(),
            })
            =~= Seq::empty());
        assert(all_calls(Seq::empty()) =~= Map::empty());
    } else {
        let earlier = chunks.drop_last();
        let chunk = chunks.last();
        assert forall|i: int| 0 <= i < earlier.len() implies is_unfinished(
            #[trigger] earlier[i],
        ) by {
            assert(is_unfinished(chunks[i]));
        }
        assert(is_unfinished(chunks[chunks.len() - 1]));
        lemma_unfinished_run(earlier);
        let framed = run_chunks(fresh_chat_state(), earlier).0.on_frame(chunk).0;
        lemma_choices_add_up(framed, all_choices(earlier), chunk.choices);
        lemma_finish_reason(framed, chunk.choices);
    }
}

/// With the first finish reason, everything that came is reported as done: all
/// the text as one message, and one call for each index, by ascending index, with
/// all of its arguments.
pub proof fn finished_items_add_up(chunks: Seq<ChatChunkView>, last: ChatChunkView)
    requires
        forall|i: int| 0 <= i < chunks.len() ==> is_unfinished(#[trigger] chunks[i]),
        !is_unfinished(last),
    ensures
        ({
            let before = run_chunks(fresh_chat_state(), chunks);
            run_chunks(fresh_chat_state(), chunks.push(last)).1 == before.1 + before.0.on_reading(
                last,
            ).1 + finished_items(all_choices(chunks.push(last)))
        }),
{
    let all = chunks.push(last);
    assert(all.drop_last() =~= chunks);
    lemma_unfinished_run(chunks);
    let before = run_chunks(fresh_chat_state(), chunks);
    let framed = before.0.on_frame(last).0;
    lemma_choices_add_up(framed, all_choices(chunks), last.choices);
    lemma_finish_reason(framed, last.choices);
    assert(run_chunks(fresh_chat_state(), all).1 =~= before.1 + before.0.on_reading(last).1
        + finished_items(all_choices(all)));
}

/// Where no finish reason comes, everything that came is reported as done at the
/// end of the stream, and then the turn is completed.
pub proof fn unfinished_items_add_up(
    chunks: Seq<ChatChunkView>,
    data: Seq<char>,
    chunk: Option<ChatChunkView>,
)
    requires
        forall|i: int| 0 <= i < chunks.len() ==> is_unfinished(#[trigger] chunks[i]),
        is_done_sentinel(data),
    ensures
        ({
            let state = run_chunks(fresh_chat_state(), chunks).0;
            state.on_poll(ChatPollView::Data { data, chunk }).1 == told(
                finished_items(all_choices(chunks)).push(state.completion()),
                true,
            )
        }),
{
    lemma_unfinished_run(chunks);
}

/// Whether an event announces a tool call or passes on its arguments.
pub open spec fn is_call_event(event: ResponseEventView) -> bool {
    event is OutputItemAdded || event is ToolCallInputDelta
}

/// The events that the fragments of one call are reported as, among those of others.
pub open spec fn call_events(
    state: ChatStateView,
    deltas: Seq<ChatToolCallDeltaView>,
    index: i64,
) -> Seq<ResponseEventView>
    decreases deltas.len(),
{
    if deltas.len() == 0 {
        Seq::empty()
    } else {
        let earlier = deltas.drop_last();
        let before = call_events(state, earlier, index);
        if deltas.last().index == index {
            before + state.on_tool_call_deltas(earlier).0.on_tool_call_delta(deltas.last()).1
        } else {
            before
        }
    }
}

proof fn lemma_call_events(
    state: ChatStateView,
    deltas: Seq<ChatToolCallDeltaView>,
    index: i64,
)
    requires
        !state.call(index).announced,
    ensures
        ({
            let events = call_events(state, deltas, index);
            &&& state.on_tool_call_deltas(deltas).0.call(index).announced == (events.len() > 0)
            &&& events.len() > 0 ==> events[0] is OutputItemAdded
            &&& forall|i: int|
                1 <= i < events.len() ==> #[trigger] events[i] is ToolCallInputDelta
        }),
    decreases deltas.len(),
{
    if deltas.len() > 0 {
        lemma_call_events(state, deltas.drop_last(), index);
    }
}

proof fn lemma_calls_decide(s: ChatStateView, t: ChatStateView, deltas: Seq<ChatToolCallDeltaView>)
    requires
        s.tool_calls == t.tool_calls,
    ensures
        s.on_tool_call_deltas(deltas).0.tool_calls == t.on_tool_call_deltas(deltas).0.tool_calls,
        s.on_tool_call_deltas(deltas).1 == t.on_tool_call_deltas(deltas).1,
    decreases deltas.len(),
{
    if deltas.len() > 0 {
        lemma_calls_decide(s, t, deltas.drop_last());
    }
}

proof fn lemma_deltas_in_parts(
    state: ChatStateView,
    first: Seq<ChatToolCallDeltaView>,
    second: Seq<ChatToolCallDeltaView>,
)
    ensures
        ({
            let middle = state.on_tool_call_deltas(first);
            let end = middle.0.on_tool_call_deltas(second);
            state.on_tool_call_deltas(first + second) == (end.0, middle.1 + end.1)
        }),
    decreases second.len(),
{
    let middle = state.on_tool_call_deltas(first);
    if second.len() == 0 {
        assert(first + second =~= first);
        assert(middle.1 + Seq::<ResponseEventView>::empty() =~= middle.1);
    } else {
        lemma_deltas_in_parts(state, first, second.drop_last());
        assert((first + second).drop_last() =~= first + second.drop_last());
        let end = middle.0.on_tool_call_deltas(second);
        assert(state.on_tool_call_deltas(first + second).1 =~= middle.1 + end.1);
    }
}

proof fn lemma_all_kept(events: Seq<ResponseEventView>)
    requires
        forall|i: int| 0 <= i < events.len() ==> is_call_event(#[trigger] events[i]),
    ensures
        events.filter(|event: ResponseEventView| is_call_event(event)) == events,
    decreases events.len(),
{
    reveal(Seq::filter);
    if events.len() > 0 {
        let earlier = events.drop_last();
        assert forall|i: int| 0 <= i < earlier.len() implies is_call_event(
            #[trigger] earlier[i],
        ) by {
            assert(is_call_event(events[i]));
        }
        lemma_all_kept(earlier);
        assert(is_call_event(events[events.len() - 1]));
        assert(events =~= earlier.push(events.last()));
    }
}

proof fn lemma_none_kept(events: Seq<ResponseEventView>)
    requires
        forall|i: int| 0 <= i < events.len() ==> !is_call_event(#[trigger] events[i]),
    ensures
        events.filter(|event: ResponseEventView| is_call_event(event)) == Seq::<
            ResponseEventView,
        >::empty(),
    decreases events.len(),
{
    reveal(Seq::filter);
    if events.len() > 0 {
        let earlier = events.drop_last();
        assert forall|i: int| 0 <= i < earlier.len() implies !is_call_event(
            #[trigger] earlier[i],
        ) by {
            assert(!is_call_event(events[i]));
        }
        lemma_none_kept(earlier);
        assert(!is_call_event(events[events.len() - 1]));
    }
}

proof fn lemma_choices_call_events(state: ChatStateView, choices: Seq<ChatChoiceView>)
    ensures
        ({
            let run = state.on_choices(choices);
            let calls = state.on_tool_call_deltas(all_deltas(choices));
            &&& run.1.filter(|event: ResponseEventView| is_call_event(event)) == calls.1
            &&& run.0.tool_calls == calls.0.tool_calls
        }),
    decreases choices.len(),
{
    let kept = |event: ResponseEventView| is_call_event(event);
    reveal(Seq::filter);
    if choices.len() > 0 {
        let earlier = choices.drop_last();
        let choice = choices.last();
        lemma_choices_call_events(state, earlier);
        let before = state.on_choices(earlier);
        let opened = before.0.on_opening(choice);
        let read = opened.0.on_content(choice.content);
        let called = read.0.on_tool_call_deltas(choice.tool_calls);
        let known = state.on_tool_call_deltas(all_deltas(earlier));
        lemma_deltas_are_fragments(read.0, choice.tool_calls);
        lemma_calls_decide(read.0, known.0, choice.tool_calls);
        lemma_deltas_in_parts(state, all_deltas(earlier), choice.tool_calls);
        lemma_none_kept(opened.1);
        lemma_none_kept(read.1);
        lemma_all_kept(called.1);
        Seq::filter_distributes_over_add(opened.1, read.1, kept);
        Seq::filter_distributes_over_add(opened.1 + read.1, called.1, kept);
        Seq::filter_distributes_over_add(before.1, before.0.on_choice(choice).1, kept);
        assert(state.on_choices(choices).1.filter(kept) =~= known.1 + called.1);
    }
}

proof fn lemma_all_deltas_in_parts(first: Seq<ChatChoiceView>, second: Seq<ChatChoiceView>)
    ensures
        all_deltas(first + second) == all_deltas(first) + all_deltas(second),
    decreases second.len(),
{
    if second.len() == 0 {
        assert(first + second =~= first);
        assert(all_deltas(first) + all_deltas(second) =~= all_deltas(first));
    } else {
        lemma_all_deltas_in_parts(first, second.drop_last());
        assert((first + second).drop_last() =~= first + second.drop_last());
        assert(all_deltas(first + second) =~= all_deltas(first) + all_deltas(second));
    }
}

proof fn lemma_reading_call_events(
    state: ChatStateView,
    events: Seq<ResponseEventView>,
    known: Seq<ChatChoiceView>,
    chunk: ChatChunkView,
)
    requires
        state.tool_calls == fresh_chat_state().on_tool_call_deltas(
            all_deltas(known),
        ).0.tool_calls,
        events.filter(|event: ResponseEventView| is_call_event(event))
            == fresh_chat_state().on_tool_call_deltas(all_deltas(known)).1,
    ensures
        ({
            let read = state.on_reading(chunk);
            let calls = fresh_chat_state().on_tool_call_deltas(all_deltas(known + chunk.choices));
            &&& read.0.tool_calls == calls.0.tool_calls
            &&& (events + read.1).filter(|event: ResponseEventView| is_call_event(event))
                == calls.1
        }),
{
    let kept = |event: ResponseEventView| is_call_event(event);
    let framed = state.on_frame(chunk);
    let read = framed.0.on_choices(chunk.choices);
    let before = fresh_chat_state().on_tool_call_deltas(all_deltas(known));
    lemma_choices_call_events(framed.0, chunk.choices);
    lemma_calls_decide(framed.0, before.0, all_deltas(chunk.choices));
    lemma_all_deltas_in_parts(known, chunk.choices);
    lemma_deltas_in_parts(fresh_chat_state(), all_deltas(known), all_deltas(chunk.choices));
    lemma_none_kept(framed.1);
    Seq::filter_distributes_over_add(framed.1, read.1, kept);
    Seq::filter_distributes_over_add(events, framed.1 + read.1, kept);
    assert((events + (framed.1 + read.1)).filter(kept) =~= before.1 + before.0.on_tool_call_deltas(
        all_deltas(chunk.choices),
    ).1);
}

proof fn lemma_unfinished_call_events(chunks: Seq<ChatChunkView>)
    requires
        forall|i: int| 0 <= i < chunks.len() ==> is_unfinished(#[trigger] chunks[i]),
    ensures
        ({
            let run = run_chunks(fresh_chat_state(), chunks);
            let calls = fresh_chat_state().on_tool_call_deltas(all_deltas(all_choices(chunks)));
            &&& run.0.tool_calls == calls.0.tool_calls
            &&& run.1.filter(|event: ResponseEventView| is_call_event(event)) == calls.1
        }),
    decreases chunks.len(),
{
    reveal(Seq::filter);
    if chunks.len() > 0 {
        let earlier = chunks.drop_last();
        assert forall|i: int| 0 <= i < earlier.len() implies is_unfinished(
            #[trigger] earlier[i],
        ) by {
            assert(is_unfinished(chunks[i]));
        }
        lemma_unfinished_call_events(earlier);
        lemma_unfinished_run(chunks);
        let before = run_chunks(fresh_chat_state(), earlier);
        lemma_reading_call_events(before.0, before.1, all_choices(earlier), chunks.last());
    }
}

/// Over a whole stream, up to the chunk that brings the finish reason, the events about
/// tool calls are those of all the fragments in order. And however the fragments of
/// different calls are mixed and cut into chunks, each call that has any arguments is
/// announced exactly once, before the first of them, and no other call is.
pub proof fn calls_are_announced_once_in_a_stream(
    chunks: Seq<ChatChunkView>,
    last: ChatChunkView,
    index: i64,
)
    requires
        forall|i: int| 0 <= i < chunks.len() ==> is_unfinished(#[trigger] chunks[i]),
    ensures
        ({
            let deltas = all_deltas(all_choices(chunks.push(last)));
            let own = call_events(fresh_chat_state(), deltas, index);
            &&& run_chunks(fresh_chat_state(), chunks.push(last)).1.filter(
                |event: ResponseEventView| is_call_event(event),
            ) == fresh_chat_state().on_tool_call_deltas(deltas).1
            &&& (own.len() > 0) == (all_arguments(deltas_of(deltas, index)).len() > 0)
            &&& own.len() > 0 ==> own[0] is OutputItemAdded
            &&& forall|i: int| 1 <= i < own.len() ==> #[trigger] own[i] is ToolCallInputDelta
        }),
{
    let kept = |event: ResponseEventView| is_call_event(event);
    let all = chunks.push(last);
    let deltas = all_deltas(all_choices(all));
    let fresh = fresh_chat_state();
    assert(all.drop_last() =~= chunks);
    lemma_unfinished_call_events(chunks);
    let before = run_chunks(fresh, chunks);
    let read = before.0.on_reading(last);
    lemma_reading_call_events(before.0, before.1, all_choices(chunks), last);
    let done = read.0.on_flush();
    lemma_none_kept(done.1);
    Seq::filter_distributes_over_add(before.1 + read.1, done.1, kept);
    if read.0.finish_reason is Some {
        assert(run_chunks(fresh, all).1 =~= before.1 + read.1 + done.1);
    }
    lemma_call_events(fresh, deltas, index);
    assert(all_calls(Seq::empty()) =~= Map::empty());
    lemma_deltas_add_up(fresh, Seq::empty(), deltas);
    assert(Seq::<ChatToolCallDeltaView>::empty() + deltas =~= deltas);
    if !mentioned(deltas, index) {
        lemma_no_deltas(deltas, index);
        assert(deltas_of(deltas, index).map_values(
            |delta: ChatToolCallDeltaView|
            match delta.arguments {
                Some(arguments) => arguments,
                None => Seq::<char>::empty(),
            },
        ) =~= Seq::empty());
    }
}

/// The text that events show as it comes.
pub open spec fn shown_text(events: Seq<ResponseEventView>) -> Seq<char> {
    joined(
        events.map_values(
            |event: ResponseEventView|
                match event {
                    ResponseEventView::OutputTextDelta(text) => text,
                    _ => Seq::empty(),
                },
        ),
    )
}

proof fn lemma_shown_more(events: Seq<ResponseEventView>, more: Seq<ResponseEventView>)
    ensures
        shown_text(events + more) == shown_text(events) + shown_text(more),
    decreases more.len(),
{
    let piece = |event: ResponseEventView|
        match event {
            ResponseEventView::OutputTextDelta(text) => text,
            _ => Seq::<char>::empty(),
        };
    if more.len() == 0 {
        assert(events + more =~= events);
        assert(more.map_values(piece) =~= Seq::empty());
        assert(shown_text(events) + shown_text(more) =~= shown_text(events));
    } else {
        lemma_shown_more(events, more.drop_last());
        let all = (events + more).map_values(piece);
        assert(all.drop_last() =~= (events + more.drop_last()).map_values(piece));
        assert(more.map_values(piece).drop_last() =~= more.drop_last().map_values(piece));
        assert(shown_text(events + more) =~= shown_text(events) + shown_text(more));
    }
}

proof fn lemma_nothing_shown(events: Seq<ResponseEventView>)
    requires
        forall|i: int| 0 <= i < events.len() ==> !(#[trigger] events[i] is OutputTextDelta),
    ensures
        shown_text(events) == Seq::<char>::empty(),
    decreases events.len(),
{
    let piece = |event: ResponseEventView|
        match event {
            ResponseEventView::OutputTextDelta(text) => text,
            _ => Seq::<char>::empty(),
        };
    if events.len() == 0 {
        assert(events.map_values(piece) =~= Seq::empty());
    } else {
        let earlier = events.drop_last();
        assert forall|i: int| 0 <= i < earlier.len() implies !(
        #[trigger] earlier[i] is OutputTextDelta) by {
            assert(!(events[i] is OutputTextDelta));
        }
        lemma_nothing_shown(earlier);
        assert(!(events[events.len() - 1] is OutputTextDelta));
        assert(events.map_values(piece).drop_last() =~= earlier.map_values(piece));
        assert(shown_text(events) =~= Seq::empty());
    }
}

proof fn lemma_choice_shows(state: ChatStateView, choice: ChatChoiceView)
    ensures
        shown_text(state.on_choice(choice).1) == text_or_empty(choice.content),
{
    let piece = |event: ResponseEventView|
        match event {
            ResponseEventView::OutputTextDelta(text) => text,
            _ => Seq::<char>::empty(),
        };
    let opened = state.on_opening(choice);
    let read = opened.0.on_content(choice.content);
    let called = read.0.on_tool_call_deltas(choice.tool_calls);
    lemma_deltas_are_fragments(read.0, choice.tool_calls);
    lemma_nothing_shown(opened.1);
    lemma_nothing_shown(called.1);
    lemma_shown_more(opened.1, read.1);
    lemma_shown_more(opened.1 + read.1, called.1);
    let text = text_or_empty(choice.content);
    if text.len() > 0 {
        let pieces = read.1.map_values(piece);
        assert(pieces.drop_last() =~= Seq::empty());
        assert(joined(pieces.drop_last()) =~= Seq::empty());
        assert(pieces.last() == text);
        assert(joined(pieces) =~= text);
    } else {
        assert(read.1.map_values(piece) =~= Seq::empty());
        assert(text =~= Seq::empty());
    }
    assert(shown_text(state.on_choice(choice).1) =~= text);
}

proof fn lemma_choices_show(
    state: ChatStateView,
    known: Seq<ChatChoiceView>,
    choices: Seq<ChatChoiceView>,
)
    ensures
        all_text(known) + shown_text(state.on_choices(choices).1) == all_text(known + choices),
    decreases choices.len(),
{
    let content = |choice: ChatChoiceView|
            match choice.content {
                Some(text) => text,
                None => Seq::<char>::empty(),
            };
    if choices.len() == 0 {
        lemma_nothing_shown(state.on_choices(choices).1);
        assert(known + choices =~= known);
        assert(all_text(known) + Seq::<char>::empty() =~= all_text(known));
    } else {
        let earlier = choices.drop_last();
        let before = state.on_choices(earlier);
        let step = before.0.on_choice(choices.last());
        lemma_choices_show(state, known, earlier);
        lemma_choice_shows(before.0, choices.last());
        lemma_shown_more(before.1, step.1);
        let all = (known + choices).map_values(content);
        assert(all.drop_last() =~= (known + earlier).map_values(content));
        assert(all_text(known) + shown_text(state.on_choices(choices).1) =~= all_text(
            known + choices,
        ));
    }
}

/// Every fragment of text is shown as it comes, in order, and nothing else is.
pub proof fn shown_text_adds_up(chunks: Seq<ChatChunkView>)
    ensures
        shown_text(run_chunks(fresh_chat_state(), chunks).1) == all_text(all_choices(chunks)),
    decreases chunks.len(),
{
    if chunks.len() == 0 {
        let none = Seq::<ChatChoiceView>::empty();
        lemma_nothing_shown(Seq::empty());
        assert(none.map_values(|choice: ChatChoiceView|
            match choice.content {
                Some(text) => text,
                None => Seq::<char>::empty(),
            })
            =~= Seq::empty());
    } else {
        let earlier = chunks.drop_last();
        let chunk = chunks.last();
        shown_text_adds_up(earlier);
        let before = run_chunks(fresh_chat_state(), earlier);
        let framed = before.0.on_frame(chunk);
        let read = framed.0.on_choices(chunk.choices);
        let done = read.0.on_flush();
        lemma_nothing_shown(framed.1);
        lemma_nothing_shown(done.1);
        lemma_shown_more(framed.1, read.1);
        lemma_shown_more(framed.1 + read.1, done.1);
        lemma_shown_more(before.1, before.0.on_chunk(chunk).1);
        lemma_choices_show(framed.0, all_choices(earlier), chunk.choices);
        assert(shown_text(run_chunks(fresh_chat_state(), chunks).1) =~= all_text(
            all_choices(chunks),
        ));
    }
}

/// The first id that chunks give.
pub open spec fn first_id(chunks: Seq<ChatChunkView>) -> Option<Seq<char>>
    decreases chunks.len(),
{
    if chunks.len() == 0 {
        None
    } else {
        match first_id(chunks.drop_last()) {
            Some(id) => Some(id),
            None => chunks.last().id,
        }
    }
}

/// The last usage that chunks give.
pub open spec fn last_usage(chunks: Seq<ChatChunkView>) -> Option<ChatCompletionUsage>
    decreases chunks.len(),
{
    if chunks.len() == 0 {
        None
    } else {
        match chunks.last().usage {
            Some(usage) => Some(usage),
            None => last_usage(chunks.drop_last()),
        }
    }
}

/// The first finish reason that choices give.
pub open spec fn first_finish_reason(choices: Seq<ChatChoiceView>) -> Option<Seq<char>>
    decreases choices.len(),
{
    if choices.len() == 0 {
        None
    } else {
        match first_finish_reason(choices.drop_last()) {
            Some(reason) => Some(reason),
            None => choices.last().finish_reason,
        }
    }
}

proof fn lemma_first_finish_reason(
    state: ChatStateView,
    known: Seq<ChatChoiceView>,
    choices: Seq<ChatChoiceView>,
)
    requires
        state.finish_reason == first_finish_reason(known),
    ensures
        state.on_choices(choices).0.finish_reason == first_finish_reason(known + choices),
    decreases choices.len(),
{
    if choices.len() == 0 {
        assert(known + choices =~= known);
    } else {
        let earlier = choices.drop_last();
        let choice = choices.last();
        lemma_first_finish_reason(state, known, earlier);
        let before = state.on_choices(earlier).0;
        let read = before.on_opening(choice).0.on_content(choice.content).0;
        lemma_deltas_are_fragments(read, choice.tool_calls);
        assert((known + choices).drop_last() =~= known + earlier);
    }
}

proof fn lemma_stream_facts(chunks: Seq<ChatChunkView>)
    ensures
        ({
            let state = run_chunks(fresh_chat_state(), chunks).0;
            &&& state.response_id == first_id(chunks)
            &&& state.usage == last_usage(chunks)
            &&& state.finish_reason == first_finish_reason(all_choices(chunks))
        }),
    decreases chunks.len(),
{
    if chunks.len() > 0 {
        let earlier = chunks.drop_last();
        let chunk = chunks.last();
        lemma_stream_facts(earlier);
        let framed = run_chunks(fresh_chat_state(), earlier).0.on_frame(chunk).0;
        lemma_choices_are_fragments(framed, chunk.choices);
        lemma_first_finish_reason(framed, all_choices(earlier), chunk.choices);
    }
}

/// What a finish reason says about a turn: that the model ended it by itself, that it did
/// not, or nothing.
pub open spec fn ended_by_itself(finish_reason: Option<Seq<char>>) -> Option<bool> {
    match finish_reason {
        None => None,
        Some(reason) => if reason == "stop"@ || reason == "content_filter"@ {
            Some(true)
        } else if reason == "tool_calls"@ || reason == "function_call"@ || reason == "length"@ {
            Some(false)
        } else {
            None
        },
    }
}

/// The event that reports the end of a turn that came in these chunks: under the first
/// id, with the last usage, and by the first finish reason.
pub open spec fn stream_completion(chunks: Seq<ChatChunkView>) -> ResponseEventView {
    ResponseEventView::Completed {
        response_id: match first_id(chunks) {
            Some(id) => id,
            None => Seq::empty(),
        },
        token_usage: match last_usage(chunks) {
            Some(usage) => Some(
                TokenUsage {
                    input_tokens: usage.prompt_tokens,
                    cached_input_tokens: match usage.prompt_tokens_details {
                        Some(details) => details.cached_tokens,
                        None => 0,
                    },
                    output_tokens: usage.completion_tokens,
                    reasoning_output_tokens: match usage.completion_tokens_details {
                        Some(details) => details.reasoning_tokens,
                        None => 0,
                    },
                    total_tokens: usage.total_tokens,
                },
            ),
            None => None,
        },
        end_turn: ended_by_itself(first_finish_reason(all_choices(chunks))),
    }
}

/// However the chunks are cut, the turn completes under the first id that came,
/// with the last usage and by the first finish reason; and it does so whether or not
/// everything that came has been reported as done.
pub proof fn completion_reports_the_stream(chunks: Seq<ChatChunkView>)
    ensures
        run_chunks(fresh_chat_state(), chunks).0.completion() == stream_completion(chunks),
        run_chunks(fresh_chat_state(), chunks).0.on_flush().0.completion() == stream_completion(
            chunks,
        ),
{
    lemma_stream_facts(chunks);
}

/// The items that events report as done, in order.
pub open spec fn items_done(events: Seq<ResponseEventView>) -> Seq<ResponseItemView>
    decreases events.len(),
{
    if events.len() == 0 {
        Seq::empty()
    } else {
        let before = items_done(events.drop_last());
        match events.last() {
            ResponseEventView::OutputItemDone(item) => before.push(item),
            _ => before,
        }
    }
}

/// Whether items are everything that choices carried: all the text as one message of the
/// assistant, where there is any, and after it one function call for each index that a
/// fragment mentions, by ascending index. Each call has all of its arguments, put together
/// in order, and the last id and the last name that came for it; one without an id goes by
/// its index, and one without a name has the empty one.
pub open spec fn is_whole(
    items: Seq<ResponseItemView>,
    choices: Seq<ChatChoiceView>,
    order: Seq<i64>,
) -> bool {
    let text = all_text(choices);
    let deltas = all_deltas(choices);
    let first: int = if text.len() > 0 {
        1
    } else {
        0
    };
    &&& forall|i: int, j: int| 0 <= i < j < order.len() ==> order[i] < order[j]
    &&& forall|index: i64| #[trigger] order.contains(index) <==> mentioned(deltas, index)
    &&& items.len() == first + order.len()
    &&& text.len() > 0 ==> items[0] == (ResponseItemView::Message {
        id: None,
        role: "assistant"@,
        content: seq![ContentItemView::OutputText { text }],
        phase: None,
        metadata: None,
    })
    &&& forall|k: int|
        0 <= k < order.len() ==> items[first + k] == (ResponseItemView::FunctionCall {
            id: None,
            name: match last_name(deltas_of(deltas, #[trigger] order[k])) {
                Some(name) => name,
                None => Seq::empty(),
            },
            namespace: None,
            arguments: all_arguments(deltas_of(deltas, order[k])),
            call_id: match last_id(deltas_of(deltas, order[k])) {
                Some(id) => id,
                None => decimal_text(order[k] as int),
            },
            metadata: None,
        })
}

proof fn lemma_items_done_more(events: Seq<ResponseEventView>, more: Seq<ResponseEventView>)
    ensures
        items_done(events + more) == items_done(events) + items_done(more),
    decreases more.len(),
{
    if more.len() == 0 {
        assert(events + more =~= events);
        assert(items_done(events) + items_done(more) =~= items_done(events));
    } else {
        lemma_items_done_more(events, more.drop_last());
        assert((events + more).drop_last() =~= events + more.drop_last());
        assert(items_done(events + more) =~= items_done(events) + items_done(more));
    }
}

proof fn lemma_nothing_done(events: Seq<ResponseEventView>)
    requires
        forall|i: int| 0 <= i < events.len() ==> !(#[trigger] events[i] is OutputItemDone),
    ensures
        items_done(events) == Seq::<ResponseItemView>::empty(),
    decreases events.len(),
{
    if events.len() > 0 {
        let earlier = events.drop_last();
        assert forall|i: int| 0 <= i < earlier.len() implies !(
        #[trigger] earlier[i] is OutputItemDone) by {
            assert(!(events[i] is OutputItemDone));
        }
        lemma_nothing_done(earlier);
        assert(!(events[events.len() - 1] is OutputItemDone));
    }
}

proof fn lemma_all_done(events: Seq<ResponseEventView>)
    requires
        forall|i: int| 0 <= i < events.len() ==> #[trigger] events[i] is OutputItemDone,
    ensures
        items_done(events).len() == events.len(),
        forall|i: int|
            0 <= i < events.len() ==> #[trigger] events[i] == ResponseEventView::OutputItemDone(
                items_done(events)[i],
            ),
    decreases events.len(),
{
    if events.len() > 0 {
        let earlier = events.drop_last();
        assert forall|i: int| 0 <= i < earlier.len() implies #[trigger] earlier[i]
            is OutputItemDone by {
            assert(events[i] is OutputItemDone);
        }
        lemma_all_done(earlier);
        assert(events[events.len() - 1] is OutputItemDone);
        assert forall|i: int| 0 <= i < events.len() implies #[trigger] events[i]
            == ResponseEventView::OutputItemDone(items_done(events)[i]) by {
            if i < earlier.len() {
                assert(earlier[i] == events[i]);
            }
        }
    }
}

proof fn lemma_finished_items(choices: Seq<ChatChoiceView>) -> (order: Seq<i64>)
    ensures
        is_whole(items_done(finished_items(choices)), choices, order),
        forall|i: int|
            0 <= i < finished_items(choices).len() ==> #[trigger] finished_items(choices)[i]
                is OutputItemDone,
{
    let deltas = all_deltas(choices);
    let calls = all_calls(deltas);
    let order = call_order(calls);
    let events = finished_items(choices);
    let first = text_done(all_text(choices)).len() as int;
    calls_are_done_in_order(deltas);
    lemma_all_done(events);
    let items = items_done(events);
    assert forall|k: int| 0 <= k < order.len() implies items[first + k] == (
    ResponseItemView::FunctionCall {
        id: None,
        name: match last_name(deltas_of(deltas, #[trigger] order[k])) {
            Some(name) => name,
            None => Seq::empty(),
        },
        namespace: None,
        arguments: all_arguments(deltas_of(deltas, order[k])),
        call_id: match last_id(deltas_of(deltas, order[k])) {
            Some(id) => id,
            None => decimal_text(order[k] as int),
        },
        metadata: None,
    }) by {
        assert(order.contains(order[k]));
        assert(calls.contains_key(order[k]));
        assert(calls[order[k]] == assembled(deltas_of(deltas, order[k])));
        assert(events[first + k] == call_done(order[k], calls[order[k]]));
    }
    if first > 0 {
        assert(events[0] == text_done(all_text(choices))[0]);
    }
    assert forall|index: i64| #[trigger] order.contains(index) <==> mentioned(deltas, index) by {
        assert(order.contains(index) <==> calls.contains_key(index));
    }
    order
}

proof fn lemma_unfinished_does_nothing(chunks: Seq<ChatChunkView>)
    requires
        forall|i: int| 0 <= i < chunks.len() ==> is_unfinished(#[trigger] chunks[i]),
    ensures
        items_done(run_chunks(fresh_chat_state(), chunks).1) == Seq::<ResponseItemView>::empty(),
    decreases chunks.len(),
{
    if chunks.len() > 0 {
        let earlier = chunks.drop_last();
        assert forall|i: int| 0 <= i < earlier.len() implies is_unfinished(
            #[trigger] earlier[i],
        ) by {
            assert(is_unfinished(chunks[i]));
        }
        lemma_unfinished_does_nothing(earlier);
        lemma_unfinished_run(chunks);
        let before = run_chunks(fresh_chat_state(), earlier);
        let step = before.0.on_chunk(chunks.last());
        chunks_do_not_complete(before.0, chunks.last());
        lemma_nothing_done(step.1);
        lemma_items_done_more(before.1, step.1);
        assert(items_done(run_chunks(fresh_chat_state(), chunks).1) =~= Seq::empty());
    }
}

/// However a turn is cut into chunks, by the first finish reason everything that came is
/// reported as done, once: the text whole, and each tool call with all of its arguments.
pub proof fn finished_stream_reports_all_of_it(
    chunks: Seq<ChatChunkView>,
    last: ChatChunkView,
) -> (order: Seq<i64>)
    requires
        forall|i: int| 0 <= i < chunks.len() ==> is_unfinished(#[trigger] chunks[i]),
        !is_unfinished(last),
    ensures
        is_whole(
            items_done(run_chunks(fresh_chat_state(), chunks.push(last)).1),
            all_choices(chunks.push(last)),
            order,
        ),
{
    let all = chunks.push(last);
    let before = run_chunks(fresh_chat_state(), chunks);
    let read = before.0.on_reading(last);
    let choices = all_choices(all);
    let framed = before.0.on_frame(last);
    finished_items_add_up(chunks, last);
    lemma_unfinished_does_nothing(chunks);
    lemma_choices_are_fragments(framed.0, last.choices);
    assert forall|i: int| 0 <= i < read.1.len() implies !(
    #[trigger] read.1[i] is OutputItemDone) by {
        if i >= framed.1.len() {
            assert(is_fragment(framed.0.on_choices(last.choices).1[i - framed.1.len()]));
        }
    }
    lemma_nothing_done(read.1);
    lemma_items_done_more(before.1, read.1);
    lemma_items_done_more(before.1 + read.1, finished_items(choices));
    let order = lemma_finished_items(choices);
    assert(items_done(run_chunks(fresh_chat_state(), all).1) =~= items_done(
        finished_items(choices),
    ));
    order
}

/// Where no finish reason comes, everything that came is reported as done at the end of the
/// stream: the text whole, and each tool call with all of its arguments. Then the turn is
/// completed.
pub proof fn ended_stream_reports_all_of_it(
    chunks: Seq<ChatChunkView>,
    data: Seq<char>,
    chunk: Option<ChatChunkView>,
) -> (r: (Seq<ResponseItemView>, Seq<i64>))
    requires
        forall|i: int| 0 <= i < chunks.len() ==> is_unfinished(#[trigger] chunks[i]),
        trimmed(data) == "[DONE]"@,
    ensures
        is_whole(r.0, all_choices(chunks), r.1),
        ({
            let step = run_chunks(fresh_chat_state(), chunks).0.on_poll(
                ChatPollView::Data { data, chunk },
            ).1;
            &&& step.finished
            &&& step.outcomes.len() == r.0.len() + 1
            &&& forall|i: int|
                0 <= i < r.0.len() ==> #[trigger] step.outcomes[i] == Ok::<
                    ResponseEventView,
                    ApiErrorView,
                >(ResponseEventView::OutputItemDone(r.0[i]))
            &&& step.outcomes[r.0.len() as int] == Ok::<ResponseEventView, ApiErrorView>(
                stream_completion(chunks),
            )
        }),
{
    let choices = all_choices(chunks);
    let state = run_chunks(fresh_chat_state(), chunks).0;
    unfinished_items_add_up(chunks, data, chunk);
    completion_reports_the_stream(chunks);
    let order = lemma_finished_items(choices);
    let events = finished_items(choices);
    lemma_all_done(events);
    let items = items_done(events);
    let step = state.on_poll(ChatPollView::Data { data, chunk }).1;
    assert forall|i: int| 0 <= i < items.len() implies #[trigger] step.outcomes[i] == Ok::<
        ResponseEventView,
        ApiErrorView,
    >(ResponseEventView::OutputItemDone(items[i])) by {
        assert(events[i] == ResponseEventView::OutputItemDone(items[i]));
    }
    (items, order)
}

/// The events that the fragments of tool calls are passed on as, by what came before each of
/// them. A fragment with arguments is passed on as it is, under the last id that came for
/// its call. Where it is the first one of its call with arguments, the call is announced
/// just before it, by the last id and the last name that came for it and without arguments.
pub open spec fn call_log(deltas: Seq<ChatToolCallDeltaView>) -> Seq<ResponseEventView>
    decreases deltas.len(),
{
    if deltas.len() == 0 {
        Seq::empty()
    } else {
        let earlier = deltas.drop_last();
        let index = deltas.last().index;
        let before = call_log(earlier);
        let id = last_id(deltas_of(deltas, index));
        let announced = if all_arguments(deltas_of(earlier, index)).len() > 0 {
            before
        } else {
            before.push(
                ResponseEventView::OutputItemAdded(
                    ResponseItemView::FunctionCall {
                        id: None,
                        name: match last_name(deltas_of(deltas, index)) {
                            Some(name) => name,
                            None => Seq::empty(),
                        },
                        namespace: None,
                        arguments: Seq::empty(),
                        call_id: match id {
                            Some(id) => id,
                            None => Seq::empty(),
                        },
                        metadata: None,
                    },
                ),
            )
        };
        match deltas.last().arguments {
            Some(arguments) => if arguments.len() > 0 {
                announced.push(
                    ResponseEventView::ToolCallInputDelta {
                        item_id: match id {
                            Some(id) => id,
                            None => decimal_text(index as int),
                        },
                        call_id: id,
                        delta: arguments,
                    },
                )
            } else {
                before
            },
            None => before,
        }
    }
}

#[verifier::rlimit(40)]
proof fn lemma_call_log(deltas: Seq<ChatToolCallDeltaView>)
    ensures
        fresh_chat_state().on_tool_call_deltas(deltas).1 == call_log(deltas),
    decreases deltas.len(),
{
    if deltas.len() > 0 {
        let fresh = fresh_chat_state();
        let earlier = deltas.drop_last();
        let delta = deltas.last();
        lemma_call_log(earlier);
        assert(all_calls(Seq::empty()) =~= Map::empty());
        lemma_deltas_add_up(fresh, Seq::empty(), earlier);
        assert(Seq::<ChatToolCallDeltaView>::empty() + earlier =~= earlier);
        let before = fresh.on_tool_call_deltas(earlier);
        let own = deltas_of(earlier, delta.index);
        if !mentioned(earlier, delta.index) {
            lemma_no_deltas(earlier, delta.index);
            assert(own.map_values(
                |delta: ChatToolCallDeltaView|
                    match delta.arguments {
                        Some(arguments) => arguments,
                        None => Seq::<char>::empty(),
                    },
            ) =~= Seq::empty());
        }
        assert(before.0.call(delta.index) =~= assembled(own));
        assert(deltas_of(deltas, delta.index) =~= own.push(delta)) by {
            reveal(Seq::filter);
        }
        lemma_assembled_push(own, delta);
        assert(fresh.on_tool_call_deltas(deltas).1 =~= call_log(deltas));
    }
}

/// However a turn is cut into chunks, up to the first finish reason the fragments of tool
/// calls are passed on as they come, in order and each as it is, and each call is announced
/// once, before the first of its arguments.
pub proof fn fragments_are_passed_on(chunks: Seq<ChatChunkView>, last: ChatChunkView)
    requires
        forall|i: int| 0 <= i < chunks.len() ==> is_unfinished(#[trigger] chunks[i]),
    ensures
        run_chunks(fresh_chat_state(), chunks.push(last)).1.filter(
            |event: ResponseEventView| event is OutputItemAdded || event is ToolCallInputDelta,
        ) == call_log(all_deltas(all_choices(chunks.push(last)))),
{
    let all = chunks.push(last);
    calls_are_announced_once_in_a_stream(chunks, last, 0);
    lemma_call_log(all_deltas(all_choices(all)));
    lemma_same_filter(run_chunks(fresh_chat_state(), all).1);
}

proof fn lemma_same_filter(events: Seq<ResponseEventView>)
    ensures
        events.filter(
            |event: ResponseEventView| event is OutputItemAdded || event is ToolCallInputDelta,
        ) == events.filter(|event: ResponseEventView| is_call_event(event)),
    decreases events.len(),
{
    reveal(Seq::filter);
    if events.len() > 0 {
        lemma_same_filter(events.drop_last());
    }
}

/// The arguments that events pass on under an id, put together in order.
pub open spec fn arguments_shown(events: Seq<ResponseEventView>, id: Seq<char>) -> Seq<char>
    decreases events.len(),
{
    if events.len() == 0 {
        Seq::empty()
    } else {
        let before = arguments_shown(events.drop_last(), id);
        match events.last() {
            ResponseEventView::ToolCallInputDelta { call_id, delta, .. } => if call_id == Some(
                id,
            ) {
                before + delta
            } else {
                before
            },
            _ => before,
        }
    }
}

/// Whether a call, and no other one, goes by an id whenever a fragment comes.
pub open spec fn goes_by(
    deltas: Seq<ChatToolCallDeltaView>,
    index: i64,
    id: Seq<char>,
) -> bool {
    forall|i: int|
        0 <= i < deltas.len() ==> (last_id(
            deltas_of(deltas.take(i + 1), (#[trigger] deltas[i]).index),
        ) == Some(id) <==> deltas[i].index == index)
}

proof fn lemma_log_shows(deltas: Seq<ChatToolCallDeltaView>, index: i64, id: Seq<char>)
    requires
        goes_by(deltas, index, id),
    ensures
        arguments_shown(call_log(deltas), id) == all_arguments(deltas_of(deltas, index)),
    decreases deltas.len(),
{
    let piece = |delta: ChatToolCallDeltaView|
        match delta.arguments {
            Some(arguments) => arguments,
            None => Seq::<char>::empty(),
        };
    reveal(Seq::filter);
    if deltas.len() == 0 {
        assert(deltas_of(deltas, index).map_values(piece) =~= Seq::empty());
    } else {
        let earlier = deltas.drop_last();
        let delta = deltas.last();
        assert forall|i: int| 0 <= i < earlier.len() implies (last_id(
            deltas_of(earlier.take(i + 1), (#[trigger] earlier[i]).index),
        ) == Some(id) <==> earlier[i].index == index) by {
            assert(earlier.take(i + 1) =~= deltas.take(i + 1));
            assert(earlier[i] == deltas[i]);
        }
        lemma_log_shows(earlier, index, id);
        assert(deltas.take(deltas.len() as int) =~= deltas);
        assert(deltas[deltas.len() - 1] == delta);
        let before = call_log(earlier);
        let log = call_log(deltas);
        let own = deltas_of(earlier, index);
        if log.len() > before.len() {
            let announced = log.drop_last();
            if announced.len() > before.len() {
                assert(announced.drop_last() =~= before);
            } else {
                assert(announced =~= before);
            }
            assert(arguments_shown(announced, id) == arguments_shown(before, id));
        }
        if delta.index == index {
            let all = own.push(delta);
            assert(deltas_of(deltas, index) =~= all);
            assert(all.map_values(piece).drop_last() =~= own.map_values(piece));
            assert(all.map_values(piece).last() == piece(delta));
            assert(arguments_shown(log, id) =~= all_arguments(all));
        } else {
            assert(deltas_of(deltas, index) =~= own);
        }
    }
}

proof fn lemma_filter_shows(events: Seq<ResponseEventView>, id: Seq<char>)
    ensures
        arguments_shown(
            events.filter(
                |event: ResponseEventView| event is OutputItemAdded || event is ToolCallInputDelta,
            ),
            id,
        ) == arguments_shown(events, id),
    decreases events.len(),
{
    let kept = |event: ResponseEventView| event is OutputItemAdded || event is ToolCallInputDelta;
    reveal(Seq::filter);
    if events.len() > 0 {
        lemma_filter_shows(events.drop_last(), id);
        if kept(events.last()) {
            assert(events.filter(kept).drop_last() =~= events.drop_last().filter(kept));
        }
    }
}

/// What was shown of a call's arguments as they came adds up to the arguments that the call
/// has when it is done, where the call has an id of its own whenever a fragment comes.
pub proof fn shown_arguments_add_up(
    chunks: Seq<ChatChunkView>,
    last: ChatChunkView,
    index: i64,
    id: Seq<char>,
)
    requires
        forall|i: int| 0 <= i < chunks.len() ==> is_unfinished(#[trigger] chunks[i]),
        !is_unfinished(last),
        mentioned(all_deltas(all_choices(chunks.push(last))), index),
        goes_by(all_deltas(all_choices(chunks.push(last))), index, id),
    ensures
        ({
            let events = run_chunks(fresh_chat_state(), chunks.push(last)).1;
            exists|i: int|
                0 <= i < items_done(events).len() && (#[trigger] items_done(events)[i] matches
                    ResponseItemView::FunctionCall { arguments, call_id, .. } && call_id == id
                    && arguments == arguments_shown(events, id))
        }),
{
    let all = chunks.push(last);
    let deltas = all_deltas(all_choices(all));
    let events = run_chunks(fresh_chat_state(), all).1;
    fragments_are_passed_on(chunks, last);
    lemma_filter_shows(events, id);
    lemma_log_shows(deltas, index, id);
    let order = finished_stream_reports_all_of_it(chunks, last);
    assert(order.contains(index));
    let k = choose|k: int| 0 <= k < order.len() && order[k] == index;
    lemma_goes_by_to_the_end(deltas, index, id);
    let first: int = if all_text(all_choices(all)).len() > 0 {
        1
    } else {
        0
    };
    let item = items_done(events)[first + k];
    assert(order[k] == index);
    assert(item matches ResponseItemView::FunctionCall { arguments, call_id, .. } && call_id == id
        && arguments == arguments_shown(events, id));
}

proof fn lemma_goes_by_to_the_end(deltas: Seq<ChatToolCallDeltaView>, index: i64, id: Seq<char>)
    requires
        goes_by(deltas, index, id),
        mentioned(deltas, index),
    ensures
        last_id(deltas_of(deltas, index)) == Some(id),
    decreases deltas.len(),
{
    reveal(Seq::filter);
    let earlier = deltas.drop_last();
    let delta = deltas.last();
    assert(deltas.take(deltas.len() as int) =~= deltas);
    assert(deltas[deltas.len() - 1] == delta);
    if delta.index != index {
        assert forall|i: int| 0 <= i < earlier.len() implies (last_id(
            deltas_of(earlier.take(i + 1), (#[trigger] earlier[i]).index),
        ) == Some(id) <==> earlier[i].index == index) by {
            assert(earlier.take(i + 1) =~= deltas.take(i + 1));
            assert(earlier[i] == deltas[i]);
        }
        let i = choose|i: int| 0 <= i < deltas.len() && (#[trigger] deltas[i]).index == index;
        assert(earlier[i].index == index);
        lemma_goes_by_to_the_end(earlier, index, id);
        assert(deltas_of(deltas, index) =~= deltas_of(earlier, index));
    }
}

/// The fragments of text that events show, in order.
pub open spec fn texts_shown(events: Seq<ResponseEventView>) -> Seq<Seq<char>>
    decreases events.len(),
{
    if events.len() == 0 {
        Seq::empty()
    } else {
        let before = texts_shown(events.drop_last());
        match events.last() {
            ResponseEventView::OutputTextDelta(text) => before.push(text),
            _ => before,
        }
    }
}

/// The fragments of text that choices carry, in order. Empty ones say nothing.
pub open spec fn texts_carried(choices: Seq<ChatChoiceView>) -> Seq<Seq<char>>
    decreases choices.len(),
{
    if choices.len() == 0 {
        Seq::empty()
    } else {
        let before = texts_carried(choices.drop_last());
        match choices.last().content {
            Some(text) => if text.len() > 0 {
                before.push(text)
            } else {
                before
            },
            None => before,
        }
    }
}

proof fn lemma_texts_more(events: Seq<ResponseEventView>, more: Seq<ResponseEventView>)
    ensures
        texts_shown(events + more) == texts_shown(events) + texts_shown(more),
    decreases more.len(),
{
    if more.len() == 0 {
        assert(events + more =~= events);
        assert(texts_shown(events) + texts_shown(more) =~= texts_shown(events));
    } else {
        lemma_texts_more(events, more.drop_last());
        assert((events + more).drop_last() =~= events + more.drop_last());
        assert(texts_shown(events + more) =~= texts_shown(events) + texts_shown(more));
    }
}

proof fn lemma_no_texts(events: Seq<ResponseEventView>)
    requires
        forall|i: int| 0 <= i < events.len() ==> !(#[trigger] events[i] is OutputTextDelta),
    ensures
        texts_shown(events) == Seq::<Seq<char>>::empty(),
    decreases events.len(),
{
    if events.len() > 0 {
        let earlier = events.drop_last();
        assert forall|i: int| 0 <= i < earlier.len() implies !(
        #[trigger] earlier[i] is OutputTextDelta) by {
            assert(!(events[i] is OutputTextDelta));
        }
        lemma_no_texts(earlier);
        assert(!(events[events.len() - 1] is OutputTextDelta));
    }
}

proof fn lemma_choices_texts(
    state: ChatStateView,
    known: Seq<ChatChoiceView>,
    choices: Seq<ChatChoiceView>,
)
    ensures
        texts_carried(known) + texts_shown(state.on_choices(choices).1) == texts_carried(
            known + choices,
        ),
    decreases choices.len(),
{
    if choices.len() == 0 {
        assert(known + choices =~= known);
        assert(texts_carried(known) + texts_shown(Seq::empty()) =~= texts_carried(known));
    } else {
        let earlier = choices.drop_last();
        let choice = choices.last();
        let before = state.on_choices(earlier);
        let opened = before.0.on_opening(choice);
        let read = opened.0.on_content(choice.content);
        let called = read.0.on_tool_call_deltas(choice.tool_calls);
        lemma_choices_texts(state, known, earlier);
        lemma_deltas_are_fragments(read.0, choice.tool_calls);
        lemma_no_texts(opened.1);
        lemma_no_texts(called.1);
        reveal_with_fuel(texts_shown, 2);
        if read.1.len() > 0 {
            assert(read.1.drop_last() =~= Seq::empty());
        }
        lemma_texts_more(opened.1, read.1);
        lemma_texts_more(opened.1 + read.1, called.1);
        lemma_texts_more(before.1, before.0.on_choice(choice).1);
        assert((known + choices).drop_last() =~= known + earlier);
        assert(texts_carried(known) + texts_shown(state.on_choices(choices).1) =~= texts_carried(
            known + choices,
        ));
    }
}

/// Each fragment of text is shown as it comes, by itself and in order, and nothing else is.
pub proof fn texts_are_shown_as_they_come(chunks: Seq<ChatChunkView>)
    ensures
        texts_shown(run_chunks(fresh_chat_state(), chunks).1) == texts_carried(
            all_choices(chunks),
        ),
    decreases chunks.len(),
{
    if chunks.len() > 0 {
        let earlier = chunks.drop_last();
        let chunk = chunks.last();
        texts_are_shown_as_they_come(earlier);
        let before = run_chunks(fresh_chat_state(), earlier);
        let framed = before.0.on_frame(chunk);
        let read = framed.0.on_choices(chunk.choices);
        let done = read.0.on_flush();
        lemma_no_texts(framed.1);
        lemma_no_texts(done.1);
        lemma_texts_more(framed.1, read.1);
        lemma_texts_more(framed.1 + read.1, done.1);
        lemma_texts_more(before.1, before.0.on_chunk(chunk).1);
        lemma_choices_texts(framed.0, all_choices(earlier), chunk.choices);
        assert(texts_shown(run_chunks(fresh_chat_state(), chunks).1) =~= texts_carried(
            all_choices(chunks),
        ));
    }
}

/// Whether a choice carries anything: a role, a text, or a fragment of a tool call.
pub open spec fn carries_anything(choice: ChatChoiceView) -> bool {
    choice.role is Some || (choice.content matches Some(text) && text.len() > 0)
        || choice.tool_calls.len() > 0
}

proof fn lemma_choices_open(state: ChatStateView, choices: Seq<ChatChoiceView>)
    ensures
        state.on_choices(choices).0.created_emitted <==> (state.created_emitted || exists|i: int|
            0 <= i < choices.len() && carries_anything(#[trigger] choices[i])),
    decreases choices.len(),
{
    if choices.len() > 0 {
        let earlier = choices.drop_last();
        let choice = choices.last();
        lemma_choices_open(state, earlier);
        let before = state.on_choices(earlier).0;
        let read = before.on_opening(choice).0.on_content(choice.content).0;
        lemma_deltas_are_fragments(read, choice.tool_calls);
        assert(choices[choices.len() - 1] == choice);
        if exists|i: int| 0 <= i < earlier.len() && carries_anything(#[trigger] earlier[i]) {
            let i = choose|i: int|
                0 <= i < earlier.len() && carries_anything(#[trigger] earlier[i]);
            assert(carries_anything(choices[i]));
        }
        if exists|i: int| 0 <= i < choices.len() && carries_anything(#[trigger] choices[i]) {
            let i = choose|i: int|
                0 <= i < choices.len() && carries_anything(#[trigger] choices[i]);
            if i < earlier.len() {
                assert(carries_anything(earlier[i]));
            }
        }
    }
}

proof fn lemma_chunks_open(chunks: Seq<ChatChunkView>)
    ensures
        run_chunks(fresh_chat_state(), chunks).0.created_emitted <==> exists|i: int|
            0 <= i < all_choices(chunks).len() && carries_anything(
                #[trigger] all_choices(chunks)[i],
            ),
    decreases chunks.len(),
{
    if chunks.len() > 0 {
        let earlier = chunks.drop_last();
        let chunk = chunks.last();
        lemma_chunks_open(earlier);
        let framed = run_chunks(fresh_chat_state(), earlier).0.on_frame(chunk).0;
        lemma_choices_open(framed, chunk.choices);
        let known = all_choices(earlier);
        let all = all_choices(chunks);
        if exists|i: int| 0 <= i < known.len() && carries_anything(#[trigger] known[i]) {
            let i = choose|i: int| 0 <= i < known.len() && carries_anything(#[trigger] known[i]);
            assert(carries_anything(all[i]));
        }
        if exists|i: int|
            0 <= i < chunk.choices.len() && carries_anything(#[trigger] chunk.choices[i]) {
            let i = choose|i: int|
                0 <= i < chunk.choices.len() && carries_anything(#[trigger] chunk.choices[i]);
            assert(carries_anything(all[known.len() + i]));
        }
        if exists|i: int| 0 <= i < all.len() && carries_anything(#[trigger] all[i]) {
            let i = choose|i: int| 0 <= i < all.len() && carries_anything(#[trigger] all[i]);
            if i < known.len() {
                assert(carries_anything(known[i]));
            } else {
                assert(carries_anything(chunk.choices[i - known.len()]));
            }
        }
    }
}

/// The turn is announced exactly where something comes of it: a role, a text, or a fragment
/// of a tool call.
pub proof fn created_comes_with_the_first_sign(chunks: Seq<ChatChunkView>)
    ensures
        has_created(run_chunks(fresh_chat_state(), chunks).1) <==> exists|i: int|
            0 <= i < all_choices(chunks).len() && carries_anything(
                #[trigger] all_choices(chunks)[i],
            ),
{
    lemma_run_keeps_opening(chunks);
    lemma_chunks_open(chunks);
}

/// The models that chunks name, in order.
pub open spec fn models_named(chunks: Seq<ChatChunkView>) -> Seq<Seq<char>>
    decreases chunks.len(),
{
    if chunks.len() == 0 {
        Seq::empty()
    } else {
        let before = models_named(chunks.drop_last());
        match chunks.last().model {
            Some(model) => before.push(model),
            None => before,
        }
    }
}

/// Names without those that repeat the one just before them.
pub open spec fn without_repeats(names: Seq<Seq<char>>) -> Seq<Seq<char>>
    decreases names.len(),
{
    if names.len() == 0 {
        Seq::empty()
    } else {
        let before = without_repeats(names.drop_last());
        if before.len() > 0 && before.last() == names.last() {
            before
        } else {
            before.push(names.last())
        }
    }
}

/// Every model that chunks name is announced, in order, but for one that repeats the one
/// before it.
pub proof fn named_models_are_announced(chunks: Seq<ChatChunkView>)
    ensures
        models_announced(run_chunks(fresh_chat_state(), chunks).1) == without_repeats(
            models_named(chunks),
        ),
    decreases chunks.len(),
{
    if chunks.len() > 0 {
        let earlier = chunks.drop_last();
        named_models_are_announced(earlier);
        announced_models_change(earlier);
        let before = run_chunks(fresh_chat_state(), earlier);
        let step = before.0.on_chunk(chunks.last());
        lemma_chunk_models(before.0, chunks.last());
        lemma_more_models(before.1, step.1);
        if let Some(model) = chunks.last().model {
            assert(models_named(chunks).drop_last() =~= models_named(earlier));
        }
        assert(models_announced(run_chunks(fresh_chat_state(), chunks).1) =~= without_repeats(
            models_named(chunks),
        ));
    }
}

/// Within the events of a chunk, the model comes first and what is done comes last; and where
/// there is one choice, its text comes before its tool calls.
pub proof fn chunks_are_told_in_order(state: ChatStateView, chunk: ChatChunkView)
    ensures
        ({
            let events = state.on_chunk(chunk).1;
            &&& forall|i: int|
                0 <= i < events.len() && #[trigger] events[i] is ServerModel ==> i == 0
            &&& forall|i: int, j: int|
                #![trigger events[i], events[j]]
                0 <= i < j < events.len() && events[i] is OutputItemDone
                    ==> events[j] is OutputItemDone
            &&& chunk.choices.len() == 1 ==> forall|i: int, j: int|
                #![trigger events[i], events[j]]
                0 <= i < j < events.len() && events[j] is OutputTextDelta
                    ==> !(events[i] is OutputItemAdded) && !(events[i] is ToolCallInputDelta)
        }),
{
    let framed = state.on_frame(chunk);
    let read = framed.0.on_choices(chunk.choices);
    let done = read.0.on_flush();
    let events = state.on_chunk(chunk).1;
    lemma_choices_are_fragments(framed.0, chunk.choices);
    let f = framed.1.len() as int;
    let r = read.1.len() as int;
    assert forall|i: int| f <= i < f + r implies #[trigger] events[i] == read.1[i - f] by {
    }
    assert forall|i: int| f + r <= i < events.len() implies #[trigger] events[i]
        is OutputItemDone by {
        assert(events[i] == done.1[i - f - r]);
    }
    assert forall|i: int| f <= i < f + r implies is_fragment(#[trigger] events[i]) by {
        assert(is_fragment(read.1[i - f]));
    }
    if chunk.choices.len() == 1 {
        let choice = chunk.choices[0];
        reveal_with_fuel(ChatStateView::on_choices, 2);
        assert(chunk.choices.drop_last() =~= Seq::empty());
        let opened = framed.0.on_opening(choice);
        let shown = opened.0.on_content(choice.content);
        let called = shown.0.on_tool_call_deltas(choice.tool_calls);
        lemma_deltas_are_fragments(shown.0, choice.tool_calls);
        assert(read.1 =~= opened.1 + shown.1 + called.1);
        let c = (opened.1.len() + shown.1.len()) as int;
        assert forall|i: int| f + c <= i < f + r implies !(
        #[trigger] events[i] is OutputTextDelta) by {
            assert(events[i] == called.1[i - f - c]);
        }
        assert forall|i: int| 0 <= i < f + c implies !(#[trigger] events[i] is OutputItemAdded)
            && !(events[i] is ToolCallInputDelta) by {
            if i >= f {
                assert(events[i] == (opened.1 + shown.1)[i - f]);
            }
        }
    }
}

proof fn lemma_choices_in_parts(
    state: ChatStateView,
    first: Seq<ChatChoiceView>,
    second: Seq<ChatChoiceView>,
)
    ensures
        ({
            let middle = state.on_choices(first);
            let end = middle.0.on_choices(second);
            state.on_choices(first + second) == (end.0, middle.1 + end.1)
        }),
    decreases second.len(),
{
    let middle = state.on_choices(first);
    if second.len() == 0 {
        assert(first + second =~= first);
        assert(middle.1 + Seq::<ResponseEventView>::empty() =~= middle.1);
    } else {
        lemma_choices_in_parts(state, first, second.drop_last());
        assert((first + second).drop_last() =~= first + second.drop_last());
        let end = middle.0.on_choices(second);
        assert(state.on_choices(first + second).1 =~= middle.1 + end.1);
    }
}

/// It makes no difference how choices are cut into chunks: those of one chunk may as well
/// come in two that are else the same, up to the first finish reason and after everything was
/// reported as done.
pub proof fn cutting_makes_no_difference(state: ChatStateView, chunk: ChatChunkView, at: int)
    requires
        0 <= at <= chunk.choices.len(),
        state.flushed || (state.finish_reason is None && forall|i: int|
            0 <= i < at ==> (#[trigger] chunk.choices[i]).finish_reason is None),
    ensures
        ({
            let first = state.on_chunk(
                ChatChunkView { choices: chunk.choices.take(at), ..chunk },
            );
            let second = first.0.on_chunk(
                ChatChunkView { choices: chunk.choices.skip(at), ..chunk },
            );
            state.on_chunk(chunk) == (second.0, first.1 + second.1)
        }),
{
    let one = chunk.choices.take(at);
    let two = chunk.choices.skip(at);
    let framed = state.on_frame(chunk);
    let first = ChatChunkView { choices: one, ..chunk };
    let second = ChatChunkView { choices: two, ..chunk };
    assert(one + two =~= chunk.choices);
    lemma_choices_in_parts(framed.0, one, two);
    lemma_choices_are_fragments(framed.0, one);
    if !state.flushed {
        assert forall|i: int| 0 <= i < one.len() implies (
        #[trigger] one[i]).finish_reason is None by {
            assert(chunk.choices[i].finish_reason is None);
        }
        lemma_finish_reason(framed.0, one);
    }
    let middle = framed.0.on_choices(one);
    assert(state.on_frame(first) == framed);
    assert(state.on_chunk(first).1 =~= framed.1 + middle.1);
    assert(state.on_chunk(first) == (middle.0, framed.1 + middle.1));
    assert(middle.0.on_frame(second).0 == middle.0);
    assert(middle.0.on_frame(second).1 =~= Seq::empty());
    let end = middle.0.on_choices(two);
    assert(middle.0.on_reading(second).1 =~= end.1);
    if end.0.finish_reason is Some {
        let done = end.0.on_flush();
        assert(state.on_chunk(chunk).1 =~= (framed.1 + middle.1) + (end.1 + done.1));
    } else {
        assert(state.on_chunk(chunk).1 =~= (framed.1 + middle.1) + end.1);
    }
}

/// What the receiver is told: the events of each chunk as they are, and nothing for data that
/// holds none. The end of the stream is told by the sentinel alone, blanks around it aside. A
/// stream that breaks off is told as a failure that says why.
pub proof fn chat_polls_are_told(
    state: ChatStateView,
    data: Seq<char>,
    chunk: ChatChunkView,
    message: Seq<char>,
)
    ensures
        trimmed(data) != "[DONE]"@ ==> {
            let polled = state.on_poll(ChatPollView::Data { data, chunk: Some(chunk) });
            let read = state.on_chunk(chunk);
            &&& polled.0 == read.0
            &&& !polled.1.finished
            &&& polled.1.outcomes.len() == read.1.len()
            &&& forall|i: int|
                0 <= i < read.1.len() ==> #[trigger] polled.1.outcomes[i] == Ok::<
                    ResponseEventView,
                    ApiErrorView,
                >(read.1[i])
        },
        trimmed(data) != "[DONE]"@ ==> {
            let polled = state.on_poll(ChatPollView::Data { data, chunk: None });
            polled.0 == state && !polled.1.finished && polled.1.outcomes.len() == 0
        },
        is_done_sentinel(data) <==> trimmed(data) == "[DONE]"@,
        trimmed(data) == "[DONE]"@ ==> state.on_poll(
            ChatPollView::Data { data, chunk: Some(chunk) },
        ).1.finished,
        trimmed(data) == "[DONE]"@ && state.flushed ==> state.on_poll(
            ChatPollView::Data { data, chunk: Some(chunk) },
        ).1 == (StepView { outcomes: seq![Ok(state.completion())], finished: true }),
        state.flushed ==> state.on_poll(ChatPollView::Closed).1 == (StepView {
            outcomes: seq![Ok(state.completion())],
            finished: true,
        }),
        state.on_poll(ChatPollView::Failed(message)).1 == (StepView {
            outcomes: seq![Err(ApiErrorView::Stream(message))],
            finished: true,
        }),
        state.on_poll(ChatPollView::IdleTimeout).1 == (StepView {
            outcomes: seq![
                Err(ApiErrorView::Stream("idle timeout waiting for Chat Completions SSE"@)),
            ],
            finished: true,
        }),
        !state.flushed ==> state.on_poll(ChatPollView::Closed).1 == (StepView {
            outcomes: seq![
                Err(ApiErrorView::Stream("chat completions stream closed before [DONE]"@)),
            ],
            finished: true,
        }),
{
    if state.flushed {
        let told_alone = told(seq![state.completion()], true).outcomes;
        assert(told_alone =~= seq![Ok(state.completion())]);
        assert(Seq::<ResponseEventView>::empty().push(state.completion()) =~= seq![
            state.completion(),
        ]);
    }
}

/// Whatever is held is reported as done, once, and is then no longer held: the text as one
/// message of the assistant, where there is any, and after it each call by ascending index,
/// with its arguments as they are held.
pub proof fn what_is_held_is_reported(state: ChatStateView) -> (order: Seq<i64>)
    requires
        !state.flushed,
        state.tool_calls.dom().finite(),
    ensures
        ({
            let (after, events) = state.on_flush();
            let first: int = if state.text_buffer.len() > 0 {
                1
            } else {
                0
            };
            &&& after == (ChatStateView {
                text_buffer: Seq::empty(),
                tool_calls: Map::empty(),
                flushed: true,
                ..state
            })
            &&& forall|i: int, j: int| 0 <= i < j < order.len() ==> order[i] < order[j]
            &&& forall|index: i64| #[trigger]
                order.contains(index) <==> state.tool_calls.contains_key(index)
            &&& events.len() == first + order.len()
            &&& state.text_buffer.len() > 0 ==> events[0] == ResponseEventView::OutputItemDone(
                ResponseItemView::Message {
                    id: None,
                    role: "assistant"@,
                    content: seq![ContentItemView::OutputText { text: state.text_buffer }],
                    phase: None,
                    metadata: None,
                },
            )
            &&& forall|k: int|
                0 <= k < order.len() ==> events[first + k] == ResponseEventView::OutputItemDone(
                    ResponseItemView::FunctionCall {
                        id: None,
                        name: match state.tool_calls[#[trigger] order[k]].name {
                            Some(name) => name,
                            None => Seq::empty(),
                        },
                        namespace: None,
                        arguments: state.tool_calls[order[k]].arguments,
                        call_id: match state.tool_calls[order[k]].id {
                            Some(id) => id,
                            None => decimal_text(order[k] as int),
                        },
                        metadata: None,
                    },
                )
        }),
{
    let order = call_order(state.tool_calls);
    let events = state.on_flush().1;
    let first = text_done(state.text_buffer).len() as int;
    calls_have_an_order(state.tool_calls);
    assert forall|k: int| 0 <= k < order.len() implies events[first + k] == call_done(
        #[trigger] order[k],
        state.tool_calls[order[k]],
    ) by {
    }
    if first > 0 {
        assert(events[0] == text_done(state.text_buffer)[0]);
    }
    order
}

proof fn lemma_late_call_events(state: ChatStateView, chunks: Seq<ChatChunkView>)
    requires
        state.flushed,
    ensures
        ({
            let run = run_chunks(state, chunks);
            let calls = state.on_tool_call_deltas(all_deltas(all_choices(chunks)));
            &&& run.0.flushed
            &&& run.0.tool_calls == calls.0.tool_calls
            &&& run.1.filter(|event: ResponseEventView| is_call_event(event)) == calls.1
        }),
    decreases chunks.len(),
{
    let kept = |event: ResponseEventView| is_call_event(event);
    if chunks.len() == 0 {
        reveal(Seq::filter);
    } else {
        let earlier = chunks.drop_last();
        let chunk = chunks.last();
        lemma_late_call_events(state, earlier);
        let before = run_chunks(state, earlier);
        let framed = before.0.on_frame(chunk);
        let read = framed.0.on_choices(chunk.choices);
        let known = state.on_tool_call_deltas(all_deltas(all_choices(earlier)));
        lemma_choices_call_events(framed.0, chunk.choices);
        lemma_choices_are_fragments(framed.0, chunk.choices);
        lemma_calls_decide(framed.0, known.0, all_deltas(chunk.choices));
        lemma_all_deltas_in_parts(all_choices(earlier), chunk.choices);
        lemma_deltas_in_parts(state, all_deltas(all_choices(earlier)), all_deltas(chunk.choices));
        lemma_none_kept(framed.1);
        Seq::filter_distributes_over_add(framed.1, read.1, kept);
        Seq::filter_distributes_over_add(before.1, framed.1 + read.1, kept);
        assert(before.0.on_chunk(chunk).1 =~= framed.1 + read.1);
        assert(run_chunks(state, chunks).1.filter(kept) =~= known.1
            + known.0.on_tool_call_deltas(all_deltas(chunk.choices)).1);
    }
}

/// Fragments of tool calls that come after everything was reported as done are still passed
/// on, as those of new calls.
pub proof fn late_fragments_are_passed_on(state: ChatStateView, chunks: Seq<ChatChunkView>)
    requires
        state.flushed,
        state.tool_calls == Map::<i64, CallView>::empty(),
    ensures
        run_chunks(state, chunks).1.filter(
            |event: ResponseEventView| event is OutputItemAdded || event is ToolCallInputDelta,
        ) == call_log(all_deltas(all_choices(chunks))),
{
    let deltas = all_deltas(all_choices(chunks));
    lemma_late_call_events(state, chunks);
    lemma_calls_decide(state, fresh_chat_state(), deltas);
    lemma_call_log(deltas);
    lemma_same_filter(run_chunks(state, chunks).1);
}

} // verus!
