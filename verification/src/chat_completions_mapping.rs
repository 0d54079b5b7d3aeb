//! Maps a protocol-neutral request to a Chat Completions request.
//!
//! The mapping is lossy by design: what Chat Completions has no place for is
//! dropped, and only function tools are carried over.
use crate::chat_completions::{
    ChatCompletionAssistantToolCall, ChatCompletionAssistantToolCallFunction,
    ChatCompletionContent, ChatCompletionContentPart, ChatCompletionImageUrl,
    ChatCompletionMessageParam, ChatCompletionStreamOptions, ChatCompletionTool,
    ChatCompletionToolChoice, ChatCompletionToolFunction, ChatCompletionsRequest,
    ChatContentView, ChatMessageView, ChatPartView, ChatRequestView, ChatToolCallView,
    ChatToolChoiceView, ChatToolView,
};
use crate::common::{Reasoning, ResponsesApiRequest};
use crate::json::{
    empty_object, json_empty_object, json_views, member, text_member, truth_member, JsonView,
};
use crate::protocol::{
    ContentItem, ContentItemView, ImageDetail, OutputBodyView, ReasoningEffort, ResponseItem,
    ResponseItemView,
};
use crate::text::same_text;
use serde_json::Value;
use vstd::prelude::*;

verus! {

// ── Content ──────────────────────────────────────────────────────────────────

/// The `detail` string for an image.
pub open spec fn image_detail_text(detail: ImageDetail) -> Seq<char> {
    match detail {
        ImageDetail::Auto => "auto"@,
        ImageDetail::Low => "low"@,
        ImageDetail::High => "high"@,
        ImageDetail::Original => "high"@,
    }
}

/// Maps an image detail to the Chat Completions `detail` string.
pub fn image_detail_str(detail: &ImageDetail) -> (r: String)
    ensures
        r@ == image_detail_text(*detail),
{
    match detail {
        ImageDetail::Auto => "auto".to_string(),
        ImageDetail::Low => "low".to_string(),
        ImageDetail::High => "high".to_string(),
        ImageDetail::Original => "high".to_string(),
    }
}

/// The text of a content item that is not an image.
pub open spec fn item_text(item: ContentItemView) -> Option<Seq<char>> {
    match item {
        ContentItemView::InputText { text } => Some(text),
        ContentItemView::OutputText { text } => Some(text),
        ContentItemView::InputImage { .. } => None,
    }
}

/// The text of a content item that is not an image.
pub fn text_of(item: &ContentItem) -> (r: Option<String>)
    ensures
        r.deep_view() == item_text(item.deep_view()),
{
    match item {
        ContentItem::InputText { text } => Some(text.clone()),
        ContentItem::OutputText { text } => Some(text.clone()),
        ContentItem::InputImage { .. } => None,
    }
}

/// The Chat Completions part for a content item.
pub open spec fn chat_part(item: ContentItemView) -> ChatPartView {
    match item {
        ContentItemView::InputText { text } => ChatPartView::Text { text },
        ContentItemView::OutputText { text } => ChatPartView::Text { text },
        ContentItemView::InputImage { image_url, detail } => ChatPartView::ImageUrl {
            url: image_url,
            detail: match detail {
                Some(d) => Some(image_detail_text(d)),
                None => None,
            },
        },
    }
}

/// The Chat Completions content for the content of a message: a string where
/// there is nothing or a single text, and a list of parts otherwise.
pub open spec fn chat_content(content: Seq<ContentItemView>) -> ChatContentView {
    if content.len() == 0 {
        ChatContentView::Text(Seq::empty())
    } else if content.len() == 1 && item_text(content[0]) is Some {
        ChatContentView::Text(item_text(content[0])->0)
    } else {
        ChatContentView::Parts(content.map_values(|item: ContentItemView| chat_part(item)))
    }
}

/// The Chat Completions part for a content item.
fn part_of(item: &ContentItem) -> (r: ChatCompletionContentPart)
    ensures
        r.deep_view() == chat_part(item.deep_view()),
{
    match item {
        ContentItem::InputText { text } => ChatCompletionContentPart::Text { text: text.clone() },
        ContentItem::OutputText { text } => ChatCompletionContentPart::Text { text: text.clone() },
        ContentItem::InputImage { image_url, detail } => ChatCompletionContentPart::ImageUrl {
            image_url: ChatCompletionImageUrl {
                url: image_url.clone(),
                detail: match detail {
                    Some(d) => Some(image_detail_str(d)),
                    None => None,
                },
            },
        },
    }
}

/// Converts the content of a message into Chat Completions content.
pub fn content_to_chat(content: &[ContentItem]) -> (r: ChatCompletionContent)
    ensures
        r.deep_view() == chat_content(content.deep_view()),
{
    if content.len() == 0 {
        return ChatCompletionContent::Text(String::new());
    }
    if content.len() == 1 {
        if let Some(text) = text_of(&content[0]) {
            return ChatCompletionContent::Text(text);
        }
    }
    let mut parts: Vec<ChatCompletionContentPart> = Vec::with_capacity(content.len());
    let ghost items = content.deep_view();
    for i in 0..content.len()
        invariant
            items == content.deep_view(),
            parts@.len() == i,
            forall|k: int| 0 <= k < i ==> (#[trigger] parts@[k]).deep_view() == chat_part(items[k]),
    {
        parts.push(part_of(&content[i]));
    }
    assert(parts.deep_view() =~= items.map_values(|item: ContentItemView| chat_part(item)));
    ChatCompletionContent::Parts(parts)
}

/// Content that is not the empty text.
pub open spec fn non_empty(content: ChatContentView) -> Option<ChatContentView> {
    if content == ChatContentView::Text(Seq::empty()) {
        None
    } else {
        Some(content)
    }
}

/// Leaves out empty text, so that an assistant turn with only tool calls has no
/// content at all.
pub fn empty_content_to_none(content: ChatCompletionContent) -> (r: Option<ChatCompletionContent>)
    ensures
        r.deep_view() == non_empty(content.deep_view()),
{
    match content {
        ChatCompletionContent::Text(text) => {
            if text.as_str().is_empty() {
                assert(text@ =~= Seq::empty());
                None
            } else {
                Some(ChatCompletionContent::Text(text))
            }
        },
        ChatCompletionContent::Parts(parts) => Some(ChatCompletionContent::Parts(parts)),
    }
}

// ── Messages ─────────────────────────────────────────────────────────────────

/// The message that a role says. Any role but the three named ones is the user.
pub open spec fn role_message(role: Seq<char>, content: ChatContentView) -> ChatMessageView {
    if role == "system"@ {
        ChatMessageView::System { content }
    } else if role == "developer"@ {
        ChatMessageView::Developer { content }
    } else if role == "assistant"@ {
        ChatMessageView::Assistant { content: non_empty(content), tool_calls: Seq::empty() }
    } else {
        ChatMessageView::User { content }
    }
}

/// The tool calls of the last message, where that is an assistant turn.
pub open spec fn open_calls(messages: Seq<ChatMessageView>) -> Option<Seq<ChatToolCallView>> {
    if messages.len() > 0 {
        match messages.last() {
            ChatMessageView::Assistant { tool_calls, .. } => Some(tool_calls),
            _ => None,
        }
    } else {
        None
    }
}

/// The index of the next tool call of the last message.
pub open spec fn next_call_index(messages: Seq<ChatMessageView>) -> int {
    match open_calls(messages) {
        Some(calls) => if calls.len() > 0 {
            calls.last().index + 1
        } else {
            0
        },
        None => 0,
    }
}

/// Computes the `index` for the next tool call of the last assistant message.
pub fn next_assistant_tool_call_index(messages: &[ChatCompletionMessageParam]) -> (r: i64)
    requires
        next_call_index(messages.deep_view()) <= i64::MAX,
    ensures
        r == next_call_index(messages.deep_view()),
{
    if messages.len() == 0 {
        return 0;
    }
    let last = &messages[messages.len() - 1];
    assert(messages.deep_view().last() == last.deep_view());
    match last {
        ChatCompletionMessageParam::Assistant { tool_calls, .. } => {
            if tool_calls.len() == 0 {
                0
            } else {
                let call = &tool_calls[tool_calls.len() - 1];
                assert(tool_calls.deep_view().last() == call.deep_view());
                call.index + 1
            }
        },
        _ => 0,
    }
}

/// `messages` with one more tool call: on the last message where that is an
/// assistant turn, and else on an assistant turn of its own.
pub open spec fn with_call(messages: Seq<ChatMessageView>, call: ChatToolCallView) -> Seq<
    ChatMessageView,
> {
    match open_calls(messages) {
        Some(calls) => messages.drop_last().push(
            ChatMessageView::Assistant {
                content: messages.last()->Assistant_content,
                tool_calls: calls.push(call),
            },
        ),
        None => messages.push(
            ChatMessageView::Assistant { content: None, tool_calls: seq![call] },
        ),
    }
}

/// Appends a tool call to the last assistant message, creating one if needed.
pub fn append_assistant_tool_call(
    tool_call: ChatCompletionAssistantToolCall,
    messages: &mut Vec<ChatCompletionMessageParam>,
)
    ensures
        final(messages).deep_view() == with_call(old(messages).deep_view(), tool_call.deep_view()),
{
    let ghost before = messages.deep_view();
    match messages.pop() {
        Some(ChatCompletionMessageParam::Assistant { content, mut tool_calls }) => {
            let ghost calls = tool_calls.deep_view();
            assert(messages.deep_view() =~= before.drop_last());
            assert(before.last() == (ChatMessageView::Assistant {
                content: content.deep_view(),
                tool_calls: calls,
            }));
            tool_calls.push(tool_call);
            assert(tool_calls.deep_view() =~= calls.push(tool_call.deep_view()));
            messages.push(ChatCompletionMessageParam::Assistant { content, tool_calls });
            assert(messages.deep_view() =~= with_call(before, tool_call.deep_view()));
        },
        Some(other) => {
            assert(before.last() == other.deep_view());
            messages.push(other);
            assert(messages.deep_view() =~= before);
            let mut tool_calls: Vec<ChatCompletionAssistantToolCall> = Vec::new();
            tool_calls.push(tool_call);
            assert(tool_calls.deep_view() =~= seq![tool_call.deep_view()]);
            messages.push(ChatCompletionMessageParam::Assistant { content: None, tool_calls });
            assert(messages.deep_view() =~= with_call(before, tool_call.deep_view()));
        },
        None => {
            let mut tool_calls: Vec<ChatCompletionAssistantToolCall> = Vec::new();
            tool_calls.push(tool_call);
            assert(tool_calls.deep_view() =~= seq![tool_call.deep_view()]);
            messages.push(ChatCompletionMessageParam::Assistant { content: None, tool_calls });
            assert(messages.deep_view() =~= with_call(before, tool_call.deep_view()));
        },
    }
}

/// The tool call that a function call item is replayed as.
pub open spec fn replayed_call(
    index: int,
    call_id: Seq<char>,
    name: Seq<char>,
    arguments: Seq<char>,
) -> ChatToolCallView {
    ChatToolCallView { index, id: call_id, kind: "function"@, name, arguments }
}

/// The message that an item is, where it is a message of its own.
pub open spec fn own_message(item: ResponseItemView) -> Option<ChatMessageView> {
    match item {
        ResponseItemView::Message { role, content, .. } => Some(
            role_message(role, chat_content(content)),
        ),
        ResponseItemView::FunctionCallOutput { call_id, output, .. } => Some(
            ChatMessageView::Tool {
                tool_call_id: call_id,
                content: match output.body.text() {
                    Some(text) => text,
                    None => Seq::empty(),
                },
            },
        ),
        _ => None,
    }
}

/// `messages` followed by one item. A function call joins the assistant turn
/// before it; an item without a Chat Completions equivalent is dropped.
pub open spec fn with_item(messages: Seq<ChatMessageView>, item: ResponseItemView) -> Seq<
    ChatMessageView,
> {
    match item {
        ResponseItemView::FunctionCall { call_id, name, arguments, .. } => with_call(
            messages,
            replayed_call(next_call_index(messages), call_id, name, arguments),
        ),
        _ => match own_message(item) {
            Some(message) => messages.push(message),
            None => messages,
        },
    }
}

/// Maps a single item to a Chat Completions message. Gives nothing for an item
/// that has no equivalent, and for a function call, which is folded into the
/// assistant turn at the end of `messages`.
pub fn map_response_item(
    item: &ResponseItem,
    messages: &mut Vec<ChatCompletionMessageParam>,
) -> (r: Option<ChatCompletionMessageParam>)
    requires
        item.deep_view() is FunctionCall ==> next_call_index(old(messages).deep_view())
            <= i64::MAX,
    ensures
        r.deep_view() == own_message(item.deep_view()),
        match r {
            Some(message) => final(messages).deep_view() == old(messages).deep_view(),
            None => final(messages).deep_view() == with_item(
                old(messages).deep_view(),
                item.deep_view(),
            ),
        },
{
    match item {
        ResponseItem::Message { role, content, .. } => {
            let content = content_to_chat(content.as_slice());
            if same_text(role.as_str(), "system") {
                Some(ChatCompletionMessageParam::System { content })
            } else if same_text(role.as_str(), "developer") {
                Some(ChatCompletionMessageParam::Developer { content })
            } else if same_text(role.as_str(), "assistant") {
                let tool_calls: Vec<ChatCompletionAssistantToolCall> = Vec::new();
                assert(tool_calls.deep_view() =~= Seq::empty());
                Some(
                    ChatCompletionMessageParam::Assistant {
                        content: empty_content_to_none(content),
                        tool_calls,
                    },
                )
            } else {
                // "user", and any role that is not known.
                Some(ChatCompletionMessageParam::User { content })
            }
        },
        ResponseItem::FunctionCall { name, arguments, call_id, .. } => {
            let index: i64 = next_assistant_tool_call_index(messages.as_slice());
            let tool_call = ChatCompletionAssistantToolCall {
                index,
                id: call_id.clone(),
                kind: "function".to_string(),
                function: ChatCompletionAssistantToolCallFunction {
                    name: name.clone(),
                    arguments: arguments.clone(),
                },
            };
            append_assistant_tool_call(tool_call, messages);
            None
        },
        ResponseItem::FunctionCallOutput { call_id, output, .. } => {
            let content = match output.body.to_text() {
                Some(text) => text,
                None => String::new(),
            };
            Some(ChatCompletionMessageParam::Tool { tool_call_id: call_id.clone(), content })
        },
        _ => None,
    }
}

/// The messages that `start` becomes when `items` are added one by one.
pub open spec fn with_items(
    start: Seq<ChatMessageView>,
    items: Seq<ResponseItemView>,
) -> Seq<ChatMessageView>
    decreases items.len(),
{
    if items.len() == 0 {
        start
    } else {
        with_item(with_items(start, items.drop_last()), items.last())
    }
}

/// The message that carries the instructions, where there are any.
pub open spec fn instruction_messages(instructions: Seq<char>) -> Seq<ChatMessageView> {
    if instructions.len() == 0 {
        Seq::empty()
    } else {
        seq![ChatMessageView::System { content: ChatContentView::Text(instructions) }]
    }
}

/// The messages of a Chat Completions request.
pub open spec fn chat_messages(
    instructions: Seq<char>,
    items: Seq<ResponseItemView>,
) -> Seq<ChatMessageView> {
    with_items(instruction_messages(instructions), items)
}

/// A function call, as the model made it.
pub struct CallView {
    pub id: Seq<char>,
    pub name: Seq<char>,
    pub arguments: Seq<char>,
}

/// The calls of some tool calls, in order.
pub open spec fn calls_of(tool_calls: Seq<ChatToolCallView>) -> Seq<CallView> {
    tool_calls.map_values(
        |call: ChatToolCallView|
            CallView { id: call.id, name: call.name, arguments: call.arguments },
    )
}

/// The calls that a message carries, in order.
pub open spec fn message_calls(message: ChatMessageView) -> Seq<CallView> {
    match message {
        ChatMessageView::Assistant { tool_calls, .. } => calls_of(tool_calls),
        _ => Seq::empty(),
    }
}

/// The calls that some messages carry, in order.
pub open spec fn messages_calls(messages: Seq<ChatMessageView>) -> Seq<CallView>
    decreases messages.len(),
{
    if messages.len() == 0 {
        Seq::empty()
    } else {
        messages_calls(messages.drop_last()) + message_calls(messages.last())
    }
}

/// The calls among some items, in order.
pub open spec fn items_calls(items: Seq<ResponseItemView>) -> Seq<CallView>
    decreases items.len(),
{
    if items.len() == 0 {
        Seq::empty()
    } else {
        let before = items_calls(items.drop_last());
        match items.last() {
            ResponseItemView::FunctionCall { call_id, name, arguments, .. } => before.push(
                CallView { id: call_id, name, arguments },
            ),
            _ => before,
        }
    }
}

/// Whether the index of every tool call of a message is its position there.
pub open spec fn indexed_by_position(message: ChatMessageView) -> bool {
    match message {
        ChatMessageView::Assistant { tool_calls, .. } => forall|k: int|
            0 <= k < tool_calls.len() ==> (#[trigger] tool_calls[k]).index == k,
        _ => true,
    }
}

/// However a conversation goes, the tool calls of each assistant turn are
/// numbered from zero, without gaps, in the order in which they were made; and
/// no turn has more of them than the conversation has items.
pub proof fn tool_calls_are_indexed_by_position(
    instructions: Seq<char>,
    items: Seq<ResponseItemView>,
)
    ensures
        forall|i: int|
            0 <= i < chat_messages(instructions, items).len() ==> indexed_by_position(
                #[trigger] chat_messages(instructions, items)[i],
            ),
        0 <= next_call_index(chat_messages(instructions, items)) <= items.len(),
    decreases items.len(),
{
    let messages = chat_messages(instructions, items);
    if items.len() > 0 {
        tool_calls_are_indexed_by_position(instructions, items.drop_last());
        let before = chat_messages(instructions, items.drop_last());
        assert(messages == with_item(before, items.last()));
        if open_calls(before) is Some {
            assert(indexed_by_position(before[before.len() - 1]));
        }
        assert forall|i: int| 0 <= i < messages.len() implies indexed_by_position(
            #[trigger] messages[i],
        ) by {
            if i < before.len() {
                assert(indexed_by_position(before[i]));
            }
        }
    }
}

/// Where the calls of the last assistant turn are numbered by position, the next index is
/// their number, and zero where the last message is none; and a call that is appended
/// under it is numbered by position again.
pub proof fn next_call_keeps_positions(messages: Seq<ChatMessageView>, call: ChatToolCallView)
    requires
        messages.len() > 0 ==> indexed_by_position(messages.last()),
        call.index == next_call_index(messages),
    ensures
        next_call_index(messages) == (if messages.len() > 0 {
            match messages.last() {
                ChatMessageView::Assistant { tool_calls, .. } => tool_calls.len() as int,
                _ => 0,
            }
        } else {
            0
        }),
        open_calls(with_call(messages, call)) == Some(
            (match open_calls(messages) {
                Some(calls) => calls,
                None => Seq::empty(),
            }).push(call),
        ),
        indexed_by_position(with_call(messages, call).last()),
{
    calls_join_the_last_turn(messages, call);
    if open_calls(messages) is None {
        assert(seq![call] =~= Seq::empty().push(call));
    }
}

/// A tool call goes to the end of the last message where that is an assistant turn, which
/// else stays as it is, and elsewhere makes an assistant turn of its own without content;
/// no other message changes. Its index follows that of the call before it in that turn, and
/// is zero where there is none.
pub proof fn calls_join_the_last_turn(messages: Seq<ChatMessageView>, call: ChatToolCallView)
    ensures
        ({
            let after = with_call(messages, call);
            let n = messages.len() as int;
            if n > 0 && messages[n - 1] is Assistant {
                let calls = messages[n - 1]->Assistant_tool_calls;
                &&& after.len() == n
                &&& forall|i: int| 0 <= i < n - 1 ==> #[trigger] after[i] == messages[i]
                &&& after[n - 1] == (ChatMessageView::Assistant {
                    content: messages[n - 1]->Assistant_content,
                    tool_calls: calls.push(call),
                })
                &&& next_call_index(messages) == (if calls.len() > 0 {
                    calls[calls.len() - 1].index + 1
                } else {
                    0
                })
            } else {
                &&& after.len() == n + 1
                &&& forall|i: int| 0 <= i < n ==> #[trigger] after[i] == messages[i]
                &&& after[n] == (ChatMessageView::Assistant {
                    content: None,
                    tool_calls: seq![call],
                })
                &&& next_call_index(messages) == 0
            }
        }),
{
}

/// Every function call of a conversation reaches the model once, in its order,
/// with its id, name and arguments; and there are no others.
pub proof fn function_calls_are_all_replayed(
    instructions: Seq<char>,
    items: Seq<ResponseItemView>,
)
    ensures
        messages_calls(chat_messages(instructions, items)) == items_calls(items),
    decreases items.len(),
{
    reveal_with_fuel(messages_calls, 2);
    if items.len() == 0 {
        let start = instruction_messages(instructions);
        if start.len() > 0 {
            assert(start.drop_last() =~= Seq::empty());
        }
        assert(messages_calls(start) =~= Seq::empty());
    } else {
        function_calls_are_all_replayed(instructions, items.drop_last());
        let before = chat_messages(instructions, items.drop_last());
        let messages = chat_messages(instructions, items);
        assert(messages == with_item(before, items.last()));
        match items.last() {
            ResponseItemView::FunctionCall { call_id, name, arguments, .. } => {
                let call = replayed_call(next_call_index(before), call_id, name, arguments);
                match open_calls(before) {
                    Some(calls) => {
                        assert(messages.drop_last() =~= before.drop_last());
                        assert(calls_of(calls.push(call)) =~= calls_of(calls).push(
                            CallView { id: call_id, name, arguments },
                        ));
                    },
                    None => {
                        assert(messages.drop_last() =~= before);
                        assert(calls_of(seq![call]) =~= seq![
                            CallView { id: call_id, name, arguments },
                        ]);
                    },
                }
                assert(messages_calls(messages) =~= items_calls(items));
            },
            _ => {
                if own_message(items.last()) is Some {
                    assert(messages.drop_last() =~= before);
                    assert(message_calls(messages.last()) =~= Seq::empty());
                    assert(messages_calls(messages) =~= items_calls(items));
                }
            },
        }
    }
}

/// The results of tool calls that some messages carry, in order: the call that
/// each answers, and its text.
pub open spec fn messages_results(messages: Seq<ChatMessageView>) -> Seq<(Seq<char>, Seq<char>)>
    decreases messages.len(),
{
    if messages.len() == 0 {
        Seq::empty()
    } else {
        let before = messages_results(messages.drop_last());
        match messages.last() {
            ChatMessageView::Tool { tool_call_id, content } => before.push(
                (tool_call_id, content),
            ),
            _ => before,
        }
    }
}

/// The results of function calls among some items, in order.
pub open spec fn items_results(items: Seq<ResponseItemView>) -> Seq<(Seq<char>, Seq<char>)>
    decreases items.len(),
{
    if items.len() == 0 {
        Seq::empty()
    } else {
        let before = items_results(items.drop_last());
        match items.last() {
            ResponseItemView::FunctionCallOutput { call_id, output, .. } => before.push(
                (
                    call_id,
                    match output.body {
                        OutputBodyView::Text(text) => text,
                        OutputBodyView::ContentItems { text: Some(text), .. } => text,
                        OutputBodyView::ContentItems { text: None, .. } => Seq::empty(),
                    },
                ),
            ),
            _ => before,
        }
    }
}

/// Every function call output of a conversation reaches the model once, in its
/// order, under the id of the call that it answers; and there are no others.
pub proof fn function_results_are_all_returned(
    instructions: Seq<char>,
    items: Seq<ResponseItemView>,
)
    ensures
        messages_results(chat_messages(instructions, items)) == items_results(items),
    decreases items.len(),
{
    reveal_with_fuel(messages_results, 2);
    if items.len() == 0 {
        let start = instruction_messages(instructions);
        if start.len() > 0 {
            assert(start.drop_last() =~= Seq::empty());
        }
    } else {
        function_results_are_all_returned(instructions, items.drop_last());
        let before = chat_messages(instructions, items.drop_last());
        let messages = chat_messages(instructions, items);
        assert(messages == with_item(before, items.last()));
        match items.last() {
            ResponseItemView::FunctionCall { .. } => {
                if open_calls(before) is Some {
                    assert(messages.drop_last() =~= before.drop_last());
                } else {
                    assert(messages.drop_last() =~= before);
                }
            },
            _ => {
                if own_message(items.last()) is Some {
                    assert(messages.drop_last() =~= before);
                }
            },
        }
    }
}

/// Whether Chat Completions has a place for an item.
pub open spec fn has_chat_equivalent(item: ResponseItemView) -> bool {
    item is Message || item is FunctionCall || item is FunctionCallOutput
}

/// Items without a Chat Completions equivalent leave no trace: the request is
/// that of the conversation without them.
pub proof fn other_items_leave_no_trace(instructions: Seq<char>, items: Seq<ResponseItemView>)
    ensures
        chat_messages(instructions, items) == chat_messages(
            instructions,
            items.filter(|item: ResponseItemView| has_chat_equivalent(item)),
        ),
    decreases items.len(),
{
    let keep = |item: ResponseItemView| has_chat_equivalent(item);
    reveal(Seq::filter);
    if items.len() > 0 {
        other_items_leave_no_trace(instructions, items.drop_last());
        if keep(items.last()) {
            assert(items.filter(keep).drop_last() =~= items.drop_last().filter(keep));
        }
    }
}

/// Instructions come first, as a message of the system, whatever follows.
pub proof fn instructions_come_first(instructions: Seq<char>, items: Seq<ResponseItemView>)
    requires
        instructions.len() > 0,
    ensures
        chat_messages(instructions, items).len() > 0,
        chat_messages(instructions, items)[0] == (ChatMessageView::System {
            content: ChatContentView::Text(instructions),
        }),
    decreases items.len(),
{
    if items.len() > 0 {
        instructions_come_first(instructions, items.drop_last());
    }
}

/// Content keeps every piece: nothing at all is the empty text, a single text is that text,
/// and anything else is one part for each piece, in order, with the very text of a text and
/// the very address of an image.
pub proof fn content_keeps_every_piece(content: Seq<ContentItemView>)
    ensures
        content.len() == 0 ==> chat_content(content) == ChatContentView::Text(Seq::empty()),
        content.len() == 1 ==> (match content[0] {
            ContentItemView::InputText { text } => chat_content(content) == ChatContentView::Text(
                text,
            ),
            ContentItemView::OutputText { text } => chat_content(content)
                == ChatContentView::Text(text),
            ContentItemView::InputImage { .. } => chat_content(content) is Parts,
        }),
        content.len() > 1 ==> chat_content(content) is Parts,
        chat_content(content) matches ChatContentView::Parts(parts) ==> parts.len()
            == content.len() && forall|i: int|
            0 <= i < content.len() ==> (match content[i] {
                ContentItemView::InputText { text } => #[trigger] parts[i] == (
                ChatPartView::Text { text }),
                ContentItemView::OutputText { text } => parts[i] == (ChatPartView::Text { text }),
                ContentItemView::InputImage { image_url, detail } => parts[i] == (
                ChatPartView::ImageUrl {
                    url: image_url,
                    detail: match detail {
                        None => None,
                        Some(ImageDetail::Auto) => Some("auto"@),
                        Some(ImageDetail::Low) => Some("low"@),
                        Some(ImageDetail::High) => Some("high"@),
                        Some(ImageDetail::Original) => Some("high"@),
                    },
                }),
            }),
{
}

/// One thing that a message says: words, or an image by its address.
pub enum Saying {
    Words(Seq<char>),
    Picture(Seq<char>),
}

/// What parts say, in order. Empty words say nothing.
pub open spec fn part_sayings(parts: Seq<ChatPartView>) -> Seq<Saying>
    decreases parts.len(),
{
    if parts.len() == 0 {
        Seq::empty()
    } else {
        let before = part_sayings(parts.drop_last());
        match parts.last() {
            ChatPartView::Text { text } => if text.len() > 0 {
                before.push(Saying::Words(text))
            } else {
                before
            },
            ChatPartView::ImageUrl { url, .. } => before.push(Saying::Picture(url)),
        }
    }
}

/// What content says, in order.
pub open spec fn content_sayings(content: ChatContentView) -> Seq<Saying> {
    match content {
        ChatContentView::Text(text) => if text.len() > 0 {
            seq![Saying::Words(text)]
        } else {
            Seq::empty()
        },
        ChatContentView::Parts(parts) => part_sayings(parts),
    }
}

/// What the pieces of a message say, in order. Empty words say nothing.
pub open spec fn piece_sayings(content: Seq<ContentItemView>) -> Seq<Saying>
    decreases content.len(),
{
    if content.len() == 0 {
        Seq::empty()
    } else {
        let before = piece_sayings(content.drop_last());
        match content.last() {
            ContentItemView::InputText { text } => if text.len() > 0 {
                before.push(Saying::Words(text))
            } else {
                before
            },
            ContentItemView::OutputText { text } => if text.len() > 0 {
                before.push(Saying::Words(text))
            } else {
                before
            },
            ContentItemView::InputImage { image_url, .. } => before.push(
                Saying::Picture(image_url),
            ),
        }
    }
}

/// What messages say, in order, tool calls and their results aside: who, and what.
pub open spec fn message_sayings(messages: Seq<ChatMessageView>) -> Seq<(Seq<char>, Seq<Saying>)>
    decreases messages.len(),
{
    if messages.len() == 0 {
        Seq::empty()
    } else {
        let before = message_sayings(messages.drop_last());
        match messages.last() {
            ChatMessageView::System { content } => before.push(
                ("system"@, content_sayings(content)),
            ),
            ChatMessageView::Developer { content } => before.push(
                ("developer"@, content_sayings(content)),
            ),
            ChatMessageView::User { content } => before.push(("user"@, content_sayings(content))),
            ChatMessageView::Assistant { content: Some(content), .. } => before.push(
                ("assistant"@, content_sayings(content)),
            ),
            _ => before,
        }
    }
}

/// What the messages of a conversation say, in order: who, and what. An assistant that
/// says a single empty text, or nothing at all, is left out.
pub open spec fn item_sayings(items: Seq<ResponseItemView>) -> Seq<(Seq<char>, Seq<Saying>)>
    decreases items.len(),
{
    if items.len() == 0 {
        Seq::empty()
    } else {
        let before = item_sayings(items.drop_last());
        match items.last() {
            ResponseItemView::Message { role, content, .. } => {
                let said = piece_sayings(content);
                if role == "assistant"@ {
                    if said.len() == 0 && content.len() < 2 {
                        before
                    } else {
                        before.push(("assistant"@, said))
                    }
                } else if role == "system"@ || role == "developer"@ {
                    before.push((role, said))
                } else {
                    before.push(("user"@, said))
                }
            },
            _ => before,
        }
    }
}

proof fn lemma_part_sayings(content: Seq<ContentItemView>)
    ensures
        part_sayings(content.map_values(|item: ContentItemView| chat_part(item)))
            == piece_sayings(content),
    decreases content.len(),
{
    let part = |item: ContentItemView| chat_part(item);
    if content.len() > 0 {
        lemma_part_sayings(content.drop_last());
        assert(content.map_values(part).drop_last() =~= content.drop_last().map_values(part));
    }
}

/// The texts and the addresses of images that content holds are those of its pieces, in
/// order.
pub proof fn content_says_what_its_pieces_say(content: Seq<ContentItemView>)
    ensures
        content_sayings(chat_content(content)) == piece_sayings(content),
{
    lemma_part_sayings(content);
    reveal_with_fuel(piece_sayings, 2);
    if content.len() == 1 {
        assert(content.drop_last() =~= Seq::empty());
        if !(content[0] is InputImage) {
            assert(content_sayings(chat_content(content)) =~= piece_sayings(content));
        }
    }
}

/// Nothing that is said is lost, nothing is added, and the order is kept: after the
/// instructions, each message of a conversation says what it said, under its own role,
/// where any role that is not known is the user's.
pub proof fn everything_is_said_in_order(instructions: Seq<char>, items: Seq<ResponseItemView>)
    ensures
        message_sayings(chat_messages(instructions, items)) == (if instructions.len() > 0 {
            seq![("system"@, seq![Saying::Words(instructions)])]
        } else {
            Seq::empty()
        }) + item_sayings(items),
    decreases items.len(),
{
    let opening = if instructions.len() > 0 {
        seq![("system"@, seq![Saying::Words(instructions)])]
    } else {
        Seq::empty()
    };
    if items.len() == 0 {
        let start = instruction_messages(instructions);
        reveal_with_fuel(message_sayings, 2);
        if start.len() > 0 {
            assert(start.drop_last() =~= Seq::empty());
        }
        assert(message_sayings(start) =~= opening + item_sayings(items));
    } else {
        everything_is_said_in_order(instructions, items.drop_last());
        let before = chat_messages(instructions, items.drop_last());
        let messages = chat_messages(instructions, items);
        assert(messages == with_item(before, items.last()));
        match items.last() {
            ResponseItemView::FunctionCall { .. } => {
                if open_calls(before) is Some {
                    assert(messages.drop_last() =~= before.drop_last());
                } else {
                    assert(messages.drop_last() =~= before);
                }
            },
            ResponseItemView::Message { role, content, .. } => {
                assert(messages.drop_last() =~= before);
                reveal_strlit("system");
                reveal_strlit("developer");
                reveal_strlit("assistant");
                assert("developer"@[0] != "assistant"@[0]);
                content_says_what_its_pieces_say(content);
                reveal_with_fuel(piece_sayings, 2);
                if content.len() == 1 {
                    assert(content.drop_last() =~= Seq::empty());
                }
                if chat_content(content) == ChatContentView::Text(Seq::empty()) {
                    assert(piece_sayings(content) =~= Seq::empty());
                } else if content.len() == 1 && !(content[0] is InputImage) {
                    let text = item_text(content[0])->0;
                    assert(text.len() == 0 ==> text =~= Seq::empty());
                }
            },
            _ => {
                if own_message(items.last()) is Some {
                    assert(messages.drop_last() =~= before);
                }
            },
        }
        assert(message_sayings(messages) =~= opening + item_sayings(items));
    }
}

/// What one more item adds to the messages of a conversation. A message is a message of its
/// own under its role, with its content, where an assistant that says the empty text has
/// none; the output of a call answers that call by its text; a function call goes to the
/// assistant turn before it, or makes one; and anything else adds nothing.
pub proof fn each_item_adds_what_it_is(
    instructions: Seq<char>,
    items: Seq<ResponseItemView>,
    item: ResponseItemView,
)
    ensures
        ({
            let before = chat_messages(instructions, items);
            let after = chat_messages(instructions, items.push(item));
            match item {
                ResponseItemView::Message { role, content, .. } => {
                    &&& after.len() == before.len() + 1
                    &&& after.drop_last() == before
                    &&& if role == "system"@ {
                        after.last() == (ChatMessageView::System {
                            content: chat_content(content),
                        })
                    } else if role == "developer"@ {
                        after.last() == (ChatMessageView::Developer {
                            content: chat_content(content),
                        })
                    } else if role == "assistant"@ {
                        after.last() == (ChatMessageView::Assistant {
                            content: match chat_content(content) {
                                ChatContentView::Text(text) => if text.len() == 0 {
                                    None
                                } else {
                                    Some(ChatContentView::Text(text))
                                },
                                ChatContentView::Parts(parts) => Some(
                                    ChatContentView::Parts(parts),
                                ),
                            },
                            tool_calls: Seq::empty(),
                        })
                    } else {
                        after.last() == (ChatMessageView::User { content: chat_content(content) })
                    }
                },
                ResponseItemView::FunctionCallOutput { call_id, output, .. } => after
                    == before.push(
                    ChatMessageView::Tool {
                        tool_call_id: call_id,
                        content: match output.body {
                            OutputBodyView::Text(text) => text,
                            OutputBodyView::ContentItems { text: Some(text), .. } => text,
                            OutputBodyView::ContentItems { text: None, .. } => Seq::empty(),
                        },
                    },
                ),
                ResponseItemView::FunctionCall { call_id, name, arguments, .. } => {
                    let n = before.len() as int;
                    let joins = n > 0 && before[n - 1] is Assistant;
                    let calls = if joins {
                        before[n - 1]->Assistant_tool_calls
                    } else {
                        Seq::empty()
                    };
                    let call = ChatToolCallView {
                        index: calls.len() as int,
                        id: call_id,
                        kind: "function"@,
                        name,
                        arguments,
                    };
                    if joins {
                        after == before.update(
                            n - 1,
                            ChatMessageView::Assistant {
                                content: before[n - 1]->Assistant_content,
                                tool_calls: calls.push(call),
                            },
                        )
                    } else {
                        after == before.push(
                            ChatMessageView::Assistant { content: None, tool_calls: seq![call] },
                        )
                    }
                },
                _ => after == before,
            }
        }),
{
    assert(items.push(item).drop_last() =~= items);
    let before = chat_messages(instructions, items);
    let after = chat_messages(instructions, items.push(item));
    assert(after == with_item(before, item));
    tool_calls_are_indexed_by_position(instructions, items);
    match item {
        ResponseItemView::Message { content, .. } => {
            assert(after.drop_last() =~= before);
            if let ChatContentView::Text(text) = chat_content(content) {
                assert(text.len() == 0 ==> text =~= Seq::empty());
            }
        },
        ResponseItemView::FunctionCall { call_id, name, arguments, .. } => {
            let n = before.len() as int;
            if n > 0 && before[n - 1] is Assistant {
                let calls = before[n - 1]->Assistant_tool_calls;
                assert(indexed_by_position(before[n - 1]));
                assert(next_call_index(before) == calls.len());
                let call = ChatToolCallView {
                    index: calls.len() as int,
                    id: call_id,
                    kind: "function"@,
                    name,
                    arguments,
                };
                assert(after =~= before.update(
                    n - 1,
                    ChatMessageView::Assistant {
                        content: before[n - 1]->Assistant_content,
                        tool_calls: calls.push(call),
                    },
                ));
            }
        },
        _ => {},
    }
}

/// Without any item, there are the instructions alone, if there are any.
pub proof fn conversations_start_with_instructions(instructions: Seq<char>)
    ensures
        chat_messages(instructions, Seq::empty()) == (if instructions.len() > 0 {
            seq![ChatMessageView::System { content: ChatContentView::Text(instructions) }]
        } else {
            Seq::empty()
        }),
{
}

/// Content is left out where it is the empty text, and kept as it is elsewhere.
pub proof fn only_the_empty_text_is_left_out(content: ChatContentView)
    ensures
        match content {
            ChatContentView::Text(text) => if text.len() == 0 {
                non_empty(content) is None
            } else {
                non_empty(content) == Some(ChatContentView::Text(text))
            },
            ChatContentView::Parts(parts) => non_empty(content) == Some(
                ChatContentView::Parts(parts),
            ),
        },
{
    if let ChatContentView::Text(text) = content {
        assert(text.len() == 0 ==> text =~= Seq::empty());
    }
}

/// The text of a piece is what it says in words, and an image says nothing in words.
pub proof fn pieces_read_as_their_text(text: Seq<char>, detail: Option<ImageDetail>)
    ensures
        item_text(ContentItemView::InputText { text }) == Some(text),
        item_text(ContentItemView::OutputText { text }) == Some(text),
        item_text(ContentItemView::InputImage { image_url: text, detail }) is None,
{
}

// ── Tools ────────────────────────────────────────────────────────────────────

/// The Chat Completions form of a tool, where it is a function with a name.
pub open spec fn reshaped_tool(tool: JsonView) -> Option<ChatToolView> {
    if tool.text_member("type"@) == Some("function"@) {
        match tool.text_member("name"@) {
            Some(name) => Some(
                ChatToolView {
                    kind: "function"@,
                    name,
                    description: tool.text_member("description"@),
                    parameters: match tool.member("parameters"@) {
                        Some(parameters) => parameters,
                        None => json_empty_object(),
                    },
                    strict: tool.truth_member("strict"@),
                },
            ),
            None => None,
        }
    } else {
        None
    }
}

/// The Chat Completions form of some tools. The others are dropped.
pub open spec fn reshaped_tools(tools: Seq<JsonView>) -> Seq<ChatToolView>
    decreases tools.len(),
{
    if tools.len() == 0 {
        Seq::empty()
    } else {
        let before = reshaped_tools(tools.drop_last());
        match reshaped_tool(tools.last()) {
            Some(tool) => before.push(tool),
            None => before,
        }
    }
}

/// Reshapes one tool, where it is a function with a name.
fn reshape_tool(tool: &Value) -> (r: Option<ChatCompletionTool>)
    ensures
        r.deep_view() == reshaped_tool(crate::json::json_view(*tool)),
{
    let is_function = match text_member(tool, "type") {
        Some(kind) => same_text(kind, "function"),
        None => false,
    };
    if !is_function {
        return None;
    }
    let name = match text_member(tool, "name") {
        Some(name) => name.to_string(),
        None => {
            return None;
        },
    };
    let parameters = match member(tool, "parameters") {
        Some(parameters) => parameters.clone(),
        None => empty_object(),
    };
    let description = match text_member(tool, "description") {
        Some(description) => Some(description.to_string()),
        None => None,
    };
    Some(
        ChatCompletionTool {
            kind: "function".to_string(),
            function: ChatCompletionToolFunction {
                name,
                description,
                parameters,
                strict: truth_member(tool, "strict"),
            },
        },
    )
}

/// Reshapes tools (`{"type":"function", name, ...}`) into function-calling shape
/// (`{"type":"function","function":{name, description, parameters, strict}}`).
/// Tools that are not functions, or have no name, are dropped.
pub fn reshape_tools(tools: &[Value]) -> (r: Vec<ChatCompletionTool>)
    ensures
        r.deep_view() == reshaped_tools(json_views(tools@)),
{
    let mut out: Vec<ChatCompletionTool> = Vec::with_capacity(tools.len());
    let ghost views = json_views(tools@);
    assert(out.deep_view() =~= reshaped_tools(views.take(0)));
    for i in 0..tools.len()
        invariant
            views == json_views(tools@),
            out.deep_view() == reshaped_tools(views.take(i as int)),
    {
        let ghost before = out.deep_view();
        assert(views.take(i + 1).drop_last() =~= views.take(i as int));
        if let Some(tool) = reshape_tool(&tools[i]) {
            out.push(tool);
            assert(out.deep_view() =~= before.push(tool.deep_view()));
        }
    }
    assert(views.take(tools@.len() as int) =~= views);
    out
}

/// The Chat Completions tool choice for a tool choice string.
pub open spec fn chat_tool_choice(tool_choice: Seq<char>) -> Option<ChatToolChoiceView> {
    if tool_choice.len() == 0 {
        None
    } else if tool_choice == "auto"@ || tool_choice == "none"@ || tool_choice == "required"@ {
        Some(ChatToolChoiceView::Mode(tool_choice))
    } else {
        Some(ChatToolChoiceView::Mode("auto"@))
    }
}

/// Maps a tool choice string to a Chat Completions tool choice. A bare name does
/// not say enough for a named choice, so it becomes `"auto"`.
pub fn map_tool_choice(tool_choice: &str) -> (r: Option<ChatCompletionToolChoice>)
    ensures
        r.deep_view() == chat_tool_choice(tool_choice@),
{
    if tool_choice.is_empty() {
        None
    } else if same_text(tool_choice, "auto") || same_text(tool_choice, "none") || same_text(
        tool_choice,
        "required",
    ) {
        Some(ChatCompletionToolChoice::Mode(tool_choice.to_string()))
    } else {
        Some(ChatCompletionToolChoice::Mode("auto".to_string()))
    }
}

// ── Reasoning ────────────────────────────────────────────────────────────────

/// The Chat Completions name of a reasoning effort.
pub open spec fn effort_text(effort: ReasoningEffort) -> Seq<char> {
    match effort {
        ReasoningEffort::Off => "minimal"@,
        ReasoningEffort::Minimal => "minimal"@,
        ReasoningEffort::Low => "low"@,
        ReasoningEffort::Medium => "medium"@,
        ReasoningEffort::High => "high"@,
        ReasoningEffort::XHigh => "xhigh"@,
        ReasoningEffort::Ultra => "xhigh"@,
        ReasoningEffort::Custom(value) => value@,
    }
}

/// Maps a reasoning effort to its Chat Completions name.
pub fn map_reasoning_effort(effort: &ReasoningEffort) -> (r: String)
    ensures
        r@ == effort_text(*effort),
{
    match effort {
        ReasoningEffort::Off => "minimal".to_string(),
        ReasoningEffort::Minimal => "minimal".to_string(),
        ReasoningEffort::Low => "low".to_string(),
        ReasoningEffort::Medium => "medium".to_string(),
        ReasoningEffort::High => "high".to_string(),
        ReasoningEffort::XHigh => "xhigh".to_string(),
        // Chat Completions has no "ultra"; this is the highest known value.
        ReasoningEffort::Ultra => "xhigh".to_string(),
        ReasoningEffort::Custom(value) => value.clone(),
    }
}

/// The Chat Completions name of the effort that is asked for, if one is.
pub open spec fn reasoning_text(reasoning: Reasoning) -> Option<Seq<char>> {
    match reasoning.effort {
        Some(effort) => Some(effort_text(effort)),
        None => None,
    }
}

/// The Chat Completions name of the effort that is asked for, if one is.
pub fn reasoning_effort_string(reasoning: &Reasoning) -> (r: Option<String>)
    ensures
        r.deep_view() == reasoning_text(*reasoning),
{
    match &reasoning.effort {
        Some(effort) => Some(map_reasoning_effort(effort)),
        None => None,
    }
}

// ── The request ──────────────────────────────────────────────────────────────

/// The tools of a request. None given are no tools.
pub open spec fn tools_of(request: ResponsesApiRequest) -> Seq<JsonView> {
    match request.tools {
        Some(tools) => json_views(tools@),
        None => Seq::empty(),
    }
}

/// The name of the effort that a request asks for, if it asks for one.
pub open spec fn effort_of(request: ResponsesApiRequest) -> Option<Seq<char>> {
    match request.reasoning {
        Some(reasoning) => reasoning_text(reasoning),
        None => None,
    }
}

/// The Chat Completions request for a protocol-neutral one.
pub open spec fn chat_request(request: ResponsesApiRequest) -> ChatRequestView {
    ChatRequestView {
        model: request.model@,
        messages: chat_messages(request.instructions@, request.input.deep_view()),
        max_tokens: None,
        max_completion_tokens: None,
        temperature: None,
        tools: reshaped_tools(tools_of(request)),
        tool_choice: chat_tool_choice(request.tool_choice@),
        parallel_tool_calls: Some(request.parallel_tool_calls),
        stream: true,
        stream_options: ChatCompletionStreamOptions { include_usage: true },
        reasoning_effort: effort_of(request),
        stop: Seq::empty(),
    }
}

/// Converts the messages of a request.
fn map_messages(request: &ResponsesApiRequest) -> (messages: Vec<ChatCompletionMessageParam>)
    requires
        request.input@.len() <= i64::MAX,
    ensures
        messages.deep_view() == chat_messages(request.instructions@, request.input.deep_view()),
{
    let mut messages: Vec<ChatCompletionMessageParam> = Vec::new();
    if !request.instructions.as_str().is_empty() {
        messages.push(
            ChatCompletionMessageParam::System {
                content: ChatCompletionContent::Text(request.instructions.clone()),
            },
        );
    }
    assert(messages.deep_view() =~= instruction_messages(request.instructions@));
    let ghost items = request.input.deep_view();
    assert(items.take(0) =~= Seq::empty());
    for i in 0..request.input.len()
        invariant
            items == request.input.deep_view(),
            items.len() <= i64::MAX,
            messages.deep_view() == chat_messages(request.instructions@, items.take(i as int)),
    {
        let ghost before = messages.deep_view();
        proof {
            tool_calls_are_indexed_by_position(request.instructions@, items.take(i as int));
            assert(items.take(i + 1).drop_last() =~= items.take(i as int));
            assert(items.take(i + 1).last() == request.input@[i as int].deep_view());
        }
        if let Some(message) = map_response_item(&request.input[i], &mut messages) {
            messages.push(message);
            assert(messages.deep_view() =~= before.push(message.deep_view()));
        }
    }
    assert(items.take(items.len() as int) =~= items);
    messages
}

/// Converts a protocol-neutral request into a Chat Completions request.
///
/// The request is always one for a stream that reports its token usage.
pub fn map_to_chat_completions_request(request: &ResponsesApiRequest) -> (r: ChatCompletionsRequest)
    requires
        request.input@.len() <= i64::MAX,
    ensures
        r.deep_view() == chat_request(*request),
{
    let messages = map_messages(request);
    let tools = match &request.tools {
        Some(tools) => reshape_tools(tools.as_slice()),
        None => Vec::new(),
    };
    let reasoning_effort = match &request.reasoning {
        Some(reasoning) => reasoning_effort_string(reasoning),
        None => None,
    };
    let r = ChatCompletionsRequest {
        model: request.model.clone(),
        messages,
        max_tokens: None,
        max_completion_tokens: None,
        temperature: None,
        tools,
        tool_choice: map_tool_choice(request.tool_choice.as_str()),
        parallel_tool_calls: Some(request.parallel_tool_calls),
        stream: true,
        stream_options: ChatCompletionStreamOptions { include_usage: true },
        reasoning_effort,
        stop: Vec::new(),
    };
    assert(r.tools.deep_view() =~= chat_request(*request).tools);
    assert(r.stop.deep_view() =~= Seq::empty());
    r
}

/// What Chat Completions has no place for makes no difference: requests that agree on
/// the rest become the same request. It is one for a stream that reports its usage,
/// whatever was asked for, without limits on tokens, a temperature or stop sequences.
pub proof fn responses_only_concepts_are_dropped(a: ResponsesApiRequest, b: ResponsesApiRequest)
    requires
        a.model@ == b.model@,
        a.instructions@ == b.instructions@,
        a.input.deep_view() == b.input.deep_view(),
        tools_of(a) == tools_of(b),
        a.tool_choice@ == b.tool_choice@,
        a.parallel_tool_calls == b.parallel_tool_calls,
        effort_of(a) == effort_of(b),
    ensures
        chat_request(a) == chat_request(b),
        chat_request(a).stream,
        chat_request(a).stream_options.include_usage,
        chat_request(a).max_tokens is None,
        chat_request(a).max_completion_tokens is None,
        chat_request(a).temperature is None,
        chat_request(a).stop.len() == 0,
{
}

/// The name of a tool that is a function with a name.
pub open spec fn function_name(tool: JsonView) -> Option<Seq<char>> {
    match tool {
        JsonView::Object(members) => if members.contains_key("type"@) && members["type"@]
            == JsonView::Str("function"@) && members.contains_key("name"@) {
            match members["name"@] {
                JsonView::Str(name) => Some(name),
                _ => None,
            }
        } else {
            None
        },
        _ => None,
    }
}

proof fn lemma_tools_in_parts(first: Seq<JsonView>, second: Seq<JsonView>)
    ensures
        reshaped_tools(first + second) == reshaped_tools(first) + reshaped_tools(second),
    decreases second.len(),
{
    if second.len() == 0 {
        assert(first + second =~= first);
        assert(reshaped_tools(first) + reshaped_tools(second) =~= reshaped_tools(first));
    } else {
        lemma_tools_in_parts(first, second.drop_last());
        assert((first + second).drop_last() =~= first + second.drop_last());
        assert(reshaped_tools(first + second) =~= reshaped_tools(first) + reshaped_tools(second));
    }
}

/// Tools are reshaped one by one, in order. A function with a name becomes a function with
/// that name, with its description where that is a text, its parameters or the object
/// without members where it has none, and its strictness where that is a truth value. Any
/// other tool is dropped.
pub proof fn functions_are_reshaped_in_order(
    first: Seq<JsonView>,
    second: Seq<JsonView>,
    tool: JsonView,
)
    ensures
        reshaped_tools(first + second) == reshaped_tools(first) + reshaped_tools(second),
        reshaped_tools(Seq::empty()) == Seq::<ChatToolView>::empty(),
        function_name(tool) is None ==> reshaped_tools(seq![tool]).len() == 0,
        function_name(tool) matches Some(name) ==> {
            let members = tool->Object_0;
            reshaped_tools(seq![tool]) == seq![
                ChatToolView {
                    kind: "function"@,
                    name,
                    description: if members.contains_key("description"@) {
                        match members["description"@] {
                            JsonView::Str(text) => Some(text),
                            _ => None,
                        }
                    } else {
                        None
                    },
                    parameters: if members.contains_key("parameters"@) {
                        members["parameters"@]
                    } else {
                        JsonView::Object(Map::empty())
                    },
                    strict: if members.contains_key("strict"@) {
                        match members["strict"@] {
                            JsonView::Bool(truth) => Some(truth),
                            _ => None,
                        }
                    } else {
                        None
                    },
                },
            ]
        },
{
    lemma_tools_in_parts(first, second);
    reveal_with_fuel(reshaped_tools, 2);
    assert(seq![tool].drop_last() =~= Seq::empty());
    if let Some(reshaped) = reshaped_tool(tool) {
        assert(reshaped_tools(seq![tool]) =~= seq![reshaped]);
    }
}

/// The three modes that Chat Completions knows are kept, any other choice is left to the
/// model, and no choice is none.
pub proof fn known_tool_choices_are_kept(tool_choice: Seq<char>)
    ensures
        chat_tool_choice(tool_choice) is None <==> tool_choice.len() == 0,
        tool_choice.len() > 0 ==> chat_tool_choice(tool_choice) == Some(
            ChatToolChoiceView::Mode(
                if tool_choice == "none"@ {
                    "none"@
                } else if tool_choice == "required"@ {
                    "required"@
                } else {
                    "auto"@
                },
            ),
        ),
{
    reveal_strlit("auto");
    reveal_strlit("none");
    reveal_strlit("required");
}

/// Each effort has its name. No reasoning at all goes by the least effort that has a name, and
/// the highest effort by the name of the one below it; a name of one's own is kept.
pub proof fn efforts_have_their_names(reasoning: Reasoning)
    ensures
        reasoning_text(reasoning) == (match reasoning.effort {
            None => None,
            Some(ReasoningEffort::Off) => Some("minimal"@),
            Some(ReasoningEffort::Minimal) => Some("minimal"@),
            Some(ReasoningEffort::Low) => Some("low"@),
            Some(ReasoningEffort::Medium) => Some("medium"@),
            Some(ReasoningEffort::High) => Some("high"@),
            Some(ReasoningEffort::XHigh) => Some("xhigh"@),
            Some(ReasoningEffort::Ultra) => Some("xhigh"@),
            Some(ReasoningEffort::Custom(name)) => Some(name@),
        }),
{
}

/// A request goes to the model that it names, with its conversation, its tools, its choice
/// among them, whether they may be called in parallel, and its effort.
pub proof fn requests_carry_what_they_ask_for(request: ResponsesApiRequest)
    ensures
        ({
            let r = chat_request(request);
            &&& r.model == request.model@
            &&& r.messages == chat_messages(request.instructions@, request.input.deep_view())
            &&& r.tool_choice == chat_tool_choice(request.tool_choice@)
            &&& r.parallel_tool_calls == Some(request.parallel_tool_calls)
            &&& request.tools is None ==> r.tools.len() == 0
            &&& request.tools matches Some(tools) ==> r.tools == reshaped_tools(
                json_views(tools@),
            )
            &&& request.reasoning is None ==> r.reasoning_effort is None
            &&& request.reasoning matches Some(reasoning) ==> r.reasoning_effort
                == reasoning_text(reasoning)
        }),
{
}

} // verus!
