//! Maps a conversation to the `messages` of a Messages request.
use crate::anthropic::{
    AnthropicContentBlockParam, AnthropicImageSource, AnthropicMessageContent,
    AnthropicMessageParam, AnthropicToolResultContent, BlockView, ContentView, ImageSourceView,
    MessageView, ToolResultView,
};
use crate::json::{
    empty_object, json_empty_object, json_parse, json_view, null_value, opt_json_view, parse_json,
    JsonView,
};
use crate::protocol::{
    ContentItem, ContentItemView, FunctionCallOutputBody, FunctionCallOutputContentItem,
    FunctionCallOutputPayload, OutputBodyView, OutputContentItemView, OutputPayloadView,
    ResponseItem, ResponseItemView,
};
use crate::text::same_text;
use serde_json::Value;
use vstd::prelude::*;
use vstd::string::StringExecFns;

verus! {

// ── Content ──────────────────────────────────────────────────────────────────

/// The block for a piece of a message.
pub open spec fn content_block(item: ContentItemView) -> BlockView {
    match item {
        ContentItemView::InputText { text } => BlockView::Text { text, cache_control: None },
        ContentItemView::OutputText { text } => BlockView::Text { text, cache_control: None },
        ContentItemView::InputImage { image_url, .. } => BlockView::Image {
            source: ImageSourceView::Url { url: image_url },
            cache_control: None,
        },
    }
}

/// The blocks for the pieces of a message.
pub open spec fn content_blocks(content: Seq<ContentItemView>) -> Seq<BlockView> {
    content.map_values(|item: ContentItemView| content_block(item))
}

/// The block for a piece of a message.
fn block_of(item: &ContentItem) -> (r: AnthropicContentBlockParam)
    ensures
        r.deep_view() == content_block(item.deep_view()),
{
    match item {
        ContentItem::InputText { text } => AnthropicContentBlockParam::Text {
            text: text.clone(),
            cache_control: None,
        },
        ContentItem::OutputText { text } => AnthropicContentBlockParam::Text {
            text: text.clone(),
            cache_control: None,
        },
        ContentItem::InputImage { image_url, .. } => AnthropicContentBlockParam::Image {
            source: AnthropicImageSource::Url { url: image_url.clone() },
            cache_control: None,
        },
    }
}

/// Converts the pieces of a message into blocks.
pub fn content_items_to_blocks(content: &[ContentItem]) -> (r: Vec<AnthropicContentBlockParam>)
    ensures
        r.deep_view() == content_blocks(content.deep_view()),
        r.len() == content.len(),
{
    let ghost items = content.deep_view();
    let mut blocks: Vec<AnthropicContentBlockParam> = Vec::with_capacity(content.len());
    for i in 0..content.len()
        invariant
            items == content.deep_view(),
            blocks.len() == i,
            forall|k: int|
                0 <= k < i ==> (#[trigger] blocks[k]).deep_view() == content_block(items[k]),
    {
        blocks.push(block_of(&content[i]));
    }
    assert(blocks.deep_view() =~= content_blocks(items));
    blocks
}

/// What a piece of a structured output reads as. Encrypted content cannot be read.
pub open spec fn output_piece(item: OutputContentItemView) -> Option<Seq<char>> {
    match item {
        OutputContentItemView::InputText { text } => Some(text),
        OutputContentItemView::InputImage { image_url, .. } => Some(
            "[image: "@ + image_url + "]"@,
        ),
        OutputContentItemView::EncryptedContent { .. } => None,
    }
}

/// What the pieces of a structured output read as.
pub open spec fn output_pieces(items: Seq<OutputContentItemView>) -> Seq<Seq<char>>
    decreases items.len(),
{
    if items.len() == 0 {
        Seq::empty()
    } else {
        let before = output_pieces(items.drop_last());
        match output_piece(items.last()) {
            Some(piece) => before.push(piece),
            None => before,
        }
    }
}

/// Lines, one below the other.
pub open spec fn joined_lines(lines: Seq<Seq<char>>) -> Seq<char>
    decreases lines.len(),
{
    if lines.len() == 0 {
        Seq::empty()
    } else if lines.len() == 1 {
        lines[0]
    } else {
        joined_lines(lines.drop_last()) + "\n"@ + lines.last()
    }
}

/// Writes the pieces of a structured output below each other.
pub fn format_content_items(items: &[FunctionCallOutputContentItem]) -> (r: String)
    ensures
        r@ == joined_lines(output_pieces(items.deep_view())),
{
    let ghost view = items.deep_view();
    let mut text = String::new();
    let mut empty = true;
    let mut i: usize = 0;
    assert(view.take(0) =~= Seq::empty());
    while i < items.len()
        invariant
            i <= items.len(),
            view == items.deep_view(),
            empty == (output_pieces(view.take(i as int)).len() == 0),
            text@ == joined_lines(output_pieces(view.take(i as int))),
        decreases items.len() - i,
    {
        let ghost before = output_pieces(view.take(i as int));
        let ghost after = output_pieces(view.take(i + 1));
        assert(view.take(i + 1).drop_last() =~= view.take(i as int));
        let piece = match &items[i] {
            FunctionCallOutputContentItem::InputText { text } => Some(text.clone()),
            FunctionCallOutputContentItem::InputImage { image_url, .. } => {
                let mut image = "[image: ".to_string();
                image.append(image_url.as_str());
                image.append("]");
                Some(image)
            },
            FunctionCallOutputContentItem::EncryptedContent { .. } => None,
        };
        assert(piece.deep_view() == output_piece(view[i as int]));
        if let Some(piece) = piece {
            assert(after.drop_last() =~= before);
            if !empty {
                text.append("\n");
            }
            text.append(piece.as_str());
            empty = false;
            assert(text@ =~= joined_lines(after));
        }
        i = i + 1;
    }
    assert(view.take(i as int) =~= view);
    text
}

/// The tool result for the output of a call.
pub open spec fn tool_result(output: OutputPayloadView) -> ToolResultView {
    match output.body {
        OutputBodyView::Text(text) => ToolResultView::Text(text),
        OutputBodyView::ContentItems { items, .. } => ToolResultView::Text(
            joined_lines(output_pieces(items)),
        ),
    }
}

/// Converts the output of a call into the content of a tool result.
pub fn function_output_to_tool_result_content(output: &FunctionCallOutputPayload) -> (r:
    AnthropicToolResultContent)
    ensures
        r.deep_view() == tool_result(output.deep_view()),
{
    match &output.body {
        FunctionCallOutputBody::Text(text) => AnthropicToolResultContent::Text(text.clone()),
        FunctionCallOutputBody::ContentItems { items, .. } => AnthropicToolResultContent::Text(
            format_content_items(items.as_slice()),
        ),
    }
}

// ── Tool calls ───────────────────────────────────────────────────────────────

/// A document, or null where there is none.
pub open spec fn or_null(document: Option<JsonView>) -> JsonView {
    match document {
        Some(value) => value,
        None => JsonView::Null,
    }
}

/// The input that the arguments of a function call make: no arguments are the
/// object without members, and arguments that are no document are null.
pub open spec fn call_input(arguments: Seq<char>, document: Option<JsonView>) -> JsonView {
    if arguments.len() == 0 {
        json_empty_object()
    } else {
        or_null(document)
    }
}

/// Makes the input of a function call from its arguments and the document they are.
pub fn input_from(arguments: &str, document: Option<Value>) -> (r: Value)
    ensures
        json_view(r) == call_input(arguments@, opt_json_view(document)),
{
    if arguments.is_empty() {
        return empty_object();
    }
    value_or_null(document)
}

/// A document, or null where there is none.
pub fn value_or_null(document: Option<Value>) -> (r: Value)
    ensures
        json_view(r) == or_null(opt_json_view(document)),
{
    match document {
        Some(value) => value,
        None => null_value(),
    }
}

/// Reads the arguments of a function call.
pub fn parse_arguments(arguments: &str) -> (r: Value)
    ensures
        json_view(r) == call_input(arguments@, json_parse(arguments@)),
{
    let document = parse_json(arguments);
    input_from(arguments, document)
}

/// The input of the tool call that an item is, and null for any other item.
pub open spec fn item_input(item: ResponseItemView) -> JsonView {
    match item {
        ResponseItemView::FunctionCall { arguments, .. } => call_input(
            arguments,
            json_parse(arguments),
        ),
        ResponseItemView::CustomToolCall { input, .. } => or_null(json_parse(input)),
        _ => JsonView::Null,
    }
}

/// Reads the input of the tool call that an item is.
pub fn tool_input(item: &ResponseItem) -> (r: Value)
    ensures
        json_view(r) == item_input(item.deep_view()),
{
    match item {
        ResponseItem::FunctionCall { arguments, .. } => parse_arguments(arguments.as_str()),
        ResponseItem::CustomToolCall { input, .. } => value_or_null(parse_json(input.as_str())),
        _ => null_value(),
    }
}

// ── Messages ─────────────────────────────────────────────────────────────────

/// The blocks for an item. Items that Messages has no place for have none.
pub open spec fn item_blocks(item: ResponseItemView, input: JsonView) -> Seq<BlockView> {
    match item {
        ResponseItemView::Message { content, .. } => content_blocks(content),
        ResponseItemView::FunctionCall { call_id, name, .. } => seq![
            BlockView::ToolUse { id: call_id, name, input },
        ],
        ResponseItemView::CustomToolCall { call_id, name, .. } => seq![
            BlockView::ToolUse { id: call_id, name, input },
        ],
        ResponseItemView::FunctionCallOutput { call_id, output, .. } => seq![
            BlockView::ToolResult {
                tool_use_id: call_id,
                content: tool_result(output),
                is_error: None,
            },
        ],
        ResponseItemView::CustomToolCallOutput { call_id, output, .. } => seq![
            BlockView::ToolResult {
                tool_use_id: call_id,
                content: tool_result(output),
                is_error: None,
            },
        ],
        _ => Seq::empty(),
    }
}

/// Whose turn an item belongs to. Calls are the assistant's, results the user's.
pub open spec fn item_role(item: ResponseItemView) -> Seq<char> {
    match item {
        ResponseItemView::Message { role, .. } => role,
        ResponseItemView::FunctionCall { .. } => "assistant"@,
        ResponseItemView::CustomToolCall { .. } => "assistant"@,
        _ => "user"@,
    }
}

/// Whether an item is the result of a call.
pub open spec fn is_result(item: ResponseItemView) -> bool {
    item is FunctionCallOutput || item is CustomToolCallOutput
}

/// The blocks of a message. Plain text is a single block with that text.
pub open spec fn blocks_of(message: MessageView) -> Seq<BlockView> {
    match message.content {
        ContentView::Text(text) => seq![BlockView::Text { text, cache_control: None }],
        ContentView::Blocks(blocks) => blocks,
    }
}

/// Messages with one more. Its blocks are added to those of the last one where both
/// have the same role.
pub open spec fn merged(messages: Seq<MessageView>, message: MessageView) -> Seq<MessageView> {
    if messages.len() > 0 && messages.last().role == message.role {
        messages.drop_last().push(
            MessageView {
                content: ContentView::Blocks(blocks_of(messages.last()) + blocks_of(message)),
                ..messages.last()
            },
        )
    } else {
        messages.push(message)
    }
}

/// Messages with one more item. A result always makes a message of its own.
pub open spec fn with_item(
    messages: Seq<MessageView>,
    item: ResponseItemView,
    input: JsonView,
) -> Seq<MessageView> {
    let blocks = item_blocks(item, input);
    let message = MessageView { role: item_role(item), content: ContentView::Blocks(blocks) };
    if blocks.len() == 0 {
        messages
    } else if is_result(item) {
        messages.push(message)
    } else {
        merged(messages, message)
    }
}

/// The messages for a conversation.
pub open spec fn anthropic_messages(items: Seq<ResponseItemView>) -> Seq<MessageView>
    decreases items.len(),
{
    if items.len() == 0 {
        Seq::empty()
    } else {
        with_item(anthropic_messages(items.drop_last()), items.last(), item_input(items.last()))
    }
}

/// The blocks of a message's content. Plain text becomes a single block.
fn into_blocks(content: AnthropicMessageContent) -> (r: Vec<AnthropicContentBlockParam>)
    ensures
        r.deep_view() == (match content.deep_view() {
            ContentView::Text(text) => seq![BlockView::Text { text, cache_control: None }],
            ContentView::Blocks(blocks) => blocks,
        }),
{
    match content {
        AnthropicMessageContent::Text(text) => {
            let mut blocks: Vec<AnthropicContentBlockParam> = Vec::new();
            blocks.push(AnthropicContentBlockParam::Text { text, cache_control: None });
            assert(blocks.deep_view() =~= seq![
                BlockView::Text { text: text@, cache_control: None },
            ]);
            blocks
        },
        AnthropicMessageContent::Blocks(blocks) => blocks,
    }
}

/// Merges a message into the last one where their roles match, and else adds it.
pub fn push_or_merge(messages: &mut Vec<AnthropicMessageParam>, new_msg: AnthropicMessageParam)
    ensures
        final(messages).deep_view() == merged(old(messages).deep_view(), new_msg.deep_view()),
{
    let ghost view = messages.deep_view();
    let count: usize = messages.len();
    if count > 0 && same_text(messages[count - 1].role.as_str(), new_msg.role.as_str()) {
        let mut content = AnthropicMessageContent::Blocks(Vec::new());
        std::mem::swap(&mut content, &mut messages[count - 1].content);
        let mut blocks = into_blocks(content);
        let ghost existing = blocks.deep_view();
        let mut more = into_blocks(new_msg.content);
        let ghost added = more.deep_view();
        blocks.append(&mut more);
        assert(blocks.deep_view() =~= existing + added);
        messages[count - 1].content = AnthropicMessageContent::Blocks(blocks);
        assert(messages.deep_view() =~= merged(view, new_msg.deep_view()));
    } else {
        messages.push(new_msg);
        assert(messages.deep_view() =~= view.push(new_msg.deep_view()));
    }
}

/// A message with a single block.
fn single(role: &str, block: AnthropicContentBlockParam) -> (r: AnthropicMessageParam)
    ensures
        r.deep_view() == (MessageView {
            role: role@,
            content: ContentView::Blocks(seq![block.deep_view()]),
        }),
{
    let mut blocks: Vec<AnthropicContentBlockParam> = Vec::new();
    blocks.push(block);
    assert(blocks.deep_view() =~= seq![block.deep_view()]);
    AnthropicMessageParam {
        role: role.to_string(),
        content: AnthropicMessageContent::Blocks(blocks),
    }
}

/// Adds an item of a conversation to the messages. `input` is the input of the
/// tool call, where the item is one.
pub fn append_item(messages: &mut Vec<AnthropicMessageParam>, item: &ResponseItem, input: Value)
    ensures
        final(messages).deep_view() == with_item(
            old(messages).deep_view(),
            item.deep_view(),
            json_view(input),
        ),
{
    let ghost view = messages.deep_view();
    match item {
        ResponseItem::Message { role, content, .. } => {
            let blocks = content_items_to_blocks(content.as_slice());
            if blocks.len() > 0 {
                push_or_merge(
                    messages,
                    AnthropicMessageParam {
                        role: role.clone(),
                        content: AnthropicMessageContent::Blocks(blocks),
                    },
                );
            }
        },
        ResponseItem::FunctionCall { call_id, name, .. } => push_or_merge(
            messages,
            single(
                "assistant",
                AnthropicContentBlockParam::ToolUse {
                    id: call_id.clone(),
                    name: name.clone(),
                    input,
                },
            ),
        ),
        ResponseItem::CustomToolCall { call_id, name, .. } => push_or_merge(
            messages,
            single(
                "assistant",
                AnthropicContentBlockParam::ToolUse {
                    id: call_id.clone(),
                    name: name.clone(),
                    input,
                },
            ),
        ),
        ResponseItem::FunctionCallOutput { call_id, output, .. } => {
            messages.push(
                single(
                    "user",
                    AnthropicContentBlockParam::ToolResult {
                        tool_use_id: call_id.clone(),
                        content: function_output_to_tool_result_content(output),
                        is_error: None,
                    },
                ),
            );
            assert(messages.deep_view() =~= with_item(view, item.deep_view(), json_view(input)));
        },
        ResponseItem::CustomToolCallOutput { call_id, output, .. } => {
            messages.push(
                single(
                    "user",
                    AnthropicContentBlockParam::ToolResult {
                        tool_use_id: call_id.clone(),
                        content: function_output_to_tool_result_content(output),
                        is_error: None,
                    },
                ),
            );
            assert(messages.deep_view() =~= with_item(view, item.deep_view(), json_view(input)));
        },
        // Messages has no place for anything else.
        _ => {},
    }
}

/// Converts a conversation into the `messages` of a Messages request.
///
/// - A tool result goes into a message of the user.
/// - A tool call goes into a message of the assistant.
/// - What follows a message of the same role is added to it, tool results aside.
pub fn response_items_to_anthropic_messages(items: &[ResponseItem]) -> (r: Vec<
    AnthropicMessageParam,
>)
    ensures
        r.deep_view() == anthropic_messages(items.deep_view()),
{
    let ghost view = items.deep_view();
    let mut messages: Vec<AnthropicMessageParam> = Vec::new();
    let mut i: usize = 0;
    assert(view.take(0) =~= Seq::empty());
    assert(messages.deep_view() =~= Seq::empty());
    while i < items.len()
        invariant
            i <= items.len(),
            view == items.deep_view(),
            messages.deep_view() == anthropic_messages(view.take(i as int)),
        decreases items.len() - i,
    {
        assert(view.take(i + 1).drop_last() =~= view.take(i as int));
        let input = tool_input(&items[i]);
        append_item(&mut messages, &items[i], input);
        i = i + 1;
    }
    assert(view.take(i as int) =~= view);
    messages
}

// ── Laws ─────────────────────────────────────────────────────────────────────

/// The blocks of messages, one after the other.
pub open spec fn all_blocks(messages: Seq<MessageView>) -> Seq<BlockView>
    decreases messages.len(),
{
    if messages.len() == 0 {
        Seq::empty()
    } else {
        all_blocks(messages.drop_last()) + (match messages.last().content {
            ContentView::Text(text) => seq![BlockView::Text { text, cache_control: None }],
            ContentView::Blocks(blocks) => blocks,
        })
    }
}

/// The blocks of the items of a conversation, one after the other.
pub open spec fn all_item_blocks(items: Seq<ResponseItemView>) -> Seq<BlockView>
    decreases items.len(),
{
    if items.len() == 0 {
        Seq::empty()
    } else {
        all_item_blocks(items.drop_last()) + item_blocks(items.last(), item_input(items.last()))
    }
}

/// Whether every message holds blocks, and at least one.
pub open spec fn are_filled(messages: Seq<MessageView>) -> bool {
    forall|i: int|
        0 <= i < messages.len() ==> ((#[trigger] messages[i]).content matches ContentView::Blocks(
            blocks,
        ) && blocks.len() > 0)
}

/// No message is empty.
pub proof fn messages_are_filled(items: Seq<ResponseItemView>)
    ensures
        are_filled(anthropic_messages(items)),
    decreases items.len(),
{
    if items.len() > 0 {
        messages_are_filled(items.drop_last());
    }
}

/// Nothing is lost, and the order is kept: the blocks of the messages are the blocks
/// of the items, one after the other.
pub proof fn messages_keep_all_blocks(items: Seq<ResponseItemView>)
    ensures
        all_blocks(anthropic_messages(items)) == all_item_blocks(items),
    decreases items.len(),
{
    if items.len() > 0 {
        let before = anthropic_messages(items.drop_last());
        let item = items.last();
        let blocks = item_blocks(item, item_input(item));
        let after = anthropic_messages(items);
        messages_keep_all_blocks(items.drop_last());
        messages_are_filled(items.drop_last());
        if blocks.len() == 0 {
            assert(all_item_blocks(items.drop_last()) + blocks =~= all_item_blocks(
                items.drop_last(),
            ));
        } else if after.len() > before.len() {
            assert(after.drop_last() =~= before);
        } else {
            assert(before[before.len() - 1].content is Blocks);
            assert(after.drop_last() =~= before.drop_last());
            assert(all_blocks(after) =~= all_blocks(before) + blocks);
        }
    }
}

/// Whether calls are the assistant's alone, and results the user's alone.
pub open spec fn is_role_proper(message: MessageView) -> bool {
    &&& message.content matches ContentView::Blocks(blocks)
    &&& forall|i: int|
        0 <= i < blocks.len() ==> (#[trigger] blocks[i] is ToolUse ==> message.role
            == "assistant"@) && (blocks[i] is ToolResult ==> message.role == "user"@)
}

/// A tool call is always in a message of the assistant, and a tool result always in
/// a message of the user.
pub proof fn calls_and_results_have_their_roles(items: Seq<ResponseItemView>)
    ensures
        ({
            let messages = anthropic_messages(items);
            forall|i: int| 0 <= i < messages.len() ==> is_role_proper(#[trigger] messages[i])
        }),
    decreases items.len(),
{
    if items.len() > 0 {
        let before = anthropic_messages(items.drop_last());
        let item = items.last();
        let new = MessageView {
            role: item_role(item),
            content: ContentView::Blocks(item_blocks(item, item_input(item))),
        };
        let after = anthropic_messages(items);
        calls_and_results_have_their_roles(items.drop_last());
        messages_are_filled(items.drop_last());
        assert(is_role_proper(new));
        assert forall|i: int| 0 <= i < after.len() implies is_role_proper(#[trigger] after[i]) by {
            if after.len() == before.len() && i == after.len() - 1 && after != before {
                let last = before[i];
                assert(is_role_proper(last));
                assert(last.content is Blocks);
                let blocks = after[i].content->Blocks_0;
                let existing = last.content->Blocks_0;
                assert forall|k: int| 0 <= k < blocks.len() implies (
                #[trigger] blocks[k] is ToolUse ==> after[i].role == "assistant"@) && (
                blocks[k] is ToolResult ==> after[i].role == "user"@) by {
                    if k < existing.len() {
                        assert(blocks[k] == existing[k]);
                    } else {
                        assert(blocks[k] == new.content->Blocks_0[k - existing.len()]);
                    }
                }
            } else if i < before.len() {
                assert(after[i] == before[i]);
            }
        }
    }
}

/// Messages of the same role follow each other only where the second one begins with
/// a tool result.
pub proof fn same_roles_are_merged(items: Seq<ResponseItemView>)
    ensures
        ({
            let messages = anthropic_messages(items);
            forall|i: int|
                1 <= i < messages.len() && messages[i - 1].role == (#[trigger] messages[i]).role
                    ==> (messages[i].content matches ContentView::Blocks(blocks) && blocks.len() > 0
                    && blocks[0] is ToolResult)
        }),
    decreases items.len(),
{
    if items.len() > 0 {
        let before = anthropic_messages(items.drop_last());
        let after = anthropic_messages(items);
        same_roles_are_merged(items.drop_last());
        messages_are_filled(items.drop_last());
        assert forall|i: int|
            1 <= i < after.len() && after[i - 1].role == (
            #[trigger] after[i]).role implies (after[i].content matches ContentView::Blocks(blocks)
            && blocks.len() > 0 && blocks[0] is ToolResult) by {
            if i < before.len() {
                assert(before[i].role == after[i].role);
                assert(before[i - 1].role == after[i - 1].role);
                assert(before[i].content->Blocks_0[0] is ToolResult);
                assert(before[i].content is Blocks);
            }
        }
    }
}

/// Merging loses nothing: the blocks of a message are added at the end, whatever came
/// before. A message of the same role as the last one joins it, any other one follows it,
/// and the messages before that stay as they are.
pub proof fn merging_keeps_all_blocks(messages: Seq<MessageView>, message: MessageView)
    ensures
        all_blocks(merged(messages, message)) == all_blocks(messages) + (match message.content {
            ContentView::Text(text) => seq![BlockView::Text { text, cache_control: None }],
            ContentView::Blocks(blocks) => blocks,
        }),
        ({
            let after = merged(messages, message);
            let n = messages.len() as int;
            if n > 0 && messages[n - 1].role == message.role {
                &&& after.len() == n
                &&& after[n - 1].role == message.role
                &&& forall|i: int| 0 <= i < n - 1 ==> #[trigger] after[i] == messages[i]
            } else {
                &&& after.len() == n + 1
                &&& after[n] == message
                &&& forall|i: int| 0 <= i < n ==> #[trigger] after[i] == messages[i]
            }
        }),
{
    let after = merged(messages, message);
    if messages.len() > 0 && messages.last().role == message.role {
        assert(after.drop_last() =~= messages.drop_last());
        assert(all_blocks(after) =~= all_blocks(messages) + blocks_of(message));
    } else {
        assert(after.drop_last() =~= messages);
    }
}

/// Whether Messages has a place for an item: for calls and results always, and for a
/// message that is not empty.
pub open spec fn has_place(item: ResponseItemView) -> bool {
    match item {
        ResponseItemView::Message { content, .. } => content.len() > 0,
        ResponseItemView::FunctionCall { .. } => true,
        ResponseItemView::CustomToolCall { .. } => true,
        ResponseItemView::FunctionCallOutput { .. } => true,
        ResponseItemView::CustomToolCallOutput { .. } => true,
        _ => false,
    }
}

/// Items without a place and empty messages leave no trace, and do not keep what stands
/// around them from being merged: the messages are those of the conversation without
/// them.
pub proof fn other_items_leave_no_trace(items: Seq<ResponseItemView>)
    ensures
        anthropic_messages(items) == anthropic_messages(
            items.filter(|item: ResponseItemView| has_place(item)),
        ),
    decreases items.len(),
{
    let keep = |item: ResponseItemView| has_place(item);
    reveal(Seq::filter);
    if items.len() > 0 {
        other_items_leave_no_trace(items.drop_last());
        if keep(items.last()) {
            assert(items.filter(keep).drop_last() =~= items.drop_last().filter(keep));
        } else {
            assert(item_blocks(items.last(), item_input(items.last())).len() == 0);
        }
    }
}

/// A message with some pieces has as many blocks, and each block holds what the piece in
/// its place holds: the very text of a text, the very address of an image, and no
/// breakpoint.
pub proof fn each_piece_has_its_block(content: Seq<ContentItemView>)
    ensures
        content_blocks(content).len() == content.len(),
        forall|i: int|
            0 <= i < content.len() ==> (match content[i] {
                ContentItemView::InputText { text } => #[trigger] content_blocks(content)[i]
                    == (BlockView::Text { text, cache_control: None }),
                ContentItemView::OutputText { text } => content_blocks(content)[i]
                    == (BlockView::Text { text, cache_control: None }),
                ContentItemView::InputImage { image_url, .. } => content_blocks(content)[i] == (
                BlockView::Image {
                    source: ImageSourceView::Url { url: image_url },
                    cache_control: None,
                }),
            }),
{
}

/// One thing that is said in a conversation.
pub enum Saying {
    Words(Seq<char>),
    /// An image, by its address.
    Picture(Seq<char>),
    Call { id: Seq<char>, name: Seq<char>, input: JsonView },
    /// What came of a call, by the id of the call.
    Answer { id: Seq<char>, text: Seq<char> },
}

/// What blocks say, in order.
pub open spec fn block_sayings(blocks: Seq<BlockView>) -> Seq<Saying>
    decreases blocks.len(),
{
    if blocks.len() == 0 {
        Seq::empty()
    } else {
        let before = block_sayings(blocks.drop_last());
        match blocks.last() {
            BlockView::Text { text, .. } => before.push(Saying::Words(text)),
            BlockView::Image { source: ImageSourceView::Url { url }, .. } => before.push(
                Saying::Picture(url),
            ),
            BlockView::ToolUse { id, name, input } => before.push(
                Saying::Call { id, name, input },
            ),
            BlockView::ToolResult { tool_use_id, content: ToolResultView::Text(text), .. } =>
                before.push(Saying::Answer { id: tool_use_id, text }),
            _ => before,
        }
    }
}

/// What is said under one role.
pub open spec fn spoken_by(role: Seq<char>, sayings: Seq<Saying>) -> Seq<(Seq<char>, Saying)> {
    sayings.map_values(|saying: Saying| (role, saying))
}

/// What messages say, in order, and under which role.
pub open spec fn message_sayings(messages: Seq<MessageView>) -> Seq<(Seq<char>, Saying)>
    decreases messages.len(),
{
    if messages.len() == 0 {
        Seq::empty()
    } else {
        let message = messages.last();
        message_sayings(messages.drop_last()) + spoken_by(
            message.role,
            match message.content {
                ContentView::Text(text) => seq![Saying::Words(text)],
                ContentView::Blocks(blocks) => block_sayings(blocks),
            },
        )
    }
}

/// What the output of a call reads as: its text, or its pieces, one below the other.
pub open spec fn answer_text(output: OutputPayloadView) -> Seq<char> {
    match output.body {
        OutputBodyView::Text(text) => text,
        OutputBodyView::ContentItems { items, .. } => joined_lines(output_pieces(items)),
    }
}

/// What the items of a conversation say, in order, and under which role. Calls are the
/// assistant's and answers the user's. Arguments that are empty are the object without
/// members, and those that are no document are null.
pub open spec fn item_sayings(items: Seq<ResponseItemView>) -> Seq<(Seq<char>, Saying)>
    decreases items.len(),
{
    if items.len() == 0 {
        Seq::empty()
    } else {
        let before = item_sayings(items.drop_last());
        match items.last() {
            ResponseItemView::Message { role, content, .. } => before + content.map_values(
                |piece: ContentItemView|
                    match piece {
                        ContentItemView::InputText { text } => (role, Saying::Words(text)),
                        ContentItemView::OutputText { text } => (role, Saying::Words(text)),
                        ContentItemView::InputImage { image_url, .. } => (
                            role,
                            Saying::Picture(image_url),
                        ),
                    },
            ),
            ResponseItemView::FunctionCall { call_id, name, arguments, .. } => before.push(
                (
                    "assistant"@,
                    Saying::Call {
                        id: call_id,
                        name,
                        input: if arguments.len() == 0 {
                            JsonView::Object(Map::empty())
                        } else {
                            match json_parse(arguments) {
                                Some(document) => document,
                                None => JsonView::Null,
                            }
                        },
                    },
                ),
            ),
            ResponseItemView::CustomToolCall { call_id, name, input, .. } => before.push(
                (
                    "assistant"@,
                    Saying::Call {
                        id: call_id,
                        name,
                        input: match json_parse(input) {
                            Some(document) => document,
                            None => JsonView::Null,
                        },
                    },
                ),
            ),
            ResponseItemView::FunctionCallOutput { call_id, output, .. } => before.push(
                ("user"@, Saying::Answer { id: call_id, text: answer_text(output) }),
            ),
            ResponseItemView::CustomToolCallOutput { call_id, output, .. } => before.push(
                ("user"@, Saying::Answer { id: call_id, text: answer_text(output) }),
            ),
            _ => before,
        }
    }
}

proof fn lemma_block_sayings(first: Seq<BlockView>, second: Seq<BlockView>)
    ensures
        block_sayings(first + second) == block_sayings(first) + block_sayings(second),
    decreases second.len(),
{
    if second.len() == 0 {
        assert(first + second =~= first);
        assert(block_sayings(first) + block_sayings(second) =~= block_sayings(first));
    } else {
        lemma_block_sayings(first, second.drop_last());
        assert((first + second).drop_last() =~= first + second.drop_last());
        assert(block_sayings(first + second) =~= block_sayings(first) + block_sayings(second));
    }
}

/// What is said in the blocks of a message is what is said in its pieces.
proof fn lemma_content_sayings(content: Seq<ContentItemView>)
    ensures
        block_sayings(content_blocks(content)).len() == content.len(),
        forall|i: int|
            0 <= i < content.len() ==> #[trigger] block_sayings(content_blocks(content))[i] == (
            match content[i] {
                ContentItemView::InputText { text } => Saying::Words(text),
                ContentItemView::OutputText { text } => Saying::Words(text),
                ContentItemView::InputImage { image_url, .. } => Saying::Picture(image_url),
            }),
    decreases content.len(),
{
    if content.len() > 0 {
        lemma_content_sayings(content.drop_last());
        assert(content_blocks(content).drop_last() =~= content_blocks(content.drop_last()));
    }
}

/// Nothing is lost, nothing is added, and the order is kept: the texts, the addresses of
/// images, the calls and the results in the messages are those of the items, in order,
/// each under the role that it was said in.
pub proof fn everything_is_said_in_order(items: Seq<ResponseItemView>)
    ensures
        message_sayings(anthropic_messages(items)) == item_sayings(items),
    decreases items.len(),
{
    if items.len() > 0 {
        let before = anthropic_messages(items.drop_last());
        let after = anthropic_messages(items);
        let item = items.last();
        let blocks = item_blocks(item, item_input(item));
        let role = item_role(item);
        everything_is_said_in_order(items.drop_last());
        messages_are_filled(items.drop_last());
        reveal_with_fuel(block_sayings, 2);
        if let ResponseItemView::Message { content, .. } = item {
            lemma_content_sayings(content);
        } else if blocks.len() > 0 {
            assert(blocks.drop_last() =~= Seq::empty());
        }
        if blocks.len() > 0 {
            if after.len() > before.len() {
                assert(after.drop_last() =~= before);
            } else {
                let last = before[before.len() - 1];
                assert(last.content is Blocks);
                assert(after.drop_last() =~= before.drop_last());
                lemma_block_sayings(last.content->Blocks_0, blocks);
                assert(spoken_by(role, block_sayings(last.content->Blocks_0 + blocks))
                    =~= spoken_by(role, block_sayings(last.content->Blocks_0)) + spoken_by(
                    role,
                    block_sayings(blocks),
                ));
            }
            assert(message_sayings(after) =~= message_sayings(before) + spoken_by(
                role,
                block_sayings(blocks),
            ));
        }
        assert(message_sayings(after) =~= item_sayings(items));
    }
}

/// The role that an item speaks under, where Messages has a place for it.
pub open spec fn speaker(item: ResponseItemView) -> Option<Seq<char>> {
    match item {
        ResponseItemView::Message { role, content, .. } => if content.len() > 0 {
            Some(role)
        } else {
            None
        },
        ResponseItemView::FunctionCall { .. } => Some("assistant"@),
        ResponseItemView::CustomToolCall { .. } => Some("assistant"@),
        ResponseItemView::FunctionCallOutput { .. } => Some("user"@),
        ResponseItemView::CustomToolCallOutput { .. } => Some("user"@),
        _ => None,
    }
}

/// Where one message ends and the next one begins: an item joins the last message where
/// that has its role and the item is no result, and begins a message of its own elsewhere.
/// The messages before that stay as they are, and a message only grows at its end.
pub proof fn items_join_or_follow(items: Seq<ResponseItemView>, item: ResponseItemView)
    ensures
        ({
            let before = anthropic_messages(items);
            let after = anthropic_messages(items.push(item));
            let n = before.len() as int;
            let is_answer = item is FunctionCallOutput || item is CustomToolCallOutput;
            match speaker(item) {
                None => after == before,
                Some(role) => if n > 0 && before[n - 1].role == role && !is_answer {
                    &&& after.len() == n
                    &&& forall|i: int| 0 <= i < n - 1 ==> #[trigger] after[i] == before[i]
                    &&& after[n - 1].role == role
                    &&& before[n - 1].content->Blocks_0.is_prefix_of(
                        after[n - 1].content->Blocks_0,
                    )
                } else {
                    &&& after.len() == n + 1
                    &&& forall|i: int| 0 <= i < n ==> #[trigger] after[i] == before[i]
                    &&& after[n].role == role
                    &&& is_answer ==> after[n].content->Blocks_0.len() == 1
                        && after[n].content->Blocks_0[0] is ToolResult
                },
            }
        }),
{
    assert(items.push(item).drop_last() =~= items);
    messages_are_filled(items);
    let before = anthropic_messages(items);
    if before.len() > 0 {
        assert(before[before.len() - 1].content is Blocks);
    }
}

/// A result is neither a success nor a failure by itself, and nothing that is sent holds
/// a breakpoint.
pub proof fn nothing_is_marked_yet(items: Seq<ResponseItemView>)
    ensures
        ({
            let messages = anthropic_messages(items);
            forall|i: int, k: int|
                #![trigger messages[i].content->Blocks_0[k]]
                0 <= i < messages.len() && 0 <= k < messages[i].content->Blocks_0.len() ==> (
                match messages[i].content->Blocks_0[k] {
                    BlockView::Text { cache_control, .. } => cache_control is None,
                    BlockView::Image { source, cache_control } => cache_control is None
                        && source is Url,
                    BlockView::ToolUse { .. } => true,
                    BlockView::ToolResult { content, is_error, .. } => is_error is None
                        && content is Text,
                })
        }),
    decreases items.len(),
{
    if items.len() > 0 {
        let before = anthropic_messages(items.drop_last());
        let after = anthropic_messages(items);
        let item = items.last();
        let blocks = item_blocks(item, item_input(item));
        nothing_is_marked_yet(items.drop_last());
        messages_are_filled(items.drop_last());
        assert forall|i: int, k: int|
            #![trigger after[i].content->Blocks_0[k]]
            0 <= i < after.len() && 0 <= k < after[i].content->Blocks_0.len() implies (
        match after[i].content->Blocks_0[k] {
            BlockView::Text { cache_control, .. } => cache_control is None,
            BlockView::Image { source, cache_control } => cache_control is None && source is Url,
            BlockView::ToolUse { .. } => true,
            BlockView::ToolResult { content, is_error, .. } => is_error is None && content is Text,
        }) by {
            if i < before.len() && k < before[i].content->Blocks_0.len() {
                assert(before[i].content is Blocks);
                assert(after[i].content->Blocks_0[k] == before[i].content->Blocks_0[k]);
            } else if i < before.len() {
                assert(before[i].content is Blocks);
                assert(after[i].content->Blocks_0[k] == blocks[k
                    - before[i].content->Blocks_0.len()]);
            } else {
                assert(after[i].content->Blocks_0[k] == blocks[k]);
            }
        }
    }
}

/// Whether any piece of a structured output can be read.
pub open spec fn has_readable(items: Seq<OutputContentItemView>) -> bool {
    exists|i: int| 0 <= i < items.len() && !(#[trigger] items[i] is EncryptedContent)
}

proof fn lemma_output_pieces(first: Seq<OutputContentItemView>, second: Seq<OutputContentItemView>)
    ensures
        output_pieces(first + second) == output_pieces(first) + output_pieces(second),
    decreases second.len(),
{
    if second.len() == 0 {
        assert(first + second =~= first);
        assert(output_pieces(first) + output_pieces(second) =~= output_pieces(first));
    } else {
        lemma_output_pieces(first, second.drop_last());
        assert((first + second).drop_last() =~= first + second.drop_last());
        assert(output_pieces(first + second) =~= output_pieces(first) + output_pieces(second));
    }
}

proof fn lemma_readable(items: Seq<OutputContentItemView>)
    ensures
        has_readable(items) <==> output_pieces(items).len() > 0,
    decreases items.len(),
{
    if items.len() > 0 {
        let earlier = items.drop_last();
        lemma_readable(earlier);
        if has_readable(earlier) {
            let i = choose|i: int|
                0 <= i < earlier.len() && !(#[trigger] earlier[i] is EncryptedContent);
            assert(!(items[i] is EncryptedContent));
        }
        if !(items.last() is EncryptedContent) {
            assert(!(items[items.len() - 1] is EncryptedContent));
        }
        if has_readable(items) {
            let i = choose|i: int|
                0 <= i < items.len() && !(#[trigger] items[i] is EncryptedContent);
            if i < earlier.len() {
                assert(!(earlier[i] is EncryptedContent));
            }
        }
    }
}

proof fn lemma_joined_lines(first: Seq<Seq<char>>, second: Seq<Seq<char>>)
    ensures
        joined_lines(first + second) == (if first.len() > 0 && second.len() > 0 {
            joined_lines(first) + "\n"@ + joined_lines(second)
        } else {
            joined_lines(first) + joined_lines(second)
        }),
    decreases second.len(),
{
    if second.len() == 0 {
        assert(first + second =~= first);
        assert(joined_lines(first) + joined_lines(second) =~= joined_lines(first));
    } else if first.len() == 0 {
        assert(first + second =~= second);
        assert(joined_lines(first) + joined_lines(second) =~= joined_lines(second));
    } else {
        lemma_joined_lines(first, second.drop_last());
        assert((first + second).drop_last() =~= first + second.drop_last());
        assert((first + second).last() == second.last());
        if second.len() == 1 {
            assert(first + second.drop_last() =~= first);
        }
        assert(joined_lines(first + second) =~= joined_lines(first) + "\n"@ + joined_lines(second));
    }
}

/// A structured output reads as its pieces one below the other: a text as it is, an image
/// by its address, and what is encrypted not at all. Whatever is put together, there is
/// one line break between what can be read of the first part and of the second, and none
/// anywhere else.
pub proof fn output_reads_line_by_line(
    first: Seq<OutputContentItemView>,
    second: Seq<OutputContentItemView>,
    item: OutputContentItemView,
)
    ensures
        joined_lines(output_pieces(first + second)) == joined_lines(output_pieces(first)) + (
        if has_readable(first) && has_readable(second) {
            "\n"@
        } else {
            Seq::empty()
        }) + joined_lines(output_pieces(second)),
        joined_lines(output_pieces(seq![item])) == (match item {
            OutputContentItemView::InputText { text } => text,
            OutputContentItemView::InputImage { image_url, .. } => "[image: "@ + image_url
                + "]"@,
            OutputContentItemView::EncryptedContent { .. } => Seq::empty(),
        }),
        joined_lines(output_pieces(Seq::empty())) == Seq::<char>::empty(),
{
    lemma_output_pieces(first, second);
    lemma_readable(first);
    lemma_readable(second);
    lemma_joined_lines(output_pieces(first), output_pieces(second));
    assert(joined_lines(output_pieces(first + second)) =~= joined_lines(output_pieces(first)) + (
    if has_readable(first) && has_readable(second) {
        "\n"@
    } else {
        Seq::empty()
    }) + joined_lines(output_pieces(second)));
    reveal_with_fuel(output_pieces, 2);
    assert(seq![item].drop_last() =~= Seq::empty());
}

/// The output of a call reads the same wherever it goes: a text as it is, and anything else
/// by its pieces alone, whether the call worked or not.
pub proof fn results_are_text(output: OutputPayloadView)
    ensures
        match output.body {
            OutputBodyView::Text(text) => tool_result(output) == ToolResultView::Text(text),
            OutputBodyView::ContentItems { items, .. } => tool_result(output)
                == ToolResultView::Text(joined_lines(output_pieces(items))),
        },
{
}

/// The input of a call is the document that its arguments are, the object without members
/// where there are none, and null where they are no document.
pub proof fn arguments_are_read(arguments: Seq<char>, document: Option<JsonView>)
    ensures
        arguments.len() == 0 ==> call_input(arguments, document) == JsonView::Object(Map::empty()),
        arguments.len() > 0 ==> (document matches Some(value) ==> call_input(arguments, document)
            == value),
        arguments.len() > 0 && document is None ==> call_input(arguments, document)
            == JsonView::Null,
{
}

/// A call goes to the end of an assistant's message, under its id and name, with the input that
/// it is given.
pub proof fn calls_carry_their_input(
    messages: Seq<MessageView>,
    item: ResponseItemView,
    input: JsonView,
)
    ensures
        (match item {
            ResponseItemView::FunctionCall { call_id, name, .. } => Some((call_id, name)),
            ResponseItemView::CustomToolCall { call_id, name, .. } => Some((call_id, name)),
            _ => None,
        }) matches Some((id, name)) ==> {
            let after = with_item(messages, item, input);
            &&& after.len() > 0
            &&& after.last().role == "assistant"@
            &&& after.last().content matches ContentView::Blocks(blocks) && blocks.len() > 0
                && blocks.last() == (BlockView::ToolUse { id, name, input })
        },
{
}

} // verus!
