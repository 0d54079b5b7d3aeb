use codex_api::anthropic::{
    AnthropicContentBlockParam, AnthropicImageSource, AnthropicMessageContent,
    AnthropicMessageParam, AnthropicToolResultContent,
};
use codex_api::anthropic_mapping::{
    append_item, content_items_to_blocks, format_content_items,
    function_output_to_tool_result_content, input_from, parse_arguments, push_or_merge,
    response_items_to_anthropic_messages, tool_input, value_or_null,
};
use codex_api::protocol::{
    ContentItem, FunctionCallOutputBody, FunctionCallOutputContentItem, FunctionCallOutputPayload,
    ResponseItem,
};
use serde_json::Value;

fn parsed(text: &str) -> Value {
    serde_json::from_str(text).unwrap()
}

fn message(role: &str, content: Vec<ContentItem>) -> ResponseItem {
    ResponseItem::Message {
        id: None,
        role: role.to_string(),
        content,
        phase: None,
        internal_chat_message_metadata_passthrough: None,
    }
}

fn input_text(text: &str) -> ContentItem {
    ContentItem::InputText { text: text.to_string() }
}

fn function_call(call_id: &str, arguments: &str) -> ResponseItem {
    ResponseItem::FunctionCall {
        id: None,
        name: "read_file".to_string(),
        namespace: None,
        arguments: arguments.to_string(),
        call_id: call_id.to_string(),
        internal_chat_message_metadata_passthrough: None,
    }
}

fn function_output(call_id: &str, output: FunctionCallOutputPayload) -> ResponseItem {
    ResponseItem::FunctionCallOutput {
        id: None,
        call_id: call_id.to_string(),
        output,
        internal_chat_message_metadata_passthrough: None,
    }
}

fn custom_call(call_id: &str, input: &str) -> ResponseItem {
    ResponseItem::CustomToolCall {
        id: None,
        status: None,
        call_id: call_id.to_string(),
        name: "patch".to_string(),
        input: input.to_string(),
        internal_chat_message_metadata_passthrough: None,
    }
}

fn custom_output(call_id: &str, text: &str) -> ResponseItem {
    ResponseItem::CustomToolCallOutput {
        id: None,
        call_id: call_id.to_string(),
        name: None,
        output: FunctionCallOutputPayload::from_text(text.to_string()),
        internal_chat_message_metadata_passthrough: None,
    }
}

fn text_block(text: &str) -> AnthropicContentBlockParam {
    AnthropicContentBlockParam::Text { text: text.to_string(), cache_control: None }
}

fn call_block(id: &str, name: &str, input: Value) -> AnthropicContentBlockParam {
    AnthropicContentBlockParam::ToolUse { id: id.to_string(), name: name.to_string(), input }
}

fn result_block(id: &str, text: &str) -> AnthropicContentBlockParam {
    AnthropicContentBlockParam::ToolResult {
        tool_use_id: id.to_string(),
        content: AnthropicToolResultContent::Text(text.to_string()),
        is_error: None,
    }
}

fn turn(role: &str, blocks: Vec<AnthropicContentBlockParam>) -> AnthropicMessageParam {
    AnthropicMessageParam {
        role: role.to_string(),
        content: AnthropicMessageContent::Blocks(blocks),
    }
}

#[test]
fn converts_user_text_message() {
    let items = vec![message("user", vec![input_text("hello")])];

    let messages = response_items_to_anthropic_messages(&items);
    assert_eq!(messages.len(), 1);
    assert_eq!(messages[0].role, "user");
    match &messages[0].content {
        AnthropicMessageContent::Blocks(blocks) => {
            assert_eq!(blocks.len(), 1);
            match &blocks[0] {
                AnthropicContentBlockParam::Text { text, .. } => {
                    assert_eq!(text, "hello");
                }
                _ => panic!("expected Text block"),
            }
        }
        _ => panic!("expected Blocks content"),
    }
}

#[test]
fn merges_adjacent_same_role_messages() {
    let items = vec![
        message("user", vec![input_text("first")]),
        message("user", vec![input_text("second")]),
    ];

    let messages = response_items_to_anthropic_messages(&items);
    assert_eq!(messages.len(), 1, "adjacent user messages should merge");
    assert_eq!(messages[0].role, "user");
    match &messages[0].content {
        AnthropicMessageContent::Blocks(blocks) => {
            assert_eq!(blocks.len(), 2);
        }
        _ => panic!("expected Blocks content"),
    }
}

#[test]
fn tool_use_and_result_separate_messages() {
    let items = vec![
        function_call("toolu_01", r#"{"path":"/tmp/x"}"#),
        function_output(
            "toolu_01",
            FunctionCallOutputPayload::from_text("file contents".to_string()),
        ),
    ];

    let messages = response_items_to_anthropic_messages(&items);
    assert_eq!(messages.len(), 2);

    assert_eq!(messages[0].role, "assistant");
    match &messages[0].content {
        AnthropicMessageContent::Blocks(blocks) => {
            assert_eq!(blocks.len(), 1);
            match &blocks[0] {
                AnthropicContentBlockParam::ToolUse { id, name, input } => {
                    assert_eq!(id, "toolu_01");
                    assert_eq!(name, "read_file");
                    assert_eq!(input, &parsed(r#"{"path": "/tmp/x"}"#));
                }
                _ => panic!("expected ToolUse block"),
            }
        }
        _ => panic!("expected Blocks content"),
    }

    assert_eq!(messages[1].role, "user");
    match &messages[1].content {
        AnthropicMessageContent::Blocks(blocks) => {
            assert_eq!(blocks.len(), 1);
            match &blocks[0] {
                AnthropicContentBlockParam::ToolResult {
                    tool_use_id,
                    content,
                    ..
                } => {
                    assert_eq!(tool_use_id, "toolu_01");
                    assert!(matches!(
                        content,
                        AnthropicToolResultContent::Text(t) if t == "file contents"
                    ));
                }
                _ => panic!("expected ToolResult block"),
            }
        }
        _ => panic!("expected Blocks content"),
    }
}

#[test]
fn whole_conversation_is_as_expected() {
    let text_output = |text: &str| FunctionCallOutputPayload::from_text(text.to_string());
    let items = vec![
        message("user", vec![input_text("hi")]),
        ResponseItem::Other,
        message("assistant", vec![ContentItem::OutputText { text: "look".to_string() }]),
        function_call("a", ""),
        custom_call("b", "not json"),
        function_output("a", text_output("one")),
        custom_output("b", "two"),
        message("user", vec![input_text("and?")]),
        message("user", Vec::new()),
        custom_call("c", "[1]"),
    ];
    assert_eq!(
        response_items_to_anthropic_messages(&items),
        vec![
            turn("user", vec![text_block("hi")]),
            turn(
                "assistant",
                vec![
                    text_block("look"),
                    call_block("a", "read_file", parsed("{}")),
                    call_block("b", "patch", Value::Null),
                ],
            ),
            turn("user", vec![result_block("a", "one")]),
            turn("user", vec![result_block("b", "two"), text_block("and?")]),
            turn("assistant", vec![call_block("c", "patch", parsed("[1]"))]),
        ]
    );
    assert!(response_items_to_anthropic_messages(&[]).is_empty());
}

#[test]
fn arguments_are_read() {
    assert_eq!(parse_arguments(""), parsed("{}"));
    assert_eq!(parse_arguments("{\"a\": [true]}"), parsed("{\"a\":[true]}"));
    assert_eq!(parse_arguments("{"), Value::Null);
    assert_eq!(parse_arguments(" "), Value::Null);
    assert_eq!(input_from("", Some(parsed("1"))), parsed("{}"));
    assert_eq!(input_from("1", Some(parsed("1"))), parsed("1"));
    assert_eq!(input_from("x", None), Value::Null);
    assert_eq!(value_or_null(None), Value::Null);
    assert_eq!(tool_input(&custom_call("c", "")), Value::Null);
    assert_eq!(tool_input(&function_call("c", "")), parsed("{}"));
    assert_eq!(tool_input(&ResponseItem::Other), Value::Null);
}

#[test]
fn input_goes_into_the_call() {
    let mut messages = vec![turn("assistant", vec![text_block("x")])];
    append_item(&mut messages, &function_call("a", "ignored here"), parsed("{\"k\":0}"));
    append_item(&mut messages, &ResponseItem::Other, Value::Null);
    assert_eq!(
        messages,
        vec![turn(
            "assistant",
            vec![text_block("x"), call_block("a", "read_file", parsed("{\"k\":0}"))],
        )]
    );
}

#[test]
fn pieces_become_blocks() {
    let image = ContentItem::InputImage { image_url: "u".to_string(), detail: None };
    assert_eq!(
        content_items_to_blocks(&[input_text("a"), image]),
        vec![
            text_block("a"),
            AnthropicContentBlockParam::Image {
                source: AnthropicImageSource::Url { url: "u".to_string() },
                cache_control: None,
            },
        ]
    );
}

#[test]
fn structured_output_is_written_in_lines() {
    let text = |t: &str| FunctionCallOutputContentItem::InputText { text: t.to_string() };
    let image = FunctionCallOutputContentItem::InputImage {
        image_url: "http://x/y".to_string(),
        detail: None,
    };
    let secret = FunctionCallOutputContentItem::EncryptedContent {
        encrypted_content: "zzz".to_string(),
    };
    assert_eq!(format_content_items(&[]), "");
    assert_eq!(format_content_items(&[secret.clone()]), "");
    assert_eq!(format_content_items(&[text("")]), "");
    assert_eq!(format_content_items(&[text(""), text("")]), "\n");
    assert_eq!(
        format_content_items(&[text("a"), secret.clone(), image, text("b"), secret]),
        "a\n[image: http://x/y]\nb"
    );
    let output = FunctionCallOutputPayload {
        body: FunctionCallOutputBody::ContentItems {
            items: vec![text("a"), text("b")],
            text: Some("elsewhere".to_string()),
        },
        success: Some(false),
    };
    assert_eq!(
        function_output_to_tool_result_content(&output),
        AnthropicToolResultContent::Text("a\nb".to_string())
    );
}

#[test]
fn plain_text_is_merged_too() {
    let plain = |role: &str, text: &str| AnthropicMessageParam {
        role: role.to_string(),
        content: AnthropicMessageContent::Text(text.to_string()),
    };
    let mut messages = vec![plain("user", "a")];
    push_or_merge(&mut messages, turn("user", vec![text_block("b")]));
    assert_eq!(messages, vec![turn("user", vec![text_block("a"), text_block("b")])]);
    push_or_merge(&mut messages, plain("user", "c"));
    assert_eq!(
        messages,
        vec![turn("user", vec![text_block("a"), text_block("b"), text_block("c")])]
    );
    let mut messages = vec![plain("user", "a")];
    push_or_merge(&mut messages, plain("user", "b"));
    assert_eq!(messages, vec![turn("user", vec![text_block("a"), text_block("b")])]);
    push_or_merge(&mut messages, plain("system", "c"));
    assert_eq!(messages[1], plain("system", "c"));
    assert_eq!(messages.len(), 2);
}

#[test]
fn skipped_items_do_not_stop_merging() {
    let said = |text: &str| message("user", vec![input_text(text)]);
    let with = vec![
        said("a"),
        ResponseItem::Other,
        message("assistant", Vec::new()),
        said("b"),
        message("user", Vec::new()),
    ];
    let without = vec![said("a"), said("b")];
    let messages = response_items_to_anthropic_messages(&with);
    assert_eq!(messages, response_items_to_anthropic_messages(&without));
    assert_eq!(messages.len(), 1);
}
