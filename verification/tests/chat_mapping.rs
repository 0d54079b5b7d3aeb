use codex_api::chat_completions::{
    ChatCompletionAssistantToolCall, ChatCompletionAssistantToolCallFunction,
    ChatCompletionContent, ChatCompletionContentPart, ChatCompletionImageUrl,
    ChatCompletionMessageParam, ChatCompletionToolChoice,
};
use codex_api::chat_completions_mapping::{
    append_assistant_tool_call, content_to_chat, empty_content_to_none, image_detail_str,
    map_reasoning_effort, map_response_item, map_to_chat_completions_request, map_tool_choice,
    next_assistant_tool_call_index, reasoning_effort_string, reshape_tools, text_of,
};
use codex_api::common::{Reasoning, ResponsesApiRequest};
use codex_api::protocol::{
    ContentItem, FunctionCallOutputBody, FunctionCallOutputContentItem, FunctionCallOutputPayload,
    ImageDetail, ReasoningEffort, ResponseItem,
};
use serde_json::Value;

fn parsed(text: &str) -> Value {
    serde_json::from_str(text).unwrap()
}

fn user(text: &str) -> ResponseItem {
    message(
        "user",
        vec![ContentItem::InputText { text: text.into() }],
    )
}

fn assistant(text: &str) -> ResponseItem {
    message(
        "assistant",
        vec![ContentItem::OutputText { text: text.into() }],
    )
}

fn message(role: &str, content: Vec<ContentItem>) -> ResponseItem {
    ResponseItem::Message {
        id: None,
        role: role.into(),
        content,
        phase: None,
        internal_chat_message_metadata_passthrough: None,
    }
}

fn function_call(call_id: &str, name: &str, args: &str) -> ResponseItem {
    ResponseItem::FunctionCall {
        id: None,
        name: name.into(),
        namespace: None,
        arguments: args.into(),
        call_id: call_id.into(),
        internal_chat_message_metadata_passthrough: None,
    }
}

fn tool_output(call_id: &str, output: &str) -> ResponseItem {
    ResponseItem::FunctionCallOutput {
        id: None,
        call_id: call_id.into(),
        output: FunctionCallOutputPayload::from_text(output.into()),
        internal_chat_message_metadata_passthrough: None,
    }
}

fn basic_request(input: Vec<ResponseItem>) -> ResponsesApiRequest {
    ResponsesApiRequest {
        model: "gpt-4o".into(),
        instructions: String::new(),
        input,
        tools: None,
        tool_choice: "auto".into(),
        parallel_tool_calls: true,
        reasoning: None,
        store: false,
        stream: true,
        extra_outputs: Vec::new(),
        service_tier: None,
        prompt_cache_key: None,
        text: None,
        client_metadata: None,
    }
}

#[test]
fn maps_simple_conversation() {
    let req = basic_request(vec![user("hi"), assistant("hello")]);
    let out = map_to_chat_completions_request(&req);
    assert_eq!(out.model, "gpt-4o");
    assert_eq!(out.stream, true);
    assert_eq!(out.stream_options.include_usage, true);
    assert_eq!(out.parallel_tool_calls, Some(true));
    assert!(matches!(
        &out.messages[0],
        ChatCompletionMessageParam::User { .. }
    ));
    assert!(matches!(
        &out.messages[1],
        ChatCompletionMessageParam::Assistant { .. }
    ));
}

#[test]
fn injects_instructions_as_system_message() {
    let mut req = basic_request(vec![user("hi")]);
    req.instructions = "be brief".into();
    let out = map_to_chat_completions_request(&req);
    assert!(matches!(
        &out.messages[0],
        ChatCompletionMessageParam::System { .. }
    ));
    assert_eq!(out.messages.len(), 2);
}

#[test]
fn folds_function_calls_into_assistant_tool_calls() {
    let req = basic_request(vec![
        function_call("call_1", "search", "{\"q\":\"rust\"}"),
        tool_output("call_1", "results"),
    ]);
    let out = map_to_chat_completions_request(&req);
    assert_eq!(out.messages.len(), 2);
    let assistant = match &out.messages[0] {
        ChatCompletionMessageParam::Assistant { tool_calls, .. } => tool_calls,
        _ => panic!("expected assistant with tool_calls"),
    };
    assert_eq!(assistant.len(), 1);
    assert_eq!(assistant[0].index, 0);
    assert_eq!(assistant[0].id, "call_1");
    assert_eq!(assistant[0].function.name, "search");
    assert_eq!(assistant[0].function.arguments, "{\"q\":\"rust\"}");

    match &out.messages[1] {
        ChatCompletionMessageParam::Tool {
            tool_call_id,
            content,
        } => {
            assert_eq!(tool_call_id, "call_1");
            assert_eq!(content, "results");
        }
        _ => panic!("expected tool message"),
    }
}

#[test]
fn assigns_sequential_tool_call_indices() {
    let req = basic_request(vec![
        function_call("call_1", "a", "{}"),
        function_call("call_2", "b", "{}"),
    ]);
    let out = map_to_chat_completions_request(&req);
    let tool_calls = match &out.messages[0] {
        ChatCompletionMessageParam::Assistant { tool_calls, .. } => tool_calls,
        _ => panic!("expected assistant"),
    };
    assert_eq!(tool_calls.len(), 2);
    assert_eq!(tool_calls[0].index, 0);
    assert_eq!(tool_calls[1].index, 1);
}

#[test]
fn reshapes_function_tools() {
    let mut req = basic_request(vec![user("hi")]);
    req.tools = Some(vec![
        parsed(
            r#"{
                "type": "function",
                "name": "search",
                "description": "search the web",
                "parameters": {"type": "object"},
                "strict": true
            }"#,
        ),
        parsed(r#"{"type": "web_search"}"#),
    ]);
    let out = map_to_chat_completions_request(&req);
    assert_eq!(out.tools.len(), 1);
    assert_eq!(out.tools[0].kind, "function");
    assert_eq!(out.tools[0].function.name, "search");
    assert_eq!(out.tools[0].function.strict, Some(true));
    assert_eq!(
        out.tools[0].function.parameters,
        parsed(r#"{"type":"object"}"#)
    );
    assert_eq!(
        out.tools[0].function.description.as_deref(),
        Some("search the web")
    );
}

#[test]
fn maps_reasoning_effort() {
    let mut req = basic_request(vec![user("hi")]);
    req.reasoning = Some(Reasoning {
        effort: Some(ReasoningEffort::High),
        summary: None,
        context: None,
    });
    let out = map_to_chat_completions_request(&req);
    assert_eq!(out.reasoning_effort.as_deref(), Some("high"));
}

#[test]
fn drops_reasoning_items() {
    let reasoning = ResponseItem::Reasoning {
        id: None,
        summary: Vec::new(),
        content: None,
        encrypted_content: None,
        internal_chat_message_metadata_passthrough: None,
    };
    let req = basic_request(vec![reasoning, user("hi")]);
    let out = map_to_chat_completions_request(&req);
    assert_eq!(out.messages.len(), 1);
    assert!(matches!(
        &out.messages[0],
        ChatCompletionMessageParam::User { .. }
    ));
}

#[test]
fn whole_request_is_as_expected() {
    let mut req = basic_request(vec![
        message("developer", vec![ContentItem::InputText { text: "rules".into() }]),
        user("hi"),
        assistant("let me see"),
        function_call("c1", "ls", "{}"),
        function_call("c2", "cat", "{\"f\":1}"),
        tool_output("c1", "a b"),
        tool_output("c2", "text"),
        message("narrator", vec![ContentItem::InputText { text: "meanwhile".into() }]),
    ]);
    req.instructions = "be brief".into();
    let out = map_to_chat_completions_request(&req);
    let call = |index: i64, id: &str, name: &str, arguments: &str| ChatCompletionAssistantToolCall {
        index,
        id: id.into(),
        kind: "function".into(),
        function: ChatCompletionAssistantToolCallFunction {
            name: name.into(),
            arguments: arguments.into(),
        },
    };
    let text = |t: &str| ChatCompletionContent::Text(t.into());
    assert_eq!(
        out.messages,
        vec![
            ChatCompletionMessageParam::System { content: text("be brief") },
            ChatCompletionMessageParam::Developer { content: text("rules") },
            ChatCompletionMessageParam::User { content: text("hi") },
            ChatCompletionMessageParam::Assistant {
                content: Some(text("let me see")),
                tool_calls: vec![call(0, "c1", "ls", "{}"), call(1, "c2", "cat", "{\"f\":1}")],
            },
            ChatCompletionMessageParam::Tool { tool_call_id: "c1".into(), content: "a b".into() },
            ChatCompletionMessageParam::Tool { tool_call_id: "c2".into(), content: "text".into() },
            ChatCompletionMessageParam::User { content: text("meanwhile") },
        ]
    );
    assert_eq!(out.max_tokens, None);
    assert_eq!(out.max_completion_tokens, None);
    assert_eq!(out.temperature, None);
    assert!(out.tools.is_empty());
    assert_eq!(out.tool_choice, Some(ChatCompletionToolChoice::Mode("auto".into())));
    assert_eq!(out.reasoning_effort, None);
    assert!(out.stop.is_empty());
}

#[test]
fn empty_request_maps_to_no_messages() {
    let mut req = basic_request(Vec::new());
    req.tool_choice = String::new();
    req.parallel_tool_calls = false;
    let out = map_to_chat_completions_request(&req);
    assert!(out.messages.is_empty());
    assert_eq!(out.tool_choice, None);
    assert_eq!(out.parallel_tool_calls, Some(false));
}

#[test]
fn responses_only_concepts_make_no_difference() {
    let plain = basic_request(vec![user("hi")]);
    let mut rich = basic_request(vec![user("hi")]);
    rich.store = true;
    rich.stream = false;
    rich.extra_outputs = vec!["x".into()];
    rich.service_tier = Some("fast".into());
    rich.prompt_cache_key = Some("k".into());
    rich.text = Some(parsed("{}"));
    rich.client_metadata = Some(parsed("{\"a\":1}"));
    rich.tools = Some(Vec::new());
    rich.reasoning = Some(Reasoning {
        effort: None,
        summary: Some("auto".into()),
        context: Some("all".into()),
    });
    assert_eq!(
        map_to_chat_completions_request(&plain),
        map_to_chat_completions_request(&rich)
    );
    // An effort is no such concept.
    rich.reasoning = Some(Reasoning {
        effort: Some(ReasoningEffort::High),
        summary: None,
        context: None,
    });
    assert_ne!(
        map_to_chat_completions_request(&plain),
        map_to_chat_completions_request(&rich)
    );
}

#[test]
fn items_without_equivalent_leave_no_trace() {
    let custom = ResponseItem::CustomToolCall {
        id: None,
        status: None,
        call_id: "c".into(),
        name: "n".into(),
        input: "i".into(),
        internal_chat_message_metadata_passthrough: None,
    };
    let custom_output = ResponseItem::CustomToolCallOutput {
        id: None,
        call_id: "c".into(),
        name: None,
        output: FunctionCallOutputPayload::from_text("o".into()),
        internal_chat_message_metadata_passthrough: None,
    };
    let with = basic_request(vec![
        ResponseItem::Other,
        user("a"),
        custom,
        function_call("c1", "f", "{}"),
        custom_output,
        function_call("c2", "g", "{}"),
    ]);
    let without = basic_request(vec![
        user("a"),
        function_call("c1", "f", "{}"),
        function_call("c2", "g", "{}"),
    ]);
    assert_eq!(
        map_to_chat_completions_request(&with),
        map_to_chat_completions_request(&without)
    );
}

#[test]
fn tool_call_indices_start_over_with_each_turn() {
    let req = basic_request(vec![
        function_call("c1", "f", "{}"),
        tool_output("c1", "x"),
        function_call("c2", "g", "{}"),
    ]);
    let out = map_to_chat_completions_request(&req);
    assert_eq!(out.messages.len(), 3);
    match &out.messages[2] {
        ChatCompletionMessageParam::Assistant { content, tool_calls } => {
            assert!(content.is_none());
            assert_eq!(tool_calls.len(), 1);
            assert_eq!(tool_calls[0].index, 0);
        }
        _ => panic!("expected assistant"),
    }
}

#[test]
fn structured_output_reads_as_its_text() {
    let output = |text: Option<String>| ResponseItem::FunctionCallOutput {
        id: None,
        call_id: "c".into(),
        output: FunctionCallOutputPayload {
            body: FunctionCallOutputBody::ContentItems {
                items: vec![FunctionCallOutputContentItem::InputText { text: "piece".into() }],
                text,
            },
            success: None,
        },
        internal_chat_message_metadata_passthrough: None,
    };
    let mut messages = Vec::new();
    let with_text = map_response_item(&output(Some("rendered".into())), &mut messages);
    assert_eq!(
        with_text,
        Some(ChatCompletionMessageParam::Tool {
            tool_call_id: "c".into(),
            content: "rendered".into(),
        })
    );
    let without_text = map_response_item(&output(None), &mut messages);
    assert_eq!(
        without_text,
        Some(ChatCompletionMessageParam::Tool {
            tool_call_id: "c".into(),
            content: String::new(),
        })
    );
    assert!(messages.is_empty());
}

#[test]
fn content_becomes_text_or_parts() {
    let text = |t: &str| ContentItem::InputText { text: t.into() };
    let image = |detail: Option<ImageDetail>| ContentItem::InputImage {
        image_url: "u".into(),
        detail,
    };
    assert_eq!(content_to_chat(&[]), ChatCompletionContent::Text(String::new()));
    assert_eq!(content_to_chat(&[text("a")]), ChatCompletionContent::Text("a".into()));
    assert_eq!(
        content_to_chat(&[text("a"), text("b")]),
        ChatCompletionContent::Parts(vec![
            ChatCompletionContentPart::Text { text: "a".into() },
            ChatCompletionContentPart::Text { text: "b".into() },
        ])
    );
    assert_eq!(
        content_to_chat(&[image(Some(ImageDetail::Original))]),
        ChatCompletionContent::Parts(vec![ChatCompletionContentPart::ImageUrl {
            image_url: ChatCompletionImageUrl {
                url: "u".into(),
                detail: Some("high".into()),
            },
        }])
    );
    assert_eq!(
        content_to_chat(&[image(None)]),
        ChatCompletionContent::Parts(vec![ChatCompletionContentPart::ImageUrl {
            image_url: ChatCompletionImageUrl { url: "u".into(), detail: None },
        }])
    );
    assert_eq!(text_of(&image(None)), None);
    assert_eq!(text_of(&text("a")), Some("a".to_string()));
    assert_eq!(image_detail_str(&ImageDetail::Auto), "auto");
    assert_eq!(image_detail_str(&ImageDetail::Low), "low");
    assert_eq!(image_detail_str(&ImageDetail::High), "high");
}

#[test]
fn empty_assistant_text_is_left_out() {
    let text = |t: &str| ChatCompletionContent::Text(t.into());
    assert_eq!(empty_content_to_none(text("")), None);
    assert_eq!(empty_content_to_none(text("a")), Some(text("a")));
    assert_eq!(
        empty_content_to_none(ChatCompletionContent::Parts(Vec::new())),
        Some(ChatCompletionContent::Parts(Vec::new()))
    );
    let mut messages = Vec::new();
    assert_eq!(
        map_response_item(&message("assistant", Vec::new()), &mut messages),
        Some(ChatCompletionMessageParam::Assistant { content: None, tool_calls: Vec::new() })
    );
    assert_eq!(
        map_response_item(&message("user", Vec::new()), &mut messages),
        Some(ChatCompletionMessageParam::User { content: text("") })
    );
}

#[test]
fn tool_calls_are_appended_to_the_last_assistant_turn() {
    let call = |index: i64| ChatCompletionAssistantToolCall {
        index,
        id: "c".into(),
        kind: "function".into(),
        function: ChatCompletionAssistantToolCallFunction {
            name: "f".into(),
            arguments: "{}".into(),
        },
    };
    let mut messages = Vec::new();
    assert_eq!(next_assistant_tool_call_index(&messages), 0);
    append_assistant_tool_call(call(4), &mut messages);
    assert_eq!(messages.len(), 1);
    assert_eq!(next_assistant_tool_call_index(&messages), 5);
    append_assistant_tool_call(call(5), &mut messages);
    assert_eq!(messages.len(), 1);
    assert_eq!(next_assistant_tool_call_index(&messages), 6);
    messages.push(ChatCompletionMessageParam::User {
        content: ChatCompletionContent::Text("x".into()),
    });
    assert_eq!(next_assistant_tool_call_index(&messages), 0);
    append_assistant_tool_call(call(0), &mut messages);
    assert_eq!(messages.len(), 3);
}

#[test]
fn tools_are_dropped_unless_named_functions() {
    let tools = reshape_tools(&[
        parsed(r#"{"name": "no type"}"#),
        parsed(r#"{"type": 3, "name": "odd type"}"#),
        parsed(r#"{"type": "function"}"#),
        parsed(r#"{"type": "function", "name": 7}"#),
        parsed(r#""function""#),
        parsed(r#"{"type": "function", "name": "kept", "strict": "yes", "description": 1}"#),
    ]);
    assert_eq!(tools.len(), 1);
    assert_eq!(tools[0].function.name, "kept");
    assert_eq!(tools[0].function.description, None);
    assert_eq!(tools[0].function.strict, None);
    assert_eq!(tools[0].function.parameters, parsed("{}"));
}

#[test]
fn tool_choices_map_to_modes() {
    let mode = |m: &str| Some(ChatCompletionToolChoice::Mode(m.into()));
    assert_eq!(map_tool_choice(""), None);
    assert_eq!(map_tool_choice("auto"), mode("auto"));
    assert_eq!(map_tool_choice("none"), mode("none"));
    assert_eq!(map_tool_choice("required"), mode("required"));
    assert_eq!(map_tool_choice("search"), mode("auto"));
}

#[test]
fn every_reasoning_effort_has_a_name() {
    assert_eq!(map_reasoning_effort(&ReasoningEffort::Off), "minimal");
    assert_eq!(map_reasoning_effort(&ReasoningEffort::Minimal), "minimal");
    assert_eq!(map_reasoning_effort(&ReasoningEffort::Low), "low");
    assert_eq!(map_reasoning_effort(&ReasoningEffort::Medium), "medium");
    assert_eq!(map_reasoning_effort(&ReasoningEffort::High), "high");
    assert_eq!(map_reasoning_effort(&ReasoningEffort::XHigh), "xhigh");
    assert_eq!(map_reasoning_effort(&ReasoningEffort::Ultra), "xhigh");
    assert_eq!(map_reasoning_effort(&ReasoningEffort::Custom("odd".into())), "odd");
    let silent = Reasoning { effort: None, summary: None, context: None };
    assert_eq!(reasoning_effort_string(&silent), None);
}
