use codex_api::chat_completions::{
    ChatCompletionChoice, ChatCompletionChunk, ChatCompletionCompletionTokensDetails,
    ChatCompletionDelta, ChatCompletionPromptTokensDetails, ChatCompletionToolCallDelta,
    ChatCompletionToolCallFunctionDelta, ChatCompletionUsage,
};
use codex_api::common::ResponseEvent;
use codex_api::error::ApiError;
use codex_api::protocol::{ContentItem, ResponseItem, TokenUsage};
use codex_api::sse::chat_completions::{
    chat_completion_stream_step, completed_event, flush, is_stream_done,
    process_chat_completion_chunk, ChatCompletionPoll, ChatCompletionsStreamState,
};
use serde_json::Value;

fn chunk(
    id: &str,
    choices: Vec<ChatCompletionChoice>,
    usage: Option<ChatCompletionUsage>,
) -> ChatCompletionChunk {
    ChatCompletionChunk {
        id: Some(id.to_string()),
        model: Some("gpt-4o".into()),
        choices,
        usage,
    }
}

fn text_delta(content: &str) -> ChatCompletionChoice {
    ChatCompletionChoice {
        delta: ChatCompletionDelta {
            role: None,
            content: Some(content.into()),
            tool_calls: Vec::new(),
        },
        finish_reason: None,
    }
}

fn tool_call_delta(
    index: i64,
    id: Option<&str>,
    name: Option<&str>,
    args: Option<&str>,
) -> ChatCompletionChoice {
    ChatCompletionChoice {
        delta: ChatCompletionDelta {
            role: None,
            content: None,
            tool_calls: vec![ChatCompletionToolCallDelta {
                index,
                id: id.map(str::to_string),
                function: Some(ChatCompletionToolCallFunctionDelta {
                    name: name.map(str::to_string),
                    arguments: args.map(str::to_string),
                }),
            }],
        },
        finish_reason: None,
    }
}

fn finish(reason: &str) -> ChatCompletionChoice {
    ChatCompletionChoice {
        delta: ChatCompletionDelta::default(),
        finish_reason: Some(reason.into()),
    }
}

fn call(call_id: &str, name: &str, arguments: &str) -> ResponseItem {
    ResponseItem::FunctionCall {
        id: None,
        name: name.into(),
        namespace: None,
        arguments: arguments.into(),
        call_id: call_id.into(),
        internal_chat_message_metadata_passthrough: None,
    }
}

fn said(text: &str) -> ResponseItem {
    ResponseItem::Message {
        id: None,
        role: "assistant".into(),
        content: vec![ContentItem::OutputText { text: text.into() }],
        phase: None,
        internal_chat_message_metadata_passthrough: None,
    }
}

fn data(text: &str, chunk: Option<ChatCompletionChunk>) -> ChatCompletionPoll {
    ChatCompletionPoll::Data { data: text.into(), chunk }
}

#[test]
fn streams_text_then_completes() {
    let mut state = ChatCompletionsStreamState::default();

    let mut first = chunk("chatcmpl-1", vec![text_delta("Hello")], None);
    first.choices[0].delta.role = Some("assistant".into());
    let events = process_chat_completion_chunk(first, &mut state);
    assert!(events.iter().any(|e| matches!(e, ResponseEvent::Created)));
    assert!(events.iter().any(|e| matches!(
        e,
        ResponseEvent::OutputTextDelta(t) if t == "Hello"
    )));

    let events = process_chat_completion_chunk(
        chunk("chatcmpl-1", vec![text_delta(" world")], None),
        &mut state,
    );
    assert!(events.iter().any(|e| matches!(
        e,
        ResponseEvent::OutputTextDelta(t) if t == " world"
    )));

    let events =
        process_chat_completion_chunk(chunk("chatcmpl-1", vec![finish("stop")], None), &mut state);
    let done = events.iter().find_map(|e| match e {
        ResponseEvent::OutputItemDone(ResponseItem::Message { content, .. }) => {
            Some(content.clone())
        }
        _ => None,
    });
    let content = done.expect("expected OutputItemDone Message");
    match &content[0] {
        ContentItem::OutputText { text } => assert_eq!(text, "Hello world"),
        other => panic!("expected OutputText, got {other:?}"),
    }

    let completed = completed_event(&state);
    match completed {
        ResponseEvent::Completed {
            response_id,
            token_usage,
            end_turn,
        } => {
            assert_eq!(response_id, "chatcmpl-1");
            assert!(token_usage.is_none());
            assert_eq!(end_turn, Some(true));
        }
        other => panic!("expected Completed, got {other:?}"),
    }
}

#[test]
fn streams_tool_call_then_completes() {
    let mut state = ChatCompletionsStreamState::default();

    let events = process_chat_completion_chunk(
        chunk(
            "chatcmpl-2",
            vec![tool_call_delta(0, Some("call_1"), Some("search"), Some("{\"q\":"))],
            None,
        ),
        &mut state,
    );
    assert!(events.iter().any(|e| matches!(
        e,
        ResponseEvent::OutputItemAdded(ResponseItem::FunctionCall { name, .. }) if name == "search"
    )));
    let delta_count = events
        .iter()
        .filter(|e| matches!(e, ResponseEvent::ToolCallInputDelta { .. }))
        .count();
    assert_eq!(delta_count, 1);

    let events = process_chat_completion_chunk(
        chunk("chatcmpl-2", vec![tool_call_delta(0, None, None, Some("\"rust\"}"))], None),
        &mut state,
    );
    assert!(events
        .iter()
        .filter(|e| matches!(e, ResponseEvent::ToolCallInputDelta { .. }))
        .any(|e| matches!(e, ResponseEvent::ToolCallInputDelta { delta, .. } if delta == "\"rust\"}")));

    let events = process_chat_completion_chunk(
        chunk("chatcmpl-2", vec![finish("tool_calls")], None),
        &mut state,
    );
    let done = events.iter().find_map(|e| match e {
        ResponseEvent::OutputItemDone(ResponseItem::FunctionCall {
            name,
            arguments,
            call_id,
            ..
        }) => Some((name.clone(), arguments.clone(), call_id.clone())),
        _ => None,
    });
    let (name, arguments, call_id) = done.expect("expected OutputItemDone FunctionCall");
    assert_eq!(name, "search");
    assert_eq!(arguments, "{\"q\":\"rust\"}");
    assert_eq!(call_id, "call_1");

    match completed_event(&state) {
        ResponseEvent::Completed { end_turn, .. } => assert_eq!(end_turn, Some(false)),
        other => panic!("expected Completed, got {other:?}"),
    }
}

#[test]
fn captures_usage_from_final_chunk() {
    let mut state = ChatCompletionsStreamState::default();
    process_chat_completion_chunk(chunk("c", vec![text_delta("hi")], None), &mut state);
    process_chat_completion_chunk(chunk("c", vec![finish("stop")], None), &mut state);

    let usage = ChatCompletionUsage {
        prompt_tokens: 10,
        completion_tokens: 5,
        total_tokens: 15,
        prompt_tokens_details: Some(ChatCompletionPromptTokensDetails { cached_tokens: 4 }),
        completion_tokens_details: None,
    };
    process_chat_completion_chunk(chunk("c", Vec::new(), Some(usage)), &mut state);

    match completed_event(&state) {
        ResponseEvent::Completed {
            token_usage: Some(tu),
            ..
        } => {
            assert_eq!(tu.input_tokens, 10);
            assert_eq!(tu.cached_input_tokens, 4);
            assert_eq!(tu.output_tokens, 5);
            assert_eq!(tu.total_tokens, 15);
        }
        other => panic!("expected Completed with usage, got {other:?}"),
    }
}

#[test]
fn flushes_on_done_without_finish_reason() {
    let mut state = ChatCompletionsStreamState::default();
    process_chat_completion_chunk(chunk("c", vec![text_delta("hi")], None), &mut state);
    assert!(!state.flushed);

    let mut events = Vec::new();
    flush(&mut state, &mut events);
    assert!(state.flushed);
    assert!(events.iter().any(|e| matches!(
        e,
        ResponseEvent::OutputItemDone(ResponseItem::Message { .. })
    )));
}

#[test]
fn parses_real_sse_payload_shapes() {
    let payload: Value = serde_json::from_str(
        r#"{
            "id": "chatcmpl-x",
            "object": "chat.completion.chunk",
            "model": "gpt-4o",
            "choices": [{
                "index": 0,
                "delta": { "content": "Hi" },
                "finish_reason": null
            }]
        }"#,
    )
    .unwrap();
    let text = |value: &Value| value.as_str().map(str::to_string);
    let choice = &payload["choices"][0];
    let chunk = ChatCompletionChunk {
        id: text(&payload["id"]),
        model: text(&payload["model"]),
        choices: vec![ChatCompletionChoice {
            delta: ChatCompletionDelta {
                role: text(&choice["delta"]["role"]),
                content: text(&choice["delta"]["content"]),
                tool_calls: Vec::new(),
            },
            finish_reason: text(&choice["finish_reason"]),
        }],
        usage: None,
    };
    let mut state = ChatCompletionsStreamState::default();
    let events = process_chat_completion_chunk(chunk, &mut state);
    assert!(events.iter().any(|e| matches!(
        e,
        ResponseEvent::OutputTextDelta(t) if t == "Hi"
    )));
}

#[test]
fn events_come_in_order() {
    let mut state = ChatCompletionsStreamState::default();
    let mut choice = tool_call_delta(0, Some("c1"), Some("ls"), Some("{}"));
    choice.delta.content = Some("see: ".into());
    choice.finish_reason = Some("tool_calls".into());
    let events = process_chat_completion_chunk(chunk("r", vec![choice], None), &mut state);
    assert_eq!(
        events,
        vec![
            ResponseEvent::ServerModel("gpt-4o".into()),
            ResponseEvent::Created,
            ResponseEvent::OutputTextDelta("see: ".into()),
            ResponseEvent::OutputItemAdded(call("c1", "ls", "")),
            ResponseEvent::ToolCallInputDelta {
                item_id: "c1".into(),
                call_id: Some("c1".into()),
                delta: "{}".into(),
            },
            ResponseEvent::OutputItemDone(said("see: ")),
            ResponseEvent::OutputItemDone(call("c1", "ls", "{}")),
        ]
    );
    assert!(state.flushed);
    assert!(state.tool_calls.is_empty());
    assert_eq!(state.text_buffer, "");
}

#[test]
fn interleaved_calls_are_done_by_ascending_index() {
    let mut state = ChatCompletionsStreamState::default();
    for choice in [
        tool_call_delta(7, Some("late"), Some("b"), Some("[")),
        tool_call_delta(-2, None, Some("a"), Some("{")),
        tool_call_delta(7, None, None, Some("]")),
        tool_call_delta(-2, None, None, Some("}")),
        tool_call_delta(3, Some("quiet"), None, None),
    ] {
        process_chat_completion_chunk(chunk("r", vec![choice], None), &mut state);
    }
    let mut events = Vec::new();
    flush(&mut state, &mut events);
    assert_eq!(
        events,
        vec![
            ResponseEvent::OutputItemDone(call("-2", "a", "{}")),
            ResponseEvent::OutputItemDone(call("quiet", "", "")),
            ResponseEvent::OutputItemDone(call("late", "b", "[]")),
        ]
    );
    let mut again = Vec::new();
    flush(&mut state, &mut again);
    assert!(again.is_empty());
}

#[test]
fn call_without_id_goes_by_its_index() {
    let mut state = ChatCompletionsStreamState::default();
    let events = process_chat_completion_chunk(
        chunk("r", vec![tool_call_delta(12, None, Some("f"), Some("x"))], None),
        &mut state,
    );
    assert_eq!(events[2], ResponseEvent::OutputItemAdded(call("", "f", "")));
    assert_eq!(
        events[3],
        ResponseEvent::ToolCallInputDelta {
            item_id: "12".into(),
            call_id: None,
            delta: "x".into(),
        }
    );
}

#[test]
fn call_is_announced_with_its_first_arguments() {
    let mut state = ChatCompletionsStreamState::default();
    let events = process_chat_completion_chunk(
        chunk("r", vec![tool_call_delta(0, Some("c"), Some("f"), Some(""))], None),
        &mut state,
    );
    assert_eq!(
        events,
        vec![ResponseEvent::ServerModel("gpt-4o".into()), ResponseEvent::Created]
    );
    let events = process_chat_completion_chunk(
        chunk("r", vec![tool_call_delta(0, None, None, Some("a"))], None),
        &mut state,
    );
    assert_eq!(events.len(), 2);
    assert_eq!(events[0], ResponseEvent::OutputItemAdded(call("c", "f", "")));
    let events = process_chat_completion_chunk(
        chunk("r", vec![tool_call_delta(0, None, None, Some("b"))], None),
        &mut state,
    );
    assert_eq!(events.len(), 1);
}

#[test]
fn created_and_model_are_announced_once() {
    let mut state = ChatCompletionsStreamState::default();
    let mut empty = chunk("r", vec![text_delta("")], None);
    empty.model = None;
    assert!(process_chat_completion_chunk(empty, &mut state).is_empty());
    let events = process_chat_completion_chunk(chunk("r", vec![text_delta("a")], None), &mut state);
    assert_eq!(
        events,
        vec![
            ResponseEvent::ServerModel("gpt-4o".into()),
            ResponseEvent::Created,
            ResponseEvent::OutputTextDelta("a".into()),
        ]
    );
    let events = process_chat_completion_chunk(chunk("r", vec![text_delta("b")], None), &mut state);
    assert_eq!(events, vec![ResponseEvent::OutputTextDelta("b".into())]);
    let mut other = chunk("r", Vec::new(), None);
    other.model = Some("gpt-4.1".into());
    let events = process_chat_completion_chunk(other, &mut state);
    assert_eq!(events, vec![ResponseEvent::ServerModel("gpt-4.1".into())]);
}

#[test]
fn first_id_and_finish_reason_and_last_usage_count() {
    let usage = |n: i64| ChatCompletionUsage {
        prompt_tokens: n,
        completion_tokens: 1,
        total_tokens: n + 1,
        prompt_tokens_details: None,
        completion_tokens_details: Some(ChatCompletionCompletionTokensDetails {
            reasoning_tokens: 9,
        }),
    };
    let mut state = ChatCompletionsStreamState::default();
    process_chat_completion_chunk(chunk("one", vec![finish("length")], Some(usage(1))), &mut state);
    process_chat_completion_chunk(chunk("two", vec![finish("stop")], Some(usage(2))), &mut state);
    assert_eq!(
        completed_event(&state),
        ResponseEvent::Completed {
            response_id: "one".into(),
            token_usage: Some(TokenUsage {
                input_tokens: 2,
                cached_input_tokens: 0,
                output_tokens: 1,
                reasoning_output_tokens: 9,
                total_tokens: 3,
            }),
            end_turn: Some(false),
        }
    );
    assert_eq!(TokenUsage::from(&usage(5)).input_tokens, 5);
}

#[test]
fn nothing_is_done_twice() {
    let mut state = ChatCompletionsStreamState::default();
    process_chat_completion_chunk(chunk("r", vec![text_delta("a"), finish("stop")], None), &mut state);
    let events = process_chat_completion_chunk(
        chunk("r", vec![text_delta("b"), finish("stop")], None),
        &mut state,
    );
    assert_eq!(events, vec![ResponseEvent::OutputTextDelta("b".into())]);
}

#[test]
fn done_sentinel_ends_the_stream() {
    let mut state = ChatCompletionsStreamState::default();
    let step = chat_completion_stream_step(
        data("{}", Some(chunk("r", vec![text_delta("hi")], None))),
        &mut state,
    );
    assert!(!step.finished);
    assert_eq!(step.outcomes.len(), 3);
    let step = chat_completion_stream_step(data("not json", None), &mut state);
    assert!(!step.finished);
    assert!(step.outcomes.is_empty());
    // The sentinel counts whatever else the data may be taken for, blanks aside.
    let step = chat_completion_stream_step(
        data(" \u{3000}[DONE]\r\n", Some(chunk("r", vec![text_delta("no")], None))),
        &mut state,
    );
    assert!(step.finished);
    assert_eq!(
        step.outcomes,
        vec![
            Ok(ResponseEvent::OutputItemDone(said("hi"))),
            Ok(ResponseEvent::Completed {
                response_id: "r".into(),
                token_usage: None,
                end_turn: None,
            }),
        ]
    );
}

#[test]
fn closing_completes_only_a_finished_turn() {
    let mut state = ChatCompletionsStreamState::default();
    let step = chat_completion_stream_step(ChatCompletionPoll::Closed, &mut state);
    assert!(step.finished);
    assert_eq!(
        step.outcomes,
        vec![Err(ApiError::Stream(
            "chat completions stream closed before [DONE]".into()
        ))]
    );
    chat_completion_stream_step(
        data("x", Some(chunk("r", vec![finish("stop")], None))),
        &mut state,
    );
    let step = chat_completion_stream_step(ChatCompletionPoll::Closed, &mut state);
    assert!(step.finished);
    assert_eq!(
        step.outcomes,
        vec![Ok(ResponseEvent::Completed {
            response_id: "r".into(),
            token_usage: None,
            end_turn: Some(true),
        })]
    );
}

#[test]
fn chat_stream_failures_are_reported() {
    let mut state = ChatCompletionsStreamState::default();
    let step = chat_completion_stream_step(ChatCompletionPoll::Failed("broken".into()), &mut state);
    assert!(step.finished);
    assert_eq!(step.outcomes, vec![Err(ApiError::Stream("broken".into()))]);
    let step = chat_completion_stream_step(ChatCompletionPoll::IdleTimeout, &mut state);
    assert!(step.finished);
    assert_eq!(
        step.outcomes,
        vec![Err(ApiError::Stream(
            "idle timeout waiting for Chat Completions SSE".into()
        ))]
    );
}

#[test]
fn shown_text_is_the_text_that_is_done() {
    let mut state = ChatCompletionsStreamState::default();
    let mut shown = String::new();
    let mut done = Vec::new();
    for choices in [
        vec![text_delta("a"), text_delta("")],
        vec![tool_call_delta(0, Some("c"), Some("f"), Some("{}")), text_delta("b")],
        vec![text_delta("c"), finish("stop")],
    ] {
        for event in process_chat_completion_chunk(chunk("r", choices, None), &mut state) {
            match event {
                ResponseEvent::OutputTextDelta(text) => shown.push_str(&text),
                ResponseEvent::OutputItemDone(item) => done.push(item),
                ResponseEvent::Completed { .. } => panic!("chunks do not complete the turn"),
                _ => {}
            }
        }
    }
    assert_eq!(shown, "abc");
    assert_eq!(done, vec![said("abc"), call("c", "f", "{}")]);
}

#[test]
fn interleaved_calls_are_each_announced_once() {
    let mut state = ChatCompletionsStreamState::default();
    let mut announced = Vec::new();
    for choices in [
        vec![
            tool_call_delta(1, Some("b"), Some("g"), Some("[")),
            tool_call_delta(0, Some("a"), Some("f"), Some("")),
        ],
        vec![tool_call_delta(0, None, None, Some("{")), tool_call_delta(1, None, None, Some("]"))],
        vec![tool_call_delta(0, None, None, Some("}")), finish("tool_calls")],
    ] {
        for event in process_chat_completion_chunk(chunk("r", choices, None), &mut state) {
            if let ResponseEvent::OutputItemAdded(item) = event {
                announced.push(item);
            }
        }
    }
    assert_eq!(announced, vec![call("b", "g", ""), call("a", "f", "")]);
}

#[test]
fn announced_models_differ_from_the_ones_before() {
    let mut state = ChatCompletionsStreamState::default();
    let mut models = Vec::new();
    for model in [Some("a"), None, Some("a"), Some("b"), Some("b"), None, Some("a")] {
        let mut next = chunk("r", Vec::new(), None);
        next.model = model.map(str::to_string);
        for event in process_chat_completion_chunk(next, &mut state) {
            if let ResponseEvent::ServerModel(model) = event {
                models.push(model);
            }
        }
    }
    assert_eq!(models, vec!["a", "b", "a"]);
}

fn run(polls: Vec<ChatCompletionPoll>) -> Vec<Result<ResponseEvent, ApiError>> {
    let mut state = ChatCompletionsStreamState::default();
    let mut out = Vec::new();
    for poll in polls {
        let step = chat_completion_stream_step(poll, &mut state);
        out.extend(step.outcomes);
        if step.finished {
            break;
        }
    }
    out
}

#[test]
fn whole_stream_tells_chunks_then_open_items_then_completion() {
    let out = run(vec![
        data("{}", Some(chunk("r1", vec![text_delta("He")], None))),
        data("not json", None),
        data("{}", Some(chunk("r2", vec![text_delta("llo")], None))),
        data("{}", Some(chunk(
            "r2",
            vec![tool_call_delta(0, Some("c1"), Some("f"), Some("{}"))],
            None,
        ))),
        data("[DONE]", None),
        data("{}", Some(chunk("r3", vec![text_delta("late")], None))),
        ChatCompletionPoll::Failed("late".into()),
    ]);
    let expected = vec![
        ResponseEvent::ServerModel("gpt-4o".into()),
        ResponseEvent::Created,
        ResponseEvent::OutputTextDelta("He".into()),
        ResponseEvent::OutputTextDelta("llo".into()),
        ResponseEvent::OutputItemAdded(call("c1", "f", "")),
        ResponseEvent::ToolCallInputDelta {
            item_id: "c1".into(),
            call_id: Some("c1".into()),
            delta: "{}".into(),
        },
        ResponseEvent::OutputItemDone(said("Hello")),
        ResponseEvent::OutputItemDone(call("c1", "f", "{}")),
        ResponseEvent::Completed {
            response_id: "r1".into(),
            token_usage: None,
            end_turn: None,
        },
    ];
    assert_eq!(out, expected.into_iter().map(Ok).collect::<Vec<_>>());
}

#[test]
fn whole_stream_tells_finished_items_once() {
    for end in [data("[DONE]", None), ChatCompletionPoll::Closed] {
        let out = run(vec![
            data("{}", Some(chunk("r1", vec![text_delta("Hi")], None))),
            data("{}", Some(chunk("r1", vec![finish("stop")], None))),
            end,
            ChatCompletionPoll::IdleTimeout,
        ]);
        let expected = vec![
            ResponseEvent::ServerModel("gpt-4o".into()),
            ResponseEvent::Created,
            ResponseEvent::OutputTextDelta("Hi".into()),
            ResponseEvent::OutputItemDone(said("Hi")),
            ResponseEvent::Completed {
                response_id: "r1".into(),
                token_usage: None,
                end_turn: Some(true),
            },
        ];
        assert_eq!(out, expected.into_iter().map(Ok).collect::<Vec<_>>());
    }
}

#[test]
fn whole_stream_that_breaks_off_ends_with_the_failure() {
    for (end, message) in [
        (ChatCompletionPoll::Failed("broken".into()), "broken"),
        (ChatCompletionPoll::Closed, "chat completions stream closed before [DONE]"),
        (ChatCompletionPoll::IdleTimeout, "idle timeout waiting for Chat Completions SSE"),
    ] {
        let out = run(vec![
            data("{}", Some(chunk("r1", vec![text_delta("Hi")], None))),
            end,
            data("[DONE]", None),
        ]);
        assert_eq!(
            out,
            vec![
                Ok(ResponseEvent::ServerModel("gpt-4o".into())),
                Ok(ResponseEvent::Created),
                Ok(ResponseEvent::OutputTextDelta("Hi".into())),
                Err(ApiError::Stream(message.into())),
            ]
        );
    }
}

#[test]
fn completion_is_the_same_before_and_after_the_items_are_done() {
    let mut state = ChatCompletionsStreamState::default();
    process_chat_completion_chunk(chunk("r1", vec![text_delta("Hi")], None), &mut state);
    let before = completed_event(&state);
    flush(&mut state, &mut Vec::new());
    assert_eq!(completed_event(&state), before);
    assert_eq!(
        before,
        ResponseEvent::Completed {
            response_id: "r1".into(),
            token_usage: None,
            end_turn: None,
        }
    );
}

#[test]
fn done_sentinel_is_told_from_other_data() {
    assert!(is_stream_done("[DONE]"));
    assert!(is_stream_done(" \t[DONE]\r\n"));
    assert!(!is_stream_done(""));
    assert!(!is_stream_done("[done]"));
    assert!(!is_stream_done("[DONE] [DONE]"));
}
