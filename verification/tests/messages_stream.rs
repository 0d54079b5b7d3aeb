use codex_api::anthropic::{
    AnthropicContentBlockDelta, AnthropicMessageDelta, AnthropicResponseContentBlock,
    AnthropicResponseMessage, AnthropicStreamEvent, AnthropicUsage,
};
use codex_api::common::ResponseEvent;
use codex_api::error::ApiError;
use codex_api::protocol::{ContentItem, ResponseItem, TokenUsage};
use codex_api::sse::messages::{
    messages_stream_step, process_messages_event, total_tokens_fit, MessagesPoll,
    MessagesStreamState,
};
use codex_api::sse::stream_headers;
use http::{HeaderMap, HeaderValue};

fn usage(input_tokens: Option<i64>, output_tokens: Option<i64>) -> AnthropicUsage {
    AnthropicUsage { input_tokens, output_tokens, ..AnthropicUsage::default() }
}

fn message_start(id: &str, input_tokens: i64) -> AnthropicStreamEvent {
    AnthropicStreamEvent::MessageStart {
        message: AnthropicResponseMessage {
            id: id.into(),
            model: Some("sonnet-4-6".into()),
            role: Some("assistant".into()),
            stop_reason: None,
            stop_sequence: None,
            usage: Some(usage(Some(input_tokens), Some(0))),
        },
    }
}

fn text_start(index: i64, text: &str) -> AnthropicStreamEvent {
    AnthropicStreamEvent::ContentBlockStart {
        index,
        content_block: AnthropicResponseContentBlock::Text { text: text.into() },
    }
}

fn call_start(index: i64, id: &str, name: &str) -> AnthropicStreamEvent {
    AnthropicStreamEvent::ContentBlockStart {
        index,
        content_block: AnthropicResponseContentBlock::ToolUse {
            id: id.into(),
            name: name.into(),
            input: None,
        },
    }
}

fn text(index: i64, text: &str) -> AnthropicStreamEvent {
    AnthropicStreamEvent::ContentBlockDelta {
        index,
        delta: AnthropicContentBlockDelta::TextDelta { text: text.into() },
    }
}

fn input(index: i64, partial_json: &str) -> AnthropicStreamEvent {
    AnthropicStreamEvent::ContentBlockDelta {
        index,
        delta: AnthropicContentBlockDelta::InputJsonDelta { partial_json: partial_json.into() },
    }
}

fn stop(index: i64) -> AnthropicStreamEvent {
    AnthropicStreamEvent::ContentBlockStop { index }
}

fn message_delta(stop_reason: &str, output_tokens: i64) -> AnthropicStreamEvent {
    AnthropicStreamEvent::MessageDelta {
        delta: AnthropicMessageDelta {
            stop_reason: Some(stop_reason.into()),
            stop_sequence: None,
        },
        usage: usage(None, Some(output_tokens)),
    }
}

fn collect(events: Vec<AnthropicStreamEvent>) -> Vec<ResponseEvent> {
    let mut state = MessagesStreamState::default();
    let mut out = Vec::new();
    for event in events {
        let step = messages_stream_step(MessagesPoll::Event(event), &mut state);
        for outcome in step.outcomes {
            out.push(outcome.unwrap());
        }
        if step.finished {
            break;
        }
    }
    out
}

fn call(call_id: &str, name: &str, arguments: &str) -> ResponseItem {
    ResponseItem::FunctionCall {
        id: None,
        name: name.into(),
        namespace: None,
        arguments: arguments.into(),
        call_id: call_id.into(),
        internal_chat_message_metadata_passthrough: None,
    }
}

#[test]
fn parses_simple_text_turn() {
    let events = collect(vec![
        message_start("msg_001", 100),
        text_start(0, ""),
        text(0, "Hello"),
        text(0, " world"),
        stop(0),
        message_delta("end_turn", 5),
        AnthropicStreamEvent::MessageStop,
    ]);

    assert!(events.len() >= 4, "got {} events: {events:?}", events.len());
    match &events[0] {
        ResponseEvent::ServerModel(model) => assert_eq!(model, "sonnet-4-6"),
        other => panic!("{other:?}"),
    }
    match &events[1] {
        ResponseEvent::OutputTextDelta(text) => assert_eq!(text, "Hello"),
        other => panic!("{other:?}"),
    }
    match &events[2] {
        ResponseEvent::OutputTextDelta(text) => assert_eq!(text, " world"),
        other => panic!("{other:?}"),
    }
    match &events[3] {
        ResponseEvent::OutputItemDone(ResponseItem::Message { role, content, .. }) => {
            assert_eq!(role, "assistant");
            assert_eq!(content.len(), 1);
            match &content[0] {
                ContentItem::OutputText { text } => assert_eq!(text, "Hello world"),
                other => panic!("{other:?}"),
            }
        }
        other => panic!("{other:?}"),
    }
    match events.last().unwrap() {
        ResponseEvent::Completed {
            response_id,
            end_turn,
            ..
        } => {
            assert_eq!(response_id, "msg_001");
            assert_eq!(*end_turn, Some(true));
        }
        other => panic!("{other:?}"),
    }
}

#[test]
fn parses_tool_use() {
    let events = collect(vec![
        message_start("msg_002", 100),
        call_start(0, "toolu_001", "read_file"),
        input(0, "{\"path\": "),
        input(0, "\"/tmp/foo\"}"),
        stop(0),
        message_delta("tool_use", 20),
        AnthropicStreamEvent::MessageStop,
    ]);

    let added = events
        .iter()
        .find(|e| matches!(e, ResponseEvent::OutputItemAdded(..)));
    assert!(added.is_some(), "expected OutputItemAdded event");

    let deltas: Vec<_> = events
        .iter()
        .filter(|e| matches!(e, ResponseEvent::ToolCallInputDelta { .. }))
        .collect();
    assert_eq!(deltas.len(), 2);

    let done = events.iter().find(|e| {
        matches!(
            e,
            ResponseEvent::OutputItemDone(ResponseItem::FunctionCall { .. })
        )
    });
    assert!(done.is_some(), "expected OutputItemDone with FunctionCall");
    if let Some(ResponseEvent::OutputItemDone(ResponseItem::FunctionCall {
        name,
        arguments,
        call_id,
        ..
    })) = done
    {
        assert_eq!(name, "read_file");
        assert_eq!(call_id, "toolu_001");
        assert_eq!(arguments, "{\"path\": \"/tmp/foo\"}");
    }
}

#[test]
fn ping_before_message_start_is_ignored() {
    let events = collect(vec![
        AnthropicStreamEvent::Ping,
        message_start("msg_003", 5),
        text_start(0, "ok"),
        stop(0),
        message_delta("end_turn", 2),
        AnthropicStreamEvent::MessageStop,
    ]);
    let completed = events
        .iter()
        .any(|e| matches!(e, ResponseEvent::Completed { .. }));
    assert!(completed, "expected Completed event despite ping before message_start");
}

#[test]
fn pings_change_nothing_anywhere() {
    let turn = |ping: bool| {
        let mut events = Vec::new();
        for event in [
            message_start("m", 1),
            call_start(1, "c", "f"),
            input(1, "{"),
            input(1, "}"),
            stop(1),
            AnthropicStreamEvent::MessageStop,
        ] {
            if ping {
                events.push(AnthropicStreamEvent::Ping);
            }
            events.push(event);
        }
        collect(events)
    };
    assert_eq!(turn(true), turn(false));
    let mut state = MessagesStreamState::default();
    assert!(matches!(
        process_messages_event(AnthropicStreamEvent::Ping, &mut state),
        Ok(None)
    ));
    assert!(!state.saw_non_ping);
}

#[test]
fn text_block_begins_with_its_opening() {
    let events = collect(vec![text_start(0, "a"), text(5, "b"), text(0, "c"), stop(9)]);
    assert_eq!(events.len(), 3);
    assert_eq!(
        events[2],
        ResponseEvent::OutputItemDone(ResponseItem::Message {
            id: None,
            role: "assistant".into(),
            content: vec![ContentItem::OutputText { text: "abc".into() }],
            phase: None,
            internal_chat_message_metadata_passthrough: None,
        })
    );
    assert!(collect(vec![text_start(0, ""), stop(0)]).is_empty());
}

#[test]
fn tool_call_is_put_together() {
    let events = collect(vec![
        call_start(3, "id", "f"),
        input(3, "{"),
        input(4, "stray"),
        input(3, "}"),
        stop(3),
    ]);
    let fragment = |delta: &str| ResponseEvent::ToolCallInputDelta {
        item_id: "id".into(),
        call_id: Some("id".into()),
        delta: delta.into(),
    };
    assert_eq!(
        events,
        vec![
            ResponseEvent::OutputItemAdded(call("id", "f", "")),
            fragment("{"),
            fragment("}"),
            ResponseEvent::OutputItemDone(call("id", "f", "{}")),
        ]
    );
    // The end of another block ends the call without a report.
    let events = collect(vec![call_start(3, "id", "f"), stop(2), input(3, "{"), stop(3)]);
    assert_eq!(events, vec![ResponseEvent::OutputItemAdded(call("id", "f", ""))]);
}

#[test]
fn thinking_is_not_reported() {
    let events = collect(vec![
        AnthropicStreamEvent::ContentBlockStart {
            index: 0,
            content_block: AnthropicResponseContentBlock::Thinking {
                thinking: "hm".into(),
                signature: None,
            },
        },
        AnthropicStreamEvent::ContentBlockDelta {
            index: 0,
            delta: AnthropicContentBlockDelta::ThinkingDelta { thinking: "hm".into() },
        },
        AnthropicStreamEvent::ContentBlockDelta {
            index: 0,
            delta: AnthropicContentBlockDelta::SignatureDelta { signature: "s".into() },
        },
        AnthropicStreamEvent::ContentBlockStart {
            index: 1,
            content_block: AnthropicResponseContentBlock::RedactedThinking { data: "d".into() },
        },
        stop(0),
    ]);
    assert!(events.is_empty());
}

#[test]
fn completion_reports_the_accumulated_usage_and_last_stop_reason() {
    let delta = |reason: Option<&str>, usage: AnthropicUsage| AnthropicStreamEvent::MessageDelta {
        delta: AnthropicMessageDelta {
            stop_reason: reason.map(str::to_string),
            stop_sequence: None,
        },
        usage,
    };
    let completed = |token_usage: TokenUsage, end_turn: bool| ResponseEvent::Completed {
        response_id: "msg_001".into(),
        token_usage: Some(token_usage),
        end_turn: Some(end_turn),
    };
    // A count that a report leaves out is kept.
    let events = collect(vec![
        message_start("msg_001", 100),
        delta(Some("end_turn"), usage(None, Some(5))),
        AnthropicStreamEvent::MessageStop,
    ]);
    assert_eq!(
        events[1],
        completed(
            TokenUsage {
                input_tokens: 100,
                cached_input_tokens: 0,
                output_tokens: 5,
                reasoning_output_tokens: 0,
                total_tokens: 105,
            },
            true
        )
    );
    // A count that is reported again replaces the one before.
    let mut later = usage(Some(7), None);
    later.cache_read_input_tokens = Some(2);
    let events = collect(vec![
        message_start("msg_001", 100),
        delta(Some("end_turn"), usage(None, Some(1))),
        delta(Some("max_tokens"), later),
        delta(Some("stop_sequence"), usage(None, Some(3))),
        AnthropicStreamEvent::MessageStop,
    ]);
    assert_eq!(
        events[1],
        completed(
            TokenUsage {
                input_tokens: 7,
                cached_input_tokens: 2,
                output_tokens: 3,
                reasoning_output_tokens: 0,
                total_tokens: 10,
            },
            true
        )
    );
    let events = collect(vec![
        message_start("msg_001", 100),
        delta(Some("tool_use"), usage(None, None)),
        AnthropicStreamEvent::MessageStop,
    ]);
    assert!(matches!(
        &events[1],
        ResponseEvent::Completed { end_turn: Some(false), token_usage: Some(u), .. }
            if u.total_tokens == 100
    ));
}

#[test]
fn usage_accumulates_field_by_field() {
    let report = |n: [Option<i64>; 4]| AnthropicStreamEvent::MessageDelta {
        delta: AnthropicMessageDelta { stop_reason: None, stop_sequence: None },
        usage: AnthropicUsage {
            input_tokens: n[0],
            output_tokens: n[1],
            cache_read_input_tokens: n[2],
            cache_creation_input_tokens: n[3],
        },
    };
    let mut state = MessagesStreamState::default();
    for (counts, expected) in [
        ([None, Some(1), None, Some(4)], [None, Some(1), None, Some(4)]),
        ([Some(2), None, Some(3), None], [Some(2), Some(1), Some(3), Some(4)]),
        ([None, Some(8), None, Some(0)], [Some(2), Some(8), Some(3), Some(0)]),
        ([None, None, None, None], [Some(2), Some(8), Some(3), Some(0)]),
    ] {
        assert!(matches!(process_messages_event(report(counts), &mut state), Ok(None)));
        let held = state.usage.unwrap();
        assert_eq!(
            [
                held.input_tokens,
                held.output_tokens,
                held.cache_read_input_tokens,
                held.cache_creation_input_tokens,
            ],
            expected
        );
    }
    // A new message starts over.
    assert!(process_messages_event(message_start("m", 9), &mut state).is_ok());
    assert_eq!(state.usage, Some(usage(Some(9), Some(0))));
}

#[test]
fn blocks_add_up_amid_other_events() {
    let thinking = || AnthropicStreamEvent::ContentBlockStart {
        index: 8,
        content_block: AnthropicResponseContentBlock::Thinking {
            thinking: "hm".into(),
            signature: None,
        },
    };
    let ponder = || AnthropicStreamEvent::ContentBlockDelta {
        index: 8,
        delta: AnthropicContentBlockDelta::ThinkingDelta { thinking: "hm".into() },
    };
    let events = collect(vec![
        text_start(0, "a"),
        AnthropicStreamEvent::Ping,
        text(0, "b"),
        thinking(),
        input(0, "stray"),
        ponder(),
        text(0, "c"),
        stop(0),
        call_start(1, "id", "f"),
        input(1, "{"),
        AnthropicStreamEvent::Ping,
        thinking(),
        input(2, "stray"),
        text_start(5, ""),
        ponder(),
        input(1, "}"),
        stop(1),
    ]);
    let said = ResponseItem::Message {
        id: None,
        role: "assistant".into(),
        content: vec![ContentItem::OutputText { text: "abc".into() }],
        phase: None,
        internal_chat_message_metadata_passthrough: None,
    };
    assert!(events.contains(&ResponseEvent::OutputItemDone(said)));
    assert_eq!(
        events.last(),
        Some(&ResponseEvent::OutputItemDone(call("id", "f", "{}")))
    );
    assert_eq!(events.len(), 7);
}

#[test]
fn message_stop_alone_completes_with_nothing_known() {
    assert_eq!(
        collect(vec![AnthropicStreamEvent::MessageStop, message_start("late", 1)]),
        vec![ResponseEvent::Completed {
            response_id: String::new(),
            token_usage: None,
            end_turn: None,
        }]
    );
}

#[test]
fn later_message_keeps_the_model() {
    let nameless = AnthropicStreamEvent::MessageStart {
        message: AnthropicResponseMessage {
            id: "m2".into(),
            model: None,
            role: None,
            stop_reason: None,
            stop_sequence: None,
            usage: None,
        },
    };
    let events = collect(vec![message_start("m1", 1), nameless]);
    assert_eq!(
        events,
        vec![
            ResponseEvent::ServerModel("sonnet-4-6".into()),
            ResponseEvent::ServerModel("sonnet-4-6".into()),
        ]
    );
}

#[test]
fn token_sums_are_checked() {
    let mut state = MessagesStreamState::default();
    assert!(total_tokens_fit(&state));
    state.usage = Some(usage(Some(i64::MAX), Some(0)));
    assert!(total_tokens_fit(&state));
    state.usage = Some(usage(Some(i64::MAX), Some(1)));
    assert!(!total_tokens_fit(&state));
    state.usage = Some(usage(Some(i64::MIN), Some(-1)));
    assert!(!total_tokens_fit(&state));
}

#[test]
fn messages_stream_failures_are_reported() {
    let mut state = MessagesStreamState::default();
    let step = messages_stream_step(MessagesPoll::Unreadable, &mut state);
    assert!(!step.finished);
    assert!(step.outcomes.is_empty());
    for (poll, message) in [
        (MessagesPoll::Failed("broken".into()), "broken"),
        (MessagesPoll::Closed, "messages stream closed before message_stop"),
        (MessagesPoll::IdleTimeout, "idle timeout waiting for Messages SSE"),
    ] {
        let step = messages_stream_step(poll, &mut state);
        assert!(step.finished);
        assert_eq!(step.outcomes, vec![Err(ApiError::Stream(message.into()))]);
    }
}

#[test]
fn response_headers_are_read() {
    let mut headers = HeaderMap::new();
    let read = stream_headers(&headers);
    assert_eq!(read.upstream_request_id, None);
    assert_eq!(read.turn_state, None);
    headers.insert("Request-Id", HeaderValue::from_static("req 1"));
    headers.append("request-id", HeaderValue::from_static("req 2"));
    headers.insert("x-codex-turn-state", HeaderValue::from_bytes(b"caf\xe9").unwrap());
    let read = stream_headers(&headers);
    assert_eq!(read.upstream_request_id.as_deref(), Some("req 1"));
    assert_eq!(read.turn_state, None);
    headers.insert("x-codex-turn-state", HeaderValue::from_static("s"));
    assert_eq!(stream_headers(&headers).turn_state.as_deref(), Some("s"));
}

fn run(polls: Vec<MessagesPoll>) -> Vec<Result<ResponseEvent, ApiError>> {
    let mut state = MessagesStreamState::default();
    let mut out = Vec::new();
    for poll in polls {
        let step = messages_stream_step(poll, &mut state);
        out.extend(step.outcomes);
        if step.finished {
            break;
        }
    }
    out
}

#[test]
fn whole_messages_stream_tells_events_then_completion() {
    let turn = || {
        vec![
            message_start("msg_1", 10),
            call_start(0, "c1", "f"),
            input(0, "{}"),
            stop(0),
            message_delta("tool_use", 3),
        ]
    };
    let told = collect(turn());
    assert_eq!(told.len(), 4);
    assert_eq!(told[3], ResponseEvent::OutputItemDone(call("c1", "f", "{}")));

    let mut polls: Vec<MessagesPoll> = Vec::new();
    for event in turn() {
        polls.push(MessagesPoll::Unreadable);
        polls.push(MessagesPoll::Event(event));
    }
    polls.push(MessagesPoll::Event(AnthropicStreamEvent::MessageStop));
    polls.push(MessagesPoll::Event(message_start("msg_2", 1)));
    polls.push(MessagesPoll::Closed);
    let out = run(polls);
    assert_eq!(out.len(), 5);
    for (i, event) in told.into_iter().enumerate() {
        assert_eq!(out[i], Ok(event));
    }
    assert!(matches!(
        &out[4],
        Ok(ResponseEvent::Completed { response_id, end_turn: Some(false), .. })
            if response_id == "msg_1"
    ));
}

#[test]
fn whole_messages_stream_that_breaks_off_ends_with_the_failure() {
    for (end, message) in [
        (MessagesPoll::Failed("broken".into()), "broken"),
        (MessagesPoll::Closed, "messages stream closed before message_stop"),
        (MessagesPoll::IdleTimeout, "idle timeout waiting for Messages SSE"),
    ] {
        let out = run(vec![
            MessagesPoll::Event(message_start("msg_1", 10)),
            MessagesPoll::Event(text_start(0, "")),
            MessagesPoll::Event(text(0, "Hi")),
            end,
            MessagesPoll::Event(AnthropicStreamEvent::MessageStop),
        ]);
        assert_eq!(out.last(), Some(&Err(ApiError::Stream(message.into()))));
        assert!(out[..out.len() - 1].iter().all(|o| o.is_ok()));
        assert_eq!(out[out.len() - 2], Ok(ResponseEvent::OutputTextDelta("Hi".into())));
    }
}
