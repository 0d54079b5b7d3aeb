use codex_api::endpoint::chat_completions::{
    chat_completions_encoding_error, ChatCompletionsClient, ChatCompletionsOptions,
};
use codex_api::endpoint::messages::{messages_encoding_error, MessagesClient, MessagesOptions};
use codex_api::endpoint::{
    accept_event_stream, Compression, EndpointSession, RequestCompression, StreamPlan, Target,
};
use codex_api::error::ApiError;
use codex_api::headers::{set_header, text_header};
use http::{HeaderMap, HeaderValue};

#[test]
fn messages_client_sends_to_its_url() {
    let client: MessagesClient<u8, &str, &str, &str, &str> =
        MessagesClient::new(1, "provider", "auth", "https://x/v1/messages".into());
    assert_eq!(client.session.transport, 1);
    assert_eq!(client.session.provider, "provider");
    assert_eq!(client.session.auth, "auth");
    assert_eq!(client.session.request_telemetry, None);
    assert_eq!(client.sse_telemetry, None);
    assert_eq!(
        client.plan(),
        StreamPlan {
            method: "POST".into(),
            target: Target::Url("https://x/v1/messages".into()),
            compression: None,
        }
    );
    let client = client.with_telemetry(Some("requests"), Some("events"));
    assert_eq!(client.session.transport, 1);
    assert_eq!(client.session.request_telemetry, Some("requests"));
    assert_eq!(client.sse_telemetry, Some("events"));
    assert_eq!(client.endpoint_url, "https://x/v1/messages");
}

#[test]
fn chat_client_sends_below_the_base_url() {
    let client: ChatCompletionsClient<u8, &str, &str, &str, &str> =
        ChatCompletionsClient::new(1, "provider", "auth");
    assert_eq!(
        client.plan(Compression::Zstd),
        StreamPlan {
            method: "POST".into(),
            target: Target::Path("chat/completions".into()),
            compression: Some(RequestCompression::Zstd),
        }
    );
    assert_eq!(
        client.plan(Compression::Off).compression,
        Some(RequestCompression::Off)
    );
    let client = client.with_telemetry(None, Some("events"));
    assert_eq!(client.session.provider, "provider");
    assert_eq!(client.session.request_telemetry, None);
    assert_eq!(client.sse_telemetry, Some("events"));
}

#[test]
fn session_keeps_its_parts() {
    let session: EndpointSession<u8, u8, u8, &str> = EndpointSession::new(1, 2, 3);
    let session = session.with_request_telemetry(Some("t"));
    assert_eq!(
        (session.transport, session.provider, session.auth, session.request_telemetry),
        (1, 2, 3, Some("t"))
    );
}

#[test]
fn options_default_to_nothing() {
    let options: MessagesOptions<u8> = MessagesOptions::default();
    assert!(options.extra_headers.is_empty());
    assert_eq!(options.turn_state, None);
    let options: ChatCompletionsOptions<u8> = ChatCompletionsOptions::default();
    assert!(options.extra_headers.is_empty());
    assert_eq!(options.compression, Compression::Off);
    assert_eq!(options.turn_state, None);
}

#[test]
fn event_streams_are_asked_for() {
    let mut headers = HeaderMap::new();
    headers.append("accept", HeaderValue::from_static("text/html"));
    headers.append("accept", HeaderValue::from_static("text/plain"));
    headers.append("x-other", HeaderValue::from_static("kept"));
    assert!(accept_event_stream(&mut headers));
    let values: Vec<&HeaderValue> = headers.get_all(http::header::ACCEPT).iter().collect();
    assert_eq!(values, vec!["text/event-stream"]);
    assert_eq!(headers.len(), 2);
    assert_eq!(text_header(&headers, "x-other"), Some("kept"));
}

#[test]
fn full_header_map_refuses_more() {
    let mut headers = HeaderMap::new();
    let mut n: u32 = 0;
    while headers
        .try_insert(
            http::HeaderName::from_bytes(format!("x-{n}").as_bytes()).unwrap(),
            HeaderValue::from_static("v"),
        )
        .is_ok()
    {
        n += 1;
    }
    assert!(n >= 4096);
    let before = headers.len();
    assert!(!set_header(&mut headers, "accept", "x"));
    assert_eq!(headers.len(), before);
    assert_eq!(text_header(&headers, "accept"), None);
}

#[test]
fn encoding_errors_say_why() {
    assert_eq!(
        messages_encoding_error("bad"),
        ApiError::Stream("failed to encode messages request: bad".into())
    );
    assert_eq!(
        chat_completions_encoding_error("bad"),
        ApiError::Stream("failed to encode chat completions request: bad".into())
    );
}
