use codex_api::chat_completions::{
    finish_reason_ends_turn, ChatCompletionCompletionTokensDetails, ChatCompletionDelta,
    ChatCompletionPromptTokensDetails, ChatCompletionToolCallFunctionDelta, ChatCompletionUsage,
    STREAM_DONE_SENTINEL,
};

#[test]
fn finish_reason_mapping() {
    assert_eq!(finish_reason_ends_turn("stop"), Some(true));
    assert_eq!(finish_reason_ends_turn("tool_calls"), Some(false));
    assert_eq!(finish_reason_ends_turn("length"), Some(false));
    assert_eq!(finish_reason_ends_turn("content_filter"), Some(true));
    assert_eq!(finish_reason_ends_turn(""), None);
}

#[test]
fn other_finish_reasons() {
    assert_eq!(finish_reason_ends_turn("function_call"), Some(false));
    assert_eq!(finish_reason_ends_turn("Stop"), None);
    assert_eq!(finish_reason_ends_turn(" stop"), None);
    assert_eq!(finish_reason_ends_turn("stopped"), None);
}

#[test]
fn wire_defaults_are_empty() {
    let delta = ChatCompletionDelta::default();
    assert!(delta.role.is_none());
    assert!(delta.content.is_none());
    assert!(delta.tool_calls.is_empty());
    let function = ChatCompletionToolCallFunctionDelta::default();
    assert!(function.name.is_none());
    assert!(function.arguments.is_none());
    let usage = ChatCompletionUsage::default();
    assert_eq!(usage.prompt_tokens, 0);
    assert_eq!(usage.completion_tokens, 0);
    assert_eq!(usage.total_tokens, 0);
    assert!(usage.prompt_tokens_details.is_none());
    assert!(usage.completion_tokens_details.is_none());
    assert_eq!(ChatCompletionPromptTokensDetails::default().cached_tokens, 0);
    assert_eq!(ChatCompletionCompletionTokensDetails::default().reasoning_tokens, 0);
    assert_eq!(STREAM_DONE_SENTINEL, "[DONE]");
}
