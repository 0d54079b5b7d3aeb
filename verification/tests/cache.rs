use codex_api::anthropic::{
    AnthropicCacheControl, AnthropicContentBlockParam, AnthropicImageSource,
    AnthropicMessageContent, AnthropicMessageParam, AnthropicMessagesRequest,
    AnthropicSystemPrompt, AnthropicTextBlockParam,
};
use codex_api::anthropic_cache::{
    apply_prompt_caching, cache_control_value, choose_policy, count_block_breakpoints,
    count_breakpoints, ephemeral_cache_control, resolve_prompt_caching_policy,
    PromptCachingPolicy, MAX_CACHE_BREAKPOINTS,
};
use serde_json::Value;

fn parsed(text: &str) -> Value {
    serde_json::from_str(text).unwrap()
}

fn user_text_msg(text: &str) -> AnthropicMessageParam {
    AnthropicMessageParam {
        role: "user".into(),
        content: AnthropicMessageContent::Text(text.into()),
    }
}

fn request_with(
    system: Option<AnthropicSystemPrompt>,
    tools: Vec<Value>,
    messages: Vec<AnthropicMessageParam>,
) -> AnthropicMessagesRequest {
    AnthropicMessagesRequest {
        model: "m".into(),
        messages,
        max_tokens: 8192,
        system,
        stream: true,
        temperature: None,
        tools,
        tool_choice: None,
        thinking: None,
        metadata: None,
    }
}

fn block_has_cc(b: &[AnthropicContentBlockParam]) -> bool {
    b.iter().any(|x| match x {
        AnthropicContentBlockParam::Text { cache_control, .. }
        | AnthropicContentBlockParam::Image { cache_control, .. } => cache_control.is_some(),
        _ => false,
    })
}

fn text_block(text: &str, marked: bool) -> AnthropicContentBlockParam {
    AnthropicContentBlockParam::Text {
        text: text.into(),
        cache_control: if marked { Some(ephemeral_cache_control()) } else { None },
    }
}

fn image_block(marked: bool) -> AnthropicContentBlockParam {
    AnthropicContentBlockParam::Image {
        source: AnthropicImageSource::Url { url: "u".into() },
        cache_control: if marked { Some(ephemeral_cache_control()) } else { None },
    }
}

fn call_block() -> AnthropicContentBlockParam {
    AnthropicContentBlockParam::ToolUse {
        id: "i".into(),
        name: "n".into(),
        input: Value::Null,
    }
}

fn system_block(text: &str, marked: bool) -> AnthropicTextBlockParam {
    AnthropicTextBlockParam {
        text: text.into(),
        cache_control: if marked { Some(ephemeral_cache_control()) } else { None },
    }
}

fn blocks_msg(blocks: Vec<AnthropicContentBlockParam>) -> AnthropicMessageParam {
    AnthropicMessageParam {
        role: "user".into(),
        content: AnthropicMessageContent::Blocks(blocks),
    }
}

#[test]
fn full_places_4_breakpoints() {
    let system = Some(AnthropicSystemPrompt::Text("sys".into()));
    let tools = vec![
        parsed(r#"{"name":"a","input_schema":{}}"#),
        parsed(r#"{"name":"b","input_schema":{}}"#),
    ];
    let messages = vec![user_text_msg("first"), user_text_msg("second")];
    let mut req = request_with(system, tools, messages);
    apply_prompt_caching(&mut req, PromptCachingPolicy::Full);

    assert!(matches!(
        req.system.as_ref().unwrap(),
        AnthropicSystemPrompt::Blocks(_)
    ));
    assert!(matches!(req.tools.last(), Some(Value::Object(m)) if m.contains_key("cache_control")));
    for m in &req.messages {
        match &m.content {
            AnthropicMessageContent::Blocks(b) => assert!(block_has_cc(b)),
            _ => panic!("content should have become blocks"),
        }
    }
    assert_eq!(count_breakpoints(&req), 4);
}

#[test]
fn last_breakpoint_only_places_tool_only() {
    let system = Some(AnthropicSystemPrompt::Text("sys".into()));
    let tools = vec![
        parsed(r#"{"name":"a","input_schema":{}}"#),
        parsed(r#"{"name":"b","input_schema":{}}"#),
    ];
    let messages = vec![user_text_msg("first"), user_text_msg("second")];
    let mut req = request_with(system, tools, messages);
    apply_prompt_caching(&mut req, PromptCachingPolicy::LastBreakpointOnly);

    assert!(matches!(req.system.as_ref().unwrap(), AnthropicSystemPrompt::Text(_)));
    for m in &req.messages {
        assert!(matches!(m.content, AnthropicMessageContent::Text(_)));
    }
    assert!(matches!(req.tools.last(), Some(Value::Object(m)) if m.contains_key("cache_control")));
    assert!(!matches!(req.tools.first(), Some(Value::Object(m)) if m.contains_key("cache_control")));
    assert_eq!(count_breakpoints(&req), 1);
}

#[test]
fn last_breakpoint_only_keeps_the_breakpoints_that_are_there() {
    let tools = vec![
        parsed(r#"{"name":"a","cache_control":{"type":"ephemeral"}}"#),
        parsed(r#"{"name":"b"}"#),
    ];
    let mut req = request_with(None, tools, vec![user_text_msg("hi")]);
    let before = req.clone();
    apply_prompt_caching(&mut req, PromptCachingPolicy::LastBreakpointOnly);
    assert_eq!(req.tools[0], before.tools[0]);
    assert_eq!(
        req.tools[1],
        parsed(r#"{"name":"b","cache_control":{"type":"ephemeral"}}"#)
    );
    assert_eq!(req.messages, before.messages);
    assert_eq!(req.system, before.system);
    assert_eq!(count_breakpoints(&req), 2);
}

#[test]
fn none_leaves_request_untouched() {
    let mut req = request_with(
        Some(AnthropicSystemPrompt::Text("sys".into())),
        vec![parsed(r#"{"name":"a","input_schema":{}}"#)],
        vec![user_text_msg("hi")],
    );
    let before = req.clone();
    apply_prompt_caching(&mut req, PromptCachingPolicy::Disabled);
    assert_eq!(count_breakpoints(&req), 0);
    assert_eq!(req, before);
}

#[test]
fn resolve_policy_config_overrides_base_url() {
    assert_eq!(
        resolve_prompt_caching_policy(Some("full"), Some("https://dashscope/v1")),
        PromptCachingPolicy::Full
    );
    assert_eq!(
        resolve_prompt_caching_policy(Some("none"), Some("https://api.anthropic.com")),
        PromptCachingPolicy::Disabled
    );
}

#[test]
fn resolve_policy_default_by_base_url() {
    assert_eq!(
        resolve_prompt_caching_policy(None, Some("https://api.anthropic.com")),
        PromptCachingPolicy::Full
    );
    assert_eq!(
        resolve_prompt_caching_policy(None, Some("https://dashscope.aliyuncs.com/apps/anthropic")),
        PromptCachingPolicy::LastBreakpointOnly
    );
    assert_eq!(
        resolve_prompt_caching_policy(None, None),
        PromptCachingPolicy::LastBreakpointOnly
    );
}

#[test]
fn resolve_policy_unknown_config_falls_back_to_base_url() {
    assert_eq!(
        resolve_prompt_caching_policy(Some("garbage"), Some("https://api.anthropic.com")),
        PromptCachingPolicy::Full
    );
}

#[test]
fn enforces_4_cap_when_upstream_pre_seeded() {
    let messages: Vec<AnthropicMessageParam> = (0..5)
        .map(|i| AnthropicMessageParam {
            role: "user".into(),
            content: AnthropicMessageContent::Blocks(vec![AnthropicContentBlockParam::Text {
                text: format!("m{i}"),
                cache_control: Some(ephemeral_cache_control()),
            }]),
        })
        .collect();
    let mut req = request_with(None, vec![], messages);
    apply_prompt_caching(&mut req, PromptCachingPolicy::Full);
    assert!(count_breakpoints(&req) <= MAX_CACHE_BREAKPOINTS);
}

#[test]
fn ephemeral_cc_is_short_no_ttl() {
    let cc = ephemeral_cache_control();
    assert_eq!(cc.cache_type, "ephemeral");
    assert!(cc.ttl.is_none());
    assert_eq!(cache_control_value(&cc), parsed(r#"{"type":"ephemeral"}"#));
}

#[test]
fn time_to_live_is_written() {
    let cc = AnthropicCacheControl { cache_type: "t".into(), ttl: Some("1h".into()) };
    assert_eq!(cache_control_value(&cc), parsed(r#"{"type":"t","ttl":"1h"}"#));
    assert_eq!(cc.clone(), cc);
}

#[test]
fn policies_have_names() {
    assert_eq!(PromptCachingPolicy::parse("none"), Some(PromptCachingPolicy::Disabled));
    assert_eq!(PromptCachingPolicy::parse("\tfull\n"), Some(PromptCachingPolicy::Full));
    assert_eq!(
        PromptCachingPolicy::parse("last_breakpoint"),
        Some(PromptCachingPolicy::LastBreakpointOnly)
    );
    assert_eq!(
        PromptCachingPolicy::parse("last-breakpoint"),
        Some(PromptCachingPolicy::LastBreakpointOnly)
    );
    assert_eq!(PromptCachingPolicy::parse("Full"), None);
    assert_eq!(PromptCachingPolicy::parse(""), None);
}

#[test]
fn host_decides_without_a_name() {
    assert_eq!(
        choose_policy(None, Some("api.anthropic.com")),
        PromptCachingPolicy::Full
    );
    assert_eq!(
        choose_policy(Some("?"), Some("api.anthropic.com.evil")),
        PromptCachingPolicy::LastBreakpointOnly
    );
    assert_eq!(choose_policy(None, None), PromptCachingPolicy::LastBreakpointOnly);
    // The host alone counts, as the URL has it.
    assert_eq!(
        resolve_prompt_caching_policy(None, Some("https://API.Anthropic.com:8443/v1?x=1")),
        PromptCachingPolicy::Full
    );
    assert_eq!(
        resolve_prompt_caching_policy(None, Some("api.anthropic.com")),
        PromptCachingPolicy::LastBreakpointOnly
    );
    assert_eq!(
        resolve_prompt_caching_policy(None, Some("mailto:a@api.anthropic.com")),
        PromptCachingPolicy::LastBreakpointOnly
    );
}

#[test]
fn full_marks_last_blocks() {
    let mut req = request_with(
        Some(AnthropicSystemPrompt::Blocks(vec![
            system_block("a", false),
            system_block("b", false),
        ])),
        vec![parsed(r#"{"name":"a"}"#), parsed(r#""odd""#)],
        vec![
            blocks_msg(vec![text_block("old", false)]),
            blocks_msg(vec![text_block("t", false), image_block(false), call_block()]),
            blocks_msg(vec![call_block()]),
        ],
    );
    apply_prompt_caching(&mut req, PromptCachingPolicy::Full);
    assert_eq!(
        req,
        request_with(
            Some(AnthropicSystemPrompt::Blocks(vec![
                system_block("a", false),
                system_block("b", true),
            ])),
            vec![parsed(r#"{"name":"a"}"#), parsed(r#""odd""#)],
            vec![
                blocks_msg(vec![text_block("old", false)]),
                blocks_msg(vec![text_block("t", false), image_block(true), call_block()]),
                blocks_msg(vec![call_block()]),
            ],
        )
    );
}

#[test]
fn full_turns_text_into_blocks() {
    let mut req = request_with(
        Some(AnthropicSystemPrompt::Text("sys".into())),
        vec![parsed(r#"{"name":"a","cache_control":1}"#)],
        vec![user_text_msg("one"), user_text_msg("two"), user_text_msg("three")],
    );
    apply_prompt_caching(&mut req, PromptCachingPolicy::Full);
    assert_eq!(
        req,
        request_with(
            Some(AnthropicSystemPrompt::Blocks(vec![system_block("sys", true)])),
            vec![parsed(r#"{"name":"a","cache_control":{"type":"ephemeral"}}"#)],
            vec![
                user_text_msg("one"),
                blocks_msg(vec![text_block("two", true)]),
                blocks_msg(vec![text_block("three", true)]),
            ],
        )
    );
}

#[test]
fn empty_request_stays_empty() {
    let mut req = request_with(Some(AnthropicSystemPrompt::Blocks(Vec::new())), vec![], vec![]);
    let before = req.clone();
    apply_prompt_caching(&mut req, PromptCachingPolicy::Full);
    assert_eq!(req, before);
    apply_prompt_caching(&mut req, PromptCachingPolicy::LastBreakpointOnly);
    assert_eq!(req, before);
}

#[test]
fn messages_lose_breakpoints_first() {
    let mut req = request_with(
        Some(AnthropicSystemPrompt::Blocks(vec![
            system_block("a", true),
            system_block("b", true),
        ])),
        vec![
            parsed(r#"{"name":"a","cache_control":{}}"#),
            parsed(r#"{"name":"b"}"#),
        ],
        vec![
            blocks_msg(vec![text_block("1", true), image_block(true)]),
            blocks_msg(vec![text_block("2", true)]),
        ],
    );
    apply_prompt_caching(&mut req, PromptCachingPolicy::Disabled);
    assert_eq!(count_breakpoints(&req), 4);
    assert_eq!(
        req.messages,
        vec![
            blocks_msg(vec![text_block("1", false), image_block(false)]),
            blocks_msg(vec![text_block("2", true)]),
        ]
    );
    assert_eq!(
        req.tools[0],
        parsed(r#"{"name":"a","cache_control":{}}"#)
    );
}

#[test]
fn last_system_block_and_last_tool_keep_breakpoints() {
    let marked_tool = parsed(r#"{"cache_control":{}}"#);
    let mut req = request_with(
        Some(AnthropicSystemPrompt::Blocks(vec![
            system_block("a", true),
            system_block("b", true),
            system_block("c", true),
        ])),
        vec![marked_tool.clone(), marked_tool.clone(), marked_tool.clone(), marked_tool.clone()],
        vec![],
    );
    apply_prompt_caching(&mut req, PromptCachingPolicy::Disabled);
    assert_eq!(count_breakpoints(&req), 4);
    assert_eq!(
        req.system,
        Some(AnthropicSystemPrompt::Blocks(vec![
            system_block("a", false),
            system_block("b", false),
            system_block("c", true),
        ]))
    );
    assert_eq!(
        req.tools,
        vec![parsed("{}"), marked_tool.clone(), marked_tool.clone(), marked_tool]
    );
}

#[test]
fn breakpoints_of_blocks_are_counted() {
    assert_eq!(count_block_breakpoints(&[]), 0);
    assert_eq!(
        count_block_breakpoints(&[
            text_block("a", true),
            text_block("b", false),
            image_block(true),
            call_block(),
        ]),
        2
    );
}

#[test]
fn applying_a_policy_twice_changes_nothing() {
    let marked_tool = parsed(r#"{"cache_control":{}}"#);
    let systems = [
        None,
        Some(AnthropicSystemPrompt::Text("sys".into())),
        Some(AnthropicSystemPrompt::Blocks(vec![
            system_block("a", true),
            system_block("b", true),
            system_block("c", true),
            system_block("d", false),
        ])),
    ];
    let conversations = [
        vec![],
        vec![user_text_msg("one")],
        vec![
            blocks_msg(vec![text_block("1", true), image_block(true)]),
            blocks_msg(vec![text_block("2", true), text_block("3", false), call_block()]),
            blocks_msg(vec![text_block("4", true), text_block("5", true), text_block("6", true)]),
        ],
        vec![user_text_msg("one"), blocks_msg(vec![call_block()]), user_text_msg("two")],
    ];
    for system in &systems {
        for tools in [vec![], vec![marked_tool.clone(), marked_tool.clone(), parsed("{}")]] {
            for messages in &conversations {
                for policy in [
                    PromptCachingPolicy::Disabled,
                    PromptCachingPolicy::Full,
                    PromptCachingPolicy::LastBreakpointOnly,
                ] {
                    let mut req = request_with(system.clone(), tools.clone(), messages.clone());
                    apply_prompt_caching(&mut req, policy);
                    assert!(count_breakpoints(&req) <= MAX_CACHE_BREAKPOINTS);
                    let once = req.clone();
                    apply_prompt_caching(&mut req, policy);
                    assert_eq!(req, once);
                }
            }
        }
    }
}
