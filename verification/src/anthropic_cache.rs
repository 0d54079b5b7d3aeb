//! Prompt caching for the Messages API: where `cache_control` breakpoints go.
//!
//! How many breakpoints a provider honors decides the policy:
//! - `Full`: the last system block, the last tool, and the last two messages.
//! - `LastBreakpointOnly`: the last tool alone, behind the stable prefix of
//!   system prompt and tools. It is for providers that honor only one.
//! - `Disabled`: none.
//!
//! A policy that is configured wins. Otherwise `api.anthropic.com` gets `Full`
//! and every other provider `LastBreakpointOnly`.
use crate::anthropic::{
    AnthropicCacheControl, AnthropicContentBlockParam, AnthropicMessageContent,
    AnthropicMessageParam, AnthropicMessagesRequest, AnthropicSystemPrompt,
    AnthropicTextBlockParam, BlockView, CacheControlView, ContentView, MessageView, RequestView,
    SystemView, TextBlockView,
};
use crate::json::{
    empty_object, has_member, insert_member, json_view, json_views, remove_member, string_value,
    JsonView,
};
use crate::sequences::{
    all_but_last, first_index, last_index, lemma_first_index, lemma_first_index_found,
    lemma_last_index, lemma_last_index_exists, lemma_last_index_found, lemma_last_index_rest,
    lemma_total_take, lemma_total_update, lemma_total_zero, total,
};
use crate::text::{same_text, trim, trimmed};
use serde_json::Value;
use vstd::prelude::*;

verus! {

/// A request may have this many breakpoints.
pub const MAX_CACHE_BREAKPOINTS: usize = 4;

/// The name of the member that makes a tool a breakpoint.
pub const CACHE_CONTROL: &'static str = "cache_control";

/// The short-lived breakpoint: of type `ephemeral`, without a time to live.
pub open spec fn ephemeral() -> CacheControlView {
    CacheControlView { cache_type: "ephemeral"@, ttl: None }
}

/// The breakpoint that this library places.
pub fn ephemeral_cache_control() -> (r: AnthropicCacheControl)
    ensures
        r.deep_view() == ephemeral(),
{
    AnthropicCacheControl { cache_type: "ephemeral".to_string(), ttl: None }
}

/// A breakpoint as a JSON document.
pub open spec fn cache_control_json(cache_control: CacheControlView) -> JsonView {
    let typed = Map::<Seq<char>, JsonView>::empty().insert(
        "type"@,
        JsonView::Str(cache_control.cache_type),
    );
    match cache_control.ttl {
        Some(ttl) => JsonView::Object(typed.insert("ttl"@, JsonView::Str(ttl))),
        None => JsonView::Object(typed),
    }
}

/// Writes a breakpoint as a JSON document.
pub fn cache_control_value(cache_control: &AnthropicCacheControl) -> (r: Value)
    ensures
        json_view(r) == cache_control_json(cache_control.deep_view()),
{
    let mut value = empty_object();
    insert_member(&mut value, "type", string_value(cache_control.cache_type.clone()));
    if let Some(ttl) = &cache_control.ttl {
        insert_member(&mut value, "ttl", string_value(ttl.clone()));
    }
    value
}

// ── Policies ─────────────────────────────────────────────────────────────────

/// Which breakpoints a provider gets.
#[derive(Debug, Clone, Copy, PartialEq, Eq, Structural)]
pub enum PromptCachingPolicy {
    /// No caching.
    Disabled,
    /// The last system block, the last tool, and the last two messages.
    Full,
    /// The last tool alone.
    LastBreakpointOnly,
}

/// The policy that a configured name stands for.
pub open spec fn policy_named(name: Seq<char>) -> Option<PromptCachingPolicy> {
    let word = trimmed(name);
    if word == "none"@ {
        Some(PromptCachingPolicy::Disabled)
    } else if word == "full"@ {
        Some(PromptCachingPolicy::Full)
    } else if word == "last_breakpoint"@ || word == "last-breakpoint"@ {
        Some(PromptCachingPolicy::LastBreakpointOnly)
    } else {
        None
    }
}

impl PromptCachingPolicy {
    /// Reads a configured name: `none`, `full` or `last_breakpoint`.
    pub fn parse(s: &str) -> (r: Option<Self>)
        ensures
            r == policy_named(s@),
    {
        let word = trim(s);
        if same_text(word, "none") {
            Some(PromptCachingPolicy::Disabled)
        } else if same_text(word, "full") {
            Some(PromptCachingPolicy::Full)
        } else if same_text(word, "last_breakpoint") || same_text(word, "last-breakpoint") {
            Some(PromptCachingPolicy::LastBreakpointOnly)
        } else {
            None
        }
    }
}

/// The host that a URL names, by `url::Url::parse` and `url::Url::host_str`:
/// nothing where the text is no URL or the URL has no host.
pub uninterp spec fn url_host(text: Seq<char>) -> Option<Seq<char>>;

/// Calls `url::Url::parse` and takes the host from the URL with
/// `url::Url::host_str`. The outcome depends on the characters of the text
/// alone.
#[verifier::external_body]
fn host_of(text: &str) -> (r: Option<String>)
    ensures
        r.deep_view() == url_host(text@),
{
    let url = url::Url::parse(text).ok()?;
    url.host_str().map(str::to_string)
}

/// The policy for a host, where none is configured.
pub open spec fn default_policy(host: Option<Seq<char>>) -> PromptCachingPolicy {
    if host == Some("api.anthropic.com"@) {
        PromptCachingPolicy::Full
    } else {
        PromptCachingPolicy::LastBreakpointOnly
    }
}

/// The policy for a configured name and a host.
pub open spec fn chosen_policy(
    prompt_caching: Option<Seq<char>>,
    host: Option<Seq<char>>,
) -> PromptCachingPolicy {
    match prompt_caching {
        Some(name) => match policy_named(name) {
            Some(policy) => policy,
            None => default_policy(host),
        },
        None => default_policy(host),
    }
}

/// What an optional string slice says.
pub open spec fn opt_text(text: Option<&str>) -> Option<Seq<char>> {
    match text {
        Some(text) => Some(text@),
        None => None,
    }
}

/// Chooses the policy by the configured name, or else by the host of the
/// provider.
pub fn choose_policy(prompt_caching: Option<&str>, host: Option<&str>) -> (r: PromptCachingPolicy)
    ensures
        r == chosen_policy(opt_text(prompt_caching), opt_text(host)),
{
    if let Some(name) = prompt_caching {
        if let Some(policy) = PromptCachingPolicy::parse(name) {
            return policy;
        }
    }
    match host {
        Some(host) => if same_text(host, "api.anthropic.com") {
            PromptCachingPolicy::Full
        } else {
            PromptCachingPolicy::LastBreakpointOnly
        },
        None => PromptCachingPolicy::LastBreakpointOnly,
    }
}

/// Chooses the policy by the configured name, or else by the host in the base
/// URL of the provider.
pub fn resolve_prompt_caching_policy(
    prompt_caching: Option<&str>,
    base_url: Option<&str>,
) -> (r: PromptCachingPolicy)
    ensures
        r == chosen_policy(
            opt_text(prompt_caching),
            match base_url {
                Some(text) => url_host(text@),
                None => None,
            },
        ),
{
    let host = match base_url {
        Some(text) => host_of(text),
        None => None,
    };
    match &host {
        Some(host) => choose_policy(prompt_caching, Some(host.as_str())),
        None => choose_policy(prompt_caching, None),
    }
}

// ── Breakpoints ──────────────────────────────────────────────────────────────

impl BlockView {
    /// Whether a block can be a breakpoint.
    pub open spec fn is_markable(self) -> bool {
        self is Text || self is Image
    }

    /// The block with this breakpoint, or without any.
    pub open spec fn with_mark(self, cache_control: Option<CacheControlView>) -> BlockView {
        match self {
            BlockView::Text { text, .. } => BlockView::Text { text, cache_control },
            BlockView::Image { source, .. } => BlockView::Image { source, cache_control },
            _ => self,
        }
    }

    /// Whether a block is a breakpoint.
    pub open spec fn is_marked(self) -> bool {
        match self {
            BlockView::Text { cache_control, .. } => cache_control is Some,
            BlockView::Image { cache_control, .. } => cache_control is Some,
            _ => false,
        }
    }
}

/// How many breakpoints blocks hold.
pub open spec fn block_marks(blocks: Seq<BlockView>) -> nat {
    total(
        blocks,
        |block: BlockView|
            if block.is_marked() {
                1
            } else {
                0
            },
    )
}

impl MessageView {
    /// How many breakpoints a message holds.
    pub open spec fn marks(self) -> nat {
        match self.content {
            ContentView::Text(_) => 0,
            ContentView::Blocks(blocks) => block_marks(blocks),
        }
    }
}

/// How many breakpoints messages hold.
pub open spec fn message_marks(messages: Seq<MessageView>) -> nat {
    total(messages, |message: MessageView| message.marks())
}

/// How many breakpoints the blocks of a system prompt hold.
pub open spec fn text_block_marks(blocks: Seq<TextBlockView>) -> nat {
    total(
        blocks,
        |block: TextBlockView|
            if block.cache_control is Some {
                1
            } else {
                0
            },
    )
}

/// How many breakpoints a system prompt holds.
pub open spec fn system_marks(system: Option<SystemView>) -> nat {
    match system {
        Some(SystemView::Blocks(blocks)) => text_block_marks(blocks),
        _ => 0,
    }
}

/// Whether a tool is a breakpoint.
pub open spec fn is_marked_tool(tool: JsonView) -> bool {
    tool.member(CACHE_CONTROL@) is Some
}

/// How many breakpoints tools hold.
pub open spec fn tool_marks(tools: Seq<JsonView>) -> nat {
    total(
        tools,
        |tool: JsonView|
            if is_marked_tool(tool) {
                1
            } else {
                0
            },
    )
}

/// How many breakpoints a request holds.
pub open spec fn marks(request: RequestView) -> nat {
    system_marks(request.system) + tool_marks(request.tools) + message_marks(request.messages)
}

/// A count, as far as a machine word can hold it.
pub open spec fn capped(count: nat) -> usize {
    if count <= usize::MAX {
        count as usize
    } else {
        usize::MAX
    }
}

/// Whether a block is a breakpoint.
fn is_breakpoint(block: &AnthropicContentBlockParam) -> (r: bool)
    ensures
        r == block.deep_view().is_marked(),
{
    match block {
        AnthropicContentBlockParam::Text { cache_control, .. } => cache_control.is_some(),
        AnthropicContentBlockParam::Image { cache_control, .. } => cache_control.is_some(),
        _ => false,
    }
}

/// Counts the breakpoints of blocks.
pub fn count_block_breakpoints(blocks: &[AnthropicContentBlockParam]) -> (r: usize)
    ensures
        r == block_marks(blocks.deep_view()),
{
    let ghost view = blocks.deep_view();
    let ghost count = |block: BlockView|
        if block.is_marked() {
            1nat
        } else {
            0
        };
    let mut n: usize = 0;
    let mut i: usize = 0;
    while i < blocks.len()
        invariant
            i <= blocks.len(),
            n <= i,
            view == blocks.deep_view(),
            count == |block: BlockView|
                if block.is_marked() {
                    1nat
                } else {
                    0
                },
            n == total(view.take(i as int), count),
        decreases blocks.len() - i,
    {
        proof {
            lemma_total_take(view, count, i as int);
        }
        if is_breakpoint(&blocks[i]) {
            n = n + 1;
        }
        i = i + 1;
    }
    assert(view.take(i as int) =~= view);
    n
}

/// Counts the breakpoints of the blocks of a system prompt.
fn count_text_block_breakpoints(blocks: &[AnthropicTextBlockParam]) -> (r: usize)
    ensures
        r == text_block_marks(blocks.deep_view()),
{
    let ghost view = blocks.deep_view();
    let ghost count = |block: TextBlockView|
        if block.cache_control is Some {
            1nat
        } else {
            0
        };
    let mut n: usize = 0;
    let mut i: usize = 0;
    while i < blocks.len()
        invariant
            i <= blocks.len(),
            n <= i,
            view == blocks.deep_view(),
            count == |block: TextBlockView|
                if block.cache_control is Some {
                    1nat
                } else {
                    0
                },
            n == total(view.take(i as int), count),
        decreases blocks.len() - i,
    {
        proof {
            lemma_total_take(view, count, i as int);
        }
        if blocks[i].cache_control.is_some() {
            n = n + 1;
        }
        i = i + 1;
    }
    assert(view.take(i as int) =~= view);
    n
}

/// Counts the breakpoints of tools.
fn count_tool_breakpoints(tools: &[Value]) -> (r: usize)
    ensures
        r == tool_marks(json_views(tools@)),
{
    let ghost view = json_views(tools@);
    let ghost count = |tool: JsonView|
        if is_marked_tool(tool) {
            1nat
        } else {
            0
        };
    let mut n: usize = 0;
    let mut i: usize = 0;
    while i < tools.len()
        invariant
            i <= tools.len(),
            n <= i,
            view == json_views(tools@),
            count == |tool: JsonView|
                if is_marked_tool(tool) {
                    1nat
                } else {
                    0
                },
            n == total(view.take(i as int), count),
        decreases tools.len() - i,
    {
        proof {
            lemma_total_take(view, count, i as int);
        }
        if has_member(&tools[i], CACHE_CONTROL) {
            n = n + 1;
        }
        i = i + 1;
    }
    assert(view.take(i as int) =~= view);
    n
}

/// Counts the breakpoints of a request.
pub fn count_breakpoints(request: &AnthropicMessagesRequest) -> (r: usize)
    ensures
        r == capped(marks(request.deep_view())),
{
    let mut n: usize = match &request.system {
        Some(AnthropicSystemPrompt::Blocks(blocks)) => count_text_block_breakpoints(
            blocks.as_slice(),
        ),
        _ => 0,
    };
    n = n.saturating_add(count_tool_breakpoints(request.tools.as_slice()));
    let ghost rest = system_marks(request.system.deep_view()) + tool_marks(
        json_views(request.tools@),
    );
    let ghost view = request.messages.deep_view();
    let ghost count = |message: MessageView| message.marks();
    let mut i: usize = 0;
    while i < request.messages.len()
        invariant
            i <= request.messages.len(),
            view == request.messages.deep_view(),
            count == |message: MessageView| message.marks(),
            n == capped(rest + total(view.take(i as int), count)),
        decreases request.messages.len() - i,
    {
        proof {
            lemma_total_take(view, count, i as int);
        }
        if let AnthropicMessageContent::Blocks(blocks) = &request.messages[i].content {
            n = n.saturating_add(count_block_breakpoints(blocks.as_slice()));
        }
        i = i + 1;
    }
    assert(view.take(i as int) =~= view);
    n
}

// ── Placing breakpoints ──────────────────────────────────────────────────────

/// Blocks of which the last one that can be a breakpoint is this one.
pub open spec fn marked_blocks(blocks: Seq<BlockView>, cache_control: CacheControlView) -> Seq<
    BlockView,
> {
    match last_index(blocks, |block: BlockView| block.is_markable()) {
        Some(i) => blocks.update(i, blocks[i].with_mark(Some(cache_control))),
        None => blocks,
    }
}

impl MessageView {
    /// The message with this breakpoint on its last text or image. Plain text
    /// becomes a block.
    pub open spec fn marked(self, cache_control: CacheControlView) -> MessageView {
        MessageView {
            content: ContentView::Blocks(
                match self.content {
                    ContentView::Text(text) => seq![
                        BlockView::Text { text, cache_control: Some(cache_control) },
                    ],
                    ContentView::Blocks(blocks) => marked_blocks(blocks, cache_control),
                },
            ),
            ..self
        }
    }
}

/// A system prompt with this breakpoint on its last block. Plain text becomes a
/// block.
pub open spec fn marked_system(system: SystemView, cache_control: CacheControlView) -> SystemView {
    SystemView::Blocks(
        match system {
            SystemView::Text(text) => seq![
                TextBlockView { text, cache_control: Some(cache_control) },
            ],
            SystemView::Blocks(blocks) => if blocks.len() > 0 {
                blocks.update(
                    blocks.len() - 1,
                    TextBlockView { cache_control: Some(cache_control), ..blocks.last() },
                )
            } else {
                blocks
            },
        },
    )
}

/// Tools with this breakpoint on the last one, where that is an object.
pub open spec fn marked_tools(tools: Seq<JsonView>, cache_control: CacheControlView) -> Seq<
    JsonView,
> {
    if tools.len() > 0 {
        match tools.last() {
            JsonView::Object(members) => tools.update(
                tools.len() - 1,
                JsonView::Object(
                    members.insert(CACHE_CONTROL@, cache_control_json(cache_control)),
                ),
            ),
            _ => tools,
        }
    } else {
        tools
    }
}

/// Messages with this breakpoint on each of the last two.
pub open spec fn marked_messages(
    messages: Seq<MessageView>,
    cache_control: CacheControlView,
) -> Seq<MessageView> {
    messages.map(
        |i: int, message: MessageView|
            if i + 2 >= messages.len() {
                message.marked(cache_control)
            } else {
                message
            },
    )
}

/// A request with the breakpoints of a policy on top of those it has.
pub open spec fn marked_request(request: RequestView, policy: PromptCachingPolicy) -> RequestView {
    match policy {
        PromptCachingPolicy::Disabled => request,
        PromptCachingPolicy::LastBreakpointOnly => RequestView {
            tools: marked_tools(request.tools, ephemeral()),
            ..request
        },
        PromptCachingPolicy::Full => RequestView {
            system: match request.system {
                Some(system) => Some(marked_system(system, ephemeral())),
                None => None,
            },
            tools: marked_tools(request.tools, ephemeral()),
            messages: marked_messages(request.messages, ephemeral()),
            ..request
        },
    }
}

/// Places a breakpoint on the last block that can be one. Tells whether there is
/// one.
fn set_cache_on_last_text_block(
    blocks: &mut Vec<AnthropicContentBlockParam>,
    cc: AnthropicCacheControl,
) -> (r: bool)
    ensures
        final(blocks).deep_view() == marked_blocks(old(blocks).deep_view(), cc.deep_view()),
        r == exists|i: int|
            0 <= i < old(blocks).len() && (#[trigger] old(blocks).deep_view()[i]).is_markable(),
{
    let ghost view = blocks.deep_view();
    let ghost markable = |block: BlockView| block.is_markable();
    let mut i: usize = blocks.len();
    while i > 0
        invariant
            i <= blocks.len(),
            view == blocks.deep_view(),
            view == old(blocks).deep_view(),
            markable == |block: BlockView| block.is_markable(),
            forall|j: int| i <= j < view.len() ==> !(#[trigger] view[j]).is_markable(),
        decreases i,
    {
        i = i - 1;
        match &mut blocks[i] {
            AnthropicContentBlockParam::Text { cache_control, .. } => {
                *cache_control = Some(cc);
                proof {
                    lemma_last_index(view, markable, i as int);
                    assert(view[i as int].is_markable());
                    assert(blocks.deep_view() =~= marked_blocks(view, cc.deep_view()));
                }
                return true;
            },
            AnthropicContentBlockParam::Image { cache_control, .. } => {
                *cache_control = Some(cc);
                proof {
                    lemma_last_index(view, markable, i as int);
                    assert(view[i as int].is_markable());
                    assert(blocks.deep_view() =~= marked_blocks(view, cc.deep_view()));
                }
                return true;
            },
            _ => {},
        }
        assert(blocks.deep_view() =~= view);
    }
    proof {
        lemma_last_index(view, markable, -1);
    }
    false
}

/// Places a breakpoint on the last text or image of a message. Tells whether
/// there is one.
fn set_cache_on_message(msg: &mut AnthropicMessageParam, cc: AnthropicCacheControl) -> (r: bool)
    ensures
        final(msg).deep_view() == old(msg).deep_view().marked(cc.deep_view()),
        r == match old(msg).deep_view().content {
            ContentView::Text(_) => true,
            ContentView::Blocks(blocks) => exists|i: int|
                0 <= i < blocks.len() && (#[trigger] blocks[i]).is_markable(),
        },
{
    match &mut msg.content {
        AnthropicMessageContent::Text(text) => {
            let mut taken = String::new();
            std::mem::swap(&mut taken, text);
            let mut blocks: Vec<AnthropicContentBlockParam> = Vec::new();
            blocks.push(AnthropicContentBlockParam::Text { text: taken, cache_control: Some(cc) });
            assert(blocks.deep_view() =~= seq![
                BlockView::Text { text: taken@, cache_control: Some(cc.deep_view()) },
            ]);
            msg.content = AnthropicMessageContent::Blocks(blocks);
            true
        },
        AnthropicMessageContent::Blocks(blocks) => set_cache_on_last_text_block(blocks, cc),
    }
}

/// Places a breakpoint on the last block of a system prompt.
fn set_cache_on_system(system: &mut AnthropicSystemPrompt, cc: AnthropicCacheControl)
    ensures
        final(system).deep_view() == marked_system(old(system).deep_view(), cc.deep_view()),
{
    match system {
        AnthropicSystemPrompt::Text(text) => {
            let mut taken = String::new();
            std::mem::swap(&mut taken, text);
            let mut blocks: Vec<AnthropicTextBlockParam> = Vec::new();
            blocks.push(AnthropicTextBlockParam { text: taken, cache_control: Some(cc) });
            assert(blocks.deep_view() =~= seq![
                TextBlockView { text: taken@, cache_control: Some(cc.deep_view()) },
            ]);
            *system = AnthropicSystemPrompt::Blocks(blocks);
        },
        AnthropicSystemPrompt::Blocks(blocks) => {
            let ghost view = blocks.deep_view();
            let count: usize = blocks.len();
            if count > 0 {
                blocks[count - 1].cache_control = Some(cc);
                assert(blocks.deep_view() =~= view.update(
                    view.len() - 1,
                    TextBlockView { cache_control: Some(cc.deep_view()), ..view.last() },
                ));
            }
        },
    }
}

/// Places a breakpoint on the last tool, where that is an object.
fn set_cache_on_last_tool(tools: &mut Vec<Value>, cc: &AnthropicCacheControl)
    ensures
        json_views(final(tools)@) == marked_tools(json_views(old(tools)@), cc.deep_view()),
{
    let ghost view = json_views(tools@);
    let count: usize = tools.len();
    if count > 0 && tools[count - 1].is_object() {
        let value = cache_control_value(cc);
        insert_member(&mut tools[count - 1], CACHE_CONTROL, value);
    }
    assert(json_views(tools@) =~= marked_tools(view, cc.deep_view()));
}

// ── Taking breakpoints away ──────────────────────────────────────────────────

/// Blocks without their first breakpoint.
pub open spec fn blocks_less_one(blocks: Seq<BlockView>) -> Seq<BlockView> {
    match first_index(blocks, |block: BlockView| block.is_marked()) {
        Some(i) => blocks.update(i, blocks[i].with_mark(None)),
        None => blocks,
    }
}

impl MessageView {
    /// The message without its first breakpoint.
    pub open spec fn less_one(self) -> MessageView {
        match self.content {
            ContentView::Text(_) => self,
            ContentView::Blocks(blocks) => MessageView {
                content: ContentView::Blocks(blocks_less_one(blocks)),
                ..self
            },
        }
    }
}

/// The first message with a breakpoint.
pub open spec fn first_marked_message(messages: Seq<MessageView>) -> Option<int> {
    first_index(messages, |message: MessageView| message.marks() > 0)
}

/// The first block of a system prompt with a breakpoint, the last block aside.
pub open spec fn first_spare_block(blocks: Seq<TextBlockView>) -> Option<int> {
    first_index(all_but_last(blocks), |block: TextBlockView| block.cache_control is Some)
}

/// The first tool with a breakpoint, the last tool aside.
pub open spec fn first_spare_tool(tools: Seq<JsonView>) -> Option<int> {
    first_index(all_but_last(tools), |tool: JsonView| is_marked_tool(tool))
}

/// A tool without its breakpoint.
pub open spec fn unmarked_tool(tool: JsonView) -> JsonView {
    match tool {
        JsonView::Object(members) => JsonView::Object(members.remove(CACHE_CONTROL@)),
        _ => tool,
    }
}

/// The request without one of its breakpoints: the first in the messages; without
/// any there, the first in the system prompt but for its last block; without any
/// there, the first in the tools but for the last one.
pub open spec fn less_one(request: RequestView) -> Option<RequestView> {
    match first_marked_message(request.messages) {
        Some(i) => Some(
            RequestView {
                messages: request.messages.update(i, request.messages[i].less_one()),
                ..request
            },
        ),
        None => {
            let spare = match request.system {
                Some(SystemView::Blocks(blocks)) => first_spare_block(blocks),
                _ => None,
            };
            match (request.system, spare) {
                (Some(SystemView::Blocks(blocks)), Some(i)) => Some(
                    RequestView {
                        system: Some(
                            SystemView::Blocks(
                                blocks.update(
                                    i,
                                    TextBlockView { cache_control: None, ..blocks[i] },
                                ),
                            ),
                        ),
                        ..request
                    },
                ),
                _ => match first_spare_tool(request.tools) {
                    Some(i) => Some(
                        RequestView {
                            tools: request.tools.update(i, unmarked_tool(request.tools[i])),
                            ..request
                        },
                    ),
                    None => None,
                },
            }
        },
    }
}

proof fn lemma_blocks_less_one(blocks: Seq<BlockView>)
    ensures
        block_marks(blocks) > 0 ==> block_marks(blocks_less_one(blocks)) + 1 == block_marks(blocks),
{
    let marked = |block: BlockView| block.is_marked();
    let count = |block: BlockView|
        if block.is_marked() {
            1nat
        } else {
            0
        };
    lemma_first_index_found(blocks, marked);
    lemma_total_zero(blocks, count);
    if let Some(i) = first_index(blocks, marked) {
        lemma_total_update(blocks, count, i, blocks[i].with_mark(None));
    }
}

/// Taking one breakpoint away leaves one fewer.
pub proof fn one_taken_away_leaves_one_fewer(request: RequestView)
    ensures
        less_one(request) matches Some(rest) ==> marks(rest) + 1 == marks(request),
{
    let message_count = |message: MessageView| message.marks();
    let marked_message = |message: MessageView| message.marks() > 0;
    lemma_first_index_found(request.messages, marked_message);
    if let Some(i) = first_marked_message(request.messages) {
        if let ContentView::Blocks(blocks) = request.messages[i].content {
            lemma_blocks_less_one(blocks);
        }
        lemma_total_update(request.messages, message_count, i, request.messages[i].less_one());
    } else {
        if let Some(SystemView::Blocks(blocks)) = request.system {
            let count = |block: TextBlockView|
                if block.cache_control is Some {
                    1nat
                } else {
                    0
                };
            lemma_first_index_found(
                all_but_last(blocks),
                |block: TextBlockView| block.cache_control is Some,
            );
            if let Some(i) = first_spare_block(blocks) {
                lemma_total_update(
                    blocks,
                    count,
                    i,
                    TextBlockView { cache_control: None, ..blocks[i] },
                );
            }
        }
        let count = |tool: JsonView|
            if is_marked_tool(tool) {
                1nat
            } else {
                0
            };
        lemma_first_index_found(
            all_but_last(request.tools),
            |tool: JsonView| is_marked_tool(tool),
        );
        if let Some(i) = first_spare_tool(request.tools) {
            lemma_total_update(request.tools, count, i, unmarked_tool(request.tools[i]));
        }
    }
}

/// The request with its breakpoints taken away one by one until at most `max` are
/// left, or none can be taken away.
pub open spec fn limited(request: RequestView, max: nat) -> RequestView
    decreases marks(request),
{
    if marks(request) > max {
        match less_one(request) {
            Some(rest) => {
                proof {
                    one_taken_away_leaves_one_fewer(request);
                }
                limited(rest, max)
            },
            None => request,
        }
    } else {
        request
    }
}

/// Finds the first message with a breakpoint.
fn first_message_breakpoint_index(messages: &[AnthropicMessageParam]) -> (r: Option<usize>)
    ensures
        first_marked_message(messages.deep_view()) == (match r {
            Some(i) => Some(i as int),
            None => None,
        }),
        r matches Some(i) ==> i < messages.len(),
{
    let ghost view = messages.deep_view();
    let ghost marked = |message: MessageView| message.marks() > 0;
    let mut i: usize = 0;
    while i < messages.len()
        invariant
            i <= messages.len(),
            view == messages.deep_view(),
            marked == |message: MessageView| message.marks() > 0,
            forall|j: int| 0 <= j < i ==> !marked(#[trigger] view[j]),
        decreases messages.len() - i,
    {
        let found = match &messages[i].content {
            AnthropicMessageContent::Blocks(blocks) => count_block_breakpoints(blocks.as_slice())
                > 0,
            AnthropicMessageContent::Text(_) => false,
        };
        if found {
            proof {
                lemma_first_index(view, marked, i as int);
            }
            return Some(i);
        }
        i = i + 1;
    }
    proof {
        lemma_first_index(view, marked, i as int);
    }
    None
}

/// Takes the first breakpoint of a message away.
fn clear_one_message_breakpoint(msg: &mut AnthropicMessageParam)
    ensures
        final(msg).deep_view() == old(msg).deep_view().less_one(),
{
    match &mut msg.content {
        AnthropicMessageContent::Text(_) => {},
        AnthropicMessageContent::Blocks(blocks) => clear_first_breakpoint(blocks),
    }
}

/// Takes the first breakpoint of blocks away.
fn clear_first_breakpoint(blocks: &mut Vec<AnthropicContentBlockParam>)
    ensures
        final(blocks).deep_view() == blocks_less_one(old(blocks).deep_view()),
{
    let ghost view = blocks.deep_view();
    let ghost marked = |block: BlockView| block.is_marked();
    let mut i: usize = 0;
    while i < blocks.len()
        invariant
            i <= blocks.len(),
            view == blocks.deep_view(),
            view == old(blocks).deep_view(),
            marked == |block: BlockView| block.is_marked(),
            forall|j: int| 0 <= j < i ==> !marked(#[trigger] view[j]),
        decreases blocks.len() - i,
    {
        if is_breakpoint(&blocks[i]) {
            match &mut blocks[i] {
                AnthropicContentBlockParam::Text { cache_control, .. } => {
                    *cache_control = None;
                },
                AnthropicContentBlockParam::Image { cache_control, .. } => {
                    *cache_control = None;
                },
                _ => {},
            }
            proof {
                lemma_first_index(view, marked, i as int);
                assert(blocks.deep_view() =~= blocks_less_one(view));
            }
            return;
        }
        i = i + 1;
    }
    proof {
        lemma_first_index(view, marked, i as int);
    }
}

/// Takes the first breakpoint of the blocks of a system prompt away, the last
/// block aside. Tells whether there was one.
fn clear_non_last_block_breakpoint(blocks: &mut Vec<AnthropicTextBlockParam>) -> (r: bool)
    ensures
        r == first_spare_block(old(blocks).deep_view()) is Some,
        final(blocks).deep_view() == (match first_spare_block(old(blocks).deep_view()) {
            Some(i) => old(blocks).deep_view().update(
                i,
                TextBlockView { cache_control: None, ..old(blocks).deep_view()[i] },
            ),
            None => old(blocks).deep_view(),
        }),
{
    let ghost view = blocks.deep_view();
    let ghost spare = all_but_last(view);
    let ghost marked = |block: TextBlockView| block.cache_control is Some;
    let last: usize = blocks.len().saturating_sub(1);
    let mut i: usize = 0;
    while i < last
        invariant
            i <= last,
            last == spare.len(),
            spare == all_but_last(view),
            view == blocks.deep_view(),
            view == old(blocks).deep_view(),
            marked == |block: TextBlockView| block.cache_control is Some,
            forall|j: int| 0 <= j < i ==> !marked(#[trigger] spare[j]),
        decreases last - i,
    {
        assert(spare[i as int] == view[i as int]);
        if blocks[i].cache_control.is_some() {
            blocks[i].cache_control = None;
            proof {
                lemma_first_index(spare, marked, i as int);
                assert(blocks.deep_view() =~= view.update(
                    i as int,
                    TextBlockView { cache_control: None, ..view[i as int] },
                ));
            }
            return true;
        }
        i = i + 1;
    }
    proof {
        lemma_first_index(spare, marked, i as int);
    }
    false
}

/// Takes the first breakpoint of tools away, the last tool aside. Tells whether
/// there was one.
fn clear_non_last_tool_breakpoint(tools: &mut Vec<Value>) -> (r: bool)
    ensures
        r == first_spare_tool(json_views(old(tools)@)) is Some,
        json_views(final(tools)@) == (match first_spare_tool(json_views(old(tools)@)) {
            Some(i) => json_views(old(tools)@).update(
                i,
                unmarked_tool(json_views(old(tools)@)[i]),
            ),
            None => json_views(old(tools)@),
        }),
{
    let ghost view = json_views(tools@);
    let ghost spare = all_but_last(view);
    let ghost marked = |tool: JsonView| is_marked_tool(tool);
    let last: usize = tools.len().saturating_sub(1);
    let mut i: usize = 0;
    while i < last
        invariant
            i <= last,
            last == spare.len(),
            spare == all_but_last(view),
            view == json_views(tools@),
            view == json_views(old(tools)@),
            marked == |tool: JsonView| is_marked_tool(tool),
            forall|j: int| 0 <= j < i ==> !marked(#[trigger] spare[j]),
        decreases last - i,
    {
        assert(spare[i as int] == view[i as int]);
        if has_member(&tools[i], CACHE_CONTROL) {
            remove_member(&mut tools[i], CACHE_CONTROL);
            proof {
                lemma_first_index(spare, marked, i as int);
                assert(json_views(tools@) =~= view.update(
                    i as int,
                    unmarked_tool(view[i as int]),
                ));
            }
            return true;
        }
        i = i + 1;
    }
    proof {
        lemma_first_index(spare, marked, i as int);
    }
    false
}

/// Takes one breakpoint away. Tells whether there was one to take.
fn clear_one_breakpoint(request: &mut AnthropicMessagesRequest) -> (r: bool)
    ensures
        r == less_one(old(request).deep_view()) is Some,
        final(request).deep_view() == (match less_one(old(request).deep_view()) {
            Some(rest) => rest,
            None => old(request).deep_view(),
        }),
{
    let ghost view = request.deep_view();
    if let Some(i) = first_message_breakpoint_index(request.messages.as_slice()) {
        clear_one_message_breakpoint(&mut request.messages[i]);
        assert(request.messages.deep_view() =~= view.messages.update(
            i as int,
            view.messages[i as int].less_one(),
        ));
        return true;
    }
    if let Some(AnthropicSystemPrompt::Blocks(blocks)) = &mut request.system {
        if clear_non_last_block_breakpoint(blocks) {
            return true;
        }
    }
    clear_non_last_tool_breakpoint(&mut request.tools)
}

/// Takes breakpoints away one by one until at most `max` are left, or none can be
/// taken away.
fn enforce_cache_control_limit(request: &mut AnthropicMessagesRequest, max: usize)
    requires
        max < usize::MAX,
    ensures
        final(request).deep_view() == limited(old(request).deep_view(), max as nat),
{
    while count_breakpoints(request) > max
        invariant
            max < usize::MAX,
            limited(request.deep_view(), max as nat) == limited(
                old(request).deep_view(),
                max as nat,
            ),
        decreases marks(request.deep_view()),
    {
        proof {
            one_taken_away_leaves_one_fewer(request.deep_view());
        }
        if !clear_one_breakpoint(request) {
            return;
        }
    }
}

/// Places the breakpoints of a policy on a request, and takes away what is then
/// too many. To be called when the request is complete.
pub fn apply_prompt_caching(request: &mut AnthropicMessagesRequest, policy: PromptCachingPolicy)
    ensures
        final(request).deep_view() == limited(
            marked_request(old(request).deep_view(), policy),
            MAX_CACHE_BREAKPOINTS as nat,
        ),
{
    let ghost view = request.deep_view();
    let cc = ephemeral_cache_control();
    if policy == PromptCachingPolicy::Full {
        if let Some(system) = &mut request.system {
            set_cache_on_system(system, cc.clone());
        }
    }
    if policy != PromptCachingPolicy::Disabled {
        set_cache_on_last_tool(&mut request.tools, &cc);
    }
    if policy == PromptCachingPolicy::Full {
        let count: usize = request.messages.len();
        let mut i: usize = count.saturating_sub(2);
        let ghost messages = marked_messages(view.messages, ephemeral());
        let ghost before = request.deep_view();
        while i < count
            invariant
                i <= count == request.messages.len() == view.messages.len(),
                i + 2 >= count,
                cc.deep_view() == ephemeral(),
                messages == marked_messages(view.messages, ephemeral()),
                forall|j: int|
                    0 <= j < count ==> #[trigger] request.messages.deep_view()[j] == (if j < i {
                        messages[j]
                    } else {
                        view.messages[j]
                    }),
                request.deep_view() == (RequestView {
                    messages: request.messages.deep_view(),
                    ..before
                }),
            decreases count - i,
        {
            let ghost earlier = request.messages.deep_view();
            assert(earlier[i as int] == view.messages[i as int]);
            set_cache_on_message(&mut request.messages[i], cc.clone());
            assert(request.messages.deep_view() =~= earlier.update(
                i as int,
                view.messages[i as int].marked(ephemeral()),
            ));
            i = i + 1;
        }
        assert(request.messages.deep_view() =~= messages);
    }
    assert(request.deep_view() == marked_request(view, policy));
    enforce_cache_control_limit(request, MAX_CACHE_BREAKPOINTS);
}

// ── Laws ─────────────────────────────────────────────────────────────────────

proof fn lemma_spare_blocks(blocks: Seq<TextBlockView>)
    requires
        first_spare_block(blocks) is None,
    ensures
        text_block_marks(blocks) <= 1,
{
    let count = |block: TextBlockView|
        if block.cache_control is Some {
            1nat
        } else {
            0
        };
    if blocks.len() > 0 {
        lemma_first_index_found(
            all_but_last(blocks),
            |block: TextBlockView| block.cache_control is Some,
        );
        lemma_total_zero(blocks.drop_last(), count);
    }
}

proof fn lemma_spare_tools(tools: Seq<JsonView>)
    requires
        first_spare_tool(tools) is None,
    ensures
        tool_marks(tools) <= 1,
{
    let count = |tool: JsonView|
        if is_marked_tool(tool) {
            1nat
        } else {
            0
        };
    if tools.len() > 0 {
        lemma_first_index_found(all_but_last(tools), |tool: JsonView| is_marked_tool(tool));
        lemma_total_zero(tools.drop_last(), count);
    }
}

proof fn lemma_nothing_to_take(request: RequestView)
    requires
        less_one(request) is None,
    ensures
        marks(request) <= 2,
{
    lemma_first_index_found(request.messages, |message: MessageView| message.marks() > 0);
    lemma_total_zero(request.messages, |message: MessageView| message.marks());
    if let Some(SystemView::Blocks(blocks)) = request.system {
        lemma_spare_blocks(blocks);
    }
    lemma_spare_tools(request.tools);
}

/// A limit of two or more is always met, and no breakpoint is taken away beyond
/// what it asks for.
pub proof fn limit_is_met_exactly(request: RequestView, max: nat)
    requires
        max >= 2,
    ensures
        marks(limited(request, max)) == (if marks(request) <= max {
            marks(request)
        } else {
            max
        }),
    decreases marks(request),
{
    if marks(request) > max {
        one_taken_away_leaves_one_fewer(request);
        if less_one(request) is None {
            lemma_nothing_to_take(request);
        } else {
            limit_is_met_exactly(less_one(request)->0, max);
        }
    }
}

/// Whatever the request and the policy, at most four breakpoints are left, and all of them
/// where there are no more than four.
pub proof fn at_most_four_breakpoints(request: RequestView, policy: PromptCachingPolicy)
    ensures
        ({
            let marked = marked_request(request, policy);
            marks(limited(marked, MAX_CACHE_BREAKPOINTS as nat)) == (if marks(marked) <= 4 {
                marks(marked)
            } else {
                4
            })
        }),
{
    limit_is_met_exactly(marked_request(request, policy), MAX_CACHE_BREAKPOINTS as nat);
}

/// Without caching, a request within the limit stays as it is.
pub proof fn disabled_leaves_request_untouched(request: RequestView)
    requires
        marks(request) <= MAX_CACHE_BREAKPOINTS,
    ensures
        limited(
            marked_request(request, PromptCachingPolicy::Disabled),
            MAX_CACHE_BREAKPOINTS as nat,
        ) == request,
{
}

/// With the last breakpoint only, a request that stays within the limit changes in its
/// last tool alone. Where it had no breakpoint, it then has that one, if the tool is an
/// object.
pub proof fn last_breakpoint_only_changes_the_last_tool(request: RequestView)
    requires
        marks(marked_request(request, PromptCachingPolicy::LastBreakpointOnly))
            <= MAX_CACHE_BREAKPOINTS,
    ensures
        ({
            let r = limited(
                marked_request(request, PromptCachingPolicy::LastBreakpointOnly),
                MAX_CACHE_BREAKPOINTS as nat,
            );
            &&& r == (RequestView { tools: r.tools, ..request })
            &&& r.tools.len() == request.tools.len()
            &&& all_but_last(r.tools) == all_but_last(request.tools)
            &&& marks(request) == 0 ==> marks(r) == (if request.tools.len() > 0
                && request.tools.last() is Object {
                1nat
            } else {
                0
            })
        }),
{
    let marked = marked_request(request, PromptCachingPolicy::LastBreakpointOnly);
    if marks(request) == 0 {
        lemma_marked_tools(request.tools);
    }
    assert(all_but_last(marked.tools) =~= all_but_last(request.tools));
}

proof fn lemma_marked_tools(tools: Seq<JsonView>)
    requires
        tool_marks(tools) == 0,
    ensures
        tool_marks(marked_tools(tools, ephemeral())) == (if tools.len() > 0
            && tools.last() is Object {
            1nat
        } else {
            0
        }),
{
    let count = |tool: JsonView|
        if is_marked_tool(tool) {
            1nat
        } else {
            0
        };
    if tools.len() > 0 {
        if let JsonView::Object(members) = tools.last() {
            lemma_total_update(
                tools,
                count,
                tools.len() - 1,
                JsonView::Object(members.insert(CACHE_CONTROL@, cache_control_json(ephemeral()))),
            );
        }
    }
}

impl MessageView {
    /// Whether a message has something that can be a breakpoint.
    pub open spec fn is_markable(self) -> bool {
        match self.content {
            ContentView::Text(_) => true,
            ContentView::Blocks(blocks) => exists|i: int|
                0 <= i < blocks.len() && (#[trigger] blocks[i]).is_markable(),
        }
    }
}

proof fn lemma_marked_message(message: MessageView)
    requires
        message.marks() == 0,
        message.is_markable(),
    ensures
        message.marked(ephemeral()).marks() == 1,
{
    let count = |block: BlockView|
        if block.is_marked() {
            1nat
        } else {
            0
        };
    let markable = |block: BlockView| block.is_markable();
    match message.content {
        ContentView::Text(text) => {
            let blocks = seq![BlockView::Text { text, cache_control: Some(ephemeral()) }];
            assert(blocks.drop_last() =~= Seq::empty());
            reveal_with_fuel(total, 2);
        },
        ContentView::Blocks(blocks) => {
            lemma_last_index_found(blocks, markable);
            let i = choose|i: int| 0 <= i < blocks.len() && (#[trigger] blocks[i]).is_markable();
            lemma_last_index_exists(blocks, markable, i);
            let found = last_index(blocks, markable)->0;
            lemma_total_zero(blocks, count);
            assert(count(blocks[found]) == 0);
            lemma_total_update(
                blocks,
                count,
                found,
                blocks[found].with_mark(Some(ephemeral())),
            );
        },
    }
}

/// With full caching, a request without breakpoints that has a system prompt, tools
/// and two messages to mark gets all four.
pub proof fn full_places_all_four(request: RequestView)
    requires
        marks(request) == 0,
        request.system matches Some(system) && (system matches SystemView::Blocks(blocks)
            ==> blocks.len() > 0),
        request.tools.len() > 0,
        request.tools.last() is Object,
        request.messages.len() >= 2,
        request.messages[request.messages.len() - 1].is_markable(),
        request.messages[request.messages.len() - 2].is_markable(),
    ensures
        ({
            let r = limited(
                marked_request(request, PromptCachingPolicy::Full),
                MAX_CACHE_BREAKPOINTS as nat,
            );
            &&& r == marked_request(request, PromptCachingPolicy::Full)
            &&& marks(r) == 4
            &&& system_marks(r.system) == 1
            &&& tool_marks(r.tools) == 1
            &&& message_marks(r.messages) == 2
        }),
{
    let marked = marked_request(request, PromptCachingPolicy::Full);
    let messages = request.messages;
    let n = messages.len() as int;
    let count = |message: MessageView| message.marks();
    let block_count = |block: TextBlockView|
        if block.cache_control is Some {
            1nat
        } else {
            0
        };
    lemma_marked_tools(request.tools);
    match request.system->0 {
        SystemView::Text(text) => {
            let blocks = seq![TextBlockView { text, cache_control: Some(ephemeral()) }];
            assert(blocks.drop_last() =~= Seq::empty());
            reveal_with_fuel(total, 2);
        },
        SystemView::Blocks(blocks) => {
            lemma_total_update(
                blocks,
                block_count,
                blocks.len() - 1,
                TextBlockView { cache_control: Some(ephemeral()), ..blocks.last() },
            );
        },
    }
    lemma_total_zero(messages, count);
    assert(count(messages[n - 1]) == 0);
    assert(count(messages[n - 2]) == 0);
    lemma_marked_message(messages[n - 1]);
    lemma_marked_message(messages[n - 2]);
    let once = messages.update(n - 2, messages[n - 2].marked(ephemeral()));
    lemma_total_update(messages, count, n - 2, messages[n - 2].marked(ephemeral()));
    lemma_total_update(once, count, n - 1, messages[n - 1].marked(ephemeral()));
    assert(marked.messages =~= once.update(n - 1, messages[n - 1].marked(ephemeral())));
}

/// The breakpoints on the last system block and on the last tool are never taken
/// away.
pub proof fn prefix_breakpoints_survive(request: RequestView, max: nat)
    ensures
        ({
            let r = limited(request, max);
            &&& r.tools.len() == request.tools.len()
            &&& request.tools.len() > 0 ==> r.tools.last() == request.tools.last()
            &&& match request.system {
                Some(SystemView::Blocks(blocks)) => r.system matches Some(SystemView::Blocks(rest))
                    && rest.len() == blocks.len() && (blocks.len() > 0 ==> rest.last()
                    == blocks.last()),
                _ => r.system == request.system,
            }
        }),
    decreases marks(request),
{
    if marks(request) > max && less_one(request) is Some {
        one_taken_away_leaves_one_fewer(request);
        prefix_breakpoints_survive(less_one(request)->0, max);
        if let Some(SystemView::Blocks(blocks)) = request.system {
            lemma_first_index_found(
                all_but_last(blocks),
                |block: TextBlockView| block.cache_control is Some,
            );
        }
        lemma_first_index_found(
            all_but_last(request.tools),
            |tool: JsonView| is_marked_tool(tool),
        );
    }
}

/// Breakpoints are taken from the messages first: as long as one is left there, the
/// system prompt and the tools keep all of theirs.
pub proof fn messages_give_way_first(request: RequestView, max: nat)
    ensures
        ({
            let r = limited(request, max);
            &&& message_marks(r.messages) <= message_marks(request.messages)
            &&& message_marks(r.messages) > 0 ==> r.system == request.system && r.tools
                == request.tools
        }),
    decreases marks(request),
{
    if marks(request) > max && less_one(request) is Some {
        let rest = less_one(request)->0;
        let count = |message: MessageView| message.marks();
        one_taken_away_leaves_one_fewer(request);
        messages_give_way_first(rest, max);
        lemma_first_index_found(request.messages, |message: MessageView| message.marks() > 0);
        if first_marked_message(request.messages) is None {
            lemma_total_zero(request.messages, count);
        }
    }
}

/// A message apart from its breakpoints. Plain text and a single block with that
/// text are the same.
pub open spec fn unmarked_message(message: MessageView) -> MessageView {
    MessageView {
        content: ContentView::Blocks(
            match message.content {
                ContentView::Text(text) => seq![BlockView::Text { text, cache_control: None }],
                ContentView::Blocks(blocks) => blocks.map_values(
                    |block: BlockView| block.with_mark(None),
                ),
            },
        ),
        ..message
    }
}

/// A system prompt apart from its breakpoints. Plain text and a single block with
/// that text are the same.
pub open spec fn unmarked_system(system: SystemView) -> SystemView {
    SystemView::Blocks(
        match system {
            SystemView::Text(text) => seq![TextBlockView { text, cache_control: None }],
            SystemView::Blocks(blocks) => blocks.map_values(
                |block: TextBlockView| TextBlockView { cache_control: None, ..block },
            ),
        },
    )
}

/// A request apart from its breakpoints.
pub open spec fn unmarked(request: RequestView) -> RequestView {
    RequestView {
        system: match request.system {
            Some(system) => Some(unmarked_system(system)),
            None => None,
        },
        tools: request.tools.map_values(|tool: JsonView| unmarked_tool(tool)),
        messages: request.messages.map_values(|message: MessageView| unmarked_message(message)),
        ..request
    }
}

proof fn lemma_marked_message_content(message: MessageView)
    ensures
        unmarked_message(message.marked(ephemeral())) == unmarked_message(message),
{
    match message.content {
        ContentView::Text(text) => {
            let blocks = seq![BlockView::Text { text, cache_control: Some(ephemeral()) }];
            assert(blocks.map_values(|block: BlockView| block.with_mark(None)) =~= seq![
                BlockView::Text { text, cache_control: None },
            ]);
        },
        ContentView::Blocks(blocks) => {
            lemma_last_index_found(blocks, |block: BlockView| block.is_markable());
            assert(marked_blocks(blocks, ephemeral()).map_values(
                |block: BlockView| block.with_mark(None),
            ) =~= blocks.map_values(|block: BlockView| block.with_mark(None)));
        },
    }
}

proof fn lemma_marked_request_content(request: RequestView, policy: PromptCachingPolicy)
    ensures
        unmarked(marked_request(request, policy)) == unmarked(request),
{
    let marked = marked_request(request, policy);
    let tool_content = |tool: JsonView| unmarked_tool(tool);
    let message_content = |message: MessageView| unmarked_message(message);
    if request.tools.len() > 0 {
        if let JsonView::Object(members) = request.tools.last() {
            assert(members.insert(CACHE_CONTROL@, cache_control_json(ephemeral())).remove(
                CACHE_CONTROL@,
            ) =~= members.remove(CACHE_CONTROL@));
        }
    }
    assert(marked_tools(request.tools, ephemeral()).map_values(tool_content)
        =~= request.tools.map_values(tool_content));
    if policy == PromptCachingPolicy::Full {
        assert forall|i: int| 0 <= i < request.messages.len() implies message_content(
            #[trigger] marked.messages[i],
        ) == message_content(request.messages[i]) by {
            lemma_marked_message_content(request.messages[i]);
        }
        assert(marked.messages.map_values(message_content) =~= request.messages.map_values(
            message_content,
        ));
        match request.system {
            Some(SystemView::Text(text)) => {
                let blocks = seq![TextBlockView { text, cache_control: Some(ephemeral()) }];
                assert(blocks.map_values(
                    |block: TextBlockView| TextBlockView { cache_control: None, ..block },
                ) =~= seq![TextBlockView { text, cache_control: None }]);
            },
            Some(SystemView::Blocks(blocks)) => {
                if blocks.len() > 0 {
                    let last = TextBlockView {
                        cache_control: Some(ephemeral()),
                        ..blocks.last()
                    };
                    assert(blocks.update(blocks.len() - 1, last).map_values(
                        |block: TextBlockView| TextBlockView { cache_control: None, ..block },
                    ) =~= blocks.map_values(
                        |block: TextBlockView| TextBlockView { cache_control: None, ..block },
                    ));
                }
            },
            None => {},
        }
    }
}

proof fn lemma_less_one_content(request: RequestView)
    ensures
        less_one(request) matches Some(rest) ==> unmarked(rest) == unmarked(request),
{
    let tool_content = |tool: JsonView| unmarked_tool(tool);
    let message_content = |message: MessageView| unmarked_message(message);
    lemma_first_index_found(request.messages, |message: MessageView| message.marks() > 0);
    if let Some(i) = first_marked_message(request.messages) {
        let message = request.messages[i];
        if let ContentView::Blocks(blocks) = message.content {
            lemma_first_index_found(blocks, |block: BlockView| block.is_marked());
            assert(blocks_less_one(blocks).map_values(|block: BlockView| block.with_mark(None))
                =~= blocks.map_values(|block: BlockView| block.with_mark(None)));
        }
        assert(unmarked_message(message.less_one()) == unmarked_message(message));
        assert(request.messages.update(i, message.less_one()).map_values(message_content)
            =~= request.messages.map_values(message_content));
    } else {
        if let Some(SystemView::Blocks(blocks)) = request.system {
            lemma_first_index_found(
                all_but_last(blocks),
                |block: TextBlockView| block.cache_control is Some,
            );
            if let Some(i) = first_spare_block(blocks) {
                assert(blocks.update(
                    i,
                    TextBlockView { cache_control: None, ..blocks[i] },
                ).map_values(
                    |block: TextBlockView| TextBlockView { cache_control: None, ..block },
                ) =~= blocks.map_values(
                    |block: TextBlockView| TextBlockView { cache_control: None, ..block },
                ));
            }
        }
        lemma_first_index_found(
            all_but_last(request.tools),
            |tool: JsonView| is_marked_tool(tool),
        );
        if let Some(i) = first_spare_tool(request.tools) {
            let tool = request.tools[i];
            if let JsonView::Object(members) = tool {
                assert(members.remove(CACHE_CONTROL@).remove(CACHE_CONTROL@) =~= members.remove(
                    CACHE_CONTROL@,
                ));
            }
            assert(request.tools.update(i, unmarked_tool(tool)).map_values(tool_content)
                =~= request.tools.map_values(tool_content));
        }
    }
}

proof fn lemma_limited_content(request: RequestView, max: nat)
    ensures
        unmarked(limited(request, max)) == unmarked(request),
    decreases marks(request),
{
    if marks(request) > max && less_one(request) is Some {
        one_taken_away_leaves_one_fewer(request);
        lemma_less_one_content(request);
        lemma_limited_content(less_one(request)->0, max);
    }
}

/// Whatever the policy, a request changes in its breakpoints alone.
pub proof fn caching_changes_breakpoints_alone(request: RequestView, policy: PromptCachingPolicy)
    ensures
        unmarked(limited(marked_request(request, policy), MAX_CACHE_BREAKPOINTS as nat))
            == unmarked(request),
{
    lemma_marked_request_content(request, policy);
    lemma_limited_content(marked_request(request, policy), MAX_CACHE_BREAKPOINTS as nat);
}

/// Whether blocks are others with breakpoints taken away from the front: one that is
/// missing has none before it.
spec fn blocks_cleared(rest: Seq<BlockView>, all: Seq<BlockView>) -> bool {
    &&& rest.len() == all.len()
    &&& forall|b: int|
        0 <= b < all.len() && #[trigger] rest[b] != all[b] ==> all[b].is_marked() && rest[b]
            == all[b].with_mark(None) && forall|c: int|
            0 <= c < b ==> !(#[trigger] rest[c]).is_marked()
}

/// Whether a message is another with breakpoints taken away from the front.
spec fn message_cleared(rest: MessageView, all: MessageView) -> bool {
    rest == all || (rest.role == all.role && match (rest.content, all.content) {
        (ContentView::Blocks(r), ContentView::Blocks(a)) => blocks_cleared(r, a),
        _ => false,
    })
}

/// Whether messages are others with breakpoints taken away from the front.
spec fn messages_cleared(rest: Seq<MessageView>, all: Seq<MessageView>) -> bool {
    &&& rest.len() == all.len()
    &&& forall|i: int| 0 <= i < all.len() ==> message_cleared(#[trigger] rest[i], all[i])
    &&& forall|i: int, k: int|
        #![trigger rest[i], rest[k]]
        0 <= k < i < all.len() && rest[i] != all[i] ==> rest[k].marks() == 0
}

proof fn lemma_message_less_one_cleared(message: MessageView, all: MessageView)
    requires
        message_cleared(message, all),
        message.marks() > 0,
    ensures
        message_cleared(message.less_one(), all),
{
    let marked = |block: BlockView| block.is_marked();
    let blocks = message.content->Blocks_0;
    let all_blocks = all.content->Blocks_0;
    let rest = blocks_less_one(blocks);
    lemma_first_index_found(blocks, marked);
    if let Some(found) = first_index(blocks, marked) {
        assert(blocks_cleared(blocks, all_blocks));
        assert forall|b: int|
            0 <= b < all_blocks.len() && #[trigger] rest[b] != all_blocks[b] implies
            all_blocks[b].is_marked() && rest[b] == all_blocks[b].with_mark(None) && forall|c: int|
            0 <= c < b ==> !(#[trigger] rest[c]).is_marked() by {
            if b == found {
                if blocks[b] != all_blocks[b] {
                    assert(!blocks[b].is_marked());
                }
                assert forall|c: int| 0 <= c < b implies !(#[trigger] rest[c]).is_marked() by {
                    assert(!marked(blocks[c]));
                }
            } else {
                assert(rest[b] == blocks[b]);
                assert forall|c: int| 0 <= c < b implies !(#[trigger] rest[c]).is_marked() by {
                    assert(!blocks[c].is_marked());
                }
            }
        }
    }
}

proof fn lemma_less_one_cleared(request: RequestView, all: Seq<MessageView>)
    requires
        messages_cleared(request.messages, all),
        less_one(request) is Some,
    ensures
        messages_cleared(less_one(request)->0.messages, all),
{
    let messages = request.messages;
    let rest = less_one(request)->0.messages;
    let marked = |message: MessageView| message.marks() > 0;
    lemma_first_index_found(messages, marked);
    if let Some(found) = first_marked_message(messages) {
        let message = messages[found];
        assert(marked(message));
        lemma_message_less_one_cleared(message, all[found]);
        lemma_blocks_less_one(message.content->Blocks_0);
        assert forall|i: int| 0 <= i < all.len() implies message_cleared(
            #[trigger] rest[i],
            all[i],
        ) by {
            if i != found {
                assert(rest[i] == messages[i]);
            }
        }
        assert forall|i: int, k: int|
            #![trigger rest[i], rest[k]]
            0 <= k < i < all.len() && rest[i] != all[i] implies rest[k].marks() == 0 by {
            if i == found {
                assert(!marked(messages[k]));
            } else {
                assert(rest[i] == messages[i]);
                assert(messages[k].marks() == 0);
            }
        }
    }
}

proof fn lemma_limited_cleared(request: RequestView, all: Seq<MessageView>, max: nat)
    requires
        messages_cleared(request.messages, all),
    ensures
        messages_cleared(limited(request, max).messages, all),
    decreases marks(request),
{
    if marks(request) > max && less_one(request) is Some {
        one_taken_away_leaves_one_fewer(request);
        lemma_less_one_cleared(request, all);
        lemma_limited_cleared(less_one(request)->0, all, max);
    }
}

/// A breakpoint that is placed before all others in the messages is the first to go.
proof fn lemma_placed_first(request: RequestView, i: int)
    requires
        0 <= i < request.messages.len(),
        forall|k: int| 0 <= k <= i ==> (#[trigger] request.messages[k]).marks() == 0,
        request.messages[i].content is Blocks,
        request.messages[i].marked(ephemeral()) != request.messages[i],
    ensures
        ({
            let placed = RequestView {
                messages: request.messages.update(i, request.messages[i].marked(ephemeral())),
                ..request
            };
            less_one(placed) == Some(request) && marks(placed) == marks(request) + 1
        }),
{
    let message = request.messages[i];
    let blocks = message.content->Blocks_0;
    let placed_message = message.marked(ephemeral());
    let placed = RequestView {
        messages: request.messages.update(i, placed_message),
        ..request
    };
    let markable = |block: BlockView| block.is_markable();
    let marked_block = |block: BlockView| block.is_marked();
    let marked = |message: MessageView| message.marks() > 0;
    let count = |block: BlockView|
        if block.is_marked() {
            1nat
        } else {
            0
        };
    lemma_last_index_found(blocks, markable);
    let found = last_index(blocks, markable)->0;
    assert(last_index(blocks, markable) is Some);
    let placed_blocks = marked_blocks(blocks, ephemeral());
    lemma_total_zero(blocks, count);
    assert forall|b: int| 0 <= b < blocks.len() implies !(#[trigger] blocks[b]).is_marked() by {
        assert(count(blocks[b]) == 0);
    }
    lemma_total_update(blocks, count, found, blocks[found].with_mark(Some(ephemeral())));
    assert(placed_blocks[found].is_marked());
    lemma_first_index(placed_blocks, marked_block, found);
    assert(placed_blocks[found].with_mark(None) == blocks[found]);
    assert(blocks_less_one(placed_blocks) =~= blocks);
    assert(placed_message.marks() == 1);
    assert(placed_message.less_one() == message);
    lemma_first_index(placed.messages, marked, i);
    assert(placed.messages.update(i, message) =~= request.messages);
    one_taken_away_leaves_one_fewer(placed);
}

proof fn lemma_limited_undoes(request: RequestView, rest: RequestView, max: nat)
    requires
        less_one(request) == Some(rest),
        marks(request) > max,
    ensures
        limited(request, max) == limited(rest, max),
{
}

/// A message that was marked and then cleared from the front either still has the
/// breakpoint, or has none at all.
proof fn lemma_marked_then_cleared(before: MessageView, rest: MessageView)
    requires
        message_cleared(rest, before.marked(ephemeral())),
    ensures
        rest.content is Blocks,
        rest.marked(ephemeral()) != rest ==> rest.marks() == 0 && rest != before.marked(
            ephemeral(),
        ),
{
    let markable = |block: BlockView| block.is_markable();
    let count = |block: BlockView|
        if block.is_marked() {
            1nat
        } else {
            0
        };
    let all = before.marked(ephemeral()).content->Blocks_0;
    let blocks = rest.content->Blocks_0;
    if rest == before.marked(ephemeral()) {
        lemma_marking_twice(before);
    } else {
        assert(blocks_cleared(blocks, all));
        lemma_marking_twice(before);
        lemma_last_index_found(all, markable);
        assert forall|b: int| 0 <= b < all.len() implies (#[trigger] blocks[b]).is_markable()
            == all[b].is_markable() by {
        }
        match last_index(all, markable) {
            Some(found) => {
                lemma_last_index_rest(all, markable);
                assert forall|b: int| found < b < blocks.len() implies !markable(
                    #[trigger] blocks[b],
                ) by {
                    assert(!markable(all[b]));
                }
                lemma_last_index(blocks, markable, found);
                if blocks[found] == all[found] {
                    assert(all[found].with_mark(Some(ephemeral())) == all[found]);
                    assert(marked_blocks(blocks, ephemeral()) =~= blocks);
                } else {
                    assert forall|b: int| 0 <= b < blocks.len() implies count(
                        #[trigger] blocks[b],
                    ) == 0 by {
                        if b > found {
                            assert(!markable(blocks[b]));
                        }
                    }
                    lemma_total_zero(blocks, count);
                }
            },
            None => {
                lemma_last_index_rest(all, markable);
                assert forall|b: int| -1 < b < blocks.len() implies !markable(
                    #[trigger] blocks[b],
                ) by {
                    assert(!markable(all[b]));
                }
                lemma_last_index(blocks, markable, -1);
            },
        }
    }
}

proof fn lemma_marking_twice(message: MessageView)
    ensures
        message.marked(ephemeral()).marked(ephemeral()) == message.marked(ephemeral()),
        ({
            let blocks = message.marked(ephemeral()).content->Blocks_0;
            last_index(blocks, |block: BlockView| block.is_markable()) matches Some(found)
                ==> 0 <= found < blocks.len() && blocks[found].with_mark(Some(ephemeral()))
                == blocks[found]
        }),
{
    let markable = |block: BlockView| block.is_markable();
    let all = message.marked(ephemeral()).content->Blocks_0;
    match message.content {
        ContentView::Text(text) => {
            lemma_last_index(all, markable, 0);
            assert(marked_blocks(all, ephemeral()) =~= all);
        },
        ContentView::Blocks(blocks) => {
            lemma_last_index_found(blocks, markable);
            lemma_last_index_rest(blocks, markable);
            match last_index(blocks, markable) {
                Some(found) => {
                    assert forall|b: int| found < b < all.len() implies !markable(
                        #[trigger] all[b],
                    ) by {
                        assert(!markable(blocks[b]));
                    }
                    lemma_last_index(all, markable, found);
                    assert(marked_blocks(all, ephemeral()) =~= all);
                },
                None => {},
            }
        },
    }
}

/// Marking what was marked and limited before changes the system prompt and the tools no
/// more.
proof fn lemma_prefix_marked_twice(request: RequestView, policy: PromptCachingPolicy)
    ensures
        ({
            let once = limited(marked_request(request, policy), MAX_CACHE_BREAKPOINTS as nat);
            marked_request(once, policy) == (RequestView {
                messages: marked_request(once, policy).messages,
                ..once
            })
        }),
{
    let marked = marked_request(request, policy);
    let once = limited(marked, MAX_CACHE_BREAKPOINTS as nat);
    let twice = marked_request(once, policy);
    prefix_breakpoints_survive(marked, MAX_CACHE_BREAKPOINTS as nat);
    if policy != PromptCachingPolicy::Disabled && once.tools.len() > 0 {
        if let JsonView::Object(members) = request.tools.last() {
            let placed = members.insert(CACHE_CONTROL@, cache_control_json(ephemeral()));
            assert(marked.tools.last() == JsonView::Object(placed));
            assert(placed.insert(CACHE_CONTROL@, cache_control_json(ephemeral())) =~= placed);
        }
        assert(twice.tools =~= once.tools);
    }
    if policy == PromptCachingPolicy::Full {
        if let Some(SystemView::Blocks(blocks)) = once.system {
            if blocks.len() > 0 {
                assert(marked_system(SystemView::Blocks(blocks), ephemeral())->Blocks_0 =~= blocks);
            }
        }
    }
}

/// For every request and every policy, applying the policy to its own result changes
/// nothing.
pub proof fn caching_twice_is_caching_once(request: RequestView, policy: PromptCachingPolicy)
    ensures
        ({
            let once = limited(marked_request(request, policy), MAX_CACHE_BREAKPOINTS as nat);
            limited(marked_request(once, policy), MAX_CACHE_BREAKPOINTS as nat) == once
        }),
{
    let max = MAX_CACHE_BREAKPOINTS as nat;
    let marked = marked_request(request, policy);
    let once = limited(marked, max);
    let twice = marked_request(once, policy);
    limit_is_met_exactly(marked, max);
    lemma_prefix_marked_twice(request, policy);
    if policy == PromptCachingPolicy::Full {
        lemma_limited_cleared(marked, marked.messages, max);
        let messages = once.messages;
        let n = messages.len() as int;
        let cc = ephemeral();
        assert forall|i: int| 0 <= i < n && i + 2 >= n implies (
        #[trigger] messages[i]).content is Blocks && (messages[i].marked(cc) != messages[i] ==> messages[i].marks() == 0 && messages[i]
            != marked.messages[i]) by {
            assert(message_cleared(messages[i], marked.messages[i]));
            lemma_marked_then_cleared(request.messages[i], messages[i]);
        }
        let last_needs = n >= 1 && messages[n - 1].marked(cc) != messages[n - 1];
        let other_needs = n >= 2 && messages[n - 2].marked(cc) != messages[n - 2];
        if last_needs {
            assert forall|k: int| 0 <= k <= n - 1 implies (#[trigger] messages[k]).marks() == 0 by {
            }
            lemma_placed_first(once, n - 1);
            let placed = RequestView {
                messages: messages.update(n - 1, messages[n - 1].marked(cc)),
                ..once
            };
            lemma_limited_undoes(placed, once, max);
            if other_needs {
                assert forall|k: int| 0 <= k <= n - 2 implies (
                #[trigger] placed.messages[k]).marks() == 0 by {
                    assert(placed.messages[k] == messages[k]);
                }
                lemma_placed_first(placed, n - 2);
                let both = RequestView {
                    messages: placed.messages.update(n - 2, messages[n - 2].marked(cc)),
                    ..placed
                };
                lemma_limited_undoes(both, placed, max);
                assert(twice.messages =~= both.messages);
            } else {
                assert(twice.messages =~= placed.messages);
            }
        } else if other_needs {
            assert forall|k: int| 0 <= k <= n - 2 implies (#[trigger] messages[k]).marks() == 0 by {
            }
            lemma_placed_first(once, n - 2);
            let placed = RequestView {
                messages: messages.update(n - 2, messages[n - 2].marked(cc)),
                ..once
            };
            lemma_limited_undoes(placed, once, max);
            assert(twice.messages =~= placed.messages);
        } else {
            assert(twice.messages =~= messages);
        }
    }
}

/// The breakpoint that is placed: short-lived, without a time to live.
pub open spec fn placed_mark() -> CacheControlView {
    CacheControlView { cache_type: "ephemeral"@, ttl: None }
}

/// Whether a block holds no breakpoint.
pub open spec fn is_bare_block(block: BlockView) -> bool {
    match block {
        BlockView::Text { cache_control, .. } => cache_control is None,
        BlockView::Image { cache_control, .. } => cache_control is None,
        _ => true,
    }
}

/// Whether no block of a message holds a breakpoint.
pub open spec fn is_bare(message: MessageView) -> bool {
    match message.content {
        ContentView::Text(_) => true,
        ContentView::Blocks(blocks) => forall|k: int|
            0 <= k < blocks.len() ==> is_bare_block(#[trigger] blocks[k]),
    }
}

/// Whether a tool holds no breakpoint.
pub open spec fn is_bare_tool(tool: JsonView) -> bool {
    tool matches JsonView::Object(members) ==> !members.contains_key("cache_control"@)
}

/// Whether a request holds no breakpoint anywhere.
pub open spec fn has_no_breakpoint(request: RequestView) -> bool {
    &&& request.system matches Some(SystemView::Blocks(blocks)) ==> forall|k: int|
        0 <= k < blocks.len() ==> (#[trigger] blocks[k]).cache_control is None
    &&& forall|k: int| 0 <= k < request.tools.len() ==> is_bare_tool(#[trigger] request.tools[k])
    &&& forall|k: int|
        0 <= k < request.messages.len() ==> is_bare(#[trigger] request.messages[k])
}

/// Whether a block is the last text or image among blocks.
pub open spec fn is_last_text_or_image(blocks: Seq<BlockView>, k: int) -> bool {
    &&& 0 <= k < blocks.len()
    &&& blocks[k] is Text || blocks[k] is Image
    &&& forall|j: int|
        k < j < blocks.len() ==> !(#[trigger] blocks[j] is Text) && !(blocks[j] is Image)
}

/// Whether a message is another one with the breakpoint on its last text or image, and else
/// the same. Plain text becomes a block with that text.
pub open spec fn has_mark_placed(after: MessageView, before: MessageView) -> bool {
    &&& after.role == before.role
    &&& match before.content {
        ContentView::Text(text) => after.content == ContentView::Blocks(
            seq![BlockView::Text { text, cache_control: Some(placed_mark()) }],
        ),
        ContentView::Blocks(blocks) => after.content matches ContentView::Blocks(placed)
            && placed.len() == blocks.len() && forall|k: int|
            0 <= k < blocks.len() ==> #[trigger] placed[k] == (if is_last_text_or_image(
                blocks,
                k,
            ) {
                match blocks[k] {
                    BlockView::Text { text, .. } => BlockView::Text {
                        text,
                        cache_control: Some(placed_mark()),
                    },
                    BlockView::Image { source, .. } => BlockView::Image {
                        source,
                        cache_control: Some(placed_mark()),
                    },
                    other => other,
                }
            } else {
                blocks[k]
            }),
    }
}

/// Whether a system prompt is another one with the breakpoint on its last block, and else the
/// same. Plain text becomes a block with that text.
pub open spec fn has_system_mark(after: Option<SystemView>, before: Option<SystemView>) -> bool {
    match before {
        None => after is None,
        Some(SystemView::Text(text)) => after == Some(
            SystemView::Blocks(
                seq![TextBlockView { text, cache_control: Some(placed_mark()) }],
            ),
        ),
        Some(SystemView::Blocks(blocks)) => after matches Some(SystemView::Blocks(placed))
            && placed.len() == blocks.len() && forall|k: int|
            0 <= k < blocks.len() ==> #[trigger] placed[k] == (if k == blocks.len() - 1 {
                TextBlockView { text: blocks[k].text, cache_control: Some(placed_mark()) }
            } else {
                blocks[k]
            }),
    }
}

/// Whether tools are others with the breakpoint on the last one, where that is an object, and
/// else the same.
pub open spec fn has_tool_mark(after: Seq<JsonView>, before: Seq<JsonView>) -> bool {
    &&& after.len() == before.len()
    &&& forall|k: int|
        0 <= k < before.len() ==> #[trigger] after[k] == (match before[k] {
            JsonView::Object(members) => if k == before.len() - 1 {
                JsonView::Object(
                    members.insert(
                        "cache_control"@,
                        JsonView::Object(
                            Map::<Seq<char>, JsonView>::empty().insert(
                                "type"@,
                                JsonView::Str("ephemeral"@),
                            ),
                        ),
                    ),
                )
            } else {
                before[k]
            },
            _ => before[k],
        })
}

proof fn lemma_mark_placed(message: MessageView)
    ensures
        has_mark_placed(message.marked(ephemeral()), message),
{
    if let ContentView::Blocks(blocks) = message.content {
        let markable = |block: BlockView| block.is_markable();
        let placed = marked_blocks(blocks, ephemeral());
        lemma_last_index_found(blocks, markable);
        lemma_last_index_rest(blocks, markable);
        assert forall|k: int| 0 <= k < blocks.len() implies #[trigger] placed[k] == (
        if is_last_text_or_image(blocks, k) {
            match blocks[k] {
                BlockView::Text { text, .. } => BlockView::Text {
                    text,
                    cache_control: Some(placed_mark()),
                },
                BlockView::Image { source, .. } => BlockView::Image {
                    source,
                    cache_control: Some(placed_mark()),
                },
                other => other,
            }
        } else {
            blocks[k]
        }) by {
            match last_index(blocks, markable) {
                Some(found) => {
                    if k == found {
                        assert forall|j: int| k < j < blocks.len() implies !(
                        #[trigger] blocks[j] is Text) && !(blocks[j] is Image) by {
                            assert(!markable(blocks[j]));
                        }
                    } else if k < found {
                        assert(blocks[found] is Text || blocks[found] is Image);
                    } else {
                        assert(!markable(blocks[k]));
                    }
                },
                None => {
                    assert(!markable(blocks[k]));
                },
            }
        }
    }
}

/// Where a policy places breakpoints, whatever the request holds already: full caching on the
/// last system block, on the last tool, and on the last text or image of each of the last two
/// messages, however few of these there are; the last breakpoint only on the last tool; and
/// no caching nowhere. Everything else stays as it is.
pub proof fn policies_place_their_breakpoints(request: RequestView, policy: PromptCachingPolicy)
    ensures
        ({
            let r = marked_request(request, policy);
            &&& r == (RequestView {
                system: r.system,
                tools: r.tools,
                messages: r.messages,
                ..request
            })
            &&& r.messages.len() == request.messages.len()
            &&& forall|i: int|
                0 <= i < request.messages.len() ==> if policy is Full && i
                    >= request.messages.len() - 2 {
                    has_mark_placed(#[trigger] r.messages[i], request.messages[i])
                } else {
                    r.messages[i] == request.messages[i]
                }
            &&& if policy is Full {
                has_system_mark(r.system, request.system)
            } else {
                r.system == request.system
            }
            &&& if policy is Disabled {
                r.tools == request.tools
            } else {
                has_tool_mark(r.tools, request.tools)
            }
        }),
{
    let r = marked_request(request, policy);
    if policy is Full {
        assert forall|i: int| 0 <= i < request.messages.len() implies if i
            >= request.messages.len() - 2 {
            has_mark_placed(#[trigger] r.messages[i], request.messages[i])
        } else {
            r.messages[i] == request.messages[i]
        } by {
            lemma_mark_placed(request.messages[i]);
        }
    }
}

proof fn lemma_no_marks(request: RequestView)
    requires
        has_no_breakpoint(request),
    ensures
        system_marks(request.system) == 0,
        tool_marks(request.tools) == 0,
        forall|i: int|
            0 <= i < request.messages.len() ==> (#[trigger] request.messages[i]).marks() == 0,
        message_marks(request.messages) == 0,
{
    let tool_count = |tool: JsonView|
        if is_marked_tool(tool) {
            1nat
        } else {
            0
        };
    let block_count = |block: BlockView|
        if block.is_marked() {
            1nat
        } else {
            0
        };
    let text_count = |block: TextBlockView|
        if block.cache_control is Some {
            1nat
        } else {
            0
        };
    if let Some(SystemView::Blocks(blocks)) = request.system {
        assert forall|i: int| 0 <= i < blocks.len() implies text_count(#[trigger] blocks[i])
            == 0 by {
        }
        lemma_total_zero(blocks, text_count);
    }
    assert forall|i: int| 0 <= i < request.tools.len() implies tool_count(
        #[trigger] request.tools[i],
    ) == 0 by {
        assert(is_bare_tool(request.tools[i]));
    }
    lemma_total_zero(request.tools, tool_count);
    assert forall|i: int| 0 <= i < request.messages.len() implies (
    #[trigger] request.messages[i]).marks() == 0 by {
        assert(is_bare(request.messages[i]));
        lemma_bare(request.messages[i]);
    }
    lemma_total_zero(request.messages, |message: MessageView| message.marks());
}

proof fn lemma_bare(message: MessageView)
    ensures
        is_bare(message) <==> message.marks() == 0,
{
    let count = |block: BlockView|
        if block.is_marked() {
            1nat
        } else {
            0
        };
    if let ContentView::Blocks(blocks) = message.content {
        lemma_total_zero(blocks, count);
        if is_bare(message) {
            assert forall|i: int| 0 <= i < blocks.len() implies count(#[trigger] blocks[i])
                == 0 by {
                assert(is_bare_block(blocks[i]));
            }
        }
        if message.marks() == 0 {
            assert forall|i: int| 0 <= i < blocks.len() implies is_bare_block(
                #[trigger] blocks[i],
            ) by {
                assert(count(blocks[i]) == 0);
            }
        }
    }
}

proof fn lemma_marked_at_most_once(message: MessageView)
    requires
        message.marks() == 0,
    ensures
        message.marked(ephemeral()).marks() <= 1,
{
    if message.is_markable() {
        lemma_marked_message(message);
    } else {
        let blocks = message.content->Blocks_0;
        lemma_last_index_found(blocks, |block: BlockView| block.is_markable());
    }
}

proof fn lemma_full_stays_within(request: RequestView)
    requires
        has_no_breakpoint(request),
    ensures
        marks(marked_request(request, PromptCachingPolicy::Full)) <= 4,
{
    let marked = marked_request(request, PromptCachingPolicy::Full);
    let messages = request.messages;
    let n = messages.len() as int;
    let count = |message: MessageView| message.marks();
    let text_count = |block: TextBlockView|
        if block.cache_control is Some {
            1nat
        } else {
            0
        };
    lemma_no_marks(request);
    lemma_marked_tools(request.tools);
    match request.system {
        Some(SystemView::Text(text)) => {
            let blocks = seq![TextBlockView { text, cache_control: Some(ephemeral()) }];
            assert(blocks.drop_last() =~= Seq::empty());
            reveal_with_fuel(total, 2);
        },
        Some(SystemView::Blocks(blocks)) => {
            if blocks.len() > 0 {
                lemma_total_update(
                    blocks,
                    text_count,
                    blocks.len() - 1,
                    TextBlockView { cache_control: Some(ephemeral()), ..blocks.last() },
                );
            }
        },
        None => {},
    }
    assert(system_marks(marked.system) <= 1);
    if n == 0 {
        assert(marked.messages =~= messages);
    } else {
        lemma_marked_at_most_once(messages[n - 1]);
        let once = messages.update(n - 1, messages[n - 1].marked(ephemeral()));
        lemma_total_update(messages, count, n - 1, messages[n - 1].marked(ephemeral()));
        if n == 1 {
            assert(marked.messages =~= once);
        } else {
            lemma_marked_at_most_once(messages[n - 2]);
            lemma_total_update(once, count, n - 2, messages[n - 2].marked(ephemeral()));
            assert(marked.messages =~= once.update(n - 2, messages[n - 2].marked(ephemeral())));
        }
    }
    assert(message_marks(marked.messages) <= 2);
}

/// With full caching, a request without breakpoints gets one on its last system block, one on
/// its last tool, and one on the last text or image of each of its last two messages,
/// whatever else it lacks: a single message gets its breakpoint, and so do the messages of a
/// request without tools or without a system prompt. No other message gets one, and nothing
/// else changes.
pub proof fn full_caching_marks_what_there_is(request: RequestView)
    requires
        has_no_breakpoint(request),
    ensures
        ({
            let r = limited(
                marked_request(request, PromptCachingPolicy::Full),
                MAX_CACHE_BREAKPOINTS as nat,
            );
            &&& r == (RequestView {
                system: r.system,
                tools: r.tools,
                messages: r.messages,
                ..request
            })
            &&& r.messages.len() == request.messages.len()
            &&& forall|i: int|
                0 <= i < request.messages.len() ==> if i >= request.messages.len() - 2 {
                    has_mark_placed(#[trigger] r.messages[i], request.messages[i])
                } else {
                    r.messages[i] == request.messages[i]
                }
            &&& has_system_mark(r.system, request.system)
            &&& has_tool_mark(r.tools, request.tools)
        }),
{
    lemma_full_stays_within(request);
    policies_place_their_breakpoints(request, PromptCachingPolicy::Full);
}

/// With the last breakpoint only, a request without breakpoints gets one on its last tool,
/// where that is an object; and without caching, it gets none.
pub proof fn other_policies_leave_messages_alone(request: RequestView)
    requires
        has_no_breakpoint(request),
    ensures
        ({
            let r = limited(
                marked_request(request, PromptCachingPolicy::LastBreakpointOnly),
                MAX_CACHE_BREAKPOINTS as nat,
            );
            r == (RequestView { tools: r.tools, ..request }) && has_tool_mark(
                r.tools,
                request.tools,
            )
        }),
        limited(
            marked_request(request, PromptCachingPolicy::Disabled),
            MAX_CACHE_BREAKPOINTS as nat,
        ) == request,
{
    lemma_no_marks(request);
    lemma_marked_tools(request.tools);
    policies_place_their_breakpoints(request, PromptCachingPolicy::LastBreakpointOnly);
}

/// Whether blocks are others without some of their breakpoints, and else the same. Where one
/// is missing, there is none before it.
pub open spec fn is_less_marked(rest: MessageView, all: MessageView) -> bool {
    rest == all || (rest.role == all.role && match (rest.content, all.content) {
        (ContentView::Blocks(r), ContentView::Blocks(a)) => r.len() == a.len() && forall|k: int|
            0 <= k < a.len() && #[trigger] r[k] != a[k] ==> r[k] == (match a[k] {
                BlockView::Text { text, .. } => BlockView::Text { text, cache_control: None },
                BlockView::Image { source, .. } => BlockView::Image {
                    source,
                    cache_control: None,
                },
                other => other,
            }) && forall|c: int| 0 <= c < k ==> is_bare_block(#[trigger] r[c]),
        _ => false,
    })
}

/// Whether a request is another one without some of its breakpoints, and else the same. They
/// are taken from the front, first from the messages, then from the system prompt, then from
/// the tools: where one is missing, there is none before it. The last system block and the
/// last tool keep theirs.
pub open spec fn is_cleared(rest: RequestView, all: RequestView) -> bool {
    &&& rest == (RequestView {
        system: rest.system,
        tools: rest.tools,
        messages: rest.messages,
        ..all
    })
    &&& rest.messages.len() == all.messages.len()
    &&& forall|i: int|
        0 <= i < all.messages.len() ==> is_less_marked(#[trigger] rest.messages[i], all.messages[i])
    &&& forall|i: int, k: int|
        #![trigger rest.messages[i], rest.messages[k]]
        0 <= k < i < all.messages.len() && rest.messages[i] != all.messages[i] ==> is_bare(
            rest.messages[k],
        )
    &&& rest.system != all.system || rest.tools != all.tools ==> forall|k: int|
        0 <= k < rest.messages.len() ==> is_bare(#[trigger] rest.messages[k])
    &&& match all.system {
        Some(SystemView::Blocks(a)) => rest.system matches Some(SystemView::Blocks(r)) && r.len()
            == a.len() && (forall|k: int|
            0 <= k < a.len() && #[trigger] r[k] != a[k] ==> k < a.len() - 1 && r[k] == (
            TextBlockView { text: a[k].text, cache_control: None }) && forall|c: int|
                0 <= c < k ==> (#[trigger] r[c]).cache_control is None),
        _ => rest.system == all.system,
    }
    &&& rest.tools.len() == all.tools.len()
    &&& forall|k: int|
        0 <= k < all.tools.len() && #[trigger] rest.tools[k] != all.tools[k] ==> k
            < all.tools.len() - 1 && (all.tools[k] matches JsonView::Object(members)
            && rest.tools[k] == JsonView::Object(members.remove("cache_control"@)))
            && forall|c: int| 0 <= c < k ==> is_bare_tool(#[trigger] rest.tools[c])
    &&& rest.tools != all.tools ==> (rest.system matches Some(SystemView::Blocks(r)) ==> forall|
        k: int,
    |
        0 <= k < r.len() - 1 ==> (#[trigger] r[k]).cache_control is None)
}

proof fn lemma_message_less_marked(message: MessageView, all: MessageView)
    requires
        is_less_marked(message, all),
        message.marks() > 0,
    ensures
        is_less_marked(message.less_one(), all),
        message.less_one().role == all.role,
{
    let marked = |block: BlockView| block.is_marked();
    let blocks = message.content->Blocks_0;
    let a = all.content->Blocks_0;
    let rest = blocks_less_one(blocks);
    lemma_first_index_found(blocks, marked);
    if let Some(found) = first_index(blocks, marked) {
        assert forall|k: int| 0 <= k < a.len() && #[trigger] rest[k] != a[k] implies rest[k] == (
        match a[k] {
            BlockView::Text { text, .. } => BlockView::Text { text, cache_control: None },
            BlockView::Image { source, .. } => BlockView::Image { source, cache_control: None },
            other => other,
        }) && forall|c: int| 0 <= c < k ==> is_bare_block(#[trigger] rest[c]) by {
            if k == found {
                if blocks[k] != a[k] {
                    assert(is_bare_block(blocks[k]));
                }
                assert forall|c: int| 0 <= c < k implies is_bare_block(#[trigger] rest[c]) by {
                    assert(!marked(blocks[c]));
                }
            } else {
                assert(rest[k] == blocks[k]);
                assert forall|c: int| 0 <= c < k implies is_bare_block(#[trigger] rest[c]) by {
                    assert(is_bare_block(blocks[c]));
                }
            }
        }
    }
}

proof fn lemma_less_one_is_cleared(request: RequestView, all: RequestView)
    requires
        is_cleared(request, all),
        less_one(request) is Some,
    ensures
        is_cleared(less_one(request)->0, all),
{
    let next = less_one(request)->0;
    let marked = |message: MessageView| message.marks() > 0;
    lemma_first_index_found(request.messages, marked);
    if let Some(found) = first_marked_message(request.messages) {
        let message = request.messages[found];
        assert(marked(message));
        lemma_bare(message);
        lemma_message_less_marked(message, all.messages[found]);
        lemma_blocks_less_one(message.content->Blocks_0);
        assert forall|i: int| 0 <= i < all.messages.len() implies is_less_marked(
            #[trigger] next.messages[i],
            all.messages[i],
        ) by {
            if i != found {
                assert(next.messages[i] == request.messages[i]);
            }
        }
        assert forall|i: int, k: int|
            #![trigger next.messages[i], next.messages[k]]
            0 <= k < i < all.messages.len() && next.messages[i] != all.messages[i] implies is_bare(
            next.messages[k],
        ) by {
            if i == found {
                assert(!marked(request.messages[k]));
                lemma_bare(request.messages[k]);
            } else {
                assert(next.messages[i] == request.messages[i]);
                assert(is_bare(request.messages[k]));
            }
        }
    } else {
        assert forall|k: int| 0 <= k < request.messages.len() implies is_bare(
            #[trigger] request.messages[k],
        ) by {
            assert(!marked(request.messages[k]));
            lemma_bare(request.messages[k]);
        }
        let spare = match request.system {
            Some(SystemView::Blocks(blocks)) => first_spare_block(blocks),
            _ => None,
        };
        if let Some(SystemView::Blocks(blocks)) = request.system {
            let held = |block: TextBlockView| block.cache_control is Some;
            lemma_first_index_found(all_but_last(blocks), held);
            if let Some(found) = spare {
                let r = next.system->0->Blocks_0;
                let a = all.system->0->Blocks_0;
                assert forall|k: int| 0 <= k < a.len() && #[trigger] r[k] != a[k] implies k
                    < a.len() - 1 && r[k] == (TextBlockView {
                    text: a[k].text,
                    cache_control: None,
                }) && forall|c: int| 0 <= c < k ==> (#[trigger] r[c]).cache_control is None by {
                    if k == found {
                        if blocks[k] != a[k] {
                            assert(blocks[k].cache_control is None);
                        }
                        assert forall|c: int| 0 <= c < k implies (
                        #[trigger] r[c]).cache_control is None by {
                            assert(!held(all_but_last(blocks)[c]));
                        }
                    } else {
                        assert(r[k] == blocks[k]);
                        assert forall|c: int| 0 <= c < k implies (
                        #[trigger] r[c]).cache_control is None by {
                            assert(blocks[c].cache_control is None);
                        }
                    }
                }
                assert(request.tools != all.tools ==> all_but_last(blocks)[found]
                    == blocks[found]);
            } else {
                assert forall|k: int| 0 <= k < blocks.len() - 1 implies (
                #[trigger] blocks[k]).cache_control is None by {
                    assert(!held(all_but_last(blocks)[k]));
                }
            }
        }
        if spare is None {
            let held = |tool: JsonView| is_marked_tool(tool);
            let tools = request.tools;
            lemma_first_index_found(all_but_last(tools), held);
            if let Some(found) = first_spare_tool(tools) {
                let r = next.tools;
                assert forall|k: int| 0 <= k < all.tools.len() && #[trigger] r[k]
                    != all.tools[k] implies k < all.tools.len() - 1 && (
                all.tools[k] matches JsonView::Object(members) && r[k] == JsonView::Object(
                    members.remove("cache_control"@),
                )) && forall|c: int| 0 <= c < k ==> is_bare_tool(#[trigger] r[c]) by {
                    if k == found {
                        assert(all_but_last(tools)[k] == tools[k]);
                        if tools[k] != all.tools[k] {
                            assert(!is_marked_tool(tools[k]));
                        }
                        assert forall|c: int| 0 <= c < k implies is_bare_tool(#[trigger] r[c]) by {
                            assert(!held(all_but_last(tools)[c]));
                        }
                    } else {
                        assert(r[k] == tools[k]);
                        assert forall|c: int| 0 <= c < k implies is_bare_tool(#[trigger] r[c]) by {
                            assert(is_bare_tool(tools[c]));
                        }
                    }
                }
            }
        }
    }
}

proof fn lemma_limited_is_cleared(request: RequestView, all: RequestView, max: nat)
    requires
        is_cleared(request, all),
    ensures
        is_cleared(limited(request, max), all),
    decreases marks(request),
{
    if marks(request) > max && less_one(request) is Some {
        one_taken_away_leaves_one_fewer(request);
        lemma_less_one_is_cleared(request, all);
        lemma_limited_is_cleared(less_one(request)->0, all, max);
    }
}

/// Where there are too many breakpoints, they are taken from the front, and nothing else
/// changes: first those of the messages, then those of the system prompt, then those of the
/// tools, but never that of the last system block or of the last tool.
pub proof fn breakpoints_are_taken_from_the_front(request: RequestView, max: nat)
    ensures
        is_cleared(limited(request, max), request),
{
    lemma_limited_is_cleared(request, request, max);
}

/// How many breakpoints messages hold, block by block.
pub open spec fn breakpoints_in(messages: Seq<MessageView>) -> nat
    decreases messages.len(),
{
    if messages.len() == 0 {
        0
    } else {
        breakpoints_in(messages.drop_last()) + (match messages.last().content {
            ContentView::Text(_) => 0,
            ContentView::Blocks(blocks) => blocks.filter(
                |block: BlockView| !is_bare_block(block),
            ).len(),
        })
    }
}

proof fn lemma_count_is_filter<T>(s: Seq<T>, count: spec_fn(T) -> nat, held: spec_fn(T) -> bool)
    requires
        forall|x: T|
            #[trigger] count(x) == (if held(x) {
                1nat
            } else {
                0
            }),
    ensures
        total(s, count) == s.filter(held).len(),
    decreases s.len(),
{
    reveal(Seq::filter);
    if s.len() > 0 {
        lemma_count_is_filter(s.drop_last(), count, held);
    }
}

proof fn lemma_messages_counted(messages: Seq<MessageView>)
    ensures
        message_marks(messages) == breakpoints_in(messages),
    decreases messages.len(),
{
    if messages.len() > 0 {
        lemma_messages_counted(messages.drop_last());
        if let ContentView::Blocks(blocks) = messages.last().content {
            lemma_count_is_filter(
                blocks,
                |block: BlockView|
                    if block.is_marked() {
                        1
                    } else {
                        0
                    },
                |block: BlockView| !is_bare_block(block),
            );
        }
    }
}

/// Every breakpoint counts for one, wherever it stands: on a block of the system prompt, on a
/// tool, or on a text or an image of a message. Nothing else counts.
pub proof fn every_breakpoint_counts(request: RequestView)
    ensures
        marks(request) == (match request.system {
            Some(SystemView::Blocks(blocks)) => blocks.filter(
                |block: TextBlockView| block.cache_control is Some,
            ).len(),
            _ => 0,
        }) + request.tools.filter(|tool: JsonView| !is_bare_tool(tool)).len() + breakpoints_in(
            request.messages,
        ),
{
    if let Some(SystemView::Blocks(blocks)) = request.system {
        lemma_count_is_filter(
            blocks,
            |block: TextBlockView|
                if block.cache_control is Some {
                    1
                } else {
                    0
                },
            |block: TextBlockView| block.cache_control is Some,
        );
    }
    lemma_count_is_filter(
        request.tools,
        |tool: JsonView|
            if is_marked_tool(tool) {
                1
            } else {
                0
            },
        |tool: JsonView| !is_bare_tool(tool),
    );
    lemma_messages_counted(request.messages);
}

/// A name that is configured decides, blanks around it aside, where it is one of those that
/// are known. Elsewhere the host does: Anthropic's own gets full caching, and any other one, or
/// none, the last breakpoint only.
pub proof fn configured_names_win(name: Seq<char>, host: Option<Seq<char>>)
    ensures
        trimmed(name) == "none"@ ==> chosen_policy(Some(name), host)
            == PromptCachingPolicy::Disabled,
        trimmed(name) == "full"@ ==> chosen_policy(Some(name), host) == PromptCachingPolicy::Full,
        trimmed(name) == "last_breakpoint"@ || trimmed(name) == "last-breakpoint"@
            ==> chosen_policy(Some(name), host) == PromptCachingPolicy::LastBreakpointOnly,
        trimmed(name) != "none"@ && trimmed(name) != "full"@ && trimmed(name)
            != "last_breakpoint"@ && trimmed(name) != "last-breakpoint"@ ==> policy_named(
            name,
        ) is None && chosen_policy(Some(name), host) == chosen_policy(None, host),
        chosen_policy(None, host) == (if host == Some("api.anthropic.com"@) {
            PromptCachingPolicy::Full
        } else {
            PromptCachingPolicy::LastBreakpointOnly
        }),
        policy_named(name) matches Some(policy) ==> chosen_policy(Some(name), host) == policy,
{
    reveal_strlit("none");
    reveal_strlit("full");
    reveal_strlit("last_breakpoint");
    reveal_strlit("last-breakpoint");
    assert("none"@[0] != "full"@[0]);
}

/// A breakpoint is written as an object with its type, and its time to live where it has one.
pub proof fn breakpoints_are_written_out(cache_control: CacheControlView)
    ensures
        cache_control_json(cache_control) is Object,
        ({
            let members = cache_control_json(cache_control)->Object_0;
            &&& members.contains_key("type"@)
            &&& members["type"@] == JsonView::Str(cache_control.cache_type)
            &&& members.contains_key("ttl"@) <==> cache_control.ttl is Some
            &&& cache_control.ttl matches Some(ttl) ==> members["ttl"@] == JsonView::Str(ttl)
            &&& forall|key: Seq<char>| #[trigger]
                members.contains_key(key) ==> key == "type"@ || key == "ttl"@
        }),
{
    reveal_strlit("type");
    reveal_strlit("ttl");
    assert("type"@.len() != "ttl"@.len());
}

/// A count is given as it is, as far as a machine word goes.
pub proof fn counts_are_exact(count: nat)
    ensures
        count <= usize::MAX ==> capped(count) == count,
        count > usize::MAX ==> capped(count) == usize::MAX,
{
}

} // verus!
