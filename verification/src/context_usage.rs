//! How the tokens of a context are shared out among what it holds.

use serde_json::Value;
use tiktoken_rs::o200k_base_singleton;
use vstd::prelude::*;

pub mod sharing;

use crate::event::law_normalized_usage;
use crate::event::law_normalizing_to_the_sum;
use crate::event::normalized_usage;
use crate::event::usage_sum;
use crate::event::ApiUsage;
use crate::event::ContextTokenUsage;
use crate::json::array_value;
use crate::json::contents;
use crate::json::encode_json;
use crate::json::encoded_json;
use crate::json::entries_view;
use crate::json::get_member;
use crate::json::json_content;
use crate::json::member_of;
use crate::json::member_text;
use crate::json::members_of;
use crate::json::object_value;
use crate::json::text_of_json;
use crate::json::Json;
use crate::model::ModelContext;
use crate::text::chars_of;
use crate::text::is_white_space;
use crate::text::occurs_at;
use crate::text::pattern_at;
use crate::text::same_text;

verus! {

/// What a message counts as.
#[derive(Clone, Copy, Debug, PartialEq, Eq, Structural)]
pub enum Category {
    System,
    Compact,
    Memory,
    User,
    Model,
    Tool,
}

/// How many tokens `text` is, by the tokenizer `o200k_base`.
pub uninterp spec fn token_count(text: Seq<char>) -> usize;

/// How much white space in a row the tokenizer can take. It matches the characters one by one and
/// keeps a place to go back to for each, up to a million places in all.
pub const MAX_GAP: usize = 999000;

/// Whether the characters of `text` from `start` on are all white space, as far as one more than
/// the tokenizer can take.
pub open spec fn is_long_gap(text: Seq<char>, start: int) -> bool {
    0 <= start && start + MAX_GAP < text.len() && forall|i: int|
        start <= i <= start + MAX_GAP ==> is_white_space(#[trigger] text[i])
}

/// Whether the tokenizer can take `text`.
pub open spec fn is_countable(text: Seq<char>) -> bool {
    forall|start: int| !(#[trigger] is_long_gap(text, start))
}

/// Whether the tokenizer can take the text.
pub fn is_countable_text(text: &str) -> (r: bool)
    ensures
        r == is_countable(text@),
{
    let chars = chars_of(text);
    let mut gap: usize = 0;
    for i in 0..chars.len()
        invariant
            chars@ == text@,
            gap <= i,
            gap <= MAX_GAP,
            forall|j: int| i - gap <= j < i ==> is_white_space(#[trigger] chars@[j]),
            gap < i ==> !is_white_space(chars@[i - gap - 1]),
            forall|start: int| start + MAX_GAP < i ==> !(#[trigger] is_long_gap(text@, start)),
    {
        let ghost before = gap;
        if chars[i].is_whitespace() {
            gap = gap + 1;
            if gap > MAX_GAP {
                assert(is_long_gap(text@, i - MAX_GAP));
                return false;
            }
        } else {
            gap = 0;
        }
        assert forall|start: int| start + MAX_GAP < i + 1 implies !(#[trigger] is_long_gap(
            text@,
            start,
        )) by {
            if is_long_gap(text@, start) && start + MAX_GAP == i {
                assert(is_white_space(text@[i as int]));
                assert(is_white_space(text@[i - before - 1]));
            }
        }
    }
    assert forall|start: int| !(#[trigger] is_long_gap(text@, start)) by {}
    true
}

/// `CoreBPE::encode_ordinary` of `o200k_base_singleton`: how many tokens the text is. It fails on
/// a text with too much white space in a row, which is left out.
#[verifier::external_body]
fn count_tokens(text: &str) -> (r: usize)
    requires
        is_countable(text@),
    ensures
        r == token_count(text@),
{
    o200k_base_singleton().encode_ordinary(text).len()
}

/// How many tokens `json` is.
pub open spec fn json_tokens(json: Json) -> u64 {
    token_count(encoded_json(json)) as u64
}

/// Whether the tokens of `json` can be counted.
pub open spec fn is_countable_json(json: Json) -> bool {
    is_countable(encoded_json(json))
}

/// Whether the tokens of the value can be counted.
pub fn can_estimate_json(value: &Value) -> (r: bool)
    ensures
        r == is_countable_json(json_content(*value)),
{
    match encode_json(value) {
        Ok(text) => is_countable_text(&text),
        Err(_) => false,
    }
}

/// How many tokens the value is. They must be countable.
pub fn estimate_json(value: &Value) -> (r: u64)
    requires
        is_countable_json(json_content(*value)),
    ensures
        r == json_tokens(json_content(*value)),
{
    match encode_json(value) {
        Ok(text) => count_tokens(&text) as u64,
        Err(_) => 0,
    }
}

/// How many tokens the value is, or nothing where they cannot be counted.
pub fn try_estimate_json(value: &Value) -> (r: Option<u64>)
    ensures
        r == (if is_countable_json(json_content(*value)) {
            Some(json_tokens(json_content(*value)))
        } else {
            None
        }),
{
    if can_estimate_json(value) {
        Some(estimate_json(value))
    } else {
        None
    }
}

/// Whether `part` of a message is an image.
pub open spec fn is_image_part(part: Json) -> bool {
    let kind = text_of_json(member_of(part, "type"@));
    kind == Some("image_url"@) || kind == Some("input_image"@) || member_of(part, "image_url"@)
        is Some
}

/// Whether one of `parts` is an image.
pub open spec fn has_image_part(parts: Seq<Json>) -> bool {
    exists|i: int| 0 <= i < parts.len() && is_image_part(#[trigger] parts[i])
}

/// Whether `message` holds an image.
pub open spec fn contains_image(message: Json) -> bool {
    match member_of(message, "content"@) {
        Some(Json::Array(parts)) => has_image_part(parts),
        _ => false,
    }
}

/// What a text that a user message consists of counts as.
pub open spec fn content_category(content: Seq<char>) -> Category {
    if occurs_at(content, "<system_prompt_injection type=\"compact_summary\">"@, 0) || occurs_at(
        content,
        "<system_prompt_injection type=\"compact\">"@,
        0,
    ) {
        Category::Compact
    } else if occurs_at(content, "<system_prompt_injection type=\"turn_history\">"@, 0) {
        Category::Memory
    } else if occurs_at(content, "<system_prompt_injection "@, 0) {
        Category::System
    } else {
        Category::User
    }
}

/// What `message` counts as.
pub open spec fn category_of(message: Json) -> Category {
    let role = text_of_json(member_of(message, "role"@));
    if role == Some("system"@) {
        Category::System
    } else if role == Some("tool"@) {
        Category::Tool
    } else if role == Some("assistant"@) {
        Category::Model
    } else if role == Some("user"@) {
        if contains_image(message) {
            Category::Tool
        } else {
            match text_of_json(member_of(message, "content"@)) {
                Some(content) => content_category(content),
                None => Category::User,
            }
        }
    } else {
        Category::Model
    }
}

fn starts_with(text: &str, prefix: &str) -> (r: bool)
    ensures
        r == occurs_at(text@, prefix@, 0),
{
    pattern_at(&chars_of(text), &chars_of(prefix), 0)
}

/// What a text that a user message consists of counts as.
pub fn categorize_content(content: &str) -> (r: Category)
    ensures
        r == content_category(content@),
{
    if starts_with(content, "<system_prompt_injection type=\"compact_summary\">") || starts_with(
        content,
        "<system_prompt_injection type=\"compact\">",
    ) {
        Category::Compact
    } else if starts_with(content, "<system_prompt_injection type=\"turn_history\">") {
        Category::Memory
    } else if starts_with(content, "<system_prompt_injection ") {
        Category::System
    } else {
        Category::User
    }
}

/// Whether a part of a message is an image.
fn part_is_image(part: &Value) -> (r: bool)
    ensures
        r == is_image_part(json_content(*part)),
{
    if let Some(kind) = member_text(part, "type") {
        if same_text(kind, "image_url") || same_text(kind, "input_image") {
            return true;
        }
    }
    get_member(part, "image_url").is_some()
}

/// Whether a message holds an image.
pub fn message_contains_image(message: &Value) -> (r: bool)
    ensures
        r == contains_image(json_content(*message)),
{
    let content = match get_member(message, "content") {
        Some(content) => content,
        None => return false,
    };
    let parts = match content.as_array() {
        Some(parts) => parts,
        None => return false,
    };
    let ghost all = contents(parts@);
    for i in 0..parts.len()
        invariant
            all == contents(parts@),
            all.len() == parts@.len(),
            member_of(json_content(*message), "content"@) == Some(Json::Array(all)),
            forall|j: int| 0 <= j < i ==> !is_image_part(#[trigger] all[j]),
    {
        assert(all[i as int] == json_content(parts@[i as int]));
        if part_is_image(&parts[i]) {
            assert(has_image_part(all));
            return true;
        }
    }
    false
}

/// What a message counts as.
pub fn message_category(message: &Value) -> (r: Category)
    ensures
        r == category_of(json_content(*message)),
{
    proof {
        reveal_strlit("system");
        reveal_strlit("tool");
        reveal_strlit("assistant");
        reveal_strlit("user");
    }
    let role = match member_text(message, "role") {
        Some(role) => role,
        None => return Category::Model,
    };
    if same_text(role, "system") {
        Category::System
    } else if same_text(role, "tool") {
        Category::Tool
    } else if same_text(role, "assistant") {
        Category::Model
    } else if same_text(role, "user") {
        if message_contains_image(message) {
            return Category::Tool;
        }
        match member_text(message, "content") {
            Some(content) => categorize_content(content),
            None => Category::User,
        }
    } else {
        Category::Model
    }
}

/// The smaller of `total` and the largest `u64`.
pub open spec fn capped(total: int) -> u64 {
    if total <= u64::MAX {
        total as u64
    } else {
        u64::MAX
    }
}

/// `usage` with `tokens` more in `category`.
pub open spec fn tokens_added(usage: ContextTokenUsage, category: Category, tokens: u64)
    -> ContextTokenUsage {
    match category {
        Category::System => ContextTokenUsage { system: capped(usage.system + tokens), ..usage },
        Category::Compact => ContextTokenUsage { compact: capped(usage.compact + tokens), ..usage },
        Category::Memory => ContextTokenUsage { memory: capped(usage.memory + tokens), ..usage },
        Category::User => ContextTokenUsage { user: capped(usage.user + tokens), ..usage },
        Category::Model => ContextTokenUsage { model: capped(usage.model + tokens), ..usage },
        Category::Tool => ContextTokenUsage { tool: capped(usage.tool + tokens), ..usage },
    }
}

/// Counts `tokens` more in `category`.
pub fn add_tokens(usage: ContextTokenUsage, category: Category, tokens: u64) -> (r:
    ContextTokenUsage)
    ensures
        r == tokens_added(usage, category, tokens),
{
    let mut usage = usage;
    match category {
        Category::System => usage.system = usage.system.saturating_add(tokens),
        Category::Compact => usage.compact = usage.compact.saturating_add(tokens),
        Category::Memory => usage.memory = usage.memory.saturating_add(tokens),
        Category::User => usage.user = usage.user.saturating_add(tokens),
        Category::Model => usage.model = usage.model.saturating_add(tokens),
        Category::Tool => usage.tool = usage.tool.saturating_add(tokens),
    }
    usage
}

/// No tokens at all.
pub open spec fn no_usage() -> ContextTokenUsage {
    ContextTokenUsage { system: 0, compact: 0, memory: 0, user: 0, model: 0, tool: 0 }
}

/// `start` with the tokens of each of `messages` counted.
pub open spec fn messages_counted(start: ContextTokenUsage, messages: Seq<Json>)
    -> ContextTokenUsage
    decreases messages.len(),
{
    if messages.len() == 0 {
        start
    } else {
        tokens_added(
            messages_counted(start, messages.drop_last()),
            category_of(messages.last()),
            json_tokens(messages.last()),
        )
    }
}

/// A context as one value.
pub open spec fn context_json(messages: Seq<Json>, tools: Seq<Json>) -> Json {
    Json::Object(
        members_of(seq![("messages"@, Json::Array(messages)), ("tools"@, Json::Array(tools))]),
    )
}

/// What the parts of a context come to, one by one. Tools count as part of the system.
pub open spec fn counted_usage(messages: Seq<Json>, tools: Seq<Json>) -> ContextTokenUsage {
    messages_counted(
        if tools.len() == 0 {
            no_usage()
        } else {
            tokens_added(no_usage(), Category::System, json_tokens(Json::Array(tools)))
        },
        messages,
    )
}

/// What the parts of a context come to, brought to the size of the whole.
pub open spec fn input_usage(messages: Seq<Json>, tools: Seq<Json>) -> ContextTokenUsage {
    normalized_usage(
        counted_usage(messages, tools),
        json_tokens(context_json(messages, tools)),
    )
}

/// Whether the tokens of a context can be counted: those of each of its parts and of the whole.
pub open spec fn is_countable_context(messages: Seq<Json>, tools: Seq<Json>) -> bool {
    &&& tools.len() > 0 ==> is_countable_json(Json::Array(tools))
    &&& forall|i: int| 0 <= i < messages.len() ==> is_countable_json(#[trigger] messages[i])
    &&& is_countable_json(context_json(messages, tools))
}

/// What the parts of a context come to, one by one.
fn count_input(context: &ModelContext) -> (r: ContextTokenUsage)
    requires
        is_countable_context(contents(context.messages@), contents(context.tools@)),
    ensures
        r == counted_usage(contents(context.messages@), contents(context.tools@)),
{
    let mut values = ContextTokenUsage::default();
    if !context.tools.is_empty() {
        let tokens = estimate_json(&array_value(&context.tools));
        values = add_tokens(values, Category::System, tokens);
    }
    let ghost start = values;
    let ghost all = contents(context.messages@);
    for i in 0..context.messages.len()
        invariant
            all == contents(context.messages@),
            is_countable_context(all, contents(context.tools@)),
            values == messages_counted(start, all.take(i as int)),
    {
        assert(all.take(i + 1).drop_last() =~= all.take(i as int));
        let message = &context.messages[i];
        assert(all[i as int] == json_content(*message));
        assert(all.take(i + 1).last() == json_content(*message));
        values = add_tokens(values, message_category(message), estimate_json(message));
    }
    assert(all.take(all.len() as int) =~= all);
    values
}

/// A context as one value.
fn context_value(context: &ModelContext) -> (r: Value)
    ensures
        json_content(r) == context_json(contents(context.messages@), contents(context.tools@)),
{
    let mut entries: Vec<(String, Value)> = Vec::new();
    entries.push(("messages".to_owned(), array_value(&context.messages)));
    entries.push(("tools".to_owned(), array_value(&context.tools)));
    assert(entries_view(entries@) =~= seq![
        ("messages"@, Json::Array(contents(context.messages@))),
        ("tools"@, Json::Array(contents(context.tools@))),
    ]);
    object_value(entries)
}

/// Whether the tokens of a context can be counted.
pub fn can_estimate(context: &ModelContext) -> (r: bool)
    ensures
        r == is_countable_context(contents(context.messages@), contents(context.tools@)),
{
    let ghost all = contents(context.messages@);
    if !context.tools.is_empty() && !can_estimate_json(&array_value(&context.tools)) {
        return false;
    }
    for i in 0..context.messages.len()
        invariant
            all == contents(context.messages@),
            forall|j: int| 0 <= j < i ==> is_countable_json(#[trigger] all[j]),
    {
        assert(all[i as int] == json_content(context.messages@[i as int]));
        if !can_estimate_json(&context.messages[i]) {
            return false;
        }
    }
    can_estimate_json(&context_value(context))
}

/// What the parts of a context come to, brought to the size of the whole. Its tokens must be
/// countable.
pub fn estimate_input(context: &ModelContext) -> (r: ContextTokenUsage)
    requires
        is_countable_context(contents(context.messages@), contents(context.tools@)),
    ensures
        r == input_usage(contents(context.messages@), contents(context.tools@)),
{
    let mut values = count_input(context);
    values.normalize_to(estimate_json(&context_value(context)));
    values
}

/// `usage` of an input, brought to the tokens of the input, with those of the answer, brought to
/// all tokens.
pub open spec fn request_usage(usage: ContextTokenUsage, api: ApiUsage) -> ContextTokenUsage {
    let input = normalized_usage(usage, api.input_tokens);
    normalized_usage(
        ContextTokenUsage { model: capped(input.model + api.output_tokens), ..input },
        api.total_tokens,
    )
}

/// Brings the usage of an input to what the interface has counted for a request.
pub fn settle_request(usage: ContextTokenUsage, api: ApiUsage) -> (r: ContextTokenUsage)
    ensures
        r == request_usage(usage, api),
{
    let mut values = usage;
    values.normalize_to(api.input_tokens);
    values.model = values.model.saturating_add(api.output_tokens);
    values.normalize_to(api.total_tokens);
    values
}

/// How the tokens of a request are shared out. Those of its context must be countable.
pub fn estimate_request(context: &ModelContext, usage: ApiUsage) -> (r: ContextTokenUsage)
    requires
        is_countable_context(contents(context.messages@), contents(context.tools@)),
    ensures
        r == request_usage(
            input_usage(contents(context.messages@), contents(context.tools@)),
            usage,
        ),
{
    settle_request(estimate_input(context), usage)
}

/// How the tokens of a request are shared out, or nothing where those of its context cannot be
/// counted.
pub fn try_estimate_request(context: &ModelContext, usage: ApiUsage) -> (r: Option<
    ContextTokenUsage,
>)
    ensures
        r == (if is_countable_context(contents(context.messages@), contents(context.tools@)) {
            Some(
                request_usage(
                    input_usage(contents(context.messages@), contents(context.tools@)),
                    usage,
                ),
            )
        } else {
            None
        }),
{
    if can_estimate(context) {
        Some(estimate_request(context, usage))
    } else {
        None
    }
}

/// How `total_tokens` tokens of a context are shared out. Those of the context must be countable.
pub fn estimate_current_context(context: &ModelContext, total_tokens: u64) -> (r:
    ContextTokenUsage)
    requires
        is_countable_context(contents(context.messages@), contents(context.tools@)),
    ensures
        r == normalized_usage(
            input_usage(contents(context.messages@), contents(context.tools@)),
            total_tokens,
        ),
{
    let mut values = estimate_input(context);
    values.normalize_to(total_tokens);
    values
}

/// How `total_tokens` tokens of a context are shared out, or nothing where those of the context
/// cannot be counted.
pub fn try_estimate_current_context(context: &ModelContext, total_tokens: u64) -> (r: Option<
    ContextTokenUsage,
>)
    ensures
        r == (if is_countable_context(contents(context.messages@), contents(context.tools@)) {
            Some(
                normalized_usage(
                    input_usage(contents(context.messages@), contents(context.tools@)),
                    total_tokens,
                ),
            )
        } else {
            None
        }),
{
    if can_estimate(context) {
        Some(estimate_current_context(context, total_tokens))
    } else {
        None
    }
}

/// Where a context holds anything and the request has any tokens, its usage adds up to all
/// tokens of the request; where those are the tokens of the input and of the answer, the answer
/// is counted in full.
pub proof fn law_request_usage(usage: ContextTokenUsage, api: ApiUsage)
    requires
        usage_sum(usage) > 0,
        api.input_tokens + api.output_tokens > 0,
    ensures
        usage_sum(request_usage(usage, api)) == api.total_tokens,
        api.input_tokens + api.output_tokens == api.total_tokens ==> request_usage(usage, api).model
            >= api.output_tokens,
{
    law_normalized_usage(usage, api.input_tokens);
    let input = normalized_usage(usage, api.input_tokens);
    let all = ContextTokenUsage { model: capped(input.model + api.output_tokens), ..input };
    law_normalized_usage(all, api.total_tokens);
    if api.input_tokens + api.output_tokens == api.total_tokens {
        law_normalizing_to_the_sum(all, api.total_tokens);
    }
}

} // verus!
