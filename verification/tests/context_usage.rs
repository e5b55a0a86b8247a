//! How the tokens of a context are shared out.

use me::context_usage::add_tokens;
use me::context_usage::categorize_content;
use me::context_usage::estimate_current_context;
use me::context_usage::estimate_json;
use me::context_usage::estimate_request;
use me::context_usage::is_countable_text;
use me::context_usage::message_category;
use me::context_usage::message_contains_image;
use me::context_usage::settle_request;
use me::context_usage::try_estimate_current_context;
use me::context_usage::try_estimate_json;
use me::context_usage::try_estimate_request;
use me::context_usage::Category;
use me::context_usage::MAX_GAP;
use me::event::ApiUsage;
use me::event::ContextTokenUsage;
use me::model::ModelContext;
use serde_json::Value;

fn json(text: &str) -> Value {
    serde_json::from_str(text).unwrap()
}

#[test]
fn normalized_request_uses_real_total_and_keeps_every_category() {
    let context = ModelContext {
        messages: vec![
            json(r#"{"role":"system","content":"system policy"}"#),
            json(r#"{"role":"user","content":"<system_prompt_injection type=\"compact_summary\">\nsummary\n</system_prompt_injection>"}"#),
            json(r#"{"role":"user","content":"<system_prompt_injection type=\"turn_history\">\nhistory\n</system_prompt_injection>"}"#),
            json(r#"{"role":"user","content":"question"}"#),
            json(r#"{"role":"assistant","content":"answer"}"#),
            json(r#"{"role":"tool","content":"tool result"}"#),
        ],
        tools: vec![json(r#"{"type":"function","function":{"name":"Read"}}"#)],
    };
    let values = estimate_request(
        &context,
        ApiUsage {
            input_tokens: 9_000,
            output_tokens: 1_000,
            total_tokens: 10_000,
        },
    );
    assert_eq!(values.sum(), 10_000);
    assert!(values.system > 0);
    assert!(values.compact > 0);
    assert!(values.memory > 0);
    assert!(values.user > 0);
    assert!(values.model >= 1_000);
    assert!(values.tool > 0);
}

#[test]
fn image_messages_count_as_tool_input() {
    let context = ModelContext {
        messages: vec![json(
            r#"{
                "role":"user",
                "content":[
                    {"type":"text","text":"stored image"},
                    {"type":"image_url","image_url":{"url":"data:image/png;base64,AAAA"}}
                ]
            }"#,
        )],
        tools: Vec::new(),
    };
    let values = estimate_current_context(&context, 500);
    assert_eq!(values.sum(), 500);
    assert_eq!(values.tool, 500);
}

#[test]
fn messages_count_by_their_role_and_content() {
    assert_eq!(message_category(&json(r#"{"role":"system"}"#)), Category::System);
    assert_eq!(message_category(&json(r#"{"role":"tool"}"#)), Category::Tool);
    assert_eq!(message_category(&json(r#"{"role":"assistant"}"#)), Category::Model);
    assert_eq!(message_category(&json(r#"{"role":"user"}"#)), Category::User);
    assert_eq!(message_category(&json(r#"{"role":"other"}"#)), Category::Model);
    assert_eq!(message_category(&json(r#"[]"#)), Category::Model);
    assert_eq!(
        message_category(&json(r#"{"role":"user","content":"<system_prompt_injection type=\"compact\">x"}"#)),
        Category::Compact
    );
    assert_eq!(categorize_content("<system_prompt_injection type=\"turn_history\">"), Category::Memory);
    assert_eq!(categorize_content("<system_prompt_injection kind>"), Category::System);
    assert_eq!(categorize_content(" <system_prompt_injection "), Category::User);
}

#[test]
fn images_are_found_by_type_or_member() {
    assert!(message_contains_image(&json(r#"{"content":[{"type":"input_image"}]}"#)));
    assert!(message_contains_image(&json(r#"{"content":[{},{"image_url":null}]}"#)));
    assert!(!message_contains_image(&json(r#"{"content":[{"type":"text"}]}"#)));
    assert!(!message_contains_image(&json(r#"{"content":"image_url"}"#)));
}

#[test]
fn tokens_are_counted_by_the_tokenizer() {
    assert_eq!(estimate_json(&json("null")), 1);
    assert!(estimate_json(&json(r#"{"text":"several words of text"}"#)) > 4);
    let usage = add_tokens(ContextTokenUsage::default(), Category::Memory, 3);
    assert_eq!(usage.memory, 3);
    assert_eq!(add_tokens(usage, Category::Memory, u64::MAX).memory, u64::MAX);
}

#[test]
fn shares_add_up_to_the_total() {
    let mut usage = ContextTokenUsage {
        system: 1,
        compact: 1,
        memory: 1,
        user: 0,
        model: 0,
        tool: 0,
    };
    usage.normalize_to(5);
    assert_eq!((usage.system, usage.compact, usage.memory), (2, 2, 1));
    assert_eq!(usage.sum(), 5);
    usage.normalize_to(0);
    assert_eq!(usage, ContextTokenUsage::default());
    usage.normalize_to(7);
    assert_eq!(usage, ContextTokenUsage::default());

    let mut large = ContextTokenUsage {
        system: u64::MAX,
        compact: u64::MAX,
        memory: u64::MAX,
        user: u64::MAX,
        model: u64::MAX,
        tool: u64::MAX,
    };
    assert_eq!(large.sum(), u64::MAX);
    large.normalize_to(u64::MAX);
    assert_eq!(large.sum(), u64::MAX);
    assert!(large.tool < u64::MAX / 5);
}

#[test]
fn the_answer_is_counted_in_full() {
    let usage = ContextTokenUsage { user: 3, ..ContextTokenUsage::default() };
    let api = ApiUsage { input_tokens: 10, output_tokens: 5, total_tokens: 15 };
    let settled = settle_request(usage, api);
    assert_eq!((settled.user, settled.model), (10, 5));
}

#[test]
fn contexts_with_too_much_white_space_are_not_counted() {
    let context = |gap: usize| ModelContext {
        messages: vec![Value::String(format!("a{}b", " ".repeat(gap)))],
        tools: Vec::new(),
    };
    let api = ApiUsage { input_tokens: 10, output_tokens: 5, total_tokens: 15 };
    let small = context(3);
    assert_eq!(try_estimate_request(&small, api), Some(estimate_request(&small, api)));
    assert_eq!(
        try_estimate_current_context(&small, 7),
        Some(estimate_current_context(&small, 7))
    );
    let large = context(MAX_GAP + 1);
    assert_eq!(try_estimate_request(&large, api), None);
    assert_eq!(try_estimate_current_context(&large, 7), None);
    assert_eq!(try_estimate_json(&large.messages[0]), None);
    assert!(is_countable_text(&" ".repeat(MAX_GAP)));
    assert!(!is_countable_text(&" ".repeat(MAX_GAP + 1)));
}

#[test]
fn the_longest_gap_is_still_counted() {
    assert!(estimate_json(&Value::String(format!("a{}b", " ".repeat(MAX_GAP)))) > 1);
}
