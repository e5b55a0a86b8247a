//! Compaction.

use me::compact::advisory;
use me::compact::catalog_parts;
use me::compact::continuation_message;
use me::compact::emergency_output_limit;
use me::compact::execute;
use me::compact::execute_with;
use me::compact::format_summary;
use me::compact::merge_segmented_summary;
use me::compact::refusal_message;
use me::compact::segmented_prompt;
use me::compact::usable_remaining;
use me::compact::INSTRUCTIONS;
use me::compact::SEGMENTED_ANALYSIS_PROMPT;
use me::compact::TOOLBOX_BRIEF;
use me::compact::TOOL_NAME;
use me::compact::WORKER_COMPACT_PROMPT;
use me::event::CompactStage;
use me::toolbox::ToolboxExecutionError;
use serde_json::Value;

/// The share of the window in use, as it stands in a refusal.
fn percentage(used: u64, window: u64) -> String {
    format!("{:.1}", used as f64 * 100.0 / window as f64)
}

#[test]
fn compact_is_one_empty_input_native_tool() {
    let (tools, _) = catalog_parts();
    assert_eq!(tools.len(), 1);
    assert_eq!(tools[0].full_name, TOOL_NAME);
    let share = percentage(90_000, 100_000);
    let accepted = execute("{}", true, Some(90_000), 100_000, 0, &share).unwrap();
    assert_eq!(accepted.to_string(), r#"{"status":"accepted"}"#);
    assert!(execute(r#"{"extra":true}"#, true, Some(90_000), 100_000, 0, &share).is_err());
}

#[test]
fn compact_requires_an_active_warning_and_reports_usage() {
    let share = percentage(52_000, 100_000);
    let error = execute("{}", false, Some(52_000), 100_000, 0, &share).unwrap_err();
    assert!(matches!(
        error,
        ToolboxExecutionError::Tool {
            code,
            message,
            retryable: false,
        } if code == "compact_not_needed"
            && message.contains("52000/100000")
            && message.contains("52.0%")
            && message.contains("48000 usable tokens remaining")
            && message.contains("Context is healthy")
    ));

    let share = percentage(52_001, 100_000);
    let crossed = execute("{}", false, Some(52_001), 100_000, 0, &share).unwrap_err();
    assert!(matches!(
        crossed,
        ToolboxExecutionError::Tool { message, .. }
            if message.contains("No compaction warning was active when this response began")
                && message.contains("wait for the runtime warning")
    ));
}

#[test]
fn segmented_and_worker_prompts_have_distinct_contracts() {
    assert!(SEGMENTED_ANALYSIS_PROMPT.contains("stage 1 of a six-stage"));
    assert!(SEGMENTED_ANALYSIS_PROMPT.contains("five summary sections"));
    assert!(SEGMENTED_ANALYSIS_PROMPT.contains("1. Primary Request and Intent"));
    assert!(SEGMENTED_ANALYSIS_PROMPT.contains("5. Current State and Continuation Plan"));
    assert!(SEGMENTED_ANALYSIS_PROMPT.contains("Output only the preparation analysis"));
    assert!(SEGMENTED_ANALYSIS_PROMPT.contains("Do not use XML tags"));
    assert!(!SEGMENTED_ANALYSIS_PROMPT.contains("All user messages"));
    for stage in CompactStage::segmented().into_iter().skip(1) {
        let prompt = segmented_prompt(stage);
        assert!(prompt.contains("raw Markdown"));
        assert!(prompt.contains("Do not output analysis"));
        assert!(prompt.contains("XML tags"));
    }
    assert!(WORKER_COMPACT_PROMPT.contains("Do NOT call any tool"));
    assert!(WORKER_COMPACT_PROMPT.contains("Manager Request and Scope"));
    assert!(WORKER_COMPACT_PROMPT.contains("Worker conversation"));
    assert!(WORKER_COMPACT_PROMPT.contains("Manager correction or feedback"));
    assert!(WORKER_COMPACT_PROMPT.contains("\n6. Pending Operations:"));
    assert!(WORKER_COMPACT_PROMPT.contains("\n7. Current Work:"));
    assert!(WORKER_COMPACT_PROMPT.contains("\n8. Optional Next Step:"));
    assert!(!WORKER_COMPACT_PROMPT.contains("All user messages"));
    assert!(!WORKER_COMPACT_PROMPT.to_ascii_lowercase().contains("user"));
    assert!(
        !WORKER_COMPACT_PROMPT
            .to_ascii_lowercase()
            .contains("assistant")
    );
    let formatted =
        format_summary("<analysis>draft</analysis>\n\n<summary>\nalpha\n\n\n beta\n</summary>");
    assert_eq!(formatted, "Summary:\nalpha\n\n beta");
    assert!(!formatted.contains("draft"));
    let merged = merge_segmented_summary(&["1. First\nbody", " 2. Second\nbody "]);
    assert_eq!(merged, "1. First\nbody\n\n2. Second\nbody");
    let continuation = continuation_message(&merged);
    assert!(continuation.contains("call WorkMap.Read"));
    assert!(continuation.contains("final-answer audit performed before compaction is stale"));
    assert!(continuation.ends_with(&merged));
}

#[test]
fn advisory_uses_both_context_window_classes() {
    assert!(advisory(140_000, 272_000, 0).is_none());
    assert!(advisory(224_000, 272_000, 0).is_none());
    assert!(advisory(224_001, 272_000, 0).is_some());
    assert!(advisory(52_001, 100_000, 0).is_some());
    assert!(advisory(52_000, 100_000, 0).is_none());
    assert!(advisory(68_001, 100_000, 0).unwrap().contains("must call"));
    assert!(
        advisory(824_001, 1_000_000, 0)
            .unwrap()
            .contains("Consider")
    );
    assert!(
        advisory(872_001, 1_000_000, 0)
            .unwrap()
            .contains("must call")
    );
}

#[test]
fn advisory_subtracts_the_reserved_output_budget() {
    let context_window = 1_000_000;
    let output_reservation = 393_216;
    assert!(advisory(430_784, context_window, output_reservation).is_none());
    assert!(
        advisory(430_785, context_window, output_reservation)
            .unwrap()
            .contains("running low")
    );
    assert!(
        advisory(478_785, context_window, output_reservation)
            .unwrap()
            .contains("must call")
    );
    assert_eq!(
        usable_remaining(638_779, context_window, output_reservation),
        0
    );
}

#[test]
fn emergency_output_limit_preserves_the_urgent_safety_margin() {
    assert_eq!(
        emergency_output_limit(638_779, 1_000_000, 393_216),
        Some(233_221)
    );
    assert_eq!(emergency_output_limit(100_000, 1_000_000, 393_216), None);
    assert_eq!(emergency_output_limit(99_000, 100_000, 64_000), Some(1));
    assert_eq!(emergency_output_limit(90_000, 100_000, 0), None);
}

#[test]
fn arguments_that_are_not_json_are_refused_with_the_reason() {
    let ToolboxExecutionError::Tool { code, message, retryable } =
        execute("{", true, None, 100_000, 0, "0.0").unwrap_err();
    assert_eq!(code, "invalid_arguments");
    assert!(message.contains("EOF while parsing"));
    assert!(!retryable);
    let ToolboxExecutionError::Tool { code, message, .. } =
        execute("[]", true, None, 100_000, 0, "0.0").unwrap_err();
    assert_eq!(code, "invalid_arguments");
    assert_eq!(message, "Compact accepts only an empty object");
}

#[test]
fn arguments_that_have_been_read_are_answered_alike() {
    let empty = Value::Object(serde_json::Map::new());
    assert!(execute_with(&empty, true, None, 1, 0, "").is_ok());
    assert!(execute_with(&Value::Null, true, None, 1, 0, "").is_err());
    let ToolboxExecutionError::Tool { code, message, .. } =
        execute_with(&empty, false, None, 1, 0, "").unwrap_err();
    assert_eq!(code, "compact_not_needed");
    assert!(message.starts_with("Current context usage is not yet available"));
}

#[test]
fn a_refusal_names_every_number() {
    assert_eq!(
        refusal_message(Some(1_000), 1_000_000, 10, "0.1"),
        "Context is healthy: 1000/1000000 tokens used (0.1%), with 998990 usable tokens remaining after the response budget. No compaction warning is active, so Compact is not allowed or needed. Continue the task without compacting."
    );
}

#[test]
fn the_tool_is_described_by_exact_schemas() {
    let (tools, (name, brief)) = catalog_parts();
    assert_eq!(name, "Compact");
    assert_eq!(brief, TOOLBOX_BRIEF);
    assert_eq!(tools[0].instructions, INSTRUCTIONS);
    assert_eq!(
        tools[0].input_schema.to_string(),
        r#"{"additionalProperties":false,"properties":{},"type":"object"}"#
    );
    assert_eq!(
        tools[0].output_schema.to_string(),
        r#"{"additionalProperties":false,"properties":{"status":{"const":"accepted"}},"required":["status"],"type":"object"}"#
    );
}

#[test]
fn advice_stays_as_the_conversation_grows() {
    let mut advised = false;
    for used in [0, 50_000, 52_000, 52_001, 68_000, 68_001, 99_999, 200_000] {
        let now = advisory(used, 100_000, 0).is_some();
        assert!(now || !advised);
        advised = now;
    }
    assert!(advisory(68_001, 100_000, 0).unwrap().starts_with("Only 31999 usable"));
    assert_eq!(usable_remaining(u64::MAX, 10, u64::MAX), 0);
}

#[test]
fn an_emergency_limit_leaves_the_margin_free() {
    assert_eq!(emergency_output_limit(60_000, 100_000, 10_000), Some(8_000));
    assert_eq!(emergency_output_limit(60_000, 100_000, 8_000), None);
    assert_eq!(emergency_output_limit(u64::MAX, 0, 2), Some(1));
    assert_eq!(emergency_output_limit(0, 0, 1), None);
}

#[test]
fn summaries_without_tags_are_only_tidied() {
    assert_eq!(format_summary("  plain\r\ntext \n\n\n\nend  "), "plain\ntext \n\nend");
    assert_eq!(format_summary("<analysis>open"), "<analysis>open");
    assert_eq!(format_summary("<summary>open"), "<summary>open");
    assert_eq!(format_summary("a<summary> b </summary>c"), "aSummary:\nbc");
    assert_eq!(merge_segmented_summary(&["", "  ", "one", "\n", "two"]), "one\n\ntwo");
    assert_eq!(merge_segmented_summary(&[]), "");
    assert!(segmented_prompt(CompactStage::Analysis) == SEGMENTED_ANALYSIS_PROMPT);
}

#[test]
fn summaries_have_no_two_empty_lines_in_a_row() {
    let summary = format_summary("\n\n\na\n \n\t\n\nb\n\n\n\nc\n\n");
    assert_eq!(summary, "a\n\nb\n\nc");
    assert!(!summary.contains("\n\n\n"));
}

#[test]
fn sections_merge_in_parts() {
    let first = ["", " one\n", "two"];
    let second = ["\n", "three "];
    let all = ["", " one\n", "two", "\n", "three "];
    let merged = merge_segmented_summary(&all);
    assert_eq!(merged, "one\n\ntwo\n\nthree");
    let parts = [merge_segmented_summary(&first), merge_segmented_summary(&second)];
    assert_eq!(merge_segmented_summary(&[&parts[0], &parts[1]]), merged);
    assert_eq!(merge_segmented_summary(&["", &merged]), merged);
    assert_eq!(merge_segmented_summary(&["\n a\n\nb \t"]), "a\n\nb");
    assert_eq!(merge_segmented_summary(&["", " \n\t"]), "");
}

#[test]
fn stages_are_asked_for_different_sections() {
    let headings = [
        "",
        "1. Primary Request and Intent",
        "2. Key Technical Context and Decisions",
        "3. Files, Code, and Artifacts",
        "4. Problems, Investigations, and Resolutions",
        "5. Current State and Continuation Plan",
    ];
    let stages = [
        CompactStage::Analysis,
        CompactStage::PrimaryRequestAndIntent,
        CompactStage::KeyTechnicalContextAndDecisions,
        CompactStage::FilesCodeAndArtifacts,
        CompactStage::ProblemsInvestigationsAndResolutions,
        CompactStage::CurrentStateAndContinuationPlan,
    ];
    for (i, stage) in stages.iter().enumerate() {
        let prompt = segmented_prompt(*stage);
        for other in &stages[..i] {
            assert_ne!(prompt, segmented_prompt(*other));
        }
        assert!(prompt.contains(headings[i]));
        assert!(SEGMENTED_ANALYSIS_PROMPT.contains(headings[i]));
        if i > 0 {
            assert!(prompt.starts_with(&format!("This is stage {} ", i + 1)));
        }
    }
}
