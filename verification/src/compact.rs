//! Compaction: when the context of a conversation runs low, what the model is asked for, and how
//! its summary is put to use.

use serde_json::Value;
use vstd::prelude::*;

pub mod limits;
pub mod merging;
pub mod prompts;

use crate::event::CompactStage;
use crate::json::array_value;
use crate::json::bool_value;
use crate::json::contents;
use crate::json::count_members;
use crate::json::entries_view;
use crate::json::error_message;
use crate::json::json_content;
use crate::json::json_fault;
use crate::json::members_of;
use crate::json::object_value;
use crate::json::parse_json;
use crate::json::parsed_json;
use crate::json::text_value;
use crate::json::Json;
use crate::parts::joined_with;
use crate::parts::lemma_lines_hold_no_breaks;
use crate::parts::lines_of;
use crate::parts::split_lines;
use crate::text::chars_of;
use crate::text::decimal;
use crate::text::decimal_text;
use crate::text::find_from;
use crate::text::find_pattern;
use crate::text::is_blank;
use crate::text::is_blank_text;
use crate::text::lemma_find_from;
use crate::text::text_range;
use crate::text::texts_view;
use crate::text::trim_text;
use crate::text::trimmed;
use crate::toolbox::ErrorText;
use crate::toolbox::ToolText;
use crate::toolbox::ToolboxExecutionError;
use crate::toolbox::ToolboxTool;

verus! {

/// The name of the tool.
pub const TOOL_NAME: &'static str = "Compact";

/// The name of the toolbox.
pub const TOOLBOX_NAME: &'static str = "Compact";

/// What the toolbox is for.
pub const TOOLBOX_BRIEF: &'static str = r#"Compact replaces the conversation accumulated so far with one detailed continuation summary when context space is running low.

Call Compact only after the runtime explicitly warns that context space is running low, and only at a safe point: finish the current atomic action, persist any valuable WorkMap state, and make Compact the only tool call in that model response. Compact has no arguments. The runtime rejects Compact when no warning is active and reports the current context usage. After accepting the request, the runtime will ask you for a text-only summary, activate it only after successful completion, then continue the same Agent turn. WorkMap survives compaction independently of the summary; after compaction succeeds, call WorkMap.Read before any further non-WorkMap action and repeat any final audit. Do not call Compact merely to shorten a healthy context, and do not narrate or imitate compaction in assistant text."#;

/// How the tool is called.
pub const INSTRUCTIONS: &'static str = r#"Call with an empty object only after the runtime explicitly issues a context-low warning. Compact must be the sole tool call in the response. A call made without an active warning is rejected with the current context usage. After the tool is accepted, the runtime performs the summary request automatically; do not issue other tools in that response."#;

/// When the tool is called.
pub const ROUTE: &'static str = "Compress the accumulated conversation at a safe point only after the runtime explicitly warns that context is running low. It must be the sole tool call in the response.";

/// How a call looks.
pub const EXAMPLES: &'static str = r#"Input: {}
Meaning: request one context compaction at the current safe point."#;

/// What the model is asked for first: an analysis of the conversation.
pub const SEGMENTED_ANALYSIS_PROMPT: &'static str = r#"CRITICAL: Respond with raw text only. Do not call any tools.

This is stage 1 of a six-stage context compaction process.

The complete pre-compaction conversation is still available and unchanged. Your task in this stage is to analyze and organize that conversation for the five summary sections defined below.

Do not write the final summary.
Do not write any of the five final sections.
Do not use XML tags such as <analysis> or <summary>.
Output only your compaction preparation analysis. This analysis will remain visible during the following five stages and will be used to produce each final section separately.

The final summary will contain these five sections:

1. Primary Request and Intent
   Preserve the user's explicit objectives, constraints, preferences, acceptance requirements, corrections, and direction changes. Distinguish active requirements from requirements that were superseded or withdrawn. Preserve security-sensitive, permission-related, credential-handling, and data-handling constraints exactly where their wording matters.

2. Key Technical Context and Decisions
   Preserve important technical concepts, architecture, runtime behavior, confirmed facts, material assumptions, interfaces, protocols, invariants, design decisions, trade-offs, rejected approaches, and the reasons behind decisions.

3. Files, Code, and Artifacts
   Preserve relevant files, directories, functions, types, interfaces, code locations, commands, configurations, generated artifacts, important code snippets, actual changes, and why each item matters for continuing the work.

4. Problems, Investigations, and Resolutions
   Treat each material problem as one lifecycle: observed symptom, evidence, investigation, confirmed or suspected cause, unsuccessful attempts, chosen resolution, reason for that resolution, verification result, and anything still unresolved. Do not separately duplicate the same problem as both an error and a problem-solving entry.

5. Current State and Continuation Plan
   Preserve the exact current state: completed work, active work, precise stopping point, remaining work, blockers, required evidence or prerequisites, and the next operation that follows directly from the latest active request. If the requested work is already complete, state that no continuation step remains.

Analyze the conversation chronologically, then prepare a coverage plan for these five sections.

Your analysis must:

- identify every active user request and every material correction or constraint;
- distinguish observed facts from inference and unresolved uncertainty;
- distinguish completed, active, pending, cancelled, and superseded work;
- preserve exact technical identifiers, paths, function names, commands, errors, interfaces, and important code where needed;
- identify contradictions and resolve them using the latest applicable user instruction;
- assign each material fact to the most appropriate final section;
- avoid unnecessary duplication between sections;
- identify details that must be quoted exactly to prevent semantic drift;
- give extra attention to the latest conversation and the exact continuation point;
- include enough detail that the following stages can write each section without re-analyzing or guessing.

Output only the preparation analysis. Do not produce the final compacted summary in this stage."#;

/// What the model is asked for next: what the user wants.
pub const PRIMARY_REQUEST_PROMPT: &'static str = r#"This is stage 2 of the context compaction process. Output only the complete final section `1. Primary Request and Intent` as raw Markdown, including that exact heading and its body. Use the preparation analysis and the unchanged full conversation. Do not output analysis, any other section, XML tags, commentary, or tool calls."#;

/// What the model is asked for next: technical context and decisions.
pub const TECHNICAL_CONTEXT_PROMPT: &'static str = r#"This is stage 3 of the context compaction process. Output only the complete final section `2. Key Technical Context and Decisions` as raw Markdown, including that exact heading and its body. Use the preparation analysis, previously completed section, and the unchanged full conversation. Do not output analysis, any other section, XML tags, commentary, or tool calls."#;

/// What the model is asked for next: files, code and artifacts.
pub const FILES_AND_ARTIFACTS_PROMPT: &'static str = r#"This is stage 4 of the context compaction process. Output only the complete final section `3. Files, Code, and Artifacts` as raw Markdown, including that exact heading and its body. Use the preparation analysis, previously completed sections, and the unchanged full conversation. Do not output analysis, any other section, XML tags, commentary, or tool calls."#;

/// What the model is asked for next: problems and how they were resolved.
pub const PROBLEMS_PROMPT: &'static str = r#"This is stage 5 of the context compaction process. Output only the complete final section `4. Problems, Investigations, and Resolutions` as raw Markdown, including that exact heading and its body. Treat each problem as one lifecycle rather than recreating separate error and problem-solving sections. Use the preparation analysis, previously completed sections, and the unchanged full conversation. Do not output analysis, any other section, XML tags, commentary, or tool calls."#;

/// What the model is asked for last: the current state and how to go on.
pub const CURRENT_STATE_PROMPT: &'static str = r#"This is stage 6 of the context compaction process. Output only the complete final section `5. Current State and Continuation Plan` as raw Markdown, including that exact heading and its body. Semantically integrate completed work, active work, the exact stopping point, pending work, blockers, prerequisites, and the directly applicable next operation. If the request is complete, explicitly state that no continuation step remains. Use the preparation analysis, previously completed sections, and the unchanged full conversation. Do not output analysis, any other section, XML tags, commentary, or tool calls."#;

/// What a worker is asked for: analysis and summary in one answer.
pub const WORKER_COMPACT_PROMPT: &'static str = r#"CRITICAL: Respond with TEXT ONLY. Do NOT call any tools.

- Do NOT call any tool, regardless of which tools are currently available.
- You already have all the context you need in the conversation above.
- Tool calls will be REJECTED and will waste your only turn — you will fail the task.
- Your entire response must be plain text: an <analysis> block followed by a <summary> block.

Your task is to create a detailed summary of the Worker conversation so far, paying close attention to the Manager's explicit instructions and your previous actions.
This summary should be thorough in capturing technical details, code patterns, execution evidence, and operational state that would be essential for continuing the Manager's requested work without losing context.

Before providing your final summary, wrap your analysis in <analysis> tags to organize your thoughts and ensure you've covered all necessary points. In your analysis process:

1. Chronologically analyze each Manager instruction and section of the conversation. For each section thoroughly identify:
   - The Manager's explicit instruction, intended operational result, scope, and constraints
   - Your approach to executing the Manager's instruction
   - Key decisions already supplied by the Manager, technical concepts, code patterns, and mechanical execution details
   - Specific details like:
     - file names
     - full code snippets
     - function signatures
     - file edits
     - commands, tool state, paths, identifiers, and evidence needed to continue
   - Errors that you ran into and how you handled or reported them
   - Pay special attention to specific corrections or feedback from the Manager, especially if the Manager told you to do something differently.
   - Note any security-relevant instructions or constraints communicated by the Manager or the system (e.g., sensitive files or data to avoid, operations that must not be performed, credential or secret handling rules). These MUST be preserved verbatim in the summary so they continue to apply after compaction.
2. Double-check for technical accuracy and completeness, addressing each required element thoroughly. Preserve observed facts and evidence without inventing interpretation, review judgments, acceptance judgments, or substantive content that the Manager did not supply.

Your summary should include the following sections:

1. Manager Request and Scope: Capture the Manager's current instruction, intended operational result, boundaries, supplied content, and continuing constraints in detail.
2. Key Technical Concepts: List all important technical concepts, technologies, and code patterns already established by the Manager or observed during execution.
3. Files, Code, and Evidence: Enumerate specific files, code sections, logs, commands, tool state, paths, identifiers, and evidence examined, modified, created, or still needed. Pay special attention to the most recent work and include full code snippets where applicable and a summary of why each item matters for continuation.
4. Errors and fixes: List all errors that you ran into, how you handled or reported them, and any relevant correction from the Manager.
5. Execution Progress: Document completed operations, material observations, changes made, checks executed, evidence collected, and ongoing operational work without adding review or acceptance conclusions.
6. Pending Operations: Outline any operations the Manager explicitly requested that are not yet complete, including blockers and required evidence.
7. Current Work: Describe in detail precisely what was being executed immediately before this summary request, paying special attention to the most recent Manager instruction and Worker actions. Include file names, code snippets, tool state, and exact continuation points where applicable.
8. Optional Next Step: List the next operational step only when it follows directly from the Manager's most recent explicit instruction and the work already in progress. Do not invent a new objective, solution, judgment, or adjacent task.
                       If there is a next step, include direct quotes from the most recent Manager instruction showing exactly what operation was requested and where execution stopped. This should be verbatim to ensure there is no drift.

Here's an example of how your output should be structured:

<example>
<analysis>
[Your analysis, ensuring all operational details are covered thoroughly and accurately]
</analysis>

<summary>
1. Manager Request and Scope:
   [Detailed description]

2. Key Technical Concepts:
   - [Concept 1]
   - [Concept 2]
   - [...]

3. Files, Code, and Evidence:
   - [File Name or Evidence Item 1]
      - [Summary of why this item is important]
      - [Summary of observations or exact changes, if any]
      - [Important Code Snippet, Path, Identifier, or Tool State]
   - [File Name or Evidence Item 2]
      - [Important detail]
   - [...]

4. Errors and fixes:
    - [Detailed description of error 1]:
      - [How it was handled or reported]
      - [Manager correction or feedback if any]
    - [...]

5. Execution Progress:
   [Description of completed operations, evidence, and ongoing work]

6. Pending Operations:
   - [Operation 1]
   - [Operation 2]

7. Current Work:
   [Precise description of the current operation and continuation point]

8. Optional Next Step:
   [Optional next operational step]

</summary>
</example>

Please provide your summary based on the Worker conversation so far, following this structure and ensuring precision and thoroughness in your response.

REMINDER: Do NOT call any tools. Respond with plain text only — an <analysis> block followed by a <summary> block. Tool calls will be rejected and you will fail the task."#;

/// What the model is asked for in `stage`.
pub open spec fn stage_prompt(stage: CompactStage) -> Seq<char> {
    match stage {
        CompactStage::Analysis => SEGMENTED_ANALYSIS_PROMPT@,
        CompactStage::PrimaryRequestAndIntent => PRIMARY_REQUEST_PROMPT@,
        CompactStage::KeyTechnicalContextAndDecisions => TECHNICAL_CONTEXT_PROMPT@,
        CompactStage::FilesCodeAndArtifacts => FILES_AND_ARTIFACTS_PROMPT@,
        CompactStage::ProblemsInvestigationsAndResolutions => PROBLEMS_PROMPT@,
        CompactStage::CurrentStateAndContinuationPlan => CURRENT_STATE_PROMPT@,
    }
}

/// What the model is asked for in a stage.
pub fn segmented_prompt(stage: CompactStage) -> (r: &'static str)
    ensures
        r@ == stage_prompt(stage),
{
    match stage {
        CompactStage::Analysis => SEGMENTED_ANALYSIS_PROMPT,
        CompactStage::PrimaryRequestAndIntent => PRIMARY_REQUEST_PROMPT,
        CompactStage::KeyTechnicalContextAndDecisions => TECHNICAL_CONTEXT_PROMPT,
        CompactStage::FilesCodeAndArtifacts => FILES_AND_ARTIFACTS_PROMPT,
        CompactStage::ProblemsInvestigationsAndResolutions => PROBLEMS_PROMPT,
        CompactStage::CurrentStateAndContinuationPlan => CURRENT_STATE_PROMPT,
    }
}

/// The characters of each of `texts`.
pub open spec fn strs_view(texts: Seq<&str>) -> Seq<Seq<char>> {
    texts.map_values(|text: &str| text@)
}

/// Those of `sections` that are not blank, without the white space around them.
pub open spec fn kept_sections(sections: Seq<Seq<char>>) -> Seq<Seq<char>>
    decreases sections.len(),
{
    if sections.len() == 0 {
        Seq::empty()
    } else {
        let kept = kept_sections(sections.drop_last());
        let section = trimmed(sections.last());
        if section.len() == 0 {
            kept
        } else {
            kept.push(section)
        }
    }
}

/// What `sections` come to: those that are not blank, one below the other with an empty line in
/// between.
pub open spec fn sections_merged(sections: Seq<Seq<char>>) -> Seq<char> {
    joined_with(kept_sections(sections), "\n\n"@)
}

proof fn lemma_kept_sections(sections: Seq<Seq<char>>)
    ensures
        forall|i: int|
            0 <= i < kept_sections(sections).len() ==> (#[trigger] kept_sections(
                sections,
            )[i]).len() > 0,
        sections_merged(sections).len() == 0 ==> kept_sections(sections).len() == 0,
    decreases sections.len(),
{
    if sections.len() > 0 {
        lemma_kept_sections(sections.drop_last());
    }
    let kept = kept_sections(sections);
    if kept.len() > 1 {
        assert(kept[kept.len() - 1].len() > 0);
    } else if kept.len() == 1 {
        assert(kept[0].len() > 0);
    }
}

/// The sections of a summary, one below the other with an empty line in between.
pub fn merge_segmented_summary(sections: &[&str]) -> (r: String)
    ensures
        r@ == sections_merged(strs_view(sections@)),
{
    let ghost all = strs_view(sections@);
    let mut output = String::new();
    for i in 0..sections.len()
        invariant
            all == strs_view(sections@),
            output@ == sections_merged(all.take(i as int)),
    {
        assert(all.take(i + 1).drop_last() =~= all.take(i as int));
        assert(all.take(i + 1).last() == sections@[i as int]@);
        let ghost kept = kept_sections(all.take(i as int));
        proof {
            lemma_kept_sections(all.take(i as int));
        }
        let section = trim_text(sections[i]);
        if !section.as_str().is_empty() {
            let ghost now = kept.push(section@);
            assert(now.drop_last() =~= kept);
            if !output.as_str().is_empty() {
                output.append("\n\n");
                output.append(&section);
            } else {
                assert(joined_with(kept, "\n\n"@).len() == 0);
                output.append(&section);
                assert(output@ =~= section@);
            }
        }
    }
    assert(all.take(all.len() as int) =~= all);
    output
}

/// `value` without the first part that begins with `open` and ends with `close`.
pub open spec fn section_stripped(value: Seq<char>, open: Seq<char>, close: Seq<char>) -> Seq<
    char,
> {
    match find_from(value, open, 0) {
        None => value,
        Some(start) => match find_from(value, close, start + open.len()) {
            None => value,
            Some(end) => value.take(start) + value.skip(end + close.len()),
        },
    }
}

/// `value` with its first summary under a heading in place of its tags.
pub open spec fn summary_replaced(value: Seq<char>) -> Seq<char> {
    match find_from(value, "<summary>"@, 0) {
        None => value,
        Some(start) => match find_from(value, "</summary>"@, start + "<summary>"@.len()) {
            None => value,
            Some(end) => value.take(start) + "Summary:\n"@ + trimmed(
                value.subrange(start + "<summary>"@.len(), end),
            ) + value.skip(end + "</summary>"@.len()),
        },
    }
}

/// Lines that have been written, and whether the last one was blank.
#[verifier::ext_equal]
pub struct Collapse {
    pub output: Seq<char>,
    pub blank: bool,
}

/// `state` after one more line: of blank lines only the first one is kept, and only its end.
pub open spec fn line_collapsed(state: Collapse, line: Seq<char>) -> Collapse {
    if is_blank(line) {
        Collapse {
            output: if !state.blank && state.output.len() > 0 {
                state.output.push('\n')
            } else {
                state.output
            },
            blank: true,
        }
    } else {
        Collapse {
            output: (if state.output.len() > 0 {
                state.output.push('\n')
            } else {
                state.output
            }) + line,
            blank: false,
        }
    }
}

/// What `lines` come to.
pub open spec fn lines_collapsed(lines: Seq<Seq<char>>) -> Collapse
    decreases lines.len(),
{
    if lines.len() == 0 {
        Collapse { output: Seq::empty(), blank: false }
    } else {
        line_collapsed(lines_collapsed(lines.drop_last()), lines.last())
    }
}

/// `value` with no more than one blank line in a row.
pub open spec fn blank_lines_collapsed(value: Seq<char>) -> Seq<char> {
    lines_collapsed(lines_of(value)).output
}

/// Whether `text` does not begin with an empty line and has no two of them in a row.
pub open spec fn has_single_gaps(text: Seq<char>) -> bool {
    &&& text.len() > 0 ==> text[0] != '\n'
    &&& forall|i: int|
        0 < i < text.len() - 1 && #[trigger] text[i] == '\n' ==> !(text[i - 1] == '\n' && text[i
            + 1] == '\n')
}

spec fn is_collapsed(state: Collapse) -> bool {
    let size = state.output.len() as int;
    &&& has_single_gaps(state.output)
    &&& size > 0 && state.blank ==> size > 1 && state.output[size - 1] == '\n'
        && state.output[size - 2] != '\n'
    &&& size > 0 && !state.blank ==> state.output[size - 1] != '\n'
}

proof fn lemma_collapsed(lines: Seq<Seq<char>>)
    requires
        forall|i: int, j: int|
            0 <= i < lines.len() && 0 <= j < lines[i].len() ==> #[trigger] lines[i][j] != '\n',
    ensures
        is_collapsed(lines_collapsed(lines)),
    decreases lines.len(),
{
    if lines.len() > 0 {
        let last = lines.len() - 1;
        assert forall|i: int, j: int|
            0 <= i < lines.drop_last().len() && 0 <= j < lines.drop_last()[i].len() implies
            #[trigger] lines.drop_last()[i][j] != '\n' by {
            assert(lines[i][j] != '\n');
        }
        lemma_collapsed(lines.drop_last());
        let state = lines_collapsed(lines.drop_last());
        let line = lines[last];
        let after = line_collapsed(state, line);
        let size = state.output.len() as int;
        if is_blank(line) {
            assert(is_collapsed(after));
        } else {
            assert(line.len() > 0);
            assert(lines[last][0] != '\n' && lines[last][line.len() - 1] != '\n');
            assert(after.output.last() == line.last());
            assert forall|i: int|
                0 < i < after.output.len() - 1 && #[trigger] after.output[i] == '\n' implies !(
            after.output[i - 1] == '\n' && after.output[i + 1] == '\n') by {
                if i < size - 1 {
                    assert(state.output[i] == '\n');
                } else if size > 0 && i <= size {
                    assert(after.output[size + 1] == line[0]);
                } else {
                    let offset = if size > 0 {
                        size + 1
                    } else {
                        0
                    };
                    assert(after.output[i] == lines[last][i - offset]);
                }
            }
            assert(after.output[0] != '\n');
        }
    }
}

/// A summary does not begin with an empty line, and has no two of them in a row.
pub proof fn law_summaries_have_single_gaps(summary: Seq<char>)
    ensures
        has_single_gaps(formatted_summary(summary)),
{
    let value = trimmed(
        summary_replaced(section_stripped(summary, "<analysis>"@, "</analysis>"@)),
    );
    lemma_lines_hold_no_breaks(value);
    lemma_collapsed(lines_of(value));
}

/// `summary` without its analysis, with its tags replaced and its blank lines collapsed.
pub open spec fn formatted_summary(summary: Seq<char>) -> Seq<char> {
    blank_lines_collapsed(
        trimmed(summary_replaced(section_stripped(summary, "<analysis>"@, "</analysis>"@))),
    )
}

/// The text without the first part between the tags `open` and `close`, tags included.
fn strip_first_tagged_section(value: &str, open: &str, close: &str) -> (r: String)
    ensures
        r@ == section_stripped(value@, open@, close@),
{
    let chars = chars_of(value);
    let size = chars.len();
    let opening = chars_of(open);
    let closing = chars_of(close);
    proof {
        lemma_find_from(value@, open@, 0);
    }
    let start = match find_pattern(&chars, &opening, 0) {
        Some(start) => start,
        None => return value.to_owned(),
    };
    let body = start + opening.len();
    proof {
        lemma_find_from(value@, close@, body as int);
    }
    let end = match find_pattern(&chars, &closing, body) {
        Some(end) => end,
        None => return value.to_owned(),
    };
    let mut r = text_range(&chars, 0, start);
    r.append(&text_range(&chars, end + closing.len(), size));
    assert(r@ =~= value@.take(start as int) + value@.skip(end + close@.len()));
    r
}

/// The text with its first summary under a heading in place of its tags.
fn replace_first_summary(value: &str) -> (r: String)
    ensures
        r@ == summary_replaced(value@),
{
    let chars = chars_of(value);
    let size = chars.len();
    let opening = chars_of("<summary>");
    let closing = chars_of("</summary>");
    proof {
        lemma_find_from(value@, "<summary>"@, 0);
    }
    let start = match find_pattern(&chars, &opening, 0) {
        Some(start) => start,
        None => return value.to_owned(),
    };
    let body = start + opening.len();
    proof {
        lemma_find_from(value@, "</summary>"@, body as int);
    }
    let end = match find_pattern(&chars, &closing, body) {
        Some(end) => end,
        None => return value.to_owned(),
    };
    let mut r = text_range(&chars, 0, start);
    r.append("Summary:\n");
    r.append(&trim_text(&text_range(&chars, body, end)));
    r.append(&text_range(&chars, end + closing.len(), size));
    assert(r@ =~= value@.take(start as int) + "Summary:\n"@ + trimmed(
        value@.subrange(body as int, end as int),
    ) + value@.skip(end + "</summary>"@.len()));
    r
}

/// The text with no more than one blank line in a row.
fn collapse_blank_lines(value: &str) -> (r: String)
    ensures
        r@ == blank_lines_collapsed(value@),
{
    let lines = split_lines(value);
    let ghost all = texts_view(lines@);
    let mut output = String::new();
    let mut blank = false;
    for i in 0..lines.len()
        invariant
            all == texts_view(lines@),
            (Collapse { output: output@, blank }) == lines_collapsed(all.take(i as int)),
    {
        assert(all.take(i + 1).drop_last() =~= all.take(i as int));
        assert(all.take(i + 1).last() == lines@[i as int]@);
        let is_empty = output.as_str().is_empty();
        if is_blank_text(&lines[i]) {
            if !blank && !is_empty {
                output.push('\n');
            }
            blank = true;
        } else {
            if !is_empty {
                output.push('\n');
            }
            output.append(&lines[i]);
            blank = false;
        }
    }
    assert(all.take(all.len() as int) =~= all);
    output
}

/// The summary of an answer, without its analysis and its tags.
pub fn format_summary(summary: &str) -> (r: String)
    ensures
        r@ == formatted_summary(summary@),
{
    let without_analysis = strip_first_tagged_section(summary, "<analysis>", "</analysis>");
    let formatted = replace_first_summary(&without_analysis);
    collapse_blank_lines(&trim_text(&formatted))
}

/// What a conversation that goes on from a summary begins with.
pub const CONTINUATION_PREAMBLE: &'static str = "This session is being continued from a previous conversation that ran out of context. The summary below covers the earlier portion of the conversation.\n\nThe persistent WorkMap survives compaction separately from this summary. The summary is not authoritative for the Current Objective, its Plan IDs, Notes, or completion state. Before any further non-WorkMap action, call WorkMap.Read and resume from that result. Any final-answer audit performed before compaction is stale and must be repeated.\n\n";

/// The message with which a conversation goes on from a summary.
pub fn continuation_message(summary: &str) -> (r: String)
    ensures
        r@ == CONTINUATION_PREAMBLE@ + trimmed(summary@),
{
    let mut message = CONTINUATION_PREAMBLE.to_owned();
    message.append(&trim_text(summary));
    message
}

/// The tokens that are left when `used` tokens and the reserved ones are taken off the window.
pub open spec fn remaining_tokens(used: u64, window: u64, reservation: u64) -> int {
    if window < used + reservation {
        0
    } else {
        window - used - reservation
    }
}

/// The tokens that are left in the context window after the response budget.
pub fn usable_remaining(used_tokens: u64, context_window: u64, output_reservation: u64) -> (r: u64)
    ensures
        r == remaining_tokens(used_tokens, context_window, output_reservation),
{
    context_window.saturating_sub(used_tokens.saturating_add(output_reservation))
}

/// The remaining tokens below which compaction is advised.
pub open spec fn mild_limit(window: u64) -> int {
    if window < 500_000 {
        48_000
    } else {
        176_000
    }
}

/// The remaining tokens below which compaction is due.
pub open spec fn urgent_limit(window: u64) -> int {
    if window < 500_000 {
        32_000
    } else {
        128_000
    }
}

/// What the model is told where compaction is advised.
pub const MILD_ADVICE: &'static str = "Usable context space after the response budget is running low. Consider calling Compact as the sole tool call at the next safe point before continuing substantial work.";

/// What the model is told where compaction is due, behind the number of tokens that remain.
pub const URGENT_ADVICE: &'static str = " usable context tokens remain after reserving the response budget. Context is nearly exhausted. At the next safe point, you must call Compact immediately as the sole tool call before continuing further work.";

/// What the model is told, if anything.
pub open spec fn advice(used: u64, window: u64, reservation: u64) -> Option<Seq<char>> {
    let remaining = remaining_tokens(used, window, reservation);
    if remaining < urgent_limit(window) {
        Some("Only "@ + decimal(remaining as nat) + URGENT_ADVICE@)
    } else if remaining < mild_limit(window) {
        Some(MILD_ADVICE@)
    } else {
        None
    }
}

/// What the model is told about its context window, if anything.
pub fn advisory(used_tokens: u64, context_window: u64, output_reservation: u64) -> (r: Option<
    String,
>)
    ensures
        match r {
            Some(text) => advice(used_tokens, context_window, output_reservation) == Some(text@),
            None => advice(used_tokens, context_window, output_reservation) is None,
        },
{
    let remaining = usable_remaining(used_tokens, context_window, output_reservation);
    let (mild, urgent): (u64, u64) = if context_window < 500_000 {
        (48_000, 32_000)
    } else {
        (176_000, 128_000)
    };
    if remaining < urgent {
        let mut text = "Only ".to_owned();
        text.append(&decimal_text(remaining));
        text.append(URGENT_ADVICE);
        Some(text)
    } else if remaining < mild {
        Some(MILD_ADVICE.to_owned())
    } else {
        None
    }
}

/// Whoever is advised stays advised as the conversation grows or more is reserved, and a summons
/// stays one.
pub proof fn law_advice_grows(
    used: u64,
    window: u64,
    reservation: u64,
    more_used: u64,
    more_reserved: u64,
)
    requires
        used <= more_used,
        reservation <= more_reserved,
    ensures
        advice(used, window, reservation) is Some ==> advice(
            more_used,
            window,
            more_reserved,
        ) is Some,
        remaining_tokens(more_used, window, more_reserved) <= remaining_tokens(
            used,
            window,
            reservation,
        ),
        remaining_tokens(used, window, reservation) < urgent_limit(window) ==> remaining_tokens(
            more_used,
            window,
            more_reserved,
        ) < urgent_limit(window),
{
}

/// The most tokens that an answer may take so that the safety margin stays free, at least one.
pub open spec fn safe_output(used: u64, window: u64) -> int {
    let left = window - used - urgent_limit(window);
    if left < 1 {
        1
    } else {
        left
    }
}

/// The limit of an answer in an emergency: the safe one, where less than `configured`.
pub open spec fn emergency_limit(used: u64, window: u64, configured: u64) -> Option<int> {
    if configured != 0 && safe_output(used, window) < configured {
        Some(safe_output(used, window))
    } else {
        None
    }
}

/// The limit of an answer where the configured one would take up the safety margin.
pub fn emergency_output_limit(used_tokens: u64, context_window: u64, configured_output: u64) -> (r:
    Option<u64>)
    ensures
        match r {
            Some(limit) => emergency_limit(used_tokens, context_window, configured_output) == Some(
                limit as int,
            ),
            None => emergency_limit(used_tokens, context_window, configured_output) is None,
        },
{
    if configured_output == 0 {
        return None;
    }
    let safety_margin: u64 = if context_window < 500_000 {
        32_000
    } else {
        128_000
    };
    let left = context_window.saturating_sub(used_tokens).saturating_sub(safety_margin);
    let safe_limit = if left < 1 {
        1
    } else {
        left
    };
    if safe_limit < configured_output {
        Some(safe_limit)
    } else {
        None
    }
}

/// An emergency limit is below the configured one, allows something, and leaves the safety
/// margin free unless it is the least there is.
pub proof fn law_emergency_limit(used: u64, window: u64, configured: u64)
    ensures
        match emergency_limit(used, window, configured) {
            Some(limit) => {
                &&& 1 <= limit < configured
                &&& limit > 1 ==> used + limit + urgent_limit(window) == window
            },
            None => configured == 0 || configured == 1 || used + configured + urgent_limit(window)
                <= window,
        },
{
}

/// Whether `json` is an object without members.
pub open spec fn is_empty_object(json: Json) -> bool {
    json is Object && json->Object_0.dom() =~= Set::empty()
}

/// A failure that comes from the arguments of a call.
pub open spec fn argument_fault(message: Seq<char>) -> ErrorText {
    ErrorText { code: "invalid_arguments"@, message, retryable: false }
}

/// How much of the context is used, in numbers.
pub open spec fn usage_numbers(used: u64, window: u64) -> Seq<char> {
    decimal(used as nat) + "/"@ + decimal(window as nat)
}

/// What a call without need is told, where `percentage` is the share of the window in use.
pub open spec fn refusal(used: Option<u64>, window: u64, reservation: u64, percentage: Seq<char>)
    -> Seq<char> {
    match used {
        None => UNKNOWN_USAGE@,
        Some(tokens) => {
            let rest = decimal(remaining_tokens(tokens, window, reservation) as nat);
            if advice(tokens, window, reservation) is None {
                "Context is healthy: "@ + usage_numbers(tokens, window) + " tokens used ("@
                    + percentage + "%), with "@ + rest + HEALTHY_END@
            } else {
                UNWARNED_START@ + usage_numbers(tokens, window) + " tokens ("@ + percentage
                    + "%), with "@ + rest + UNWARNED_END@
            }
        },
    }
}

/// What a call without need is told where the usage is not known.
pub const UNKNOWN_USAGE: &'static str = "Current context usage is not yet available and no compaction warning is active. Compact is not allowed or needed; continue the task without compacting and wait for an explicit runtime warning.";

/// How the refusal ends where there is no need.
pub const HEALTHY_END: &'static str = " usable tokens remaining after the response budget. No compaction warning is active, so Compact is not allowed or needed. Continue the task without compacting.";

/// How the refusal begins where the need arose since.
pub const UNWARNED_START: &'static str = "No compaction warning was active when this response began. Current context usage is ";

/// How the refusal ends where the need arose since.
pub const UNWARNED_END: &'static str = " usable tokens remaining after the response budget. Compact is not allowed in this response; continue and wait for the runtime warning before calling Compact.";

/// What an accepted call is answered.
pub open spec fn acceptance() -> Json {
    Json::Object(members_of(seq![("status"@, Json::Text("accepted"@))]))
}

/// What a call is answered whose arguments are `arguments`.
pub open spec fn answer(
    arguments: Json,
    warning_active: bool,
    used: Option<u64>,
    window: u64,
    reservation: u64,
    percentage: Seq<char>,
) -> Result<Json, ErrorText> {
    if !is_empty_object(arguments) {
        Err(argument_fault("Compact accepts only an empty object"@))
    } else if !warning_active {
        Err(
            ErrorText {
                code: "compact_not_needed"@,
                message: refusal(used, window, reservation, percentage),
                retryable: false,
            },
        )
    } else {
        Ok(acceptance())
    }
}

/// A call is accepted exactly where it has an empty object for arguments and a warning is active.
pub proof fn law_only_warned_calls_are_accepted(
    arguments: Json,
    warning_active: bool,
    used: Option<u64>,
    window: u64,
    reservation: u64,
    percentage: Seq<char>,
)
    ensures
        answer(arguments, warning_active, used, window, reservation, percentage) is Ok <==> (
        is_empty_object(arguments) && warning_active),
{
}

fn usage_text(used_tokens: u64, context_window: u64) -> (r: String)
    ensures
        r@ == usage_numbers(used_tokens, context_window),
{
    let mut text = decimal_text(used_tokens);
    text.append("/");
    text.append(&decimal_text(context_window));
    text
}

/// What a call without need is told, where `percentage` is the share of the window in use.
pub fn refusal_message(
    used_tokens: Option<u64>,
    context_window: u64,
    output_reservation: u64,
    percentage: &str,
) -> (r: String)
    ensures
        r@ == refusal(used_tokens, context_window, output_reservation, percentage@),
{
    let used = match used_tokens {
        Some(used) => used,
        None => return UNKNOWN_USAGE.to_owned(),
    };
    let remaining = usable_remaining(used, context_window, output_reservation);
    let healthy = advisory(used, context_window, output_reservation).is_none();
    let mut text = if healthy {
        "Context is healthy: ".to_owned()
    } else {
        UNWARNED_START.to_owned()
    };
    text.append(&usage_text(used, context_window));
    if healthy {
        text.append(" tokens used (");
    } else {
        text.append(" tokens (");
    }
    text.append(percentage);
    text.append("%), with ");
    text.append(&decimal_text(remaining));
    if healthy {
        text.append(HEALTHY_END);
    } else {
        text.append(UNWARNED_END);
    }
    text
}

fn argument_error(message: String) -> (r: ToolboxExecutionError)
    ensures
        r@ == argument_fault(message@),
{
    ToolboxExecutionError::Tool {
        code: "invalid_arguments".to_owned(),
        message,
        retryable: false,
    }
}

/// The value that is an object with one member.
fn single_member(name: &str, value: Value) -> (r: Value)
    ensures
        json_content(r) == Json::Object(members_of(seq![(name@, json_content(value))])),
{
    let mut entries: Vec<(String, Value)> = Vec::new();
    entries.push((name.to_owned(), value));
    assert(entries_view(entries@) =~= seq![(name@, json_content(value))]);
    object_value(entries)
}

/// Answers a call of the tool whose arguments have been read.
pub fn execute_with(
    arguments: &Value,
    warning_active: bool,
    used_tokens: Option<u64>,
    context_window: u64,
    output_reservation: u64,
    percentage: &str,
) -> (r: Result<Value, ToolboxExecutionError>)
    ensures
        match r {
            Ok(value) => answer(
                json_content(*arguments),
                warning_active,
                used_tokens,
                context_window,
                output_reservation,
                percentage@,
            ) == Ok::<Json, ErrorText>(json_content(value)),
            Err(error) => answer(
                json_content(*arguments),
                warning_active,
                used_tokens,
                context_window,
                output_reservation,
                percentage@,
            ) == Err::<Json, ErrorText>(error@),
        },
{
    let count = count_members(arguments);
    proof {
        if let Json::Object(members) = json_content(*arguments) {
            if members.dom().len() == 0 {
                members.dom().lemma_len0_is_empty();
            }
        }
    }
    let accepted = match count {
        Some(size) => size == 0,
        None => false,
    };
    if !accepted {
        return Err(argument_error("Compact accepts only an empty object".to_owned()));
    }
    if !warning_active {
        return Err(
            ToolboxExecutionError::Tool {
                code: "compact_not_needed".to_owned(),
                message: refusal_message(
                    used_tokens,
                    context_window,
                    output_reservation,
                    percentage,
                ),
                retryable: false,
            },
        );
    }
    Ok(single_member("status", text_value("accepted")))
}

/// Answers a call of the tool. `percentage` is the share of the window in use, for the refusal.
pub fn execute(
    arguments: &str,
    warning_active: bool,
    used_tokens: Option<u64>,
    context_window: u64,
    output_reservation: u64,
    percentage: &str,
) -> (r: Result<Value, ToolboxExecutionError>)
    ensures
        match parsed_json(arguments@) {
            None => r matches Err(error) && error@ == argument_fault(json_fault(arguments@)),
            Some(json) => match r {
                Ok(value) => answer(
                    json,
                    warning_active,
                    used_tokens,
                    context_window,
                    output_reservation,
                    percentage@,
                ) == Ok::<Json, ErrorText>(json_content(value)),
                Err(error) => answer(
                    json,
                    warning_active,
                    used_tokens,
                    context_window,
                    output_reservation,
                    percentage@,
                ) == Err::<Json, ErrorText>(error@),
            },
        },
{
    match parse_json(arguments) {
        Ok(value) => execute_with(
            &value,
            warning_active,
            used_tokens,
            context_window,
            output_reservation,
            percentage,
        ),
        Err(error) => Err(argument_error(error_message(&error))),
    }
}

/// The schema of an object without members.
pub open spec fn input_schema() -> Json {
    Json::Object(
        members_of(
            seq![
                ("type"@, Json::Text("object"@)),
                ("properties"@, Json::Object(members_of(Seq::empty()))),
                ("additionalProperties"@, Json::Bool(false)),
            ],
        ),
    )
}

/// The schema of an accepted call.
pub open spec fn output_schema() -> Json {
    Json::Object(
        members_of(
            seq![
                ("type"@, Json::Text("object"@)),
                ("required"@, Json::Array(seq![Json::Text("status"@)])),
                (
                    "properties"@,
                    Json::Object(
                        members_of(
                            seq![
                                (
                                    "status"@,
                                    Json::Object(
                                        members_of(seq![("const"@, Json::Text("accepted"@))]),
                                    ),
                                ),
                            ],
                        ),
                    ),
                ),
                ("additionalProperties"@, Json::Bool(false)),
            ],
        ),
    )
}

fn input_schema_value() -> (r: Value)
    ensures
        json_content(r) == input_schema(),
{
    let none: Vec<(String, Value)> = Vec::new();
    assert(entries_view(none@) =~= Seq::empty());
    let mut entries: Vec<(String, Value)> = Vec::new();
    entries.push(("type".to_owned(), text_value("object")));
    entries.push(("properties".to_owned(), object_value(none)));
    entries.push(("additionalProperties".to_owned(), bool_value(false)));
    assert(entries_view(entries@) =~= seq![
        ("type"@, Json::Text("object"@)),
        ("properties"@, Json::Object(members_of(Seq::empty()))),
        ("additionalProperties"@, Json::Bool(false)),
    ]);
    object_value(entries)
}

fn output_schema_value() -> (r: Value)
    ensures
        json_content(r) == output_schema(),
{
    let mut required: Vec<Value> = Vec::new();
    required.push(text_value("status"));
    assert(contents(required@) =~= seq![Json::Text("status"@)]);
    let status = single_member("const", text_value("accepted"));
    let mut entries: Vec<(String, Value)> = Vec::new();
    entries.push(("type".to_owned(), text_value("object")));
    entries.push(("required".to_owned(), array_value(&required)));
    entries.push(("properties".to_owned(), single_member("status", status)));
    entries.push(("additionalProperties".to_owned(), bool_value(false)));
    assert(entries_view(entries@) =~= seq![
        ("type"@, Json::Text("object"@)),
        ("required"@, Json::Array(seq![Json::Text("status"@)])),
        (
            "properties"@,
            Json::Object(
                members_of(
                    seq![
                        (
                            "status"@,
                            Json::Object(members_of(seq![("const"@, Json::Text("accepted"@))])),
                        ),
                    ],
                ),
            ),
        ),
        ("additionalProperties"@, Json::Bool(false)),
    ]);
    object_value(entries)
}

/// The tool of this toolbox, and the toolbox with its description.
pub fn catalog_parts() -> (r: (Vec<ToolboxTool>, (String, String)))
    ensures
        r.0@.len() == 1,
        r.0@[0]@ == (ToolText {
            toolbox: TOOLBOX_NAME@,
            local_name: TOOL_NAME@,
            full_name: TOOL_NAME@,
            api_name: TOOL_NAME@,
            input_schema: input_schema(),
            output_schema: output_schema(),
            instructions: INSTRUCTIONS@,
            route: ROUTE@,
            examples: EXAMPLES@,
        }),
        r.1.0@ == TOOLBOX_NAME@,
        r.1.1@ == TOOLBOX_BRIEF@,
{
    let tool = ToolboxTool {
        toolbox: TOOLBOX_NAME.to_owned(),
        local_name: TOOL_NAME.to_owned(),
        full_name: TOOL_NAME.to_owned(),
        api_name: TOOL_NAME.to_owned(),
        input_schema: input_schema_value(),
        output_schema: output_schema_value(),
        instructions: INSTRUCTIONS.to_owned(),
        route: ROUTE.to_owned(),
        examples: EXAMPLES.to_owned(),
    };
    let mut tools: Vec<ToolboxTool> = Vec::new();
    tools.push(tool);
    (tools, (TOOLBOX_NAME.to_owned(), TOOLBOX_BRIEF.to_owned()))
}

} // verus!
