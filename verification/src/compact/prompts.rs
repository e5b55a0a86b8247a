//! What the stages of a compaction are asked for, held against each other.

use vstd::prelude::*;

use crate::compact::stage_prompt;
use crate::compact::CURRENT_STATE_PROMPT;
use crate::compact::FILES_AND_ARTIFACTS_PROMPT;
use crate::compact::PRIMARY_REQUEST_PROMPT;
use crate::compact::PROBLEMS_PROMPT;
use crate::compact::SEGMENTED_ANALYSIS_PROMPT;
use crate::compact::TECHNICAL_CONTEXT_PROMPT;
use crate::event::stages;
use crate::event::CompactStage;
use crate::text::occurs_at;
use crate::turn_history::holds;

verus! {

/// Whether `prompt` asks for one section and nothing else: as raw Markdown, without an analysis and
/// without tags.
pub open spec fn asks_for_a_section(prompt: Seq<char>) -> bool {
    &&& holds(prompt, "raw Markdown"@)
    &&& holds(prompt, "Do not output analysis"@)
    &&& holds(prompt, "XML tags"@)
}

/// Whether `prompt` begins with a sentence that names the stage `number`.
pub open spec fn is_of_stage(prompt: Seq<char>, number: char) -> bool {
    &&& prompt.len() > 14
    &&& prompt.take(14) == "This is stage "@
    &&& prompt[14] == number
}

proof fn lemma_asks(prompt: Seq<char>, raw: int, analysis: int, tags: int)
    requires
        occurs_at(prompt, "raw Markdown"@, raw),
        occurs_at(prompt, "Do not output analysis"@, analysis),
        occurs_at(prompt, "XML tags"@, tags),
    ensures
        asks_for_a_section(prompt),
{
}

proof fn lemma_primary_request()
    ensures
        is_of_stage(PRIMARY_REQUEST_PROMPT@, '2'),
        asks_for_a_section(PRIMARY_REQUEST_PROMPT@),
        holds(PRIMARY_REQUEST_PROMPT@, "1. Primary Request and Intent"@),
{
    reveal_strlit(
        r#"This is stage 2 of the context compaction process. Output only the complete final section `1. Primary Request and Intent` as raw Markdown, including that exact heading and its body. Use the preparation analysis and the unchanged full conversation. Do not output analysis, any other section, XML tags, commentary, or tool calls."#,
    );
    reveal_strlit("This is stage ");
    reveal_strlit("raw Markdown");
    reveal_strlit("Do not output analysis");
    reveal_strlit("XML tags");
    reveal_strlit("1. Primary Request and Intent");
    let prompt = PRIMARY_REQUEST_PROMPT@;
    assert(prompt.subrange(91, 120) =~= "1. Primary Request and Intent"@);
    assert(occurs_at(prompt, "1. Primary Request and Intent"@, 91));
    assert(prompt.take(14) =~= "This is stage "@);
    assert(prompt.subrange(125, 137) =~= "raw Markdown"@);
    assert(prompt.subrange(248, 270) =~= "Do not output analysis"@);
    assert(prompt.subrange(291, 299) =~= "XML tags"@);
    lemma_asks(prompt, 125, 248, 291);
}

proof fn lemma_technical_context()
    ensures
        is_of_stage(TECHNICAL_CONTEXT_PROMPT@, '3'),
        asks_for_a_section(TECHNICAL_CONTEXT_PROMPT@),
        holds(TECHNICAL_CONTEXT_PROMPT@, "2. Key Technical Context and Decisions"@),
{
    reveal_strlit(
        r#"This is stage 3 of the context compaction process. Output only the complete final section `2. Key Technical Context and Decisions` as raw Markdown, including that exact heading and its body. Use the preparation analysis, previously completed section, and the unchanged full conversation. Do not output analysis, any other section, XML tags, commentary, or tool calls."#,
    );
    reveal_strlit("This is stage ");
    reveal_strlit("raw Markdown");
    reveal_strlit("Do not output analysis");
    reveal_strlit("XML tags");
    reveal_strlit("2. Key Technical Context and Decisions");
    let prompt = TECHNICAL_CONTEXT_PROMPT@;
    assert(prompt.subrange(91, 129) =~= "2. Key Technical Context and Decisions"@);
    assert(occurs_at(prompt, "2. Key Technical Context and Decisions"@, 91));
    assert(prompt.take(14) =~= "This is stage "@);
    assert(prompt.subrange(134, 146) =~= "raw Markdown"@);
    assert(prompt.subrange(288, 310) =~= "Do not output analysis"@);
    assert(prompt.subrange(331, 339) =~= "XML tags"@);
    lemma_asks(prompt, 134, 288, 331);
}

proof fn lemma_files_and_artifacts()
    ensures
        is_of_stage(FILES_AND_ARTIFACTS_PROMPT@, '4'),
        asks_for_a_section(FILES_AND_ARTIFACTS_PROMPT@),
        holds(FILES_AND_ARTIFACTS_PROMPT@, "3. Files, Code, and Artifacts"@),
{
    reveal_strlit(
        r#"This is stage 4 of the context compaction process. Output only the complete final section `3. Files, Code, and Artifacts` as raw Markdown, including that exact heading and its body. Use the preparation analysis, previously completed sections, and the unchanged full conversation. Do not output analysis, any other section, XML tags, commentary, or tool calls."#,
    );
    reveal_strlit("This is stage ");
    reveal_strlit("raw Markdown");
    reveal_strlit("Do not output analysis");
    reveal_strlit("XML tags");
    reveal_strlit("3. Files, Code, and Artifacts");
    let prompt = FILES_AND_ARTIFACTS_PROMPT@;
    assert(prompt.subrange(91, 120) =~= "3. Files, Code, and Artifacts"@);
    assert(occurs_at(prompt, "3. Files, Code, and Artifacts"@, 91));
    assert(prompt.take(14) =~= "This is stage "@);
    assert(prompt.subrange(125, 137) =~= "raw Markdown"@);
    assert(prompt.subrange(280, 302) =~= "Do not output analysis"@);
    assert(prompt.subrange(323, 331) =~= "XML tags"@);
    lemma_asks(prompt, 125, 280, 323);
}

proof fn lemma_problems()
    ensures
        is_of_stage(PROBLEMS_PROMPT@, '5'),
        asks_for_a_section(PROBLEMS_PROMPT@),
        holds(PROBLEMS_PROMPT@, "4. Problems, Investigations, and Resolutions"@),
{
    reveal_strlit(
        r#"This is stage 5 of the context compaction process. Output only the complete final section `4. Problems, Investigations, and Resolutions` as raw Markdown, including that exact heading and its body. Treat each problem as one lifecycle rather than recreating separate error and problem-solving sections. Use the preparation analysis, previously completed sections, and the unchanged full conversation. Do not output analysis, any other section, XML tags, commentary, or tool calls."#,
    );
    reveal_strlit("This is stage ");
    reveal_strlit("raw Markdown");
    reveal_strlit("Do not output analysis");
    reveal_strlit("XML tags");
    reveal_strlit("4. Problems, Investigations, and Resolutions");
    let prompt = PROBLEMS_PROMPT@;
    assert(prompt.subrange(91, 135) =~= "4. Problems, Investigations, and Resolutions"@);
    assert(occurs_at(prompt, "4. Problems, Investigations, and Resolutions"@, 91));
    assert(prompt.take(14) =~= "This is stage "@);
    assert(prompt.subrange(140, 152) =~= "raw Markdown"@);
    assert(prompt.subrange(399, 421) =~= "Do not output analysis"@);
    assert(prompt.subrange(442, 450) =~= "XML tags"@);
    lemma_asks(prompt, 140, 399, 442);
}

proof fn lemma_current_state()
    ensures
        is_of_stage(CURRENT_STATE_PROMPT@, '6'),
        asks_for_a_section(CURRENT_STATE_PROMPT@),
        holds(CURRENT_STATE_PROMPT@, "5. Current State and Continuation Plan"@),
{
    reveal_strlit(
        r#"This is stage 6 of the context compaction process. Output only the complete final section `5. Current State and Continuation Plan` as raw Markdown, including that exact heading and its body. Semantically integrate completed work, active work, the exact stopping point, pending work, blockers, prerequisites, and the directly applicable next operation. If the request is complete, explicitly state that no continuation step remains. Use the preparation analysis, previously completed sections, and the unchanged full conversation. Do not output analysis, any other section, XML tags, commentary, or tool calls."#,
    );
    reveal_strlit("This is stage ");
    reveal_strlit("raw Markdown");
    reveal_strlit("Do not output analysis");
    reveal_strlit("XML tags");
    reveal_strlit("5. Current State and Continuation Plan");
    let prompt = CURRENT_STATE_PROMPT@;
    assert(prompt.subrange(91, 129) =~= "5. Current State and Continuation Plan"@);
    assert(occurs_at(prompt, "5. Current State and Continuation Plan"@, 91));
    assert(prompt.take(14) =~= "This is stage "@);
    assert(prompt.subrange(134, 146) =~= "raw Markdown"@);
    assert(prompt.subrange(530, 552) =~= "Do not output analysis"@);
    assert(prompt.subrange(573, 581) =~= "XML tags"@);
    lemma_asks(prompt, 134, 530, 573);
}

proof fn lemma_analysis()
    ensures
        SEGMENTED_ANALYSIS_PROMPT@.len() > 0,
        SEGMENTED_ANALYSIS_PROMPT@[0] == 'C',
        holds(SEGMENTED_ANALYSIS_PROMPT@, "1. Primary Request and Intent"@),
        holds(SEGMENTED_ANALYSIS_PROMPT@, "2. Key Technical Context and Decisions"@),
        holds(SEGMENTED_ANALYSIS_PROMPT@, "3. Files, Code, and Artifacts"@),
        holds(SEGMENTED_ANALYSIS_PROMPT@, "4. Problems, Investigations, and Resolutions"@),
        holds(SEGMENTED_ANALYSIS_PROMPT@, "5. Current State and Continuation Plan"@),
{
    reveal_strlit(
        r#"CRITICAL: Respond with raw text only. Do not call any tools.

This is stage 1 of a six-stage context compaction process.

The complete pre-compaction conversation is still available and unchanged. Your task in this stage is to analyze and organize that conversation for the five summary sections defined below.

Do not write the final summary.
Do not write any of the five final sections.
Do not use XML tags such as <analysis> or <summary>.
Output only your compaction preparation analysis. This analysis will remain visible during the following five stages and will be used to produce each final section separately.

The final summary will contain these five sections:

1. Primary Request and Intent
   Preserve the user's explicit objectives, constraints, preferences, acceptance requirements, corrections, and direction changes. Distinguish active requirements from requirements that were superseded or withdrawn. Preserve security-sensitive, permission-related, credential-handling, and data-handling constraints exactly where their wording matters.

2. Key Technical Context and Decisions
   Preserve important technical concepts, architecture, runtime behavior, confirmed facts, material assumptions, interfaces, protocols, invariants, design decisions, trade-offs, rejected approaches, and the reasons behind decisions.

3. Files, Code, and Artifacts
   Preserve relevant files, directories, functions, types, interfaces, code locations, commands, configurations, generated artifacts, important code snippets, actual changes, and why each item matters for continuing the work.

4. Problems, Investigations, and Resolutions
   Treat each material problem as one lifecycle: observed symptom, evidence, investigation, confirmed or suspected cause, unsuccessful attempts, chosen resolution, reason for that resolution, verification result, and anything still unresolved. Do not separately duplicate the same problem as both an error and a problem-solving entry.

5. Current State and Continuation Plan
   Preserve the exact current state: completed work, active work, precise stopping point, remaining work, blockers, required evidence or prerequisites, and the next operation that follows directly from the latest active request. If the requested work is already complete, state that no continuation step remains.

Analyze the conversation chronologically, then prepare a coverage plan for these five sections.

Your analysis must:

- identify every active user request and every material correction or constraint;
- distinguish observed facts from inference and unresolved uncertainty;
- distinguish completed, active, pending, cancelled, and superseded work;
- preserve exact technical identifiers, paths, function names, commands, errors, interfaces, and important code where needed;
- identify contradictions and resolve them using the latest applicable user instruction;
- assign each material fact to the most appropriate final section;
- avoid unnecessary duplication between sections;
- identify details that must be quoted exactly to prevent semantic drift;
- give extra attention to the latest conversation and the exact continuation point;
- include enough detail that the following stages can write each section without re-analyzing or guessing.

Output only the preparation analysis. Do not produce the final compacted summary in this stage."#,
    );
    let prompt = SEGMENTED_ANALYSIS_PROMPT@;
    assert(occurs_at(prompt, "1. Primary Request and Intent"@, 672)) by {
        reveal_strlit("1. Primary Request and Intent");
        assert(prompt.subrange(672, 701) =~= "1. Primary Request and Intent"@);
    }
    assert(occurs_at(prompt, "2. Key Technical Context and Decisions"@, 1056)) by {
        reveal_strlit("2. Key Technical Context and Decisions");
        assert(prompt.subrange(1056, 1094) =~= "2. Key Technical Context and Decisions"@);
    }
    assert(occurs_at(prompt, "3. Files, Code, and Artifacts"@, 1329)) by {
        reveal_strlit("3. Files, Code, and Artifacts");
        assert(prompt.subrange(1329, 1358) =~= "3. Files, Code, and Artifacts"@);
    }
    assert(occurs_at(prompt, "4. Problems, Investigations, and Resolutions"@, 1586)) by {
        reveal_strlit("4. Problems, Investigations, and Resolutions");
        assert(prompt.subrange(1586, 1630) =~= "4. Problems, Investigations, and Resolutions"@);
    }
    assert(occurs_at(prompt, "5. Current State and Continuation Plan"@, 1967)) by {
        reveal_strlit("5. Current State and Continuation Plan");
        assert(prompt.subrange(1967, 2005) =~= "5. Current State and Continuation Plan"@);
    }
}

/// Every stage behind the analysis is asked for one section and nothing else, by a sentence that
/// begins with its number.
pub proof fn law_stages_ask_for_sections(stage: CompactStage)
    requires
        !(stage is Analysis),
    ensures
        asks_for_a_section(stage_prompt(stage)),
        is_of_stage(
            stage_prompt(stage),
            match stage {
                CompactStage::PrimaryRequestAndIntent => '2',
                CompactStage::KeyTechnicalContextAndDecisions => '3',
                CompactStage::FilesCodeAndArtifacts => '4',
                CompactStage::ProblemsInvestigationsAndResolutions => '5',
                _ => '6',
            },
        ),
{
    match stage {
        CompactStage::Analysis => {},
        CompactStage::PrimaryRequestAndIntent => lemma_primary_request(),
        CompactStage::KeyTechnicalContextAndDecisions => lemma_technical_context(),
        CompactStage::FilesCodeAndArtifacts => lemma_files_and_artifacts(),
        CompactStage::ProblemsInvestigationsAndResolutions => lemma_problems(),
        CompactStage::CurrentStateAndContinuationPlan => lemma_current_state(),
    }
}

/// The heading of the section that `stage` is asked for.
pub open spec fn section_heading(stage: CompactStage) -> Seq<char> {
    match stage {
        CompactStage::Analysis => Seq::empty(),
        CompactStage::PrimaryRequestAndIntent => "1. Primary Request and Intent"@,
        CompactStage::KeyTechnicalContextAndDecisions => "2. Key Technical Context and Decisions"@,
        CompactStage::FilesCodeAndArtifacts => "3. Files, Code, and Artifacts"@,
        CompactStage::ProblemsInvestigationsAndResolutions =>
            "4. Problems, Investigations, and Resolutions"@,
        CompactStage::CurrentStateAndContinuationPlan => "5. Current State and Continuation Plan"@,
    }
}

/// Every stage behind the analysis is asked for a section by its heading, and the analysis has been
/// asked to prepare that section.
pub proof fn law_sections_have_been_prepared(stage: CompactStage)
    requires
        !(stage is Analysis),
    ensures
        holds(stage_prompt(stage), section_heading(stage)),
        holds(stage_prompt(CompactStage::Analysis), section_heading(stage)),
{
    lemma_analysis();
    match stage {
        CompactStage::Analysis => {},
        CompactStage::PrimaryRequestAndIntent => lemma_primary_request(),
        CompactStage::KeyTechnicalContextAndDecisions => lemma_technical_context(),
        CompactStage::FilesCodeAndArtifacts => lemma_files_and_artifacts(),
        CompactStage::ProblemsInvestigationsAndResolutions => lemma_problems(),
        CompactStage::CurrentStateAndContinuationPlan => lemma_current_state(),
    }
}

/// No two stages are asked for the same.
pub proof fn law_prompts_differ(stage: CompactStage, other: CompactStage)
    requires
        stage != other,
    ensures
        stage_prompt(stage) != stage_prompt(other),
{
    lemma_analysis();
    reveal_strlit("This is stage ");
    if !(stage is Analysis) {
        law_stages_ask_for_sections(stage);
        assert(stage_prompt(stage).take(14)[0] == 'T');
    }
    if !(other is Analysis) {
        law_stages_ask_for_sections(other);
        assert(stage_prompt(other).take(14)[0] == 'T');
    }
}

/// The analysis comes first, and each stage behind it says which one it is.
pub proof fn law_stages_come_in_order(index: int)
    requires
        1 <= index < 6,
    ensures
        stages().len() == 6,
        stages()[0] == CompactStage::Analysis,
        is_of_stage(stage_prompt(stages()[index]), ('1' as int + index) as char),
{
    law_stages_ask_for_sections(stages()[index]);
}

} // verus!
