//! What the model is told, by the numbers, and what becomes of its summary.

use vstd::prelude::*;

use crate::compact::advice;
use crate::compact::blank_lines_collapsed;
use crate::compact::emergency_limit;
use crate::compact::formatted_summary;
use crate::compact::line_collapsed;
use crate::compact::lines_collapsed;
use crate::compact::refusal;
use crate::compact::section_stripped;
use crate::compact::summary_replaced;
use crate::compact::Collapse;
use crate::compact::HEALTHY_END;
use crate::compact::MILD_ADVICE;
use crate::compact::UNWARNED_END;
use crate::compact::UNWARNED_START;
use crate::compact::URGENT_ADVICE;
use crate::parts::joined_with;
use crate::text::decimal;
use crate::text::find_from;
use crate::text::is_blank;
use crate::text::lemma_find_from;
use crate::text::occurs_at;
use crate::text::trimmed;

verus! {

/// Of a window below half a million tokens, compaction is advised where fewer than 48,000 tokens
/// are left and due where fewer than 32,000 are; of a larger one, below 176,000 and 128,000. What is
/// due is told with the number of tokens that are left.
pub proof fn law_advice_by_the_numbers(used: u64, window: u64, reservation: u64)
    ensures
        ({
            let left = window - used - reservation;
            let (mild, urgent): (int, int) = if window < 500_000 {
                (48_000, 32_000)
            } else {
                (176_000, 128_000)
            };
            &&& left >= mild ==> advice(used, window, reservation) is None
            &&& urgent <= left < mild ==> advice(used, window, reservation) == Some(MILD_ADVICE@)
            &&& 0 <= left < urgent ==> advice(used, window, reservation) == Some(
                "Only "@ + decimal(left as nat) + URGENT_ADVICE@,
            )
            &&& left < 0 ==> advice(used, window, reservation) == Some(
                "Only "@ + decimal(0) + URGENT_ADVICE@,
            )
        }),
{
}

/// An answer is limited where it would take up the last 32,000 tokens of a window below half a
/// million, or the last 128,000 of a larger one: to what is left before them, and to one token where
/// nothing is. An answer without a limit stays without one.
pub proof fn law_emergency_by_the_numbers(used: u64, window: u64, configured: u64)
    ensures
        ({
            let left = window - used - (if window < 500_000 {
                32_000int
            } else {
                128_000int
            });
            &&& configured == 0 ==> emergency_limit(used, window, configured) is None
            &&& configured <= left ==> emergency_limit(used, window, configured) is None
            &&& 1 <= left < configured ==> emergency_limit(used, window, configured) == Some(left)
            &&& left < 1 && configured > 1 ==> emergency_limit(used, window, configured) == Some(
                1int,
            )
        }),
{
}

/// Whether `part` stands somewhere in `text`.
pub open spec fn mentions(text: Seq<char>, part: Seq<char>) -> bool {
    exists|at: int| occurs_at(text, part, at)
}

proof fn lemma_mentions(before: Seq<char>, part: Seq<char>, behind: Seq<char>)
    ensures
        mentions(before + part + behind, part),
{
    let text = before + part + behind;
    assert(text.subrange(before.len() as int, (before.len() + part.len()) as int) =~= part);
    assert(occurs_at(text, part, before.len() as int));
}

/// A refusal tells how many tokens of how many are in use, the percentage, and how many are left.
pub proof fn law_refusals_tell_the_usage(
    used: u64,
    window: u64,
    reservation: u64,
    percentage: Seq<char>,
)
    ensures
        ({
            let text = refusal(Some(used), window, reservation, percentage);
            let left: nat = if used + reservation <= window {
                (window - used - reservation) as nat
            } else {
                0
            };
            &&& mentions(text, decimal(used as nat) + "/"@ + decimal(window as nat) + " tokens"@)
            &&& mentions(text, "("@ + percentage + "%), with "@ + decimal(left)
                + " usable tokens remaining"@)
            &&& advice(used, window, reservation) is None ==> mentions(text, "Context is healthy"@)
            &&& !(advice(used, window, reservation) is None) ==> mentions(
                text,
                "No compaction warning was active"@,
            )
        }),
{
    let text = refusal(Some(used), window, reservation, percentage);
    let left: nat = if used + reservation <= window {
        (window - used - reservation) as nat
    } else {
        0
    };
    let numbers = decimal(used as nat) + "/"@ + decimal(window as nat) + " tokens"@;
    let rest = "("@ + percentage + "%), with "@ + decimal(left) + " usable tokens remaining"@;
    reveal_strlit(" tokens");
    reveal_strlit("(");
    reveal_strlit(" usable tokens remaining");
    let end = " usable tokens remaining"@;
    if advice(used, window, reservation) is None {
        reveal_strlit("Context is healthy: ");
        reveal_strlit("Context is healthy");
        reveal_strlit(" tokens used (");
        reveal_strlit(" used ");
        reveal_strlit(
            " usable tokens remaining after the response budget. No compaction warning is active, so Compact is not allowed or needed. Continue the task without compacting.",
        );
        let tail = HEALTHY_END@.skip(end.len() as int);
        assert(HEALTHY_END@ =~= end + tail);
        let start = "Context is healthy: "@;
        assert(" tokens used ("@ =~= " tokens"@ + " used "@ + "("@);
        assert(text =~= start + numbers + (" used "@ + rest + tail));
        assert(text =~= (start + numbers + " used "@) + rest + tail);
        lemma_mentions(start, numbers, " used "@ + rest + tail);
        lemma_mentions(start + numbers + " used "@, rest, tail);
        assert(start =~= "Context is healthy"@ + start.skip(18));
        assert(text =~= Seq::<char>::empty() + "Context is healthy"@ + text.skip(18));
        lemma_mentions(Seq::empty(), "Context is healthy"@, text.skip(18));
    } else {
        reveal_strlit(
            "No compaction warning was active when this response began. Current context usage is ",
        );
        reveal_strlit("No compaction warning was active");
        reveal_strlit(" tokens (");
        reveal_strlit(" ");
        reveal_strlit(
            " usable tokens remaining after the response budget. Compact is not allowed in this response; continue and wait for the runtime warning before calling Compact.",
        );
        let tail = UNWARNED_END@.skip(end.len() as int);
        assert(UNWARNED_END@ =~= end + tail);
        let start = UNWARNED_START@;
        assert(" tokens ("@ =~= " tokens"@ + " "@ + "("@);
        assert(text =~= start + numbers + (" "@ + rest + tail));
        assert(text =~= (start + numbers + " "@) + rest + tail);
        lemma_mentions(start, numbers, " "@ + rest + tail);
        lemma_mentions(start + numbers + " "@, rest, tail);
        assert(start =~= "No compaction warning was active"@ + start.skip(32));
        assert(text =~= Seq::<char>::empty() + "No compaction warning was active"@ + text.skip(32));
        lemma_mentions(Seq::empty(), "No compaction warning was active"@, text.skip(32));
    }
}

proof fn lemma_first_found(before: Seq<char>, pattern: Seq<char>, behind: Seq<char>, from: int)
    requires
        0 <= from <= before.len(),
        forall|at: int|
            from <= at < before.len() ==> !occurs_at(before + pattern + behind, pattern, at),
    ensures
        find_from(before + pattern + behind, pattern, from) == Some(before.len() as int),
{
    let text = before + pattern + behind;
    lemma_find_from(text, pattern, from);
    assert(text.subrange(before.len() as int, (before.len() + pattern.len()) as int) =~= pattern);
    assert(occurs_at(text, pattern, before.len() as int));
}

/// The analysis of an answer is left out with its tags, from the first opening tag to the first
/// closing one behind it, and all the rest stays.
pub proof fn law_analyses_are_left_out(
    before: Seq<char>,
    open: Seq<char>,
    inner: Seq<char>,
    close: Seq<char>,
    behind: Seq<char>,
)
    requires
        ({
            let text = before + open + inner + close + behind;
            &&& forall|at: int| 0 <= at < before.len() ==> !occurs_at(text, open, at)
            &&& forall|at: int|
                before.len() + open.len() <= at < before.len() + open.len() + inner.len()
                    ==> !occurs_at(text, close, at)
        }),
    ensures
        section_stripped(before + open + inner + close + behind, open, close) == before + behind,
{
    let text = before + open + inner + close + behind;
    assert(text =~= before + open + (inner + close + behind));
    lemma_first_found(before, open, inner + close + behind, 0);
    assert(text =~= (before + open + inner) + close + behind);
    lemma_first_found(
        before + open + inner,
        close,
        behind,
        (before.len() + open.len()) as int,
    );
    assert(section_stripped(text, open, close) =~= before + behind);
}

/// The summary of an answer is put under a heading in place of its tags, without the white space
/// around it, and all the rest stays.
pub proof fn law_summaries_are_put_under_a_heading(
    before: Seq<char>,
    inner: Seq<char>,
    behind: Seq<char>,
)
    requires
        ({
            let text = before + "<summary>"@ + inner + "</summary>"@ + behind;
            &&& forall|at: int| 0 <= at < before.len() ==> !occurs_at(text, "<summary>"@, at)
            &&& forall|at: int|
                before.len() + "<summary>"@.len() <= at < before.len() + "<summary>"@.len()
                    + inner.len() ==> !occurs_at(text, "</summary>"@, at)
        }),
    ensures
        summary_replaced(before + "<summary>"@ + inner + "</summary>"@ + behind) == before
            + "Summary:\n"@ + trimmed(inner) + behind,
{
    let open = "<summary>"@;
    let close = "</summary>"@;
    let text = before + open + inner + close + behind;
    assert(text =~= before + open + (inner + close + behind));
    lemma_first_found(before, open, inner + close + behind, 0);
    assert(text =~= (before + open + inner) + close + behind);
    lemma_first_found(
        before + open + inner,
        close,
        behind,
        (before.len() + open.len()) as int,
    );
    let start = before.len() as int;
    assert(text.subrange(start + open.len(), (start + open.len() + inner.len()) as int) =~= inner);
    assert(summary_replaced(text) =~= before + "Summary:\n"@ + trimmed(inner) + behind);
}

/// An answer without tags stays as it is, but for blank lines and the white space around it.
pub proof fn law_untagged_answers_stay(answer: Seq<char>)
    requires
        !mentions(answer, "<analysis>"@),
        !mentions(answer, "<summary>"@),
    ensures
        formatted_summary(answer) == blank_lines_collapsed(trimmed(answer)),
{
    lemma_find_from(answer, "<analysis>"@, 0);
    lemma_find_from(answer, "<summary>"@, 0);
}

/// Whether each of `lines` holds something besides white space.
pub open spec fn are_all_filled(lines: Seq<Seq<char>>) -> bool {
    forall|i: int| 0 <= i < lines.len() ==> !is_blank(#[trigger] lines[i])
}

/// Whether none of `lines` does.
pub open spec fn are_all_blank(lines: Seq<Seq<char>>) -> bool {
    forall|i: int| 0 <= i < lines.len() ==> is_blank(#[trigger] lines[i])
}

proof fn lemma_filled_behind(lines: Seq<Seq<char>>, paragraph: Seq<Seq<char>>)
    requires
        paragraph.len() > 0,
        are_all_filled(paragraph),
    ensures
        lines_collapsed(lines + paragraph) == (Collapse {
            output: (if lines_collapsed(lines).output.len() > 0 {
                lines_collapsed(lines).output.push('\n')
            } else {
                lines_collapsed(lines).output
            }) + joined_with(paragraph, "\n"@),
            blank: false,
        }),
        joined_with(paragraph, "\n"@).len() > 0,
    decreases paragraph.len(),
{
    reveal_strlit("\n");
    let all = lines + paragraph;
    let front = paragraph.drop_last();
    assert(all.last() == paragraph.last());
    assert(all.drop_last() =~= lines + front);
    assert(!is_blank(paragraph[paragraph.len() - 1]));
    if front.len() == 0 {
        assert(lines + front =~= lines);
        assert(lines_collapsed(all) =~= line_collapsed(lines_collapsed(lines), paragraph.last()));
    } else {
        assert forall|i: int| 0 <= i < front.len() implies !is_blank(#[trigger] front[i]) by {
            assert(front[i] == paragraph[i]);
        }
        lemma_filled_behind(lines, front);
        let state = lines_collapsed(lines + front);
        assert(joined_with(paragraph, "\n"@) == joined_with(front, "\n"@) + "\n"@
            + paragraph.last());
        assert(lines_collapsed(all).output =~= (if lines_collapsed(lines).output.len() > 0 {
            lines_collapsed(lines).output.push('\n')
        } else {
            lines_collapsed(lines).output
        }) + joined_with(paragraph, "\n"@));
    }
}

proof fn lemma_blank_behind(lines: Seq<Seq<char>>, gap: Seq<Seq<char>>)
    requires
        gap.len() > 0,
        are_all_blank(gap),
        !lines_collapsed(lines).blank,
    ensures
        lines_collapsed(lines + gap) == (Collapse {
            output: if lines_collapsed(lines).output.len() > 0 {
                lines_collapsed(lines).output.push('\n')
            } else {
                lines_collapsed(lines).output
            },
            blank: true,
        }),
    decreases gap.len(),
{
    let all = lines + gap;
    let front = gap.drop_last();
    assert(all.last() == gap.last());
    assert(all.drop_last() =~= lines + front);
    assert(is_blank(gap[gap.len() - 1]));
    if front.len() == 0 {
        assert(lines + front =~= lines);
    } else {
        assert forall|i: int| 0 <= i < front.len() implies is_blank(#[trigger] front[i]) by {
            assert(front[i] == gap[i]);
        }
        lemma_blank_behind(lines, front);
    }
}

/// Lines that are not blank stay one below the other, and blank lines in front of them are dropped.
pub proof fn law_paragraphs_stay(gap: Seq<Seq<char>>, paragraph: Seq<Seq<char>>)
    requires
        are_all_blank(gap),
        paragraph.len() > 0,
        are_all_filled(paragraph),
    ensures
        lines_collapsed(gap + paragraph).output == joined_with(paragraph, "\n"@),
{
    let none = Seq::<Seq<char>>::empty();
    assert(none + gap =~= gap);
    if gap.len() > 0 {
        lemma_blank_behind(none, gap);
    }
    lemma_filled_behind(gap, paragraph);
    assert(lines_collapsed(gap + paragraph).output =~= joined_with(paragraph, "\n"@));
}

/// However many blank lines stand between two paragraphs, one empty line is left of them.
pub proof fn law_one_empty_line_is_left(
    lines: Seq<Seq<char>>,
    gap: Seq<Seq<char>>,
    paragraph: Seq<Seq<char>>,
)
    requires
        lines.len() > 0,
        !is_blank(lines.last()),
        gap.len() > 0,
        are_all_blank(gap),
        paragraph.len() > 0,
        are_all_filled(paragraph),
    ensures
        lines_collapsed(lines + gap + paragraph).output == lines_collapsed(lines).output
            + "\n\n"@ + joined_with(paragraph, "\n"@),
{
    reveal_strlit("\n\n");
    lemma_blank_behind(lines, gap);
    lemma_filled_behind(lines + gap, paragraph);
    assert(lines.last().len() > 0);
    assert(lines_collapsed(lines + gap + paragraph).output =~= lines_collapsed(lines).output
        + "\n\n"@ + joined_with(paragraph, "\n"@));
}

} // verus!
