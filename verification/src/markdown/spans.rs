//! Where code begins and ends in a Markdown source, and what becomes of the markers around it.

use vstd::prelude::*;

use crate::markdown::are_in_order;
use crate::markdown::at_fence_position;
use crate::markdown::backslashes_before;
use crate::markdown::closes_code;
use crate::markdown::in_link_target;
use crate::markdown::is_cjk_char;
use crate::markdown::is_punctuation;
use crate::markdown::is_strong_marker;
use crate::markdown::is_useful;
use crate::markdown::lemma_markers_in_order;
use crate::markdown::lemma_pairing_lengths;
use crate::markdown::lemma_run_length;
use crate::markdown::line_start;
use crate::markdown::marked_from;
use crate::markdown::marker_at;
use crate::markdown::marker_between;
use crate::markdown::marker_paired;
use crate::markdown::markers_from;
use crate::markdown::normalized;
use crate::markdown::opens_code;
use crate::markdown::pairing_of;
use crate::markdown::rfind;
use crate::markdown::rfind_upto;
use crate::markdown::run_length;
use crate::markdown::word_start;
use crate::markdown::CodeDelimiter;
use crate::markdown::MarkerText;
use crate::markdown::CJK_EMPHASIS_SENTINEL;
use crate::text::find_from;
use crate::text::is_alphanumeric_char;
use crate::text::is_white_space;
use crate::text::lemma_find_from;
use crate::text::occurs_at;

verus! {

/// Whether `c` stands `length` times at `at`, and neither before nor behind.
pub open spec fn is_run(text: Seq<char>, at: int, length: int, c: char) -> bool {
    &&& 0 <= at < at + length <= text.len()
    &&& forall|i: int| at <= i < at + length ==> #[trigger] text[i] == c
    &&& at == 0 || text[at - 1] != c
    &&& at + length == text.len() || text[at + length] != c
}

/// Whether the line of `at` begins at `start` and holds at most three spaces before `at`.
pub open spec fn is_indented(text: Seq<char>, start: int, at: int) -> bool {
    &&& 0 <= start <= at <= start + 3
    &&& start == 0 || text[start - 1] == '\n'
    &&& forall|i: int| start <= i < at ==> #[trigger] text[i] == ' '
}

/// Whether what stands at `at` begins its line, behind three spaces at most.
pub open spec fn begins_line(text: Seq<char>, at: int) -> bool {
    exists|start: int| #[trigger] is_indented(text, start, at)
}

/// Code between two runs of a mark: where the first run begins, how long it is, where the second
/// one begins, and how long that is.
pub struct CodeSpan {
    pub mark: char,
    pub open: int,
    pub length: int,
    pub close: int,
    pub closing: int,
}

impl CodeSpan {
    /// Where the code ends.
    pub open spec fn end(self) -> int {
        self.close + self.closing
    }

    /// Whether the code is a block between fences.
    pub open spec fn is_fenced(self, text: Seq<char>) -> bool {
        self.length >= 3 && begins_line(text, self.open)
    }

    /// Whether a run of `length` marks at `at` ends the code. A fence ends with a fence that is no
    /// shorter, other code with a run that is just as long.
    pub open spec fn is_ended_at(self, text: Seq<char>, at: int, length: int) -> bool {
        &&& is_run(text, at, length, self.mark)
        &&& if self.is_fenced(text) {
            length >= self.length && begins_line(text, at)
        } else {
            length == self.length
        }
    }

    /// Whether the code begins in `text`: with backticks, or with a fence of tildes.
    pub open spec fn is_begun(self, text: Seq<char>) -> bool {
        &&& is_run(text, self.open, self.length, self.mark)
        &&& self.mark == '`' || self.mark == '~' && self.is_fenced(text)
    }

    /// Whether nothing before `to` ends the code.
    pub open spec fn goes_on(self, text: Seq<char>, to: int) -> bool {
        forall|at: int, length: int|
            self.open + self.length <= at < to ==> !(#[trigger] self.is_ended_at(text, at, length))
    }

    /// Whether `text` holds the code: it begins, and ends with the first run that ends it.
    pub open spec fn is_in(self, text: Seq<char>) -> bool {
        &&& self.is_begun(text)
        &&& self.open + self.length <= self.close
        &&& self.is_ended_at(text, self.close, self.closing)
        &&& self.goes_on(text, self.close)
    }
}

/// Whether no code begins in `text` from `from` on before `to`.
pub open spec fn is_free_of_code(text: Seq<char>, from: int, to: int) -> bool {
    forall|span: CodeSpan| from <= span.open < to ==> !(#[trigger] span.is_begun(text))
}

/// Whether `spans` is all the code of `text` before `to`, which stands outside of it.
pub open spec fn is_code_before(text: Seq<char>, spans: Seq<CodeSpan>, to: int) -> bool
    decreases spans.len(),
{
    if spans.len() == 0 {
        0 <= to && is_free_of_code(text, 0, to)
    } else {
        &&& spans.last().is_in(text)
        &&& spans.last().end() <= to
        &&& is_free_of_code(text, spans.last().end(), to)
        &&& is_code_before(text, spans.drop_last(), spans.last().open)
    }
}

/// Whether `at` is inside of one of `spans`.
pub open spec fn is_inside(spans: Seq<CodeSpan>, at: int) -> bool {
    exists|i: int| 0 <= i < spans.len() && (#[trigger] spans[i]).open <= at < spans[i].end()
}

proof fn lemma_line_start(text: Seq<char>, at: int)
    requires
        0 <= at <= text.len(),
    ensures
        0 <= line_start(text, at) <= at,
        line_start(text, at) == 0 || text[line_start(text, at) - 1] == '\n',
        forall|i: int| line_start(text, at) <= i < at ==> #[trigger] text[i] != '\n',
    decreases at,
{
    if at > 0 && text[at - 1] != '\n' {
        lemma_line_start(text, at - 1);
    }
}

proof fn lemma_begins_line(text: Seq<char>, at: int)
    requires
        0 <= at <= text.len(),
    ensures
        at_fence_position(text, at) == begins_line(text, at),
{
    lemma_line_start(text, at);
    let from = line_start(text, at);
    if at_fence_position(text, at) {
        assert(is_indented(text, from, at));
    }
    if begins_line(text, at) {
        let start = choose|start: int| #[trigger] is_indented(text, start, at);
        if start < from {
            assert(text[from - 1] == ' ');
        } else if from < start {
            assert(text[start - 1] != '\n');
        }
    }
}

proof fn lemma_run(text: Seq<char>, at: int, c: char)
    requires
        0 <= at < text.len(),
        text[at] == c,
    ensures
        0 < run_length(text, at, c) <= text.len() - at,
        forall|i: int| at <= i < at + run_length(text, at, c) ==> #[trigger] text[i] == c,
        at + run_length(text, at, c) < text.len() ==> text[at + run_length(text, at, c)] != c,
    decreases text.len() - at,
{
    lemma_run_length(text, at, c);
    if at + 1 < text.len() && text[at + 1] == c {
        lemma_run(text, at + 1, c);
    } else {
        assert(run_length(text, at + 1, c) == 0);
    }
}

proof fn lemma_runs_agree(text: Seq<char>, at: int, length: int, c: char)
    requires
        is_run(text, at, length, c),
    ensures
        run_length(text, at, c) == length,
{
    assert(text[at] == c);
    lemma_run(text, at, c);
    let found = run_length(text, at, c);
    if found < length {
        assert(text[at + found] == c);
    } else if length < found {
        assert(text[at + length] == c);
    }
}

/// Whether `at` is not behind the first mark of a run of backticks or tildes.
spec fn is_between_runs(text: Seq<char>, at: int) -> bool {
    0 < at < text.len() && text[at - 1] == text[at] ==> text[at] != '`' && text[at] != '~'
}

proof fn lemma_code_passed(
    text: Seq<char>,
    at: int,
    to: int,
    span: CodeSpan,
    delimiter: CodeDelimiter,
)
    requires
        text.len() <= usize::MAX,
        span.is_begun(text),
        delimiter == (CodeDelimiter {
            mark: span.mark,
            length: span.length as usize,
            fenced: span.is_fenced(text),
        }),
        span.open + span.length <= at <= to <= text.len(),
        span.goes_on(text, to),
        is_between_runs(text, at),
        is_between_runs(text, to),
    ensures
        markers_from(text, at, Some(delimiter)) == markers_from(text, to, Some(delimiter)),
    decreases to - at,
{
    if at < to {
        let c = text[at];
        let length = run_length(text, at, c);
        let fence = at_fence_position(text, at);
        if c == '`' || c == '~' {
            lemma_run(text, at, c);
            lemma_begins_line(text, at);
            assert(is_run(text, at, length, c));
            if at + length > to {
                assert(text[to - 1] == c && text[to] == c);
            }
            if c == span.mark {
                assert(!span.is_ended_at(text, at, length));
            }
            assert(!closes_code(delimiter, c, length, fence));
            lemma_code_passed(text, at + length, to, span, delimiter);
        } else {
            lemma_code_passed(text, at + 1, to, span, delimiter);
        }
    }
}

proof fn lemma_code_begun(text: Seq<char>, span: CodeSpan) -> (delimiter: CodeDelimiter)
    requires
        text.len() <= usize::MAX,
        span.is_begun(text),
    ensures
        delimiter == (CodeDelimiter {
            mark: span.mark,
            length: span.length as usize,
            fenced: span.is_fenced(text),
        }),
        markers_from(text, span.open, None) == markers_from(
            text,
            span.open + span.length,
            Some(delimiter),
        ),
        is_between_runs(text, span.open + span.length),
{
    lemma_runs_agree(text, span.open, span.length, span.mark);
    lemma_begins_line(text, span.open);
    assert(text[span.open] == span.mark);
    assert(text[span.open + span.length - 1] == span.mark);
    CodeDelimiter {
        mark: span.mark,
        length: span.length as usize,
        fenced: span.is_fenced(text),
    }
}

/// Code ends where it should: with the next run of exactly as many backticks as began it, or, where
/// it began with a fence, with the next fence of the same marks that is no shorter. There are no
/// markers in it, and behind it all goes on as if it were not there.
pub proof fn law_code_ends_where_it_should(text: Seq<char>, span: CodeSpan)
    requires
        text.len() <= usize::MAX,
        span.is_in(text),
    ensures
        markers_from(text, span.open, None) == markers_from(text, span.end(), None),
{
    let delimiter = lemma_code_begun(text, span);
    assert(text[span.close] == span.mark);
    lemma_runs_agree(text, span.close, span.closing, span.mark);
    lemma_begins_line(text, span.close);
    lemma_code_passed(text, span.open + span.length, span.close, span, delimiter);
}

/// Code that nothing ends goes on to the end, and there are no markers in it.
pub proof fn law_code_without_an_end(text: Seq<char>, span: CodeSpan)
    requires
        text.len() <= usize::MAX,
        span.is_begun(text),
        span.goes_on(text, text.len() as int),
    ensures
        markers_from(text, span.open, None) == Seq::<MarkerText>::empty(),
{
    let delimiter = lemma_code_begun(text, span);
    lemma_code_passed(text, span.open + span.length, text.len() as int, span, delimiter);
}

/// Whether each of `markers` is two asterisks of `text` from `from` on before `to`.
spec fn stand_within(text: Seq<char>, markers: Seq<MarkerText>, from: int, to: int) -> bool {
    forall|i: int|
        0 <= i < markers.len() ==> from <= (#[trigger] markers[i]).at < to && occurs_at(
            text,
            "**"@,
            markers[i].at,
        )
}

/// The markers that stand from `from` on before `to`, where no code begins.
proof fn lemma_free_passed(text: Seq<char>, from: int, to: int) -> (found: Seq<MarkerText>)
    requires
        0 <= from <= to <= text.len(),
        is_free_of_code(text, from, to),
        0 < from < text.len() && text[from] == '`' ==> text[from - 1] != '`',
        0 < to < text.len() ==> !(text[to - 1] == '*' && text[to] == '*'),
    ensures
        markers_from(text, from, None) == found + markers_from(text, to, None),
        stand_within(text, found, from, to),
    decreases to - from,
{
    reveal_strlit("**");
    if from == to {
        assert(Seq::<MarkerText>::empty() + markers_from(text, to, None) =~= markers_from(
            text,
            to,
            None,
        ));
        Seq::empty()
    } else {
        let c = text[from];
        let length = run_length(text, from, c);
        let fence = at_fence_position(text, from);
        lemma_begins_line(text, from);
        assert(!opens_code(c, length, fence)) by {
            if opens_code(c, length, fence) {
                lemma_run(text, from, c);
                if c == '~' {
                    let start = choose|start: int| #[trigger] is_indented(text, start, from);
                    assert(from > 0 ==> text[from - 1] == ' ' || text[from - 1] == '\n');
                }
                assert(is_run(text, from, length, c));
                let span = CodeSpan { mark: c, open: from, length, close: 0, closing: 0 };
                assert(span.is_begun(text));
            }
        }
        let next = if is_strong_marker(text, from) {
            from + 2
        } else {
            from + 1
        };
        if next > to {
            assert(text.subrange(from, from + 2) == "**"@);
            assert(text.subrange(from, from + 2)[0] == text[from]);
            assert(text.subrange(from, from + 2)[1] == text[from + 1]);
        }
        if next == from + 2 {
            assert(text.subrange(from, from + 2)[1] == text[from + 1]);
        }
        let rest = lemma_free_passed(text, next, to);
        if is_strong_marker(text, from) && is_useful(marker_at(text, from)) {
            let all = seq![marker_at(text, from)] + rest;
            assert(all + markers_from(text, to, None) =~= seq![marker_at(text, from)] + (rest
                + markers_from(text, to, None)));
            assert forall|i: int| 0 <= i < all.len() implies from <= (#[trigger] all[i]).at < to
                && occurs_at(text, "**"@, all[i].at) by {
                if i > 0 {
                    assert(all[i] == rest[i - 1]);
                }
            }
            all
        } else {
            rest
        }
    }
}

proof fn lemma_code_ends(text: Seq<char>, spans: Seq<CodeSpan>, to: int)
    requires
        is_code_before(text, spans, to),
    ensures
        forall|i: int| 0 <= i < spans.len() ==> (#[trigger] spans[i]).end() <= to,
    decreases spans.len(),
{
    if spans.len() > 0 {
        let before = spans.drop_last();
        let last = spans.last();
        lemma_code_ends(text, before, last.open);
        assert forall|i: int| 0 <= i < spans.len() implies (#[trigger] spans[i]).end() <= to by {
            if i < before.len() {
                assert(before[i] == spans[i]);
            }
        }
    }
}

/// The markers that stand before `to`, where `spans` is all the code there.
proof fn lemma_code_read(text: Seq<char>, spans: Seq<CodeSpan>, to: int) -> (found: Seq<
    MarkerText,
>)
    requires
        text.len() <= usize::MAX,
        to <= text.len(),
        is_code_before(text, spans, to),
        0 < to < text.len() ==> !(text[to - 1] == '*' && text[to] == '*'),
    ensures
        markers_from(text, 0, None) == found + markers_from(text, to, None),
        stand_within(text, found, 0, to),
        forall|i: int| 0 <= i < found.len() ==> !is_inside(spans, (#[trigger] found[i]).at),
    decreases spans.len(),
{
    if spans.len() == 0 {
        lemma_free_passed(text, 0, to)
    } else {
        let last = spans.last();
        let before = spans.drop_last();
        assert(text[last.open] == last.mark);
        let prior = lemma_code_read(text, before, last.open);
        law_code_ends_where_it_should(text, last);
        assert(text[last.end() - 1] == last.mark);
        let rest = lemma_free_passed(text, last.end(), to);
        let found = prior + rest;
        assert(found + markers_from(text, to, None) =~= prior + (rest + markers_from(
            text,
            to,
            None,
        )));
        lemma_code_ends(text, before, last.open);
        assert forall|i: int| 0 <= i < found.len() implies 0 <= (#[trigger] found[i]).at < to
            && occurs_at(text, "**"@, found[i].at) && !is_inside(spans, found[i].at) by {
            if i < prior.len() {
                assert(found[i] == prior[i]);
            } else {
                assert(found[i] == rest[i - prior.len()]);
            }
            let at = found[i].at;
            if is_inside(spans, at) {
                let k = choose|k: int|
                    0 <= k < spans.len() && (#[trigger] spans[k]).open <= at < spans[k].end();
                if k < before.len() {
                    assert(before[k] == spans[k]);
                    assert(is_inside(before, at));
                }
            }
        }
        found
    }
}

proof fn lemma_ordered(text: Seq<char>, markers: Seq<MarkerText>, from: int)
    requires
        are_in_order(text, markers, from),
    ensures
        forall|i: int| 0 <= i < markers.len() ==> from <= (#[trigger] markers[i]).at,
    decreases markers.len(),
{
    if markers.len() > 0 {
        let rest = markers.drop_first();
        lemma_ordered(text, rest, markers[0].at + 2);
        assert forall|i: int| 0 <= i < markers.len() implies from <= (
        #[trigger] markers[i]).at by {
            if i > 0 {
                assert(markers[i] == rest[i - 1]);
            }
        }
    }
}

/// No marker stands inside of code.
pub proof fn law_markers_stand_outside_of_code(
    text: Seq<char>,
    spans: Seq<CodeSpan>,
    to: int,
    index: int,
)
    requires
        text.len() <= usize::MAX,
        spans.len() > 0,
        to <= text.len(),
        is_code_before(text, spans, to),
        0 <= index < markers_from(text, 0, None).len(),
    ensures
        !is_inside(spans, markers_from(text, 0, None)[index].at),
{
    let last = spans.last();
    let before = spans.drop_last();
    assert(text[last.open] == last.mark);
    let prior = lemma_code_read(text, before, last.open);
    law_code_ends_where_it_should(text, last);
    let rest = markers_from(text, last.end(), None);
    lemma_markers_in_order(text, last.end(), None);
    lemma_ordered(text, rest, last.end());
    lemma_code_ends(text, before, last.open);
    let all = markers_from(text, 0, None);
    let at = all[index].at;
    if index < prior.len() {
        assert(all[index] == prior[index]);
    } else {
        assert(all[index] == rest[index - prior.len()]);
    }
    if is_inside(spans, at) {
        let k = choose|k: int|
            0 <= k < spans.len() && (#[trigger] spans[k]).open <= at < spans[k].end();
        if k < before.len() {
            assert(before[k] == spans[k]);
            assert(is_inside(before, at));
        }
    }
}

/// Whether just two asterisks stand at `at`, with no backslash in front.
pub open spec fn stand_alone(text: Seq<char>, at: int) -> bool {
    &&& 0 <= at && at + 2 <= text.len()
    &&& text[at] == '*' && text[at + 1] == '*'
    &&& at > 0 ==> text[at - 1] != '*' && text[at - 1] != '\\'
    &&& at + 2 < text.len() ==> text[at + 2] != '*'
}

/// Whether `from` and `at` are on one line.
pub open spec fn on_one_line(text: Seq<char>, from: int, at: int) -> bool {
    0 <= from <= at && forall|i: int| from <= i < at ==> #[trigger] text[i] != '\n'
}

/// Whether some character from `from` on, before `to`, is `c`.
pub open spec fn stands_between(text: Seq<char>, from: int, to: int, c: char) -> bool {
    exists|i: int| from <= i < to && #[trigger] text[i] == c
}

/// Whether some character from `from` on, before `to`, is white space.
pub open spec fn is_left_between(text: Seq<char>, from: int, to: int) -> bool {
    exists|i: int| from <= i < to && is_white_space(#[trigger] text[i])
}

/// Whether every link on the line of `at` before it has ended by then, and every address.
pub open spec fn follows_no_address(text: Seq<char>, at: int) -> bool {
    forall|from: int| #[trigger]
        on_one_line(text, from, at) ==> {
            &&& occurs_at(text, "]("@, from) && from + 2 <= at ==> stands_between(
                text,
                from + 2,
                at,
                ')',
            )
            &&& occurs_at(text, "://"@, from) && from + 3 <= at ==> is_left_between(
                text,
                from + 3,
                at,
            )
        }
}

proof fn lemma_rfind(s: Seq<char>, pattern: Seq<char>, at: int)
    ensures
        match rfind_upto(s, pattern, at) {
            Some(found) => found <= at && occurs_at(s, pattern, found) && forall|i: int|
                found < i <= at ==> !occurs_at(s, pattern, i),
            None => forall|i: int| i <= at ==> !occurs_at(s, pattern, i),
        },
    decreases at + 1,
{
    if at >= 0 && !occurs_at(s, pattern, at) {
        lemma_rfind(s, pattern, at - 1);
    }
}

proof fn lemma_word_start(text: Seq<char>, from: int, at: int)
    requires
        0 <= from <= at <= text.len(),
    ensures
        from <= word_start(text, from, at) <= at,
        word_start(text, from, at) == from || is_white_space(
            text[word_start(text, from, at) - 1],
        ),
        forall|i: int| word_start(text, from, at) <= i < at ==> !is_white_space(#[trigger] text[i]),
    decreases at,
{
    if at > from && !is_white_space(text[at - 1]) {
        lemma_word_start(text, from, at - 1);
    }
}

proof fn lemma_occurs_within(text: Seq<char>, from: int, to: int, pattern: Seq<char>, at: int)
    requires
        0 <= from <= to <= text.len(),
        0 <= at,
    ensures
        occurs_at(text.subrange(from, to), pattern, at) <==> occurs_at(text, pattern, from + at)
            && from + at + pattern.len() <= to,
{
    let part = text.subrange(from, to);
    if at + pattern.len() <= part.len() {
        assert(part.subrange(at, at + pattern.len()) =~= text.subrange(
            from + at,
            from + at + pattern.len(),
        ));
    }
}

proof fn lemma_no_target(text: Seq<char>, at: int)
    requires
        0 <= at <= text.len(),
        follows_no_address(text, at),
    ensures
        !in_link_target(text, at),
{
    lemma_line_start(text, at);
    let start = line_start(text, at);
    let line = text.subrange(start, at);
    lemma_word_start(text, start, at);
    let from = word_start(text, start, at);
    let word = text.subrange(from, at);
    lemma_find_from(word, "://"@, 0);
    if let Some(found) = find_from(word, "://"@, 0) {
        reveal_strlit("://");
        lemma_occurs_within(text, from, at, "://"@, found);
        assert(on_one_line(text, from + found, at));
        let i = choose|i: int| from + found + 3 <= i < at && is_white_space(#[trigger] text[i]);
        assert(!is_white_space(text[i]));
    }
    lemma_rfind(line, "]("@, line.len() as int);
    lemma_rfind(line, ")"@, line.len() as int);
    if let Some(found) = rfind(line, "]("@) {
        reveal_strlit("](");
        reveal_strlit(")");
        lemma_occurs_within(text, start, at, "]("@, found);
        assert(on_one_line(text, start + found, at));
        let i = choose|i: int| start + found + 2 <= i < at && #[trigger] text[i] == ')';
        assert(line.subrange(i - start, i - start + 1) =~= ")"@);
        assert(occurs_at(line, ")"@, i - start));
    }
}

proof fn lemma_strong(text: Seq<char>, at: int)
    requires
        stand_alone(text, at),
        follows_no_address(text, at),
    ensures
        is_strong_marker(text, at),
{
    reveal_strlit("**");
    assert(text.subrange(at, at + 2) =~= "**"@);
    lemma_no_target(text, at);
    assert(backslashes_before(text, at) == 0);
}

/// Whether `c` is none, or white space.
spec fn is_open_end(text: Seq<char>, at: int) -> bool {
    at < 0 || at >= text.len() || is_white_space(text[at])
}

proof fn lemma_useful(text: Seq<char>, at: int)
    requires
        0 <= at && at + 2 <= text.len(),
        !is_open_end(text, at - 1) || !is_open_end(text, at + 2),
    ensures
        is_useful(marker_at(text, at)),
{
}

/// Two asterisks outside of code are a marker, whatever code stands before them, unless they are
/// escaped, part of an address, or have white space on both sides.
pub proof fn law_markers_outside_of_code_are_found(
    text: Seq<char>,
    spans: Seq<CodeSpan>,
    at: int,
)
    requires
        text.len() <= usize::MAX,
        is_code_before(text, spans, at),
        stand_alone(text, at),
        follows_no_address(text, at),
        (at > 0 && !is_white_space(text[at - 1])) || (at + 2 < text.len() && !is_white_space(
            text[at + 2],
        )),
    ensures
        exists|i: int|
            0 <= i < markers_from(text, 0, None).len() && (#[trigger] markers_from(
                text,
                0,
                None,
            )[i]).at == at,
{
    let found = lemma_code_read(text, spans, at);
    lemma_strong(text, at);
    lemma_useful(text, at);
    let rest = markers_from(text, at + 2, None);
    assert(markers_from(text, at, None) == seq![marker_at(text, at)] + rest);
    assert(markers_from(text, 0, None)[found.len() as int].at == at);
}

/// What is escaped by a backslash is no marker, nor what stands in the address of a link or in any
/// other address.
pub proof fn law_escapes_and_addresses_hold_no_markers(text: Seq<char>, at: int, from: int)
    requires
        0 <= from < at <= text.len(),
        on_one_line(text, from, at),
        ({
            ||| from == at - 1 && text[from] == '\\' && (from == 0 || text[from - 1] != '\\')
            ||| occurs_at(text, "]("@, from) && from + 2 <= at && forall|i: int|
                from <= i < at ==> #[trigger] text[i] != ')'
            ||| occurs_at(text, "://"@, from) && from + 3 <= at && forall|i: int|
                from <= i < at ==> !is_white_space(#[trigger] text[i])
        }),
    ensures
        forall|i: int|
            0 <= i < markers_from(text, 0, None).len() ==> (#[trigger] markers_from(
                text,
                0,
                None,
            )[i]).at != at,
{
    lemma_only_strong(text, 0, None);
    lemma_line_start(text, at);
    let start = line_start(text, at);
    if from < start {
        assert(text[start - 1] != '\n');
    }
    if text[from] == '\\' && from == at - 1 && (from == 0 || text[from - 1] != '\\') {
        assert(backslashes_before(text, from) == 0);
        assert(backslashes_before(text, at) == 1);
    } else if occurs_at(text, "]("@, from) && from + 2 <= at && forall|i: int|
        from <= i < at ==> #[trigger] text[i] != ')' {
        let line = text.subrange(start, at);
        reveal_strlit("](");
        reveal_strlit(")");
        lemma_rfind(line, "]("@, line.len() as int);
        lemma_rfind(line, ")"@, line.len() as int);
        lemma_occurs_within(text, start, at, "]("@, from - start);
        if let Some(close) = rfind(line, ")"@) {
            assert(line.subrange(close, close + 1)[0] == text[start + close]);
            assert(start + close < from);
        }
    } else {
        reveal_strlit("://");
        lemma_word_start(text, start, at);
        let first = word_start(text, start, at);
        assert(first <= from) by {
            if first > from {
                assert(!is_white_space(text[first - 1]));
            }
        }
        let word = text.subrange(first, at);
        lemma_find_from(word, "://"@, 0);
        lemma_occurs_within(text, first, at, "://"@, from - first);
    }
    assert(in_link_target(text, at) || backslashes_before(text, at) % 2 == 1);
    assert forall|i: int| 0 <= i < markers_from(text, 0, None).len() implies (
    #[trigger] markers_from(text, 0, None)[i]).at != at by {
        assert(is_strong_marker(text, markers_from(text, 0, None)[i].at));
    }
}

spec fn are_strong(text: Seq<char>, markers: Seq<MarkerText>) -> bool {
    forall|i: int| 0 <= i < markers.len() ==> is_strong_marker(text, (#[trigger] markers[i]).at)
}

proof fn lemma_only_strong(text: Seq<char>, from: int, code: Option<CodeDelimiter>)
    requires
        0 <= from,
    ensures
        are_strong(text, markers_from(text, from, code)),
    decreases text.len() - from,
{
    if from < text.len() {
        let c = text[from];
        let length = run_length(text, from, c);
        let fence = at_fence_position(text, from);
        lemma_run_length(text, from, c);
        if (c == '`' || c == '~') && code is Some {
            lemma_only_strong(text, from + length, None);
            lemma_only_strong(text, from + length, code);
        } else if opens_code(c, length, fence) && code is None {
            lemma_only_strong(
                text,
                from + length,
                Some(
                    CodeDelimiter { mark: c, length: length as usize, fenced: fence && length >= 3 },
                ),
            );
        } else if code is Some {
            lemma_only_strong(text, from + 1, code);
        } else if is_strong_marker(text, from) {
            reveal_strlit("**");
            lemma_only_strong(text, from + 2, None);
            let rest = markers_from(text, from + 2, None);
            let all = markers_from(text, from, None);
            assert forall|i: int| 0 <= i < all.len() implies is_strong_marker(
                text,
                (#[trigger] all[i]).at,
            ) by {
                if is_useful(marker_at(text, from)) && i > 0 {
                    assert(all[i] == rest[i - 1]);
                } else if !is_useful(marker_at(text, from)) {
                    assert(all[i] == rest[i]);
                }
            }
        } else {
            lemma_only_strong(text, from + 1, None);
        }
    }
}

/// Whether `c` is a letter of a script of East Asia.
pub open spec fn is_east_asian_letter(c: char) -> bool {
    is_cjk_char(c) && is_alphanumeric_char(c) && !is_white_space(c)
}

proof fn lemma_first_pair_stays(markers: Seq<MarkerText>, count: int)
    requires
        2 <= count <= markers.len(),
        pairing_of(markers, 2).open.len() == 0,
    ensures
        pairing_of(markers, count).before[0] == pairing_of(markers, 2).before[0],
        pairing_of(markers, count).before[1] == pairing_of(markers, 2).before[1],
        pairing_of(markers, count).after[0] == pairing_of(markers, 2).after[0],
        pairing_of(markers, count).after[1] == pairing_of(markers, 2).after[1],
        forall|i: int|
            0 <= i < pairing_of(markers, count).open.len() ==> 2 <= #[trigger] pairing_of(
                markers,
                count,
            ).open[i],
    decreases count,
{
    if count > 2 {
        lemma_first_pair_stays(markers, count - 1);
        lemma_pairing_lengths(markers, count - 1);
        let before = pairing_of(markers, count - 1);
        let after = pairing_of(markers, count);
        assert(after == marker_paired(before, markers, count - 1));
        if before.open.len() > 0 {
            assert(before.open[before.open.len() - 1] >= 2);
        }
        assert forall|i: int| 0 <= i < after.open.len() implies 2 <= #[trigger] after.open[i] by {
            if i < before.open.len() {
                assert(after.open[i] == before.open[i]);
            }
        }
    }
}

proof fn lemma_first_two(markers: Seq<MarkerText>)
    requires
        markers.len() >= 2,
        !markers[0].standard_open && markers[0].compatibility_open,
        !markers[1].standard_close && markers[1].compatibility_close,
    ensures
        ({
            let pairing = pairing_of(markers, markers.len() as int);
            &&& pairing.before[0] && !pairing.after[0]
            &&& !pairing.before[1] && pairing.after[1]
        }),
{
    let none = pairing_of(markers, 0);
    let one = pairing_of(markers, 1);
    let two = pairing_of(markers, 2);
    assert(one == marker_paired(none, markers, 0));
    assert(one.open =~= seq![0int]);
    assert(two == marker_paired(one, markers, 1));
    assert(two.open =~= Seq::empty());
    lemma_first_pair_stays(markers, markers.len() as int);
}

/// Strong emphasis that begins between an East Asian letter and punctuation and ends between
/// punctuation and an East Asian letter gets its sentinels, whatever code stands before it.
pub proof fn law_emphasis_behind_code_is_made_readable(
    text: Seq<char>,
    spans: Seq<CodeSpan>,
    first: int,
    second: int,
)
    requires
        text.len() <= usize::MAX,
        is_code_before(text, spans, second),
        forall|i: int| 0 <= i < spans.len() ==> (#[trigger] spans[i]).end() <= first,
        0 < first && first + 3 <= second && second + 2 < text.len(),
        stand_alone(text, first) && follows_no_address(text, first),
        stand_alone(text, second) && follows_no_address(text, second),
        forall|at: int|
            0 <= at < second && #[trigger] occurs_at(text, "**"@, at) ==> at == first || is_inside(
                spans,
                at,
            ),
        is_east_asian_letter(text[first - 1]) && is_punctuation(text[first + 2]),
        is_punctuation(text[second - 1]) && is_east_asian_letter(text[second + 2]),
    ensures
        (text.take(first) + seq![CJK_EMPHASIS_SENTINEL] + text.subrange(first, second + 2) + seq![
            CJK_EMPHASIS_SENTINEL,
        ]).is_prefix_of(normalized(text)),
{
    reveal_strlit("**");
    lemma_code_before_less(text, spans, first, second);
    let found = lemma_code_read(text, spans, first);
    if found.len() > 0 {
        assert(occurs_at(text, "**"@, found[0].at));
    }
    lemma_strong(text, first);
    lemma_strong(text, second);
    lemma_useful(text, first);
    lemma_useful(text, second);
    assert(is_free_of_code(text, first + 2, second)) by {
        if spans.len() > 0 {
            assert(spans[spans.len() - 1].end() <= first);
        }
    }
    assert(!(text[second - 1] == '*' && text[second] == '*'));
    let between = lemma_free_passed(text, first + 2, second);
    if between.len() > 0 {
        assert(occurs_at(text, "**"@, between[0].at));
        let at = between[0].at;
        if is_inside(spans, at) {
            let k = choose|k: int|
                0 <= k < spans.len() && (#[trigger] spans[k]).open <= at < spans[k].end();
            assert(spans[k].end() <= first);
        }
    }
    let rest = markers_from(text, second + 2, None);
    let all = markers_from(text, 0, None);
    assert(markers_from(text, first, None) == seq![marker_at(text, first)] + markers_from(
        text,
        first + 2,
        None,
    ));
    assert(markers_from(text, second, None) == seq![marker_at(text, second)] + rest);
    assert(found =~= Seq::empty());
    assert(between =~= Seq::empty());
    assert(all =~= seq![marker_at(text, first), marker_at(text, second)] + rest);
    let pairing = pairing_of(all, all.len() as int);
    lemma_first_two(all);
    let tail = marked_from(text, all, pairing, 2, second + 2);
    let sign = seq![CJK_EMPHASIS_SENTINEL];
    let second_part = marked_from(text, all, pairing, 1, first + 2);
    assert(second_part =~= text.subrange(first + 2, second) + "**"@ + sign + tail);
    assert(normalized(text) =~= text.subrange(0, first) + sign + "**"@ + second_part);
    assert(text.subrange(first, second + 2) =~= "**"@ + text.subrange(first + 2, second) + "**"@);
    let start = text.take(first) + sign + text.subrange(first, second + 2) + sign;
    assert(normalized(text) =~= start + tail);
}

proof fn lemma_code_before_less(text: Seq<char>, spans: Seq<CodeSpan>, to: int, later: int)
    requires
        is_code_before(text, spans, later),
        0 <= to <= later,
        forall|i: int| 0 <= i < spans.len() ==> (#[trigger] spans[i]).end() <= to,
    ensures
        is_code_before(text, spans, to),
{
    if spans.len() > 0 {
        assert(spans[spans.len() - 1].end() <= to);
    }
}

/// A marker opens and closes by what stands on either side of it, as seen from there: what opens
/// between two characters closes between them the other way round.
pub proof fn law_opening_and_closing_are_mirrored(
    at: int,
    previous: Option<char>,
    next: Option<char>,
)
    ensures
        marker_between(at, previous, next).standard_open == marker_between(
            at,
            next,
            previous,
        ).standard_close,
        marker_between(at, previous, next).compatibility_open == marker_between(
            at,
            next,
            previous,
        ).compatibility_close,
{
}

/// What a character beside a marker is to it: white space or an end, punctuation, or part of a word.
pub enum Beside {
    Space,
    Punctuation,
    Word,
}

/// What `c` is beside a marker.
pub open spec fn beside(c: Option<char>) -> Beside {
    match c {
        None => Beside::Space,
        Some(c) => if is_white_space(c) {
            Beside::Space
        } else if is_alphanumeric_char(c) {
            Beside::Word
        } else {
            Beside::Punctuation
        },
    }
}

/// A marker opens before a word wherever it stands, before punctuation unless it stands behind a
/// word, and never before white space. Behind an East Asian letter it opens before punctuation too.
pub proof fn law_markers_open_by_what_is_beside_them(
    at: int,
    previous: Option<char>,
    next: Option<char>,
)
    ensures
        marker_between(at, previous, next).standard_open <==> match (beside(previous), beside(next)) {
            (_, Beside::Space) => false,
            (_, Beside::Word) => true,
            (Beside::Word, Beside::Punctuation) => false,
            (_, Beside::Punctuation) => true,
        },
        marker_between(at, previous, next).compatibility_open <==> previous is Some && is_cjk_char(
            previous->0,
        ) && beside(next) is Punctuation,
{
}

/// The scripts of East Asia are those of these blocks: Hangul jamo, the kana, bopomofo, the
/// ideographs with their extensions and their compatibility forms, and the Hangul syllables.
pub proof fn law_scripts_of_east_asia(c: char)
    ensures
        is_cjk_char(c) <==> {
            let code = c as int;
            ||| 0x1100 <= code <= 0x11ff
            ||| 0x3040 <= code <= 0x30ff
            ||| 0x3100 <= code <= 0x312f
            ||| 0x3400 <= code <= 0x4dbf
            ||| 0x4e00 <= code <= 0x9fff
            ||| 0xac00 <= code <= 0xd7af
            ||| 0xf900 <= code <= 0xfaff
            ||| 0x20000 <= code <= 0x2fa1f
        },
{
}

proof fn lemma_backslashes(text: Seq<char>, at: int, count: nat)
    requires
        count <= at <= text.len(),
        forall|i: int| at - count <= i < at ==> #[trigger] text[i] == '\\',
        at > count ==> text[at - count - 1] != '\\',
    ensures
        backslashes_before(text, at) == count,
    decreases count,
{
    if count > 0 {
        assert(text[at - 1] == '\\');
        lemma_backslashes(text, at - 1, (count - 1) as nat);
    }
}

/// A backslash that is escaped itself escapes nothing: two asterisks are a marker behind an even number
/// of backslashes, and none behind an odd one.
pub proof fn law_backslashes_escape_in_turn(text: Seq<char>, at: int, count: nat)
    requires
        count <= at && at + 2 <= text.len(),
        text[at] == '*' && text[at + 1] == '*',
        at > 0 ==> text[at - 1] != '*',
        at + 2 < text.len() ==> text[at + 2] != '*',
        follows_no_address(text, at),
        forall|i: int| at - count <= i < at ==> #[trigger] text[i] == '\\',
        at > count ==> text[at - count - 1] != '\\',
    ensures
        is_strong_marker(text, at) <==> count % 2 == 0,
{
    reveal_strlit("**");
    assert(text.subrange(at, at + 2) =~= "**"@);
    lemma_no_target(text, at);
    lemma_backslashes(text, at, count);
}

} // verus!
