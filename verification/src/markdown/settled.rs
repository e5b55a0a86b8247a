//! A source whose emphasis has been made readable once needs nothing more.

use vstd::prelude::*;

use crate::markdown::at_fence_position;
use crate::markdown::backslashes_before;
use crate::markdown::closes_by_compatibility;
use crate::markdown::closes_code;
use crate::markdown::in_link_target;
use crate::markdown::is_cjk_char;
use crate::markdown::is_marked;
use crate::markdown::is_strong_marker;
use crate::markdown::is_useful;
use crate::markdown::lemma_markers_in_order;
use crate::markdown::lemma_pairing_lengths;
use crate::markdown::lemma_run_length;
use crate::markdown::lemma_unmarked;
use crate::markdown::line_start;
use crate::markdown::marked_from;
use crate::markdown::marker_at;
use crate::markdown::marker_paired;
use crate::markdown::markers_from;
use crate::markdown::normalized;
use crate::markdown::opens_by_compatibility;
use crate::markdown::opens_code;
use crate::markdown::pairing_of;
use crate::markdown::rfind;
use crate::markdown::rfind_upto;
use crate::markdown::run_length;
use crate::markdown::sentinel_if;
use crate::markdown::word_start;
use crate::markdown::CodeDelimiter;
use crate::markdown::MarkerText;
use crate::markdown::Pairing;
use crate::markdown::CJK_EMPHASIS_SENTINEL;
use crate::text::find_from;
use crate::text::is_white_space;
use crate::text::lemma_find_from;
use crate::text::occurs_at;

verus! {

/// `text` with a sentinel put in before what stands at `spot`.
spec fn with_sentinel(text: Seq<char>, spot: int) -> Seq<char> {
    Seq::new(
        text.len() + 1,
        |i: int|
            if i < spot {
                text[i]
            } else if i == spot {
                CJK_EMPHASIS_SENTINEL
            } else {
                text[i - 1]
            },
    )
}

/// Where what stood at `i` stands once there is a sentinel at `spot`.
spec fn moved(i: int, spot: int) -> int {
    if i < spot {
        i
    } else {
        i + 1
    }
}

/// Whether a sentinel can go to `spot`: directly before the marker at `at`, behind a letter of a
/// script of East Asia, or directly behind the marker.
spec fn is_spot(text: Seq<char>, at: int, spot: int) -> bool {
    &&& is_strong_marker(text, at)
    &&& (spot == at && at > 0 && is_cjk_char(text[at - 1])) || (spot == at + 2 && at + 2
        < text.len() && is_cjk_char(text[at + 2]))
}

proof fn lemma_stars(text: Seq<char>, at: int)
    ensures
        occurs_at(text, "**"@, at) <==> 0 <= at && at + 2 <= text.len() && text[at] == '*'
            && text[at + 1] == '*',
{
    reveal_strlit("**");
    if 0 <= at && at + 2 <= text.len() {
        let part = text.subrange(at, at + 2);
        if text[at] == '*' && text[at + 1] == '*' {
            assert(part =~= "**"@);
        }
        if part == "**"@ {
            assert(part[0] == '*' && part[1] == '*');
        }
    }
}

proof fn lemma_run_chars(text: Seq<char>, from: int, c: char)
    requires
        0 <= from <= text.len(),
    ensures
        forall|i: int| from <= i < from + run_length(text, from, c) ==> #[trigger] text[i] == c,
    decreases text.len() - from,
{
    if from < text.len() && text[from] == c {
        lemma_run_chars(text, from + 1, c);
    }
}

proof fn lemma_run_moved(text: Seq<char>, at: int, spot: int, i: int, c: char)
    requires
        is_spot(text, at, spot),
        0 <= i <= text.len(),
        c == '`' || c == '~',
    ensures
        run_length(with_sentinel(text, spot), moved(i, spot), c) == run_length(text, i, c),
    decreases text.len() - i,
{
    lemma_stars(text, at);
    let after = with_sentinel(text, spot);
    if i < text.len() {
        assert(after[moved(i, spot)] == text[i]);
        if text[i] == c {
            lemma_run_moved(text, at, spot, i + 1, c);
            if i + 1 == spot {
                assert(after[spot] != c);
                assert(run_length(after, spot, c) == 0);
                assert(text[spot] != c);
                assert(run_length(text, spot, c) == 0);
            }
        }
    }
}

proof fn lemma_line_start(text: Seq<char>, i: int)
    requires
        0 <= i <= text.len(),
    ensures
        0 <= line_start(text, i) <= i,
        line_start(text, i) == 0 || text[line_start(text, i) - 1] == '\n',
        forall|j: int| line_start(text, i) <= j < i ==> #[trigger] text[j] != '\n',
    decreases i,
{
    if i > 0 && text[i - 1] != '\n' {
        lemma_line_start(text, i - 1);
    }
}

/// Whether a line begins at `from` that holds at most three spaces before `i`, and nothing else.
spec fn is_fence_line(text: Seq<char>, from: int, i: int) -> bool {
    &&& 0 <= from <= i
    &&& i - from <= 3
    &&& from == 0 || text[from - 1] == '\n'
    &&& forall|j: int| from <= j < i ==> #[trigger] text[j] == ' '
}

proof fn lemma_fence(text: Seq<char>, from: int, i: int)
    requires
        0 <= i <= text.len(),
    ensures
        at_fence_position(text, i) == is_fence_line(text, line_start(text, i), i),
        is_fence_line(text, from, i) ==> from == line_start(text, i),
{
    lemma_line_start(text, i);
    let start = line_start(text, i);
    if is_fence_line(text, from, i) {
        if from < start {
            assert(text[start - 1] == ' ');
        } else if start < from {
            assert(text[from - 1] != '\n');
        }
    }
}

proof fn lemma_fence_moved(text: Seq<char>, at: int, spot: int, i: int)
    requires
        is_spot(text, at, spot),
        0 <= i <= text.len(),
    ensures
        at_fence_position(with_sentinel(text, spot), moved(i, spot)) == at_fence_position(text, i),
{
    lemma_stars(text, at);
    let after = with_sentinel(text, spot);
    let there = moved(i, spot);
    let from = line_start(text, i);
    let from_there = line_start(after, there);
    lemma_fence(text, from, i);
    lemma_fence(after, from_there, there);
    if i < spot {
        if is_fence_line(text, from, i) {
            assert forall|j: int| from <= j < i implies #[trigger] after[j] == ' ' by {
                assert(text[j] == ' ');
            }
            assert(is_fence_line(after, from, there));
            lemma_fence(after, from, there);
        }
        if is_fence_line(after, from_there, there) {
            assert forall|j: int| from_there <= j < i implies #[trigger] text[j] == ' ' by {
                assert(after[j] == ' ');
            }
            assert(is_fence_line(text, from_there, i));
            lemma_fence(text, from_there, i);
        }
    } else {
        if is_fence_line(text, from, i) {
            assert(from > spot) by {
                if from <= spot {
                    if from < spot {
                        assert(text[spot - 1] == ' ');
                    } else {
                        assert(text[spot - 1] == '\n');
                    }
                }
            }
            assert forall|j: int| from + 1 <= j < there implies #[trigger] after[j] == ' ' by {
                assert(text[j - 1] == ' ');
            }
            assert(is_fence_line(after, from + 1, there));
            lemma_fence(after, from + 1, there);
        }
        if is_fence_line(after, from_there, there) {
            if from_there <= spot {
                assert(after[spot] == ' ');
            }
            let back = from_there - 1;
            assert(back > spot);
            assert forall|j: int| back <= j < i implies #[trigger] text[j] == ' ' by {
                assert(after[j + 1] == ' ');
            }
            assert(text[back - 1] == after[from_there - 1]);
            assert(is_fence_line(text, back, i));
            lemma_fence(text, back, i);
        }
    }
}

/// Whether an address begins at `from` and goes on up to `i`.
spec fn is_address(text: Seq<char>, from: int, i: int) -> bool {
    &&& 0 <= from && from + 3 <= i
    &&& text[from] == ':' && text[from + 1] == '/' && text[from + 2] == '/'
    &&& forall|j: int| from <= j < i ==> !is_white_space(#[trigger] text[j])
}

/// Whether the target of a link begins at `from` and has not ended before `i`.
spec fn is_target(text: Seq<char>, from: int, i: int) -> bool {
    &&& 0 <= from && from + 2 <= i
    &&& text[from] == ']' && text[from + 1] == '('
    &&& forall|j: int| from <= j < i ==> #[trigger] text[j] != '\n' && text[j] != ')'
}

proof fn lemma_word_start(text: Seq<char>, from: int, i: int)
    requires
        0 <= from <= i <= text.len(),
    ensures
        from <= word_start(text, from, i) <= i,
        word_start(text, from, i) == from || is_white_space(text[word_start(text, from, i) - 1]),
        forall|j: int|
            word_start(text, from, i) <= j < i ==> !is_white_space(#[trigger] text[j]),
    decreases i,
{
    if i > from && !is_white_space(text[i - 1]) {
        lemma_word_start(text, from, i - 1);
    }
}

proof fn lemma_rfind_upto(s: Seq<char>, pattern: Seq<char>, at: int)
    ensures
        match rfind_upto(s, pattern, at) {
            Some(found) => 0 <= found <= at && occurs_at(s, pattern, found) && forall|i: int|
                found < i <= at ==> !(#[trigger] occurs_at(s, pattern, i)),
            None => forall|i: int| i <= at ==> !(#[trigger] occurs_at(s, pattern, i)),
        },
    decreases at + 1,
{
    if at >= 0 && !occurs_at(s, pattern, at) {
        lemma_rfind_upto(s, pattern, at - 1);
    }
}

proof fn lemma_in_address(text: Seq<char>, i: int)
    requires
        0 <= i <= text.len(),
    ensures
        ({
            let from = word_start(text, line_start(text, i), i);
            find_from(text.subrange(from, i), "://"@, 0) is Some <==> exists|p: int|
                #[trigger] is_address(text, p, i)
        }),
{
    reveal_strlit("://");
    lemma_line_start(text, i);
    let start = line_start(text, i);
    lemma_word_start(text, start, i);
    let from = word_start(text, start, i);
    let word = text.subrange(from, i);
    lemma_find_from(word, "://"@, 0);
    if let Some(at) = find_from(word, "://"@, 0) {
        let part = word.subrange(at, at + 3);
        assert(part == "://"@);
        assert(part[0] == ':' && part[1] == '/' && part[2] == '/');
        assert(is_address(text, from + at, i));
    }
    if exists|p: int| #[trigger] is_address(text, p, i) {
        let p = choose|p: int| #[trigger] is_address(text, p, i);
        assert(from <= p) by {
            if p < from {
                assert(is_white_space(text[from - 1]));
            }
        }
        assert(word.subrange(p - from, p - from + 3) =~= "://"@);
        assert(occurs_at(word, "://"@, p - from));
    }
}

proof fn lemma_in_parentheses(text: Seq<char>, i: int)
    requires
        0 <= i <= text.len(),
    ensures
        ({
            let line = text.subrange(line_start(text, i), i);
            let open = rfind(line, "]("@);
            let close = rfind(line, ")"@);
            (open is Some && (close is None || open->0 > close->0)) <==> exists|p: int|
                #[trigger] is_target(text, p, i)
        }),
{
    reveal_strlit("](");
    reveal_strlit(")");
    lemma_line_start(text, i);
    let start = line_start(text, i);
    let line = text.subrange(start, i);
    let open = rfind(line, "]("@);
    let close = rfind(line, ")"@);
    lemma_rfind_upto(line, "]("@, line.len() as int);
    lemma_rfind_upto(line, ")"@, line.len() as int);
    if open is Some && (close is None || open->0 > close->0) {
        let at = open->0;
        let part = line.subrange(at, at + 2);
        assert(part[0] == ']' && part[1] == '(');
        assert forall|j: int| start + at <= j < i implies #[trigger] text[j] != '\n' && text[j]
            != ')' by {
            if text[j] == ')' {
                assert(line.subrange(j - start, j - start + 1) =~= ")"@);
                assert(occurs_at(line, ")"@, j - start));
            }
        }
        assert(is_target(text, start + at, i));
    }
    if exists|p: int| #[trigger] is_target(text, p, i) {
        let p = choose|p: int| #[trigger] is_target(text, p, i);
        assert(start <= p) by {
            if p < start {
                assert(text[start - 1] == '\n');
            }
        }
        assert(line.subrange(p - start, p - start + 2) =~= "]("@);
        assert(occurs_at(line, "]("@, p - start));
        assert(open is Some && open->0 >= p - start);
        if let Some(at) = close {
            let part = line.subrange(at, at + 1);
            assert(part[0] == ')');
            assert(text[start + at] == ')');
            assert(start + at < p);
        }
    }
}

proof fn lemma_link_target(text: Seq<char>, i: int)
    requires
        0 <= i <= text.len(),
    ensures
        in_link_target(text, i) <==> (exists|p: int| #[trigger] is_address(text, p, i)) || (
        exists|p: int| #[trigger] is_target(text, p, i)),
{
    lemma_in_address(text, i);
    lemma_in_parentheses(text, i);
}

proof fn lemma_address_moved(text: Seq<char>, at: int, spot: int, i: int)
    requires
        is_spot(text, at, spot),
        0 <= i <= text.len(),
    ensures
        (exists|p: int| #[trigger] is_address(text, p, i)) <==> (exists|p: int| #[trigger]
            is_address(with_sentinel(text, spot), p, moved(i, spot))),
{
    lemma_stars(text, at);
    lemma_link_target(text, at);
    let after = with_sentinel(text, spot);
    let there = moved(i, spot);
    if exists|p: int| #[trigger] is_address(text, p, i) {
        let p = choose|p: int| #[trigger] is_address(text, p, i);
        if i < spot {
            assert forall|j: int| p <= j < i implies !is_white_space(#[trigger] after[j]) by {
                assert(after[j] == text[j]);
            }
            assert(is_address(after, p, there));
        } else {
            assert(p >= spot) by {
                if p < spot {
                    if p + 3 <= at {
                        assert(is_address(text, p, at));
                    }
                }
            }
            assert forall|j: int| p + 1 <= j < there implies !is_white_space(
                #[trigger] after[j],
            ) by {
                assert(after[j] == text[j - 1]);
            }
            assert(is_address(after, p + 1, there));
        }
    }
    if exists|p: int| #[trigger] is_address(after, p, there) {
        let p = choose|p: int| #[trigger] is_address(after, p, there);
        if i < spot {
            assert forall|j: int| p <= j < i implies !is_white_space(#[trigger] text[j]) by {
                assert(after[j] == text[j]);
            }
            assert(is_address(text, p, i));
        } else {
            if p <= spot {
                assert(is_white_space(after[spot]));
            }
            assert forall|j: int| p - 1 <= j < i implies !is_white_space(#[trigger] text[j]) by {
                assert(after[j + 1] == text[j]);
            }
            assert(is_address(text, p - 1, i));
        }
    }
}

proof fn lemma_target_moved(text: Seq<char>, at: int, spot: int, i: int)
    requires
        is_spot(text, at, spot),
        0 <= i <= text.len(),
    ensures
        (exists|p: int| #[trigger] is_target(text, p, i)) <==> (exists|p: int| #[trigger]
            is_target(with_sentinel(text, spot), p, moved(i, spot))),
{
    lemma_stars(text, at);
    let after = with_sentinel(text, spot);
    let there = moved(i, spot);
    if exists|p: int| #[trigger] is_target(text, p, i) {
        let p = choose|p: int| #[trigger] is_target(text, p, i);
        let moved_p = moved(p, spot);
        assert(text[p] == ']' && text[p + 1] == '(');
        assert(p + 1 != spot);
        assert forall|j: int| moved_p <= j < there implies #[trigger] after[j] != '\n' && after[j]
            != ')' by {
            if j < spot {
                assert(after[j] == text[j]);
            } else if j > spot {
                assert(after[j] == text[j - 1]);
            }
        }
        assert(is_target(after, moved_p, there));
    }
    if exists|p: int| #[trigger] is_target(after, p, there) {
        let p = choose|p: int| #[trigger] is_target(after, p, there);
        assert(after[p] == ']' && after[p + 1] == '(');
        assert(p != spot && p + 1 != spot);
        let back = if p < spot {
            p
        } else {
            p - 1
        };
        assert forall|j: int| back <= j < i implies #[trigger] text[j] != '\n' && text[j]
            != ')' by {
            assert(after[moved(j, spot)] == text[j]);
        }
        assert(is_target(text, back, i));
    }
}

proof fn lemma_backslashes_moved(text: Seq<char>, at: int, spot: int, i: int)
    requires
        is_spot(text, at, spot),
        0 <= i <= text.len(),
    ensures
        backslashes_before(with_sentinel(text, spot), moved(i, spot)) == backslashes_before(
            text,
            i,
        ),
    decreases i,
{
    lemma_stars(text, at);
    let after = with_sentinel(text, spot);
    if i == spot {
        assert(after[spot] != '\\');
        assert(text[spot - 1] != '\\');
    } else if i > 0 {
        lemma_backslashes_moved(text, at, spot, i - 1);
        assert(moved(i - 1, spot) == moved(i, spot) - 1);
        assert(after[moved(i, spot) - 1] == text[i - 1]);
    }
}

proof fn lemma_strong_moved(text: Seq<char>, at: int, spot: int, i: int)
    requires
        is_spot(text, at, spot),
        0 <= i <= text.len(),
    ensures
        is_strong_marker(with_sentinel(text, spot), moved(i, spot)) == is_strong_marker(text, i),
{
    let after = with_sentinel(text, spot);
    let there = moved(i, spot);
    lemma_stars(text, at);
    lemma_stars(text, i);
    lemma_stars(after, there);
    lemma_backslashes_moved(text, at, spot, i);
    lemma_link_target(text, i);
    lemma_link_target(after, there);
    lemma_address_moved(text, at, spot, i);
    lemma_target_moved(text, at, spot, i);
}

/// A marker other than the one at `at` stays what it is.
proof fn lemma_marker_moved(text: Seq<char>, at: int, spot: int, i: int)
    requires
        is_spot(text, at, spot),
        is_strong_marker(text, i),
        i != at,
    ensures
        marker_at(with_sentinel(text, spot), moved(i, spot)) == (MarkerText {
            at: moved(i, spot),
            ..marker_at(text, i)
        }),
{
    lemma_stars(text, at);
    lemma_stars(text, i);
    let after = with_sentinel(text, spot);
    let there = moved(i, spot);
    assert(i + 2 < text.len() ==> after[there + 2] == text[i + 2]);
    assert(i > 0 ==> after[there - 1] == text[i - 1]);
}

/// The sentinel itself is neither code nor a marker.
proof fn lemma_sentinel_passed(text: Seq<char>, spot: int, code: Option<CodeDelimiter>)
    requires
        0 <= spot <= text.len(),
    ensures
        markers_from(with_sentinel(text, spot), spot, code) == markers_from(
            with_sentinel(text, spot),
            spot + 1,
            code,
        ),
{
    let after = with_sentinel(text, spot);
    assert(after[spot] == CJK_EMPHASIS_SENTINEL);
    lemma_stars(after, spot);
}

/// The markers that `markers` have become.
spec fn all_moved(markers: Seq<MarkerText>, text: Seq<char>, spot: int) -> Seq<MarkerText> {
    markers.map_values(
        |marker: MarkerText| marker_at(with_sentinel(text, spot), moved(marker.at, spot)),
    )
}

/// Whether the marker at `at` is useful with and without the sentinel.
spec fn stays_useful(text: Seq<char>, at: int, spot: int) -> bool {
    is_useful(marker_at(text, at)) && is_useful(
        marker_at(with_sentinel(text, spot), moved(at, spot)),
    )
}

/// Where the scan goes on at `next`, it does so at the same place in the text with the sentinel.
proof fn lemma_scan_goes_on(
    text: Seq<char>,
    at: int,
    spot: int,
    from: int,
    next: int,
    code: Option<CodeDelimiter>,
)
    requires
        is_spot(text, at, spot),
        stays_useful(text, at, spot),
        0 <= from < next <= text.len(),
        next <= spot || from >= spot,
    ensures
        markers_from(with_sentinel(text, spot), moved(from, spot) + (next - from), code)
            == all_moved(markers_from(text, next, code), text, spot),
    decreases text.len() - next, 1int,
{
    lemma_stars(text, at);
    lemma_markers_moved(text, at, spot, next, code);
    if next == spot {
        lemma_sentinel_passed(text, spot, code);
    }
}

proof fn lemma_markers_moved(
    text: Seq<char>,
    at: int,
    spot: int,
    from: int,
    code: Option<CodeDelimiter>,
)
    requires
        is_spot(text, at, spot),
        stays_useful(text, at, spot),
        0 <= from <= text.len(),
    ensures
        markers_from(with_sentinel(text, spot), moved(from, spot), code) == all_moved(
            markers_from(text, from, code),
            text,
            spot,
        ),
    decreases text.len() - from, 0int,
{
    let after = with_sentinel(text, spot);
    let there = moved(from, spot);
    lemma_stars(text, at);
    if from == text.len() {
        assert(markers_from(after, there, code) =~= all_moved(
            markers_from(text, from, code),
            text,
            spot,
        ));
    } else {
        let c = text[from];
        let length = run_length(text, from, c);
        let fence = at_fence_position(text, from);
        assert(after[there] == c);
        lemma_run_length(text, from, c);
        lemma_run_length(after, there, c);
        lemma_run_chars(text, from, c);
        lemma_fence_moved(text, at, spot, from);
        lemma_strong_moved(text, at, spot, from);
        lemma_stars(text, from);
        lemma_stars(after, there);
        if c == '`' || c == '~' {
            lemma_run_moved(text, at, spot, from, c);
            assert(from + length <= spot || from >= spot) by {
                if from < spot < from + length {
                    assert(text[spot - 1] == c);
                    assert(text[spot] == c);
                }
            }
        }
        if (c == '`' || c == '~') && code is Some {
            let next = if closes_code(code->0, c, length, fence) {
                None
            } else {
                code
            };
            lemma_scan_goes_on(text, at, spot, from, from + length, next);
        } else if opens_code(c, length, fence) && code is None {
            let next = Some(
                CodeDelimiter { mark: c, length: length as usize, fenced: fence && length >= 3 },
            );
            lemma_scan_goes_on(text, at, spot, from, from + length, next);
        } else if code is Some {
            lemma_scan_goes_on(text, at, spot, from, from + 1, code);
        } else if is_strong_marker(text, from) {
            reveal_strlit("**");
            lemma_scan_goes_on(text, at, spot, from, from + 2, None);
            let rest = markers_from(text, from + 2, None);
            if from != at {
                lemma_marker_moved(text, at, spot, from);
            }
            if is_useful(marker_at(text, from)) {
                assert(all_moved(seq![marker_at(text, from)] + rest, text, spot) =~= seq![
                    marker_at(after, there),
                ] + all_moved(rest, text, spot));
            }
        } else {
            lemma_scan_goes_on(text, at, spot, from, from + 1, None);
        }
    }
}

/// Whether each of `markers` is what stands in `text` at its place, from `from` on, and they come
/// one behind the other.
spec fn are_markers_of(text: Seq<char>, markers: Seq<MarkerText>, from: int) -> bool {
    &&& forall|i: int|
        0 <= i < markers.len() ==> is_strong_marker(text, (#[trigger] markers[i]).at) && markers[i]
            == marker_at(text, markers[i].at) && is_useful(markers[i]) && from <= markers[i].at
    &&& forall|i: int, j: int|
        0 <= i < j < markers.len() ==> (#[trigger] markers[i]).at + 2 <= (#[trigger] markers[j]).at
}

proof fn lemma_markers_of(text: Seq<char>, from: int, code: Option<CodeDelimiter>)
    requires
        0 <= from,
    ensures
        are_markers_of(text, markers_from(text, from, code), from),
    decreases text.len() - from,
{
    if from < text.len() {
        let c = text[from];
        let length = run_length(text, from, c);
        let fence = at_fence_position(text, from);
        lemma_run_length(text, from, c);
        reveal_strlit("**");
        if (c == '`' || c == '~') && code is Some {
            lemma_markers_of(text, from + length, None);
            lemma_markers_of(text, from + length, code);
        } else if opens_code(c, length, fence) && code is None {
            lemma_markers_of(
                text,
                from + length,
                Some(
                    CodeDelimiter { mark: c, length: length as usize, fenced: fence && length >= 3 },
                ),
            );
        } else if code is Some {
            lemma_markers_of(text, from + 1, code);
        } else if is_strong_marker(text, from) {
            lemma_markers_of(text, from + 2, None);
        } else {
            lemma_markers_of(text, from + 1, None);
        }
    }
}

/// Whether the marker `index` of `markers` is one that opens.
spec fn is_opening(markers: Seq<MarkerText>, index: int) -> bool {
    let marker = markers[index];
    &&& !(pairing_of(markers, index).open.len() > 0 && (marker.standard_close
        || marker.compatibility_close))
    &&& marker.standard_open || marker.compatibility_open
}

/// Whether the marker `index` of `markers` is one that closes.
spec fn is_closing(markers: Seq<MarkerText>, index: int) -> bool {
    let marker = markers[index];
    pairing_of(markers, index).open.len() > 0 && (marker.standard_close
        || marker.compatibility_close)
}

proof fn lemma_opened(markers: Seq<MarkerText>, count: int)
    requires
        0 <= count <= markers.len(),
    ensures
        forall|i: int|
            0 <= i < pairing_of(markers, count).open.len() ==> 0 <= #[trigger] pairing_of(
                markers,
                count,
            ).open[i] < count && is_opening(markers, pairing_of(markers, count).open[i]),
    decreases count,
{
    if count > 0 {
        lemma_opened(markers, count - 1);
        let before = pairing_of(markers, count - 1);
        let after = pairing_of(markers, count);
        assert(after == marker_paired(before, markers, count - 1));
        assert forall|i: int| 0 <= i < after.open.len() implies 0 <= #[trigger] after.open[i]
            < count && is_opening(markers, after.open[i]) by {
            if i < before.open.len() {
                assert(after.open[i] == before.open[i]);
            }
        }
    }
}

proof fn lemma_why_marked(markers: Seq<MarkerText>, count: int, index: int)
    requires
        0 <= count <= markers.len(),
        0 <= index < markers.len(),
    ensures
        pairing_of(markers, count).before[index] ==> is_opening(markers, index)
            && opens_by_compatibility(markers[index]),
        pairing_of(markers, count).after[index] ==> is_closing(markers, index)
            && closes_by_compatibility(markers[index]),
    decreases count,
{
    if count > 0 {
        lemma_why_marked(markers, count - 1, index);
        lemma_opened(markers, count - 1);
        lemma_pairing_lengths(markers, count - 1);
        let pairing = pairing_of(markers, count - 1);
        if pairing.open.len() > 0 {
            assert(is_opening(markers, pairing.open[pairing.open.len() - 1]));
        }
    }
}

/// Whether two markers open and close alike.
spec fn is_alike(a: MarkerText, b: MarkerText) -> bool {
    &&& a.standard_open == b.standard_open
    &&& a.standard_close == b.standard_close
    &&& a.compatibility_open == b.compatibility_open
    &&& a.compatibility_close == b.compatibility_close
}

/// Where one marker has become standard, in the way in which it was used, the same markers are
/// paired, and that one needs no sentinel.
proof fn lemma_pairing_kept(
    markers: Seq<MarkerText>,
    others: Seq<MarkerText>,
    index: int,
    count: int,
)
    requires
        markers.len() == others.len(),
        0 <= index < markers.len(),
        0 <= count <= markers.len(),
        forall|i: int|
            0 <= i < markers.len() && i != index ==> is_alike(#[trigger] markers[i], others[i]),
        !others[index].compatibility_open && !others[index].compatibility_close,
        ({
            ||| is_opening(markers, index) && others[index].standard_open
                && !others[index].standard_close
            ||| is_closing(markers, index) && others[index].standard_close
        }),
    ensures
        ({
            let a = pairing_of(markers, count);
            let b = pairing_of(others, count);
            &&& b.open == a.open
            &&& b.before == (if is_opening(markers, index) {
                a.before.update(index, false)
            } else {
                a.before
            })
            &&& b.after == (if is_opening(markers, index) {
                a.after
            } else {
                a.after.update(index, false)
            })
        }),
    decreases count,
{
    let a = pairing_of(markers, count);
    let b = pairing_of(others, count);
    if count == 0 {
        assert(a.before.update(index, false) =~= a.before);
        assert(a.after.update(index, false) =~= a.after);
        assert(b.before =~= a.before);
        assert(b.after =~= a.after);
    } else {
        lemma_pairing_kept(markers, others, index, count - 1);
        lemma_opened(markers, count - 1);
        lemma_pairing_lengths(markers, count - 1);
        lemma_pairing_lengths(others, count - 1);
        let last = count - 1;
        let before = pairing_of(markers, last);
        if before.open.len() > 0 {
            let opening = before.open[before.open.len() - 1];
            assert(is_opening(markers, opening));
            if opening != index {
                assert(is_alike(markers[opening], others[opening]));
            }
        }
        if last != index {
            assert(is_alike(markers[last], others[last]));
        }
        if is_opening(markers, index) {
            assert(b.before =~= a.before.update(index, false));
            assert(b.after =~= a.after);
        } else {
            assert(b.before =~= a.before);
            assert(b.after =~= a.after.update(index, false));
        }
    }
}

/// Markers behind the sentinel put in the same sentinels as before.
proof fn lemma_rest_kept(
    text: Seq<char>,
    markers: Seq<MarkerText>,
    pairing: Pairing,
    others: Seq<MarkerText>,
    other_pairing: Pairing,
    spot: int,
    index: int,
    from: int,
)
    requires
        0 <= index <= markers.len() == others.len(),
        are_markers_of(text, markers, 0),
        0 <= spot <= from <= text.len(),
        forall|i: int|
            index <= i < markers.len() ==> from <= (#[trigger] markers[i]).at && others[i].at
                == markers[i].at + 1 && other_pairing.before[i] == pairing.before[i]
                && other_pairing.after[i] == pairing.after[i],
    ensures
        marked_from(with_sentinel(text, spot), others, other_pairing, index, from + 1)
            == marked_from(text, markers, pairing, index, from),
    decreases markers.len() - index,
{
    let after = with_sentinel(text, spot);
    if index < markers.len() {
        let at = markers[index].at;
        lemma_stars(text, at);
        assert forall|i: int| index + 1 <= i < markers.len() implies at + 2 <= (
        #[trigger] markers[i]).at && others[i].at == markers[i].at + 1 && other_pairing.before[i]
            == pairing.before[i] && other_pairing.after[i] == pairing.after[i] by {
            assert(markers[index].at + 2 <= markers[i].at);
        }
        lemma_rest_kept(
            text,
            markers,
            pairing,
            others,
            other_pairing,
            spot,
            index + 1,
            at + 2,
        );
        assert(after.subrange(from + 1, at + 1) =~= text.subrange(from, at));
        assert(others[index].at == at + 1);
    } else {
        assert(after.skip(from + 1) =~= text.skip(from));
    }
}

/// What stands before the next marker is taken as it is.
proof fn lemma_first_taken(
    text: Seq<char>,
    markers: Seq<MarkerText>,
    pairing: Pairing,
    index: int,
    from: int,
)
    requires
        0 <= index <= markers.len(),
        0 <= from < text.len(),
        index < markers.len() ==> from < markers[index].at <= text.len(),
    ensures
        marked_from(text, markers, pairing, index, from) == seq![text[from]] + marked_from(
            text,
            markers,
            pairing,
            index,
            from + 1,
        ),
{
    if index < markers.len() {
        let at = markers[index].at;
        let first = seq![text[from]];
        let part = text.subrange(from + 1, at);
        assert(text.subrange(from, at) =~= first + part);
        let b = sentinel_if(pairing.before[index]);
        let d = sentinel_if(pairing.after[index]);
        let rest = marked_from(text, markers, pairing, index + 1, at + 2);
        assert(first + part + b + "**"@ + d + rest =~= first + (part + b + "**"@ + d + rest));
    } else {
        assert(text.skip(from) =~= seq![text[from]] + text.skip(from + 1));
    }
}

/// With one of its sentinels put in, a text is made readable in the same way.
proof fn lemma_marked_kept(
    text: Seq<char>,
    markers: Seq<MarkerText>,
    pairing: Pairing,
    others: Seq<MarkerText>,
    other_pairing: Pairing,
    at: int,
    spot: int,
    which: int,
    index: int,
    from: int,
)
    requires
        0 <= index <= which < markers.len() == others.len(),
        are_markers_of(text, markers, 0),
        markers[which].at == at,
        spot == at || spot == at + 2,
        0 <= from <= markers[index].at,
        forall|i: int|
            0 <= i < markers.len() ==> (#[trigger] others[i]).at == moved(markers[i].at, spot),
        forall|i: int|
            0 <= i < markers.len() && i != which ==> #[trigger] other_pairing.before[i]
                == pairing.before[i],
        forall|i: int|
            0 <= i < markers.len() && i != which ==> #[trigger] other_pairing.after[i]
                == pairing.after[i],
        spot == at ==> pairing.before[which] && !other_pairing.before[which]
            && other_pairing.after[which] == pairing.after[which],
        spot == at + 2 ==> pairing.after[which] && !other_pairing.after[which]
            && other_pairing.before[which] == pairing.before[which],
    ensures
        marked_from(with_sentinel(text, spot), others, other_pairing, index, from) == marked_from(
            text,
            markers,
            pairing,
            index,
            from,
        ),
    decreases which - index,
{
    reveal_strlit("**");
    let after = with_sentinel(text, spot);
    let here = markers[index].at;
    lemma_stars(text, at);
    lemma_stars(text, here);
    assert(is_strong_marker(text, markers[which].at));
    assert(is_strong_marker(text, markers[index].at));
    let part = text.subrange(from, here);
    let b = sentinel_if(pairing.before[index]);
    let d = sentinel_if(pairing.after[index]);
    let rest = marked_from(text, markers, pairing, index + 1, here + 2);
    assert(others[index].at == moved(here, spot));
    if index < which {
        assert(markers[index].at + 2 <= markers[which].at);
        assert(markers[index].at + 2 <= markers[index + 1].at);
        lemma_marked_kept(
            text,
            markers,
            pairing,
            others,
            other_pairing,
            at,
            spot,
            which,
            index + 1,
            here + 2,
        );
        assert(after.subrange(from, here) =~= part);
        assert(other_pairing.before[index] == pairing.before[index]);
        assert(other_pairing.after[index] == pairing.after[index]);
    } else {
        assert forall|i: int| index + 1 <= i < markers.len() implies here + 2 <= (
        #[trigger] markers[i]).at && others[i].at == markers[i].at + 1 && other_pairing.before[i]
            == pairing.before[i] && other_pairing.after[i] == pairing.after[i] by {
            assert(markers[index].at + 2 <= markers[i].at);
            assert(others[i].at == moved(markers[i].at, spot));
        }
        lemma_rest_kept(
            text,
            markers,
            pairing,
            others,
            other_pairing,
            spot,
            index + 1,
            here + 2,
        );
        let sentinel = seq![CJK_EMPHASIS_SENTINEL];
        let none = Seq::<char>::empty();
        let other_rest = marked_from(after, others, other_pairing, index + 1, here + 3);
        assert(other_rest == rest);
        if spot == at {
            assert(after.subrange(from, here + 1) =~= part + sentinel);
            assert(part + sentinel + none + "**"@ + d + rest =~= part + b + "**"@ + d + rest);
        } else {
            assert(after.subrange(from, here) =~= part);
            if index + 1 < markers.len() {
                assert(here + 2 <= markers[index + 1].at);
                assert(others[index + 1].at == markers[index + 1].at + 1);
                assert(is_strong_marker(text, markers[index + 1].at));
                lemma_stars(text, markers[index + 1].at);
            }
            lemma_first_taken(after, others, other_pairing, index + 1, here + 2);
            assert(part + b + "**"@ + none + (sentinel + rest) =~= part + b + "**"@ + d + rest);
        }
    }
}

/// How many of `flags` are set.
spec fn set_count(flags: Seq<bool>) -> nat
    decreases flags.len(),
{
    if flags.len() == 0 {
        0
    } else {
        set_count(flags.drop_last()) + (if flags.last() {
            1nat
        } else {
            0nat
        })
    }
}

proof fn lemma_set_count(flags: Seq<bool>, index: int)
    requires
        0 <= index < flags.len(),
        flags[index],
    ensures
        set_count(flags) == set_count(flags.update(index, false)) + 1,
    decreases flags.len(),
{
    let less = flags.update(index, false);
    if index == flags.len() - 1 {
        assert(less.drop_last() =~= flags.drop_last());
    } else {
        lemma_set_count(flags.drop_last(), index);
        assert(less.drop_last() =~= flags.drop_last().update(index, false));
    }
}

/// The pairing of all markers of `text`.
spec fn pairing_in(text: Seq<char>) -> Pairing {
    let markers = markers_from(text, 0, None);
    pairing_of(markers, markers.len() as int)
}

/// How many sentinels `text` needs.
spec fn needed(text: Seq<char>) -> nat {
    set_count(pairing_in(text).before) + set_count(pairing_in(text).after)
}

/// With one of its sentinels put in, a text needs one less, and comes to the same.
proof fn lemma_one_less(text: Seq<char>, which: int, before: bool) -> (r: Seq<char>)
    requires
        0 <= which < markers_from(text, 0, None).len(),
        before ==> pairing_in(text).before[which],
        !before ==> pairing_in(text).after[which],
    ensures
        normalized(r) == normalized(text),
        needed(r) + 1 == needed(text),
{
    let markers = markers_from(text, 0, None);
    let count = markers.len() as int;
    let pairing = pairing_of(markers, count);
    lemma_markers_of(text, 0, None);
    lemma_why_marked(markers, count, which);
    lemma_pairing_lengths(markers, count);
    let at = markers[which].at;
    assert(is_strong_marker(text, markers[which].at));
    assert(markers[which] == marker_at(text, at));
    lemma_stars(text, at);
    let spot = if before {
        at
    } else {
        at + 2
    };
    let after = with_sentinel(text, spot);
    assert(is_spot(text, at, spot));
    assert(after[spot] == CJK_EMPHASIS_SENTINEL);
    assert(after[moved(at, spot) - 1] == (if before {
        CJK_EMPHASIS_SENTINEL
    } else {
        text[at - 1]
    }));
    assert(stays_useful(text, at, spot));
    lemma_markers_moved(text, at, spot, 0, None);
    if spot == 0 {
        lemma_sentinel_passed(text, spot, None);
    }
    let others = markers_from(after, 0, None);
    assert(others == all_moved(markers, text, spot));
    assert forall|i: int| 0 <= i < markers.len() && i != which implies is_alike(
        #[trigger] markers[i],
        others[i],
    ) by {
        assert(is_strong_marker(text, markers[i].at));
        assert(markers[i].at != at) by {
            if i < which {
                assert(markers[i].at + 2 <= markers[which].at);
            } else {
                assert(markers[which].at + 2 <= markers[i].at);
            }
        }
        lemma_marker_moved(text, at, spot, markers[i].at);
    }
    lemma_pairing_kept(markers, others, which, count);
    let other_pairing = pairing_of(others, count);
    lemma_pairing_lengths(others, count);
    if before {
        lemma_set_count(pairing.before, which);
    } else {
        lemma_set_count(pairing.after, which);
    }
    assert(markers[0].at >= 0);
    lemma_marked_kept(
        text,
        markers,
        pairing,
        others,
        other_pairing,
        at,
        spot,
        which,
        0,
        0,
    );
    after
}

proof fn lemma_settled(text: Seq<char>)
    ensures
        normalized(normalized(text)) == normalized(text),
    decreases needed(text),
{
    let markers = markers_from(text, 0, None);
    let count = markers.len() as int;
    let pairing = pairing_of(markers, count);
    lemma_pairing_lengths(markers, count);
    if exists|i: int| 0 <= i < pairing.before.len() && #[trigger] pairing.before[i] {
        let which = choose|i: int| 0 <= i < pairing.before.len() && #[trigger] pairing.before[i];
        let next = lemma_one_less(text, which, true);
        lemma_settled(next);
    } else if exists|i: int| 0 <= i < pairing.after.len() && #[trigger] pairing.after[i] {
        let which = choose|i: int| 0 <= i < pairing.after.len() && #[trigger] pairing.after[i];
        let next = lemma_one_less(text, which, false);
        lemma_settled(next);
    } else {
        assert(!is_marked(pairing));
        lemma_markers_in_order(text, 0, None);
        assert(markers.skip(0) =~= markers);
        lemma_unmarked(text, markers, pairing, 0, 0);
        assert(text.skip(0) =~= text);
    }
}

/// Making emphasis readable once is enough: what it comes to stays as it is.
pub proof fn law_normalizing_twice_changes_nothing(text: Seq<char>)
    ensures
        normalized(normalized(text)) == normalized(text),
{
    lemma_settled(text);
}

} // verus!
