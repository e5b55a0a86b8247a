//! Addresses in running text: that they are found, and where they end.

use vstd::prelude::*;

use crate::agent_markdown_renderer::urls::address_end;
use crate::agent_markdown_renderer::urls::count_of;
use crate::agent_markdown_renderer::urls::is_trailing_mark;
use crate::agent_markdown_renderer::urls::is_unmatched;
use crate::agent_markdown_renderer::urls::is_url_stop;
use crate::agent_markdown_renderer::urls::lemma_address;
use crate::agent_markdown_renderer::urls::next_scheme;
use crate::agent_markdown_renderer::urls::opening_of;
use crate::agent_markdown_renderer::urls::url_end;
use crate::agent_markdown_renderer::urls::url_stop;
use crate::agent_markdown_renderer::urls::urls_from;
use crate::agent_markdown_renderer::urls::urls_of;
use crate::text::is_alphanumeric_char;
use crate::text::is_control_char;
use crate::text::is_white_space;
use crate::text::lemma_find_from;
use crate::text::occurs_at;

verus! {

/// Whether `c` ends an address wherever it stands.
pub open spec fn ends_address(c: char) -> bool {
    is_white_space(c) || is_control_char(c) || c == '<' || c == '>' || c == '"' || c == '\'' || c
        == '`'
}

/// Whether `c` is a mark of a sentence, which is no part of an address at its end.
pub open spec fn is_sentence_mark(c: char) -> bool {
    ||| c == '.' || c == ',' || c == ';' || c == ':' || c == '!' || c == '?' || c == '*'
    ||| c == '。' || c == '，' || c == '；' || c == '：' || c == '！' || c == '？'
}

/// Whether `c` closes brackets.
pub open spec fn is_closing_bracket(c: char) -> bool {
    c == ')' || c == ']' || c == '}'
}

/// Whether `c` opens brackets.
pub open spec fn is_opening_bracket(c: char) -> bool {
    c == '(' || c == '[' || c == '{'
}

/// Whether an address begins at `at`: a scheme.
pub open spec fn begins_address(text: Seq<char>, at: int) -> bool {
    occurs_at(text, "http://"@, at) || occurs_at(text, "https://"@, at)
}

/// Whether the characters of `text` from `end` to `stop` are marks of a sentence, or brackets that
/// are closed and have not been opened since `start`.
pub open spec fn belong_to_the_sentence(text: Seq<char>, start: int, end: int, stop: int) -> bool {
    ||| forall|i: int| end <= i < stop ==> is_sentence_mark(#[trigger] text[i])
    ||| {
        &&& forall|i: int|
            end <= i < stop ==> is_sentence_mark(#[trigger] text[i]) || is_closing_bracket(text[i])
        &&& forall|i: int| start <= i < stop ==> !is_opening_bracket(#[trigger] text[i])
    }
}

proof fn lemma_stop_found(text: Seq<char>, from: int, stop: int)
    requires
        0 <= from <= stop <= text.len(),
        forall|i: int| from <= i < stop ==> !ends_address(#[trigger] text[i]),
        stop < text.len() ==> ends_address(text[stop]),
    ensures
        url_stop(text, from) == stop,
    decreases stop - from,
{
    if from < stop {
        assert(!is_url_stop(text[from]));
        lemma_stop_found(text, from + 1, stop);
    } else if from < text.len() {
        assert(is_url_stop(text[from]));
    }
}

proof fn lemma_counted(s: Seq<char>, c: char)
    ensures
        s.contains(c) ==> count_of(s, c) > 0,
        !s.contains(c) ==> count_of(s, c) == 0,
    decreases s.len(),
{
    if s.len() > 0 {
        let rest = s.drop_last();
        lemma_counted(rest, c);
        if s.last() == c {
            assert(s[s.len() - 1] == c);
        }
        if rest.contains(c) {
            let i = choose|i: int| 0 <= i < rest.len() && rest[i] == c;
            assert(s[i] == c);
        } else if s.contains(c) {
            let i = choose|i: int| 0 <= i < s.len() && s[i] == c;
            if i < rest.len() {
                assert(rest[i] == c);
            }
        }
    }
}

proof fn lemma_end_found(s: Seq<char>, size: int)
    requires
        0 < size <= s.len(),
        !is_sentence_mark(s[size - 1]) && !is_closing_bracket(s[size - 1]),
        belong_to_the_sentence(s, 0, size, s.len() as int),
    ensures
        url_end(s) == size,
    decreases s.len(),
{
    if size == s.len() {
        assert(s.last() == s[size - 1]);
    } else {
        let last = s[s.len() - 1];
        let rest = s.drop_last();
        assert(forall|i: int| 0 <= i < rest.len() ==> #[trigger] rest[i] == s[i]);
        if is_closing_bracket(last) && !is_sentence_mark(last) {
            let opening = opening_of(last)->0;
            assert(s.contains(last));
            assert(!s.contains(opening)) by {
                if s.contains(opening) {
                    let i = choose|i: int| 0 <= i < s.len() && s[i] == opening;
                    assert(!is_opening_bracket(s[i]));
                }
            }
            lemma_counted(s, last);
            lemma_counted(s, opening);
            assert(is_unmatched(s, last));
        } else {
            assert(is_trailing_mark(last));
        }
        lemma_end_found(rest, size);
    }
}

/// An address in running text is found, from its scheme to its end. It ends before white space,
/// quotation marks and angle brackets, and the marks of the sentence around it are no part of it.
pub proof fn law_addresses_are_found(text: Seq<char>, start: int, end: int, stop: int)
    requires
        0 <= start < end <= stop <= text.len(),
        begins_address(text, start),
        forall|i: int| 0 <= i < start ==> !(#[trigger] begins_address(text, i)),
        start > 0 ==> !is_alphanumeric_char(text[start - 1]) && text[start - 1] != '_',
        end - start > (if occurs_at(text, "https://"@, start) {
            8int
        } else {
            7int
        }),
        forall|i: int| start < i < stop ==> !ends_address(#[trigger] text[i]),
        stop < text.len() ==> ends_address(text[stop]),
        !is_sentence_mark(text[end - 1]) && !is_closing_bracket(text[end - 1]),
        belong_to_the_sentence(text, start, end, stop),
    ensures
        urls_of(text) == seq![(start, end)] + urls_from(text, end),
{
    lemma_find_from(text, "https://"@, 0);
    lemma_find_from(text, "http://"@, 0);
    lemma_address(text, 0);
    if let Some(first) = next_scheme(text, 0) {
        if first < start {
            assert(begins_address(text, first));
        }
    }
    assert(next_scheme(text, 0) == Some(start));
    lemma_stop_found(text, start + 1, stop);
    let part = text.subrange(start, stop);
    assert(forall|i: int| 0 <= i < part.len() ==> #[trigger] part[i] == text[start + i]);
    assert(belong_to_the_sentence(part, 0, end - start, part.len() as int)) by {
        if forall|i: int| end <= i < stop ==> is_sentence_mark(#[trigger] text[i]) {
            assert forall|i: int| end - start <= i < part.len() implies is_sentence_mark(
                #[trigger] part[i],
            ) by {
                assert(is_sentence_mark(text[start + i]));
            }
        } else {
            assert forall|i: int| end - start <= i < part.len() implies is_sentence_mark(
                #[trigger] part[i],
            ) || is_closing_bracket(part[i]) by {
                assert(is_sentence_mark(text[start + i]) || is_closing_bracket(text[start + i]));
            }
            assert forall|i: int| 0 <= i < part.len() implies !is_opening_bracket(
                #[trigger] part[i],
            ) by {
                assert(!is_opening_bracket(text[start + i]));
            }
        }
    }
    lemma_end_found(part, end - start);
    assert(address_end(text, start) == end);
}

} // verus!
