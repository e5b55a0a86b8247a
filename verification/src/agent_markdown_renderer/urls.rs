//! Addresses that stand in running text without any markup.

use vstd::prelude::*;

use crate::agent_markdown_renderer::inline::piece_pushed;
use crate::agent_markdown_renderer::inline::pieces_view;
use crate::agent_markdown_renderer::inline::push_inline_span;
use crate::agent_markdown_renderer::inline::InlinePiece;
use crate::agent_markdown_renderer::inline::PieceText;
use crate::agent_markdown_renderer::style::link_style;
use crate::agent_markdown_renderer::style::merged_style;
use crate::agent_markdown_renderer::style::ColorRole;
use crate::agent_markdown_renderer::style::TextStyle;
use crate::text::chars_of;
use crate::text::find_from;
use crate::text::find_pattern;
use crate::text::is_alphanumeric_char;
use crate::text::is_control_char;
use crate::text::is_white_space;
use crate::text::lemma_find_from;
use crate::text::occurs_at;
use crate::text::pattern_at;
use crate::text::text_range;

verus! {

/// How often `c` occurs in `s`.
pub open spec fn count_of(s: Seq<char>, c: char) -> nat
    decreases s.len(),
{
    if s.len() == 0 {
        0
    } else {
        count_of(s.drop_last(), c) + (if s.last() == c {
            1nat
        } else {
            0nat
        })
    }
}

/// The opening delimiter that belongs to `closing`.
pub open spec fn opening_of(closing: char) -> Option<char> {
    if closing == ')' {
        Some('(')
    } else if closing == ']' {
        Some('[')
    } else if closing == '}' {
        Some('{')
    } else {
        None
    }
}

/// Whether `closing` is a closing delimiter that `s` holds more often than its counterpart.
pub open spec fn is_unmatched(s: Seq<char>, closing: char) -> bool {
    match opening_of(closing) {
        Some(opening) => count_of(s, closing) > count_of(s, opening),
        None => false,
    }
}

/// Whether `c` is punctuation that ends a sentence or a clause rather than an address.
pub open spec fn is_trailing_mark(c: char) -> bool {
    ||| c == '.' || c == ',' || c == ';' || c == ':' || c == '!' || c == '?' || c == '*'
    ||| c == '。' || c == '，' || c == '；' || c == '：' || c == '！' || c == '？'
}

/// How much of `s` is left when the marks and the unmatched closing delimiters at its end are
/// cut off.
pub open spec fn url_end(s: Seq<char>) -> nat
    decreases s.len(),
{
    if s.len() > 0 && (is_trailing_mark(s.last()) || is_unmatched(s, s.last())) {
        url_end(s.drop_last())
    } else {
        s.len()
    }
}

/// Whether `c` cannot be part of an address.
pub open spec fn is_url_stop(c: char) -> bool {
    ||| is_white_space(c)
    ||| is_control_char(c)
    ||| c == '<' || c == '>' || c == '"' || c == '\'' || c == '`'
}

/// The first position at or after `from` that cannot be part of an address, or the end.
pub open spec fn url_stop(text: Seq<char>, from: int) -> int
    decreases text.len() - from,
{
    if from < 0 || from >= text.len() {
        text.len() as int
    } else if is_url_stop(text[from]) {
        from
    } else {
        url_stop(text, from + 1)
    }
}

/// Where the next scheme begins, at or after `from`.
pub open spec fn next_scheme(text: Seq<char>, from: int) -> Option<int> {
    let secure = find_from(text, "https://"@, from);
    let open = find_from(text, "http://"@, from);
    if secure is None {
        open
    } else if open is None || secure->0 < open->0 {
        secure
    } else {
        open
    }
}

/// Whether `c` belongs to a word.
pub open spec fn is_word_char(c: char) -> bool {
    is_alphanumeric_char(c) || c == '_'
}

/// Where the address that begins at `start` ends.
pub open spec fn address_end(text: Seq<char>, start: int) -> int {
    start + url_end(text.subrange(start, url_stop(text, start + 1)))
}

/// The length of the scheme at `start`.
pub open spec fn scheme_length(text: Seq<char>, start: int) -> int {
    if occurs_at(text, "https://"@, start) {
        8
    } else {
        7
    }
}

/// The addresses of `text` from `from` on, each as its first position and the one behind it.
/// An address begins with a scheme that no word character precedes, and holds more than that.
pub open spec fn urls_from(text: Seq<char>, from: int) -> Seq<(int, int)>
    decreases text.len() - from,
{
    if from < 0 || from >= text.len() {
        Seq::empty()
    } else {
        proof {
            lemma_address(text, from);
        }
        match next_scheme(text, from) {
            None => Seq::empty(),
            Some(start) => if start > 0 && is_word_char(text[start - 1]) {
                urls_from(text, start + 1)
            } else {
                let end = address_end(text, start);
                let next = if end > start {
                    end
                } else {
                    start + 1
                };
                if end - start > scheme_length(text, start) {
                    seq![(start, end)] + urls_from(text, next)
                } else {
                    urls_from(text, next)
                }
            },
        }
    }
}

/// The addresses of `text`.
pub open spec fn urls_of(text: Seq<char>) -> Seq<(int, int)> {
    urls_from(text, 0)
}

/// `ranges` as mathematical numbers.
pub open spec fn ranges_view(ranges: Seq<(usize, usize)>) -> Seq<(int, int)> {
    ranges.map_values(|range: (usize, usize)| (range.0 as int, range.1 as int))
}

/// Whether `ranges` lie in order, one behind the other, between `from` and `size`.
pub open spec fn are_ordered(ranges: Seq<(int, int)>, from: int, size: int) -> bool
    decreases ranges.len(),
{
    if ranges.len() == 0 {
        from <= size
    } else {
        from <= ranges[0].0 < ranges[0].1 && are_ordered(ranges.drop_first(), ranges[0].1, size)
    }
}

proof fn lemma_url_stop(text: Seq<char>, from: int)
    requires
        0 <= from <= text.len(),
    ensures
        from <= url_stop(text, from) <= text.len(),
    decreases text.len() - from,
{
    if from < text.len() && !is_url_stop(text[from]) {
        lemma_url_stop(text, from + 1);
    }
}

proof fn lemma_url_end(s: Seq<char>)
    ensures
        url_end(s) <= s.len(),
    decreases s.len(),
{
    if s.len() > 0 {
        lemma_url_end(s.drop_last());
    }
}

proof fn lemma_next_scheme(text: Seq<char>, from: int)
    requires
        0 <= from,
    ensures
        match next_scheme(text, from) {
            Some(start) => from <= start < text.len() && (occurs_at(text, "https://"@, start)
                || occurs_at(text, "http://"@, start)),
            None => true,
        },
{
    reveal_strlit("https://");
    reveal_strlit("http://");
    lemma_find_from(text, "https://"@, from);
    lemma_find_from(text, "http://"@, from);
}

/// A scheme that is found from `from` on, and the address that begins there, lie within the
/// text.
pub proof fn lemma_address(text: Seq<char>, from: int)
    requires
        0 <= from,
    ensures
        match next_scheme(text, from) {
            Some(start) => from <= start < text.len() && address_end(text, start) <= text.len(),
            None => true,
        },
{
    lemma_next_scheme(text, from);
    if let Some(start) = next_scheme(text, from) {
        lemma_url_stop(text, start + 1);
        lemma_url_end(text.subrange(start, url_stop(text, start + 1)));
    }
}

proof fn lemma_widened(ranges: Seq<(int, int)>, near: int, far: int, size: int)
    requires
        near <= far,
        are_ordered(ranges, far, size),
    ensures
        are_ordered(ranges, near, size),
{
}

/// The addresses of a text do not overlap, come in order, and lie within the text.
pub proof fn law_urls_are_ordered(text: Seq<char>, from: int)
    requires
        0 <= from <= text.len(),
    ensures
        are_ordered(urls_from(text, from), from, text.len() as int),
    decreases text.len() - from,
{
    if from < text.len() {
        lemma_address(text, from);
        if let Some(start) = next_scheme(text, from) {
            if start > 0 && is_word_char(text[start - 1]) {
                law_urls_are_ordered(text, start + 1);
                lemma_widened(urls_from(text, start + 1), from, start + 1, text.len() as int);
            } else {
                let end = address_end(text, start);
                let next = if end > start {
                    end
                } else {
                    start + 1
                };
                law_urls_are_ordered(text, next);
                let rest = urls_from(text, next);
                if end - start > scheme_length(text, start) {
                    let all = seq![(start, end)] + rest;
                    assert(all.drop_first() =~= rest);
                    assert(all[0] == (start, end));
                } else {
                    lemma_widened(rest, from, next, text.len() as int);
                }
            }
        }
    }
}

/// How often `c` occurs in `chars[from..to]`.
fn count_char(chars: &[char], from: usize, to: usize, c: char) -> (r: usize)
    requires
        from <= to <= chars@.len(),
    ensures
        r == count_of(chars@.subrange(from as int, to as int), c),
{
    let mut count: usize = 0;
    for i in from..to
        invariant
            from <= to <= chars@.len(),
            count <= i - from,
            count == count_of(chars@.subrange(from as int, i as int), c),
    {
        assert(chars@.subrange(from as int, i + 1).drop_last() =~= chars@.subrange(
            from as int,
            i as int,
        ));
        if chars[i] == c {
            count = count + 1;
        }
    }
    count
}

/// Whether `closing` is a closing delimiter that `chars[from..to]` holds more often than its
/// counterpart.
pub fn unmatched_closing_delimiter(chars: &[char], from: usize, to: usize, closing: char) -> (r:
    bool)
    requires
        from <= to <= chars@.len(),
    ensures
        r == is_unmatched(chars@.subrange(from as int, to as int), closing),
{
    let opening = match closing {
        ')' => '(',
        ']' => '[',
        '}' => '{',
        _ => return false,
    };
    count_char(chars, from, to, closing) > count_char(chars, from, to, opening)
}

/// Where `chars[from..to]` ends when the marks and the unmatched closing delimiters at its end
/// are cut off.
pub fn trim_bare_url_end(chars: &[char], from: usize, to: usize) -> (r: usize)
    requires
        from <= to <= chars@.len(),
    ensures
        from <= r <= to,
        r == from + url_end(chars@.subrange(from as int, to as int)),
{
    let mut end = to;
    while end > from
        invariant
            from <= end <= to <= chars@.len(),
            url_end(chars@.subrange(from as int, end as int)) == url_end(
                chars@.subrange(from as int, to as int),
            ),
        decreases end,
    {
        let c = chars[end - 1];
        let marks = matches!(
            c,
            '.' | ',' | ';' | ':' | '!' | '?' | '*' | '。' | '，' | '；' | '：' | '！' | '？'
        );
        let ghost part = chars@.subrange(from as int, end as int);
        assert(part.last() == c);
        assert(part.drop_last() =~= chars@.subrange(from as int, end - 1));
        if !marks && !unmatched_closing_delimiter(chars, from, end, c) {
            return end;
        }
        end = end - 1;
    }
    end
}

/// The first position at or after `from` that cannot be part of an address, or the end.
fn find_url_stop(chars: &[char], from: usize) -> (r: usize)
    requires
        from <= chars@.len(),
    ensures
        from <= r <= chars@.len(),
        r == url_stop(chars@, from as int),
{
    let mut at = from;
    while at < chars.len()
        invariant
            from <= at <= chars@.len(),
            url_stop(chars@, at as int) == url_stop(chars@, from as int),
        decreases chars@.len() - at,
    {
        let c = chars[at];
        if c.is_whitespace() || c.is_control() || matches!(c, '<' | '>' | '"' | '\'' | '`') {
            return at;
        }
        at = at + 1;
    }
    at
}

/// Where the next scheme begins, at or after `from`.
fn find_scheme(chars: &[char], from: usize) -> (r: Option<usize>)
    ensures
        match r {
            Some(at) => next_scheme(chars@, from as int) == Some(at as int),
            None => next_scheme(chars@, from as int) is None,
        },
{
    let secure = find_pattern(chars, &chars_of("https://"), from);
    let open = find_pattern(chars, &chars_of("http://"), from);
    match (secure, open) {
        (None, _) => open,
        (Some(_), None) => secure,
        (Some(first), Some(second)) => if first < second {
            secure
        } else {
            open
        },
    }
}

/// The addresses of a text, each as its first position and the one behind it.
pub fn bare_url_ranges(chars: &[char]) -> (r: Vec<(usize, usize)>)
    ensures
        ranges_view(r@) == urls_of(chars@),
{
    let mut ranges: Vec<(usize, usize)> = Vec::new();
    let mut cursor: usize = 0;
    assert(ranges_view(ranges@) + urls_from(chars@, 0) =~= urls_of(chars@));
    while cursor < chars.len()
        invariant
            ranges_view(ranges@) + urls_from(chars@, cursor as int) == urls_of(chars@),
            cursor <= chars@.len(),
        decreases chars@.len() - cursor,
    {
        let ghost before = ranges_view(ranges@);
        proof {
            lemma_address(chars@, cursor as int);
        }
        let start = match find_scheme(chars, cursor) {
            Some(start) => start,
            None => {
                assert(before + Seq::<(int, int)>::empty() =~= before);
                return ranges;
            },
        };
        if start > 0 && (chars[start - 1].is_alphanumeric() || chars[start - 1] == '_') {
            cursor = start + 1;
        } else {
            let stop = find_url_stop(chars, start + 1);
            let end = trim_bare_url_end(chars, start, stop);
            let scheme: usize = if pattern_at(chars, &chars_of("https://"), start) {
                8
            } else {
                7
            };
            cursor = if end > start {
                end
            } else {
                start + 1
            };
            if end - start > scheme {
                ranges.push((start, end));
                assert(ranges_view(ranges@) =~= before.push((start as int, end as int)));
                let ghost rest = urls_from(chars@, cursor as int);
                assert(before + (seq![(start as int, end as int)] + rest) =~= before.push(
                    (start as int, end as int),
                ) + rest);
            }
        }
    }
    assert(ranges_view(ranges@) + Seq::<(int, int)>::empty() =~= ranges_view(ranges@));
    ranges
}

/// `output` with `text` from `from` on behind it: what `ranges` hold in the style of a link laid
/// over `style`, the rest in `style`.
pub open spec fn linked_text(
    output: Seq<PieceText>,
    text: Seq<char>,
    ranges: Seq<(int, int)>,
    from: int,
    style: TextStyle,
) -> Seq<PieceText>
    decreases ranges.len(),
{
    if ranges.len() == 0 {
        piece_pushed(output, text.subrange(from, text.len() as int), style)
    } else {
        let (start, end) = ranges[0];
        let before = piece_pushed(output, text.subrange(from, start), style);
        let linked = piece_pushed(
            before,
            text.subrange(start, end),
            merged_style(style, link_style()),
        );
        linked_text(linked, text, ranges.drop_first(), end, style)
    }
}

/// `output` with `text` behind it, in which the addresses are links.
pub open spec fn text_pushed(output: Seq<PieceText>, text: Seq<char>, style: TextStyle) -> Seq<
    PieceText,
> {
    linked_text(output, text, urls_of(text), 0, style)
}

/// Puts a text behind the pieces, in which the addresses are links.
pub fn push_text_with_bare_urls(output: &mut Vec<InlinePiece>, text: &str, style: TextStyle)
    ensures
        pieces_view(final(output)@) == text_pushed(pieces_view(old(output)@), text@, style),
{
    let chars = chars_of(text);
    let ranges = bare_url_ranges(&chars);
    let ghost all = ranges_view(ranges@);
    let ghost start = pieces_view(output@);
    proof {
        law_urls_are_ordered(text@, 0);
    }
    let link = style.merged(TextStyle { underlined: true, ..TextStyle::colored(ColorRole::Link) });
    let mut cursor: usize = 0;
    assert(all.skip(0) =~= all);
    for i in 0..ranges.len()
        invariant
            all == ranges_view(ranges@),
            chars@ == text@,
            link == merged_style(style, link_style()),
            are_ordered(all.skip(i as int), cursor as int, chars@.len() as int),
            linked_text(pieces_view(output@), text@, all.skip(i as int), cursor as int, style)
                == linked_text(start, text@, all, 0, style),
    {
        let (from, to) = ranges[i];
        let ghost rest = all.skip(i as int);
        assert(rest[0] == (from as int, to as int));
        assert(rest.drop_first() =~= all.skip(i + 1));
        proof {
            lemma_within(rest, cursor as int, chars@.len() as int);
        }
        let before = text_range(&chars, cursor, from);
        push_inline_span(output, &before, style);
        let address = text_range(&chars, from, to);
        push_inline_span(output, &address, link);
        cursor = to;
    }
    assert(all.skip(all.len() as int).len() == 0);
    let rest = text_range(&chars, cursor, chars.len());
    push_inline_span(output, &rest, style);
}

/// The texts of `pieces`, one after the other.
pub open spec fn pieces_text(pieces: Seq<PieceText>) -> Seq<char>
    decreases pieces.len(),
{
    if pieces.len() == 0 {
        Seq::empty()
    } else {
        pieces_text(pieces.drop_last()) + (match pieces.last() {
            PieceText::Span(span) => span.text,
            _ => Seq::empty(),
        })
    }
}

proof fn lemma_piece_text(pieces: Seq<PieceText>, text: Seq<char>, style: TextStyle)
    ensures
        pieces_text(piece_pushed(pieces, text, style)) == pieces_text(pieces) + text,
{
    let after = piece_pushed(pieces, text, style);
    if text.len() == 0 {
        assert(pieces_text(pieces) + text =~= pieces_text(pieces));
    } else if pieces.len() > 0 && pieces.last() is Span && pieces.last()->Span_0.style == style {
        assert(after.drop_last() =~= pieces.drop_last());
        assert(pieces_text(after) =~= pieces_text(pieces) + text);
    } else {
        assert(after.drop_last() =~= pieces);
    }
}

proof fn lemma_linked_text(
    output: Seq<PieceText>,
    text: Seq<char>,
    ranges: Seq<(int, int)>,
    from: int,
    style: TextStyle,
)
    requires
        0 <= from,
        are_ordered(ranges, from, text.len() as int),
    ensures
        pieces_text(linked_text(output, text, ranges, from, style)) == pieces_text(output)
            + text.skip(from),
    decreases ranges.len(),
{
    lemma_within(ranges, from, text.len() as int);
    if ranges.len() == 0 {
        lemma_piece_text(output, text.subrange(from, text.len() as int), style);
        assert(text.subrange(from, text.len() as int) =~= text.skip(from));
    } else {
        let (start, end) = ranges[0];
        let link = merged_style(style, link_style());
        let before = piece_pushed(output, text.subrange(from, start), style);
        let linked = piece_pushed(before, text.subrange(start, end), link);
        lemma_piece_text(output, text.subrange(from, start), style);
        lemma_piece_text(before, text.subrange(start, end), link);
        lemma_linked_text(linked, text, ranges.drop_first(), end, style);
        assert(pieces_text(output) + text.subrange(from, start) + text.subrange(start, end)
            + text.skip(end) =~= pieces_text(output) + text.skip(from));
    }
}

/// Making links of the addresses in a text changes nothing of the text.
pub proof fn law_links_keep_the_text(output: Seq<PieceText>, text: Seq<char>, style: TextStyle)
    ensures
        pieces_text(text_pushed(output, text, style)) == pieces_text(output) + text,
{
    law_urls_are_ordered(text, 0);
    lemma_linked_text(output, text, urls_of(text), 0, style);
    assert(text.skip(0) =~= text);
}

/// Whether the characters of `text` from `start` to `end` are an address: a scheme that no word
/// character precedes, and something behind it, none of which cannot be part of an address.
pub open spec fn is_address(text: Seq<char>, start: int, end: int) -> bool {
    &&& 0 <= start < end <= text.len()
    &&& occurs_at(text, "https://"@, start) || occurs_at(text, "http://"@, start)
    &&& start > 0 ==> !is_word_char(text[start - 1])
    &&& end - start > scheme_length(text, start)
    &&& forall|i: int| start < i < end ==> !is_url_stop(#[trigger] text[i])
}

proof fn lemma_before_stop(text: Seq<char>, from: int)
    requires
        0 <= from,
    ensures
        forall|i: int| from <= i < url_stop(text, from) ==> !is_url_stop(#[trigger] text[i]),
    decreases text.len() - from,
{
    if from < text.len() && !is_url_stop(text[from]) {
        lemma_before_stop(text, from + 1);
    }
}

/// What is made a link is an address.
pub proof fn law_links_are_addresses(text: Seq<char>, from: int)
    requires
        0 <= from <= text.len(),
    ensures
        forall|i: int|
            0 <= i < urls_from(text, from).len() ==> is_address(
                text,
                (#[trigger] urls_from(text, from)[i]).0,
                urls_from(text, from)[i].1,
            ),
    decreases text.len() - from,
{
    if from < text.len() {
        lemma_address(text, from);
        lemma_next_scheme(text, from);
        if let Some(start) = next_scheme(text, from) {
            if start > 0 && is_word_char(text[start - 1]) {
                law_links_are_addresses(text, start + 1);
                assert(urls_from(text, from) == urls_from(text, start + 1));
            } else {
                let stop = url_stop(text, start + 1);
                let end = address_end(text, start);
                let next = if end > start {
                    end
                } else {
                    start + 1
                };
                law_links_are_addresses(text, next);
                lemma_before_stop(text, start + 1);
                lemma_url_stop(text, start + 1);
                lemma_url_end(text.subrange(start, stop));
                if end - start > scheme_length(text, start) {
                    let rest = urls_from(text, next);
                    let all = seq![(start, end)] + rest;
                    assert(is_address(text, start, end));
                    assert forall|i: int| 0 <= i < all.len() implies is_address(
                        text,
                        (#[trigger] all[i]).0,
                        all[i].1,
                    ) by {
                        if i > 0 {
                            assert(all[i] == rest[i - 1]);
                        }
                    }
                    assert(urls_from(text, from) == all);
                } else {
                    assert(urls_from(text, from) == urls_from(text, next));
                }
            }
        }
    }
}

/// Ranges that lie in order lie between their bounds.
pub proof fn lemma_within(ranges: Seq<(int, int)>, from: int, size: int)
    requires
        are_ordered(ranges, from, size),
    ensures
        from <= size,
        ranges.len() > 0 ==> ranges[0].1 <= size,
    decreases ranges.len(),
{
    if ranges.len() > 0 {
        lemma_within(ranges.drop_first(), ranges[0].1, size);
    }
}

} // verus!
