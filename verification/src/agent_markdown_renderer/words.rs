//! Words and the white space between them: what is one word, and that wrapping keeps words apart.

use vstd::prelude::*;

use crate::agent_markdown_renderer::fitting::add_up;
use crate::agent_markdown_renderer::fitting::is_line_of;
use crate::agent_markdown_renderer::fitting::is_made_of;
use crate::agent_markdown_renderer::fitting::lemma_ellipsis;
use crate::agent_markdown_renderer::fitting::lemma_first_columns;
use crate::agent_markdown_renderer::fitting::lemma_pushed_fits;
use crate::agent_markdown_renderer::fitting::lemma_units_fit;
use crate::agent_markdown_renderer::inline::at_least_one;
use crate::agent_markdown_renderer::inline::breaks_line;
use crate::agent_markdown_renderer::inline::cluster_scanned;
use crate::agent_markdown_renderer::inline::clusters_scanned;
use crate::agent_markdown_renderer::inline::columns_left;
use crate::agent_markdown_renderer::inline::fitting_units;
use crate::agent_markdown_renderer::inline::line_finished;
use crate::agent_markdown_renderer::inline::overflows;
use crate::agent_markdown_renderer::inline::pieces_scanned;
use crate::agent_markdown_renderer::inline::scan_broken;
use crate::agent_markdown_renderer::inline::scan_spaced;
use crate::agent_markdown_renderer::inline::tokens_of;
use crate::agent_markdown_renderer::inline::tokens_wrapped;
use crate::agent_markdown_renderer::inline::units_pushed;
use crate::agent_markdown_renderer::inline::word_flushed;
use crate::agent_markdown_renderer::inline::word_laid;
use crate::agent_markdown_renderer::inline::word_start;
use crate::agent_markdown_renderer::inline::wrapped;
use crate::agent_markdown_renderer::inline::Laid;
use crate::agent_markdown_renderer::inline::PieceText;
use crate::agent_markdown_renderer::inline::Scan;
use crate::agent_markdown_renderer::inline::TokenText;
use crate::agent_markdown_renderer::inline::Wrap;
use crate::agent_markdown_renderer::kept::lemma_units_kept;
use crate::agent_markdown_renderer::measure::clusters;
use crate::agent_markdown_renderer::measure::text_width;
use crate::agent_markdown_renderer::style::plain_style;
use crate::agent_markdown_renderer::style::ColorRole;
use crate::agent_markdown_renderer::style::TextStyle;
use crate::agent_markdown_renderer::styled::law_line_text;
use crate::agent_markdown_renderer::styled::line_end_trimmed;
use crate::agent_markdown_renderer::styled::line_text;
use crate::agent_markdown_renderer::styled::pushed;
use crate::agent_markdown_renderer::styled::span_columns;
use crate::agent_markdown_renderer::styled::SpanText;
use crate::parts::joined_with;
use crate::text::is_blank;
use crate::text::is_white_space;
use crate::text::trimmed_end;

verus! {

/// What tokens come to where others follow directly: the last word of the one and the first word
/// of the other are one word, and two spaces are one.
pub open spec fn run_together(first: Seq<TokenText>, second: Seq<TokenText>) -> Seq<TokenText> {
    if first.len() == 0 || second.len() == 0 {
        first + second
    } else {
        match (first.last(), second[0]) {
            (TokenText::Word(start), TokenText::Word(end)) => first.drop_last().push(
                TokenText::Word(start + end),
            ) + second.drop_first(),
            (TokenText::Space(_), TokenText::Space(_)) => first + second.drop_first(),
            _ => first + second,
        }
    }
}

/// Whether `scan` is one that reading pieces comes to.
spec fn is_sound(scan: Scan) -> bool {
    &&& scan.spaced <==> scan.word.len() == 0 && scan.tokens.len() > 0 && scan.tokens.last() is Space
    &&& scan.tokens.len() > 0 ==> !(scan.tokens.last() is Word)
    &&& forall|i: int|
        0 <= i < scan.tokens.len() ==> ((#[trigger] scan.tokens[i]) matches TokenText::Word(units)
            ==> units.len() > 0)
}

/// What `scan` comes to where what leads to `next` is read behind it.
spec fn read_on(scan: Scan, next: Scan) -> Scan {
    if next.tokens.len() == 0 {
        if next.word.len() == 0 {
            scan
        } else {
            Scan { tokens: scan.tokens, word: scan.word + next.word, spaced: false }
        }
    } else {
        let flushed = word_flushed(scan).tokens;
        let rest = next.tokens.drop_first();
        Scan {
            tokens: match next.tokens[0] {
                TokenText::Word(units) => scan.tokens.push(TokenText::Word(scan.word + units))
                    + rest,
                TokenText::Space(style) => if scan.spaced {
                    flushed + rest
                } else {
                    flushed.push(TokenText::Space(style)) + rest
                },
                TokenText::HardBreak => flushed.push(TokenText::HardBreak) + rest,
            },
            word: next.word,
            spaced: next.spaced,
        }
    }
}

proof fn lemma_flushed(scan: Scan, next: Scan)
    requires
        is_sound(scan),
        is_sound(next),
    ensures
        next.word.len() > 0 ==> word_flushed(read_on(scan, next)).tokens =~= read_on(
            scan,
            word_flushed(next),
        ).tokens,
{
    if next.word.len() > 0 {
        let all = next.tokens.push(TokenText::Word(next.word));
        if next.tokens.len() == 0 {
            assert(all.drop_first() =~= Seq::empty());
        } else {
            assert(all[0] == next.tokens[0]);
            assert(all.drop_first() =~= next.tokens.drop_first().push(TokenText::Word(next.word)));
        }
    }
}

proof fn lemma_spaced(scan: Scan, next: Scan, style: TextStyle)
    requires
        is_sound(scan),
        is_sound(next),
    ensures
        scan_spaced(read_on(scan, next), style) == read_on(scan, scan_spaced(next, style)),
        is_sound(scan_spaced(next, style)),
{
    lemma_flushed(scan, next);
    let after = scan_spaced(next, style);
    let flushed = word_flushed(next);
    let space = TokenText::Space(style);
    if !next.spaced {
        if flushed.tokens.len() == 0 {
            assert(after.tokens.drop_first() =~= Seq::empty());
        } else {
            assert(after.tokens.drop_first() =~= flushed.tokens.drop_first().push(space));
        }
    }
    assert(scan_spaced(read_on(scan, next), style).tokens =~= read_on(scan, after).tokens);
}

proof fn lemma_broken(scan: Scan, next: Scan)
    requires
        is_sound(scan),
        is_sound(next),
    ensures
        scan_broken(read_on(scan, next)) == read_on(scan, scan_broken(next)),
        is_sound(scan_broken(next)),
{
    lemma_flushed(scan, next);
    let after = scan_broken(next);
    let flushed = word_flushed(next);
    if flushed.tokens.len() == 0 {
        assert(after.tokens.drop_first() =~= Seq::empty());
    } else {
        assert(after.tokens.drop_first() =~= flushed.tokens.drop_first().push(
            TokenText::HardBreak,
        ));
    }
    assert(scan_broken(read_on(scan, next)).tokens =~= read_on(scan, after).tokens);
}

proof fn lemma_cluster(scan: Scan, next: Scan, cluster: Seq<char>, style: TextStyle)
    requires
        is_sound(scan),
        is_sound(next),
    ensures
        cluster_scanned(read_on(scan, next), cluster, style) == read_on(
            scan,
            cluster_scanned(next, cluster, style),
        ),
        is_sound(cluster_scanned(next, cluster, style)),
{
    if breaks_line(cluster) {
        lemma_broken(scan, next);
    } else if is_blank(cluster) && style.color != ColorRole::Code {
        lemma_spaced(scan, next, style);
    } else {
        let unit = SpanText { text: cluster, style };
        assert((scan.word + next.word).push(unit) =~= scan.word + next.word.push(unit));
        assert(scan.word.push(unit) =~= scan.word + seq![unit]);
        assert(next.word.len() == 0 ==> next.word.push(unit) =~= seq![unit]);
    }
}

proof fn lemma_clusters(scan: Scan, next: Scan, parts: Seq<Seq<char>>, style: TextStyle)
    requires
        is_sound(scan),
        is_sound(next),
    ensures
        clusters_scanned(read_on(scan, next), parts, style) == read_on(
            scan,
            clusters_scanned(next, parts, style),
        ),
        is_sound(clusters_scanned(next, parts, style)),
    decreases parts.len(),
{
    if parts.len() > 0 {
        lemma_clusters(scan, next, parts.drop_last(), style);
        lemma_cluster(
            scan,
            clusters_scanned(next, parts.drop_last(), style),
            parts.last(),
            style,
        );
    }
}

proof fn lemma_sound(pieces: Seq<PieceText>)
    ensures
        is_sound(pieces_scanned(pieces)),
    decreases pieces.len(),
{
    if pieces.len() > 0 {
        let before = pieces_scanned(pieces.drop_last());
        lemma_sound(pieces.drop_last());
        match pieces.last() {
            PieceText::SoftBreak => lemma_spaced(before, before, plain_style()),
            PieceText::HardBreak => lemma_broken(before, before),
            PieceText::Span(span) => lemma_clusters(
                before,
                before,
                clusters(span.text),
                span.style,
            ),
        }
    }
}

proof fn lemma_read_on(first: Seq<PieceText>, second: Seq<PieceText>)
    ensures
        pieces_scanned(first + second) == read_on(pieces_scanned(first), pieces_scanned(second)),
    decreases second.len(),
{
    lemma_sound(first);
    lemma_sound(second);
    if second.len() == 0 {
        assert(first + second =~= first);
    } else {
        let scan = pieces_scanned(first);
        let before = pieces_scanned(second.drop_last());
        lemma_read_on(first, second.drop_last());
        lemma_sound(second.drop_last());
        assert((first + second).drop_last() =~= first + second.drop_last());
        match second.last() {
            PieceText::SoftBreak => lemma_spaced(scan, before, plain_style()),
            PieceText::HardBreak => lemma_broken(scan, before),
            PieceText::Span(span) => lemma_clusters(
                scan,
                before,
                clusters(span.text),
                span.style,
            ),
        }
    }
}

/// The tokens of pieces are those of a first part and those of the rest, run together: nothing but
/// white space and breaks ends a word.
pub proof fn law_tokens_run_together(first: Seq<PieceText>, second: Seq<PieceText>)
    ensures
        tokens_of(first + second) == run_together(tokens_of(first), tokens_of(second)),
{
    lemma_read_on(first, second);
    lemma_sound(first);
    lemma_sound(second);
    let scan = pieces_scanned(first);
    let next = pieces_scanned(second);
    lemma_flushed(scan, next);
    let left = tokens_of(first);
    let right = tokens_of(second);
    if next.tokens.len() == 0 {
        if next.word.len() == 0 {
            assert(left + right =~= left);
        } else {
            assert(right =~= seq![TokenText::Word(next.word)]);
            assert(right.drop_first() =~= Seq::empty());
            if scan.word.len() > 0 {
                assert(left.drop_last() =~= scan.tokens);
            } else {
                assert(scan.word + next.word =~= next.word);
            }
        }
    } else {
        assert(right[0] == next.tokens[0]);
        if scan.word.len() > 0 {
            assert(left.drop_last() =~= scan.tokens);
        } else if let TokenText::Word(units) = next.tokens[0] {
            assert(scan.word + units =~= units);
            assert(right =~= seq![right[0]] + right.drop_first());
        }
        assert(right =~= seq![right[0]] + right.drop_first());
        if next.word.len() > 0 {
            assert(right.drop_first() =~= next.tokens.drop_first().push(
                TokenText::Word(next.word),
            ));
        }
    }
    assert(tokens_of(first + second) =~= run_together(left, right));
}

/// A soft break is one space, and a hard break is one.
pub proof fn law_breaks_are_tokens()
    ensures
        tokens_of(Seq::empty()) == Seq::<TokenText>::empty(),
        tokens_of(seq![PieceText::SoftBreak]) == seq![TokenText::Space(plain_style())],
        tokens_of(seq![PieceText::HardBreak]) == seq![TokenText::HardBreak],
{
    reveal_with_fuel(pieces_scanned, 2);
    assert(seq![PieceText::SoftBreak].drop_last() =~= Seq::empty());
    assert(seq![PieceText::HardBreak].drop_last() =~= Seq::empty());
    assert(tokens_of(seq![PieceText::SoftBreak]) =~= seq![TokenText::Space(plain_style())]);
    assert(tokens_of(seq![PieceText::HardBreak]) =~= seq![TokenText::HardBreak]);
}

/// The token of one grapheme cluster: a line feed or a carriage return is a break, white space
/// outside of code is a space, and anything else is a word of one unit.
pub open spec fn cluster_token(cluster: Seq<char>, style: TextStyle) -> TokenText {
    if cluster.contains('\n') || cluster.contains('\r') {
        TokenText::HardBreak
    } else if style.color != ColorRole::Code && forall|i: int|
        0 <= i < cluster.len() ==> is_white_space(#[trigger] cluster[i]) {
        TokenText::Space(style)
    } else {
        TokenText::Word(seq![SpanText { text: cluster, style }])
    }
}

/// The tokens of the first `count` of `parts`, run together.
pub open spec fn cluster_tokens(parts: Seq<Seq<char>>, style: TextStyle, count: int) -> Seq<
    TokenText,
>
    decreases count,
{
    if count <= 0 {
        Seq::empty()
    } else {
        run_together(
            cluster_tokens(parts, style, count - 1),
            seq![cluster_token(parts[count - 1], style)],
        )
    }
}

proof fn lemma_span_tokens(parts: Seq<Seq<char>>, style: TextStyle, count: int)
    requires
        0 <= count <= parts.len(),
    ensures
        ({
            let scan = clusters_scanned(pieces_scanned(Seq::empty()), parts.take(count), style);
            is_sound(scan) && word_flushed(scan).tokens == cluster_tokens(parts, style, count)
        }),
    decreases count,
{
    let empty = pieces_scanned(Seq::empty());
    if count > 0 {
        lemma_span_tokens(parts, style, count - 1);
        assert(parts.take(count).drop_last() =~= parts.take(count - 1));
        let before = clusters_scanned(empty, parts.take(count - 1), style);
        let cluster = parts[count - 1];
        let after = cluster_scanned(before, cluster, style);
        lemma_cluster(before, before, cluster, style);
        let left = word_flushed(before).tokens;
        let token = cluster_token(cluster, style);
        assert(breaks_line(cluster) == (token is HardBreak));
        assert(seq![token].drop_first() =~= Seq::empty());
        if before.word.len() > 0 {
            assert(left.drop_last() =~= before.tokens);
            assert(before.word.push(SpanText { text: cluster, style }) =~= before.word + seq![
                SpanText { text: cluster, style },
            ]);
        } else {
            assert(before.word.push(SpanText { text: cluster, style }) =~= seq![
                SpanText { text: cluster, style },
            ]);
        }
        assert(word_flushed(after).tokens =~= run_together(left, seq![token]));
    } else {
        assert(parts.take(0) =~= Seq::empty());
        assert(word_flushed(empty).tokens =~= Seq::empty());
    }
}

/// The tokens of a span are those of its grapheme clusters, run together.
pub proof fn law_spans_are_tokens(span: SpanText)
    ensures
        tokens_of(seq![PieceText::Span(span)]) == cluster_tokens(
            clusters(span.text),
            span.style,
            clusters(span.text).len() as int,
        ),
{
    reveal_with_fuel(pieces_scanned, 2);
    let parts = clusters(span.text);
    assert(seq![PieceText::Span(span)].drop_last() =~= Seq::empty());
    assert(parts.take(parts.len() as int) =~= parts);
    lemma_span_tokens(parts, span.style, parts.len() as int);
}

/// The words on either side of a soft break stay apart, with one space in between.
pub proof fn law_soft_breaks_keep_words_apart(first: Seq<PieceText>, second: Seq<PieceText>)
    requires
        tokens_of(first).len() > 0 && tokens_of(first).last() is Word,
        tokens_of(second).len() > 0 && tokens_of(second)[0] is Word,
    ensures
        tokens_of(first + seq![PieceText::SoftBreak] + second) == tokens_of(first).push(
            TokenText::Space(plain_style()),
        ) + tokens_of(second),
{
    law_breaks_are_tokens();
    let middle = seq![PieceText::SoftBreak];
    law_tokens_run_together(first, middle);
    law_tokens_run_together(first + middle, second);
    assert(tokens_of(first + middle) =~= tokens_of(first).push(TokenText::Space(plain_style())));
}

/// The texts of the words of `tokens`, in order.
pub open spec fn words_in(tokens: Seq<TokenText>) -> Seq<Seq<char>>
    decreases tokens.len(),
{
    if tokens.len() == 0 {
        Seq::empty()
    } else {
        match tokens.last() {
            TokenText::Word(units) => words_in(tokens.drop_last()).push(line_text(units)),
            _ => words_in(tokens.drop_last()),
        }
    }
}

/// The texts of `lines`.
pub open spec fn texts_of(lines: Seq<Seq<SpanText>>) -> Seq<Seq<char>> {
    lines.map_values(|line: Seq<SpanText>| line_text(line))
}

/// Whether `units` are a word that shows and that fits into `width` columns: it is made of `chars`,
/// begins with something visible and does not end with white space.
pub open spec fn is_whole_word(units: Seq<SpanText>, width: int, chars: Set<char>) -> bool {
    &&& units.len() > 0
    &&& is_line_of(units, chars)
    &&& text_width(units[0].text) > 0
    &&& span_columns(units) <= width
    &&& forall|i: int| 0 <= i < units.len() ==> (#[trigger] units[i]).text.len() > 0
    &&& !is_white_space(units.last().text.last())
}

/// Whether `tokens` are words that show and fit, with spaces between them.
pub open spec fn are_whole_words(tokens: Seq<TokenText>, width: int, chars: Set<char>) -> bool {
    &&& forall|i: int|
        0 <= i < tokens.len() ==> match #[trigger] tokens[i] {
            TokenText::Word(units) => is_whole_word(units, width, chars),
            TokenText::Space(_) => true,
            TokenText::HardBreak => false,
        }
    &&& forall|i: int|
        0 < i < tokens.len() ==> !(#[trigger] tokens[i] is Word && tokens[i - 1] is Word)
}

/// Whether `wrap` holds `words`: in lines that show them with one space between any two, the last
/// of which ends with the last word.
spec fn shows_words(wrap: Wrap, words: Seq<Seq<char>>, chars: Set<char>) -> bool {
    let laid = wrap.laid;
    if words.len() == 0 {
        laid.lines.len() == 0 && laid.line.len() == 0 && wrap.pending is None
    } else {
        &&& joined_with(texts_of(laid.lines.push(laid.line)), " "@) == joined_with(words, " "@)
        &&& laid.line.len() > 0
        &&& is_line_of(laid.line, chars)
        &&& span_columns(laid.line) > 0
        &&& laid.line.last().text.len() > 0
        &&& !is_white_space(laid.line.last().text.last())
    }
}

proof fn lemma_pushed_grows(line: Seq<SpanText>, text: Seq<char>, style: TextStyle, chars: Set<char>)
    requires
        add_up(chars),
        is_line_of(line, chars),
        is_made_of(text, chars),
    ensures
        span_columns(line) <= span_columns(pushed(line, text, style)),
        text.len() > 0 ==> pushed(line, text, style).len() > 0 && pushed(
            line,
            text,
            style,
        ).last().text.len() > 0 && pushed(line, text, style).last().text.last() == text.last(),
{
    let after = pushed(line, text, style);
    if text.len() > 0 {
        if line.len() > 0 && line.last().style == style {
            let last = line.last().text;
            assert(is_made_of(line[line.len() - 1].text, chars));
            assert(text_width(last) <= text_width(last + text));
            assert(after.drop_last() =~= line.drop_last());
        } else {
            assert(after.drop_last() =~= line);
        }
    }
}

proof fn lemma_units_grow(line: Seq<SpanText>, units: Seq<SpanText>, chars: Set<char>)
    requires
        add_up(chars),
        is_line_of(line, chars),
        is_line_of(units, chars),
        forall|i: int| 0 <= i < units.len() ==> (#[trigger] units[i]).text.len() > 0,
    ensures
        span_columns(line) <= span_columns(units_pushed(line, units)),
        line.len() == 0 && units.len() > 0 ==> text_width(units[0].text) <= span_columns(
            units_pushed(line, units),
        ),
        units.len() > 0 ==> units_pushed(line, units).len() > 0 && units_pushed(
            line,
            units,
        ).last().text.len() > 0 && units_pushed(line, units).last().text.last()
            == units.last().text.last(),
    decreases units.len(),
{
    if units.len() > 0 {
        let rest = units.drop_last();
        assert forall|i: int| 0 <= i < rest.len() implies is_made_of(
            (#[trigger] rest[i]).text,
            chars,
        ) && rest[i].text.len() > 0 by {
            assert(rest[i] == units[i]);
        }
        lemma_units_grow(line, rest, chars);
        lemma_units_fit(line, rest, chars);
        let last = units[units.len() - 1];
        assert(is_made_of(last.text, chars));
        lemma_pushed_grows(units_pushed(line, rest), last.text, last.style, chars);
        if line.len() == 0 && rest.len() == 0 {
            let after = units_pushed(line, units);
            assert(after =~= seq![SpanText { text: last.text, style: last.style }]);
            reveal_with_fuel(span_columns, 2);
        }
    }
}

proof fn lemma_all_fit(units: Seq<SpanText>, available: int)
    requires
        span_columns(units) <= available,
    ensures
        fitting_units(units, available) == units.len(),
    decreases units.len(),
{
    if units.len() > 0 {
        lemma_first_columns(units);
        lemma_all_fit(units.drop_first(), available - text_width(units[0].text));
    }
}

proof fn lemma_whole_word_laid(laid: Laid, units: Seq<SpanText>, width: int)
    requires
        units.len() > 0,
        0 <= width <= usize::MAX,
        span_columns(laid.line) + span_columns(units) <= width,
    ensures
        word_laid(laid, units, width) == (Laid { line: units_pushed(laid.line, units), ..laid }),
{
    lemma_all_fit(units, columns_left(laid.line, width));
    assert(units.take(units.len() as int) =~= units);
}

proof fn lemma_solid_end(line: Seq<SpanText>)
    requires
        line.len() > 0,
        line.last().text.len() > 0,
        !is_white_space(line.last().text.last()),
    ensures
        line_end_trimmed(line) == line,
{
    assert(trimmed_end(line.last().text) == line.last().text);
    assert(line.drop_last().push(line.last()) =~= line);
}

proof fn lemma_joined_last(parts: Seq<Seq<char>>, last: Seq<char>, more: Seq<char>)
    ensures
        joined_with(parts.push(last + more), " "@) == joined_with(parts.push(last), " "@) + more,
        joined_with(parts.push(last).push(more), " "@) == joined_with(parts.push(last), " "@)
            + " "@ + more,
{
    assert(parts.push(last + more).drop_last() =~= parts);
    assert(parts.push(last).drop_last() =~= parts);
    assert(parts.push(last).push(more).drop_last() =~= parts.push(last));
    assert(joined_with(parts.push(last + more), " "@) =~= joined_with(parts.push(last), " "@)
        + more);
}

proof fn lemma_word_wrapped(
    wrap: Wrap,
    words: Seq<Seq<char>>,
    units: Seq<SpanText>,
    width: int,
    chars: Set<char>,
)
    requires
        add_up(chars),
        1 <= width <= usize::MAX,
        shows_words(wrap, words, chars),
        is_whole_word(units, width, chars),
        words.len() > 0 ==> wrap.pending is Some,
    ensures
        shows_words(
            Wrap {
                laid: word_laid(word_start(wrap, span_columns(units), width), units, width),
                pending: None,
            },
            words.push(line_text(units)),
            chars,
        ),
{
    let laid = wrap.laid;
    let start = word_start(wrap, span_columns(units), width);
    let word = line_text(units);
    lemma_ellipsis(chars);
    reveal_strlit(" ");
    if words.len() == 0 {
        assert(start == laid);
        assert(span_columns(laid.line) == 0);
        lemma_whole_word_laid(start, units, width);
        lemma_units_grow(laid.line, units, chars);
        lemma_units_fit(laid.line, units, chars);
        lemma_units_kept(laid.line, units);
        let line = units_pushed(laid.line, units);
        assert(line_text(line) =~= word);
        assert(texts_of(laid.lines.push(line)) =~= seq![word]);
        assert(words.push(word) =~= seq![word]);
    } else {
        let before = texts_of(laid.lines);
        assert(texts_of(laid.lines.push(laid.line)) =~= before.push(line_text(laid.line)));
        assert(joined_with(words.push(word), " "@) == joined_with(words, " "@) + " "@ + word) by {
            lemma_joined_last(words.drop_last(), words.last(), word);
            assert(words.drop_last().push(words.last()) =~= words);
        }
        if overflows(wrap, span_columns(units), width) {
            lemma_solid_end(laid.line);
            assert(start == line_finished(laid));
            lemma_whole_word_laid(start, units, width);
            lemma_units_grow(start.line, units, chars);
            lemma_units_fit(start.line, units, chars);
            lemma_units_kept(start.line, units);
            let line = units_pushed(start.line, units);
            assert(line_text(line) =~= word);
            assert(texts_of(start.lines.push(line)) =~= before.push(line_text(laid.line)).push(
                word,
            ));
            lemma_joined_last(before, line_text(laid.line), word);
        } else {
            let style = wrap.pending->0;
            lemma_pushed_fits(laid.line, " "@, style, chars);
            lemma_pushed_grows(laid.line, " "@, style, chars);
            law_line_text(laid.line, " "@, style);
            lemma_whole_word_laid(start, units, width);
            lemma_units_grow(start.line, units, chars);
            lemma_units_fit(start.line, units, chars);
            lemma_units_kept(start.line, units);
            let line = units_pushed(start.line, units);
            let more = " "@ + word;
            assert(line_text(line) =~= line_text(laid.line) + more);
            assert(texts_of(start.lines.push(line)) =~= before.push(line_text(laid.line) + more));
            lemma_joined_last(before, line_text(laid.line), more);
            assert(joined_with(words, " "@) + more =~= joined_with(words, " "@) + " "@ + word);
        }
    }
}

proof fn lemma_words_wrapped(tokens: Seq<TokenText>, width: int, chars: Set<char>)
    requires
        add_up(chars),
        1 <= width <= usize::MAX,
        are_whole_words(tokens, width, chars),
    ensures
        shows_words(tokens_wrapped(tokens, width), words_in(tokens), chars),
        words_in(tokens).len() > 0 && tokens.last() is Space ==> tokens_wrapped(
            tokens,
            width,
        ).pending is Some,
    decreases tokens.len(),
{
    if tokens.len() > 0 {
        let rest = tokens.drop_last();
        assert forall|i: int| 0 <= i < rest.len() implies match #[trigger] rest[i] {
            TokenText::Word(units) => is_whole_word(units, width, chars),
            TokenText::Space(_) => true,
            TokenText::HardBreak => false,
        } by {
            assert(rest[i] == tokens[i]);
        }
        assert forall|i: int| 0 < i < rest.len() implies !(#[trigger] rest[i] is Word && rest[i
            - 1] is Word) by {
            assert(rest[i] == tokens[i] && rest[i - 1] == tokens[i - 1]);
        }
        lemma_words_wrapped(rest, width, chars);
        let last = tokens[tokens.len() - 1];
        assert(last == tokens.last());
        let wrap = tokens_wrapped(rest, width);
        if let TokenText::Word(units) = last {
            let words = words_in(rest);
            if words.len() > 0 {
                assert(rest.len() > 0);
                assert(rest.last() == tokens[tokens.len() - 2]);
                assert(!(tokens[tokens.len() - 1] is Word && tokens[tokens.len() - 2] is Word));
            }
            lemma_word_wrapped(wrap, words, units, width, chars);
        }
    }
}

proof fn lemma_words_apart(pieces: Seq<PieceText>)
    ensures
        forall|i: int|
            0 < i < tokens_of(pieces).len() ==> !(#[trigger] tokens_of(pieces)[i] is Word
                && tokens_of(pieces)[i - 1] is Word),
    decreases pieces.len(),
{
    lemma_apart(pieces);
    lemma_sound(pieces);
}

spec fn are_apart(tokens: Seq<TokenText>) -> bool {
    forall|i: int| 0 < i < tokens.len() ==> !(#[trigger] tokens[i] is Word && tokens[i - 1] is Word)
}

proof fn lemma_step_apart(scan: Scan, parts: Seq<Seq<char>>, style: TextStyle)
    requires
        is_sound(scan),
        are_apart(scan.tokens),
    ensures
        are_apart(clusters_scanned(scan, parts, style).tokens),
        is_sound(clusters_scanned(scan, parts, style)),
    decreases parts.len(),
{
    if parts.len() > 0 {
        lemma_step_apart(scan, parts.drop_last(), style);
        let before = clusters_scanned(scan, parts.drop_last(), style);
        lemma_cluster(before, before, parts.last(), style);
    }
}

proof fn lemma_apart(pieces: Seq<PieceText>)
    ensures
        are_apart(pieces_scanned(pieces).tokens),
    decreases pieces.len(),
{
    if pieces.len() > 0 {
        lemma_apart(pieces.drop_last());
        lemma_sound(pieces.drop_last());
        if let PieceText::Span(span) = pieces.last() {
            lemma_step_apart(
                pieces_scanned(pieces.drop_last()),
                clusters(span.text),
                span.style,
            );
        }
    }
}

/// Whether the words of `pieces` show and fit into `width` columns, and no hard break stands among
/// them.
pub open spec fn words_fit(pieces: Seq<PieceText>, width: int, chars: Set<char>) -> bool {
    forall|i: int|
        0 <= i < tokens_of(pieces).len() ==> match #[trigger] tokens_of(pieces)[i] {
            TokenText::Word(units) => is_whole_word(units, width, chars),
            TokenText::Space(_) => true,
            TokenText::HardBreak => false,
        }
}

/// Wrapped lines, read with their ends as spaces, are the words of the pieces in order, with just
/// one space between any two neighbours.
pub proof fn law_wrapping_keeps_words_apart(pieces: Seq<PieceText>, width: int, chars: Set<char>)
    requires
        width <= usize::MAX,
        add_up(chars),
        words_fit(pieces, at_least_one(width), chars),
    ensures
        joined_with(texts_of(wrapped(pieces, width)), " "@) == joined_with(
            words_in(tokens_of(pieces)),
            " "@,
        ),
{
    let tokens = tokens_of(pieces);
    let columns = at_least_one(width);
    lemma_words_apart(pieces);
    lemma_words_wrapped(tokens, columns, chars);
    let wrap = tokens_wrapped(tokens, columns);
    let laid = wrap.laid;
    if words_in(tokens).len() > 0 {
        lemma_solid_end(laid.line);
        assert(wrapped(pieces, width) == laid.lines.push(laid.line));
    } else {
        assert(line_end_trimmed(laid.line) == laid.line);
        let lines = wrapped(pieces, width);
        assert(lines =~= seq![laid.line]);
        assert(texts_of(lines) =~= seq![Seq::<char>::empty()]);
    }
}

} // verus!
