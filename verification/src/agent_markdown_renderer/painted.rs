//! Every character keeps its style on its way to the screen.

use vstd::prelude::*;

use crate::agent_markdown_renderer::filling::lemma_all_fit;
use crate::agent_markdown_renderer::inline::breaks_line;
use crate::agent_markdown_renderer::inline::columns_left;
use crate::agent_markdown_renderer::inline::piece_pushed;
use crate::agent_markdown_renderer::inline::pieces_extended;
use crate::agent_markdown_renderer::inline::units_pushed;
use crate::agent_markdown_renderer::inline::word_laid;
use crate::agent_markdown_renderer::inline::word_start;
use crate::agent_markdown_renderer::inline::PieceText;
use crate::agent_markdown_renderer::inline::Wrap;
use crate::agent_markdown_renderer::literal::clusters_laid;
use crate::agent_markdown_renderer::literal::shown_cluster;
use crate::agent_markdown_renderer::literal::Literal;
use crate::agent_markdown_renderer::measure::clusters;
use crate::agent_markdown_renderer::measure::joined;
use crate::agent_markdown_renderer::measure::law_clusters_divide;
use crate::agent_markdown_renderer::measure::text_width;
use crate::agent_markdown_renderer::style::link_style;
use crate::agent_markdown_renderer::style::merged_style;
use crate::agent_markdown_renderer::style::TextStyle;
use crate::agent_markdown_renderer::styled::clipped;
use crate::agent_markdown_renderer::styled::clipped_parts;
use crate::agent_markdown_renderer::styled::clipped_spans;
use crate::agent_markdown_renderer::styled::line_appended;
use crate::agent_markdown_renderer::styled::line_end_trimmed;
use crate::agent_markdown_renderer::styled::line_width;
use crate::agent_markdown_renderer::styled::prepended;
use crate::agent_markdown_renderer::styled::pushed;
use crate::agent_markdown_renderer::styled::span_columns;
use crate::agent_markdown_renderer::styled::Clip;
use crate::agent_markdown_renderer::styled::SpanText;
use crate::agent_markdown_renderer::urls::are_ordered;
use crate::agent_markdown_renderer::urls::law_urls_are_ordered;
use crate::agent_markdown_renderer::urls::lemma_within;
use crate::agent_markdown_renderer::urls::linked_text;
use crate::agent_markdown_renderer::urls::text_pushed;
use crate::agent_markdown_renderer::urls::urls_of;
use crate::text::trimmed_end;

verus! {

/// The characters of `text`, each with `style`.
pub open spec fn in_style(text: Seq<char>, style: TextStyle) -> Seq<(char, TextStyle)> {
    text.map_values(|c: char| (c, style))
}

/// The characters of `line`, each with its style.
pub open spec fn painted(line: Seq<SpanText>) -> Seq<(char, TextStyle)>
    decreases line.len(),
{
    if line.len() == 0 {
        Seq::empty()
    } else {
        painted(line.drop_last()) + in_style(line.last().text, line.last().style)
    }
}

proof fn lemma_first_painted(line: Seq<SpanText>)
    requires
        line.len() > 0,
    ensures
        painted(line) == in_style(line[0].text, line[0].style) + painted(line.drop_first()),
    decreases line.len(),
{
    if line.len() == 1 {
        assert(line.drop_first() =~= Seq::empty());
        assert(line.drop_last() =~= Seq::empty());
        reveal_with_fuel(painted, 2);
        assert(painted(line) =~= in_style(line[0].text, line[0].style) + painted(
            line.drop_first(),
        ));
    } else {
        lemma_first_painted(line.drop_last());
        assert(line.drop_last().drop_first() =~= line.drop_first().drop_last());
        assert(painted(line) =~= in_style(line[0].text, line[0].style) + painted(
            line.drop_first(),
        ));
    }
}

/// What is put behind a line or in front of it has its style, and the line keeps its own.
pub proof fn law_lines_keep_their_styles(line: Seq<SpanText>, text: Seq<char>, style: TextStyle)
    ensures
        painted(pushed(line, text, style)) == painted(line) + in_style(text, style),
        painted(prepended(line, text, style)) == in_style(text, style) + painted(line),
{
    let back = pushed(line, text, style);
    let front = prepended(line, text, style);
    if text.len() == 0 {
        assert(in_style(text, style) =~= Seq::empty());
        assert(painted(line) + in_style(text, style) =~= painted(line));
        assert(in_style(text, style) + painted(line) =~= painted(line));
    } else {
        if line.len() > 0 && line.last().style == style {
            assert(back.drop_last() =~= line.drop_last());
            assert(in_style(line.last().text + text, style) =~= in_style(line.last().text, style)
                + in_style(text, style));
            assert(painted(back) =~= painted(line) + in_style(text, style));
        } else {
            assert(back.drop_last() =~= line);
        }
        lemma_first_painted(front);
        if line.len() > 0 && line[0].style == style {
            lemma_first_painted(line);
            assert(front.drop_first() =~= line.drop_first());
            assert(in_style(text + line[0].text, style) =~= in_style(text, style) + in_style(
                line[0].text,
                style,
            ));
            assert(painted(front) =~= in_style(text, style) + painted(line));
        } else {
            assert(front.drop_first() =~= line);
        }
    }
}

/// Lines that are put one behind the other keep their styles, and so do the units of words.
pub proof fn law_joined_lines_keep_their_styles(line: Seq<SpanText>, other: Seq<SpanText>)
    ensures
        painted(line_appended(line, other)) == painted(line) + painted(other),
        painted(units_pushed(line, other)) == painted(line) + painted(other),
    decreases other.len(),
{
    if other.len() == 0 {
        assert(painted(line) + painted(other) =~= painted(line));
    } else {
        let rest = other.drop_last();
        law_joined_lines_keep_their_styles(line, rest);
        law_lines_keep_their_styles(
            line_appended(line, rest),
            other.last().text,
            other.last().style,
        );
        law_lines_keep_their_styles(
            units_pushed(line, rest),
            other.last().text,
            other.last().style,
        );
        assert(painted(line) + painted(rest) + in_style(other.last().text, other.last().style)
            =~= painted(line) + painted(other));
    }
}

/// A word that fits on its line stands there in its styles, behind a space in the style of the space.
pub proof fn law_words_keep_their_styles(wrap: Wrap, units: Seq<SpanText>, width: int)
    requires
        ({
            let start = word_start(wrap, span_columns(units), width);
            span_columns(units) <= columns_left(start.line, width)
        }),
    ensures
        ({
            let start = word_start(wrap, span_columns(units), width);
            let after = word_laid(start, units, width);
            &&& painted(after.line) == painted(start.line) + painted(units)
            &&& start.lines.len() == wrap.laid.lines.len() && wrap.pending is Some && line_width(
                wrap.laid.line,
            ) > 0 ==> painted(start.line) == painted(wrap.laid.line).push((' ', wrap.pending->0))
        }),
{
    let start = word_start(wrap, span_columns(units), width);
    lemma_all_fit(units, columns_left(start.line, width));
    law_joined_lines_keep_their_styles(start.line, units);
    if units.len() == 0 {
        assert(painted(start.line) + painted(units) =~= painted(start.line));
    } else {
        assert(units.take(units.len() as int) =~= units);
    }
    if start.lines.len() == wrap.laid.lines.len() && wrap.pending is Some && line_width(
        wrap.laid.line,
    ) > 0 {
        reveal_strlit(" ");
        law_lines_keep_their_styles(wrap.laid.line, " "@, wrap.pending->0);
        assert(painted(wrap.laid.line) + in_style(" "@, wrap.pending->0) =~= painted(
            wrap.laid.line,
        ).push((' ', wrap.pending->0)));
    }
}

/// Source text is shown in the style that it is given.
pub proof fn law_source_keeps_its_style(
    literal: Literal,
    parts: Seq<Seq<char>>,
    cluster: Seq<char>,
    style: TextStyle,
)
    requires
        ({
            let before = clusters_laid(literal, parts, style);
            &&& !breaks_line(cluster)
            &&& 0 <= before.column
            &&& before.column + text_width(shown_cluster(cluster)) <= before.width
        }),
    ensures
        painted(clusters_laid(literal, parts.push(cluster), style).line) == painted(
            clusters_laid(literal, parts, style).line,
        ) + in_style(shown_cluster(cluster), style),
{
    let before = clusters_laid(literal, parts, style);
    assert(parts.push(cluster).drop_last() =~= parts);
    law_lines_keep_their_styles(before.line, shown_cluster(cluster), style);
    if shown_cluster(cluster).len() == 0 {
        assert(in_style(shown_cluster(cluster), style) =~= Seq::empty());
        assert(painted(before.line) + in_style(shown_cluster(cluster), style) =~= painted(
            before.line,
        ));
    }
}

proof fn lemma_trimmed_prefix(text: Seq<char>)
    ensures
        trimmed_end(text).len() <= text.len(),
        trimmed_end(text) == text.take(trimmed_end(text).len() as int),
    decreases text.len(),
{
    if trimmed_end(text) == text {
        assert(text.take(text.len() as int) =~= text);
    } else if text.len() > 0 {
        lemma_trimmed_prefix(text.drop_last());
        let size = trimmed_end(text).len() as int;
        assert(text.drop_last().take(size) =~= text.take(size));
    }
}

/// Cutting the white space off the end of a line changes nothing of the rest.
pub proof fn law_trimming_a_line_keeps_its_start(line: Seq<SpanText>)
    ensures
        painted(line_end_trimmed(line)).is_prefix_of(painted(line)),
    decreases line.len(),
{
    if line.len() > 0 {
        let rest = line.drop_last();
        let last = line.last();
        let text = trimmed_end(last.text);
        lemma_trimmed_prefix(last.text);
        law_trimming_a_line_keeps_its_start(rest);
        let shown = line_end_trimmed(line);
        if text.len() > 0 {
            assert(shown.drop_last() =~= rest);
            let size = painted(shown).len() as int;
            assert(painted(line).take(size) =~= painted(shown));
        } else {
            let size = painted(shown).len() as int;
            assert(painted(line).take(size) =~= painted(rest).take(size));
        }
    }
}

proof fn lemma_parts_painted(clip: Clip, parts: Seq<Seq<char>>, style: TextStyle)
    requires
        !clip.ended,
    ensures
        painted(clip.line).is_prefix_of(painted(clipped_parts(clip, parts, style).line)),
        painted(clipped_parts(clip, parts, style).line).is_prefix_of(
            painted(clip.line) + in_style(joined(parts), style),
        ),
        !clipped_parts(clip, parts, style).ended ==> painted(
            clipped_parts(clip, parts, style).line,
        ) == painted(clip.line) + in_style(joined(parts), style),
    decreases parts.len(),
{
    let whole = painted(clip.line) + in_style(joined(parts), style);
    assert(whole.take(painted(clip.line).len() as int) =~= painted(clip.line));
    if parts.len() == 0 {
        assert(in_style(joined(parts), style) =~= Seq::empty());
        assert(whole =~= painted(clip.line));
    } else if text_width(parts[0]) <= clip.remaining {
        let next = Clip {
            line: pushed(clip.line, parts[0], style),
            remaining: clip.remaining - text_width(parts[0]),
            ended: false,
        };
        lemma_first_joined(parts);
        law_lines_keep_their_styles(clip.line, parts[0], style);
        lemma_parts_painted(next, parts.drop_first(), style);
        assert(painted(next.line) + in_style(joined(parts.drop_first()), style) =~= whole);
        let after = painted(clipped_parts(clip, parts, style).line);
        assert(after.take(painted(clip.line).len() as int) =~= painted(clip.line));
    }
}

proof fn lemma_first_joined(parts: Seq<Seq<char>>)
    requires
        parts.len() > 0,
    ensures
        joined(parts) == parts[0] + joined(parts.drop_first()),
    decreases parts.len(),
{
    if parts.len() == 1 {
        assert(parts.drop_first() =~= Seq::empty());
        assert(parts.drop_last() =~= Seq::empty());
        reveal_with_fuel(joined, 2);
        assert(joined(parts) =~= parts[0] + joined(parts.drop_first()));
    } else {
        lemma_first_joined(parts.drop_last());
        assert(parts.drop_last().drop_first() =~= parts.drop_first().drop_last());
        assert(joined(parts) =~= parts[0] + joined(parts.drop_first()));
    }
}

proof fn lemma_spans_painted(clip: Clip, spans: Seq<SpanText>)
    requires
        !clip.ended,
    ensures
        painted(clipped_spans(clip, spans)).is_prefix_of(painted(clip.line) + painted(spans)),
    decreases spans.len(),
{
    let all = painted(clip.line) + painted(spans);
    assert(all.take(painted(clip.line).len() as int) =~= painted(clip.line));
    if spans.len() > 0 && clip.remaining != 0 {
        let parts = clusters(spans[0].text);
        law_clusters_divide(spans[0].text);
        lemma_first_painted(spans);
        lemma_parts_painted(clip, parts, spans[0].style);
        let next = clipped_parts(clip, parts, spans[0].style);
        let rest = spans.drop_first();
        let middle = painted(clip.line) + in_style(spans[0].text, spans[0].style);
        assert(middle + painted(rest) =~= all);
        if !next.ended {
            lemma_spans_painted(next, rest);
        } else {
            let shown = painted(next.line);
            assert(clipped_spans(next, rest) == next.line);
            assert(all.take(shown.len() as int) =~= middle.take(shown.len() as int));
        }
    }
}

/// What is left of a line that is cut keeps its styles.
pub proof fn law_cut_lines_keep_their_styles(line: Seq<SpanText>, width: int)
    ensures
        painted(clipped(line, width)).is_prefix_of(painted(line)),
{
    lemma_spans_painted(Clip { line: Seq::empty(), remaining: width, ended: false }, line);
    assert(painted(Seq::<SpanText>::empty()) + painted(line) =~= painted(line));
}

/// What `pieces` show, each character with its style. A break shows nothing.
pub open spec fn pieces_painted(pieces: Seq<PieceText>) -> Seq<(char, TextStyle)>
    decreases pieces.len(),
{
    if pieces.len() == 0 {
        Seq::empty()
    } else {
        pieces_painted(pieces.drop_last()) + match pieces.last() {
            PieceText::Span(span) => in_style(span.text, span.style),
            _ => Seq::empty(),
        }
    }
}

/// Pieces keep their styles when something is put behind them, and so does what is put there.
pub proof fn law_pieces_keep_their_styles(
    pieces: Seq<PieceText>,
    text: Seq<char>,
    style: TextStyle,
)
    ensures
        pieces_painted(piece_pushed(pieces, text, style)) == pieces_painted(pieces) + in_style(
            text,
            style,
        ),
{
    let after = piece_pushed(pieces, text, style);
    if text.len() == 0 {
        assert(in_style(text, style) =~= Seq::empty());
        assert(pieces_painted(pieces) + in_style(text, style) =~= pieces_painted(pieces));
    } else if pieces.len() > 0 && pieces.last() is Span && pieces.last()->Span_0.style == style {
        let last = pieces.last()->Span_0.text;
        assert(after.drop_last() =~= pieces.drop_last());
        assert(in_style(last + text, style) =~= in_style(last, style) + in_style(text, style));
        assert(pieces_painted(after) =~= pieces_painted(pieces) + in_style(text, style));
    } else {
        assert(after.drop_last() =~= pieces);
    }
}

/// Pieces that are put behind others keep their styles.
pub proof fn law_more_pieces_keep_their_styles(output: Seq<PieceText>, pieces: Seq<PieceText>)
    ensures
        pieces_painted(pieces_extended(output, pieces)) == pieces_painted(output) + pieces_painted(
            pieces,
        ),
    decreases pieces.len(),
{
    if pieces.len() == 0 {
        assert(pieces_painted(output) + pieces_painted(pieces) =~= pieces_painted(output));
    } else {
        let before = pieces_extended(output, pieces.drop_last());
        law_more_pieces_keep_their_styles(output, pieces.drop_last());
        match pieces.last() {
            PieceText::Span(span) => law_pieces_keep_their_styles(before, span.text, span.style),
            other => {
                assert(before.push(other).drop_last() =~= before);
            },
        }
        assert(pieces_painted(pieces_extended(output, pieces)) =~= pieces_painted(output)
            + pieces_painted(pieces));
    }
}

/// Whether `at` lies in one of `ranges`.
pub open spec fn lies_in(ranges: Seq<(int, int)>, at: int) -> bool {
    exists|i: int| 0 <= i < ranges.len() && (#[trigger] ranges[i]).0 <= at < ranges[i].1
}

/// `text` from `from` on, where what `ranges` hold is in the style of links laid over `style`.
pub open spec fn with_links(
    text: Seq<char>,
    ranges: Seq<(int, int)>,
    from: int,
    style: TextStyle,
) -> Seq<(char, TextStyle)> {
    Seq::new(
        (text.len() - from) as nat,
        |i: int|
            (
                text[from + i],
                if lies_in(ranges, from + i) {
                    merged_style(style, link_style())
                } else {
                    style
                },
            ),
    )
}

proof fn lemma_behind_ranges(ranges: Seq<(int, int)>, from: int, size: int, at: int)
    requires
        are_ordered(ranges, from, size),
        at < from,
    ensures
        !lies_in(ranges, at),
    decreases ranges.len(),
{
    if ranges.len() > 0 {
        lemma_behind_ranges(ranges.drop_first(), ranges[0].1, size, at);
        if lies_in(ranges, at) {
            let i = choose|i: int|
                0 <= i < ranges.len() && (#[trigger] ranges[i]).0 <= at < ranges[i].1;
            if i > 0 {
                assert(ranges.drop_first()[i - 1] == ranges[i]);
            }
        }
    }
}

proof fn lemma_linked_painted(
    output: Seq<PieceText>,
    text: Seq<char>,
    ranges: Seq<(int, int)>,
    from: int,
    style: TextStyle,
)
    requires
        0 <= from,
        are_ordered(ranges, from, text.len() as int),
    ensures
        pieces_painted(linked_text(output, text, ranges, from, style)) == pieces_painted(output)
            + with_links(text, ranges, from, style),
    decreases ranges.len(),
{
    lemma_within(ranges, from, text.len() as int);
    if ranges.len() == 0 {
        let rest = text.subrange(from, text.len() as int);
        law_pieces_keep_their_styles(output, rest, style);
        assert(in_style(rest, style) =~= with_links(text, ranges, from, style));
    } else {
        let (start, end) = ranges[0];
        let more = ranges.drop_first();
        let link = merged_style(style, link_style());
        let plain = text.subrange(from, start);
        let address = text.subrange(start, end);
        let before = piece_pushed(output, plain, style);
        let linked = piece_pushed(before, address, link);
        law_pieces_keep_their_styles(output, plain, style);
        law_pieces_keep_their_styles(before, address, link);
        lemma_linked_painted(linked, text, more, end, style);
        let shown = with_links(text, ranges, from, style);
        let parts = in_style(plain, style) + in_style(address, link) + with_links(
            text,
            more,
            end,
            style,
        );
        assert forall|i: int| 0 <= i < shown.len() implies #[trigger] shown[i] == parts[i] by {
            let at = from + i;
            if at < start {
                assert(!lies_in(ranges, at)) by {
                    lemma_behind_ranges(more, end, text.len() as int, at);
                    if lies_in(ranges, at) {
                        let k = choose|k: int|
                            0 <= k < ranges.len() && (#[trigger] ranges[k]).0 <= at < ranges[k].1;
                        if k > 0 {
                            assert(more[k - 1] == ranges[k]);
                        }
                    }
                }
            } else if at < end {
                assert(ranges[0].0 <= at < ranges[0].1);
                assert(lies_in(ranges, at));
            } else {
                if lies_in(ranges, at) {
                    let k = choose|k: int|
                        0 <= k < ranges.len() && (#[trigger] ranges[k]).0 <= at < ranges[k].1;
                    assert(more[k - 1] == ranges[k]);
                    assert(lies_in(more, at));
                } else if lies_in(more, at) {
                    let k = choose|k: int|
                        0 <= k < more.len() && (#[trigger] more[k]).0 <= at < more[k].1;
                    assert(ranges[k + 1] == more[k]);
                }
            }
        }
        assert(shown =~= parts);
        assert(pieces_painted(linked_text(output, text, ranges, from, style)) =~= pieces_painted(
            output,
        ) + shown);
    }
}

/// The addresses in a text look like links, and the rest of it has the style of the text.
pub proof fn law_addresses_look_like_links(
    output: Seq<PieceText>,
    text: Seq<char>,
    style: TextStyle,
)
    ensures
        pieces_painted(text_pushed(output, text, style)) == pieces_painted(output) + with_links(
            text,
            urls_of(text),
            0,
            style,
        ),
{
    law_urls_are_ordered(text, 0);
    lemma_linked_painted(output, text, urls_of(text), 0, style);
}

} // verus!
