//! Lines keep within their columns where texts side by side take up no more than one by one.

use vstd::prelude::*;

use crate::agent_markdown_renderer::alignment::cells_fit;
use crate::agent_markdown_renderer::alignment::framed_width;
use crate::agent_markdown_renderer::alignment::law_framed_lines_are_aligned;
use crate::agent_markdown_renderer::alignment::table_fits;
use crate::agent_markdown_renderer::frames::cell_pieces;
use crate::agent_markdown_renderer::frames::framed;
use crate::agent_markdown_renderer::frames::lemma_part_of_sum;
use crate::agent_markdown_renderer::frames::row_cells;
use crate::agent_markdown_renderer::inline::all_lines;
use crate::agent_markdown_renderer::inline::all_restyled;
use crate::agent_markdown_renderer::inline::at_least_one;
use crate::agent_markdown_renderer::inline::cluster_scanned;
use crate::agent_markdown_renderer::inline::clusters_scanned;
use crate::agent_markdown_renderer::inline::columns_left;
use crate::agent_markdown_renderer::inline::fitting_units;
use crate::agent_markdown_renderer::inline::line_finished;
use crate::agent_markdown_renderer::inline::piece_scanned;
use crate::agent_markdown_renderer::inline::pieces_scanned;
use crate::agent_markdown_renderer::inline::tokens_of;
use crate::agent_markdown_renderer::inline::tokens_wrapped;
use crate::agent_markdown_renderer::inline::trimmed_line_finished;
use crate::agent_markdown_renderer::inline::units_pushed;
use crate::agent_markdown_renderer::inline::word_flushed;
use crate::agent_markdown_renderer::inline::word_laid;
use crate::agent_markdown_renderer::inline::word_start;
use crate::agent_markdown_renderer::inline::wrapped;
use crate::agent_markdown_renderer::inline::Laid;
use crate::agent_markdown_renderer::inline::PieceText;
use crate::agent_markdown_renderer::inline::Scan;
use crate::agent_markdown_renderer::inline::TokenText;
use crate::agent_markdown_renderer::literal::cluster_laid;
use crate::agent_markdown_renderer::literal::clusters_laid;
use crate::agent_markdown_renderer::literal::ends_with_break;
use crate::agent_markdown_renderer::literal::literal_broken;
use crate::agent_markdown_renderer::literal::literal_lines;
use crate::agent_markdown_renderer::literal::literal_start;
use crate::agent_markdown_renderer::literal::literal_wrapped;
use crate::agent_markdown_renderer::literal::shown_cluster;
use crate::agent_markdown_renderer::literal::shown_laid;
use crate::agent_markdown_renderer::literal::without_controls;
use crate::agent_markdown_renderer::literal::Literal;
use crate::agent_markdown_renderer::measure::clusters;
use crate::agent_markdown_renderer::measure::is_plain_char;
use crate::agent_markdown_renderer::measure::is_plain_text;
use crate::agent_markdown_renderer::measure::joined;
use crate::agent_markdown_renderer::measure::law_clusters_divide;
use crate::agent_markdown_renderer::measure::single_chars;
use crate::agent_markdown_renderer::measure::text_width;
use crate::agent_markdown_renderer::measure::total_width;
use crate::agent_markdown_renderer::style::bold_style;
use crate::agent_markdown_renderer::style::TextStyle;
use crate::agent_markdown_renderer::styled::is_no_wider_than_clusters;
use crate::agent_markdown_renderer::styled::line_end_trimmed;
use crate::agent_markdown_renderer::styled::pushed;
use crate::agent_markdown_renderer::styled::span_columns;
use crate::agent_markdown_renderer::styled::SpanText;
use crate::agent_markdown_renderer::table::law_table_fits;
use crate::agent_markdown_renderer::table::widths_of;
use crate::agent_markdown_renderer::table::TableText;
use crate::text::trimmed_end;

verus! {

/// Whether each character of `text` is one of `chars`.
pub open spec fn is_made_of(text: Seq<char>, chars: Set<char>) -> bool {
    forall|i: int| 0 <= i < text.len() ==> chars.contains(#[trigger] text[i])
}

/// Whether texts made of `chars`, among them the space and the ellipsis, take up no more columns
/// side by side than one by one, and no more without what stands behind them.
pub open spec fn add_up(chars: Set<char>) -> bool {
    &&& chars.contains(' ')
    &&& chars.contains('…')
    &&& forall|a: Seq<char>, b: Seq<char>|
        is_made_of(a, chars) && is_made_of(b, chars) ==> text_width(a) <= #[trigger] text_width(
            a + b,
        ) <= text_width(a) + text_width(b)
}

/// Whether the text of each span of `line` is made of `chars`.
pub open spec fn is_line_of(line: Seq<SpanText>, chars: Set<char>) -> bool {
    forall|i: int| 0 <= i < line.len() ==> is_made_of((#[trigger] line[i]).text, chars)
}

/// Whether the text of each of `pieces` is made of `chars`.
pub open spec fn are_pieces_of(pieces: Seq<PieceText>, chars: Set<char>) -> bool {
    forall|i: int|
        0 <= i < pieces.len() ==> ((#[trigger] pieces[i]) matches PieceText::Span(span)
            ==> is_made_of(span.text, chars))
}

/// The characters that take up one column each and combine with nothing.
pub open spec fn plain_chars() -> Set<char> {
    Set::new(|c: char| is_plain_char(c))
}

/// Plain texts take up as much side by side as one by one.
pub proof fn law_plain_texts_add_up()
    ensures
        add_up(plain_chars()),
{
    let chars = plain_chars();
    assert forall|a: Seq<char>, b: Seq<char>|
        is_made_of(a, chars) && is_made_of(b, chars) implies text_width(a) <= #[trigger] text_width(
        a + b,
    ) <= text_width(a) + text_width(b) by {
        assert forall|i: int| 0 <= i < a.len() implies is_plain_char(#[trigger] a[i]) by {
            assert(chars.contains(a[i]));
        }
        assert forall|i: int| 0 <= i < b.len() implies is_plain_char(#[trigger] b[i]) by {
            assert(chars.contains(b[i]));
        }
        assert(is_plain_text(a) && is_plain_text(b) && is_plain_text(a + b));
    }
}

/// A line of plain text is no wider than its clusters.
pub proof fn law_plain_lines_are_their_clusters(line: Seq<SpanText>)
    requires
        is_line_of(line, plain_chars()),
    ensures
        is_no_wider_than_clusters(line),
{
    assert forall|i: int| 0 <= i < line.len() implies text_width((#[trigger] line[i]).text)
        <= total_width(clusters(line[i].text)) by {
        let text = line[i].text;
        assert(is_made_of(text, plain_chars()));
        assert forall|j: int| 0 <= j < text.len() implies is_plain_char(#[trigger] text[j]) by {
            assert(plain_chars().contains(text[j]));
        }
        lemma_plain_clusters(text);
    }
}

proof fn lemma_plain_clusters(text: Seq<char>)
    requires
        is_plain_text(text),
    ensures
        total_width(single_chars(text)) == text.len(),
    decreases text.len(),
{
    if text.len() > 0 {
        lemma_plain_clusters(text.drop_last());
        assert(single_chars(text).drop_last() =~= single_chars(text.drop_last()));
        assert(is_plain_char(text[text.len() - 1]));
        assert(is_plain_text(single_chars(text).last()));
    }
}

/// Pushing a text adds no more columns than its own.
pub proof fn lemma_pushed_fits(line: Seq<SpanText>, text: Seq<char>, style: TextStyle, chars: Set<char>)
    requires
        add_up(chars),
        is_line_of(line, chars),
        is_made_of(text, chars),
    ensures
        is_line_of(pushed(line, text, style), chars),
        span_columns(pushed(line, text, style)) <= span_columns(line) + text_width(text),
{
    let after = pushed(line, text, style);
    if text.len() > 0 {
        if line.len() > 0 && line.last().style == style {
            let last = line.last().text;
            assert(is_made_of(line[line.len() - 1].text, chars));
            assert(text_width(last + text) <= text_width(last) + text_width(text));
            assert(after.drop_last() =~= line.drop_last());
            assert(is_made_of(last + text, chars));
        } else {
            assert(after.drop_last() =~= line);
        }
        assert forall|i: int| 0 <= i < after.len() implies is_made_of(
            (#[trigger] after[i]).text,
            chars,
        ) by {
            if i < after.len() - 1 {
                assert(after[i] == line[i]);
            }
        }
    }
}

proof fn lemma_trimmed_text(text: Seq<char>)
    ensures
        trimmed_end(text).len() <= text.len(),
        trimmed_end(text) == text.take(trimmed_end(text).len() as int),
    decreases text.len(),
{
    lemma_trimmed_length(text);
    if text.len() > 0 && trimmed_end(text) != text {
        lemma_trimmed_text(text.drop_last());
        let kept = trimmed_end(text.drop_last());
        assert(trimmed_end(text) == kept);
        assert(text.drop_last().take(kept.len() as int) =~= text.take(kept.len() as int));
    } else {
        assert(text.take(text.len() as int) =~= text);
    }
}

proof fn lemma_trimmed_length(text: Seq<char>)
    ensures
        trimmed_end(text).len() <= text.len(),
    decreases text.len(),
{
    if text.len() > 0 {
        lemma_trimmed_length(text.drop_last());
    }
}

proof fn lemma_trimmed_fits(line: Seq<SpanText>, chars: Set<char>)
    requires
        add_up(chars),
        is_line_of(line, chars),
    ensures
        is_line_of(line_end_trimmed(line), chars),
        span_columns(line_end_trimmed(line)) <= span_columns(line),
    decreases line.len(),
{
    if line.len() > 0 {
        let text = line.last().text;
        let kept = trimmed_end(text);
        assert(is_made_of(line[line.len() - 1].text, chars));
        lemma_trimmed_text(text);
        if kept.len() == 0 {
            lemma_trimmed_fits(line.drop_last(), chars);
        } else {
            let rest = text.skip(kept.len() as int);
            assert(kept + rest =~= text);
            assert(is_made_of(kept, chars) && is_made_of(rest, chars));
            assert(text_width(kept) <= text_width(kept + rest));
            let after = line_end_trimmed(line);
            assert(after.drop_last() =~= line.drop_last());
            assert forall|i: int| 0 <= i < after.len() implies is_made_of(
                (#[trigger] after[i]).text,
                chars,
            ) by {
                if i < after.len() - 1 {
                    assert(after[i] == line[i]);
                }
            }
        }
    }
}

/// Whether each of `lines` is made of `chars` and takes up at most `width` columns.
spec fn all_fit(lines: Seq<Seq<SpanText>>, width: int, chars: Set<char>) -> bool {
    forall|i: int|
        0 <= i < lines.len() ==> is_line_of(#[trigger] lines[i], chars) && span_columns(lines[i])
            <= width
}

spec fn laid_fits(laid: Laid, width: int, chars: Set<char>) -> bool {
    all_fit(laid.lines, width, chars) && is_line_of(laid.line, chars) && span_columns(laid.line)
        <= width
}

proof fn lemma_finished_fits(laid: Laid, width: int, chars: Set<char>)
    requires
        0 <= width,
        laid_fits(laid, width, chars),
    ensures
        laid_fits(line_finished(laid), width, chars),
{
    let after = line_finished(laid);
    assert forall|i: int| 0 <= i < after.lines.len() implies is_line_of(
        #[trigger] after.lines[i],
        chars,
    ) && span_columns(after.lines[i]) <= width by {
        if i < laid.lines.len() {
            assert(after.lines[i] == laid.lines[i]);
        }
    }
}

proof fn lemma_fitting_units(units: Seq<SpanText>, available: int)
    requires
        0 <= available,
    ensures
        0 <= fitting_units(units, available) <= units.len(),
        span_columns(units.take(fitting_units(units, available) as int)) <= available,
    decreases units.len(),
{
    let count = fitting_units(units, available) as int;
    if units.len() > 0 && text_width(units[0].text) <= available {
        let left = available - text_width(units[0].text);
        let rest = units.drop_first();
        lemma_fitting_units(rest, left);
        lemma_first_columns(units.take(count));
        assert(units.take(count).drop_first() =~= rest.take(count - 1));
    } else {
        assert(units.take(count) =~= Seq::empty());
    }
}

/// The columns of a line are those of its first span and those of the others.
pub proof fn lemma_first_columns(line: Seq<SpanText>)
    requires
        line.len() > 0,
    ensures
        span_columns(line) == text_width(line[0].text) + span_columns(line.drop_first()),
    decreases line.len(),
{
    if line.len() == 1 {
        assert(span_columns(line.drop_last()) == 0);
        assert(span_columns(line.drop_first()) == 0);
    } else {
        lemma_first_columns(line.drop_last());
        assert(line.drop_last().drop_first() =~= line.drop_first().drop_last());
    }
}

/// Pushing units adds no more columns than theirs.
pub proof fn lemma_units_fit(line: Seq<SpanText>, units: Seq<SpanText>, chars: Set<char>)
    requires
        add_up(chars),
        is_line_of(line, chars),
        is_line_of(units, chars),
    ensures
        is_line_of(units_pushed(line, units), chars),
        span_columns(units_pushed(line, units)) <= span_columns(line) + span_columns(units),
    decreases units.len(),
{
    if units.len() > 0 {
        let rest = units.drop_last();
        assert forall|i: int| 0 <= i < rest.len() implies is_made_of(
            (#[trigger] rest[i]).text,
            chars,
        ) by {
            assert(rest[i] == units[i]);
        }
        lemma_units_fit(line, rest, chars);
        assert(is_made_of(units[units.len() - 1].text, chars));
        lemma_pushed_fits(
            units_pushed(line, rest),
            units.last().text,
            units.last().style,
            chars,
        );
    }
}

/// The ellipsis and the space take up one column each.
pub proof fn lemma_ellipsis(chars: Set<char>)
    requires
        add_up(chars),
    ensures
        is_made_of("…"@, chars),
        text_width("…"@) == 1,
        is_made_of(" "@, chars),
        text_width(" "@) == 1,
{
    reveal_strlit("…");
    reveal_strlit(" ");
    assert(is_plain_text("…"@));
    assert(is_plain_text(" "@));
}

proof fn lemma_part_of_line(units: Seq<SpanText>, from: int, to: int, chars: Set<char>)
    requires
        0 <= from <= to <= units.len(),
        is_line_of(units, chars),
    ensures
        is_line_of(units.subrange(from, to), chars),
{
    let part = units.subrange(from, to);
    assert forall|i: int| 0 <= i < part.len() implies is_made_of((#[trigger] part[i]).text, chars) by {
        assert(part[i] == units[from + i]);
    }
}

proof fn lemma_word_fits(laid: Laid, units: Seq<SpanText>, width: int, chars: Set<char>)
    requires
        add_up(chars),
        1 <= width <= usize::MAX,
        laid_fits(laid, width, chars),
        is_line_of(units, chars),
    ensures
        laid_fits(word_laid(laid, units, width), width, chars),
    decreases units.len(), (if span_columns(laid.line) > 0 { 1int } else { 0int }),
{
    if units.len() > 0 {
        let available = columns_left(laid.line, width);
        let count = fitting_units(units, available) as int;
        lemma_fitting_units(units, available);
        if count == 0 {
            if span_columns(laid.line) > 0 {
                lemma_finished_fits(laid, width, chars);
                lemma_word_fits(line_finished(laid), units, width, chars);
            } else {
                lemma_ellipsis(chars);
                lemma_pushed_fits(laid.line, "…"@, units[0].style, chars);
                let cut = Laid { line: pushed(laid.line, "…"@, units[0].style), ..laid };
                lemma_finished_fits(cut, width, chars);
                lemma_part_of_line(units, 1, units.len() as int, chars);
                assert(units.drop_first() =~= units.subrange(1, units.len() as int));
                lemma_word_fits(line_finished(cut), units.drop_first(), width, chars);
            }
        } else {
            let taken = units.take(count);
            lemma_part_of_line(units, 0, count, chars);
            assert(taken =~= units.subrange(0, count));
            lemma_units_fit(laid.line, taken, chars);
            let filled = Laid { line: units_pushed(laid.line, taken), ..laid };
            if count < units.len() {
                lemma_finished_fits(filled, width, chars);
                lemma_part_of_line(units, count, units.len() as int, chars);
                assert(units.skip(count) =~= units.subrange(count, units.len() as int));
                lemma_word_fits(line_finished(filled), units.skip(count), width, chars);
            }
        }
    }
}

/// Whether the units of each word of `tokens` are made of `chars`.
spec fn are_tokens_of(tokens: Seq<TokenText>, chars: Set<char>) -> bool {
    forall|i: int|
        0 <= i < tokens.len() ==> ((#[trigger] tokens[i]) matches TokenText::Word(units)
            ==> is_line_of(units, chars))
}

proof fn lemma_tokens_fit(tokens: Seq<TokenText>, width: int, chars: Set<char>)
    requires
        add_up(chars),
        1 <= width <= usize::MAX,
        are_tokens_of(tokens, chars),
    ensures
        laid_fits(tokens_wrapped(tokens, width).laid, width, chars),
    decreases tokens.len(),
{
    if tokens.len() > 0 {
        let rest = tokens.drop_last();
        assert forall|i: int| 0 <= i < rest.len() implies ((#[trigger] rest[i]) matches
            TokenText::Word(units) ==> is_line_of(units, chars)) by {
            assert(rest[i] == tokens[i]);
        }
        lemma_tokens_fit(rest, width, chars);
        let wrap = tokens_wrapped(rest, width);
        let laid = wrap.laid;
        let token = tokens[tokens.len() - 1];
        assert(token == tokens.last());
        lemma_trimmed_fits(laid.line, chars);
        let trimmed = Laid { line: line_end_trimmed(laid.line), ..laid };
        lemma_finished_fits(trimmed, width, chars);
        assert(trimmed_line_finished(laid) == line_finished(trimmed));
        if let TokenText::Word(units) = token {
            lemma_ellipsis(chars);
            if wrap.pending is Some {
                lemma_pushed_fits(laid.line, " "@, wrap.pending->0, chars);
            }
            let start = word_start(wrap, span_columns(units), width);
            assert(laid_fits(start, width, chars));
            lemma_word_fits(start, units, width, chars);
        }
    }
}

spec fn is_scan_of(scan: Scan, chars: Set<char>) -> bool {
    are_tokens_of(scan.tokens, chars) && is_line_of(scan.word, chars)
}

proof fn lemma_flushed(scan: Scan, chars: Set<char>)
    requires
        is_scan_of(scan, chars),
    ensures
        is_scan_of(word_flushed(scan), chars),
{
}

proof fn lemma_cluster_scanned(scan: Scan, cluster: Seq<char>, style: TextStyle, chars: Set<char>)
    requires
        is_scan_of(scan, chars),
        is_made_of(cluster, chars),
    ensures
        is_scan_of(cluster_scanned(scan, cluster, style), chars),
{
    lemma_flushed(scan, chars);
}

proof fn lemma_parts_of(parts: Seq<Seq<char>>, chars: Set<char>)
    requires
        is_made_of(joined(parts), chars),
    ensures
        forall|i: int| 0 <= i < parts.len() ==> is_made_of(#[trigger] parts[i], chars),
    decreases parts.len(),
{
    if parts.len() > 0 {
        let all = joined(parts);
        let before = joined(parts.drop_last());
        assert forall|i: int| 0 <= i < before.len() implies chars.contains(#[trigger] before[i]) by {
            assert(all[i] == before[i]);
        }
        lemma_parts_of(parts.drop_last(), chars);
        assert forall|i: int| 0 <= i < parts.len() implies is_made_of(#[trigger] parts[i], chars) by {
            if i < parts.len() - 1 {
                assert(parts[i] == parts.drop_last()[i]);
            } else {
                assert forall|j: int| 0 <= j < parts[i].len() implies chars.contains(
                    #[trigger] parts[i][j],
                ) by {
                    assert(all[before.len() + j] == parts[i][j]);
                }
            }
        }
    }
}

proof fn lemma_clusters_scanned(
    scan: Scan,
    parts: Seq<Seq<char>>,
    style: TextStyle,
    chars: Set<char>,
)
    requires
        is_scan_of(scan, chars),
        forall|i: int| 0 <= i < parts.len() ==> is_made_of(#[trigger] parts[i], chars),
    ensures
        is_scan_of(clusters_scanned(scan, parts, style), chars),
    decreases parts.len(),
{
    if parts.len() > 0 {
        let rest = parts.drop_last();
        assert forall|i: int| 0 <= i < rest.len() implies is_made_of(#[trigger] rest[i], chars) by {
            assert(rest[i] == parts[i]);
        }
        lemma_clusters_scanned(scan, rest, style, chars);
        assert(is_made_of(parts[parts.len() - 1], chars));
        lemma_cluster_scanned(clusters_scanned(scan, rest, style), parts.last(), style, chars);
    }
}

proof fn lemma_clusters_of(text: Seq<char>, chars: Set<char>)
    requires
        is_made_of(text, chars),
    ensures
        forall|i: int|
            0 <= i < clusters(text).len() ==> is_made_of(#[trigger] clusters(text)[i], chars),
{
    law_clusters_divide(text);
    lemma_parts_of(clusters(text), chars);
}

proof fn lemma_pieces_scanned(pieces: Seq<PieceText>, chars: Set<char>)
    requires
        are_pieces_of(pieces, chars),
    ensures
        is_scan_of(pieces_scanned(pieces), chars),
    decreases pieces.len(),
{
    if pieces.len() > 0 {
        let rest = pieces.drop_last();
        assert forall|i: int| 0 <= i < rest.len() implies ((#[trigger] rest[i]) matches
            PieceText::Span(span) ==> is_made_of(span.text, chars)) by {
            assert(rest[i] == pieces[i]);
        }
        lemma_pieces_scanned(rest, chars);
        let scan = pieces_scanned(rest);
        let piece = pieces[pieces.len() - 1];
        assert(piece == pieces.last());
        assert(pieces_scanned(pieces) == piece_scanned(scan, piece));
        lemma_flushed(scan, chars);
        if let PieceText::Span(span) = piece {
            lemma_clusters_of(span.text, chars);
            lemma_clusters_scanned(scan, clusters(span.text), span.style, chars);
        }
    }
}

/// Wrapped lines keep within the columns that there are, provided that texts made of the
/// characters of the pieces take up no more side by side than one by one.
pub proof fn law_wrapped_lines_fit(pieces: Seq<PieceText>, width: int, chars: Set<char>)
    requires
        width <= usize::MAX,
        are_pieces_of(pieces, chars),
        add_up(chars),
    ensures
        forall|i: int|
            0 <= i < wrapped(pieces, width).len() ==> span_columns(
                #[trigger] wrapped(pieces, width)[i],
            ) <= at_least_one(width),
{
    let columns = at_least_one(width);
    lemma_pieces_scanned(pieces, chars);
    lemma_flushed(pieces_scanned(pieces), chars);
    lemma_tokens_fit(tokens_of(pieces), columns, chars);
    let laid = tokens_wrapped(tokens_of(pieces), columns).laid;
    lemma_trimmed_fits(laid.line, chars);
    let lines = all_lines(laid);
    assert(lines == wrapped(pieces, width));
    assert forall|i: int| 0 <= i < lines.len() implies span_columns(#[trigger] lines[i])
        <= columns by {
        if i < laid.lines.len() {
            assert(lines[i] == laid.lines[i]);
        }
    }
}

/// Whether the pieces of each cell of `table` are made of `chars`.
pub open spec fn is_table_of(table: TableText, chars: Set<char>) -> bool {
    forall|i: int, j: int|
        0 <= i < table.rows.len() && 0 <= j < table.rows[i].len() ==> are_pieces_of(
            #[trigger] table.rows[i][j],
            chars,
        )
}

/// The cells of a framed table keep within their columns, so that all of its lines are as wide as
/// each other and fit into the width that it is given, provided that texts made of their
/// characters take up no more side by side than one by one.
pub proof fn law_tables_keep_within_their_columns(table: TableText, width: int, chars: Set<char>)
    requires
        table.column_count > 0,
        6 * table.column_count + 1 <= width <= usize::MAX,
        is_table_of(table, chars),
        add_up(chars),
    ensures
        table_fits(table, width),
        framed_width(widths_of(table, width)) <= width,
        forall|i: int|
            0 <= i < framed(table, width).len() ==> span_columns(
                #[trigger] framed(table, width)[i],
            ) == framed_width(widths_of(table, width)),
{
    let widths = widths_of(table, width);
    law_table_fits(table, width);
    lemma_part_of_sum(widths);
    assert forall|i: int| 0 <= i < table.rows.len() implies cells_fit(
        row_cells(#[trigger] table.rows[i], widths, i == 0 && table.has_header),
        widths,
    ) by {
        let header = i == 0 && table.has_header;
        let row = table.rows[i];
        let cells = row_cells(row, widths, header);
        assert forall|column: int, index: int|
            0 <= column < cells.len() && 0 <= index < cells[column].len() implies span_columns(
            #[trigger] cells[column][index],
        ) <= widths[column] by {
            let pieces = cell_pieces(row, column, header);
            assert(are_pieces_of(pieces, chars)) by {
                if column < row.len() {
                    assert(are_pieces_of(table.rows[i][column], chars));
                    lemma_restyled(row[column], chars);
                }
            }
            assert(3 <= widths[column]);
            law_wrapped_lines_fit(pieces, widths[column], chars);
            assert(cells[column] == wrapped(pieces, widths[column]));
        }
    }
    law_framed_lines_are_aligned(table, width);
}

proof fn lemma_restyled(pieces: Seq<PieceText>, chars: Set<char>)
    requires
        are_pieces_of(pieces, chars),
    ensures
        are_pieces_of(all_restyled(pieces, bold_style()), chars),
{
    let after = all_restyled(pieces, bold_style());
    assert forall|i: int| 0 <= i < after.len() implies ((#[trigger] after[i]) matches
        PieceText::Span(span) ==> is_made_of(span.text, chars)) by {
        assert(pieces[i] matches PieceText::Span(span) ==> is_made_of(span.text, chars));
    }
}

spec fn literal_fits(literal: Literal, chars: Set<char>) -> bool {
    &&& all_fit(literal.lines, literal.width, chars)
    &&& is_line_of(literal.line, chars)
    &&& span_columns(literal.line) <= literal.column <= literal.width
    &&& 1 <= literal.width
}

proof fn lemma_literal_broken(literal: Literal, chars: Set<char>)
    requires
        literal_fits(literal, chars),
    ensures
        literal_fits(literal_broken(literal), chars),
{
    lemma_finished_fits(
        Laid { lines: literal.lines, line: literal.line },
        literal.width,
        chars,
    );
}

proof fn lemma_shown(cluster: Seq<char>, chars: Set<char>)
    requires
        is_made_of(cluster, chars),
        chars.contains(' '),
    ensures
        is_made_of(shown_cluster(cluster), chars),
{
    reveal_strlit("    ");
    lemma_uncontrolled(cluster, chars);
}

proof fn lemma_uncontrolled(text: Seq<char>, chars: Set<char>)
    requires
        is_made_of(text, chars),
    ensures
        is_made_of(without_controls(text), chars),
    decreases text.len(),
{
    if text.len() > 0 {
        let rest = text.drop_last();
        assert forall|i: int| 0 <= i < rest.len() implies chars.contains(#[trigger] rest[i]) by {
            assert(rest[i] == text[i]);
        }
        lemma_uncontrolled(rest, chars);
        assert(chars.contains(text[text.len() - 1]));
    }
}

proof fn lemma_literal_laid(
    literal: Literal,
    parts: Seq<Seq<char>>,
    style: TextStyle,
    chars: Set<char>,
)
    requires
        add_up(chars),
        literal_fits(literal, chars),
        forall|i: int| 0 <= i < parts.len() ==> is_made_of(#[trigger] parts[i], chars),
    ensures
        literal_fits(clusters_laid(literal, parts, style), chars),
        clusters_laid(literal, parts, style).width == literal.width,
    decreases parts.len(),
{
    if parts.len() > 0 {
        let rest = parts.drop_last();
        assert forall|i: int| 0 <= i < rest.len() implies is_made_of(#[trigger] rest[i], chars) by {
            assert(rest[i] == parts[i]);
        }
        lemma_literal_laid(literal, rest, style, chars);
        let now = clusters_laid(literal, rest, style);
        let cluster = parts[parts.len() - 1];
        assert(cluster == parts.last());
        let shown = shown_cluster(cluster);
        lemma_shown(cluster, chars);
        lemma_literal_broken(now, chars);
        let at = if now.column + text_width(shown) > now.width && now.column > 0 {
            literal_broken(now)
        } else {
            now
        };
        lemma_ellipsis(chars);
        lemma_pushed_fits(at.line, shown, style, chars);
        lemma_pushed_fits(at.line, "…"@, style, chars);
        if text_width(shown) > now.width {
            let cut = Literal { line: pushed(at.line, "…"@, style), column: 1, ..at };
            lemma_literal_broken(cut, chars);
            assert(shown_laid(now, shown, style) == literal_broken(cut));
        }
        assert(clusters_laid(literal, parts, style) == cluster_laid(now, cluster, style));
    }
}

/// Lines of literal text, such as code, keep within the columns that there are, provided that
/// texts made of its characters take up no more side by side than one by one.
pub proof fn law_literal_lines_fit(text: Seq<char>, width: int, style: TextStyle, chars: Set<char>)
    requires
        is_made_of(text, chars),
        add_up(chars),
    ensures
        forall|i: int|
            0 <= i < literal_wrapped(text, width, style).len() ==> span_columns(
                #[trigger] literal_wrapped(text, width, style)[i],
            ) <= at_least_one(width),
{
    let start = literal_start(width);
    lemma_clusters_of(text, chars);
    lemma_literal_laid(start, clusters(text), style, chars);
    let literal = clusters_laid(start, clusters(text), style);
    let lines = literal_lines(literal, ends_with_break(text));
    assert(lines == literal_wrapped(text, width, style));
    assert forall|i: int| 0 <= i < lines.len() implies span_columns(#[trigger] lines[i])
        <= at_least_one(width) by {
        if i < literal.lines.len() {
            assert(lines[i] == literal.lines[i]);
        }
    }
}

} // verus!
