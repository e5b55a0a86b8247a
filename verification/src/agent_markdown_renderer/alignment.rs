//! Frames and what they frame line up.

use vstd::prelude::*;

use crate::agent_markdown_renderer::document::Alignment;
use crate::agent_markdown_renderer::frames::border_style;
use crate::agent_markdown_renderer::frames::boxed;
use crate::agent_markdown_renderer::frames::cell_line;
use crate::agent_markdown_renderer::frames::cell_pieces;
use crate::agent_markdown_renderer::frames::frame_line;
use crate::agent_markdown_renderer::frames::framed;
use crate::agent_markdown_renderer::frames::framed_rows;
use crate::agent_markdown_renderer::frames::lemma_part_of_sum;
use crate::agent_markdown_renderer::frames::row_cells;
use crate::agent_markdown_renderer::frames::row_line;
use crate::agent_markdown_renderer::frames::row_lines;
use crate::agent_markdown_renderer::measure::is_plain_text;
use crate::agent_markdown_renderer::measure::law_spaces_add_up;
use crate::agent_markdown_renderer::measure::text_width;
use crate::agent_markdown_renderer::renderer::code_bottom;
use crate::agent_markdown_renderer::style::plain_style;
use crate::agent_markdown_renderer::style::TextStyle;
use crate::agent_markdown_renderer::styled::is_merged;
use crate::agent_markdown_renderer::styled::law_lines_stay_merged;
use crate::agent_markdown_renderer::styled::line_appended;
use crate::agent_markdown_renderer::styled::prepended;
use crate::agent_markdown_renderer::styled::pushed;
use crate::agent_markdown_renderer::styled::span_columns;
use crate::agent_markdown_renderer::styled::SpanText;
use crate::agent_markdown_renderer::table::aligned;
use crate::agent_markdown_renderer::table::border_cells;
use crate::agent_markdown_renderer::table::border_text;
use crate::agent_markdown_renderer::table::larger;
use crate::agent_markdown_renderer::table::law_table_fits;
use crate::agent_markdown_renderer::table::padded;
use crate::agent_markdown_renderer::table::padding_of;
use crate::agent_markdown_renderer::table::sum_of;
use crate::agent_markdown_renderer::table::widths_of;
use crate::agent_markdown_renderer::table::TableText;
use crate::agent_markdown_renderer::tidy::all_merged;
use crate::agent_markdown_renderer::tidy::law_wrapped_lines_are_merged;
use crate::text::repeated;

verus! {

/// The columns of a framed table with columns of `widths`: each has a frame and two spaces, and
/// there is one more frame.
pub open spec fn framed_width(widths: Seq<int>) -> int {
    sum_of(widths) + 3 * widths.len() + 1
}

/// Whether each line of each of `cells` takes up at most as many columns as `widths` has for it.
pub open spec fn cells_fit(cells: Seq<Seq<Seq<SpanText>>>, widths: Seq<int>) -> bool {
    forall|column: int, index: int|
        0 <= column < cells.len() && 0 <= index < cells[column].len() ==> span_columns(
            #[trigger] cells[column][index],
        ) <= widths[column]
}

/// Whether the cells of each row of `table` fit into the columns that it has where it may be
/// `width` columns wide.
pub open spec fn table_fits(table: TableText, width: int) -> bool {
    forall|i: int|
        0 <= i < table.rows.len() ==> cells_fit(
            row_cells(#[trigger] table.rows[i], widths_of(table, width), i == 0 && table.has_header),
            widths_of(table, width),
        )
}

proof fn lemma_plain_width(text: Seq<char>)
    requires
        is_plain_text(text),
    ensures
        text_width(text) == text.len(),
{
}

proof fn lemma_span_pushed(line: Seq<SpanText>, span: SpanText)
    ensures
        span_columns(line.push(span)) == span_columns(line) + text_width(span.text),
{
    assert(line.push(span).drop_last() =~= line);
}

proof fn lemma_first_span(line: Seq<SpanText>)
    requires
        line.len() > 0,
    ensures
        span_columns(line) == text_width(line[0].text) + span_columns(line.drop_first()),
    decreases line.len(),
{
    if line.len() == 1 {
        assert(span_columns(line.drop_last()) == 0);
        assert(span_columns(line.drop_first()) == 0);
    } else {
        lemma_first_span(line.drop_last());
        assert(line.drop_last().drop_first() =~= line.drop_first().drop_last());
    }
}

/// Spaces before and behind a line make it as many columns wider.
pub proof fn law_spaces_widen_a_line(line: Seq<SpanText>, n: nat, style: TextStyle)
    ensures
        span_columns(pushed(line, repeated(' ', n), style)) == span_columns(line) + n,
        span_columns(prepended(line, repeated(' ', n), style)) == span_columns(line) + n,
{
    let spaces = repeated(' ', n);
    lemma_plain_width(spaces);
    if n > 0 {
        let back = pushed(line, spaces, style);
        if line.len() > 0 && line.last().style == style {
            law_spaces_add_up(line.last().text, n);
            assert(back.drop_last() =~= line.drop_last());
        } else {
            assert(back.drop_last() =~= line);
        }
        let front = prepended(line, spaces, style);
        lemma_first_span(front);
        if line.len() > 0 && line[0].style == style {
            law_spaces_add_up(line[0].text, n);
            lemma_first_span(line);
            assert(front.drop_first() =~= line.drop_first());
        } else {
            assert(front.drop_first() =~= line);
        }
    }
}

/// A line that is filled up with spaces takes up the columns that it is filled up to, provided
/// that it did not take up more.
pub proof fn law_filled_lines_fit(line: Seq<SpanText>, width: int, alignment: Alignment)
    requires
        span_columns(line) <= width <= usize::MAX,
    ensures
        span_columns(aligned(line, width, alignment)) == width,
        span_columns(padded(line, width)) == width,
{
    let padding = padding_of(line, width);
    let left = match alignment {
        Alignment::Right => padding,
        Alignment::Center => padding / 2,
        _ => 0,
    };
    law_spaces_widen_a_line(line, left as nat, plain_style());
    law_spaces_widen_a_line(
        prepended(line, repeated(' ', left as nat), plain_style()),
        (padding - left) as nat,
        plain_style(),
    );
    law_spaces_widen_a_line(line, padding as nat, plain_style());
}

proof fn lemma_behind_space(line: Seq<SpanText>, cell: Seq<SpanText>)
    requires
        line.len() > 0,
        line.last().text == " "@,
        is_merged(cell),
    ensures
        span_columns(line_appended(line, cell)) == span_columns(line) + span_columns(cell),
        line_appended(line, cell).len() > 0,
        line_appended(line, cell).last().style == (if cell.len() > 0 {
            cell.last().style
        } else {
            line.last().style
        }),
    decreases cell.len(),
{
    reveal_strlit(" ");
    if cell.len() > 0 {
        let last = cell.last();
        let rest = cell.drop_last();
        let before = line_appended(line, rest);
        assert(cell[cell.len() - 1].text.len() > 0);
        lemma_behind_space(line, rest);
        if rest.len() > 0 {
            assert(cell[cell.len() - 2].style != cell[cell.len() - 1].style);
            assert(rest.last() == cell[cell.len() - 2]);
            lemma_span_pushed(before, last);
        } else if line.last().style == last.style {
            law_spaces_add_up(last.text, 1);
            assert(" "@ =~= repeated(' ', 1));
            lemma_plain_width(" "@);
            lemma_span_pushed(
                line.drop_last(),
                SpanText { text: " "@ + last.text, style: last.style },
            );
            assert(span_columns(line) == span_columns(line.drop_last()) + 1);
            assert(span_columns(rest) == 0);
        } else {
            lemma_span_pushed(line, last);
            assert(span_columns(rest) == 0);
        }
    }
}

proof fn lemma_taken_sum(widths: Seq<int>, count: int)
    requires
        0 < count <= widths.len(),
    ensures
        sum_of(widths.take(count)) == sum_of(widths.take(count - 1)) + widths[count - 1],
{
    assert(widths.take(count).drop_last() =~= widths.take(count - 1));
}

proof fn lemma_row_line(
    cells: Seq<Seq<Seq<SpanText>>>,
    widths: Seq<int>,
    alignments: Seq<Alignment>,
    index: int,
    count: int,
)
    requires
        0 <= count <= widths.len() == cells.len(),
        0 <= index,
        cells_fit(cells, widths),
        forall|i: int| 0 <= i < widths.len() ==> 0 <= #[trigger] widths[i] <= usize::MAX,
        forall|i: int| 0 <= i < cells.len() ==> all_merged(#[trigger] cells[i]),
    ensures
        span_columns(row_line(cells, widths, alignments, index, count)) == sum_of(
            widths.take(count),
        ) + 3 * count + 1,
        row_line(cells, widths, alignments, index, count).len() > 0,
        row_line(cells, widths, alignments, index, count).last().style == border_style(),
    decreases count,
{
    reveal_strlit("│");
    reveal_strlit(" ");
    lemma_plain_width("│"@);
    lemma_plain_width(" "@);
    if count == 0 {
        lemma_span_pushed(Seq::empty(), SpanText { text: "│"@, style: border_style() });
        assert(widths.take(0) =~= Seq::empty());
    } else {
        lemma_row_line(cells, widths, alignments, index, count - 1);
        lemma_taken_sum(widths, count);
        let before = row_line(cells, widths, alignments, index, count - 1);
        let line = cell_line(cells[count - 1], index);
        let width = widths[count - 1];
        let alignment = alignments[count - 1];
        assert(all_merged(cells[count - 1]));
        assert(is_merged(line));
        assert(span_columns(line) <= width) by {
            if index < cells[count - 1].len() {
                assert(span_columns(cells[count - 1][index]) <= width);
            }
        }
        law_filled_lines_fit(line, width, alignment);
        let cell = aligned(line, width, alignment);
        assert(is_merged(cell)) by {
            let padding = padding_of(line, width);
            let left = match alignment {
                Alignment::Right => padding,
                Alignment::Center => padding / 2,
                _ => 0,
            };
            law_lines_stay_merged(line, repeated(' ', left as nat), plain_style());
            law_lines_stay_merged(
                prepended(line, repeated(' ', left as nat), plain_style()),
                repeated(' ', (padding - left) as nat),
                plain_style(),
            );
        }
        let spaced = pushed(before, " "@, plain_style());
        assert(" "@ =~= repeated(' ', 1));
        law_spaces_widen_a_line(before, 1, plain_style());
        assert(spaced.last() == (SpanText { text: " "@, style: plain_style() }));
        lemma_behind_space(spaced, cell);
        let filled = line_appended(spaced, cell);
        law_spaces_widen_a_line(filled, 1, plain_style());
        let closed = pushed(filled, " "@, plain_style());
        assert(closed.last().style == plain_style());
        lemma_span_pushed(closed, SpanText { text: "│"@, style: border_style() });
    }
}

proof fn lemma_border_cells(middle: char, right: char, widths: Seq<int>, count: int)
    requires
        '\u{2500}' <= middle <= '\u{257f}',
        '\u{2500}' <= right <= '\u{257f}',
        0 <= count <= widths.len(),
        forall|i: int| 0 <= i < widths.len() ==> 0 <= #[trigger] widths[i],
    ensures
        is_plain_text(border_cells(middle, right, widths, count)),
        border_cells(middle, right, widths, count).len() == sum_of(widths.take(count)) + 3 * count,
    decreases count,
{
    if count > 0 {
        lemma_border_cells(middle, right, widths, count - 1);
        lemma_taken_sum(widths, count);
        assert(0 <= widths[count - 1]);
    } else {
        assert(widths.take(0) =~= Seq::empty());
    }
}

proof fn lemma_frame_line(left: char, middle: char, right: char, widths: Seq<int>)
    requires
        '\u{2500}' <= left <= '\u{257f}',
        '\u{2500}' <= middle <= '\u{257f}',
        '\u{2500}' <= right <= '\u{257f}',
        forall|i: int| 0 <= i < widths.len() ==> 0 <= #[trigger] widths[i],
    ensures
        span_columns(frame_line(left, middle, right, widths)) == framed_width(widths),
{
    let text = border_text(left, middle, right, widths);
    lemma_border_cells(middle, right, widths, widths.len() as int);
    assert(widths.take(widths.len() as int) =~= widths);
    assert(is_plain_text(text));
    lemma_plain_width(text);
    let line = frame_line(left, middle, right, widths);
    assert(line =~= Seq::<SpanText>::empty().push(SpanText { text, style: border_style() }));
    lemma_span_pushed(Seq::empty(), SpanText { text, style: border_style() });
}

spec fn all_have_width(lines: Seq<Seq<SpanText>>, width: int) -> bool {
    forall|i: int| 0 <= i < lines.len() ==> span_columns(#[trigger] lines[i]) == width
}

proof fn lemma_framed_rows(table: TableText, widths: Seq<int>, count: int)
    requires
        0 <= count <= table.rows.len(),
        forall|i: int| 0 <= i < widths.len() ==> 0 <= #[trigger] widths[i] <= usize::MAX,
        forall|i: int|
            0 <= i < table.rows.len() ==> cells_fit(
                row_cells(#[trigger] table.rows[i], widths, i == 0 && table.has_header),
                widths,
            ),
    ensures
        all_have_width(framed_rows(table, widths, count), framed_width(widths)),
    decreases count,
{
    if count > 0 {
        lemma_framed_rows(table, widths, count - 1);
        let header = count == 1 && table.has_header;
        let row = table.rows[count - 1];
        let cells = row_cells(row, widths, header);
        let rows = row_lines(cells, widths, table.alignments);
        assert(cells_fit(cells, widths));
        assert forall|i: int| 0 <= i < cells.len() implies all_merged(#[trigger] cells[i]) by {
            law_wrapped_lines_are_merged(cell_pieces(row, i, header), widths[i]);
        }
        assert forall|i: int| 0 <= i < rows.len() implies span_columns(#[trigger] rows[i])
            == framed_width(widths) by {
            lemma_row_line(cells, widths, table.alignments, i, widths.len() as int);
            assert(widths.take(widths.len() as int) =~= widths);
        }
        lemma_frame_line('├', '┼', '┤', widths);
    }
}

/// Every line of a framed table, of its frames and of its rows, is as wide as the others and fits
/// into the width that the table is given, provided that its cells keep within their columns.
pub proof fn law_framed_lines_are_aligned(table: TableText, width: int)
    requires
        table.column_count > 0,
        6 * table.column_count + 1 <= width <= usize::MAX,
        table_fits(table, width),
    ensures
        framed_width(widths_of(table, width)) <= width,
        forall|i: int|
            0 <= i < framed(table, width).len() ==> span_columns(
                #[trigger] framed(table, width)[i],
            ) == framed_width(widths_of(table, width)),
{
    let widths = widths_of(table, width);
    law_table_fits(table, width);
    lemma_part_of_sum(widths);
    assert forall|i: int| 0 <= i < widths.len() implies 0 <= #[trigger] widths[i] <= usize::MAX by {
        assert(3 <= widths[i]);
    }
    lemma_framed_rows(table, widths, table.rows.len() as int);
    lemma_frame_line('┌', '┬', '┐', widths);
    lemma_frame_line('└', '┴', '┘', widths);
    let rows = framed_rows(table, widths, table.rows.len() as int);
    assert(all_have_width(rows, framed_width(widths)));
}

/// A line in a box is as wide as the box, provided that it fits into it and that no part of it is
/// in the style of frames.
pub proof fn law_boxed_lines_are_aligned(line: Seq<SpanText>, inner: int)
    requires
        is_merged(line),
        span_columns(line) <= inner <= usize::MAX,
        forall|i: int| 0 <= i < line.len() ==> (#[trigger] line[i]).style != border_style(),
    ensures
        span_columns(boxed(line, inner)) == inner + 4,
{
    reveal_strlit("│ ");
    reveal_strlit(" │");
    lemma_plain_width("│ "@);
    lemma_plain_width(" │"@);
    law_filled_lines_fit(line, inner, Alignment::Left);
    let spaces = repeated(' ', padding_of(line, inner) as nat);
    law_lines_stay_merged(line, spaces, plain_style());
    let body = padded(line, inner);
    assert forall|i: int| 0 <= i < body.len() implies (#[trigger] body[i]).style
        != border_style() by {
        if i < line.len() {
            assert(line[i].style != border_style());
        }
    }
    let start = pushed(Seq::<SpanText>::empty(), "│ "@, border_style());
    lemma_span_pushed(Seq::empty(), SpanText { text: "│ "@, style: border_style() });
    lemma_apart(start, body);
    let filled = line_appended(start, body);
    if body.len() == 0 {
        assert(filled == start);
        assert(inner == 0);
        let text = "│ "@ + " │"@;
        assert(is_plain_text(text));
        lemma_plain_width(text);
        assert(start.drop_last() =~= Seq::<SpanText>::empty());
        lemma_span_pushed(Seq::empty(), SpanText { text, style: border_style() });
    } else {
        assert(filled.last() == body[body.len() - 1]);
        lemma_span_pushed(filled, SpanText { text: " │"@, style: border_style() });
    }
}

proof fn lemma_apart(line: Seq<SpanText>, other: Seq<SpanText>)
    requires
        is_merged(other),
        line.len() > 0,
        other.len() > 0 ==> line.last().style != other[0].style,
    ensures
        line_appended(line, other) == line + other,
        span_columns(line_appended(line, other)) == span_columns(line) + span_columns(other),
    decreases other.len(),
{
    if other.len() > 0 {
        let rest = other.drop_last();
        let last = other.last();
        assert(other[other.len() - 1].text.len() > 0);
        lemma_apart(line, rest);
        if rest.len() > 0 {
            assert(other[other.len() - 2].style != other[other.len() - 1].style);
        }
        assert(line_appended(line, other) =~= line + other);
        assert((line + other).drop_last() =~= line + rest);
    } else {
        assert(line + other =~= line);
    }
}

/// The lower frame of a code block is as wide as the block.
pub proof fn law_code_bottom_fits(width: int)
    requires
        width >= 1,
    ensures
        span_columns(code_bottom(width)) == width,
{
    reveal_strlit("╰");
    reveal_strlit("╯");
    let middle = repeated('─', larger(0, width - 2) as nat);
    let left = "╰"@ + middle;
    let whole = left + "╯"@;
    lemma_plain_width("╰"@);
    lemma_plain_width(left);
    lemma_plain_width(whole);
    lemma_code_frame("╰"@, middle, "╯"@);
    lemma_pushed_texts("╰"@, middle, "╯"@);
}

proof fn lemma_code_frame(left: Seq<char>, middle: Seq<char>, right: Seq<char>)
    ensures
        span_columns(seq![SpanText { text: left + middle, style: border_style() }]) == text_width(
            left + middle,
        ),
        span_columns(seq![SpanText { text: left + middle + right, style: border_style() }])
            == text_width(left + middle + right),
{
    let a = seq![SpanText { text: left + middle, style: border_style() }];
    let b = seq![SpanText { text: left + middle + right, style: border_style() }];
    assert(span_columns(a.drop_last()) == 0);
    assert(span_columns(b.drop_last()) == 0);
}

proof fn lemma_pushed_texts(left: Seq<char>, middle: Seq<char>, right: Seq<char>)
    requires
        left.len() > 0,
        right.len() > 0,
    ensures
        pushed(pushed(Seq::empty(), left, border_style()), middle, border_style()) == seq![
            SpanText { text: left + middle, style: border_style() },
        ],
        pushed(
            pushed(pushed(Seq::empty(), left, border_style()), middle, border_style()),
            right,
            border_style(),
        ) == seq![SpanText { text: left + middle + right, style: border_style() }],
{
    let start = pushed(Seq::<SpanText>::empty(), left, border_style());
    assert(start =~= seq![SpanText { text: left, style: border_style() }]);
    let next = pushed(start, middle, border_style());
    if middle.len() == 0 {
        assert(left + middle =~= left);
    }
    assert(next =~= seq![SpanText { text: left + middle, style: border_style() }]);
    assert(pushed(next, right, border_style()) =~= seq![
        SpanText { text: left + middle + right, style: border_style() },
    ]);
}

} // verus!
