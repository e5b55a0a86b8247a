//! Tables show their cells: each in its row and its column, aligned as it should be.

use vstd::prelude::*;

use crate::agent_markdown_renderer::content::pieces_of;
use crate::agent_markdown_renderer::document::Alignment;
use crate::agent_markdown_renderer::document::NodeText;
use crate::agent_markdown_renderer::document::TagText;
use crate::agent_markdown_renderer::frames::bare_row;
use crate::agent_markdown_renderer::frames::bare_rows;
use crate::agent_markdown_renderer::frames::border_style;
use crate::agent_markdown_renderer::frames::boxed;
use crate::agent_markdown_renderer::frames::cell_line;
use crate::agent_markdown_renderer::frames::cell_pieces;
use crate::agent_markdown_renderer::frames::frame_line;
use crate::agent_markdown_renderer::frames::framed;
use crate::agent_markdown_renderer::frames::framed_rows;
use crate::agent_markdown_renderer::frames::row_cells;
use crate::agent_markdown_renderer::frames::row_line;
use crate::agent_markdown_renderer::frames::row_lines;
use crate::agent_markdown_renderer::frames::stacked;
use crate::agent_markdown_renderer::frames::stacked_body;
use crate::agent_markdown_renderer::frames::stacked_header;
use crate::agent_markdown_renderer::frames::stacked_row;
use crate::agent_markdown_renderer::frames::stacked_rows;
use crate::agent_markdown_renderer::frames::table_lines;
use crate::agent_markdown_renderer::frames::tallest;
use crate::agent_markdown_renderer::frames::titled_pieces;
use crate::agent_markdown_renderer::inline::largest_width;
use crate::agent_markdown_renderer::inline::restyled;
use crate::agent_markdown_renderer::inline::unlimited_width;
use crate::agent_markdown_renderer::inline::wrapped;
use crate::agent_markdown_renderer::inline::PieceText;
use crate::agent_markdown_renderer::style::bold_style;
use crate::agent_markdown_renderer::style::plain_style;
use crate::agent_markdown_renderer::style::TextStyle;
use crate::agent_markdown_renderer::styled::blank_trimmed;
use crate::agent_markdown_renderer::styled::law_line_text;
use crate::agent_markdown_renderer::styled::line_appended;
use crate::agent_markdown_renderer::styled::line_text;
use crate::agent_markdown_renderer::styled::line_width;
use crate::agent_markdown_renderer::styled::prepended;
use crate::agent_markdown_renderer::styled::pushed;
use crate::agent_markdown_renderer::styled::SpanText;
use crate::agent_markdown_renderer::table::aligned;
use crate::agent_markdown_renderer::table::border_cells;
use crate::agent_markdown_renderer::table::cells_of;
use crate::agent_markdown_renderer::table::grown;
use crate::agent_markdown_renderer::table::is_header;
use crate::agent_markdown_renderer::table::larger;
use crate::agent_markdown_renderer::table::law_grown;
use crate::agent_markdown_renderer::table::law_neediest;
use crate::agent_markdown_renderer::table::lemma_sum_constant;
use crate::agent_markdown_renderer::table::lemma_sum_update;
use crate::agent_markdown_renderer::table::longest_row;
use crate::agent_markdown_renderer::table::minimum_width;
use crate::agent_markdown_renderer::table::neediest;
use crate::agent_markdown_renderer::table::padded;
use crate::agent_markdown_renderer::table::rows_of;
use crate::agent_markdown_renderer::table::shortage;
use crate::agent_markdown_renderer::table::spare_columns;
use crate::agent_markdown_renderer::table::sum_of;
use crate::agent_markdown_renderer::table::table_of;
use crate::agent_markdown_renderer::table::wanted_width;
use crate::agent_markdown_renderer::table::wanted_widths;
use crate::agent_markdown_renderer::table::widths_of;
use crate::agent_markdown_renderer::table::TableText;
use crate::parts::joined_with;
use crate::text::repeated;

verus! {

/// The node of a row whose cells hold `cells`.
pub open spec fn row_node(cells: Seq<Seq<NodeText>>, header: bool) -> NodeText {
    NodeText::Element(
        if header {
            TagText::TableHead
        } else {
            TagText::TableRow
        },
        cells.map_values(
            |children: Seq<NodeText>| NodeText::Element(TagText::TableCell, children),
        ),
    )
}

/// The nodes of a table whose rows hold `rows`, the first of which is the header where there is one.
pub open spec fn table_nodes(rows: Seq<Seq<Seq<NodeText>>>, has_header: bool) -> Seq<NodeText> {
    Seq::new(rows.len(), |i: int| row_node(rows[i], i == 0 && has_header))
}

proof fn lemma_cells_read(cells: Seq<Seq<NodeText>>)
    ensures
        ({
            let nodes = cells.map_values(
                |children: Seq<NodeText>| NodeText::Element(TagText::TableCell, children),
            );
            &&& cells_of(nodes).len() == cells.len()
            &&& forall|i: int|
                0 <= i < cells.len() ==> #[trigger] cells_of(nodes)[i] == pieces_of(
                    cells[i],
                    plain_style(),
                )
        }),
    decreases cells.len(),
{
    let nodes = cells.map_values(
        |children: Seq<NodeText>| NodeText::Element(TagText::TableCell, children),
    );
    if cells.len() > 0 {
        let rest = cells.drop_last();
        lemma_cells_read(rest);
        assert(nodes.drop_last() =~= rest.map_values(
            |children: Seq<NodeText>| NodeText::Element(TagText::TableCell, children),
        ));
        assert(nodes.last() == NodeText::Element(TagText::TableCell, cells.last()));
        assert forall|i: int| 0 <= i < cells.len() implies #[trigger] cells_of(nodes)[i]
            == pieces_of(cells[i], plain_style()) by {
            if i < rest.len() {
                assert(cells_of(nodes)[i] == cells_of(nodes.drop_last())[i]);
            }
        }
    }
}

/// A table holds each cell in its row and its column, and nothing else.
pub proof fn law_tables_hold_their_cells(
    rows: Seq<Seq<Seq<NodeText>>>,
    has_header: bool,
    row: int,
    column: int,
)
    requires
        0 <= row < rows.len(),
        0 <= column < rows[row].len(),
    ensures
        ({
            let read = rows_of(table_nodes(rows, has_header));
            &&& read.len() == rows.len()
            &&& read[row].len() == rows[row].len()
            &&& read[row][column] == pieces_of(rows[row][column], plain_style())
        }),
{
    lemma_rows_read(rows, has_header);
    lemma_cells_read(rows[row]);
}

proof fn lemma_rows_read(rows: Seq<Seq<Seq<NodeText>>>, has_header: bool)
    ensures
        ({
            let read = rows_of(table_nodes(rows, has_header));
            read.len() == rows.len() && forall|i: int|
                0 <= i < rows.len() ==> #[trigger] read[i] == cells_of(
                    row_node(rows[i], i == 0 && has_header)->Element_1,
                )
        }),
    decreases rows.len(),
{
    let nodes = table_nodes(rows, has_header);
    if rows.len() > 0 {
        let rest = rows.drop_last();
        lemma_rows_read(rest, has_header);
        assert(nodes.drop_last() =~= table_nodes(rest, has_header));
        let read = rows_of(nodes);
        assert forall|i: int| 0 <= i < rows.len() implies #[trigger] read[i] == cells_of(
            row_node(rows[i], i == 0 && has_header)->Element_1,
        ) by {
            if i < rest.len() {
                assert(read[i] == rows_of(nodes.drop_last())[i]);
                assert(rest[i] == rows[i]);
            }
        }
    }
}

/// A cell is filled up with spaces to the width of its column: behind it, in front of it where it is
/// aligned to the right, and on both sides where it is centred, one more behind it if need be.
pub proof fn law_cells_are_aligned(line: Seq<SpanText>, width: int, alignment: Alignment)
    requires
        line_width(line) <= width,
    ensures
        ({
            let missing = width - line_width(line);
            let front = match alignment {
                Alignment::Right => missing,
                Alignment::Center => missing / 2,
                _ => 0,
            };
            line_text(aligned(line, width, alignment)) == repeated(' ', front as nat) + line_text(
                line,
            ) + repeated(' ', (missing - front) as nat)
        }),
{
    let missing = width - line_width(line);
    let front = match alignment {
        Alignment::Right => missing,
        Alignment::Center => missing / 2,
        _ => 0,
    };
    law_line_text(line, repeated(' ', front as nat), plain_style());
    law_line_text(
        prepended(
            line,
            repeated(' ', front as nat),
            plain_style(),
        ),
        repeated(' ', (missing - front) as nat),
        plain_style(),
    );
}

proof fn lemma_appended_text(line: Seq<SpanText>, other: Seq<SpanText>)
    ensures
        line_text(line_appended(line, other)) == line_text(line) + line_text(other),
    decreases other.len(),
{
    if other.len() == 0 {
        assert(line_text(line) + line_text(other) =~= line_text(line));
    } else {
        lemma_appended_text(line, other.drop_last());
        law_line_text(
            line_appended(line, other.drop_last()),
            other.last().text,
            other.last().style,
        );
        assert(line_text(line_appended(line, other)) =~= line_text(line) + line_text(other));
    }
}

/// A line of a row shows the line of each cell between bars, with a space on either side.
pub proof fn law_rows_show_their_cells(
    cells: Seq<Seq<Seq<SpanText>>>,
    widths: Seq<int>,
    alignments: Seq<Alignment>,
    index: int,
    count: int,
)
    requires
        0 <= count < widths.len(),
    ensures
        line_text(row_line(cells, widths, alignments, index, 0)) == "│"@,
        line_text(row_line(cells, widths, alignments, index, count + 1)) == line_text(
            row_line(cells, widths, alignments, index, count),
        ) + " "@ + line_text(
            aligned(
                if index < cells[count].len() {
                    cells[count][index]
                } else {
                    Seq::empty()
                },
                widths[count],
                alignments[count],
            ),
        ) + " "@ + "│"@,
{
    law_line_text(Seq::empty(), "│"@, border_style());
    assert(Seq::<char>::empty() + "│"@ =~= "│"@);
    let before = row_line(cells, widths, alignments, index, count);
    let cell = aligned(cell_line(cells[count], index), widths[count], alignments[count]);
    law_line_text(before, " "@, plain_style());
    let spaced = pushed(before, " "@, plain_style());
    lemma_appended_text(spaced, cell);
    let filled = line_appended(spaced, cell);
    law_line_text(filled, " "@, plain_style());
    law_line_text(pushed(filled, " "@, plain_style()), "│"@, border_style());
}

/// The cells of a row are wrapped in their columns, in bold where the row is the header, and a row
/// has as many lines as the tallest of its cells.
pub proof fn law_rows_are_as_tall_as_their_cells(
    row: Seq<Seq<PieceText>>,
    widths: Seq<int>,
    alignments: Seq<Alignment>,
    header: bool,
    column: int,
)
    requires
        0 <= column < widths.len(),
        column < row.len(),
    ensures
        ({
            let cells = row_cells(row, widths, header);
            &&& cells.len() == widths.len()
            &&& !header ==> cells[column] == wrapped(row[column], widths[column])
            &&& cells[column].len() <= row_lines(cells, widths, alignments).len()
        }),
        header ==> forall|i: int|
            0 <= i < cell_pieces(row, column, header).len() ==> ((#[trigger] cell_pieces(
                row,
                column,
                header,
            )[i]) matches PieceText::Span(span) ==> span.style.bold),
        header ==> row_cells(row, widths, header)[column] == wrapped(
            cell_pieces(row, column, header),
            widths[column],
        ),
{
    let cells = row_cells(row, widths, header);
    lemma_tallest(cells, column);
}

proof fn lemma_tallest(cells: Seq<Seq<Seq<SpanText>>>, column: int)
    requires
        0 <= column < cells.len(),
    ensures
        cells[column].len() <= tallest(cells),
    decreases cells.len(),
{
    if column < cells.len() - 1 {
        lemma_tallest(cells.drop_last(), column);
        assert(cells.drop_last()[column] == cells[column]);
    } else {
        assert(cells.last() == cells[column]);
    }
}

proof fn lemma_row_within(table: TableText, widths: Seq<int>, row: int, index: int, count: int)
    -> (at: int)
    requires
        0 <= row < count <= table.rows.len(),
        0 <= index < row_lines(
            row_cells(table.rows[row], widths, row == 0 && table.has_header),
            widths,
            table.alignments,
        ).len(),
    ensures
        0 <= at < framed_rows(table, widths, count).len(),
        framed_rows(table, widths, count)[at] == row_lines(
            row_cells(table.rows[row], widths, row == 0 && table.has_header),
            widths,
            table.alignments,
        )[index],
    decreases count,
{
    if row == count - 1 {
        framed_rows(table, widths, count - 1).len() + index
    } else {
        lemma_row_within(table, widths, row, index, count - 1)
    }
}

/// Whether `line` is one of `lines`.
pub open spec fn is_line_among(lines: Seq<Seq<SpanText>>, line: Seq<SpanText>) -> bool {
    exists|at: int| 0 <= at < lines.len() && #[trigger] lines[at] == line
}

/// Every line of every row is shown in a framed table.
pub proof fn law_every_row_is_shown(table: TableText, width: int, row: int, index: int)
    requires
        0 <= row < table.rows.len(),
        0 <= index < row_lines(
            row_cells(table.rows[row], widths_of(table, width), row == 0 && table.has_header),
            widths_of(table, width),
            table.alignments,
        ).len(),
    ensures
        is_line_among(
            framed(table, width),
            row_lines(
                row_cells(table.rows[row], widths_of(table, width), row == 0 && table.has_header),
                widths_of(table, width),
                table.alignments,
            )[index],
        ),
{
    let widths = widths_of(table, width);
    let count = table.rows.len() as int;
    let at = lemma_row_within(table, widths, row, index, count);
    assert(framed(table, width)[at + 1] == framed_rows(table, widths, count)[at]);
}

/// A table is framed where there are twelve columns for each of its own and one more, and shown cell
/// by cell where there are not. One without columns shows nothing.
pub proof fn law_tables_are_framed_where_they_fit(
    alignments: Seq<Alignment>,
    nodes: Seq<NodeText>,
    width: int,
)
    ensures
        match table_of(alignments, nodes) {
            Some(table) => {
                &&& table.column_count >= alignments.len()
                &&& forall|i: int|
                    0 <= i < table.rows.len() ==> (#[trigger] table.rows[i]).len()
                        <= table.column_count
                &&& table.rows == rows_of(nodes)
                &&& 12 * table.column_count < width ==> table_lines(alignments, nodes, width)
                    == framed(table, width)
                &&& 12 * table.column_count >= width ==> table_lines(alignments, nodes, width)
                    == stacked(table, width)
            },
            None => alignments.len() == 0 && table_lines(alignments, nodes, width).len() == 0,
        },
{
    lemma_longest(rows_of(nodes));
}

proof fn lemma_longest(rows: Seq<Seq<Seq<PieceText>>>)
    ensures
        forall|i: int|
            0 <= i < rows.len() ==> (#[trigger] rows[i]).len()
                <= longest_row(rows),
        0 <= longest_row(rows),
    decreases rows.len(),
{
    if rows.len() > 0 {
        let rest = rows.drop_last();
        lemma_longest(rest);
        assert forall|i: int| 0 <= i < rows.len() implies (#[trigger] rows[i]).len()
            <= longest_row(rows) by {
            if i < rest.len() {
                assert(rest[i] == rows[i]);
            }
        }
    }
}

/// The text of a frame line: a line of each column that is two wider than the column, with a sign
/// between any two of them and one on either side.
pub proof fn law_frames_follow_the_columns(left: char, middle: char, right: char, widths: Seq<int>)
    requires
        widths.len() > 0,
    ensures
        line_text(frame_line(left, middle, right, widths)) == seq![left] + joined_with(
            widths.map_values(|width: int| repeated('─', (width + 2) as nat)),
            seq![middle],
        ) + seq![right],
{
    let lines = widths.map_values(|width: int| repeated('─', (width + 2) as nat));
    let count = widths.len() as int;
    lemma_border(middle, right, widths, count);
    assert(lines.take(count) =~= lines);
    let line = frame_line(left, middle, right, widths);
    reveal_with_fuel(line_text, 2);
    assert(line.drop_last() =~= Seq::empty());
    assert(line_text(line) =~= seq![left] + joined_with(lines, seq![middle]) + seq![right]);
}

proof fn lemma_border(middle: char, right: char, widths: Seq<int>, count: int)
    requires
        0 < count <= widths.len(),
    ensures
        border_cells(middle, right, widths, count) == joined_with(
            widths.map_values(|width: int| repeated('─', (width + 2) as nat)).take(count),
            seq![middle],
        ).push(
            if count == widths.len() {
                right
            } else {
                middle
            },
        ),
    decreases count,
{
    let lines = widths.map_values(|width: int| repeated('─', (width + 2) as nat));
    let some = lines.take(count);
    assert(some.drop_last() =~= lines.take(count - 1));
    assert(some.last() == repeated('─', (widths[count - 1] + 2) as nat));
    let sign = if count == widths.len() {
        right
    } else {
        middle
    };
    if count == 1 {
        assert(border_cells(middle, right, widths, 0) =~= Seq::empty());
        assert(border_cells(middle, right, widths, count) =~= joined_with(some, seq![middle]).push(
            sign,
        ));
    } else {
        lemma_border(middle, right, widths, count - 1);
        assert(border_cells(middle, right, widths, count) =~= joined_with(some, seq![middle]).push(
            sign,
        ));
    }
}

/// A framed table begins and ends with a frame line, and a frame line stands between any two rows.
pub proof fn law_rows_stand_between_frames(table: TableText, width: int)
    requires
        table.rows.len() > 0,
    ensures
        ({
            let widths = widths_of(table, width);
            let lines = framed(table, width);
            let last = table.rows.len() - 1;
            let header = last == 0 && table.has_header;
            &&& lines[0] == frame_line('┌', '┬', '┐', widths)
            &&& lines.last() == frame_line('└', '┴', '┘', widths)
            &&& lines == seq![lines[0]] + framed_rows(table, widths, last) + row_lines(
                row_cells(table.rows[last], widths, header),
                widths,
                table.alignments,
            ) + seq![lines.last()]
        }),
        forall|count: int|
            0 < count < table.rows.len() ==> #[trigger] framed_rows(
                table,
                widths_of(table, width),
                count,
            ) == framed_rows(table, widths_of(table, width), count - 1) + row_lines(
                row_cells(
                    table.rows[count - 1],
                    widths_of(table, width),
                    count == 1 && table.has_header,
                ),
                widths_of(table, width),
                table.alignments,
            ) + seq![frame_line('├', '┼', '┤', widths_of(table, width))],
{
    let widths = widths_of(table, width);
    let lines = framed(table, width);
    let last = table.rows.len() - 1;
    let header = last == 0 && table.has_header;
    assert(lines =~= seq![lines[0]] + framed_rows(table, widths, last) + row_lines(
        row_cells(table.rows[last], widths, header),
        widths,
        table.alignments,
    ) + seq![lines.last()]);
    assert forall|count: int| 0 < count < table.rows.len() implies #[trigger] framed_rows(
        table,
        widths,
        count,
    ) == framed_rows(table, widths, count - 1) + row_lines(
        row_cells(table.rows[count - 1], widths, count == 1 && table.has_header),
        widths,
        table.alignments,
    ) + seq![frame_line('├', '┼', '┤', widths)] by {
        assert(framed_rows(table, widths, count) =~= framed_rows(table, widths, count - 1)
            + row_lines(
            row_cells(table.rows[count - 1], widths, count == 1 && table.has_header),
            widths,
            table.alignments,
        ) + seq![frame_line('├', '┼', '┤', widths)]);
    }
}

proof fn lemma_wanted(rows: Seq<Seq<Seq<PieceText>>>, column: int, minimum: int)
    requires
        0 <= column,
        0 <= minimum,
    ensures
        minimum <= wanted_width(rows, column, minimum),
        forall|i: int|
            0 <= i < rows.len() && column < (#[trigger] rows[i]).len() ==> largest_width(
                wrapped(rows[i][column], unlimited_width()),
            ) <= wanted_width(rows, column, minimum),
        wanted_width(rows, column, minimum) > minimum ==> exists|i: int|
            0 <= i < rows.len() && column < (#[trigger] rows[i]).len() && largest_width(
                wrapped(rows[i][column], unlimited_width()),
            ) == wanted_width(rows, column, minimum),
    decreases rows.len(),
{
    if rows.len() > 0 {
        let rest = rows.drop_last();
        let last = rows.len() - 1;
        lemma_wanted(rest, column, minimum);
        assert(rows.last() == rows[last]);
        assert forall|i: int|
            0 <= i < rows.len() && column < (#[trigger] rows[i]).len() implies largest_width(
            wrapped(rows[i][column], unlimited_width()),
        ) <= wanted_width(rows, column, minimum) by {
            if i < rest.len() {
                assert(rest[i] == rows[i]);
            }
        }
        if wanted_width(rows, column, minimum) > minimum {
            if wanted_width(rest, column, minimum) == wanted_width(rows, column, minimum) {
                let i = choose|i: int|
                    0 <= i < rest.len() && column < (#[trigger] rest[i]).len() && largest_width(
                        wrapped(rest[i][column], unlimited_width()),
                    ) == wanted_width(rest, column, minimum);
                assert(rest[i] == rows[i]);
            }
        }
    }
}

/// A column wants as many columns as the widest line of its cells takes up, and at least the least.
pub proof fn law_columns_want_room_for_their_cells(table: TableText, total: int, column: int)
    requires
        0 <= column < table.column_count,
    ensures
        ({
            let wanted = wanted_widths(table, total)[column];
            let least = minimum_width(table.column_count, total);
            &&& least <= wanted
            &&& forall|i: int|
                0 <= i < table.rows.len() && column < (#[trigger] table.rows[i]).len()
                    ==> largest_width(wrapped(table.rows[i][column], unlimited_width())) <= wanted
            &&& wanted > least ==> exists|i: int|
                0 <= i < table.rows.len() && column < (#[trigger] table.rows[i]).len()
                    && largest_width(wrapped(table.rows[i][column], unlimited_width())) == wanted
        }),
{
    lemma_wanted(table.rows, column, minimum_width(table.column_count, total));
}

proof fn lemma_all_dealt(widths: Seq<int>, wanted: Seq<int>, spare: int)
    requires
        widths.len() == wanted.len(),
        forall|i: int| 0 <= i < widths.len() ==> #[trigger] widths[i] <= wanted[i],
        0 <= spare <= sum_of(wanted) - sum_of(widths),
    ensures
        sum_of(grown(widths, wanted, spare)) == sum_of(widths) + spare,
    decreases spare,
{
    if spare > 0 {
        law_neediest(widths, wanted, widths.len() as int);
        match neediest(widths, wanted, widths.len() as int) {
            None => {
                assert forall|i: int| 0 <= i < widths.len() implies #[trigger] widths[i]
                    == wanted[i] by {
                    assert(shortage(widths, wanted, i) <= 0);
                }
                assert(widths =~= wanted);
            },
            Some(column) => {
                let next = widths.update(column, widths[column] + 1);
                lemma_sum_update(widths, column, widths[column] + 1);
                assert(shortage(widths, wanted, column) > 0);
                assert forall|i: int| 0 <= i < next.len() implies #[trigger] next[i]
                    <= wanted[i] by {
                    assert(widths[i] <= wanted[i]);
                }
                lemma_all_dealt(next, wanted, spare - 1);
            },
        }
    }
}

proof fn lemma_same_sum(widths: Seq<int>, wanted: Seq<int>)
    requires
        widths.len() == wanted.len(),
        forall|i: int| 0 <= i < widths.len() ==> #[trigger] widths[i] <= wanted[i],
    ensures
        sum_of(widths) <= sum_of(wanted),
        sum_of(widths) == sum_of(wanted) ==> widths == wanted,
    decreases widths.len(),
{
    if widths.len() > 0 {
        let last = widths.len() - 1;
        assert(widths[last] <= wanted[last]);
        assert forall|i: int| 0 <= i < last implies #[trigger] widths.drop_last()[i]
            <= wanted.drop_last()[i] by {
            assert(widths[i] <= wanted[i]);
        }
        lemma_same_sum(widths.drop_last(), wanted.drop_last());
        if sum_of(widths) == sum_of(wanted) {
            assert(widths =~= widths.drop_last().push(widths[last]));
            assert(wanted =~= wanted.drop_last().push(wanted[last]));
        }
    } else {
        assert(widths =~= wanted);
    }
}

/// Where there is room for what every column wants, each gets just that; where there is not, all the
/// room there is for cells is dealt out.
pub proof fn law_columns_get_what_they_want(table: TableText, total: int)
    requires
        table.column_count > 0,
        total >= 6 * table.column_count + 1,
    ensures
        ({
            let wanted = wanted_widths(table, total);
            let room = total - (3 * table.column_count + 1);
            &&& sum_of(wanted) <= room ==> widths_of(table, total) == wanted
            &&& sum_of(wanted) > room ==> sum_of(widths_of(table, total)) == room
        }),
{
    let count = table.column_count;
    let wanted = wanted_widths(table, total);
    let least = minimum_width(count, total);
    let start = Seq::new(count as nat, |column: int| least);
    lemma_sum_constant(count as nat, least);
    assert forall|i: int| 0 <= i < start.len() implies #[trigger] start[i] <= wanted[i] by {
        lemma_wanted(table.rows, i, least);
    }
    lemma_same_sum(start, wanted);
    lemma_all_dealt(start, wanted, spare_columns(table, total));
    law_grown(start, wanted, spare_columns(table, total));
    let widths = widths_of(table, total);
    assert forall|i: int| 0 <= i < widths.len() implies #[trigger] widths[i] <= wanted[i] by {
        assert(start[i] <= wanted[i]);
        assert(grown(start, wanted, spare_columns(table, total))[i] <= wanted[i]);
    }
    lemma_same_sum(widths, wanted);
}

/// Whether `bold` says what `plain` does, in bold.
pub open spec fn is_bold_copy(bold: Seq<PieceText>, plain: Seq<PieceText>) -> bool {
    &&& bold.len() == plain.len()
    &&& forall|i: int|
        0 <= i < plain.len() ==> match plain[i] {
            PieceText::Span(span) => (#[trigger] bold[i]) matches PieceText::Span(copy) && copy.text
                == span.text && copy.style == (TextStyle { bold: true, ..span.style }),
            other => bold[i] == other,
        }
}

/// The header shows what its cells hold, in bold, and every other row what its cells hold as it is. A
/// row that is too short has empty cells behind it.
pub proof fn law_headers_are_bold(row: Seq<Seq<PieceText>>, column: int)
    requires
        0 <= column,
    ensures
        column < row.len() ==> is_bold_copy(cell_pieces(row, column, true), row[column]),
        column < row.len() ==> cell_pieces(row, column, false) == row[column],
        column >= row.len() ==> cell_pieces(row, column, false).len() == 0 && cell_pieces(
            row,
            column,
            true,
        ).len() == 0,
{
    if column < row.len() {
        let bold = cell_pieces(row, column, true);
        assert forall|i: int| 0 <= i < row[column].len() implies match row[column][i] {
            PieceText::Span(span) => (#[trigger] bold[i]) matches PieceText::Span(copy) && copy.text
                == span.text && copy.style == (TextStyle { bold: true, ..span.style }),
            other => bold[i] == other,
        } by {
            assert(bold[i] == restyled(row[column][i], bold_style()));
        }
    }
}

/// A line in a box stands between two bars, with a space on either side and as many more behind it as
/// it takes to fill the box.
pub proof fn law_boxes_stand_around_their_lines(line: Seq<SpanText>, inner: int)
    requires
        line_width(line) <= inner,
    ensures
        line_text(boxed(line, inner)) == "│ "@ + line_text(line) + repeated(
            ' ',
            (inner - line_width(line)) as nat,
        ) + " │"@,
{
    let body = padded(line, inner);
    let spaces = repeated(' ', (inner - line_width(line)) as nat);
    law_line_text(line, spaces, plain_style());
    law_line_text(Seq::empty(), "│ "@, border_style());
    let start = pushed(Seq::empty(), "│ "@, border_style());
    lemma_appended_text(start, body);
    law_line_text(line_appended(start, body), " │"@, border_style());
    assert(line_text(boxed(line, inner)) =~= "│ "@ + line_text(line) + spaces + " │"@);
}

/// What a table that is shown cell by cell says of a cell: its title in bold, a colon, and what it
/// holds, or just that where it has no title.
pub proof fn law_cells_stand_behind_their_titles(
    headers: Seq<Seq<PieceText>>,
    row: Seq<Seq<PieceText>>,
    column: int,
)
    requires
        0 <= column < row.len(),
    ensures
        column >= headers.len() ==> titled_pieces(headers, row, column) == row[column],
        column < headers.len() ==> ({
            let shown = titled_pieces(headers, row, column);
            let size = headers[column].len() as int;
            &&& shown.len() == size + 1 + row[column].len()
            &&& is_bold_copy(shown.take(size), headers[column])
            &&& shown[size] matches PieceText::Span(mark) && mark.text == ": "@
            &&& shown.skip(size + 1) == row[column]
        }),
{
    let shown = titled_pieces(headers, row, column);
    if column < headers.len() {
        let size = headers[column].len() as int;
        law_headers_are_bold(headers, column);
        assert(shown.take(size) =~= cell_pieces(headers, column, true));
        assert(shown.skip(size + 1) =~= row[column]);
    } else {
        assert(shown =~= row[column]);
    }
}

proof fn lemma_stacked_row(
    headers: Seq<Seq<PieceText>>,
    row: Seq<Seq<PieceText>>,
    inner: int,
    column: int,
    index: int,
    count: int,
) -> (at: int)
    requires
        0 <= column < count,
        0 <= index < wrapped(titled_pieces(headers, row, column), inner).len(),
    ensures
        0 <= at < stacked_row(headers, row, inner, count).len(),
        stacked_row(headers, row, inner, count)[at] == boxed(
            wrapped(titled_pieces(headers, row, column), inner)[index],
            inner,
        ),
    decreases count,
{
    if column == count - 1 {
        stacked_row(headers, row, inner, count - 1).len() + index
    } else {
        lemma_stacked_row(headers, row, inner, column, index, count - 1)
    }
}

proof fn lemma_stacked_rows(table: TableText, width: int, row: int, at: int, count: int) -> (place:
    int)
    requires
        0 <= row < count <= stacked_body(table).len(),
        0 <= at < stacked_row(
            stacked_header(table),
            stacked_body(table)[row],
            larger(1, width - 4),
            table.column_count,
        ).len(),
    ensures
        0 <= place < stacked_rows(table, width, count).len(),
        stacked_rows(table, width, count)[place] == stacked_row(
            stacked_header(table),
            stacked_body(table)[row],
            larger(1, width - 4),
            table.column_count,
        )[at],
    decreases count,
{
    if row == count - 1 {
        stacked_rows(table, width, count - 1).len() + at
    } else {
        lemma_stacked_rows(table, width, row, at, count - 1)
    }
}

/// A table that is shown cell by cell shows every line of every cell of its rows in a box, behind the
/// title of the cell. The titles are those of the header, which is a row of its own only where there
/// is no other.
pub proof fn law_every_cell_is_shown(
    table: TableText,
    width: int,
    row: int,
    column: int,
    index: int,
)
    requires
        width >= 4,
        (if table.has_header && table.rows.len() > 1 {
            1int
        } else {
            0int
        }) <= row < table.rows.len(),
        0 <= column < table.column_count,
        ({
            let titles = if table.has_header && table.rows.len() > 1 {
                table.rows[0]
            } else {
                Seq::empty()
            };
            0 <= index < wrapped(
                titled_pieces(titles, table.rows[row], column),
                larger(1, width - 4),
            ).len()
        }),
    ensures
        ({
            let titles = if table.has_header && table.rows.len() > 1 {
                table.rows[0]
            } else {
                Seq::empty()
            };
            is_line_among(
                stacked(table, width),
                boxed(
                    wrapped(
                        titled_pieces(titles, table.rows[row], column),
                        larger(1, width - 4),
                    )[index],
                    larger(1, width - 4),
                ),
            )
        }),
{
    let body = stacked_body(table);
    let place = if table.has_header && table.rows.len() > 1 {
        row - 1
    } else {
        row
    };
    assert(body[place] == table.rows[row]);
    let headers = stacked_header(table);
    let at = lemma_stacked_row(
        headers,
        table.rows[row],
        larger(1, width - 4),
        column,
        index,
        table.column_count,
    );
    let found = lemma_stacked_rows(table, width, place, at, body.len() as int);
    assert(stacked(table, width)[found + 1] == stacked_rows(
        table,
        width,
        body.len() as int,
    )[found]);
}

/// In fewer than four columns there is no room for a box: the cells of a row are shown one below the
/// other, and so are the rows.
pub proof fn law_narrow_tables_show_their_cells_bare(table: TableText, width: int)
    requires
        width < 4,
    ensures
        stacked(table, width) == bare_rows(table.rows, width, table.rows.len() as int),
        forall|rows: Seq<Seq<Seq<PieceText>>>, count: int|
            0 < count <= rows.len() ==> #[trigger] bare_rows(rows, width, count) == bare_rows(
                rows,
                width,
                count - 1,
            ) + bare_row(rows[count - 1], width, rows[count - 1].len() as int),
        forall|row: Seq<Seq<PieceText>>, count: int|
            0 < count <= row.len() ==> #[trigger] bare_row(row, width, count) == bare_row(
                row,
                width,
                count - 1,
            ) + blank_trimmed(wrapped(row[count - 1], width)),
{
}

/// A table has a header if one of its rows is one, keeps the alignments that it was given, and has no
/// particular one in the columns behind them.
pub proof fn law_tables_keep_their_alignments(
    alignments: Seq<Alignment>,
    nodes: Seq<NodeText>,
    column: int,
)
    requires
        table_of(alignments, nodes) is Some,
        0 <= column < table_of(alignments, nodes)->0.column_count,
    ensures
        ({
            let table = table_of(alignments, nodes)->0;
            &&& table.alignments.len() == table.column_count
            &&& column < alignments.len() ==> table.alignments[column] == alignments[column]
            &&& column >= alignments.len() ==> table.alignments[column] == Alignment::Unset
        }),
        forall|i: int|
            0 <= i < nodes.len() && (#[trigger] nodes[i]) is Element
                && nodes[i]->Element_0 is TableHead ==> table_of(alignments, nodes)->0.has_header,
        table_of(alignments, nodes)->0.has_header ==> exists|i: int|
            0 <= i < nodes.len() && (#[trigger] nodes[i]) is Element
                && nodes[i]->Element_0 is TableHead,
{
    lemma_longest(rows_of(nodes));
    assert forall|i: int|
        0 <= i < nodes.len() && (#[trigger] nodes[i]) is Element
            && nodes[i]->Element_0 is TableHead implies table_of(alignments, nodes)->0.has_header by {
        assert(is_header(nodes[i]));
    }
    if table_of(alignments, nodes)->0.has_header {
        let i = choose|i: int| 0 <= i < nodes.len() && is_header(#[trigger] nodes[i]);
        assert(nodes[i] is Element && nodes[i]->Element_0 is TableHead);
    }
}

} // verus!
