//! The lines that a table takes up: framed column by column, or cell by cell where it is narrow.

use vstd::prelude::*;

use crate::agent_markdown_renderer::document::nodes_view;
use crate::agent_markdown_renderer::document::Alignment;
use crate::agent_markdown_renderer::document::Node;
use crate::agent_markdown_renderer::document::NodeText;
use crate::agent_markdown_renderer::inline::all_restyled;
use crate::agent_markdown_renderer::inline::apply_style;
use crate::agent_markdown_renderer::inline::pieces_view;
use crate::agent_markdown_renderer::inline::wrap_inline;
use crate::agent_markdown_renderer::inline::wrapped;
use crate::agent_markdown_renderer::inline::InlinePiece;
use crate::agent_markdown_renderer::inline::PieceText;
use crate::agent_markdown_renderer::style::bold_style;
use crate::agent_markdown_renderer::style::colored_style;
use crate::agent_markdown_renderer::style::plain_style;
use crate::agent_markdown_renderer::style::ColorRole;
use crate::agent_markdown_renderer::style::TextStyle;
use crate::agent_markdown_renderer::styled::append_block_without_gap;
use crate::agent_markdown_renderer::styled::blank_trimmed;
use crate::agent_markdown_renderer::styled::line_appended;
use crate::agent_markdown_renderer::styled::lines_view;
use crate::agent_markdown_renderer::styled::pushed;
use crate::agent_markdown_renderer::styled::SpanText;
use crate::agent_markdown_renderer::styled::StyledLine;
use crate::agent_markdown_renderer::styled::StyledSpan;
use crate::agent_markdown_renderer::table::align_line;
use crate::agent_markdown_renderer::table::aligned;
use crate::agent_markdown_renderer::table::border_text;
use crate::agent_markdown_renderer::table::box_text;
use crate::agent_markdown_renderer::table::cells_view;
use crate::agent_markdown_renderer::table::larger;
use crate::agent_markdown_renderer::table::law_table_fits;
use crate::agent_markdown_renderer::table::numbers_view;
use crate::agent_markdown_renderer::table::pad_line_right;
use crate::agent_markdown_renderer::table::padded;
use crate::agent_markdown_renderer::table::rows_view;
use crate::agent_markdown_renderer::table::single_box_border;
use crate::agent_markdown_renderer::table::span_line;
use crate::agent_markdown_renderer::table::sum_of;
use crate::agent_markdown_renderer::table::table_border;
use crate::agent_markdown_renderer::table::table_of;
use crate::agent_markdown_renderer::table::widths_of;
use crate::agent_markdown_renderer::table::TableData;
use crate::agent_markdown_renderer::table::TableText;

verus! {

/// The style of frames.
pub open spec fn border_style() -> TextStyle {
    colored_style(ColorRole::Border)
}

/// The pieces of the cell of `row` in `column`, in bold in a header. A cell that is missing is
/// empty.
pub open spec fn cell_pieces(row: Seq<Seq<PieceText>>, column: int, header: bool) -> Seq<
    PieceText,
> {
    let pieces = if column < row.len() {
        row[column]
    } else {
        Seq::empty()
    };
    if header {
        all_restyled(pieces, bold_style())
    } else {
        pieces
    }
}

/// The lines of each cell of `row`, in columns of `widths`.
pub open spec fn row_cells(row: Seq<Seq<PieceText>>, widths: Seq<int>, header: bool) -> Seq<
    Seq<Seq<SpanText>>,
> {
    Seq::new(
        widths.len(),
        |column: int| wrapped(cell_pieces(row, column, header), widths[column]),
    )
}

/// How many lines the tallest of `cells` has, and at least one.
pub open spec fn tallest(cells: Seq<Seq<Seq<SpanText>>>) -> int
    decreases cells.len(),
{
    if cells.len() == 0 {
        1
    } else {
        larger(tallest(cells.drop_last()), cells.last().len() as int)
    }
}

/// The line `index` of `cell`, empty behind its last one.
pub open spec fn cell_line(cell: Seq<Seq<SpanText>>, index: int) -> Seq<SpanText> {
    if index < cell.len() {
        cell[index]
    } else {
        Seq::empty()
    }
}

/// The line `index` of a row, up to and with the frame behind the first `count` cells.
pub open spec fn row_line(
    cells: Seq<Seq<Seq<SpanText>>>,
    widths: Seq<int>,
    alignments: Seq<Alignment>,
    index: int,
    count: int,
) -> Seq<SpanText>
    decreases count,
{
    if count <= 0 {
        pushed(Seq::empty(), "│"@, border_style())
    } else {
        let before = row_line(cells, widths, alignments, index, count - 1);
        let cell = aligned(
            cell_line(cells[count - 1], index),
            widths[count - 1],
            alignments[count - 1],
        );
        pushed(
            pushed(
                line_appended(pushed(before, " "@, plain_style()), cell),
                " "@,
                plain_style(),
            ),
            "│"@,
            border_style(),
        )
    }
}

/// The lines of a row.
pub open spec fn row_lines(
    cells: Seq<Seq<Seq<SpanText>>>,
    widths: Seq<int>,
    alignments: Seq<Alignment>,
) -> Seq<Seq<SpanText>> {
    Seq::new(
        tallest(cells) as nat,
        |index: int| row_line(cells, widths, alignments, index, widths.len() as int),
    )
}

/// A frame line across the columns of a table.
pub open spec fn frame_line(left: char, middle: char, right: char, widths: Seq<int>) -> Seq<
    SpanText,
> {
    span_line(border_text(left, middle, right, widths), border_style())
}

/// The first `count` rows of a framed table, with a frame line between any two of its rows.
pub open spec fn framed_rows(table: TableText, widths: Seq<int>, count: int) -> Seq<Seq<SpanText>>
    decreases count,
{
    if count <= 0 {
        Seq::empty()
    } else {
        let header = count == 1 && table.has_header;
        let cells = row_cells(table.rows[count - 1], widths, header);
        let lines = framed_rows(table, widths, count - 1) + row_lines(
            cells,
            widths,
            table.alignments,
        );
        if count < table.rows.len() {
            lines.push(frame_line('├', '┼', '┤', widths))
        } else {
            lines
        }
    }
}

/// The lines of a framed table that may be `width` columns wide.
pub open spec fn framed(table: TableText, width: int) -> Seq<Seq<SpanText>> {
    let widths = widths_of(table, width);
    (seq![frame_line('┌', '┬', '┐', widths)] + framed_rows(
        table,
        widths,
        table.rows.len() as int,
    )).push(frame_line('└', '┴', '┘', widths))
}

/// The models of the lines of several cells.
pub open spec fn blocks_view(blocks: Seq<Vec<StyledLine>>) -> Seq<Seq<Seq<SpanText>>> {
    blocks.map_values(|lines: Vec<StyledLine>| lines_view(lines@))
}

fn push_line(output: &mut Vec<StyledLine>, line: StyledLine)
    ensures
        lines_view(final(output)@) == lines_view(old(output)@).push(line@),
{
    let ghost before = lines_view(output@);
    output.push(line);
    assert(lines_view(output@) =~= before.push(line@));
}

/// The lines of each cell of a row.
fn render_row_cells(row: &Vec<Vec<InlinePiece>>, widths: &Vec<usize>, header: bool) -> (r: Vec<
    Vec<StyledLine>,
>)
    ensures
        blocks_view(r@) == row_cells(cells_view(row@), numbers_view(widths@), header),
{
    let ghost all = row_cells(cells_view(row@), numbers_view(widths@), header);
    let bold = TextStyle { bold: true, ..TextStyle::default() };
    let none: Vec<InlinePiece> = Vec::new();
    assert(pieces_view(none@) =~= Seq::empty());
    let mut cells: Vec<Vec<StyledLine>> = Vec::new();
    for column in 0..widths.len()
        invariant
            all == row_cells(cells_view(row@), numbers_view(widths@), header),
            bold == bold_style(),
            pieces_view(none@) == Seq::<PieceText>::empty(),
            blocks_view(cells@) == all.take(column as int),
    {
        let ghost before = blocks_view(cells@);
        let pieces = if column < row.len() {
            &row[column]
        } else {
            &none
        };
        let cell = if header {
            wrap_inline(&apply_style(pieces, bold), widths[column])
        } else {
            wrap_inline(pieces, widths[column])
        };
        assert(lines_view(cell@) == all[column as int]);
        cells.push(cell);
        assert(blocks_view(cells@) =~= before.push(lines_view(cell@)));
        assert(before.push(lines_view(cell@)) =~= all.take(column + 1));
    }
    assert(all.take(all.len() as int) =~= all);
    cells
}

/// How many lines the tallest cell has, and at least one.
fn find_tallest(cells: &Vec<Vec<StyledLine>>) -> (r: usize)
    ensures
        r == tallest(blocks_view(cells@)),
{
    let ghost all = blocks_view(cells@);
    let mut height: usize = 1;
    for i in 0..cells.len()
        invariant
            all == blocks_view(cells@),
            height == tallest(all.take(i as int)),
    {
        assert(all.take(i + 1).drop_last() =~= all.take(i as int));
        assert(all.take(i + 1).last() == lines_view(cells@[i as int]@));
        if cells[i].len() > height {
            height = cells[i].len();
        }
    }
    assert(all.take(all.len() as int) =~= all);
    height
}

/// One line of a row.
fn render_row_line(
    cells: &Vec<Vec<StyledLine>>,
    widths: &Vec<usize>,
    alignments: &Vec<Alignment>,
    index: usize,
) -> (r: StyledLine)
    requires
        cells@.len() == widths@.len() == alignments@.len(),
    ensures
        r@ == row_line(
            blocks_view(cells@),
            numbers_view(widths@),
            alignments@,
            index as int,
            widths@.len() as int,
        ),
{
    let border = TextStyle::colored(ColorRole::Border);
    let ghost blocks = blocks_view(cells@);
    let ghost numbers = numbers_view(widths@);
    let mut line = StyledLine::default();
    line.push("│", border);
    for column in 0..widths.len()
        invariant
            border == border_style(),
            blocks == blocks_view(cells@),
            numbers == numbers_view(widths@),
            cells@.len() == widths@.len() == alignments@.len(),
            line@ == row_line(blocks, numbers, alignments@, index as int, column as int),
    {
        line.push(" ", TextStyle::default());
        assert(blocks[column as int] == lines_view(cells@[column as int]@));
        let cell = if index < cells[column].len() {
            cells[column][index].clone()
        } else {
            StyledLine::default()
        };
        assert(cell@ == cell_line(blocks[column as int], index as int));
        line.append_line(align_line(cell, widths[column], alignments[column]));
        line.push(" ", TextStyle::default());
        line.push("│", border);
    }
    line
}

/// Puts the lines of one row behind `output`.
fn push_row(
    output: &mut Vec<StyledLine>,
    cells: &Vec<Vec<StyledLine>>,
    widths: &Vec<usize>,
    alignments: &Vec<Alignment>,
)
    requires
        cells@.len() == widths@.len() == alignments@.len(),
    ensures
        lines_view(final(output)@) == lines_view(old(output)@) + row_lines(
            blocks_view(cells@),
            numbers_view(widths@),
            alignments@,
        ),
{
    let ghost start = lines_view(output@);
    let ghost all = row_lines(blocks_view(cells@), numbers_view(widths@), alignments@);
    let height = find_tallest(cells);
    assert(start + all.take(0) =~= start);
    for index in 0..height
        invariant
            cells@.len() == widths@.len() == alignments@.len(),
            height == tallest(blocks_view(cells@)),
            all == row_lines(blocks_view(cells@), numbers_view(widths@), alignments@),
            lines_view(output@) == start + all.take(index as int),
    {
        let line = render_row_line(cells, widths, alignments, index);
        assert(line@ == all[index as int]);
        push_line(output, line);
        assert(start + all.take(index + 1) =~= (start + all.take(index as int)).push(
            all[index as int],
        ));
    }
    assert(all.take(all.len() as int) =~= all);
}

/// Each of a few numbers that are not negative is at most their sum.
pub proof fn lemma_part_of_sum(numbers: Seq<int>)
    requires
        forall|i: int| 0 <= i < numbers.len() ==> 0 <= #[trigger] numbers[i],
    ensures
        0 <= sum_of(numbers),
        forall|i: int| 0 <= i < numbers.len() ==> #[trigger] numbers[i] <= sum_of(numbers),
    decreases numbers.len(),
{
    if numbers.len() > 0 {
        lemma_part_of_sum(numbers.drop_last());
        assert forall|i: int| 0 <= i < numbers.len() implies #[trigger] numbers[i] <= sum_of(
            numbers,
        ) by {
            if i < numbers.len() - 1 {
                assert(numbers.drop_last()[i] == numbers[i]);
            }
        }
    }
}

/// Draws a table with all its frames. It must have room for three columns per cell.
pub fn render_framed_table(table: &TableData, width: usize) -> (r: Vec<StyledLine>)
    requires
        table.is_valid(),
        table.column_count > 0,
        width >= 6 * table.column_count + 1,
    ensures
        lines_view(r@) == framed(table@, width as int),
{
    let widths = table.column_widths(width);
    let border = TextStyle::colored(ColorRole::Border);
    let ghost numbers = numbers_view(widths@);
    let ghost model = table@;
    proof {
        law_table_fits(table@, width as int);
        lemma_part_of_sum(numbers);
        assert forall|i: int| 0 <= i < widths@.len() implies #[trigger] widths@[i] + 2
            <= usize::MAX by {
            assert(numbers[i] == widths@[i]);
        }
    }
    let mut output: Vec<StyledLine> = Vec::new();
    push_line(&mut output, table_border('┌', '┬', '┐', &widths, border));
    let ghost top = seq![frame_line('┌', '┬', '┐', numbers)];
    assert(lines_view(output@) =~= top + framed_rows(model, numbers, 0));
    for i in 0..table.rows.len()
        invariant
            model == table@,
            table.is_valid(),
            numbers == numbers_view(widths@),
            widths@.len() == table.column_count,
            border == border_style(),
            forall|i: int| 0 <= i < widths@.len() ==> #[trigger] widths@[i] + 2 <= usize::MAX,
            lines_view(output@) == top + framed_rows(model, numbers, i as int),
    {
        let header = i == 0 && table.has_header;
        let cells = render_row_cells(&table.rows[i], &widths, header);
        assert(cells_view(table.rows@[i as int]@) == model.rows[i as int]);
        assert(blocks_view(cells@).len() == widths@.len());
        push_row(&mut output, &cells, &widths, &table.alignments);
        if i + 1 < table.rows.len() {
            push_line(&mut output, table_border('├', '┼', '┤', &widths, border));
        }
        assert(lines_view(output@) =~= top + framed_rows(model, numbers, i + 1));
    }
    push_line(&mut output, table_border('└', '┴', '┘', &widths, border));
    output
}

/// The cells of the header, where there are rows behind it.
pub open spec fn stacked_header(table: TableText) -> Seq<Seq<PieceText>> {
    if table.has_header && table.rows.len() > 1 {
        table.rows[0]
    } else {
        Seq::empty()
    }
}

/// The rows behind the header, or all where there is nothing else.
pub open spec fn stacked_body(table: TableText) -> Seq<Seq<Seq<PieceText>>> {
    if table.has_header && table.rows.len() > 1 {
        table.rows.skip(1)
    } else {
        table.rows
    }
}

/// What separates the title of a cell from the cell.
pub open spec fn title_mark() -> PieceText {
    PieceText::Span(SpanText { text: ": "@, style: colored_style(ColorRole::Muted) })
}

/// The pieces of the cell of `row` in `column`, behind its title in bold.
pub open spec fn titled_pieces(
    headers: Seq<Seq<PieceText>>,
    row: Seq<Seq<PieceText>>,
    column: int,
) -> Seq<PieceText> {
    (if column < headers.len() {
        all_restyled(headers[column], bold_style()).push(title_mark())
    } else {
        Seq::empty()
    }) + cell_pieces(row, column, false)
}

/// `line` with the frame of a box around it that is `inner` columns wide.
pub open spec fn boxed(line: Seq<SpanText>, inner: int) -> Seq<SpanText> {
    pushed(
        line_appended(pushed(Seq::empty(), "│ "@, border_style()), padded(line, inner)),
        " │"@,
        border_style(),
    )
}

/// The lines of the first `count` cells of `row`.
pub open spec fn stacked_row(
    headers: Seq<Seq<PieceText>>,
    row: Seq<Seq<PieceText>>,
    inner: int,
    count: int,
) -> Seq<Seq<SpanText>>
    decreases count,
{
    if count <= 0 {
        Seq::empty()
    } else {
        stacked_row(headers, row, inner, count - 1) + wrapped(
            titled_pieces(headers, row, count - 1),
            inner,
        ).map_values(|line: Seq<SpanText>| boxed(line, inner))
    }
}

/// A frame line of a box that is `width` columns wide.
pub open spec fn box_line(left: char, right: char, width: int) -> Seq<SpanText> {
    span_line(box_text(left, right, width), border_style())
}

/// The first `count` rows of a stacked table, with a frame line between any two of its rows.
pub open spec fn stacked_rows(table: TableText, width: int, count: int) -> Seq<Seq<SpanText>>
    decreases count,
{
    if count <= 0 {
        Seq::empty()
    } else {
        let body = stacked_body(table);
        let lines = stacked_rows(table, width, count - 1) + stacked_row(
            stacked_header(table),
            body[count - 1],
            larger(1, width - 4),
            table.column_count,
        );
        if count < body.len() {
            lines.push(box_line('├', '┤', width))
        } else {
            lines
        }
    }
}

/// The lines of the first `count` cells of `row`, without any frame.
pub open spec fn bare_row(row: Seq<Seq<PieceText>>, width: int, count: int) -> Seq<Seq<SpanText>>
    decreases count,
{
    if count <= 0 {
        Seq::empty()
    } else {
        bare_row(row, width, count - 1) + blank_trimmed(wrapped(row[count - 1], width))
    }
}

/// The lines of the first `count` rows, without any frame.
pub open spec fn bare_rows(rows: Seq<Seq<Seq<PieceText>>>, width: int, count: int) -> Seq<
    Seq<SpanText>,
>
    decreases count,
{
    if count <= 0 {
        Seq::empty()
    } else {
        bare_rows(rows, width, count - 1) + bare_row(
            rows[count - 1],
            width,
            rows[count - 1].len() as int,
        )
    }
}

/// The lines of a table that is shown cell by cell: in a box of `width` columns, or without any
/// frame where there is no room for one.
pub open spec fn stacked(table: TableText, width: int) -> Seq<Seq<SpanText>> {
    if width < 4 {
        bare_rows(table.rows, width, table.rows.len() as int)
    } else {
        (seq![box_line('┌', '┐', width)] + stacked_rows(
            table,
            width,
            stacked_body(table).len() as int,
        )).push(box_line('└', '┘', width))
    }
}

/// The lines of the cells one below the other, without any frame.
fn render_bare_table(table: &TableData, width: usize) -> (r: Vec<StyledLine>)
    ensures
        lines_view(r@) == bare_rows(table@.rows, width as int, table@.rows.len() as int),
{
    let mut output: Vec<StyledLine> = Vec::new();
    let ghost rows = table@.rows;
    assert(lines_view(output@) =~= bare_rows(rows, width as int, 0));
    for i in 0..table.rows.len()
        invariant
            rows == rows_view(table.rows@),
            lines_view(output@) == bare_rows(rows, width as int, i as int),
    {
        let row = &table.rows[i];
        let ghost cells = rows[i as int];
        let ghost before = lines_view(output@);
        assert(cells == cells_view(row@));
        assert(before + bare_row(cells, width as int, 0) =~= before);
        for column in 0..row.len()
            invariant
                cells == cells_view(row@),
                lines_view(output@) == before + bare_row(cells, width as int, column as int),
        {
            assert(cells[column as int] == pieces_view(row@[column as int]@));
            let lines = wrap_inline(&row[column], width);
            append_block_without_gap(&mut output, lines);
            assert(lines_view(output@) =~= before + bare_row(cells, width as int, column + 1));
        }
    }
    output
}

/// The pieces of a cell behind its title.
fn titled_cell(headers: Option<&Vec<Vec<InlinePiece>>>, row: &Vec<Vec<InlinePiece>>, column: usize)
    -> (r: Vec<InlinePiece>)
    ensures
        pieces_view(r@) == titled_pieces(
            header_view(headers),
            cells_view(row@),
            column as int,
        ),
{
    let mut pieces: Vec<InlinePiece> = Vec::new();
    if let Some(cells) = headers {
        if column < cells.len() {
            let bold = TextStyle { bold: true, ..TextStyle::default() };
            pieces = apply_style(&cells[column], bold);
            let mark = InlinePiece::Span(
                StyledSpan::new(": ", TextStyle::colored(ColorRole::Muted)),
            );
            let ghost before = pieces_view(pieces@);
            pieces.push(mark);
            assert(pieces_view(pieces@) =~= before.push(mark@));
            assert(cells_view(cells@)[column as int] == pieces_view(cells@[column as int]@));
        }
    }
    let ghost title = pieces_view(pieces@);
    if column < row.len() {
        let source = &row[column];
        let ghost cell = pieces_view(source@);
        assert(title + cell.take(0) =~= title);
        for i in 0..source.len()
            invariant
                cell == pieces_view(source@),
                pieces_view(pieces@) == title + cell.take(i as int),
        {
            let piece = source[i].clone();
            pieces.push(piece);
            assert(pieces_view(pieces@) =~= (title + cell.take(i as int)).push(piece@));
            assert((title + cell.take(i as int)).push(piece@) =~= title + cell.take(i + 1));
        }
        assert(cell.take(cell.len() as int) =~= cell);
        assert(cells_view(row@)[column as int] == cell);
    }
    assert(title + Seq::<PieceText>::empty() =~= title);
    pieces
}

/// Puts the lines of one cell behind `output`, in its box.
fn push_boxed_lines(output: &mut Vec<StyledLine>, lines: Vec<StyledLine>, inner: usize)
    ensures
        lines_view(final(output)@) == lines_view(old(output)@) + lines_view(lines@).map_values(
            |line: Seq<SpanText>| boxed(line, inner as int),
        ),
{
    let border = TextStyle::colored(ColorRole::Border);
    let ghost start = lines_view(output@);
    let ghost all = lines_view(lines@).map_values(|line: Seq<SpanText>| boxed(line, inner as int));
    assert(start + all.take(0) =~= start);
    for i in 0..lines.len()
        invariant
            border == border_style(),
            all == lines_view(lines@).map_values(|line: Seq<SpanText>| boxed(line, inner as int)),
            lines_view(output@) == start + all.take(i as int),
    {
        let mut line = StyledLine::default();
        line.push("│ ", border);
        line.append_line(pad_line_right(lines[i].clone(), inner));
        line.push(" │", border);
        assert(all[i as int] == boxed(lines@[i as int]@, inner as int));
        push_line(output, line);
        assert(start + all.take(i + 1) =~= (start + all.take(i as int)).push(all[i as int]));
    }
    assert(all.take(all.len() as int) =~= all);
}

/// The cells of a header, if there is one.
spec fn header_view(headers: Option<&Vec<Vec<InlinePiece>>>) -> Seq<Seq<PieceText>> {
    match headers {
        Some(cells) => cells_view(cells@),
        None => Seq::empty(),
    }
}

/// Puts the lines of one row behind `output`, cell by cell.
fn push_stacked_row(
    output: &mut Vec<StyledLine>,
    headers: Option<&Vec<Vec<InlinePiece>>>,
    row: &Vec<Vec<InlinePiece>>,
    inner: usize,
    count: usize,
)
    ensures
        lines_view(final(output)@) == lines_view(old(output)@) + stacked_row(
            header_view(headers),
            cells_view(row@),
            inner as int,
            count as int,
        ),
{
    let ghost before = lines_view(output@);
    let ghost titles = header_view(headers);
    assert(before + stacked_row(titles, cells_view(row@), inner as int, 0) =~= before);
    for column in 0..count
        invariant
            titles == header_view(headers),
            lines_view(output@) == before + stacked_row(
                titles,
                cells_view(row@),
                inner as int,
                column as int,
            ),
    {
        let pieces = titled_cell(headers, row, column);
        let lines = wrap_inline(&pieces, inner);
        push_boxed_lines(output, lines, inner);
        assert(lines_view(output@) =~= before + stacked_row(
            titles,
            cells_view(row@),
            inner as int,
            column + 1,
        ));
    }
}

/// Draws a table cell by cell.
pub fn render_stacked_table(table: &TableData, width: usize) -> (r: Vec<StyledLine>)
    ensures
        lines_view(r@) == stacked(table@, width as int),
{
    if width < 4 {
        return render_bare_table(table, width);
    }
    let border = TextStyle::colored(ColorRole::Border);
    let inner = if width > 5 {
        width - 4
    } else {
        1
    };
    let titled = table.has_header && table.rows.len() > 1;
    let headers = if titled {
        Some(&table.rows[0])
    } else {
        None
    };
    let first: usize = if titled {
        1
    } else {
        0
    };
    let ghost model = table@;
    let ghost body = stacked_body(model);
    let ghost titles = stacked_header(model);
    assert(titles == header_view(headers));
    let ghost top = seq![box_line('┌', '┐', width as int)];
    let mut output: Vec<StyledLine> = Vec::new();
    push_line(&mut output, single_box_border('┌', '┐', width, border));
    assert(lines_view(output@) =~= top + stacked_rows(model, width as int, 0));
    for i in first..table.rows.len()
        invariant
            border == border_style(),
            inner == larger(1, width - 4),
            model == table@,
            body == stacked_body(model),
            titles == stacked_header(model),
            first <= table.rows@.len(),
            body == model.rows.skip(first as int),
            titles == header_view(headers),
            lines_view(output@) == top + stacked_rows(model, width as int, i - first),
    {
        let row = &table.rows[i];
        let ghost before = lines_view(output@);
        assert(body[i - first] == cells_view(row@));
        push_stacked_row(&mut output, headers, row, inner, table.column_count);
        if i + 1 < table.rows.len() {
            push_line(&mut output, single_box_border('├', '┤', width, border));
        }
        assert(lines_view(output@) =~= top + stacked_rows(model, width as int, i + 1 - first));
    }
    push_line(&mut output, single_box_border('└', '┘', width, border));
    output
}

/// The lines of the table that `nodes` make up: framed where there are twelve columns for each
/// of its own, else cell by cell.
pub open spec fn table_lines(alignments: Seq<Alignment>, nodes: Seq<NodeText>, width: int) -> Seq<
    Seq<SpanText>,
> {
    match table_of(alignments, nodes) {
        None => Seq::empty(),
        Some(table) => if width < 12 * table.column_count + 1 {
            stacked(table, width)
        } else {
            framed(table, width)
        },
    }
}

/// Draws the table that the nodes make up.
pub fn render_table(alignments: &Vec<Alignment>, children: &Vec<Node>, width: usize) -> (r: Vec<
    StyledLine,
>)
    ensures
        lines_view(r@) == table_lines(alignments@, nodes_view(children@), width as int),
{
    let table = match TableData::from_nodes(alignments, children) {
        Some(table) => table,
        None => {
            let none: Vec<StyledLine> = Vec::new();
            assert(lines_view(none@) =~= Seq::empty());
            return none;
        },
    };
    if width == 0 || (width - 1) / 12 < table.column_count {
        render_stacked_table(&table, width)
    } else {
        render_framed_table(&table, width)
    }
}

} // verus!
