//! Tables: their cells, the widths of their columns, and the lines that frame them.

use vstd::prelude::*;

use crate::agent_markdown_renderer::content::inline_pieces;
use crate::agent_markdown_renderer::content::pieces_of;
use crate::agent_markdown_renderer::document::lemma_nodes_view;
use crate::agent_markdown_renderer::document::node_view;
use crate::agent_markdown_renderer::document::nodes_view;
use crate::agent_markdown_renderer::document::Alignment;
use crate::agent_markdown_renderer::document::Node;
use crate::agent_markdown_renderer::document::NodeText;
use crate::agent_markdown_renderer::document::Tag;
use crate::agent_markdown_renderer::document::TagText;
use crate::agent_markdown_renderer::inline::largest_width;
use crate::agent_markdown_renderer::inline::natural_inline_width;
use crate::agent_markdown_renderer::inline::pieces_view;
use crate::agent_markdown_renderer::inline::unlimited_width;
use crate::agent_markdown_renderer::inline::wrapped;
use crate::agent_markdown_renderer::inline::InlinePiece;
use crate::agent_markdown_renderer::inline::PieceText;
use crate::agent_markdown_renderer::style::plain_style;
use crate::agent_markdown_renderer::style::TextStyle;
use crate::agent_markdown_renderer::styled::line_width;
use crate::agent_markdown_renderer::styled::prepended;
use crate::agent_markdown_renderer::styled::pushed;
use crate::agent_markdown_renderer::styled::SpanText;
use crate::agent_markdown_renderer::styled::StyledLine;
use crate::text::repeat_char;
use crate::text::repeated;

verus! {

/// The model of a table.
#[verifier::ext_equal]
pub struct TableText {
    pub alignments: Seq<Alignment>,
    pub rows: Seq<Seq<Seq<PieceText>>>,
    pub column_count: int,
    pub has_header: bool,
}

/// A table: how its columns are aligned, and the pieces of each cell, row by row.
#[derive(Debug)]
pub struct TableData {
    pub alignments: Vec<Alignment>,
    pub rows: Vec<Vec<Vec<InlinePiece>>>,
    pub column_count: usize,
    pub has_header: bool,
}

/// The models of the cells of a row.
pub open spec fn cells_view(cells: Seq<Vec<InlinePiece>>) -> Seq<Seq<PieceText>> {
    cells.map_values(|cell: Vec<InlinePiece>| pieces_view(cell@))
}

/// The models of rows.
pub open spec fn rows_view(rows: Seq<Vec<Vec<InlinePiece>>>) -> Seq<Seq<Seq<PieceText>>> {
    rows.map_values(|row: Vec<Vec<InlinePiece>>| cells_view(row@))
}

impl View for TableData {
    type V = TableText;

    open spec fn view(&self) -> TableText {
        TableText {
            alignments: self.alignments@,
            rows: rows_view(self.rows@),
            column_count: self.column_count as int,
            has_header: self.has_header,
        }
    }
}

/// The cells among `nodes`.
pub open spec fn cells_of(nodes: Seq<NodeText>) -> Seq<Seq<PieceText>>
    decreases nodes.len(),
{
    if nodes.len() == 0 {
        Seq::empty()
    } else {
        let cells = cells_of(nodes.drop_last());
        match nodes.last() {
            NodeText::Element(TagText::TableCell, children) => cells.push(
                pieces_of(children, plain_style()),
            ),
            _ => cells,
        }
    }
}

/// The rows among `nodes`, that of the header included.
pub open spec fn rows_of(nodes: Seq<NodeText>) -> Seq<Seq<Seq<PieceText>>>
    decreases nodes.len(),
{
    if nodes.len() == 0 {
        Seq::empty()
    } else {
        let rows = rows_of(nodes.drop_last());
        match nodes.last() {
            NodeText::Element(TagText::TableHead, children) => rows.push(cells_of(children)),
            NodeText::Element(TagText::TableRow, children) => rows.push(cells_of(children)),
            _ => rows,
        }
    }
}

/// Whether one of `nodes` is a table header.
pub open spec fn holds_header(nodes: Seq<NodeText>) -> bool {
    exists|i: int| 0 <= i < nodes.len() && is_header(#[trigger] nodes[i])
}

/// Whether `node` is a table header.
pub open spec fn is_header(node: NodeText) -> bool {
    node is Element && node->Element_0 is TableHead
}

/// The length of the longest row.
pub open spec fn longest_row(rows: Seq<Seq<Seq<PieceText>>>) -> int
    decreases rows.len(),
{
    if rows.len() == 0 {
        0
    } else {
        larger(longest_row(rows.drop_last()), rows.last().len() as int)
    }
}

/// The larger of two numbers.
pub open spec fn larger(a: int, b: int) -> int {
    if a > b {
        a
    } else {
        b
    }
}

/// The smaller of two numbers.
pub open spec fn smaller(a: int, b: int) -> int {
    if a < b {
        a
    } else {
        b
    }
}

/// How many columns a table has: as many as there are alignments, and as many as the longest row
/// has cells.
pub open spec fn columns_of(alignments: Seq<Alignment>, nodes: Seq<NodeText>) -> int {
    larger(alignments.len() as int, longest_row(rows_of(nodes)))
}

/// The table that `nodes` make up, or nothing where it has no column.
pub open spec fn table_of(alignments: Seq<Alignment>, nodes: Seq<NodeText>) -> Option<TableText> {
    let count = columns_of(alignments, nodes);
    if count == 0 {
        None
    } else {
        Some(
            TableText {
                alignments: alignments + Seq::new(
                    (count - alignments.len()) as nat,
                    |i: int| Alignment::Unset,
                ),
                rows: rows_of(nodes),
                column_count: count,
                has_header: holds_header(nodes),
            },
        )
    }
}

/// The product of two numbers, or the largest `usize` where that is more.
pub fn capped_product(a: usize, b: usize) -> (r: usize)
    ensures
        r == smaller(a * b, usize::MAX as int),
{
    match a.checked_mul(b) {
        Some(product) => product,
        None => usize::MAX,
    }
}

/// The cells among the nodes.
fn table_cells(nodes: &Vec<Node>) -> (r: Vec<Vec<InlinePiece>>)
    ensures
        cells_view(r@) == cells_of(nodes_view(nodes@)),
{
    let mut cells: Vec<Vec<InlinePiece>> = Vec::new();
    let ghost all = nodes_view(nodes@);
    proof {
        lemma_nodes_view(nodes@);
    }
    assert(cells_view(cells@) =~= cells_of(all.take(0)));
    for i in 0..nodes.len()
        invariant
            all == nodes_view(nodes@),
            all.len() == nodes@.len(),
            forall|j: int|
                0 <= j < nodes@.len() ==> #[trigger] all[j] == node_view(nodes@[j]),
            cells_view(cells@) == cells_of(all.take(i as int)),
    {
        assert(all.take(i + 1).drop_last() =~= all.take(i as int));
        assert(all.take(i + 1).last() == all[i as int]);
        let ghost before = cells_view(cells@);
        if let Node::Element { tag: Tag::TableCell, children } = &nodes[i] {
            let cell = inline_pieces(children, TextStyle::default());
            cells.push(cell);
            assert(cells_view(cells@) =~= before.push(pieces_view(cell@)));
        }
    }
    assert(all.take(all.len() as int) =~= all);
    cells
}

/// The length of the longest row.
fn find_longest_row(rows: &Vec<Vec<Vec<InlinePiece>>>) -> (r: usize)
    ensures
        r == longest_row(rows_view(rows@)),
{
    let ghost all = rows_view(rows@);
    let mut longest: usize = 0;
    for i in 0..rows.len()
        invariant
            all == rows_view(rows@),
            longest == longest_row(all.take(i as int)),
    {
        assert(all.take(i + 1).drop_last() =~= all.take(i as int));
        assert(all.take(i + 1).last() == cells_view(rows@[i as int]@));
        if rows[i].len() > longest {
            longest = rows[i].len();
        }
    }
    assert(all.take(all.len() as int) =~= all);
    longest
}

/// The columns that the cell of `row` in `column` wants, if there is one.
pub open spec fn cell_width(row: Seq<Seq<PieceText>>, column: int) -> int {
    if column < row.len() {
        largest_width(wrapped(row[column], unlimited_width())) as int
    } else {
        0
    }
}

/// The columns that the cells of `rows` in `column` want, and at least `minimum`.
pub open spec fn wanted_width(rows: Seq<Seq<Seq<PieceText>>>, column: int, minimum: int) -> int
    decreases rows.len(),
{
    if rows.len() == 0 {
        minimum
    } else {
        larger(wanted_width(rows.drop_last(), column, minimum), cell_width(rows.last(), column))
    }
}

/// The columns that are left for cells of a table that is `total` columns wide: each column has
/// a frame and two spaces, and there is one more frame.
pub open spec fn cell_budget(count: int, total: int) -> int {
    larger(0, total - (3 * count + 1))
}

/// The least width of a column.
pub open spec fn minimum_width(count: int, total: int) -> int {
    if cell_budget(count, total) >= 3 * count {
        3
    } else {
        1
    }
}

/// What each column wants.
pub open spec fn wanted_widths(table: TableText, total: int) -> Seq<int> {
    Seq::new(
        table.column_count as nat,
        |column: int|
            wanted_width(table.rows, column, minimum_width(table.column_count, total)),
    )
}

/// The sum of `numbers`.
pub open spec fn sum_of(numbers: Seq<int>) -> int
    decreases numbers.len(),
{
    if numbers.len() == 0 {
        0
    } else {
        sum_of(numbers.drop_last()) + numbers.last()
    }
}

/// How far `widths` is from `wanted` in `column`.
pub open spec fn shortage(widths: Seq<int>, wanted: Seq<int>, column: int) -> int {
    wanted[column] - widths[column]
}

/// Of the first `count` columns the one that is farthest from what it wants, the last one where
/// there are several, or none where each has what it wants.
pub open spec fn neediest(widths: Seq<int>, wanted: Seq<int>, count: int) -> Option<int>
    decreases count,
{
    if count <= 0 {
        None
    } else {
        let best = neediest(widths, wanted, count - 1);
        let short = shortage(widths, wanted, count - 1);
        if short > 0 && (best is None || short >= shortage(widths, wanted, best->0)) {
            Some(count - 1)
        } else {
            best
        }
    }
}

/// `widths` with `spare` columns dealt out one by one, each to the neediest column.
pub open spec fn grown(widths: Seq<int>, wanted: Seq<int>, spare: int) -> Seq<int>
    decreases spare,
{
    if spare <= 0 {
        widths
    } else {
        match neediest(widths, wanted, widths.len() as int) {
            None => widths,
            Some(column) => grown(widths.update(column, widths[column] + 1), wanted, spare - 1),
        }
    }
}

/// The columns that there are to deal out beyond the least widths.
pub open spec fn spare_columns(table: TableText, total: int) -> int {
    let count = table.column_count;
    smaller(cell_budget(count, total), sum_of(wanted_widths(table, total))) - minimum_width(
        count,
        total,
    ) * count
}

/// The widths of the columns of a table that may be `total` columns wide.
pub open spec fn widths_of(table: TableText, total: int) -> Seq<int> {
    let count = table.column_count;
    grown(
        Seq::new(count as nat, |column: int| minimum_width(count, total)),
        wanted_widths(table, total),
        spare_columns(table, total),
    )
}

/// `widths` as mathematical numbers.
pub open spec fn numbers_view(widths: Seq<usize>) -> Seq<int> {
    widths.map_values(|width: usize| width as int)
}

proof fn lemma_neediest(widths: Seq<int>, wanted: Seq<int>, count: int)
    requires
        count <= widths.len(),
    ensures
        match neediest(widths, wanted, count) {
            Some(column) => 0 <= column < count && shortage(widths, wanted, column) > 0,
            None => true,
        },
    decreases count,
{
    if count > 0 {
        lemma_neediest(widths, wanted, count - 1);
    }
}

/// Of all columns that want more, the neediest wants the most, and those behind it want less.
pub proof fn law_neediest(widths: Seq<int>, wanted: Seq<int>, count: int)
    requires
        0 <= count <= widths.len(),
        widths.len() == wanted.len(),
    ensures
        match neediest(widths, wanted, count) {
            Some(column) => {
                &&& 0 <= column < count
                &&& shortage(widths, wanted, column) > 0
                &&& forall|other: int|
                    0 <= other < count ==> #[trigger] shortage(widths, wanted, other) <= shortage(
                        widths,
                        wanted,
                        column,
                    )
                &&& forall|other: int|
                    column < other < count ==> #[trigger] shortage(widths, wanted, other)
                        < shortage(widths, wanted, column)
            },
            None => forall|other: int|
                0 <= other < count ==> #[trigger] shortage(widths, wanted, other) <= 0,
        },
    decreases count,
{
    if count > 0 {
        law_neediest(widths, wanted, count - 1);
    }
}

/// The sum of numbers of which one is replaced.
pub proof fn lemma_sum_update(numbers: Seq<int>, i: int, value: int)
    requires
        0 <= i < numbers.len(),
    ensures
        sum_of(numbers.update(i, value)) == sum_of(numbers) - numbers[i] + value,
    decreases numbers.len(),
{
    let updated = numbers.update(i, value);
    if i == numbers.len() - 1 {
        assert(updated.drop_last() =~= numbers.drop_last());
    } else {
        lemma_sum_update(numbers.drop_last(), i, value);
        assert(updated.drop_last() =~= numbers.drop_last().update(i, value));
    }
}

/// Dealing out columns adds no more than there are, keeps the number of columns, narrows none,
/// and gives none more than it wants or had.
pub proof fn law_grown(widths: Seq<int>, wanted: Seq<int>, spare: int)
    requires
        widths.len() == wanted.len(),
    ensures
        grown(widths, wanted, spare).len() == widths.len(),
        sum_of(widths) <= sum_of(grown(widths, wanted, spare)) <= sum_of(widths) + larger(0, spare),
        forall|i: int|
            0 <= i < widths.len() ==> widths[i] <= #[trigger] grown(widths, wanted, spare)[i]
                <= larger(widths[i], wanted[i]),
    decreases spare,
{
    if spare > 0 {
        lemma_neediest(widths, wanted, widths.len() as int);
        if let Some(column) = neediest(widths, wanted, widths.len() as int) {
            let next = widths.update(column, widths[column] + 1);
            lemma_sum_update(widths, column, widths[column] + 1);
            law_grown(next, wanted, spare - 1);
            assert forall|i: int| 0 <= i < widths.len() implies widths[i] <= #[trigger] grown(
                widths,
                wanted,
                spare,
            )[i] <= larger(widths[i], wanted[i]) by {
                assert(next[i] <= grown(next, wanted, spare - 1)[i]);
            }
        }
    }
}

/// The sum of as many numbers that are the same.
pub proof fn lemma_sum_constant(count: nat, value: int)
    ensures
        sum_of(Seq::new(count, |column: int| value)) == value * count,
    decreases count,
{
    let all = Seq::new(count, |column: int| value);
    if count > 0 {
        lemma_sum_constant((count - 1) as nat, value);
        assert(all.drop_last() =~= Seq::new((count - 1) as nat, |column: int| value));
        assert(value * count == value * (count - 1) + value) by (nonlinear_arith);
    } else {
        assert(value * count == 0) by (nonlinear_arith)
            requires
                count == 0,
        ;
    }
}

/// A table that has room for three columns per cell fits into the width that it is given, frames
/// included, and each of its columns is at least three wide.
pub proof fn law_table_fits(table: TableText, total: int)
    requires
        table.column_count > 0,
        total >= 6 * table.column_count + 1,
    ensures
        widths_of(table, total).len() == table.column_count,
        sum_of(widths_of(table, total)) + 3 * table.column_count + 1 <= total,
        forall|i: int|
            0 <= i < table.column_count ==> 3 <= #[trigger] widths_of(table, total)[i],
{
    let count = table.column_count;
    let start = Seq::new(count as nat, |column: int| minimum_width(count, total));
    assert(start =~= Seq::new(count as nat, |column: int| 3int));
    lemma_sum_constant(count as nat, 3);
    law_grown(start, wanted_widths(table, total), spare_columns(table, total));
    assert forall|i: int| 0 <= i < count implies 3 <= #[trigger] widths_of(table, total)[i] by {
        assert(start[i] == 3);
    }
}

impl TableData {
    /// Whether each column has an alignment.
    pub open spec fn is_valid(&self) -> bool {
        self.alignments@.len() == self.column_count
    }

    /// The table that the nodes make up, or nothing where it has no column.
    pub fn from_nodes(alignments: &Vec<Alignment>, children: &Vec<Node>) -> (r: Option<Self>)
        ensures
            match r {
                Some(table) => table_of(alignments@, nodes_view(children@)) == Some(table@)
                    && table.is_valid() && table.column_count > 0,
                None => table_of(alignments@, nodes_view(children@)) is None,
            },
    {
        let mut rows: Vec<Vec<Vec<InlinePiece>>> = Vec::new();
        let mut has_header = false;
        let ghost all = nodes_view(children@);
        proof {
            lemma_nodes_view(children@);
        }
        assert(rows_view(rows@) =~= rows_of(all.take(0)));
        for i in 0..children.len()
            invariant
                all == nodes_view(children@),
                all.len() == children@.len(),
                forall|j: int|
                    0 <= j < children@.len() ==> #[trigger] all[j] == node_view(children@[j]),
                rows_view(rows@) == rows_of(all.take(i as int)),
                has_header == holds_header(all.take(i as int)),
        {
            assert(all.take(i + 1).drop_last() =~= all.take(i as int));
            assert(all.take(i + 1).last() == all[i as int]);
            let ghost before = rows_view(rows@);
            let ghost had = has_header;
            match &children[i] {
                Node::Element { tag: Tag::TableHead, children } => {
                    has_header = true;
                    let row = table_cells(children);
                    rows.push(row);
                    assert(rows_view(rows@) =~= before.push(cells_view(row@)));
                    assert(is_header(all.take(i + 1)[i as int]));
                },
                Node::Element { tag: Tag::TableRow, children } => {
                    let row = table_cells(children);
                    rows.push(row);
                    assert(rows_view(rows@) =~= before.push(cells_view(row@)));
                },
                _ => {},
            }
            proof {
                if had {
                    let j = choose|j: int|
                        0 <= j < i && is_header(#[trigger] all.take(i as int)[j]);
                    assert(all.take(i + 1)[j] == all.take(i as int)[j]);
                }
                if holds_header(all.take(i + 1)) && !is_header(all[i as int]) {
                    let j = choose|j: int|
                        0 <= j < i + 1 && is_header(#[trigger] all.take(i + 1)[j]);
                    assert(all.take(i as int)[j] == all.take(i + 1)[j]);
                }
            }
        }
        assert(all.take(all.len() as int) =~= all);
        let longest = find_longest_row(&rows);
        let column_count = if alignments.len() > longest {
            alignments.len()
        } else {
            longest
        };
        if column_count == 0 {
            return None;
        }
        let mut normalized: Vec<Alignment> = Vec::new();
        for i in 0..column_count
            invariant
                alignments@.len() <= column_count,
                normalized@ == (alignments@ + Seq::new(
                    (column_count - alignments@.len()) as nat,
                    |i: int| Alignment::Unset,
                )).take(i as int),
        {
            if i < alignments.len() {
                normalized.push(alignments[i]);
            } else {
                normalized.push(Alignment::Unset);
            }
        }
        let table = TableData { alignments: normalized, rows, column_count, has_header };
        assert(table_of(alignments@, all)->0 =~= table@);
        Some(table)
    }

    /// The columns that the cells of one column want, and at least `minimum`.
    fn desired_width(&self, column: usize, minimum: usize) -> (r: usize)
        ensures
            r == wanted_width(self@.rows, column as int, minimum as int),
    {
        let ghost all = rows_view(self.rows@);
        let mut desired = minimum;
        for i in 0..self.rows.len()
            invariant
                all == rows_view(self.rows@),
                desired == wanted_width(all.take(i as int), column as int, minimum as int),
        {
            assert(all.take(i + 1).drop_last() =~= all.take(i as int));
            let row = &self.rows[i];
            assert(all.take(i + 1).last() == cells_view(row@));
            if column < row.len() {
                assert(cells_view(row@)[column as int] == pieces_view(row@[column as int]@));
                let width = natural_inline_width(&row[column]);
                if width > desired {
                    desired = width;
                }
            }
        }
        assert(all.take(all.len() as int) =~= all);
        desired
    }

    /// The widths of the columns of the table, which may be `total_width` columns wide.
    pub fn column_widths(&self, total_width: usize) -> (r: Vec<usize>)
        ensures
            numbers_view(r@) == widths_of(self@, total_width as int),
            r@.len() == self.column_count,
    {
        let count = self.column_count;
        let frame = capped_product(count, 3).saturating_add(1);
        let budget = total_width.saturating_sub(frame);
        assert(budget == cell_budget(count as int, total_width as int));
        let minimum: usize = if budget >= capped_product(count, 3) {
            3
        } else {
            1
        };
        assert(minimum == minimum_width(count as int, total_width as int));
        let mut widths: Vec<usize> = Vec::new();
        let mut desired: Vec<usize> = Vec::new();
        let mut desired_budget: usize = 0;
        let ghost wanted = wanted_widths(self@, total_width as int);
        let ghost start = Seq::new(count as nat, |column: int| minimum as int);
        for column in 0..count
            invariant
                count == self.column_count,
                wanted == wanted_widths(self@, total_width as int),
                wanted.len() == count,
                minimum == minimum_width(count as int, total_width as int),
                start == Seq::new(count as nat, |column: int| minimum as int),
                numbers_view(widths@) == start.take(column as int),
                numbers_view(desired@) == wanted.take(column as int),
                desired_budget == smaller(sum_of(wanted.take(column as int)), usize::MAX as int),
                forall|i: int| 0 <= i < column ==> #[trigger] wanted[i] >= 0,
                sum_of(wanted.take(column as int)) >= 0,
        {
            let ghost before = numbers_view(widths@);
            let ghost wanted_before = numbers_view(desired@);
            let width = self.desired_width(column, minimum);
            assert(wanted[column as int] == width);
            widths.push(minimum);
            desired.push(width);
            desired_budget = desired_budget.saturating_add(width);
            assert(numbers_view(widths@) =~= before.push(minimum as int));
            assert(before.push(minimum as int) =~= start.take(column + 1));
            assert(numbers_view(desired@) =~= wanted_before.push(width as int));
            assert(wanted_before.push(width as int) =~= wanted.take(column + 1));
            assert(wanted.take(column + 1).drop_last() =~= wanted.take(column as int));
        }
        assert(wanted.take(count as int) =~= wanted);
        assert(start.take(count as int) =~= start);
        let target = if budget < desired_budget {
            budget
        } else {
            desired_budget
        };
        let least = capped_product(minimum, count);
        assert(minimum * count >= 0) by (nonlinear_arith)
            requires
                minimum >= 0,
                count >= 0,
        ;
        let mut remaining = target.saturating_sub(least);
        let ghost spare = spare_columns(self@, total_width as int);
        assert(remaining == larger(0, spare));
        assert(start =~= Seq::new(
            count as nat,
            |column: int| minimum_width(count as int, total_width as int),
        ));
        assert(grown(start, wanted, remaining as int) == grown(start, wanted, spare));
        while remaining > 0
            invariant_except_break
                grown(numbers_view(widths@), wanted, remaining as int) == grown(
                    start,
                    wanted,
                    spare,
                ),
            invariant
                widths@.len() == count,
                wanted.len() == count,
                numbers_view(desired@) == wanted,
            ensures
                numbers_view(widths@) == grown(start, wanted, spare),
            decreases remaining,
        {
            let ghost now = numbers_view(widths@);
            let column = match find_neediest(&widths, &desired) {
                Some(column) => column,
                None => {
                    break ;
                },
            };
            proof {
                lemma_neediest(now, wanted, count as int);
            }
            assert(wanted[column as int] == desired@[column as int]);
            let wider = widths[column] + 1;
            widths.set(column, wider);
            assert(numbers_view(widths@) =~= now.update(column as int, now[column as int] + 1));
            remaining = remaining - 1;
        }
        widths
    }
}

/// The column that is farthest from what it wants, the last one where there are several.
fn find_neediest(widths: &Vec<usize>, desired: &Vec<usize>) -> (r: Option<usize>)
    requires
        widths@.len() == desired@.len(),
    ensures
        match r {
            Some(column) => neediest(
                numbers_view(widths@),
                numbers_view(desired@),
                widths@.len() as int,
            ) == Some(column as int),
            None => neediest(
                numbers_view(widths@),
                numbers_view(desired@),
                widths@.len() as int,
            ) is None,
        },
{
    let ghost now = numbers_view(widths@);
    let ghost wanted = numbers_view(desired@);
    let mut best: Option<usize> = None;
    for column in 0..widths.len()
        invariant
            now == numbers_view(widths@),
            wanted == numbers_view(desired@),
            widths@.len() == desired@.len(),
            best matches Some(b) ==> b < column && desired@[b as int] > widths@[b as int],
            match best {
                Some(b) => neediest(now, wanted, column as int) == Some(b as int),
                None => neediest(now, wanted, column as int) is None,
            },
    {
        assert(shortage(now, wanted, column as int) == desired@[column as int]
            - widths@[column as int]);
        if widths[column] < desired[column] {
            let short = desired[column] - widths[column];
            let better = match best {
                Some(b) => {
                    assert(shortage(now, wanted, b as int) == desired@[b as int]
                        - widths@[b as int]);
                    short >= desired[b] - widths[b]
                },
                None => true,
            };
            if better {
                best = Some(column);
            }
        }
    }
    best
}

/// The spaces that are missing from `line` to `width` columns.
pub open spec fn padding_of(line: Seq<SpanText>, width: int) -> int {
    larger(0, width - line_width(line))
}

/// `line` filled up with spaces to `width` columns, on the side that `alignment` leaves free.
pub open spec fn aligned(line: Seq<SpanText>, width: int, alignment: Alignment) -> Seq<SpanText> {
    let padding = padding_of(line, width);
    let left = match alignment {
        Alignment::Right => padding,
        Alignment::Center => padding / 2,
        _ => 0,
    };
    pushed(
        prepended(line, repeated(' ', left as nat), plain_style()),
        repeated(' ', (padding - left) as nat),
        plain_style(),
    )
}

/// Fills the line up with spaces to `width` columns.
pub fn align_line(line: StyledLine, width: usize, alignment: Alignment) -> (r: StyledLine)
    ensures
        r@ == aligned(line@, width as int, alignment),
{
    let mut line = line;
    let padding = width.saturating_sub(line.width());
    let left = match alignment {
        Alignment::Right => padding,
        Alignment::Center => padding / 2,
        _ => 0,
    };
    line.prepend(&repeat_char(' ', left), TextStyle::default());
    line.push(&repeat_char(' ', padding - left), TextStyle::default());
    line
}

/// `line` filled up with spaces to `width` columns.
pub open spec fn padded(line: Seq<SpanText>, width: int) -> Seq<SpanText> {
    pushed(line, repeated(' ', padding_of(line, width) as nat), plain_style())
}

/// Fills the line up with spaces to `width` columns.
pub fn pad_line_right(line: StyledLine, width: usize) -> (r: StyledLine)
    ensures
        r@ == padded(line@, width as int),
{
    let mut line = line;
    let padding = width.saturating_sub(line.width());
    line.push(&repeat_char(' ', padding), TextStyle::default());
    line
}

/// The text of a frame line across columns of `widths`.
pub open spec fn border_text(left: char, middle: char, right: char, widths: Seq<int>) -> Seq<char> {
    seq![left] + border_cells(middle, right, widths, widths.len() as int)
}

/// The text of a frame line across the first `count` of the columns.
pub open spec fn border_cells(middle: char, right: char, widths: Seq<int>, count: int) -> Seq<char>
    decreases count,
{
    if count <= 0 {
        Seq::empty()
    } else {
        border_cells(middle, right, widths, count - 1) + repeated(
            '─',
            (widths[count - 1] + 2) as nat,
        ).push(
            if count == widths.len() {
                right
            } else {
                middle
            },
        )
    }
}

/// A line of one span.
pub open spec fn span_line(text: Seq<char>, style: TextStyle) -> Seq<SpanText> {
    seq![SpanText { text, style }]
}

/// The line of one span of `text`.
pub fn text_line(text: &str, style: TextStyle) -> (r: StyledLine)
    requires
        text@.len() > 0,
    ensures
        r@ == span_line(text@, style),
{
    let mut line = StyledLine::default();
    line.push(text, style);
    assert(line@ =~= span_line(text@, style));
    line
}

/// The frame line across columns of `widths`.
pub fn table_border(
    left: char,
    middle: char,
    right: char,
    widths: &Vec<usize>,
    style: TextStyle,
) -> (r: StyledLine)
    requires
        forall|i: int| 0 <= i < widths@.len() ==> #[trigger] widths@[i] + 2 <= usize::MAX,
    ensures
        r@ == span_line(border_text(left, middle, right, numbers_view(widths@)), style),
{
    let ghost all = numbers_view(widths@);
    let mut text = String::new();
    text.push(left);
    assert(text@ =~= seq![left] + border_cells(middle, right, all, 0));
    for i in 0..widths.len()
        invariant
            all == numbers_view(widths@),
            forall|i: int| 0 <= i < widths@.len() ==> #[trigger] widths@[i] + 2 <= usize::MAX,
            text@ == seq![left] + border_cells(middle, right, all, i as int),
    {
        let ghost before = border_cells(middle, right, all, i as int);
        assert(all[i as int] == widths@[i as int]);
        text.append(&repeat_char('─', widths[i] + 2));
        if i + 1 == widths.len() {
            text.push(right);
        } else {
            text.push(middle);
        }
        assert(text@ =~= seq![left] + border_cells(middle, right, all, i + 1));
    }
    text_line(&text, style)
}

/// The text of a frame line of `width` columns.
pub open spec fn box_text(left: char, right: char, width: int) -> Seq<char> {
    repeated('─', larger(0, width - 2) as nat).insert(0, left).push(right)
}

/// The frame line of `width` columns.
pub fn single_box_border(left: char, right: char, width: usize, style: TextStyle) -> (r: StyledLine)
    ensures
        r@ == span_line(box_text(left, right, width as int), style),
{
    let mut text = String::new();
    text.push(left);
    text.append(&repeat_char('─', width.saturating_sub(2)));
    text.push(right);
    assert(text@ =~= box_text(left, right, width as int));
    text_line(&text, style)
}

} // verus!
