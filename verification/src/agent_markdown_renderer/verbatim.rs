//! Literal text keeps its lines: they end where the lines of the text do.

use vstd::prelude::*;

use crate::agent_markdown_renderer::inline::breaks_line;
use crate::agent_markdown_renderer::literal::cluster_laid;
use crate::agent_markdown_renderer::literal::clusters_laid;
use crate::agent_markdown_renderer::literal::ends_with_break;
use crate::agent_markdown_renderer::literal::literal_start;
use crate::agent_markdown_renderer::literal::literal_wrapped;
use crate::agent_markdown_renderer::literal::shown_cluster;
use crate::agent_markdown_renderer::measure::clusters;
use crate::agent_markdown_renderer::measure::is_cluster;
use crate::agent_markdown_renderer::measure::law_clusters_divide;
use crate::agent_markdown_renderer::measure::text_width;
use crate::agent_markdown_renderer::style::TextStyle;
use crate::agent_markdown_renderer::styled::law_line_text;
use crate::agent_markdown_renderer::styled::line_text;
use crate::agent_markdown_renderer::words::texts_of;
use crate::parts::joined_with;

verus! {

/// Whether `cluster` is a line end: a line feed, a carriage return, or both.
pub open spec fn is_line_end(cluster: Seq<char>) -> bool {
    cluster.contains('\n') || cluster.contains('\r')
}

/// What is to be read of the first `count` of `parts`, with a line feed for each line end.
pub open spec fn read_with_line_ends(parts: Seq<Seq<char>>, count: int) -> Seq<char>
    decreases count,
{
    if count <= 0 {
        Seq::empty()
    } else {
        read_with_line_ends(parts, count - 1) + if is_line_end(parts[count - 1]) {
            "\n"@
        } else {
            shown_cluster(parts[count - 1])
        }
    }
}

/// The columns that the first `count` of `parts` take up behind their last line end.
pub open spec fn columns_behind_line_end(parts: Seq<Seq<char>>, count: int) -> int
    decreases count,
{
    if count <= 0 || is_line_end(parts[count - 1]) {
        0
    } else {
        columns_behind_line_end(parts, count - 1) + text_width(shown_cluster(parts[count - 1]))
    }
}

/// Whether each line of `text` fits into `width` columns.
pub open spec fn lines_fit(text: Seq<char>, width: int) -> bool {
    forall|count: int|
        0 <= count <= clusters(text).len() ==> #[trigger] columns_behind_line_end(
            clusters(text),
            count,
        ) <= width
}

proof fn lemma_joined_last(parts: Seq<Seq<char>>, last: Seq<char>, more: Seq<char>)
    ensures
        joined_with(parts.push(last + more), "\n"@) == joined_with(parts.push(last), "\n"@) + more,
        joined_with(parts.push(last).push(more), "\n"@) == joined_with(parts.push(last), "\n"@)
            + "\n"@ + more,
{
    assert(parts.push(last + more).drop_last() =~= parts);
    assert(parts.push(last).drop_last() =~= parts);
    assert(parts.push(last).push(more).drop_last() =~= parts.push(last));
    assert(joined_with(parts.push(last + more), "\n"@) =~= joined_with(parts.push(last), "\n"@)
        + more);
}

proof fn lemma_laid(parts: Seq<Seq<char>>, style: TextStyle, width: int, count: int)
    requires
        0 <= count <= parts.len(),
        1 <= width,
        forall|n: int|
            0 <= n <= parts.len() ==> #[trigger] columns_behind_line_end(parts, n) <= width,
    ensures
        ({
            let laid = clusters_laid(literal_start(width), parts.take(count), style);
            &&& laid.width == width
            &&& laid.column == columns_behind_line_end(parts, count)
            &&& joined_with(texts_of(laid.lines.push(laid.line)), "\n"@) == read_with_line_ends(
                parts,
                count,
            )
            &&& count > 0 && is_line_end(parts[count - 1]) ==> laid.line.len() == 0
                && laid.lines.len() > 0
        }),
    decreases count,
{
    let start = literal_start(width);
    if count == 0 {
        assert(parts.take(0) =~= Seq::empty());
        assert(texts_of(start.lines.push(start.line)) =~= seq![Seq::<char>::empty()]);
    } else {
        lemma_laid(parts, style, width, count - 1);
        assert(parts.take(count).drop_last() =~= parts.take(count - 1));
        let before = clusters_laid(start, parts.take(count - 1), style);
        let part = parts[count - 1];
        let shown = shown_cluster(part);
        let after = cluster_laid(before, part, style);
        assert(breaks_line(part) == is_line_end(part));
        let texts = texts_of(before.lines);
        assert(texts_of(before.lines.push(before.line)) =~= texts.push(line_text(before.line)));
        if is_line_end(part) {
            lemma_joined_last(texts, line_text(before.line), Seq::empty());
            assert(texts_of(after.lines.push(after.line)) =~= texts.push(
                line_text(before.line),
            ).push(Seq::empty()));
            let all = read_with_line_ends(parts, count - 1) + "\n"@;
            assert(all + Seq::<char>::empty() =~= all);
        } else {
            assert(columns_behind_line_end(parts, count) <= width);
            assert(columns_behind_line_end(parts, count - 1) >= 0) by {
                lemma_columns(parts, count - 1);
            }
            law_line_text(before.line, shown, style);
            lemma_joined_last(texts, line_text(before.line), shown);
            if shown.len() == 0 {
                assert(text_width(shown) == 0) by {
                    assert(shown =~= Seq::empty());
                }
                let all = read_with_line_ends(parts, count - 1);
                assert(all + shown =~= all);
            } else {
                assert(texts_of(after.lines.push(after.line)) =~= texts.push(
                    line_text(before.line) + shown,
                ));
            }
        }
    }
}

proof fn lemma_columns(parts: Seq<Seq<char>>, count: int)
    ensures
        0 <= columns_behind_line_end(parts, count),
    decreases count,
{
    if count > 0 && !is_line_end(parts[count - 1]) {
        lemma_columns(parts, count - 1);
    }
}

/// Literal text keeps its lines where each of them fits: one line of it is one line of the text, and
/// what the text ends with adds none.
pub proof fn law_literal_lines_are_those_of_the_text(
    text: Seq<char>,
    width: int,
    style: TextStyle,
)
    requires
        1 <= width,
        lines_fit(text, width),
    ensures
        ({
            let lines = texts_of(literal_wrapped(text, width, style));
            let all = read_with_line_ends(clusters(text), clusters(text).len() as int);
            all == joined_with(lines, "\n"@) + if text.len() > 0 && (text.last() == '\n'
                || text.last() == '\r') {
                "\n"@
            } else {
                Seq::empty()
            }
        }),
{
    let parts = clusters(text);
    let count = parts.len() as int;
    law_clusters_divide(text);
    lemma_laid(parts, style, width, count);
    assert(parts.take(count) =~= parts);
    let laid = clusters_laid(literal_start(width), parts, style);
    let lines = texts_of(laid.lines);
    assert(texts_of(laid.lines.push(laid.line)) =~= lines.push(line_text(laid.line)));
    let all = read_with_line_ends(parts, count);
    if ends_with_break(text) {
        assert(parts.len() > 0);
        let last = parts.last();
        assert(parts[count - 1] == last);
        assert(is_cluster(last));
        assert(text.last() == last.last());
        assert(last.contains(last.last()));
        assert(is_line_end(last));
        assert(laid.line =~= Seq::empty());
        let before = lines.drop_last();
        assert(lines =~= before.push(lines.last()));
        lemma_joined_last(before, lines.last(), Seq::empty());
        assert(joined_with(lines, "\n"@) + "\n"@ + Seq::<char>::empty() =~= joined_with(lines, "\n"@)
            + "\n"@);
    } else {
        assert(joined_with(lines.push(line_text(laid.line)), "\n"@) + Seq::<char>::empty()
            =~= joined_with(lines.push(line_text(laid.line)), "\n"@));
    }
}

} // verus!
