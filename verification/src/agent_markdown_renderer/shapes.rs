//! What each kind of block looks like, line by line.

use vstd::prelude::*;

use crate::agent_markdown_renderer::content::literal_of;
use crate::agent_markdown_renderer::content::pieces_of;
use crate::agent_markdown_renderer::document::NodeText;
use crate::agent_markdown_renderer::document::QuoteKind;
use crate::agent_markdown_renderer::document::TagText;
use crate::agent_markdown_renderer::inline::wrapped;
use crate::agent_markdown_renderer::literal::literal_wrapped;
use crate::agent_markdown_renderer::measure::clusters;
use crate::agent_markdown_renderer::measure::joined;
use crate::agent_markdown_renderer::measure::law_clusters_divide;
use crate::agent_markdown_renderer::measure::text_width;
use crate::agent_markdown_renderer::measure::total_width;
use crate::agent_markdown_renderer::renderer::at_least_a_line;
use crate::agent_markdown_renderer::renderer::blocks;
use crate::agent_markdown_renderer::renderer::blocks_laid;
use crate::agent_markdown_renderer::renderer::code_lines;
use crate::agent_markdown_renderer::renderer::end_breaks_trimmed;
use crate::agent_markdown_renderer::renderer::footnote_style;
use crate::agent_markdown_renderer::renderer::hung;
use crate::agent_markdown_renderer::renderer::is_item;
use crate::agent_markdown_renderer::renderer::item_count;
use crate::agent_markdown_renderer::renderer::loose_flushed;
use crate::agent_markdown_renderer::renderer::node_block;
use crate::agent_markdown_renderer::renderer::prefixed;
use crate::agent_markdown_renderer::renderer::quote_title;
use crate::agent_markdown_renderer::style::colored_style;
use crate::agent_markdown_renderer::style::plain_style;
use crate::agent_markdown_renderer::style::ColorRole;
use crate::agent_markdown_renderer::style::TextStyle;
use crate::agent_markdown_renderer::styled::blank_end_trimmed;
use crate::agent_markdown_renderer::styled::blank_start_trimmed;
use crate::agent_markdown_renderer::styled::blank_trimmed;
use crate::agent_markdown_renderer::styled::clipped;
use crate::agent_markdown_renderer::styled::clipped_parts;
use crate::agent_markdown_renderer::styled::clipped_spans;
use crate::agent_markdown_renderer::styled::cluster_columns;
use crate::agent_markdown_renderer::styled::is_blank_line;
use crate::agent_markdown_renderer::styled::law_line_text;
use crate::agent_markdown_renderer::styled::line_text;
use crate::agent_markdown_renderer::styled::pushed;
use crate::agent_markdown_renderer::styled::Clip;
use crate::agent_markdown_renderer::styled::SpanText;
use crate::text::decimal;
use crate::text::first_word;
use crate::text::repeated;

verus! {

/// `columns`, but at least one.
pub open spec fn one_or_more(columns: int) -> int {
    if columns < 1 {
        1
    } else {
        columns
    }
}

/// The text of the line `index` of `lines`, empty where there is none.
pub open spec fn text_at(lines: Seq<Seq<SpanText>>, index: int) -> Seq<char> {
    if 0 <= index < lines.len() {
        line_text(lines[index])
    } else {
        Seq::empty()
    }
}

/// Whether `lines` is `inner`, or an empty line where that is nothing, with `first` in front of the
/// first line and `rest` in front of each other one.
pub open spec fn stands_behind(
    lines: Seq<Seq<SpanText>>,
    inner: Seq<Seq<SpanText>>,
    first: Seq<char>,
    rest: Seq<char>,
) -> bool {
    &&& lines.len() == one_or_more(inner.len() as int)
    &&& line_text(lines[0]) == first + text_at(inner, 0)
    &&& forall|i: int|
        0 < i < lines.len() ==> line_text(#[trigger] lines[i]) == rest + text_at(inner, i)
}

proof fn lemma_prefixed(
    inner: Seq<Seq<SpanText>>,
    first: Seq<char>,
    first_style: TextStyle,
    rest: Seq<char>,
    rest_style: TextStyle,
)
    ensures
        stands_behind(
            prefixed(at_least_a_line(inner), first, first_style, rest, rest_style),
            inner,
            first,
            rest,
        ),
        inner.len() > 0 ==> stands_behind(
            prefixed(inner, first, first_style, rest, rest_style),
            inner,
            first,
            rest,
        ),
{
    let all = at_least_a_line(inner);
    let lines = prefixed(all, first, first_style, rest, rest_style);
    assert forall|i: int| 0 <= i < lines.len() implies line_text(#[trigger] lines[i]) == (if i
        == 0 {
        first
    } else {
        rest
    }) + text_at(inner, i) by {
        if i == 0 {
            law_line_text(all[i], first, first_style);
        } else {
            law_line_text(all[i], rest, rest_style);
        }
    }
}

/// Whether `lines` hang behind `prefix`: it stands in front of the first line, and as many spaces
/// as it takes up columns stand in front of the others.
pub open spec fn hang_behind(
    lines: Seq<Seq<SpanText>>,
    inner: Seq<Seq<SpanText>>,
    prefix: Seq<char>,
) -> bool {
    stands_behind(lines, inner, prefix, repeated(' ', text_width(prefix)))
}

/// What is hung behind a prefix hangs behind it.
pub proof fn lemma_hung(prefix: Seq<char>, style: TextStyle, inner: Seq<Seq<SpanText>>)
    ensures
        hang_behind(hung(prefix, style, inner), inner, prefix),
{
    lemma_prefixed(inner, prefix, style, repeated(' ', text_width(prefix)), plain_style());
}

/// What an alert is headed with.
pub open spec fn alert_heading(kind: QuoteKind) -> Seq<char> {
    match kind {
        QuoteKind::Note => "NOTE"@,
        QuoteKind::Tip => "TIP"@,
        QuoteKind::Important => "IMPORTANT"@,
        QuoteKind::Warning => "WARNING"@,
        QuoteKind::Caution => "CAUTION"@,
    }
}

/// A quote stands behind a bar, line by line, two columns narrower than what is around it. An alert
/// has its heading above it, behind the bar too.
pub proof fn law_quotes_stand_behind_a_bar(
    kind: Option<QuoteKind>,
    children: Seq<NodeText>,
    width: int,
)
    ensures
        ({
            let inner = blocks(children, one_or_more(width - 2));
            let shown = node_block(NodeText::Element(TagText::BlockQuote(kind), children), width);
            shown matches Some(lines) && match kind {
                None => stands_behind(lines, inner, "│ "@, "│ "@),
                Some(alert) => {
                    &&& lines.len() == inner.len() + 1
                    &&& line_text(lines[0]) == "│ "@ + alert_heading(alert)
                    &&& forall|i: int|
                        0 <= i < inner.len() ==> line_text(lines[i + 1]) == "│ "@ + line_text(
                            #[trigger] inner[i],
                        )
                },
            }
        }),
{
    let inner = blocks(children, one_or_more(width - 2));
    let node = NodeText::Element(TagText::BlockQuote(kind), children);
    let lines = node_block(node, width)->0;
    let accent = colored_style(ColorRole::Accent);
    match kind {
        None => {
            assert(quote_title(kind) + inner =~= inner);
            lemma_prefixed(inner, "│ "@, accent, "│ "@, accent);
        },
        Some(alert) => {
            let titled = quote_title(kind) + inner;
            lemma_prefixed(titled, "│ "@, accent, "│ "@, accent);
            reveal_with_fuel(line_text, 2);
            assert(titled[0].drop_last() =~= Seq::empty());
            assert(line_text(titled[0]) =~= alert_heading(alert));
            assert forall|i: int| 0 <= i < inner.len() implies line_text(lines[i + 1]) == "│ "@
                + line_text(#[trigger] inner[i]) by {
                assert(titled[i + 1] == inner[i]);
                assert(line_text(lines[i + 1]) == "│ "@ + text_at(titled, i + 1));
            }
        },
    }
}

/// What stands in front of the item `index` of a list: a bullet, or its number, counted from that of
/// the first one.
pub open spec fn item_sign(start: Option<u64>, index: int) -> Seq<char> {
    match start {
        None => "• "@,
        Some(first) => decimal((first + index) as nat) + ". "@,
    }
}

proof fn lemma_item_count(items: Seq<NodeText>)
    requires
        forall|i: int| 0 <= i < items.len() ==> is_item(#[trigger] items[i]),
    ensures
        item_count(items) == items.len(),
    decreases items.len(),
{
    if items.len() > 0 {
        let rest = items.drop_last();
        assert(forall|i: int| 0 <= i < rest.len() ==> #[trigger] rest[i] == items[i]);
        assert(items.last() == items[items.len() - 1]);
        lemma_item_count(rest);
    }
}

/// The items of a list are numbered one by one from the number of the first one, or have bullets,
/// and each hangs behind its sign, below the ones before it.
pub proof fn law_items_are_numbered(
    start: Option<u64>,
    items: Seq<NodeText>,
    children: Seq<NodeText>,
    width: int,
)
    requires
        forall|i: int|
            0 <= i < items.len() ==> (#[trigger] items[i]) is Element && items[i]->Element_0 is Item,
        start matches Some(first) ==> first + items.len() <= u64::MAX,
    ensures
        ({
            let item = NodeText::Element(TagText::Item, children);
            let sign = item_sign(start, items.len() as int);
            let inner = blocks(children, one_or_more(width - text_width(sign)));
            let before = node_block(NodeText::Element(TagText::List(start), items), width);
            let after = node_block(NodeText::Element(TagText::List(start), items.push(item)), width);
            &&& before is Some && after is Some
            &&& before->0.len() <= after->0.len()
            &&& after->0.take(before->0.len() as int) == before->0
            &&& hang_behind(after->0.skip(before->0.len() as int), inner, sign)
        }),
{
    let item = NodeText::Element(TagText::Item, children);
    let sign = item_sign(start, items.len() as int);
    let inner = blocks(children, one_or_more(width - text_width(sign)));
    assert forall|i: int| 0 <= i < items.len() implies is_item(#[trigger] items[i]) by {}
    lemma_item_count(items);
    let all = items.push(item);
    assert(all.drop_last() =~= items);
    let style = colored_style(ColorRole::Muted);
    lemma_hung(sign, style, inner);
    let before = node_block(NodeText::Element(TagText::List(start), items), width)->0;
    let after = node_block(NodeText::Element(TagText::List(start), all), width)->0;
    assert(after == before + hung(sign, style, inner));
    assert(after.take(before.len() as int) =~= before);
    assert(after.skip(before.len() as int) =~= hung(sign, style, inner));
}

/// A footnote hangs behind its label in brackets.
pub proof fn law_footnotes_hang_behind_their_label(
    label: Seq<char>,
    children: Seq<NodeText>,
    width: int,
)
    ensures
        ({
            let prefix = "["@ + label + "] "@;
            let inner = blocks(children, one_or_more(width - text_width(prefix)));
            let shown = node_block(
                NodeText::Element(TagText::FootnoteDefinition(label), children),
                width,
            );
            shown matches Some(lines) && hang_behind(lines, inner, prefix)
        }),
{
    let prefix = "["@ + label + "] "@;
    let inner = blocks(children, one_or_more(width - text_width(prefix)));
    lemma_hung(prefix, footnote_style(), inner);
}

/// A formula by itself stands behind a bar, where there is room for one, with or without a paragraph
/// around it.
pub proof fn law_formulas_stand_behind_a_bar(formula: Seq<char>, width: int)
    ensures
        ({
            let math = NodeText::DisplayMath(formula);
            let style = TextStyle { color: ColorRole::Math, ..plain_style() };
            let shown = node_block(math, width);
            &&& shown matches Some(lines) && if width < 3 {
                lines == literal_wrapped(formula, width, style)
            } else {
                stands_behind(lines, literal_wrapped(formula, width - 2, style), "│ "@, "│ "@)
            }
            &&& node_block(NodeText::Element(TagText::Paragraph, seq![math]), width) == shown
        }),
{
    let style = TextStyle { color: ColorRole::Math, ..plain_style() };
    let inner = literal_wrapped(formula, width - 2, style);
    lemma_prefixed(inner, "│ "@, style, "│ "@, style);
}

/// A paragraph is its content, wrapped, and a heading is that in bold, underlined on the first
/// level.
pub proof fn law_paragraphs_and_headings_are_wrapped(
    children: Seq<NodeText>,
    level: u8,
    width: int,
)
    ensures
        !(children.len() == 1 && children[0] is DisplayMath) ==> node_block(
            NodeText::Element(TagText::Paragraph, children),
            width,
        ) == Some(wrapped(pieces_of(children, plain_style()), width)),
        node_block(NodeText::Element(TagText::Heading(level), children), width) == Some(
            wrapped(
                pieces_of(
                    children,
                    TextStyle { bold: true, underlined: level == 1, ..plain_style() },
                ),
                width,
            ),
        ),
{
}

/// A rule is a line as wide as there are columns.
pub proof fn law_rules_take_up_all_columns(width: int)
    requires
        0 < width,
    ensures
        node_block(NodeText::Rule, width) matches Some(lines) && lines.len() == 1 && line_text(
            lines[0],
        ) == repeated('─', width as nat),
{
    let line = node_block(NodeText::Rule, width)->0[0];
    reveal_with_fuel(line_text, 2);
    assert(line.drop_last() =~= Seq::empty());
    assert(line_text(line) =~= repeated('─', width as nat));
}

/// What code is without the line ends behind it: all that stands before them, and nothing less.
pub proof fn law_line_ends_behind_code_are_dropped(code: Seq<char>)
    ensures
        end_breaks_trimmed(code).is_prefix_of(code),
        end_breaks_trimmed(code).len() > 0 ==> end_breaks_trimmed(code).last() != '\n'
            && end_breaks_trimmed(code).last() != '\r',
        forall|i: int|
            end_breaks_trimmed(code).len() <= i < code.len() ==> #[trigger] code[i] == '\n'
                || code[i] == '\r',
    decreases code.len(),
{
    if code.len() > 0 && (code.last() == '\r' || code.last() == '\n') {
        let rest = code.drop_last();
        law_line_ends_behind_code_are_dropped(rest);
        assert forall|i: int| end_breaks_trimmed(code).len() <= i < code.len() implies #[trigger]
        code[i] == '\n' || code[i] == '\r' by {
            if i < rest.len() {
                assert(rest[i] == code[i]);
            }
        }
    }
}

/// Code stands between two frame lines, each line behind as many spaces, two where there is room for
/// them on either side. The first word behind a fence is its language; indented code has none.
pub proof fn law_code_stands_between_frames(info: Seq<char>, children: Seq<NodeText>, width: int)
    requires
        1 <= width,
    ensures
        ({
            let space = if width >= 5 {
                2
            } else {
                (width - 1) / 2
            };
            let code = end_breaks_trimmed(literal_of(children));
            let fenced = node_block(NodeText::Element(TagText::FencedCode(info), children), width);
            let inner = code_lines(code, first_word(info), one_or_more(width - 2 * space));
            let indented = node_block(NodeText::Element(TagText::IndentedCode, children), width);
            let plain = code_lines(code, Seq::empty(), one_or_more(width - 2 * space));
            &&& fenced is Some && indented is Some
            &&& fenced->0.len() == inner.len() + 2
            &&& forall|i: int|
                0 <= i < inner.len() ==> line_text(fenced->0[i + 1]) == repeated(' ', space as nat)
                    + line_text(#[trigger] inner[i])
            &&& indented->0.len() == plain.len() + 2
            &&& forall|i: int|
                0 <= i < plain.len() ==> line_text(indented->0[i + 1]) == repeated(
                    ' ',
                    space as nat,
                ) + line_text(#[trigger] plain[i])
        }),
{
    let space = if width >= 5 {
        2
    } else {
        (width - 1) / 2
    };
    let code = end_breaks_trimmed(literal_of(children));
    lemma_code_block(first_word(info), code, space, width);
    lemma_code_block(Seq::empty(), code, space, width);
}

proof fn lemma_code_block(language: Seq<char>, code: Seq<char>, space: int, width: int)
    requires
        0 <= space,
    ensures
        ({
            let indent = repeated(' ', space as nat);
            let inner = code_lines(code, language, one_or_more(width - 2 * space));
            let lines = prefixed(inner, indent, plain_style(), indent, plain_style());
            lines.len() == inner.len() && forall|i: int|
                0 <= i < inner.len() ==> line_text(lines[i]) == indent + line_text(
                    #[trigger] inner[i],
                )
        }),
{
    let indent = repeated(' ', space as nat);
    let inner = code_lines(code, language, one_or_more(width - 2 * space));
    lemma_prefixed(inner, indent, plain_style(), indent, plain_style());
    let lines = prefixed(inner, indent, plain_style(), indent, plain_style());
    assert forall|i: int| 0 <= i < inner.len() implies line_text(lines[i]) == indent + line_text(
        #[trigger] inner[i],
    ) by {
        assert(text_at(inner, i) == line_text(inner[i]));
    }
}

/// The source of several nodes is that of each, one behind the other, and that of text is the text.
pub proof fn law_code_is_the_text_of_its_nodes(first: Seq<NodeText>, second: Seq<NodeText>)
    ensures
        literal_of(first + second) == literal_of(first) + literal_of(second),
        forall|text: Seq<char>| #[trigger] literal_of(seq![NodeText::Text(text)]) == text,
    decreases second.len(),
{
    if second.len() == 0 {
        assert(first + second =~= first);
        assert(literal_of(first) + literal_of(second) =~= literal_of(first));
    } else {
        law_code_is_the_text_of_its_nodes(first, second.drop_last());
        assert((first + second).drop_last() =~= first + second.drop_last());
        assert(literal_of(first + second) =~= literal_of(first) + literal_of(second));
    }
    assert forall|text: Seq<char>| #[trigger] literal_of(seq![NodeText::Text(text)]) == text by {
        let nodes = seq![NodeText::Text(text)];
        assert(nodes.drop_last() =~= Seq::empty());
        reveal_with_fuel(literal_of, 2);
        assert(literal_of(nodes) =~= text);
    }
}

/// Whether `lines` neither begins nor ends with a blank line.
spec fn is_tight(lines: Seq<Seq<SpanText>>) -> bool {
    lines.len() > 0 ==> !is_blank_line(lines[0]) && !is_blank_line(lines.last())
}

proof fn lemma_start(lines: Seq<Seq<SpanText>>)
    ensures
        blank_start_trimmed(lines).len() > 0 ==> !is_blank_line(blank_start_trimmed(lines)[0]),
    decreases lines.len(),
{
    if lines.len() > 0 && is_blank_line(lines[0]) {
        lemma_start(lines.drop_first());
    }
}

proof fn lemma_end(lines: Seq<Seq<SpanText>>)
    ensures
        blank_end_trimmed(lines).len() > 0 ==> !is_blank_line(blank_end_trimmed(lines).last())
            && blank_end_trimmed(lines)[0] == lines[0],
    decreases lines.len(),
{
    if lines.len() > 0 && is_blank_line(lines.last()) {
        lemma_end(lines.drop_last());
    }
}

proof fn lemma_tight(lines: Seq<Seq<SpanText>>)
    ensures
        is_tight(blank_trimmed(lines)),
        is_tight(lines) ==> blank_trimmed(lines) == lines,
{
    lemma_start(lines);
    lemma_end(blank_start_trimmed(lines));
}

proof fn lemma_laid_tight(nodes: Seq<NodeText>, width: int)
    ensures
        is_tight(blocks_laid(nodes, width).output),
        is_tight(loose_flushed(blocks_laid(nodes, width), width)),
    decreases nodes.len(),
{
    if nodes.len() > 0 {
        lemma_laid_tight(nodes.drop_last(), width);
        if let Some(block) = node_block(nodes.last(), width) {
            lemma_tight(block);
        }
    }
    let laid = blocks_laid(nodes, width);
    lemma_tight(wrapped(pieces_of(laid.loose, plain_style()), width));
}

/// Blocks are set off from each other by one empty line. A block that shows nothing leaves no trace,
/// and nothing of the ones before is changed by what follows.
pub proof fn law_blocks_are_set_off(nodes: Seq<NodeText>, node: NodeText, width: int)
    requires
        node_block(node, width) is Some,
    ensures
        ({
            let before = blocks(nodes, width);
            let block = blank_trimmed(node_block(node, width)->0);
            blocks(nodes.push(node), width) == if block.len() == 0 {
                before
            } else if before.len() == 0 {
                block
            } else {
                before.push(Seq::empty()) + block
            }
        }),
{
    let all = nodes.push(node);
    assert(all.drop_last() =~= nodes);
    lemma_laid_tight(nodes, width);
    lemma_laid_tight(all, width);
    let before = loose_flushed(blocks_laid(nodes, width), width);
    let after = loose_flushed(blocks_laid(all, width), width);
    lemma_tight(before);
    lemma_tight(after);
    lemma_tight(node_block(node, width)->0);
    let block = blank_trimmed(node_block(node, width)->0);
    assert(before.len() == 0 ==> before + block =~= block);
}

proof fn lemma_loose(nodes: Seq<NodeText>, width: int)
    requires
        forall|i: int| 0 <= i < nodes.len() ==> node_block(#[trigger] nodes[i], width) is None,
    ensures
        blocks_laid(nodes, width).loose == nodes,
        blocks_laid(nodes, width).output.len() == 0,
    decreases nodes.len(),
{
    if nodes.len() > 0 {
        let rest = nodes.drop_last();
        assert(forall|i: int| 0 <= i < rest.len() ==> #[trigger] rest[i] == nodes[i]);
        assert(nodes.last() == nodes[nodes.len() - 1]);
        lemma_loose(rest, width);
        assert(rest.push(nodes.last()) =~= nodes);
    }
}

/// Text that stands in no paragraph is shown as one.
pub proof fn law_loose_text_is_wrapped(nodes: Seq<NodeText>, width: int)
    requires
        nodes.len() > 0,
        forall|i: int| 0 <= i < nodes.len() ==> node_block(#[trigger] nodes[i], width) is None,
    ensures
        blocks(nodes, width) == blank_trimmed(wrapped(pieces_of(nodes, plain_style()), width)),
{
    lemma_loose(nodes, width);
    let block = wrapped(pieces_of(nodes, plain_style()), width);
    lemma_tight(block);
    lemma_tight(blank_trimmed(block));
    let laid = blocks_laid(nodes, width);
    assert(laid.output =~= Seq::empty());
    assert(laid.output + blank_trimmed(block) =~= blank_trimmed(block));
}

proof fn lemma_first_width(parts: Seq<Seq<char>>)
    requires
        parts.len() > 0,
    ensures
        total_width(parts) == text_width(parts[0]) + total_width(parts.drop_first()),
        joined(parts) == parts[0] + joined(parts.drop_first()),
    decreases parts.len(),
{
    if parts.len() == 1 {
        assert(parts.drop_first() =~= Seq::empty());
        assert(parts.drop_last() =~= Seq::empty());
        reveal_with_fuel(joined, 2);
        reveal_with_fuel(total_width, 2);
        assert(joined(parts) =~= parts[0] + joined(parts.drop_first()));
    } else {
        lemma_first_width(parts.drop_last());
        assert(parts.drop_last().drop_first() =~= parts.drop_first().drop_last());
        assert(joined(parts) =~= parts[0] + joined(parts.drop_first()));
    }
}

proof fn lemma_parts_clipped(clip: Clip, parts: Seq<Seq<char>>, style: TextStyle)
    requires
        !clip.ended,
    ensures
        line_text(clip.line).is_prefix_of(line_text(clipped_parts(clip, parts, style).line)),
        line_text(clipped_parts(clip, parts, style).line).is_prefix_of(
            line_text(clip.line) + joined(parts),
        ),
        !clipped_parts(clip, parts, style).ended ==> line_text(
            clipped_parts(clip, parts, style).line,
        ) == line_text(clip.line) + joined(parts),
        total_width(parts) <= clip.remaining ==> !clipped_parts(clip, parts, style).ended
            && clipped_parts(clip, parts, style).remaining == clip.remaining - total_width(parts),
    decreases parts.len(),
{
    if parts.len() == 0 {
        assert(line_text(clip.line) + joined(parts) =~= line_text(clip.line));
    } else {
        lemma_first_width(parts);
        if text_width(parts[0]) <= clip.remaining {
            let next = Clip {
                line: pushed(clip.line, parts[0], style),
                remaining: clip.remaining - text_width(parts[0]),
                ended: false,
            };
            law_line_text(clip.line, parts[0], style);
            lemma_parts_clipped(next, parts.drop_first(), style);
            assert(line_text(clip.line) + parts[0] + joined(parts.drop_first()) =~= line_text(
                clip.line,
            ) + joined(parts));
            let after = line_text(clipped_parts(clip, parts, style).line);
            assert(after.take(line_text(clip.line).len() as int) =~= line_text(clip.line));
        } else {
            let all = line_text(clip.line) + joined(parts);
            assert(all.take(line_text(clip.line).len() as int) =~= line_text(clip.line));
        }
    }
}

proof fn lemma_first_span(line: Seq<SpanText>)
    requires
        line.len() > 0,
    ensures
        line_text(line) == line[0].text + line_text(line.drop_first()),
        cluster_columns(line) == total_width(clusters(line[0].text)) + cluster_columns(
            line.drop_first(),
        ),
    decreases line.len(),
{
    if line.len() == 1 {
        assert(line.drop_first() =~= Seq::empty());
        assert(line.drop_last() =~= Seq::empty());
        reveal_with_fuel(line_text, 2);
        reveal_with_fuel(cluster_columns, 2);
        assert(line_text(line) =~= line[0].text + line_text(line.drop_first()));
    } else {
        lemma_first_span(line.drop_last());
        assert(line.drop_last().drop_first() =~= line.drop_first().drop_last());
        assert(line_text(line) =~= line[0].text + line_text(line.drop_first()));
    }
}

/// Whether each span of `line` takes up a column or more.
pub open spec fn all_take_columns(line: Seq<SpanText>) -> bool {
    forall|i: int|
        0 <= i < line.len() ==> total_width(clusters((#[trigger] line[i]).text)) > 0
}

proof fn lemma_spans_clipped(clip: Clip, spans: Seq<SpanText>)
    requires
        !clip.ended,
    ensures
        line_text(clipped_spans(clip, spans)).is_prefix_of(
            line_text(clip.line) + line_text(spans),
        ),
        cluster_columns(spans) < clip.remaining || (cluster_columns(spans) == clip.remaining
            && all_take_columns(spans)) ==> line_text(clipped_spans(clip, spans)) == line_text(
            clip.line,
        ) + line_text(spans),
    decreases spans.len(),
{
    let all = line_text(clip.line) + line_text(spans);
    assert(all.take(line_text(clip.line).len() as int) =~= line_text(clip.line));
    if spans.len() == 0 {
        assert(all =~= line_text(clip.line));
    } else if clip.remaining != 0 {
        let parts = clusters(spans[0].text);
        law_clusters_divide(spans[0].text);
        lemma_first_span(spans);
        lemma_parts_clipped(clip, parts, spans[0].style);
        let next = clipped_parts(clip, parts, spans[0].style);
        let rest = spans.drop_first();
        if all_take_columns(spans) {
            assert forall|i: int| 0 <= i < rest.len() implies total_width(
                clusters((#[trigger] rest[i]).text),
            ) > 0 by {
                assert(rest[i] == spans[i + 1]);
            }
        }
        let middle = line_text(clip.line) + spans[0].text;
        assert(middle + line_text(rest) =~= all);
        if !next.ended {
            lemma_spans_clipped(next, rest);
        } else {
            let shown = line_text(next.line);
            assert(clipped_spans(next, rest) == next.line);
            assert(all.take(shown.len() as int) =~= middle.take(shown.len() as int));
        }
    }
}

/// A line is cut only where its columns end: what is left is the start of it, and all of it where
/// its clusters take up less, or just as much and no span of it takes up nothing.
pub proof fn law_lines_are_cut_at_their_end(line: Seq<SpanText>, width: int)
    ensures
        line_text(clipped(line, width)).is_prefix_of(line_text(line)),
        cluster_columns(line) < width ==> line_text(clipped(line, width)) == line_text(line),
        cluster_columns(line) == width && all_take_columns(line) ==> line_text(clipped(line, width))
            == line_text(line),
{
    let clip = Clip { line: Seq::empty(), remaining: width, ended: false };
    lemma_spans_clipped(clip, line);
    assert(Seq::<char>::empty() + line_text(line) =~= line_text(line));
}

} // verus!
