//! What the nodes of a document hold: their literal text, and their inline pieces.

use vstd::prelude::*;

use crate::agent_markdown_renderer::document::lemma_nodes_view;
use crate::agent_markdown_renderer::document::node_view;
use crate::agent_markdown_renderer::document::nodes_view;
use crate::agent_markdown_renderer::document::Node;
use crate::agent_markdown_renderer::document::NodeText;
use crate::agent_markdown_renderer::document::Tag;
use crate::agent_markdown_renderer::document::TagText;
use crate::agent_markdown_renderer::inline::extend_inline;
use crate::agent_markdown_renderer::inline::piece_pushed;
use crate::agent_markdown_renderer::inline::pieces_extended;
use crate::agent_markdown_renderer::inline::pieces_view;
use crate::agent_markdown_renderer::inline::push_inline_span;
use crate::agent_markdown_renderer::inline::InlinePiece;
use crate::agent_markdown_renderer::inline::PieceText;
use crate::agent_markdown_renderer::style::bold_style;
use crate::agent_markdown_renderer::style::colored_style;
use crate::agent_markdown_renderer::style::link_style;
use crate::agent_markdown_renderer::style::merged_style;
use crate::agent_markdown_renderer::style::plain_style;
use crate::agent_markdown_renderer::style::ColorRole;
use crate::agent_markdown_renderer::style::TextStyle;
use crate::agent_markdown_renderer::urls::push_text_with_bare_urls;
use crate::agent_markdown_renderer::urls::text_pushed;
use crate::text::is_blank;
use crate::text::is_blank_text;
use crate::text::lowered;
use crate::text::lowered_text;
use crate::text::same_text;
use crate::text::trim_text;
use crate::text::trimmed;

verus! {

/// The text of `nodes` as the source had it, by and large.
pub open spec fn literal_of(nodes: Seq<NodeText>) -> Seq<char>
    decreases nodes,
{
    if nodes.len() == 0 {
        Seq::empty()
    } else {
        literal_of(nodes.drop_last()) + node_literal(nodes.last())
    }
}

/// The text of `node` as the source had it, by and large.
pub open spec fn node_literal(node: NodeText) -> Seq<char>
    decreases node,
{
    match node {
        NodeText::Element(_, children) => literal_of(children),
        NodeText::Text(text) => text,
        NodeText::Code(text) => text,
        NodeText::InlineMath(text) => text,
        NodeText::DisplayMath(text) => text,
        NodeText::Html(text) => text,
        NodeText::InlineHtml(text) => text,
        NodeText::FootnoteReference(label) => "[^"@ + label + "]"@,
        NodeText::SoftBreak => "\n"@,
        NodeText::HardBreak => "\n"@,
        NodeText::Rule => "---"@,
        NodeText::TaskListMarker(checked) => if checked {
            "[x] "@
        } else {
            "[ ] "@
        },
    }
}

/// Puts the text of one node behind `output`.
fn collect_node(node: &Node, output: &mut String)
    ensures
        final(output)@ == old(output)@ + node_literal(node_view(*node)),
    decreases *node,
{
    let ghost before = output@;
    match node {
        Node::Element { children, .. } => collect_literal(children, output),
        Node::Text(text) => output.append(text),
        Node::Code(text) => output.append(text),
        Node::InlineMath(text) => output.append(text),
        Node::DisplayMath(text) => output.append(text),
        Node::Html(text) => output.append(text),
        Node::InlineHtml(text) => output.append(text),
        Node::FootnoteReference(label) => {
            output.append("[^");
            output.append(label);
            output.append("]");
            assert(output@ =~= before + ("[^"@ + label@ + "]"@));
        },
        Node::SoftBreak => output.append("\n"),
        Node::HardBreak => output.append("\n"),
        Node::Rule => output.append("---"),
        Node::TaskListMarker(checked) => if *checked {
            output.append("[x] ")
        } else {
            output.append("[ ] ")
        },
    }
}

/// Puts the text of the nodes behind `output`.
pub fn collect_literal(nodes: &Vec<Node>, output: &mut String)
    ensures
        final(output)@ == old(output)@ + literal_of(nodes_view(nodes@)),
    decreases nodes@,
{
    let ghost all = nodes_view(nodes@);
    let ghost before = output@;
    proof {
        lemma_nodes_view(nodes@);
    }
    assert(before + literal_of(all.take(0)) =~= before);
    for i in 0..nodes.len()
        invariant
            all == nodes_view(nodes@),
            all.len() == nodes@.len(),
            forall|j: int|
                0 <= j < nodes@.len() ==> #[trigger] all[j] == node_view(nodes@[j]),
            output@ == before + literal_of(all.take(i as int)),
        decreases nodes@.len() - i,
    {
        assert(all.take(i + 1).drop_last() =~= all.take(i as int));
        assert(all.take(i + 1).last() == all[i as int]);
        collect_node(&nodes[i], output);
        assert(output@ =~= before + literal_of(all.take(i + 1)));
    }
    assert(all.take(all.len() as int) =~= all);
}

/// The text of the nodes as the source had it, by and large.
pub fn inline_plain_text(nodes: &Vec<Node>) -> (r: String)
    ensures
        r@ == literal_of(nodes_view(nodes@)),
{
    let mut output = String::new();
    collect_literal(nodes, &mut output);
    assert(output@ =~= literal_of(nodes_view(nodes@)));
    output
}

/// Whether `html` is a line break.
pub open spec fn is_break_tag(html: Seq<char>) -> bool {
    let tag = lowered(trimmed(html));
    tag == "<br>"@ || tag == "<br/>"@ || tag == "<br />"@
}

/// Whether the HTML is a line break.
pub fn is_html_break(html: &str) -> (r: bool)
    ensures
        r == is_break_tag(html@),
{
    let tag = lowered_text(&trim_text(html));
    same_text(&tag, "<br>") || same_text(&tag, "<br/>") || same_text(&tag, "<br />")
}

/// The style of what stands in an element of `tag`, where `style` is that of the element.
pub open spec fn element_style(tag: TagText, style: TextStyle) -> TextStyle {
    match tag {
        TagText::Emphasis => merged_style(style, TextStyle { italic: true, ..plain_style() }),
        TagText::Strong => merged_style(style, bold_style()),
        TagText::Strikethrough => merged_style(
            style,
            TextStyle { crossed_out: true, ..plain_style() },
        ),
        TagText::Superscript => merged_style(
            style,
            TextStyle { italic: true, dim: true, ..plain_style() },
        ),
        TagText::Subscript => merged_style(
            style,
            TextStyle { italic: true, dim: true, ..plain_style() },
        ),
        TagText::Link => merged_style(style, link_style()),
        _ => style,
    }
}

/// What stands for an image: its description, or its address where that is blank.
pub open spec fn image_label(description: Seq<char>, address: Seq<char>) -> Seq<char> {
    "▧ "@ + (if is_blank(description) {
        address
    } else {
        description
    })
}

/// What stands for a task list marker.
pub open spec fn marker_text(checked: bool) -> Seq<char> {
    if checked {
        "✓ "@
    } else {
        "○ "@
    }
}

/// The style of a task list marker.
pub open spec fn marker_style(checked: bool) -> TextStyle {
    if checked {
        TextStyle { bold: true, ..colored_style(ColorRole::Success) }
    } else {
        colored_style(ColorRole::Muted)
    }
}

/// The pieces of `nodes` in `style`.
pub open spec fn pieces_of(nodes: Seq<NodeText>, style: TextStyle) -> Seq<PieceText>
    decreases nodes,
{
    if nodes.len() == 0 {
        Seq::empty()
    } else {
        node_pieces(pieces_of(nodes.drop_last(), style), nodes.last(), style)
    }
}

/// `output` with the pieces of `node` behind it.
pub open spec fn node_pieces(output: Seq<PieceText>, node: NodeText, style: TextStyle) -> Seq<
    PieceText,
>
    decreases node,
{
    match node {
        NodeText::Element(TagText::Image(address), children) => piece_pushed(
            output,
            image_label(literal_of(children), address),
            merged_style(style, link_style()),
        ),
        NodeText::Element(tag, children) => pieces_extended(
            output,
            pieces_of(children, element_style(tag, style)),
        ),
        NodeText::Text(text) => if style.color == ColorRole::Link || style.color
            == ColorRole::Code {
            piece_pushed(output, text, style)
        } else {
            text_pushed(output, text, style)
        },
        NodeText::Code(text) => piece_pushed(
            output,
            text,
            merged_style(style, colored_style(ColorRole::Code)),
        ),
        NodeText::InlineMath(text) => piece_pushed(
            output,
            text,
            merged_style(style, colored_style(ColorRole::Math)),
        ),
        NodeText::DisplayMath(text) => piece_pushed(
            output,
            text,
            merged_style(style, colored_style(ColorRole::Math)),
        ),
        NodeText::InlineHtml(html) => if is_break_tag(html) {
            output.push(PieceText::HardBreak)
        } else {
            output
        },
        NodeText::Html(html) => piece_pushed(
            output,
            html,
            merged_style(style, colored_style(ColorRole::Muted)),
        ),
        NodeText::FootnoteReference(label) => piece_pushed(
            output,
            "["@ + label + "]"@,
            merged_style(style, TextStyle { bold: true, ..colored_style(ColorRole::Accent) }),
        ),
        NodeText::SoftBreak => output.push(PieceText::SoftBreak),
        NodeText::HardBreak => output.push(PieceText::HardBreak),
        NodeText::Rule => piece_pushed(output, "─"@, style),
        NodeText::TaskListMarker(checked) => piece_pushed(
            output,
            marker_text(checked),
            merged_style(style, marker_style(checked)),
        ),
    }
}

/// The style of what stands in an element, where `style` is that of the element.
fn inner_style(tag: &Tag, style: TextStyle) -> (r: TextStyle)
    ensures
        r == element_style(tag@, style),
{
    match tag {
        Tag::Emphasis => style.merged(TextStyle { italic: true, ..TextStyle::default() }),
        Tag::Strong => style.merged(TextStyle { bold: true, ..TextStyle::default() }),
        Tag::Strikethrough => style.merged(
            TextStyle { crossed_out: true, ..TextStyle::default() },
        ),
        Tag::Superscript => style.merged(
            TextStyle { italic: true, dim: true, ..TextStyle::default() },
        ),
        Tag::Subscript => style.merged(
            TextStyle { italic: true, dim: true, ..TextStyle::default() },
        ),
        Tag::Link => style.merged(
            TextStyle { underlined: true, ..TextStyle::colored(ColorRole::Link) },
        ),
        _ => style,
    }
}

fn push_piece(output: &mut Vec<InlinePiece>, piece: InlinePiece)
    ensures
        pieces_view(final(output)@) == pieces_view(old(output)@).push(piece@),
{
    let ghost before = pieces_view(output@);
    output.push(piece);
    assert(pieces_view(output@) =~= before.push(piece@));
}

/// Puts the pieces of one node behind `output`.
pub fn push_node_pieces(output: &mut Vec<InlinePiece>, node: &Node, style: TextStyle)
    ensures
        pieces_view(final(output)@) == node_pieces(
            pieces_view(old(output)@),
            node_view(*node),
            style,
        ),
    decreases *node,
{
    match node {
        Node::Element { tag, children } => {
            if let Tag::Image(address) = tag {
                let description = inline_plain_text(children);
                let mut label = "▧ ".to_owned();
                if is_blank_text(&description) {
                    label.append(address);
                } else {
                    label.append(&description);
                }
                let link = TextStyle { underlined: true, ..TextStyle::colored(ColorRole::Link) };
                push_inline_span(output, &label, style.merged(link));
            } else {
                let inner = inline_pieces(children, inner_style(tag, style));
                extend_inline(output, inner);
            }
        },
        Node::Text(text) => if style.color == ColorRole::Link || style.color == ColorRole::Code {
            push_inline_span(output, text, style);
        } else {
            push_text_with_bare_urls(output, text, style);
        },
        Node::Code(text) => push_inline_span(
            output,
            text,
            style.merged(TextStyle::colored(ColorRole::Code)),
        ),
        Node::InlineMath(text) => push_inline_span(
            output,
            text,
            style.merged(TextStyle::colored(ColorRole::Math)),
        ),
        Node::DisplayMath(text) => push_inline_span(
            output,
            text,
            style.merged(TextStyle::colored(ColorRole::Math)),
        ),
        Node::InlineHtml(html) => {
            if is_html_break(html) {
                push_piece(output, InlinePiece::HardBreak);
            }
        },
        Node::Html(html) => push_inline_span(
            output,
            html,
            style.merged(TextStyle::colored(ColorRole::Muted)),
        ),
        Node::FootnoteReference(label) => {
            let mut shown = "[".to_owned();
            shown.append(label);
            shown.append("]");
            push_inline_span(
                output,
                &shown,
                style.merged(TextStyle::colored(ColorRole::Accent).bold()),
            );
        },
        Node::SoftBreak => push_piece(output, InlinePiece::SoftBreak),
        Node::HardBreak => push_piece(output, InlinePiece::HardBreak),
        Node::Rule => push_inline_span(output, "─", style),
        Node::TaskListMarker(checked) => if *checked {
            push_inline_span(
                output,
                "✓ ",
                style.merged(TextStyle::colored(ColorRole::Success).bold()),
            );
        } else {
            push_inline_span(output, "○ ", style.merged(TextStyle::colored(ColorRole::Muted)));
        },
    }
}

/// The pieces of the nodes in `style`.
pub fn inline_pieces(nodes: &Vec<Node>, style: TextStyle) -> (r: Vec<InlinePiece>)
    ensures
        pieces_view(r@) == pieces_of(nodes_view(nodes@), style),
    decreases nodes@,
{
    let mut pieces: Vec<InlinePiece> = Vec::new();
    let ghost all = nodes_view(nodes@);
    proof {
        lemma_nodes_view(nodes@);
    }
    assert(pieces_view(pieces@) =~= pieces_of(all.take(0), style));
    for i in 0..nodes.len()
        invariant
            all == nodes_view(nodes@),
            all.len() == nodes@.len(),
            forall|j: int|
                0 <= j < nodes@.len() ==> #[trigger] all[j] == node_view(nodes@[j]),
            pieces_view(pieces@) == pieces_of(all.take(i as int), style),
        decreases nodes@.len() - i,
    {
        assert(all.take(i + 1).drop_last() =~= all.take(i as int));
        assert(all.take(i + 1).last() == all[i as int]);
        push_node_pieces(&mut pieces, &nodes[i], style);
    }
    assert(all.take(all.len() as int) =~= all);
    pieces
}

} // verus!
