//! From a source to what is shown of it: documents hold all that was read, and inline content shows
//! all of it, marked as it was.

use vstd::prelude::*;

use crate::agent_markdown_renderer::content::element_style;
use crate::agent_markdown_renderer::content::literal_of;
use crate::agent_markdown_renderer::content::node_pieces;
use crate::agent_markdown_renderer::content::pieces_of;
use crate::agent_markdown_renderer::document::document_of;
use crate::agent_markdown_renderer::document::multiline_text;
use crate::agent_markdown_renderer::document::node_added;
use crate::agent_markdown_renderer::document::tree_of;
use crate::agent_markdown_renderer::document::EventText;
use crate::agent_markdown_renderer::document::NodeText;
use crate::agent_markdown_renderer::document::TagText;
use crate::agent_markdown_renderer::document::Tree;
use crate::agent_markdown_renderer::inline::piece_pushed;
use crate::agent_markdown_renderer::inline::pieces_extended;
use crate::agent_markdown_renderer::inline::PieceText;
use crate::agent_markdown_renderer::literal::without_controls;
use crate::agent_markdown_renderer::style::link_style;
use crate::agent_markdown_renderer::style::merged_style;
use crate::agent_markdown_renderer::style::TextStyle;
use crate::agent_markdown_renderer::urls::are_ordered;
use crate::agent_markdown_renderer::urls::law_urls_are_ordered;
use crate::agent_markdown_renderer::urls::lemma_within;
use crate::agent_markdown_renderer::urls::linked_text;
use crate::agent_markdown_renderer::urls::text_pushed;
use crate::agent_markdown_renderer::urls::urls_of;
use crate::text::is_blank;
use crate::text::is_control_char;
use crate::text::lowered;
use crate::text::trimmed;

verus! {

/// The events by which `nodes` are told, from the first to the last.
pub open spec fn written(nodes: Seq<NodeText>) -> Seq<EventText>
    decreases nodes,
{
    if nodes.len() == 0 {
        Seq::empty()
    } else {
        written(nodes.drop_last()) + node_written(nodes.last())
    }
}

/// The events by which `node` is told: an element starts, all that it holds follows, and it ends.
pub open spec fn node_written(node: NodeText) -> Seq<EventText>
    decreases node,
{
    match node {
        NodeText::Element(tag, children) => seq![EventText::Start(tag)] + written(children) + seq![
            EventText::End,
        ],
        NodeText::Text(text) => seq![EventText::Text(text)],
        NodeText::Code(text) => seq![EventText::Code(text)],
        NodeText::InlineMath(text) => seq![EventText::InlineMath(text)],
        NodeText::DisplayMath(text) => seq![EventText::DisplayMath(text)],
        NodeText::Html(text) => seq![EventText::Html(text)],
        NodeText::InlineHtml(text) => seq![EventText::InlineHtml(text)],
        NodeText::FootnoteReference(label) => seq![EventText::FootnoteReference(label)],
        NodeText::SoftBreak => seq![EventText::SoftBreak],
        NodeText::HardBreak => seq![EventText::HardBreak],
        NodeText::Rule => seq![EventText::Rule],
        NodeText::TaskListMarker(checked) => seq![EventText::TaskListMarker(checked)],
    }
}

/// Whether `text` holds no control character, but for line ends and tabs where `lines` says so.
pub open spec fn is_clean_text(text: Seq<char>, lines: bool) -> bool {
    forall|i: int|
        0 <= i < text.len() ==> !is_control_char(#[trigger] text[i]) || lines && (text[i] == '\n'
            || text[i] == '\r' || text[i] == '\t')
}

/// Whether no text of `nodes` holds a control character.
pub open spec fn are_clean(nodes: Seq<NodeText>) -> bool
    decreases nodes,
{
    nodes.len() > 0 ==> are_clean(nodes.drop_last()) && is_clean(nodes.last())
}

/// Whether no text of `node` holds a control character.
pub open spec fn is_clean(node: NodeText) -> bool
    decreases node,
{
    match node {
        NodeText::Element(_, children) => are_clean(children),
        NodeText::Text(text) => is_clean_text(text, true),
        NodeText::Html(text) => is_clean_text(text, true),
        NodeText::Code(text) => is_clean_text(text, false),
        NodeText::InlineMath(text) => is_clean_text(text, false),
        NodeText::DisplayMath(text) => is_clean_text(text, false),
        NodeText::InlineHtml(text) => is_clean_text(text, false),
        NodeText::FootnoteReference(label) => is_clean_text(label, false),
        _ => true,
    }
}

/// `tree` with `nodes` in the innermost open element.
spec fn nodes_added(tree: Tree, nodes: Seq<NodeText>) -> Tree {
    if tree.open.len() > 0 {
        let (tag, children) = tree.open.last();
        Tree { open: tree.open.drop_last().push((tag, children + nodes)), ..tree }
    } else {
        Tree { root: tree.root + nodes, ..tree }
    }
}

proof fn lemma_clean_text(text: Seq<char>)
    ensures
        is_clean_text(text, true) ==> multiline_text(text) == text,
        is_clean_text(text, false) ==> without_controls(text) == text,
    decreases text.len(),
{
    if text.len() > 0 {
        let rest = text.drop_last();
        lemma_clean_text(rest);
        assert(text[text.len() - 1] == text.last());
        assert(forall|i: int| 0 <= i < rest.len() ==> #[trigger] rest[i] == text[i]);
        assert(rest.push(text.last()) =~= text);
    }
}

proof fn lemma_written(before: Seq<EventText>, nodes: Seq<NodeText>)
    requires
        are_clean(nodes),
    ensures
        tree_of(before + written(nodes)) == nodes_added(tree_of(before), nodes),
    decreases nodes,
{
    let tree = tree_of(before);
    if nodes.len() == 0 {
        assert(before + written(nodes) =~= before);
        if tree.open.len() > 0 {
            let (tag, children) = tree.open.last();
            assert(children + nodes =~= children);
            assert(tree.open.drop_last().push((tag, children)) =~= tree.open);
        } else {
            assert(tree.root + nodes =~= tree.root);
        }
    } else {
        let rest = nodes.drop_last();
        let last = nodes.last();
        lemma_written(before, rest);
        lemma_node_written(before + written(rest), last);
        assert(before + written(nodes) =~= before + written(rest) + node_written(last));
        let middle = nodes_added(tree, rest);
        if tree.open.len() > 0 {
            let (tag, children) = tree.open.last();
            assert(middle.open.drop_last() =~= tree.open.drop_last());
            assert((children + rest).push(last) =~= children + nodes);
        } else {
            assert((tree.root + rest).push(last) =~= tree.root + nodes);
        }
    }
}

proof fn lemma_node_written(before: Seq<EventText>, node: NodeText)
    requires
        is_clean(node),
    ensures
        tree_of(before + node_written(node)) == node_added(tree_of(before), node),
    decreases node,
{
    let tree = tree_of(before);
    match node {
        NodeText::Element(tag, children) => {
            let started = before.push(EventText::Start(tag));
            assert(started.drop_last() =~= before);
            lemma_written(started, children);
            let inside = started + written(children);
            let all = before + node_written(node);
            assert(all =~= inside.push(EventText::End));
            assert(all.drop_last() =~= inside);
            let open = nodes_added(tree_of(started), children);
            assert(tree_of(started).open.drop_last() =~= tree.open);
            assert(open.open.drop_last() =~= tree.open);
            assert(Seq::<NodeText>::empty() + children =~= children);
        },
        _ => {
            let event = node_written(node)[0];
            assert(before + node_written(node) =~= before.push(event));
            assert(before.push(event).drop_last() =~= before);
            match node {
                NodeText::Text(text) => lemma_clean_text(text),
                NodeText::Html(text) => lemma_clean_text(text),
                NodeText::Code(text) => lemma_clean_text(text),
                NodeText::InlineMath(text) => lemma_clean_text(text),
                NodeText::DisplayMath(text) => lemma_clean_text(text),
                NodeText::InlineHtml(text) => lemma_clean_text(text),
                NodeText::FootnoteReference(label) => lemma_clean_text(label),
                _ => {},
            }
        },
    }
}

/// A document is read back from the events by which it is told: nothing is lost, added, moved or
/// taken from the element that holds it.
pub proof fn law_documents_are_read_back(nodes: Seq<NodeText>)
    requires
        are_clean(nodes),
    ensures
        document_of(written(nodes)) == nodes,
{
    lemma_written(Seq::empty(), nodes);
    assert(Seq::<EventText>::empty() + written(nodes) =~= written(nodes));
    assert(Seq::<NodeText>::empty() + nodes =~= nodes);
}

/// The characters of `pieces`, where a soft break counts as a space and a hard one as a line feed.
pub open spec fn piece_chars(pieces: Seq<PieceText>) -> Seq<char>
    decreases pieces.len(),
{
    if pieces.len() == 0 {
        Seq::empty()
    } else {
        piece_chars(pieces.drop_last()) + match pieces.last() {
            PieceText::Span(span) => span.text,
            PieceText::SoftBreak => seq![' '],
            PieceText::HardBreak => seq!['\n'],
        }
    }
}

/// What is to be read where `nodes` stand in a line of text.
pub open spec fn inline_chars(nodes: Seq<NodeText>) -> Seq<char>
    decreases nodes,
{
    if nodes.len() == 0 {
        Seq::empty()
    } else {
        inline_chars(nodes.drop_last()) + node_chars(nodes.last())
    }
}

/// What is to be read where `node` stands in a line of text: its text, a space for a soft break, a
/// line feed for a hard one, the label of a footnote in brackets, a sign with its description, or
/// else its address, for an image, and nothing for a tag of HTML.
pub open spec fn node_chars(node: NodeText) -> Seq<char>
    decreases node,
{
    match node {
        NodeText::Element(TagText::Image(address), children) => "▧ "@ + if is_blank(
            literal_of(children),
        ) {
            address
        } else {
            literal_of(children)
        },
        NodeText::Element(_, children) => inline_chars(children),
        NodeText::Text(text) => text,
        NodeText::Code(text) => text,
        NodeText::InlineMath(text) => text,
        NodeText::DisplayMath(text) => text,
        NodeText::Html(text) => text,
        NodeText::InlineHtml(html) => {
            let tag = lowered(trimmed(html));
            if tag == "<br>"@ || tag == "<br/>"@ || tag == "<br />"@ {
                seq!['\n']
            } else {
                Seq::empty()
            }
        },
        NodeText::FootnoteReference(label) => "["@ + label + "]"@,
        NodeText::SoftBreak => seq![' '],
        NodeText::HardBreak => seq!['\n'],
        NodeText::Rule => "─"@,
        NodeText::TaskListMarker(checked) => if checked {
            "✓ "@
        } else {
            "○ "@
        },
    }
}

proof fn lemma_pushed_chars(pieces: Seq<PieceText>, text: Seq<char>, style: TextStyle)
    ensures
        piece_chars(piece_pushed(pieces, text, style)) == piece_chars(pieces) + text,
{
    let after = piece_pushed(pieces, text, style);
    if text.len() == 0 {
        assert(piece_chars(pieces) + text =~= piece_chars(pieces));
    } else if pieces.len() > 0 && pieces.last() is Span && pieces.last()->Span_0.style == style {
        assert(after.drop_last() =~= pieces.drop_last());
        assert(piece_chars(after) =~= piece_chars(pieces) + text);
    } else {
        assert(after.drop_last() =~= pieces);
    }
}

proof fn lemma_extended_chars(output: Seq<PieceText>, pieces: Seq<PieceText>)
    ensures
        piece_chars(pieces_extended(output, pieces)) == piece_chars(output) + piece_chars(pieces),
    decreases pieces.len(),
{
    if pieces.len() == 0 {
        assert(piece_chars(output) + piece_chars(pieces) =~= piece_chars(output));
    } else {
        lemma_extended_chars(output, pieces.drop_last());
        let before = pieces_extended(output, pieces.drop_last());
        match pieces.last() {
            PieceText::Span(span) => lemma_pushed_chars(before, span.text, span.style),
            other => {
                assert(before.push(other).drop_last() =~= before);
            },
        }
        assert(piece_chars(pieces_extended(output, pieces)) =~= piece_chars(output) + piece_chars(
            pieces,
        ));
    }
}

proof fn lemma_linked_chars(
    output: Seq<PieceText>,
    text: Seq<char>,
    ranges: Seq<(int, int)>,
    from: int,
    style: TextStyle,
)
    requires
        0 <= from,
        are_ordered(ranges, from, text.len() as int),
    ensures
        piece_chars(linked_text(output, text, ranges, from, style)) == piece_chars(output)
            + text.skip(from),
    decreases ranges.len(),
{
    lemma_within(ranges, from, text.len() as int);
    if ranges.len() == 0 {
        lemma_pushed_chars(output, text.subrange(from, text.len() as int), style);
        assert(text.subrange(from, text.len() as int) =~= text.skip(from));
    } else {
        let (start, end) = ranges[0];
        let link = merged_style(style, link_style());
        let before = piece_pushed(output, text.subrange(from, start), style);
        let linked = piece_pushed(before, text.subrange(start, end), link);
        lemma_pushed_chars(output, text.subrange(from, start), style);
        lemma_pushed_chars(before, text.subrange(start, end), link);
        lemma_linked_chars(linked, text, ranges.drop_first(), end, style);
        assert(piece_chars(output) + text.subrange(from, start) + text.subrange(start, end)
            + text.skip(end) =~= piece_chars(output) + text.skip(from));
    }
}

proof fn lemma_text_chars(output: Seq<PieceText>, text: Seq<char>, style: TextStyle)
    ensures
        piece_chars(text_pushed(output, text, style)) == piece_chars(output) + text,
{
    law_urls_are_ordered(text, 0);
    lemma_linked_chars(output, text, urls_of(text), 0, style);
    assert(text.skip(0) =~= text);
}

/// Inline content shows all that is in it, in order, whatever its style is.
pub proof fn law_inline_content_is_shown(nodes: Seq<NodeText>, style: TextStyle)
    ensures
        piece_chars(pieces_of(nodes, style)) == inline_chars(nodes),
    decreases nodes,
{
    if nodes.len() > 0 {
        law_inline_content_is_shown(nodes.drop_last(), style);
        lemma_node_shown(pieces_of(nodes.drop_last(), style), nodes.last(), style);
    }
}

proof fn lemma_node_shown(output: Seq<PieceText>, node: NodeText, style: TextStyle)
    ensures
        piece_chars(node_pieces(output, node, style)) == piece_chars(output) + node_chars(node),
    decreases node,
{
    let after = node_pieces(output, node, style);
    match node {
        NodeText::Element(TagText::Image(address), children) => {
            lemma_pushed_chars(output, node_chars(node), merged_style(style, link_style()));
        },
        NodeText::Element(tag, children) => {
            law_inline_content_is_shown(children, element_style(tag, style));
            lemma_extended_chars(output, pieces_of(children, element_style(tag, style)));
        },
        NodeText::Text(text) => {
            lemma_text_chars(output, text, style);
            lemma_pushed_chars(output, text, style);
        },
        NodeText::SoftBreak => {
            assert(after.drop_last() =~= output);
        },
        NodeText::HardBreak => {
            assert(after.drop_last() =~= output);
        },
        NodeText::InlineHtml(html) => {
            assert(output.push(PieceText::HardBreak).drop_last() =~= output);
            assert(piece_chars(output) + Seq::<char>::empty() =~= piece_chars(output));
        },
        _ => {
            assert forall|other: TextStyle| piece_chars(
                #[trigger] piece_pushed(output, node_chars(node), other),
            ) == piece_chars(output) + node_chars(node) by {
                lemma_pushed_chars(output, node_chars(node), other);
            }
        },
    }
}

/// Whether `style` has every mark that `base` has: bold, italic, underlined, struck out, dim.
pub open spec fn has_marks_of(style: TextStyle, base: TextStyle) -> bool {
    &&& base.bold ==> style.bold
    &&& base.italic ==> style.italic
    &&& base.underlined ==> style.underlined
    &&& base.crossed_out ==> style.crossed_out
    &&& base.dim ==> style.dim
}

/// Whether each span of `pieces` has every mark that `base` has.
pub open spec fn all_have_marks_of(pieces: Seq<PieceText>, base: TextStyle) -> bool {
    forall|i: int|
        0 <= i < pieces.len() ==> ((#[trigger] pieces[i]) matches PieceText::Span(span)
            ==> has_marks_of(span.style, base))
}

proof fn lemma_pushed_marks(
    pieces: Seq<PieceText>,
    text: Seq<char>,
    style: TextStyle,
    base: TextStyle,
)
    requires
        all_have_marks_of(pieces, base),
        has_marks_of(style, base),
    ensures
        all_have_marks_of(piece_pushed(pieces, text, style), base),
{
}

proof fn lemma_extended_marks(output: Seq<PieceText>, pieces: Seq<PieceText>, base: TextStyle)
    requires
        all_have_marks_of(output, base),
        all_have_marks_of(pieces, base),
    ensures
        all_have_marks_of(pieces_extended(output, pieces), base),
    decreases pieces.len(),
{
    if pieces.len() > 0 {
        let rest = pieces.drop_last();
        assert(forall|i: int| 0 <= i < rest.len() ==> #[trigger] rest[i] == pieces[i]);
        lemma_extended_marks(output, rest, base);
        assert(pieces.last() == pieces[pieces.len() - 1]);
        let before = pieces_extended(output, rest);
        if let PieceText::Span(span) = pieces.last() {
            lemma_pushed_marks(before, span.text, span.style, base);
        }
    }
}

proof fn lemma_linked_marks(
    output: Seq<PieceText>,
    text: Seq<char>,
    ranges: Seq<(int, int)>,
    from: int,
    style: TextStyle,
    base: TextStyle,
)
    requires
        all_have_marks_of(output, base),
        has_marks_of(style, base),
    ensures
        all_have_marks_of(linked_text(output, text, ranges, from, style), base),
    decreases ranges.len(),
{
    if ranges.len() == 0 {
        lemma_pushed_marks(output, text.subrange(from, text.len() as int), style, base);
    } else {
        let (start, end) = ranges[0];
        let link = merged_style(style, link_style());
        let before = piece_pushed(output, text.subrange(from, start), style);
        let linked = piece_pushed(before, text.subrange(start, end), link);
        lemma_pushed_marks(output, text.subrange(from, start), style, base);
        lemma_pushed_marks(before, text.subrange(start, end), link, base);
        lemma_linked_marks(linked, text, ranges.drop_first(), end, style, base);
    }
}

proof fn lemma_marks(nodes: Seq<NodeText>, style: TextStyle, base: TextStyle)
    requires
        has_marks_of(style, base),
    ensures
        all_have_marks_of(pieces_of(nodes, style), base),
    decreases nodes,
{
    if nodes.len() > 0 {
        lemma_marks(nodes.drop_last(), style, base);
        lemma_node_marks(pieces_of(nodes.drop_last(), style), nodes.last(), style, base);
    }
}

proof fn lemma_node_marks(
    output: Seq<PieceText>,
    node: NodeText,
    style: TextStyle,
    base: TextStyle,
)
    requires
        all_have_marks_of(output, base),
        has_marks_of(style, base),
    ensures
        all_have_marks_of(node_pieces(output, node, style), base),
    decreases node,
{
    assert forall|text: Seq<char>, overlay: TextStyle| all_have_marks_of(
        #[trigger] piece_pushed(output, text, merged_style(style, overlay)),
        base,
    ) by {
        lemma_pushed_marks(output, text, merged_style(style, overlay), base);
    }
    match node {
        NodeText::Element(TagText::Image(address), children) => {},
        NodeText::Element(tag, children) => {
            lemma_marks(children, element_style(tag, style), base);
            lemma_extended_marks(output, pieces_of(children, element_style(tag, style)), base);
        },
        NodeText::Text(text) => {
            lemma_linked_marks(output, text, urls_of(text), 0, style, base);
            lemma_pushed_marks(output, text, style, base);
        },
        NodeText::Rule => lemma_pushed_marks(output, "─"@, style, base),
        _ => {},
    }
}

/// Whether `style` is that of what stands in `tag`, as far as `tag` says.
pub open spec fn is_marked_as(style: TextStyle, tag: TagText) -> bool {
    match tag {
        TagText::Strong => style.bold,
        TagText::Emphasis => style.italic,
        TagText::Strikethrough => style.crossed_out,
        TagText::Superscript => style.italic && style.dim,
        TagText::Subscript => style.italic && style.dim,
        TagText::Link => style.underlined,
        _ => true,
    }
}

/// All that stands in emphasis is shown as such, whatever else it is: strong text is bold, other
/// emphasis is italic, what is struck out is crossed out, and links are underlined. What was marked
/// before stays marked.
pub proof fn law_emphasis_is_shown(
    tag: TagText,
    children: Seq<NodeText>,
    style: TextStyle,
    index: int,
)
    requires
        0 <= index < pieces_of(seq![NodeText::Element(tag, children)], style).len(),
    ensures
        pieces_of(seq![NodeText::Element(tag, children)], style)[index] matches PieceText::Span(
            span,
        ) ==> is_marked_as(span.style, tag) && has_marks_of(span.style, style),
{
    let node = NodeText::Element(tag, children);
    let nodes = seq![node];
    let base = element_style(tag, style);
    assert(nodes.drop_last() =~= Seq::empty());
    reveal_with_fuel(pieces_of, 2);
    let none = pieces_of(Seq::empty(), style);
    lemma_node_marks(none, node, style, style);
    if !(tag is Image) {
        lemma_marks(children, base, base);
        lemma_extended_marks(none, pieces_of(children, base), base);
    }
}

} // verus!
