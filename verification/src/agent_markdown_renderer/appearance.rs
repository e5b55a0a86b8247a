//! What code blocks, definitions and inline content look like.

use vstd::prelude::*;

use crate::agent_markdown_renderer::content::literal_of;
use crate::agent_markdown_renderer::content::pieces_of;
use crate::agent_markdown_renderer::document::NodeText;
use crate::agent_markdown_renderer::document::QuoteKind;
use crate::agent_markdown_renderer::document::TagText;
use crate::agent_markdown_renderer::filling::law_texts_are_cut_where_they_are_full;
use crate::agent_markdown_renderer::frames::border_style;
use crate::agent_markdown_renderer::inline::pieces_extended;
use crate::agent_markdown_renderer::inline::wrapped;
use crate::agent_markdown_renderer::inline::PieceText;
use crate::agent_markdown_renderer::literal::literal_wrapped;
use crate::agent_markdown_renderer::measure::clusters;
use crate::agent_markdown_renderer::measure::law_clusters_divide;
use crate::agent_markdown_renderer::measure::text_width;
use crate::agent_markdown_renderer::measure::total_width;
use crate::agent_markdown_renderer::renderer::blocks;
use crate::agent_markdown_renderer::renderer::code_bottom;
use crate::agent_markdown_renderer::renderer::code_label;
use crate::agent_markdown_renderer::renderer::code_top;
use crate::agent_markdown_renderer::renderer::code_top_start;
use crate::agent_markdown_renderer::renderer::hung;
use crate::agent_markdown_renderer::renderer::node_block;
use crate::agent_markdown_renderer::renderer::quote_title;
use crate::agent_markdown_renderer::shapes::hang_behind;
use crate::agent_markdown_renderer::shapes::law_code_is_the_text_of_its_nodes;
use crate::agent_markdown_renderer::shapes::lemma_hung;
use crate::agent_markdown_renderer::shapes::one_or_more;
use crate::agent_markdown_renderer::style::colored_style;
use crate::agent_markdown_renderer::style::plain_style;
use crate::agent_markdown_renderer::style::ColorRole;
use crate::agent_markdown_renderer::style::TextStyle;
use crate::agent_markdown_renderer::styled::blank_trimmed;
use crate::agent_markdown_renderer::styled::law_line_text;
use crate::agent_markdown_renderer::styled::line_text;
use crate::agent_markdown_renderer::styled::line_width;
use crate::agent_markdown_renderer::styled::pushed;
use crate::agent_markdown_renderer::styled::span_columns;
use crate::agent_markdown_renderer::styled::SpanText;
use crate::text::is_blank;
use crate::text::repeated;

verus! {

/// The upper frame of code shows its language, where it has one and there is room for it, and goes on
/// to the last column.
pub proof fn law_code_is_framed_under_its_language(language: Seq<char>, width: int)
    requires
        2 <= width <= usize::MAX,
        ({
            let label = if language.len() == 0 {
                "╭"@
            } else {
                "╭─ "@ + language + " "@
            };
            total_width(clusters(label)) < width && text_width(label) < width
        }),
    ensures
        ({
            let label = if language.len() == 0 {
                "╭"@
            } else {
                "╭─ "@ + language + " "@
            };
            line_text(code_top(language, width)) == label + repeated(
                '─',
                (width - 1 - text_width(label)) as nat,
            ) + "╮"@
        }),
        line_text(code_bottom(width)) == "╰"@ + repeated('─', (width - 2) as nat) + "╯"@,
{
    let label = code_label(language);
    law_clusters_divide(label);
    let parts = clusters(label);
    law_texts_are_cut_where_they_are_full(parts, Seq::empty(), width - 1);
    assert(parts + Seq::<Seq<char>>::empty() =~= parts);
    let start = code_top_start(language, width);
    reveal_strlit("╭");
    reveal_strlit("╭─ ");
    assert(label.len() > 0);
    assert(start =~= seq![SpanText { text: label, style: border_style() }]);
    assert(start.drop_last() =~= Seq::empty());
    reveal_with_fuel(line_text, 2);
    reveal_with_fuel(span_columns, 2);
    assert(line_text(start) =~= label);
    assert(line_width(start) == text_width(label));
    let line = repeated('─', (width - 1 - text_width(label)) as nat);
    law_line_text(start, line, border_style());
    law_line_text(pushed(start, line, border_style()), "╮"@, border_style());
    let below = repeated('─', (width - 2) as nat);
    law_line_text(Seq::empty(), "╰"@, border_style());
    let corner = pushed(Seq::empty(), "╰"@, border_style());
    law_line_text(corner, below, border_style());
    law_line_text(pushed(corner, below, border_style()), "╯"@, border_style());
    assert(line_text(code_bottom(width)) =~= "╰"@ + below + "╯"@);
}

/// HTML is shown as it stands, and muted.
pub proof fn law_html_is_shown_as_it_stands(html: Seq<char>, children: Seq<NodeText>, width: int)
    ensures
        node_block(NodeText::Html(html), width) == Some(
            literal_wrapped(html, width, TextStyle { color: ColorRole::Muted, ..plain_style() }),
        ),
        node_block(NodeText::Element(TagText::HtmlBlock, children), width) == Some(
            literal_wrapped(
                literal_of(children),
                width,
                TextStyle { color: ColorRole::Muted, ..plain_style() },
            ),
        ),
{
}

/// In a list of definitions a title is shown in bold, and a definition hangs behind a dot, each below
/// what comes before it and without an empty line in between.
pub proof fn law_definitions_hang_below_their_titles(
    nodes: Seq<NodeText>,
    children: Seq<NodeText>,
    width: int,
)
    ensures
        ({
            let title = NodeText::Element(TagText::DefinitionListTitle, children);
            let definition = NodeText::Element(TagText::DefinitionListDefinition, children);
            let before = node_block(NodeText::Element(TagText::DefinitionList, nodes), width);
            let titled = node_block(
                NodeText::Element(TagText::DefinitionList, nodes.push(title)),
                width,
            );
            let defined = node_block(
                NodeText::Element(TagText::DefinitionList, nodes.push(definition)),
                width,
            );
            let inner = blocks(children, one_or_more(width - text_width("  · "@)));
            let style = TextStyle { bold: true, ..plain_style() };
            &&& before is Some && titled is Some && defined is Some
            &&& titled->0 == before->0 + blank_trimmed(wrapped(pieces_of(children, style), width))
            &&& exists|hanging: Seq<Seq<SpanText>>|
                hang_behind(hanging, inner, "  · "@) && defined->0 == before->0
                    + #[trigger] blank_trimmed(hanging)
        }),
{
    let title = NodeText::Element(TagText::DefinitionListTitle, children);
    let definition = NodeText::Element(TagText::DefinitionListDefinition, children);
    assert(nodes.push(title).drop_last() =~= nodes);
    assert(nodes.push(definition).drop_last() =~= nodes);
    let inner = blocks(children, one_or_more(width - text_width("  · "@)));
    let accent = colored_style(ColorRole::Accent);
    lemma_hung("  · "@, accent, inner);
    let hanging = hung("  · "@, accent, inner);
    let before = node_block(NodeText::Element(TagText::DefinitionList, nodes), width)->0;
    let defined = node_block(
        NodeText::Element(TagText::DefinitionList, nodes.push(definition)),
        width,
    )->0;
    assert(defined == before + blank_trimmed(hanging));
}

/// Code, formulas, HTML, footnotes and marks of tasks have colours of their own.
pub proof fn law_inline_content_has_its_colour(text: Seq<char>, checked: bool)
    requires
        text.len() > 0,
    ensures
        pieces_of(seq![NodeText::Code(text)], plain_style()) == seq![
            PieceText::Span(
                SpanText { text, style: TextStyle { color: ColorRole::Code, ..plain_style() } },
            ),
        ],
        pieces_of(seq![NodeText::InlineMath(text)], plain_style()) == seq![
            PieceText::Span(
                SpanText { text, style: TextStyle { color: ColorRole::Math, ..plain_style() } },
            ),
        ],
        pieces_of(seq![NodeText::Html(text)], plain_style()) == seq![
            PieceText::Span(
                SpanText { text, style: TextStyle { color: ColorRole::Muted, ..plain_style() } },
            ),
        ],
        pieces_of(seq![NodeText::FootnoteReference(text)], plain_style()) == seq![
            PieceText::Span(
                SpanText {
                    text: "["@ + text + "]"@,
                    style: TextStyle { color: ColorRole::Accent, bold: true, ..plain_style() },
                },
            ),
        ],
        pieces_of(seq![NodeText::TaskListMarker(checked)], plain_style()) == seq![
            PieceText::Span(
                SpanText {
                    text: if checked {
                        "✓ "@
                    } else {
                        "○ "@
                    },
                    style: TextStyle {
                        color: if checked {
                            ColorRole::Success
                        } else {
                            ColorRole::Muted
                        },
                        bold: checked,
                        ..plain_style()
                    },
                },
            ),
        ],
{
    reveal_strlit("✓ ");
    reveal_strlit("○ ");
    reveal_with_fuel(pieces_of, 2);
    let none = Seq::<NodeText>::empty();
    assert(seq![NodeText::Code(text)].drop_last() =~= none);
    assert(seq![NodeText::InlineMath(text)].drop_last() =~= none);
    assert(seq![NodeText::Html(text)].drop_last() =~= none);
    assert(seq![NodeText::FootnoteReference(text)].drop_last() =~= none);
    assert(seq![NodeText::TaskListMarker(checked)].drop_last() =~= none);
}

/// A link and an image have the colour of links and are underlined, and an address in a link is not
/// made a link again.
pub proof fn law_links_look_like_links(
    text: Seq<char>,
    address: Seq<char>,
    description: Seq<char>,
)
    requires
        text.len() > 0,
    ensures
        ({
            let style = TextStyle { color: ColorRole::Link, underlined: true, ..plain_style() };
            &&& pieces_of(
                seq![NodeText::Element(TagText::Link, seq![NodeText::Text(text)])],
                plain_style(),
            ) == seq![PieceText::Span(SpanText { text, style })]
            &&& pieces_of(
                seq![
                    NodeText::Element(
                        TagText::Image(address),
                        seq![NodeText::Text(description)],
                    ),
                ],
                plain_style(),
            ) == seq![
                PieceText::Span(
                    SpanText {
                        text: "▧ "@ + if is_blank(description) {
                            address
                        } else {
                            description
                        },
                        style,
                    },
                ),
            ]
        }),
{
    reveal_with_fuel(pieces_of, 2);
    reveal_with_fuel(pieces_extended, 2);
    reveal_strlit("▧ ");
    let style = TextStyle { color: ColorRole::Link, underlined: true, ..plain_style() };
    let none = Seq::<NodeText>::empty();
    let inner = seq![NodeText::Text(text)];
    assert(inner.drop_last() =~= none);
    assert(pieces_of(none, style) =~= Seq::empty());
    let one = seq![PieceText::Span(SpanText { text, style })];
    assert(pieces_of(inner, style) =~= one);
    assert(one.drop_last() =~= Seq::empty());
    let link = seq![NodeText::Element(TagText::Link, inner)];
    assert(link.drop_last() =~= none);
    assert(pieces_of(none, plain_style()) =~= Seq::empty());
    assert(pieces_of(link, plain_style()) =~= one);
    let image = NodeText::Element(TagText::Image(address), seq![NodeText::Text(description)]);
    assert(seq![image].drop_last() =~= none);
    law_code_is_the_text_of_its_nodes(none, none);
    assert(literal_of(seq![NodeText::Text(description)]) == description);
    let label = "▧ "@ + if is_blank(description) {
        address
    } else {
        description
    };
    assert(label.len() > 0);
    assert(pieces_of(seq![image], plain_style()) =~= seq![
        PieceText::Span(SpanText { text: label, style }),
    ]);
}

/// Whether each of `lines` begins with a span in `style`.
pub open spec fn begin_in(lines: Seq<Seq<SpanText>>, style: TextStyle) -> bool {
    forall|i: int| 0 <= i < lines.len() ==> (#[trigger] lines[i]).len() > 0 && lines[i][0].style
        == style
}

/// The bars of quotes are accented and those of formulas have the colour of formulas.
pub proof fn law_bars_have_their_colour(
    kind: Option<QuoteKind>,
    children: Seq<NodeText>,
    formula: Seq<char>,
    width: int,
)
    ensures
        node_block(NodeText::Element(TagText::BlockQuote(kind), children), width) matches Some(
            lines,
        ) && begin_in(lines, TextStyle { color: ColorRole::Accent, ..plain_style() }),
        width >= 3 ==> (node_block(NodeText::DisplayMath(formula), width) matches Some(lines)
            && begin_in(lines, TextStyle { color: ColorRole::Math, ..plain_style() })),
{
    reveal_strlit("│ ");
}

/// The sign of an item is muted, and what stands in front of a footnote is accented and bold.
pub proof fn law_signs_have_their_colour(
    start: Option<u64>,
    items: Seq<NodeText>,
    label: Seq<char>,
    children: Seq<NodeText>,
    width: int,
)
    ensures
        ({
            let item = NodeText::Element(TagText::Item, children);
            let before = node_block(NodeText::Element(TagText::List(start), items), width)->0;
            let after = node_block(
                NodeText::Element(TagText::List(start), items.push(item)),
                width,
            )->0;
            &&& before.len() < after.len()
            &&& after[before.len() as int].len() > 0
            &&& after[before.len() as int][0].style == (TextStyle {
                color: ColorRole::Muted,
                ..plain_style()
            })
        }),
        ({
            let lines = node_block(
                NodeText::Element(TagText::FootnoteDefinition(label), children),
                width,
            )->0;
            &&& lines.len() > 0
            &&& lines[0].len() > 0
            &&& lines[0][0].style == (TextStyle {
                color: ColorRole::Accent,
                bold: true,
                ..plain_style()
            })
        }),
{
    reveal_strlit("• ");
    reveal_strlit(". ");
    reveal_strlit("[");
    let item = NodeText::Element(TagText::Item, children);
    assert(items.push(item).drop_last() =~= items);
}

/// The heading of an alert is bold and in the colour of its kind.
pub proof fn law_alerts_have_their_colour(kind: QuoteKind)
    ensures
        quote_title(Some(kind)).len() == 1,
        quote_title(Some(kind))[0].len() == 1,
        quote_title(Some(kind))[0][0].style == (TextStyle {
            color: match kind {
                QuoteKind::Note => ColorRole::Accent,
                QuoteKind::Tip => ColorRole::Success,
                QuoteKind::Important => ColorRole::Accent,
                QuoteKind::Warning => ColorRole::Warning,
                QuoteKind::Caution => ColorRole::Error,
            },
            bold: true,
            ..plain_style()
        }),
{
}

} // verus!
