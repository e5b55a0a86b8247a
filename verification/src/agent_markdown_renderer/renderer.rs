//! The blocks of a document, laid out in lines.

use vstd::prelude::*;

use crate::agent_markdown_renderer::content::collect_literal;
use crate::agent_markdown_renderer::content::inline_pieces;
use crate::agent_markdown_renderer::content::literal_of;
use crate::agent_markdown_renderer::content::pieces_of;
use crate::agent_markdown_renderer::content::push_node_pieces;
use crate::agent_markdown_renderer::document::lemma_nodes_view;
use crate::agent_markdown_renderer::document::node_view;
use crate::agent_markdown_renderer::document::nodes_view;
use crate::agent_markdown_renderer::document::Node;
use crate::agent_markdown_renderer::document::NodeText;
use crate::agent_markdown_renderer::document::QuoteKind;
use crate::agent_markdown_renderer::document::Tag;
use crate::agent_markdown_renderer::document::TagText;
use crate::agent_markdown_renderer::frames::border_style;
use crate::agent_markdown_renderer::frames::render_table;
use crate::agent_markdown_renderer::frames::table_lines;
use crate::agent_markdown_renderer::highlight::highlight_code;
use crate::agent_markdown_renderer::highlight::highlighted;
use crate::agent_markdown_renderer::highlight::Syntaxes;
use crate::agent_markdown_renderer::inline::pieces_view;
use crate::agent_markdown_renderer::inline::wrap_inline;
use crate::agent_markdown_renderer::inline::wrapped;
use crate::agent_markdown_renderer::inline::InlinePiece;
use crate::agent_markdown_renderer::literal::literal_wrapped;
use crate::agent_markdown_renderer::literal::wrap_preserving_whitespace;
use crate::agent_markdown_renderer::measure::clusters;
use crate::agent_markdown_renderer::measure::display_width;
use crate::agent_markdown_renderer::measure::fitting_text;
use crate::agent_markdown_renderer::measure::text_width;
use crate::agent_markdown_renderer::measure::truncate_plain;
use crate::agent_markdown_renderer::style::bold_style;
use crate::agent_markdown_renderer::style::colored_style;
use crate::agent_markdown_renderer::style::plain_style;
use crate::agent_markdown_renderer::style::ColorRole;
use crate::agent_markdown_renderer::style::TextStyle;
use crate::agent_markdown_renderer::styled::append_block;
use crate::agent_markdown_renderer::styled::append_block_without_gap;
use crate::agent_markdown_renderer::styled::blank_trimmed;
use crate::agent_markdown_renderer::styled::block_appended;
use crate::agent_markdown_renderer::styled::clip_line;
use crate::agent_markdown_renderer::styled::clipped;
use crate::agent_markdown_renderer::styled::extend_lines;
use crate::agent_markdown_renderer::styled::is_no_wider_than_clusters;
use crate::agent_markdown_renderer::styled::keep_within;
use crate::agent_markdown_renderer::styled::law_line_within_its_clusters;
use crate::agent_markdown_renderer::styled::line_width;
use crate::agent_markdown_renderer::styled::lines_view;
use crate::agent_markdown_renderer::styled::prepended;
use crate::agent_markdown_renderer::styled::pushed;
use crate::agent_markdown_renderer::styled::trim_blank_lines;
use crate::agent_markdown_renderer::styled::SpanText;
use crate::agent_markdown_renderer::styled::StyledLine;
use crate::agent_markdown_renderer::styled::StyledSpan;
use crate::agent_markdown_renderer::table::larger;
use crate::agent_markdown_renderer::table::smaller;
use crate::agent_markdown_renderer::table::span_line;
use crate::agent_markdown_renderer::table::text_line;
use crate::agent_markdown_renderer::tidy::all_merged;
use crate::agent_markdown_renderer::tidy::law_blocks_are_merged;
use crate::text::chars_of;
use crate::text::decimal;
use crate::text::decimal_text;
use crate::text::first_word;
use crate::text::first_word_text;
use crate::text::repeat_char;
use crate::text::repeated;
use crate::text::text_range;

verus! {

/// The lines of inline content in `style`.
pub open spec fn inline_block(nodes: Seq<NodeText>, style: TextStyle, width: int) -> Seq<
    Seq<SpanText>,
> {
    wrapped(pieces_of(nodes, style), width)
}

/// The style of a heading: bold, and underlined on the first level.
pub open spec fn heading_style(level: u8) -> TextStyle {
    TextStyle { underlined: level == 1, ..bold_style() }
}

/// `lines` with `first` in front of the first one and `rest` in front of the others.
pub open spec fn prefixed(
    lines: Seq<Seq<SpanText>>,
    first: Seq<char>,
    first_style: TextStyle,
    rest: Seq<char>,
    rest_style: TextStyle,
) -> Seq<Seq<SpanText>> {
    Seq::new(
        lines.len(),
        |i: int|
            if i == 0 {
                prepended(lines[i], first, first_style)
            } else {
                prepended(lines[i], rest, rest_style)
            },
    )
}

/// `lines`, or one empty line where there is none.
pub open spec fn at_least_a_line(lines: Seq<Seq<SpanText>>) -> Seq<Seq<SpanText>> {
    if lines.len() == 0 {
        seq![Seq::empty()]
    } else {
        lines
    }
}

/// The title of an alert.
pub open spec fn quote_label(kind: QuoteKind) -> Seq<char> {
    match kind {
        QuoteKind::Note => "NOTE"@,
        QuoteKind::Tip => "TIP"@,
        QuoteKind::Important => "IMPORTANT"@,
        QuoteKind::Warning => "WARNING"@,
        QuoteKind::Caution => "CAUTION"@,
    }
}

/// The colour role of the title of an alert.
pub open spec fn quote_role(kind: QuoteKind) -> ColorRole {
    match kind {
        QuoteKind::Tip => ColorRole::Success,
        QuoteKind::Warning => ColorRole::Warning,
        QuoteKind::Caution => ColorRole::Error,
        _ => ColorRole::Accent,
    }
}

/// The title line of a quote, if it has one.
pub open spec fn quote_title(kind: Option<QuoteKind>) -> Seq<Seq<SpanText>> {
    match kind {
        Some(alert) => seq![
            span_line(
                quote_label(alert),
                TextStyle { bold: true, ..colored_style(quote_role(alert)) },
            ),
        ],
        None => Seq::empty(),
    }
}

/// `inner` behind the bar of a quote, under its title.
pub open spec fn quoted(kind: Option<QuoteKind>, inner: Seq<Seq<SpanText>>) -> Seq<Seq<SpanText>> {
    prefixed(
        at_least_a_line(quote_title(kind) + inner),
        "│ "@,
        colored_style(ColorRole::Accent),
        "│ "@,
        colored_style(ColorRole::Accent),
    )
}

/// `s` without the line breaks at its end.
pub open spec fn end_breaks_trimmed(s: Seq<char>) -> Seq<char>
    decreases s.len(),
{
    if s.len() > 0 && (s.last() == '\r' || s.last() == '\n') {
        end_breaks_trimmed(s.drop_last())
    } else {
        s
    }
}

/// What the upper frame of a code block begins with.
pub open spec fn code_label(language: Seq<char>) -> Seq<char> {
    if language.len() == 0 {
        "╭"@
    } else {
        "╭─ "@ + language + " "@
    }
}

/// The upper frame of a code block, up to its corner.
pub open spec fn code_top_start(language: Seq<char>, width: int) -> Seq<SpanText> {
    pushed(
        Seq::empty(),
        fitting_text(clusters(code_label(language)), larger(1, width - 1)),
        border_style(),
    )
}

/// The upper frame of a code block.
pub open spec fn code_top(language: Seq<char>, width: int) -> Seq<SpanText> {
    let start = code_top_start(language, width);
    let line = pushed(
        start,
        repeated('─', larger(0, width - line_width(start) - 1) as nat),
        border_style(),
    );
    if width > 1 {
        pushed(line, "╮"@, border_style())
    } else {
        line
    }
}

/// The lower frame of a code block.
pub open spec fn code_bottom(width: int) -> Seq<SpanText> {
    let line = pushed(
        pushed(Seq::empty(), "╰"@, border_style()),
        repeated('─', larger(0, width - 2) as nat),
        border_style(),
    );
    if width > 1 {
        pushed(line, "╯"@, border_style())
    } else {
        line
    }
}

/// The spaces on either side of code.
pub open spec fn code_padding(width: int) -> int {
    if width < 1 {
        0
    } else {
        smaller(2, (width - 1) / 2)
    }
}

/// The lines of code, in the colours of its language where that is known.
pub open spec fn code_lines(content: Seq<char>, language: Seq<char>, width: int) -> Seq<
    Seq<SpanText>,
> {
    if content.len() == 0 {
        seq![Seq::empty()]
    } else {
        match highlighted(content, language, width) {
            Some(lines) => lines,
            None => literal_wrapped(content, width, plain_style()),
        }
    }
}

/// The lines of a code block.
pub open spec fn code_block(language: Seq<char>, literal: Seq<char>, width: int) -> Seq<
    Seq<SpanText>,
> {
    let padding = code_padding(width);
    let indent = repeated(' ', padding as nat);
    let lines = code_lines(
        end_breaks_trimmed(literal),
        language,
        larger(1, width - 2 * padding),
    );
    (seq![code_top(language, width)] + prefixed(
        lines,
        indent,
        plain_style(),
        indent,
        plain_style(),
    )).push(code_bottom(width))
}

/// The marker of an item: its number, or a bullet.
pub open spec fn item_marker(start: Option<u64>, index: int) -> Seq<char> {
    match start {
        None => "• "@,
        Some(first) => decimal(smaller(first + index, u64::MAX as int) as nat) + ". "@,
    }
}

/// The columns that are left beside `prefix`, at least one.
pub open spec fn width_beside(prefix: Seq<char>, width: int) -> int {
    larger(1, width - text_width(prefix))
}

/// `inner` behind `prefix`, which stands in front of its first line.
pub open spec fn hung(prefix: Seq<char>, style: TextStyle, inner: Seq<Seq<SpanText>>) -> Seq<
    Seq<SpanText>,
> {
    prefixed(
        at_least_a_line(inner),
        prefix,
        style,
        repeated(' ', text_width(prefix)),
        plain_style(),
    )
}

/// How many of `nodes` are items.
pub open spec fn item_count(nodes: Seq<NodeText>) -> int
    decreases nodes.len(),
{
    if nodes.len() == 0 {
        0
    } else {
        item_count(nodes.drop_last()) + (if is_item(nodes.last()) {
            1int
        } else {
            0int
        })
    }
}

/// Whether `node` is an item.
pub open spec fn is_item(node: NodeText) -> bool {
    node is Element && node->Element_0 is Item
}

/// What stands in front of a footnote.
pub open spec fn footnote_prefix(label: Seq<char>) -> Seq<char> {
    "["@ + label + "] "@
}

/// The style of what stands in front of a footnote.
pub open spec fn footnote_style() -> TextStyle {
    TextStyle { bold: true, ..colored_style(ColorRole::Accent) }
}

/// The lines of a formula that stands by itself.
pub open spec fn math_block(formula: Seq<char>, width: int) -> Seq<Seq<SpanText>> {
    let style = colored_style(ColorRole::Math);
    if width < 3 {
        literal_wrapped(formula, width, style)
    } else {
        prefixed(literal_wrapped(formula, width - 2, style), "│ "@, style, "│ "@, style)
    }
}

/// The lines of HTML as it stands.
pub open spec fn html_block(html: Seq<char>, width: int) -> Seq<Seq<SpanText>> {
    literal_wrapped(html, width, colored_style(ColorRole::Muted))
}

/// Blocks that have been laid out, and the inline nodes that stand behind them.
#[verifier::ext_equal]
pub struct Blocks {
    pub output: Seq<Seq<SpanText>>,
    pub loose: Seq<NodeText>,
}

/// The lines of `laid`, with its loose nodes as a block of their own.
pub open spec fn loose_flushed(laid: Blocks, width: int) -> Seq<Seq<SpanText>> {
    if laid.loose.len() == 0 {
        laid.output
    } else {
        block_appended(laid.output, inline_block(laid.loose, plain_style(), width))
    }
}

/// What `nodes` are laid out to.
pub open spec fn blocks_laid(nodes: Seq<NodeText>, width: int) -> Blocks
    decreases nodes, 0int,
{
    if nodes.len() == 0 {
        Blocks { output: Seq::empty(), loose: Seq::empty() }
    } else {
        let before = blocks_laid(nodes.drop_last(), width);
        match node_block(nodes.last(), width) {
            Some(block) => Blocks {
                output: block_appended(loose_flushed(before, width), block),
                loose: Seq::empty(),
            },
            None => Blocks { loose: before.loose.push(nodes.last()), ..before },
        }
    }
}

/// The lines of `nodes`: those of each block, set off by empty lines, where inline nodes that
/// stand next to each other make up a block.
pub open spec fn blocks(nodes: Seq<NodeText>, width: int) -> Seq<Seq<SpanText>>
    decreases nodes, 1int,
{
    blank_trimmed(loose_flushed(blocks_laid(nodes, width), width))
}

/// The lines of a list.
pub open spec fn list_lines(start: Option<u64>, nodes: Seq<NodeText>, width: int) -> Seq<
    Seq<SpanText>,
>
    decreases nodes, 0int,
{
    if nodes.len() == 0 {
        Seq::empty()
    } else {
        let before = list_lines(start, nodes.drop_last(), width);
        match nodes.last() {
            NodeText::Element(TagText::Item, children) => {
                let marker = item_marker(start, item_count(nodes.drop_last()));
                before + hung(
                    marker,
                    colored_style(ColorRole::Muted),
                    blocks(children, width_beside(marker, width)),
                )
            },
            _ => before,
        }
    }
}

/// The lines of a definition list.
pub open spec fn definition_lines(nodes: Seq<NodeText>, width: int) -> Seq<Seq<SpanText>>
    decreases nodes, 0int,
{
    if nodes.len() == 0 {
        Seq::empty()
    } else {
        let before = definition_lines(nodes.drop_last(), width);
        match nodes.last() {
            NodeText::Element(TagText::DefinitionListTitle, children) => before + blank_trimmed(
                inline_block(children, bold_style(), width),
            ),
            NodeText::Element(TagText::DefinitionListDefinition, children) => before
                + blank_trimmed(
                hung(
                    "  · "@,
                    colored_style(ColorRole::Accent),
                    blocks(children, width_beside("  · "@, width)),
                ),
            ),
            _ => before,
        }
    }
}

/// The lines of `node` where it is a block, nothing where it is inline.
pub open spec fn node_block(node: NodeText, width: int) -> Option<Seq<Seq<SpanText>>>
    decreases node, 0int,
{
    match node {
        NodeText::Element(tag, children) => match tag {
            TagText::Paragraph => Some(
                if children.len() == 1 && children[0] is DisplayMath {
                    math_block(children[0]->DisplayMath_0, width)
                } else {
                    inline_block(children, plain_style(), width)
                },
            ),
            TagText::Heading(level) => Some(inline_block(children, heading_style(level), width)),
            TagText::BlockQuote(kind) => Some(
                quoted(kind, blocks(children, larger(1, width - 2))),
            ),
            TagText::IndentedCode => Some(code_block(Seq::empty(), literal_of(children), width)),
            TagText::FencedCode(info) => Some(
                code_block(first_word(info), literal_of(children), width),
            ),
            TagText::List(start) => Some(list_lines(start, children, width)),
            TagText::FootnoteDefinition(label) => Some(
                hung(
                    footnote_prefix(label),
                    footnote_style(),
                    blocks(children, width_beside(footnote_prefix(label), width)),
                ),
            ),
            TagText::DefinitionList => Some(definition_lines(children, width)),
            TagText::Table(alignments) => Some(table_lines(alignments, children, width)),
            TagText::HtmlBlock => Some(html_block(literal_of(children), width)),
            TagText::Item => Some(blocks(children, width)),
            TagText::DefinitionListTitle => Some(blocks(children, width)),
            TagText::DefinitionListDefinition => Some(blocks(children, width)),
            TagText::TableHead => Some(blocks(children, width)),
            TagText::TableRow => Some(blocks(children, width)),
            TagText::TableCell => Some(blocks(children, width)),
            _ => None,
        },
        NodeText::Rule => Some(seq![span_line(repeated('─', width as nat), border_style())]),
        NodeText::DisplayMath(formula) => Some(math_block(formula, width)),
        NodeText::Html(html) => Some(html_block(html, width)),
        _ => None,
    }
}

/// The lines of a document that is shown `width` columns wide, at least one, each cut where the
/// columns end.
pub open spec fn document_lines(nodes: Seq<NodeText>, width: int) -> Seq<Seq<SpanText>> {
    let columns = larger(1, width);
    blocks(nodes, columns).map_values(|line: Seq<SpanText>| clipped(line, columns))
}

/// A document that is to be shown in no columns is shown in one.
pub proof fn law_no_columns_are_one(nodes: Seq<NodeText>)
    ensures
        document_lines(nodes, 0) == document_lines(nodes, 1),
{
}

/// Puts `first` in front of the first line and `rest` in front of the others.
fn prefix_lines(
    lines: Vec<StyledLine>,
    first: &str,
    first_style: TextStyle,
    rest: &str,
    rest_style: TextStyle,
) -> (r: Vec<StyledLine>)
    ensures
        lines_view(r@) == prefixed(lines_view(lines@), first@, first_style, rest@, rest_style),
{
    let ghost all = prefixed(lines_view(lines@), first@, first_style, rest@, rest_style);
    let mut output: Vec<StyledLine> = Vec::new();
    for line in it: lines
        invariant
            it.seq() == lines@,
            all == prefixed(lines_view(lines@), first@, first_style, rest@, rest_style),
            output@.len() == it.index(),
            lines_view(output@) == all.take(it.index() as int),
    {
        let mut line = line;
        let ghost index = it.index() as int;
        assert(lines_view(lines@)[index] == line@);
        if output.is_empty() {
            line.prepend(first, first_style);
        } else {
            line.prepend(rest, rest_style);
        }
        let ghost before = lines_view(output@);
        output.push(line);
        assert(lines_view(output@) =~= before.push(line@));
        assert(before.push(line@) =~= all.take(index + 1));
    }
    assert(all.take(all.len() as int) =~= all);
    output
}

/// Adds an empty line where there is none.
fn ensure_line(lines: &mut Vec<StyledLine>)
    ensures
        lines_view(final(lines)@) == at_least_a_line(lines_view(old(lines)@)),
{
    if lines.is_empty() {
        lines.push(StyledLine::default());
        assert(lines_view(lines@) =~= seq![Seq::<SpanText>::empty()]);
    }
}

/// The text without the line breaks at its end.
fn trim_end_breaks(text: &str) -> (r: String)
    ensures
        r@ == end_breaks_trimmed(text@),
{
    let chars = chars_of(text);
    let mut end = chars.len();
    assert(chars@.take(end as int) =~= chars@);
    while end > 0 && (chars[end - 1] == '\r' || chars[end - 1] == '\n')
        invariant
            end <= chars@.len(),
            end_breaks_trimmed(chars@.take(end as int)) == end_breaks_trimmed(chars@),
        decreases end,
    {
        assert(chars@.take(end as int).last() == chars@[end - 1]);
        assert(chars@.take(end as int).drop_last() =~= chars@.take(end - 1));
        end = end - 1;
    }
    assert(chars@.subrange(0, end as int) =~= chars@.take(end as int));
    assert(end > 0 ==> chars@.take(end as int).last() == chars@[end - 1]);
    text_range(&chars, 0, end)
}

/// Lays out the blocks of a document, `width` columns wide.
pub struct Renderer<'a> {
    pub width: usize,
    pub syntaxes: Option<&'a Syntaxes>,
}

impl<'a> Renderer<'a> {
    fn narrowed(&self, prefix_width: usize) -> (r: Renderer<'a>)
        ensures
            r.width == larger(1, self.width - prefix_width),
    {
        let width = if self.width > prefix_width {
            self.width - prefix_width
        } else {
            1
        };
        Renderer { width, syntaxes: self.syntaxes }
    }

    fn render_inline_block(&self, nodes: &Vec<Node>, style: TextStyle) -> (r: Vec<StyledLine>)
        ensures
            lines_view(r@) == inline_block(nodes_view(nodes@), style, self.width as int),
    {
        wrap_inline(&inline_pieces(nodes, style), self.width)
    }

    fn render_heading(&self, level: u8, children: &Vec<Node>) -> (r: Vec<StyledLine>)
        ensures
            lines_view(r@) == inline_block(
                nodes_view(children@),
                heading_style(level),
                self.width as int,
            ),
    {
        let style = TextStyle { bold: true, underlined: level == 1, ..TextStyle::default() };
        self.render_inline_block(children, style)
    }

    fn render_quote(&self, kind: Option<QuoteKind>, children: &Vec<Node>) -> (r: Vec<StyledLine>)
        ensures
            lines_view(r@) == quoted(
                kind,
                blocks(nodes_view(children@), larger(1, self.width - 2)),
            ),
        decreases children@, 2int,
    {
        let mut inner = self.narrowed(2).render_blocks(children);
        let ghost body = lines_view(inner@);
        let mut lines: Vec<StyledLine> = Vec::new();
        if let Some(alert) = kind {
            let label = match alert {
                QuoteKind::Note => "NOTE",
                QuoteKind::Tip => "TIP",
                QuoteKind::Important => "IMPORTANT",
                QuoteKind::Warning => "WARNING",
                QuoteKind::Caution => "CAUTION",
            };
            let role = match alert {
                QuoteKind::Tip => ColorRole::Success,
                QuoteKind::Warning => ColorRole::Warning,
                QuoteKind::Caution => ColorRole::Error,
                QuoteKind::Note => ColorRole::Accent,
                QuoteKind::Important => ColorRole::Accent,
            };
            proof {
                reveal_strlit("NOTE");
                reveal_strlit("TIP");
                reveal_strlit("IMPORTANT");
                reveal_strlit("WARNING");
                reveal_strlit("CAUTION");
            }
            lines.push(text_line(label, TextStyle::colored(role).bold()));
        }
        assert(lines_view(lines@) =~= quote_title(kind));
        extend_lines(&mut lines, inner);
        ensure_line(&mut lines);
        let accent = TextStyle::colored(ColorRole::Accent);
        prefix_lines(lines, "│ ", accent, "│ ", accent)
    }

    fn render_code_top(&self, language: &str) -> (r: StyledLine)
        ensures
            r@ == code_top(language@, self.width as int),
    {
        let border = TextStyle::colored(ColorRole::Border);
        let mut label = if language.is_empty() {
            "╭".to_owned()
        } else {
            let mut label = "╭─ ".to_owned();
            label.append(language);
            label.append(" ");
            label
        };
        assert(label@ == code_label(language@));
        let room = if self.width > 2 {
            self.width - 1
        } else {
            1
        };
        let label = truncate_plain(&label, room);
        let mut top = StyledLine::default();
        top.push(&label, border);
        assert(top@ == code_top_start(language@, self.width as int));
        let rest = self.width.saturating_sub(top.width()).saturating_sub(1);
        top.push(&repeat_char('─', rest), border);
        if self.width > 1 {
            top.push("╮", border);
        }
        top
    }

    fn render_code_bottom(&self) -> (r: StyledLine)
        ensures
            r@ == code_bottom(self.width as int),
    {
        let border = TextStyle::colored(ColorRole::Border);
        let mut bottom = StyledLine::default();
        bottom.push("╰", border);
        bottom.push(&repeat_char('─', self.width.saturating_sub(2)), border);
        if self.width > 1 {
            bottom.push("╯", border);
        }
        bottom
    }

    fn render_code_lines(&self, content: &str, language: &str, width: usize) -> (r: Vec<StyledLine>)
        ensures
            lines_view(r@) == code_lines(content@, language@, width as int),
    {
        if content.is_empty() {
            let mut lines: Vec<StyledLine> = Vec::new();
            lines.push(StyledLine::default());
            assert(lines_view(lines@) =~= seq![Seq::<SpanText>::empty()]);
            return lines;
        }
        match highlight_code(content, language, width, self.syntaxes) {
            Some(lines) => lines,
            None => wrap_preserving_whitespace(content, width, TextStyle::default()),
        }
    }

    fn render_code_block(&self, language: &str, children: &Vec<Node>) -> (r: Vec<StyledLine>)
        ensures
            lines_view(r@) == code_block(
                language@,
                literal_of(nodes_view(children@)),
                self.width as int,
            ),
    {
        let mut content = String::new();
        collect_literal(children, &mut content);
        assert(content@ =~= literal_of(nodes_view(children@)));
        let content = trim_end_breaks(&content);
        let half = self.width.saturating_sub(1) / 2;
        let padding: usize = if half > 2 {
            2
        } else {
            half
        };
        assert(padding == code_padding(self.width as int));
        let inner = if self.width > 2 * padding {
            self.width - 2 * padding
        } else {
            1
        };
        let lines = self.render_code_lines(&content, language, inner);
        let indent = repeat_char(' ', padding);
        let body = prefix_lines(
            lines,
            &indent,
            TextStyle::default(),
            &indent,
            TextStyle::default(),
        );
        let ghost middle = lines_view(body@);
        let mut output: Vec<StyledLine> = Vec::new();
        output.push(self.render_code_top(language));
        assert(lines_view(output@) =~= seq![code_top(language@, self.width as int)]);
        extend_lines(&mut output, body);
        let ghost before = lines_view(output@);
        output.push(self.render_code_bottom());
        assert(lines_view(output@) =~= before.push(code_bottom(self.width as int)));
        output
    }

    /// Puts a prefix in front of the first line of the blocks, and as many spaces in front of
    /// the others.
    fn render_prefixed_container(
        &self,
        prefix: &str,
        prefix_style: TextStyle,
        children: &Vec<Node>,
    ) -> (r: Vec<StyledLine>)
        ensures
            lines_view(r@) == hung(
                prefix@,
                prefix_style,
                blocks(nodes_view(children@), width_beside(prefix@, self.width as int)),
            ),
        decreases children@, 2int,
    {
        let prefix_width = display_width(prefix);
        let mut lines = self.narrowed(prefix_width).render_blocks(children);
        ensure_line(&mut lines);
        let spaces = repeat_char(' ', prefix_width);
        prefix_lines(lines, prefix, prefix_style, &spaces, TextStyle::default())
    }

    fn render_list(&self, start: Option<u64>, children: &Vec<Node>) -> (r: Vec<StyledLine>)
        ensures
            lines_view(r@) == list_lines(start, nodes_view(children@), self.width as int),
        decreases children@, 0int,
    {
        let ghost all = nodes_view(children@);
        proof {
            lemma_nodes_view(children@);
        }
        let mut output: Vec<StyledLine> = Vec::new();
        let mut count: usize = 0;
        assert(lines_view(output@) =~= list_lines(start, all.take(0), self.width as int));
        for i in 0..children.len()
            invariant
                all == nodes_view(children@),
                all.len() == children@.len(),
                forall|j: int|
                    0 <= j < children@.len() ==> #[trigger] all[j] == node_view(children@[j]),
                count <= i,
                count == item_count(all.take(i as int)),
                lines_view(output@) == list_lines(start, all.take(i as int), self.width as int),
            decreases children@.len() - i,
        {
            assert(all.take(i + 1).drop_last() =~= all.take(i as int));
            assert(all.take(i + 1).last() == all[i as int]);
            if let Node::Element { tag: Tag::Item, children: item } = &children[i] {
                let marker = match start {
                    None => "• ".to_owned(),
                    Some(first) => {
                        let mut number = decimal_text(first.saturating_add(count as u64));
                        number.append(". ");
                        number
                    },
                };
                assert(marker@ == item_marker(start, count as int));
                let muted = TextStyle::colored(ColorRole::Muted);
                let lines = self.render_prefixed_container(&marker, muted, item);
                extend_lines(&mut output, lines);
                count = count + 1;
            }
        }
        assert(all.take(all.len() as int) =~= all);
        output
    }

    fn render_footnote(&self, label: &str, children: &Vec<Node>) -> (r: Vec<StyledLine>)
        ensures
            lines_view(r@) == hung(
                footnote_prefix(label@),
                footnote_style(),
                blocks(
                    nodes_view(children@),
                    width_beside(footnote_prefix(label@), self.width as int),
                ),
            ),
        decreases children@, 3int,
    {
        let mut prefix = "[".to_owned();
        prefix.append(label);
        prefix.append("] ");
        let style = TextStyle::colored(ColorRole::Accent).bold();
        self.render_prefixed_container(&prefix, style, children)
    }

    fn render_definition_list(&self, children: &Vec<Node>) -> (r: Vec<StyledLine>)
        ensures
            lines_view(r@) == definition_lines(nodes_view(children@), self.width as int),
        decreases children@, 0int,
    {
        let ghost all = nodes_view(children@);
        proof {
            lemma_nodes_view(children@);
        }
        let mut output: Vec<StyledLine> = Vec::new();
        assert(lines_view(output@) =~= definition_lines(all.take(0), self.width as int));
        for i in 0..children.len()
            invariant
                all == nodes_view(children@),
                all.len() == children@.len(),
                forall|j: int|
                    0 <= j < children@.len() ==> #[trigger] all[j] == node_view(children@[j]),
                lines_view(output@) == definition_lines(all.take(i as int), self.width as int),
            decreases children@.len() - i,
        {
            assert(all.take(i + 1).drop_last() =~= all.take(i as int));
            assert(all.take(i + 1).last() == all[i as int]);
            match &children[i] {
                Node::Element { tag: Tag::DefinitionListTitle, children: title } => {
                    let lines = self.render_inline_block(title, TextStyle::default().bold());
                    append_block_without_gap(&mut output, lines);
                },
                Node::Element { tag: Tag::DefinitionListDefinition, children: body } => {
                    let accent = TextStyle::colored(ColorRole::Accent);
                    let lines = self.render_prefixed_container("  · ", accent, body);
                    append_block_without_gap(&mut output, lines);
                },
                _ => {},
            }
        }
        assert(all.take(all.len() as int) =~= all);
        output
    }

    fn render_display_math(&self, formula: &str) -> (r: Vec<StyledLine>)
        ensures
            lines_view(r@) == math_block(formula@, self.width as int),
    {
        let style = TextStyle::colored(ColorRole::Math);
        if self.width < 3 {
            return wrap_preserving_whitespace(formula, self.width, style);
        }
        let lines = wrap_preserving_whitespace(formula, self.width - 2, style);
        prefix_lines(lines, "│ ", style, "│ ", style)
    }

    fn render_raw_block(&self, text: &str) -> (r: Vec<StyledLine>)
        ensures
            lines_view(r@) == html_block(text@, self.width as int),
    {
        wrap_preserving_whitespace(text, self.width, TextStyle::colored(ColorRole::Muted))
    }

    fn render_html_block(&self, children: &Vec<Node>) -> (r: Vec<StyledLine>)
        ensures
            lines_view(r@) == html_block(literal_of(nodes_view(children@)), self.width as int),
    {
        let mut html = String::new();
        collect_literal(children, &mut html);
        assert(html@ =~= literal_of(nodes_view(children@)));
        self.render_raw_block(&html)
    }

    fn render_paragraph(&self, children: &Vec<Node>) -> (r: Vec<StyledLine>)
        ensures
            Some(lines_view(r@)) == node_block(
                NodeText::Element(TagText::Paragraph, nodes_view(children@)),
                self.width as int,
            ),
    {
        proof {
            lemma_nodes_view(children@);
        }
        if children.len() == 1 {
            if let Node::DisplayMath(formula) = &children[0] {
                assert(nodes_view(children@)[0] == node_view(children@[0]));
                return self.render_display_math(formula);
            }
            assert(nodes_view(children@)[0] == node_view(children@[0]));
        }
        self.render_inline_block(children, TextStyle::default())
    }

    fn render_rule(&self) -> (r: Vec<StyledLine>)
        ensures
            Some(lines_view(r@)) == node_block(NodeText::Rule, self.width as int),
    {
        let text = repeat_char('─', self.width);
        let mut spans: Vec<StyledSpan> = Vec::new();
        spans.push(StyledSpan { text, style: TextStyle::colored(ColorRole::Border) });
        let line = StyledLine { spans };
        assert(line@ =~= span_line(repeated('─', self.width as nat), border_style()));
        let mut lines: Vec<StyledLine> = Vec::new();
        lines.push(line);
        assert(lines_view(lines@) =~= seq![line@]);
        lines
    }

    /// The lines of a node where it is a block, nothing where it is inline.
    fn render_node(&self, node: &Node) -> (r: Option<Vec<StyledLine>>)
        ensures
            match r {
                Some(lines) => node_block(node_view(*node), self.width as int) == Some(
                    lines_view(lines@),
                ),
                None => node_block(node_view(*node), self.width as int) is None,
            },
        decreases *node, 0int,
    {
        match node {
            Node::Element { tag, children } => match tag {
                Tag::Paragraph => Some(self.render_paragraph(children)),
                Tag::Heading(level) => Some(self.render_heading(*level, children)),
                Tag::BlockQuote(kind) => Some(self.render_quote(*kind, children)),
                Tag::IndentedCode => {
                    proof {
                        reveal_strlit("");
                        assert(""@ =~= Seq::<char>::empty());
                    }
                    Some(self.render_code_block("", children))
                },
                Tag::FencedCode(info) => {
                    let language = first_word_text(info);
                    Some(self.render_code_block(&language, children))
                },
                Tag::List(start) => Some(self.render_list(*start, children)),
                Tag::FootnoteDefinition(label) => Some(self.render_footnote(label, children)),
                Tag::DefinitionList => Some(self.render_definition_list(children)),
                Tag::Table(alignments) => Some(render_table(alignments, children, self.width)),
                Tag::HtmlBlock => Some(self.render_html_block(children)),
                Tag::Item => Some(self.render_blocks(children)),
                Tag::DefinitionListTitle => Some(self.render_blocks(children)),
                Tag::DefinitionListDefinition => Some(self.render_blocks(children)),
                Tag::TableHead => Some(self.render_blocks(children)),
                Tag::TableRow => Some(self.render_blocks(children)),
                Tag::TableCell => Some(self.render_blocks(children)),
                Tag::Emphasis => None,
                Tag::Strong => None,
                Tag::Strikethrough => None,
                Tag::Superscript => None,
                Tag::Subscript => None,
                Tag::Link => None,
                Tag::Image(_) => None,
                Tag::MetadataBlock => None,
            },
            Node::Rule => Some(self.render_rule()),
            Node::DisplayMath(formula) => Some(self.render_display_math(formula)),
            Node::Html(html) => Some(self.render_raw_block(html)),
            _ => None,
        }
    }

    /// The lines of the nodes.
    pub fn render_blocks(&self, nodes: &Vec<Node>) -> (r: Vec<StyledLine>)
        ensures
            lines_view(r@) == blocks(nodes_view(nodes@), self.width as int),
        decreases nodes@, 1int,
    {
        let ghost all = nodes_view(nodes@);
        let ghost width = self.width as int;
        proof {
            lemma_nodes_view(nodes@);
        }
        let mut output: Vec<StyledLine> = Vec::new();
        let mut loose: Vec<InlinePiece> = Vec::new();
        let mut is_loose = false;
        let ghost mut laid = blocks_laid(all.take(0), width);
        assert(lines_view(output@) =~= laid.output);
        assert(pieces_view(loose@) =~= pieces_of(laid.loose, plain_style()));
        for i in 0..nodes.len()
            invariant
                width == self.width,
                all == nodes_view(nodes@),
                all.len() == nodes@.len(),
                forall|j: int|
                    0 <= j < nodes@.len() ==> #[trigger] all[j] == node_view(nodes@[j]),
                laid == blocks_laid(all.take(i as int), width),
                lines_view(output@) == laid.output,
                pieces_view(loose@) == pieces_of(laid.loose, plain_style()),
                is_loose == (laid.loose.len() > 0),
            decreases nodes@.len() - i,
        {
            assert(all.take(i + 1).drop_last() =~= all.take(i as int));
            assert(all.take(i + 1).last() == all[i as int]);
            match self.render_node(&nodes[i]) {
                Some(block) => {
                    if is_loose {
                        append_block(&mut output, wrap_inline(&loose, self.width));
                        loose.clear();
                        is_loose = false;
                    }
                    append_block(&mut output, block);
                    proof {
                        laid = blocks_laid(all.take(i + 1), width);
                    }
                    assert(pieces_view(loose@) =~= pieces_of(laid.loose, plain_style()));
                },
                None => {
                    push_node_pieces(&mut loose, &nodes[i], TextStyle::default());
                    is_loose = true;
                    assert(laid.loose.push(all[i as int]).drop_last() =~= laid.loose);
                    proof {
                        laid = blocks_laid(all.take(i + 1), width);
                    }
                },
            }
        }
        assert(all.take(all.len() as int) =~= all);
        if is_loose {
            append_block(&mut output, wrap_inline(&loose, self.width));
        }
        trim_blank_lines(&mut output);
        output
    }
}

/// Shows a document `width` columns wide, at least one: no line takes up more, counted cluster by
/// cluster.
pub fn render_document(nodes: &Vec<Node>, width: usize, syntaxes: Option<&Syntaxes>) -> (r: Vec<
    StyledLine,
>)
    ensures
        lines_view(r@) == document_lines(nodes_view(nodes@), width as int),
        keep_within(lines_view(r@), larger(1, width as int)),
{
    let columns = if width == 0 {
        1
    } else {
        width
    };
    let renderer = Renderer { width: columns, syntaxes };
    let lines = renderer.render_blocks(nodes);
    proof {
        law_blocks_are_merged(nodes_view(nodes@), columns as int);
    }
    let ghost all = document_lines(nodes_view(nodes@), width as int);
    let mut output: Vec<StyledLine> = Vec::new();
    for line in it: lines
        invariant
            it.seq() == lines@,
            columns == larger(1, width as int),
            lines_view(lines@) == blocks(nodes_view(nodes@), columns as int),
            all_merged(lines_view(lines@)),
            keep_within(lines_view(output@), columns as int),
            all == document_lines(nodes_view(nodes@), width as int),
            lines_view(output@) == all.take(it.index() as int),
    {
        let ghost index = it.index() as int;
        assert(lines_view(lines@)[index] == line@);
        let kept = clip_line(line, columns);
        let ghost before = lines_view(output@);
        output.push(kept);
        assert(lines_view(output@) =~= before.push(kept@));
        assert(before.push(kept@) =~= all.take(index + 1));
        proof {
            if is_no_wider_than_clusters(kept@) {
                law_line_within_its_clusters(kept@);
            }
        }
    }
    assert(all.take(all.len() as int) =~= all);
    output
}

} // verus!
