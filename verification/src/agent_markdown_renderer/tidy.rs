//! Shown lines are tidy: no span is empty, no two neighbours share a style, and none holds a
//! control character.

use two_face::re_exports::syntect::parsing::ScopeStackOp;
use two_face::re_exports::syntect::parsing::SyntaxReference;
use vstd::prelude::*;

use crate::agent_markdown_renderer::content::element_style;
use crate::agent_markdown_renderer::content::image_label;
use crate::agent_markdown_renderer::content::literal_of;
use crate::agent_markdown_renderer::content::marker_style;
use crate::agent_markdown_renderer::content::marker_text;
use crate::agent_markdown_renderer::content::node_literal;
use crate::agent_markdown_renderer::content::node_pieces;
use crate::agent_markdown_renderer::content::pieces_of;
use crate::agent_markdown_renderer::document::all_ended;
use crate::agent_markdown_renderer::document::document_of;
use crate::agent_markdown_renderer::document::element_ended;
use crate::agent_markdown_renderer::document::is_multiline_char;
use crate::agent_markdown_renderer::document::multiline_text;
use crate::agent_markdown_renderer::document::node_added;
use crate::agent_markdown_renderer::document::tree_of;
use crate::agent_markdown_renderer::document::Alignment;
use crate::agent_markdown_renderer::document::EventText;
use crate::agent_markdown_renderer::document::NodeText;
use crate::agent_markdown_renderer::document::QuoteKind;
use crate::agent_markdown_renderer::document::TagText;
use crate::agent_markdown_renderer::document::Tree;
use crate::agent_markdown_renderer::frames::bare_row;
use crate::agent_markdown_renderer::frames::bare_rows;
use crate::agent_markdown_renderer::frames::border_style;
use crate::agent_markdown_renderer::frames::boxed;
use crate::agent_markdown_renderer::frames::cell_line;
use crate::agent_markdown_renderer::frames::cell_pieces;
use crate::agent_markdown_renderer::frames::framed_rows;
use crate::agent_markdown_renderer::frames::row_cells;
use crate::agent_markdown_renderer::frames::row_line;
use crate::agent_markdown_renderer::frames::row_lines;
use crate::agent_markdown_renderer::frames::stacked_body;
use crate::agent_markdown_renderer::frames::stacked_header;
use crate::agent_markdown_renderer::frames::stacked_row;
use crate::agent_markdown_renderer::frames::stacked_rows;
use crate::agent_markdown_renderer::frames::table_lines;
use crate::agent_markdown_renderer::frames::title_mark;
use crate::agent_markdown_renderer::frames::titled_pieces;
use crate::agent_markdown_renderer::highlight::cut_regions;
use crate::agent_markdown_renderer::highlight::cuts_of_line;
use crate::agent_markdown_renderer::highlight::highlighted;
use crate::agent_markdown_renderer::highlight::known_syntax;
use crate::agent_markdown_renderer::highlight::language_token;
use crate::agent_markdown_renderer::highlight::lines_laid;
use crate::agent_markdown_renderer::highlight::regions_laid;
use crate::agent_markdown_renderer::highlight::scope_style;
use crate::agent_markdown_renderer::inline::all_restyled;
use crate::agent_markdown_renderer::inline::at_least_one;
use crate::agent_markdown_renderer::inline::breaks_line;
use crate::agent_markdown_renderer::inline::clusters_scanned;
use crate::agent_markdown_renderer::inline::columns_left;
use crate::agent_markdown_renderer::inline::fitting_units;
use crate::agent_markdown_renderer::inline::line_finished;
use crate::agent_markdown_renderer::inline::piece_pushed;
use crate::agent_markdown_renderer::inline::pieces_extended;
use crate::agent_markdown_renderer::inline::pieces_scanned;
use crate::agent_markdown_renderer::inline::tokens_of;
use crate::agent_markdown_renderer::inline::tokens_wrapped;
use crate::agent_markdown_renderer::inline::units_pushed;
use crate::agent_markdown_renderer::inline::word_laid;
use crate::agent_markdown_renderer::inline::word_start;
use crate::agent_markdown_renderer::inline::wrapped;
use crate::agent_markdown_renderer::inline::Laid;
use crate::agent_markdown_renderer::inline::PieceText;
use crate::agent_markdown_renderer::inline::Scan;
use crate::agent_markdown_renderer::inline::TokenText;
use crate::agent_markdown_renderer::literal::cluster_laid;
use crate::agent_markdown_renderer::literal::clusters_laid;
use crate::agent_markdown_renderer::literal::literal_start;
use crate::agent_markdown_renderer::literal::literal_wrapped;
use crate::agent_markdown_renderer::literal::shown_cluster;
use crate::agent_markdown_renderer::literal::without_controls;
use crate::agent_markdown_renderer::literal::Literal;
use crate::agent_markdown_renderer::measure::clusters;
use crate::agent_markdown_renderer::measure::fitting_text;
use crate::agent_markdown_renderer::measure::holds_control;
use crate::agent_markdown_renderer::measure::is_cluster;
use crate::agent_markdown_renderer::measure::joined;
use crate::agent_markdown_renderer::measure::law_clusters_divide;
use crate::agent_markdown_renderer::measure::text_width;
use crate::agent_markdown_renderer::renderer::at_least_a_line;
use crate::agent_markdown_renderer::renderer::blocks;
use crate::agent_markdown_renderer::renderer::blocks_laid;
use crate::agent_markdown_renderer::renderer::code_block;
use crate::agent_markdown_renderer::renderer::code_bottom;
use crate::agent_markdown_renderer::renderer::code_label;
use crate::agent_markdown_renderer::renderer::code_lines;
use crate::agent_markdown_renderer::renderer::code_padding;
use crate::agent_markdown_renderer::renderer::code_top;
use crate::agent_markdown_renderer::renderer::definition_lines;
use crate::agent_markdown_renderer::renderer::document_lines;
use crate::agent_markdown_renderer::renderer::end_breaks_trimmed;
use crate::agent_markdown_renderer::renderer::footnote_prefix;
use crate::agent_markdown_renderer::renderer::footnote_style;
use crate::agent_markdown_renderer::renderer::heading_style;
use crate::agent_markdown_renderer::renderer::hung;
use crate::agent_markdown_renderer::renderer::inline_block;
use crate::agent_markdown_renderer::renderer::item_count;
use crate::agent_markdown_renderer::renderer::item_marker;
use crate::agent_markdown_renderer::renderer::list_lines;
use crate::agent_markdown_renderer::renderer::loose_flushed;
use crate::agent_markdown_renderer::renderer::math_block;
use crate::agent_markdown_renderer::renderer::node_block;
use crate::agent_markdown_renderer::renderer::prefixed;
use crate::agent_markdown_renderer::renderer::quote_title;
use crate::agent_markdown_renderer::renderer::quoted;
use crate::agent_markdown_renderer::renderer::width_beside;
use crate::agent_markdown_renderer::style::bold_style;
use crate::agent_markdown_renderer::style::colored_style;
use crate::agent_markdown_renderer::style::link_style;
use crate::agent_markdown_renderer::style::merged_style;
use crate::agent_markdown_renderer::style::plain_style;
use crate::agent_markdown_renderer::style::ColorRole;
use crate::agent_markdown_renderer::style::TextStyle;
use crate::agent_markdown_renderer::styled::blank_end_trimmed;
use crate::agent_markdown_renderer::styled::blank_start_trimmed;
use crate::agent_markdown_renderer::styled::blank_trimmed;
use crate::agent_markdown_renderer::styled::block_appended;
use crate::agent_markdown_renderer::styled::clipped_parts;
use crate::agent_markdown_renderer::styled::clipped_spans;
use crate::agent_markdown_renderer::styled::is_blank_line;
use crate::agent_markdown_renderer::styled::is_merged;
use crate::agent_markdown_renderer::styled::law_lines_stay_merged;
use crate::agent_markdown_renderer::styled::line_appended;
use crate::agent_markdown_renderer::styled::line_end_trimmed;
use crate::agent_markdown_renderer::styled::line_width;
use crate::agent_markdown_renderer::styled::prepended;
use crate::agent_markdown_renderer::styled::pushed;
use crate::agent_markdown_renderer::styled::span_columns;
use crate::agent_markdown_renderer::styled::Clip;
use crate::agent_markdown_renderer::styled::SpanText;
use crate::agent_markdown_renderer::table::aligned;
use crate::agent_markdown_renderer::table::border_cells;
use crate::agent_markdown_renderer::table::border_text;
use crate::agent_markdown_renderer::table::cells_of;
use crate::agent_markdown_renderer::table::larger;
use crate::agent_markdown_renderer::table::padded;
use crate::agent_markdown_renderer::table::padding_of;
use crate::agent_markdown_renderer::table::rows_of;
use crate::agent_markdown_renderer::table::smaller;
use crate::agent_markdown_renderer::table::table_of;
use crate::agent_markdown_renderer::table::widths_of;
use crate::agent_markdown_renderer::table::TableText;
use crate::agent_markdown_renderer::urls::are_ordered;
use crate::agent_markdown_renderer::urls::law_urls_are_ordered;
use crate::agent_markdown_renderer::urls::lemma_within;
use crate::agent_markdown_renderer::urls::linked_text;
use crate::agent_markdown_renderer::urls::urls_of;
use crate::parts::source_lines;
use crate::text::decimal;
use crate::text::first_word;
use crate::text::is_blank;
use crate::text::is_control_char;
use crate::text::is_white_space;
use crate::text::repeated;
use crate::text::trimmed_end;

verus! {

/// Whether each character of `text` may stand in it: any but a control character, and line feeds,
/// carriage returns and tabs too where `multiline` is set.
pub open spec fn is_safe_text(text: Seq<char>, multiline: bool) -> bool {
    forall|i: int|
        0 <= i < text.len() ==> !is_control_char(#[trigger] text[i]) || (multiline
            && is_multiline_char(text[i]))
}

/// Whether `text` holds no control character.
pub open spec fn is_clean(text: Seq<char>) -> bool {
    is_safe_text(text, false)
}

/// Whether `line` holds no control character.
pub open spec fn is_clean_line(line: Seq<SpanText>) -> bool {
    forall|i: int| 0 <= i < line.len() ==> is_clean((#[trigger] line[i]).text)
}

/// Whether none of `lines` holds a control character.
pub open spec fn all_clean(lines: Seq<Seq<SpanText>>) -> bool {
    forall|i: int| 0 <= i < lines.len() ==> is_clean_line(#[trigger] lines[i])
}

/// Whether in each of `lines` no span is empty and no two neighbours share a style.
pub open spec fn all_merged(lines: Seq<Seq<SpanText>>) -> bool {
    forall|i: int| 0 <= i < lines.len() ==> is_merged(#[trigger] lines[i])
}

/// Whether `tag` shows no control character: the language of a code block, the label of a
/// footnote and the address of an image are shown as they stand.
pub open spec fn is_safe_tag(tag: TagText) -> bool {
    match tag {
        TagText::FencedCode(info) => is_clean(first_word(info)),
        TagText::FootnoteDefinition(label) => is_clean(label),
        TagText::Image(address) => is_safe_text(address, true),
        _ => true,
    }
}

/// Whether the tag of each element that one of `events` starts is safe.
pub open spec fn are_safe_events(events: Seq<EventText>) -> bool {
    forall|i: int|
        0 <= i < events.len() ==> ((#[trigger] events[i]) matches EventText::Start(tag)
            ==> is_safe_tag(tag))
}

/// Whether `node` shows no control character but for line breaks and tabs.
pub open spec fn is_safe_node(node: NodeText) -> bool
    decreases node,
{
    match node {
        NodeText::Element(tag, children) => is_safe_tag(tag) && are_safe_nodes(children),
        NodeText::Text(text) => is_safe_text(text, true),
        NodeText::Code(text) => is_clean(text),
        NodeText::InlineMath(text) => is_clean(text),
        NodeText::DisplayMath(text) => is_clean(text),
        NodeText::Html(text) => is_safe_text(text, true),
        NodeText::InlineHtml(text) => is_clean(text),
        NodeText::FootnoteReference(label) => is_clean(label),
        _ => true,
    }
}

/// Whether none of `nodes` shows a control character but for line breaks and tabs.
pub open spec fn are_safe_nodes(nodes: Seq<NodeText>) -> bool
    decreases nodes,
{
    if nodes.len() == 0 {
        true
    } else {
        are_safe_nodes(nodes.drop_last()) && is_safe_node(nodes.last())
    }
}

/// Whether `piece` shows no control character but for line breaks and tabs, and in code not even
/// these.
pub open spec fn is_safe_piece(piece: PieceText) -> bool {
    match piece {
        PieceText::Span(span) => is_safe_text(span.text, span.style.color != ColorRole::Code),
        _ => true,
    }
}

/// Whether each of `pieces` is safe.
pub open spec fn are_safe_pieces(pieces: Seq<PieceText>) -> bool {
    forall|i: int| 0 <= i < pieces.len() ==> is_safe_piece(#[trigger] pieces[i])
}

spec fn are_safe_tokens(tokens: Seq<TokenText>) -> bool {
    forall|i: int|
        0 <= i < tokens.len() ==> ((#[trigger] tokens[i]) matches TokenText::Word(units)
            ==> is_clean_line(units))
}

spec fn are_safe_cells(cells: Seq<Seq<PieceText>>) -> bool {
    forall|i: int| 0 <= i < cells.len() ==> are_safe_pieces(#[trigger] cells[i])
}

spec fn are_safe_rows(rows: Seq<Seq<Seq<PieceText>>>) -> bool {
    forall|i: int| 0 <= i < rows.len() ==> are_safe_cells(#[trigger] rows[i])
}

/// Whether `line` is merged, and where it is to be `safe`, holds no control character.
spec fn is_neat(line: Seq<SpanText>, safe: bool) -> bool {
    is_merged(line) && (safe ==> is_clean_line(line))
}

spec fn all_neat(lines: Seq<Seq<SpanText>>, safe: bool) -> bool {
    forall|i: int| 0 <= i < lines.len() ==> is_neat(#[trigger] lines[i], safe)
}

proof fn lemma_marks_are_clean()
    ensures
        is_clean("…"@),
        is_clean(" "@),
        is_clean("    "@),
        is_clean("│ "@),
        is_clean("│"@),
        is_clean(" │"@),
        is_clean("╭"@),
        is_clean("╭─ "@),
        is_clean("╮"@),
        is_clean("╰"@),
        is_clean("╯"@),
        is_clean("• "@),
        is_clean(". "@),
        is_clean("  · "@),
        is_clean("["@),
        is_clean("]"@),
        is_clean("] "@),
        is_clean(": "@),
{
    reveal_strlit("…");
    reveal_strlit(" ");
    reveal_strlit("    ");
    reveal_strlit("│ ");
    reveal_strlit("│");
    reveal_strlit(" │");
    reveal_strlit("╭");
    reveal_strlit("╭─ ");
    reveal_strlit("╮");
    reveal_strlit("╰");
    reveal_strlit("╯");
    reveal_strlit("• ");
    reveal_strlit(". ");
    reveal_strlit("  · ");
    reveal_strlit("[");
    reveal_strlit("]");
    reveal_strlit("] ");
    reveal_strlit(": ");
}

proof fn lemma_without_controls(s: Seq<char>)
    ensures
        is_clean(without_controls(s)),
    decreases s.len(),
{
    if s.len() > 0 {
        lemma_without_controls(s.drop_last());
    }
}

proof fn lemma_multiline(s: Seq<char>)
    ensures
        is_safe_text(multiline_text(s), true),
    decreases s.len(),
{
    if s.len() > 0 {
        lemma_multiline(s.drop_last());
    }
}

proof fn lemma_decimal(value: nat)
    ensures
        is_clean(decimal(value)),
    decreases value,
{
    if value >= 10 {
        lemma_decimal(value / 10);
    }
}

proof fn lemma_end_is_safe(s: Seq<char>, multiline: bool)
    requires
        is_safe_text(s, multiline),
    ensures
        is_safe_text(trimmed_end(s), multiline),
    decreases s.len(),
{
    if s.len() > 0 && is_white_space(s.last()) {
        lemma_end_is_safe(s.drop_last(), multiline);
    }
}

proof fn lemma_parts_are_safe(parts: Seq<Seq<char>>, multiline: bool)
    requires
        is_safe_text(joined(parts), multiline),
    ensures
        forall|i: int| 0 <= i < parts.len() ==> is_safe_text(#[trigger] parts[i], multiline),
    decreases parts.len(),
{
    if parts.len() > 0 {
        let rest = joined(parts.drop_last());
        let last = parts.last();
        assert forall|i: int| 0 <= i < rest.len() implies !is_control_char(#[trigger] rest[i]) || (
        multiline && is_multiline_char(rest[i])) by {
            assert(joined(parts)[i] == rest[i]);
        }
        assert forall|i: int| 0 <= i < last.len() implies !is_control_char(#[trigger] last[i]) || (
        multiline && is_multiline_char(last[i])) by {
            assert(joined(parts)[rest.len() + i] == last[i]);
        }
        lemma_parts_are_safe(parts.drop_last(), multiline);
        assert forall|i: int| 0 <= i < parts.len() implies is_safe_text(
            #[trigger] parts[i],
            multiline,
        ) by {
            if i < parts.len() - 1 {
                assert(parts.drop_last()[i] == parts[i]);
            }
        }
    }
}

proof fn lemma_clusters_are_safe(text: Seq<char>, multiline: bool)
    requires
        is_safe_text(text, multiline),
    ensures
        forall|i: int|
            0 <= i < clusters(text).len() ==> is_safe_text(#[trigger] clusters(text)[i], multiline)
                && is_cluster(clusters(text)[i]),
{
    law_clusters_divide(text);
    lemma_parts_are_safe(clusters(text), multiline);
}

proof fn lemma_fitting(parts: Seq<Seq<char>>, width: int)
    requires
        forall|i: int| 0 <= i < parts.len() ==> is_clean(#[trigger] parts[i]),
    ensures
        is_clean(fitting_text(parts, width)),
    decreases parts.len(),
{
    if parts.len() > 0 {
        assert(is_clean(parts[0]));
        assert forall|i: int| 0 <= i < parts.drop_first().len() implies is_clean(
            #[trigger] parts.drop_first()[i],
        ) by {
            assert(is_clean(parts[i + 1]));
        }
        lemma_fitting(parts.drop_first(), width - text_width(parts[0]));
    }
}

proof fn lemma_pushed(line: Seq<SpanText>, text: Seq<char>, style: TextStyle, safe: bool)
    requires
        is_neat(line, safe),
        safe ==> is_clean(text),
    ensures
        is_neat(pushed(line, text, style), safe),
        is_neat(prepended(line, text, style), safe),
{
    law_lines_stay_merged(line, text, style);
    if safe {
        let front = prepended(line, text, style);
        assert forall|i: int| 0 <= i < front.len() implies is_clean((#[trigger] front[i]).text) by {
            if line.len() > 0 && line[0].style == style {
                assert(is_clean(line[i].text));
            } else if i > 0 && text.len() > 0 {
                assert(is_clean(line[i - 1].text));
            } else if text.len() == 0 {
                assert(is_clean(line[i].text));
            }
        }
        let back = pushed(line, text, style);
        assert forall|i: int| 0 <= i < back.len() implies is_clean((#[trigger] back[i]).text) by {
            if i < line.len() {
                assert(is_clean(line[i].text));
            }
        }
    }
}

proof fn lemma_pushes(safe: bool)
    ensures
        forall|line: Seq<SpanText>, text: Seq<char>, style: TextStyle|
            is_neat(line, safe) && (safe ==> is_clean(text)) ==> is_neat(
                #[trigger] pushed(line, text, style),
                safe,
            ),
{
    assert forall|line: Seq<SpanText>, text: Seq<char>, style: TextStyle|
        is_neat(line, safe) && (safe ==> is_clean(text)) implies is_neat(
        #[trigger] pushed(line, text, style),
        safe,
    ) by {
        lemma_pushed(line, text, style, safe);
    }
}

proof fn lemma_appended(line: Seq<SpanText>, other: Seq<SpanText>, safe: bool)
    requires
        is_neat(line, safe),
        safe ==> is_clean_line(other),
    ensures
        is_neat(line_appended(line, other), safe),
    decreases other.len(),
{
    if other.len() > 0 {
        lemma_appended(line, other.drop_last(), safe);
        assert(safe ==> is_clean(other[other.len() - 1].text));
        lemma_pushed(
            line_appended(line, other.drop_last()),
            other.last().text,
            other.last().style,
            safe,
        );
    }
}

proof fn lemma_end_trimmed(line: Seq<SpanText>, safe: bool)
    requires
        is_neat(line, safe),
    ensures
        is_neat(line_end_trimmed(line), safe),
    decreases line.len(),
{
    if line.len() > 0 {
        assert(is_neat(line.drop_last(), safe));
        lemma_end_trimmed(line.drop_last(), safe);
        if safe {
            assert(is_clean(line[line.len() - 1].text));
            lemma_end_is_safe(line.last().text, false);
        }
    }
}

proof fn lemma_units(line: Seq<SpanText>, units: Seq<SpanText>, safe: bool)
    requires
        is_neat(line, safe),
        safe ==> is_clean_line(units),
    ensures
        is_neat(units_pushed(line, units), safe),
    decreases units.len(),
{
    if units.len() > 0 {
        lemma_units(line, units.drop_last(), safe);
        assert(safe ==> is_clean(units[units.len() - 1].text));
        lemma_pushed(
            units_pushed(line, units.drop_last()),
            units.last().text,
            units.last().style,
            safe,
        );
    }
}

/// No more units fit than there are.
pub proof fn lemma_fitting_units(units: Seq<SpanText>, available: int)
    ensures
        fitting_units(units, available) <= units.len(),
    decreases units.len(),
{
    if units.len() > 0 {
        lemma_fitting_units(units.drop_first(), available - text_width(units[0].text));
    }
}

proof fn lemma_word(laid: Laid, units: Seq<SpanText>, width: int, safe: bool)
    requires
        all_neat(laid.lines, safe),
        is_neat(laid.line, safe),
        safe ==> is_clean_line(units),
    ensures
        all_neat(word_laid(laid, units, width).lines, safe),
        is_neat(word_laid(laid, units, width).line, safe),
    decreases units.len(), (if line_width(laid.line) > 0 { 1int } else { 0int }),
{
    let count = fitting_units(units, columns_left(laid.line, width));
    lemma_fitting_units(units, columns_left(laid.line, width));
    if units.len() == 0 {
    } else if count == 0 {
        if line_width(laid.line) > 0 {
            lemma_word(line_finished(laid), units, width, safe);
        } else {
            lemma_marks_are_clean();
            lemma_pushed(laid.line, "…"@, units[0].style, safe);
            let cut = Laid { line: pushed(laid.line, "…"@, units[0].style), ..laid };
            lemma_word(line_finished(cut), units.drop_first(), width, safe);
        }
    } else {
        lemma_units(laid.line, units.take(count as int), safe);
        let filled = Laid { line: units_pushed(laid.line, units.take(count as int)), ..laid };
        if count < units.len() {
            lemma_word(line_finished(filled), units.skip(count as int), width, safe);
        }
    }
}

proof fn lemma_tokens(tokens: Seq<TokenText>, width: int, safe: bool)
    requires
        safe ==> are_safe_tokens(tokens),
    ensures
        all_neat(tokens_wrapped(tokens, width).laid.lines, safe),
        is_neat(tokens_wrapped(tokens, width).laid.line, safe),
    decreases tokens.len(),
{
    if tokens.len() > 0 {
        lemma_tokens(tokens.drop_last(), width, safe);
        let wrap = tokens_wrapped(tokens.drop_last(), width);
        lemma_end_trimmed(wrap.laid.line, safe);
        assert(tokens.last() == tokens[tokens.len() - 1]);
        if let TokenText::Word(units) = tokens.last() {
            let columns = span_columns(units);
            if wrap.pending is Some {
                lemma_marks_are_clean();
                lemma_pushed(wrap.laid.line, " "@, wrap.pending->0, safe);
            }
            lemma_word(word_start(wrap, columns, width), units, width, safe);
        }
    }
}

proof fn lemma_unit(cluster: Seq<char>)
    requires
        is_cluster(cluster),
        is_safe_text(cluster, true),
        !breaks_line(cluster),
        !is_blank(cluster),
    ensures
        is_clean(cluster),
{
    assert forall|i: int| 0 <= i < cluster.len() implies !is_control_char(#[trigger] cluster[i]) by {
        if is_control_char(cluster[i]) {
            assert(holds_control(cluster));
            if cluster == seq!['\r', '\n'] {
                assert(cluster[0] == '\r');
                assert(cluster.contains('\r'));
            } else {
                assert(cluster.contains(cluster[i]));
                assert(is_blank(cluster));
            }
        }
    }
}

proof fn lemma_scanned_clusters(scan: Scan, parts: Seq<Seq<char>>, style: TextStyle)
    requires
        are_safe_tokens(scan.tokens),
        is_clean_line(scan.word),
        forall|i: int|
            0 <= i < parts.len() ==> is_cluster(#[trigger] parts[i]) && is_safe_text(
                parts[i],
                style.color != ColorRole::Code,
            ),
    ensures
        are_safe_tokens(clusters_scanned(scan, parts, style).tokens),
        is_clean_line(clusters_scanned(scan, parts, style).word),
    decreases parts.len(),
{
    if parts.len() > 0 {
        let last = parts.last();
        assert(last == parts[parts.len() - 1]);
        lemma_scanned_clusters(scan, parts.drop_last(), style);
        if !breaks_line(last) && !is_blank(last) && style.color != ColorRole::Code {
            lemma_unit(last);
        }
    }
}

proof fn lemma_scanned(pieces: Seq<PieceText>)
    requires
        are_safe_pieces(pieces),
    ensures
        are_safe_tokens(pieces_scanned(pieces).tokens),
        is_clean_line(pieces_scanned(pieces).word),
    decreases pieces.len(),
{
    if pieces.len() > 0 {
        lemma_scanned(pieces.drop_last());
        assert(is_safe_piece(pieces[pieces.len() - 1]));
        if let PieceText::Span(span) = pieces.last() {
            lemma_clusters_are_safe(span.text, span.style.color != ColorRole::Code);
            lemma_scanned_clusters(
                pieces_scanned(pieces.drop_last()),
                clusters(span.text),
                span.style,
            );
        }
    }
}

proof fn lemma_wrapped(pieces: Seq<PieceText>, width: int, safe: bool)
    requires
        safe ==> are_safe_pieces(pieces),
    ensures
        all_neat(wrapped(pieces, width), safe),
{
    if safe {
        lemma_scanned(pieces);
    }
    lemma_tokens(tokens_of(pieces), at_least_one(width), safe);
    lemma_end_trimmed(tokens_wrapped(tokens_of(pieces), at_least_one(width)).laid.line, safe);
}

proof fn lemma_cluster(literal: Literal, cluster: Seq<char>, style: TextStyle, safe: bool)
    requires
        all_neat(literal.lines, safe),
        is_neat(literal.line, safe),
    ensures
        all_neat(cluster_laid(literal, cluster, style).lines, safe),
        is_neat(cluster_laid(literal, cluster, style).line, safe),
{
    lemma_marks_are_clean();
    lemma_without_controls(cluster);
    lemma_pushed(literal.line, "…"@, style, safe);
    lemma_pushed(Seq::empty(), "…"@, style, safe);
    lemma_pushed(literal.line, shown_cluster(cluster), style, safe);
    lemma_pushed(Seq::empty(), shown_cluster(cluster), style, safe);
}

proof fn lemma_clusters(literal: Literal, parts: Seq<Seq<char>>, style: TextStyle, safe: bool)
    requires
        all_neat(literal.lines, safe),
        is_neat(literal.line, safe),
    ensures
        all_neat(clusters_laid(literal, parts, style).lines, safe),
        is_neat(clusters_laid(literal, parts, style).line, safe),
    decreases parts.len(),
{
    if parts.len() > 0 {
        lemma_clusters(literal, parts.drop_last(), style, safe);
        lemma_cluster(clusters_laid(literal, parts.drop_last(), style), parts.last(), style, safe);
    }
}

proof fn lemma_literal(text: Seq<char>, width: int, style: TextStyle, safe: bool)
    ensures
        all_neat(literal_wrapped(text, width, style), safe),
{
    lemma_clusters(literal_start(width), clusters(text), style, safe);
}

proof fn lemma_regions(
    literal: Literal,
    changes: Seq<ScopeStackOp>,
    regions: Seq<(Seq<char>, ScopeStackOp)>,
    safe: bool,
)
    requires
        all_neat(literal.lines, safe),
        is_neat(literal.line, safe),
    ensures
        regions_laid(literal, changes, regions) matches Some(after) ==> all_neat(
            after.0.lines,
            safe,
        ) && is_neat(after.0.line, safe),
    decreases regions.len(),
{
    if regions.len() > 0 {
        let (text, change) = regions[0];
        let now = changes.push(change);
        lemma_clusters(literal, clusters(text), scope_style(now), safe);
        lemma_regions(literal, now, regions.drop_first(), safe);
        lemma_regions(
            clusters_laid(literal, clusters(text), scope_style(now)),
            now,
            regions.drop_first(),
            safe,
        );
    }
}

proof fn lemma_lines(
    literal: Literal,
    changes: Seq<ScopeStackOp>,
    syntax: SyntaxReference,
    seen: Seq<Seq<char>>,
    rest: Seq<Seq<char>>,
    safe: bool,
)
    requires
        all_neat(literal.lines, safe),
        is_neat(literal.line, safe),
    ensures
        lines_laid(literal, changes, syntax, seen, rest) matches Some(after) ==> all_neat(
            after.lines,
            safe,
        ) && is_neat(after.line, safe),
    decreases rest.len(),
{
    if rest.len() > 0 {
        let now = seen.push(rest[0]);
        if let Some(cuts) = cuts_of_line(syntax, now) {
            lemma_regions(literal, changes, cut_regions(cuts, rest[0]), safe);
            if let Some((next, after)) = regions_laid(
                literal,
                changes,
                cut_regions(cuts, rest[0]),
            ) {
                lemma_lines(next, after, syntax, now, rest.drop_first(), safe);
            }
        }
    }
}

proof fn lemma_highlighted(content: Seq<char>, language: Seq<char>, width: int, safe: bool)
    ensures
        highlighted(content, language, width) matches Some(lines) ==> all_neat(lines, safe),
{
    if let Some(syntax) = known_syntax(language_token(language)) {
        lemma_lines(
            literal_start(width),
            Seq::empty(),
            syntax,
            Seq::empty(),
            source_lines(content),
            safe,
        );
    }
}

proof fn lemma_start_trimmed(lines: Seq<Seq<SpanText>>, safe: bool)
    requires
        all_neat(lines, safe),
    ensures
        all_neat(blank_start_trimmed(lines), safe),
    decreases lines.len(),
{
    if lines.len() > 0 && is_blank_line(lines[0]) {
        assert(all_neat(lines.drop_first(), safe));
        lemma_start_trimmed(lines.drop_first(), safe);
    }
}

proof fn lemma_last_trimmed(lines: Seq<Seq<SpanText>>, safe: bool)
    requires
        all_neat(lines, safe),
    ensures
        all_neat(blank_end_trimmed(lines), safe),
    decreases lines.len(),
{
    if lines.len() > 0 && is_blank_line(lines.last()) {
        assert(all_neat(lines.drop_last(), safe));
        lemma_last_trimmed(lines.drop_last(), safe);
    }
}

proof fn lemma_trimmed(lines: Seq<Seq<SpanText>>, safe: bool)
    requires
        all_neat(lines, safe),
    ensures
        all_neat(blank_trimmed(lines), safe),
{
    lemma_start_trimmed(lines, safe);
    lemma_last_trimmed(blank_start_trimmed(lines), safe);
}

proof fn lemma_block(output: Seq<Seq<SpanText>>, block: Seq<Seq<SpanText>>, safe: bool)
    requires
        all_neat(output, safe),
        all_neat(block, safe),
    ensures
        all_neat(block_appended(output, block), safe),
{
    lemma_trimmed(block, safe);
}

proof fn lemma_prefixed(
    lines: Seq<Seq<SpanText>>,
    first: Seq<char>,
    first_style: TextStyle,
    rest: Seq<char>,
    rest_style: TextStyle,
    safe: bool,
)
    requires
        all_neat(lines, safe),
        safe ==> is_clean(first) && is_clean(rest),
    ensures
        all_neat(prefixed(lines, first, first_style, rest, rest_style), safe),
{
    let all = prefixed(lines, first, first_style, rest, rest_style);
    assert forall|i: int| 0 <= i < all.len() implies is_neat(#[trigger] all[i], safe) by {
        lemma_pushed(lines[i], first, first_style, safe);
        lemma_pushed(lines[i], rest, rest_style, safe);
    }
}

proof fn lemma_hung(prefix: Seq<char>, style: TextStyle, inner: Seq<Seq<SpanText>>, safe: bool)
    requires
        all_neat(inner, safe),
        safe ==> is_clean(prefix),
    ensures
        all_neat(hung(prefix, style, inner), safe),
{
    let spaces = repeated(' ', text_width(prefix));
    assert(all_neat(at_least_a_line(inner), safe));
    assert(is_clean(spaces));
    lemma_prefixed(at_least_a_line(inner), prefix, style, spaces, plain_style(), safe);
}

proof fn lemma_quoted(kind: Option<QuoteKind>, inner: Seq<Seq<SpanText>>, safe: bool)
    requires
        all_neat(inner, safe),
    ensures
        all_neat(quoted(kind, inner), safe),
{
    reveal_strlit("NOTE");
    reveal_strlit("TIP");
    reveal_strlit("IMPORTANT");
    reveal_strlit("WARNING");
    reveal_strlit("CAUTION");
    lemma_marks_are_clean();
    let accent = colored_style(ColorRole::Accent);
    let lines = at_least_a_line(quote_title(kind) + inner);
    assert(all_neat(lines, safe));
    lemma_prefixed(lines, "│ "@, accent, "│ "@, accent, safe);
}

proof fn lemma_code_frames(language: Seq<char>, width: int, safe: bool)
    requires
        safe ==> is_clean(language),
    ensures
        is_neat(code_top(language, width), safe),
        is_neat(code_bottom(width), safe),
{
    lemma_marks_are_clean();
    lemma_pushes(safe);
    let label = code_label(language);
    if safe {
        assert(is_clean(label));
        lemma_clusters_are_safe(label, false);
        lemma_fitting(clusters(label), larger(1, width - 1));
    }
    assert forall|n: nat| is_clean(#[trigger] repeated('─', n)) by {}
}

proof fn lemma_code(language: Seq<char>, literal: Seq<char>, width: int, safe: bool)
    requires
        safe ==> is_clean(language),
    ensures
        all_neat(code_block(language, literal, width), safe),
{
    let padding = code_padding(width);
    let indent = repeated(' ', padding as nat);
    let inner = larger(1, width - 2 * padding);
    let content = end_breaks_trimmed(literal);
    lemma_highlighted(content, language, inner, safe);
    lemma_literal(content, inner, plain_style(), safe);
    assert(all_neat(code_lines(content, language, inner), safe));
    assert(is_clean(indent));
    lemma_prefixed(
        code_lines(content, language, inner),
        indent,
        plain_style(),
        indent,
        plain_style(),
        safe,
    );
    lemma_code_frames(language, width, safe);
}

proof fn lemma_math(formula: Seq<char>, width: int, safe: bool)
    ensures
        all_neat(math_block(formula, width), safe),
{
    let style = colored_style(ColorRole::Math);
    lemma_marks_are_clean();
    lemma_literal(formula, width, style, safe);
    lemma_literal(formula, width - 2, style, safe);
    lemma_prefixed(literal_wrapped(formula, width - 2, style), "│ "@, style, "│ "@, style, safe);
}

proof fn lemma_aligned(line: Seq<SpanText>, width: int, alignment: Alignment, safe: bool)
    requires
        is_neat(line, safe),
    ensures
        is_neat(aligned(line, width, alignment), safe),
        is_neat(padded(line, width), safe),
{
    assert forall|n: nat| is_clean(#[trigger] repeated(' ', n)) by {}
    let padding = padding_of(line, width);
    let left = match alignment {
        Alignment::Right => padding,
        Alignment::Center => padding / 2,
        _ => 0,
    };
    lemma_pushed(line, repeated(' ', left as nat), plain_style(), safe);
    lemma_pushes(safe);
}

proof fn lemma_row_line(
    cells: Seq<Seq<Seq<SpanText>>>,
    widths: Seq<int>,
    alignments: Seq<Alignment>,
    index: int,
    count: int,
    safe: bool,
)
    requires
        0 <= index,
        count <= cells.len(),
        forall|i: int| 0 <= i < cells.len() ==> all_neat(#[trigger] cells[i], safe),
    ensures
        is_neat(row_line(cells, widths, alignments, index, count), safe),
    decreases count,
{
    lemma_pushes(safe);
    lemma_marks_are_clean();
    if count > 0 {
        lemma_row_line(cells, widths, alignments, index, count - 1, safe);
        let before = row_line(cells, widths, alignments, index, count - 1);
        let line = cell_line(cells[count - 1], index);
        assert(all_neat(cells[count - 1], safe));
        assert(is_neat(line, safe));
        lemma_aligned(line, widths[count - 1], alignments[count - 1], safe);
        lemma_appended(
            pushed(before, " "@, plain_style()),
            aligned(line, widths[count - 1], alignments[count - 1]),
            safe,
        );
    }
}

proof fn lemma_restyled(pieces: Seq<PieceText>)
    requires
        are_safe_pieces(pieces),
    ensures
        are_safe_pieces(all_restyled(pieces, bold_style())),
{
    let all = all_restyled(pieces, bold_style());
    assert forall|i: int| 0 <= i < all.len() implies is_safe_piece(#[trigger] all[i]) by {
        assert(is_safe_piece(pieces[i]));
    }
}

proof fn lemma_cell_pieces(row: Seq<Seq<PieceText>>, column: int, header: bool)
    requires
        0 <= column,
        are_safe_cells(row),
    ensures
        are_safe_pieces(cell_pieces(row, column, header)),
{
    if column < row.len() {
        assert(are_safe_pieces(row[column]));
        lemma_restyled(row[column]);
    } else {
        lemma_restyled(Seq::empty());
    }
}

proof fn lemma_border(left: char, middle: char, right: char, widths: Seq<int>)
    requires
        !is_control_char(left),
        !is_control_char(middle),
        !is_control_char(right),
    ensures
        is_clean(border_text(left, middle, right, widths)),
{
    lemma_border_cells(middle, right, widths, widths.len() as int);
}

proof fn lemma_border_cells(middle: char, right: char, widths: Seq<int>, count: int)
    requires
        !is_control_char(middle),
        !is_control_char(right),
    ensures
        is_clean(border_cells(middle, right, widths, count)),
    decreases count,
{
    if count > 0 {
        lemma_border_cells(middle, right, widths, count - 1);
    }
}

proof fn lemma_framed_rows(table: TableText, widths: Seq<int>, count: int, safe: bool)
    requires
        count <= table.rows.len(),
        safe ==> are_safe_rows(table.rows),
    ensures
        all_neat(framed_rows(table, widths, count), safe),
    decreases count,
{
    if count > 0 {
        lemma_framed_rows(table, widths, count - 1, safe);
        let header = count == 1 && table.has_header;
        let row = table.rows[count - 1];
        let cells = row_cells(row, widths, header);
        let rows = row_lines(cells, widths, table.alignments);
        assert(safe ==> are_safe_cells(row));
        assert forall|i: int| 0 <= i < cells.len() implies all_neat(#[trigger] cells[i], safe) by {
            if safe {
                lemma_cell_pieces(row, i, header);
            }
            lemma_wrapped(cell_pieces(row, i, header), widths[i], safe);
        }
        assert forall|i: int| 0 <= i < rows.len() implies is_neat(#[trigger] rows[i], safe) by {
            lemma_row_line(cells, widths, table.alignments, i, widths.len() as int, safe);
        }
        lemma_border('├', '┼', '┤', widths);
    }
}

proof fn lemma_stacked_row(
    headers: Seq<Seq<PieceText>>,
    row: Seq<Seq<PieceText>>,
    inner: int,
    count: int,
    safe: bool,
)
    requires
        safe ==> are_safe_cells(headers) && are_safe_cells(row),
    ensures
        all_neat(stacked_row(headers, row, inner, count), safe),
    decreases count,
{
    if count > 0 {
        lemma_stacked_row(headers, row, inner, count - 1, safe);
        lemma_pushes(safe);
        lemma_marks_are_clean();
        let pieces = titled_pieces(headers, row, count - 1);
        if safe {
            lemma_cell_pieces(row, count - 1, false);
            if count - 1 < headers.len() {
                assert(are_safe_pieces(headers[count - 1]));
                lemma_restyled(headers[count - 1]);
                assert(is_safe_piece(title_mark()));
            }
            assert(are_safe_pieces(pieces));
        }
        lemma_wrapped(pieces, inner, safe);
        let lines = wrapped(pieces, inner);
        let boxes = lines.map_values(|line: Seq<SpanText>| boxed(line, inner));
        assert forall|i: int| 0 <= i < boxes.len() implies is_neat(#[trigger] boxes[i], safe) by {
            lemma_aligned(lines[i], inner, Alignment::Left, safe);
            lemma_appended(
                pushed(Seq::empty(), "│ "@, border_style()),
                padded(lines[i], inner),
                safe,
            );
        }
    }
}

proof fn lemma_stacked_rows(table: TableText, width: int, count: int, safe: bool)
    requires
        count <= stacked_body(table).len(),
        safe ==> are_safe_rows(table.rows),
    ensures
        all_neat(stacked_rows(table, width, count), safe),
    decreases count,
{
    if count > 0 {
        lemma_stacked_rows(table, width, count - 1, safe);
        let row = stacked_body(table)[count - 1];
        if safe {
            if table.has_header && table.rows.len() > 1 {
                assert(are_safe_cells(table.rows[0]));
                assert(are_safe_cells(table.rows[count]));
            } else {
                assert(are_safe_cells(table.rows[count - 1]));
            }
        }
        lemma_stacked_row(
            stacked_header(table),
            row,
            larger(1, width - 4),
            table.column_count,
            safe,
        );
    }
}

proof fn lemma_bare_row(row: Seq<Seq<PieceText>>, width: int, count: int, safe: bool)
    requires
        count <= row.len(),
        safe ==> are_safe_cells(row),
    ensures
        all_neat(bare_row(row, width, count), safe),
    decreases count,
{
    if count > 0 {
        lemma_bare_row(row, width, count - 1, safe);
        assert(safe ==> are_safe_pieces(row[count - 1]));
        lemma_wrapped(row[count - 1], width, safe);
        lemma_trimmed(wrapped(row[count - 1], width), safe);
    }
}

proof fn lemma_bare_rows(rows: Seq<Seq<Seq<PieceText>>>, width: int, count: int, safe: bool)
    requires
        count <= rows.len(),
        safe ==> are_safe_rows(rows),
    ensures
        all_neat(bare_rows(rows, width, count), safe),
    decreases count,
{
    if count > 0 {
        lemma_bare_rows(rows, width, count - 1, safe);
        assert(safe ==> are_safe_cells(rows[count - 1]));
        lemma_bare_row(rows[count - 1], width, rows[count - 1].len() as int, safe);
    }
}

proof fn lemma_cells(nodes: Seq<NodeText>)
    requires
        are_safe_nodes(nodes),
    ensures
        are_safe_cells(cells_of(nodes)),
    decreases nodes.len(),
{
    if nodes.len() > 0 {
        lemma_cells(nodes.drop_last());
        assert(is_safe_node(nodes.last()));
        if let NodeText::Element(TagText::TableCell, children) = nodes.last() {
            lemma_pieces(children, plain_style());
        }
    }
}

proof fn lemma_rows(nodes: Seq<NodeText>)
    requires
        are_safe_nodes(nodes),
    ensures
        are_safe_rows(rows_of(nodes)),
    decreases nodes.len(),
{
    if nodes.len() > 0 {
        lemma_rows(nodes.drop_last());
        assert(is_safe_node(nodes.last()));
        match nodes.last() {
            NodeText::Element(TagText::TableHead, children) => lemma_cells(children),
            NodeText::Element(TagText::TableRow, children) => lemma_cells(children),
            _ => {},
        }
    }
}

proof fn lemma_table(alignments: Seq<Alignment>, nodes: Seq<NodeText>, width: int, safe: bool)
    requires
        safe ==> are_safe_nodes(nodes),
    ensures
        all_neat(table_lines(alignments, nodes, width), safe),
{
    if let Some(table) = table_of(alignments, nodes) {
        if safe {
            lemma_rows(nodes);
        }
        let widths = widths_of(table, width);
        lemma_framed_rows(table, widths, table.rows.len() as int, safe);
        lemma_stacked_rows(table, width, stacked_body(table).len() as int, safe);
        lemma_bare_rows(table.rows, width, table.rows.len() as int, safe);
        lemma_border('┌', '┬', '┐', widths);
        lemma_border('└', '┴', '┘', widths);
    }
}

proof fn lemma_piece_pushed(pieces: Seq<PieceText>, text: Seq<char>, style: TextStyle)
    requires
        are_safe_pieces(pieces),
        is_safe_text(text, style.color != ColorRole::Code),
    ensures
        are_safe_pieces(piece_pushed(pieces, text, style)),
{
    let all = piece_pushed(pieces, text, style);
    assert forall|i: int| 0 <= i < all.len() implies is_safe_piece(#[trigger] all[i]) by {
        if i < pieces.len() {
            assert(is_safe_piece(pieces[i]));
        }
    }
}

proof fn lemma_extended(output: Seq<PieceText>, pieces: Seq<PieceText>)
    requires
        are_safe_pieces(output),
        are_safe_pieces(pieces),
    ensures
        are_safe_pieces(pieces_extended(output, pieces)),
    decreases pieces.len(),
{
    if pieces.len() > 0 {
        lemma_extended(output, pieces.drop_last());
        assert(is_safe_piece(pieces[pieces.len() - 1]));
        if let PieceText::Span(span) = pieces.last() {
            lemma_piece_pushed(
                pieces_extended(output, pieces.drop_last()),
                span.text,
                span.style,
            );
        }
    }
}

proof fn lemma_linked(
    output: Seq<PieceText>,
    text: Seq<char>,
    ranges: Seq<(int, int)>,
    from: int,
    style: TextStyle,
)
    requires
        are_safe_pieces(output),
        is_safe_text(text, true),
        style.color != ColorRole::Code,
        0 <= from,
        are_ordered(ranges, from, text.len() as int),
    ensures
        are_safe_pieces(linked_text(output, text, ranges, from, style)),
    decreases ranges.len(),
{
    lemma_within(ranges, from, text.len() as int);
    if ranges.len() == 0 {
        lemma_piece_pushed(output, text.subrange(from, text.len() as int), style);
    } else {
        let (start, end) = ranges[0];
        let link = merged_style(style, link_style());
        let before = piece_pushed(output, text.subrange(from, start), style);
        lemma_piece_pushed(output, text.subrange(from, start), style);
        lemma_piece_pushed(before, text.subrange(start, end), link);
        lemma_linked(
            piece_pushed(before, text.subrange(start, end), link),
            text,
            ranges.drop_first(),
            end,
            style,
        );
    }
}

proof fn lemma_literal_text(nodes: Seq<NodeText>)
    requires
        are_safe_nodes(nodes),
    ensures
        is_safe_text(literal_of(nodes), true),
    decreases nodes,
{
    if nodes.len() > 0 {
        lemma_literal_text(nodes.drop_last());
        lemma_node_text(nodes.last());
    }
}

proof fn lemma_node_text(node: NodeText)
    requires
        is_safe_node(node),
    ensures
        is_safe_text(node_literal(node), true),
    decreases node,
{
    reveal_strlit("[^");
    reveal_strlit("]");
    reveal_strlit("\n");
    reveal_strlit("---");
    reveal_strlit("[x] ");
    reveal_strlit("[ ] ");
    if let NodeText::Element(_, children) = node {
        lemma_literal_text(children);
    }
}

proof fn lemma_pieces(nodes: Seq<NodeText>, style: TextStyle)
    requires
        are_safe_nodes(nodes),
        style.color != ColorRole::Code,
    ensures
        are_safe_pieces(pieces_of(nodes, style)),
    decreases nodes,
{
    if nodes.len() > 0 {
        lemma_pieces(nodes.drop_last(), style);
        lemma_node_pieces(pieces_of(nodes.drop_last(), style), nodes.last(), style);
    }
}

proof fn lemma_node_pieces(output: Seq<PieceText>, node: NodeText, style: TextStyle)
    requires
        are_safe_pieces(output),
        is_safe_node(node),
        style.color != ColorRole::Code,
    ensures
        are_safe_pieces(node_pieces(output, node, style)),
    decreases node,
{
    lemma_marks_are_clean();
    match node {
        NodeText::Element(TagText::Image(address), children) => {
            reveal_strlit("▧ ");
            lemma_literal_text(children);
            lemma_piece_pushed(
                output,
                image_label(literal_of(children), address),
                merged_style(style, link_style()),
            );
        },
        NodeText::Element(tag, children) => {
            lemma_pieces(children, element_style(tag, style));
            lemma_extended(output, pieces_of(children, element_style(tag, style)));
        },
        NodeText::Text(text) => {
            lemma_piece_pushed(output, text, style);
            law_urls_are_ordered(text, 0);
            lemma_linked(output, text, urls_of(text), 0, style);
        },
        NodeText::Code(text) => lemma_piece_pushed(
            output,
            text,
            merged_style(style, colored_style(ColorRole::Code)),
        ),
        NodeText::InlineMath(text) => lemma_piece_pushed(
            output,
            text,
            merged_style(style, colored_style(ColorRole::Math)),
        ),
        NodeText::DisplayMath(text) => lemma_piece_pushed(
            output,
            text,
            merged_style(style, colored_style(ColorRole::Math)),
        ),
        NodeText::Html(html) => lemma_piece_pushed(
            output,
            html,
            merged_style(style, colored_style(ColorRole::Muted)),
        ),
        NodeText::FootnoteReference(label) => lemma_piece_pushed(
            output,
            "["@ + label + "]"@,
            merged_style(style, TextStyle { bold: true, ..colored_style(ColorRole::Accent) }),
        ),
        NodeText::Rule => {
            reveal_strlit("─");
            lemma_piece_pushed(output, "─"@, style);
        },
        NodeText::TaskListMarker(checked) => {
            reveal_strlit("✓ ");
            reveal_strlit("○ ");
            lemma_piece_pushed(
                output,
                marker_text(checked),
                merged_style(style, marker_style(checked)),
            );
        },
        _ => {},
    }
}

proof fn lemma_inline(nodes: Seq<NodeText>, style: TextStyle, width: int, safe: bool)
    requires
        safe ==> are_safe_nodes(nodes),
        style.color != ColorRole::Code,
    ensures
        all_neat(inline_block(nodes, style, width), safe),
{
    if safe {
        lemma_pieces(nodes, style);
    }
    lemma_wrapped(pieces_of(nodes, style), width, safe);
}

proof fn lemma_loose(output: Seq<Seq<SpanText>>, loose: Seq<NodeText>, width: int, safe: bool)
    requires
        all_neat(output, safe),
        safe ==> are_safe_nodes(loose),
    ensures
        all_neat(block_appended(output, inline_block(loose, plain_style(), width)), safe),
{
    lemma_inline(loose, plain_style(), width, safe);
    lemma_block(output, inline_block(loose, plain_style(), width), safe);
}

proof fn lemma_blocks_laid(nodes: Seq<NodeText>, width: int, safe: bool)
    requires
        width > 0,
        safe ==> are_safe_nodes(nodes),
    ensures
        all_neat(blocks_laid(nodes, width).output, safe),
        safe ==> are_safe_nodes(blocks_laid(nodes, width).loose),
    decreases nodes, 0int,
{
    if nodes.len() > 0 {
        lemma_blocks_laid(nodes.drop_last(), width, safe);
        lemma_node_block(nodes.last(), width, safe);
        let before = blocks_laid(nodes.drop_last(), width);
        lemma_loose(before.output, before.loose, width, safe);
        if let Some(block) = node_block(nodes.last(), width) {
            lemma_block(loose_flushed(before, width), block, safe);
        } else {
            assert(before.loose.push(nodes.last()).drop_last() =~= before.loose);
        }
    }
}

proof fn lemma_blocks(nodes: Seq<NodeText>, width: int, safe: bool)
    requires
        width > 0,
        safe ==> are_safe_nodes(nodes),
    ensures
        all_neat(blocks(nodes, width), safe),
    decreases nodes, 1int,
{
    lemma_blocks_laid(nodes, width, safe);
    let laid = blocks_laid(nodes, width);
    lemma_loose(laid.output, laid.loose, width, safe);
    lemma_trimmed(loose_flushed(laid, width), safe);
}

proof fn lemma_list(start: Option<u64>, nodes: Seq<NodeText>, width: int, safe: bool)
    requires
        safe ==> are_safe_nodes(nodes),
    ensures
        all_neat(list_lines(start, nodes, width), safe),
    decreases nodes, 0int,
{
    if nodes.len() > 0 {
        lemma_list(start, nodes.drop_last(), width, safe);
        assert(safe ==> is_safe_node(nodes.last()));
        if let NodeText::Element(TagText::Item, children) = nodes.last() {
            let index = item_count(nodes.drop_last());
            let marker = item_marker(start, index);
            lemma_marks_are_clean();
            if let Some(first) = start {
                lemma_decimal(smaller(first + index, u64::MAX as int) as nat);
            }
            lemma_blocks(children, width_beside(marker, width), safe);
            lemma_hung(
                marker,
                colored_style(ColorRole::Muted),
                blocks(children, width_beside(marker, width)),
                safe,
            );
        }
    }
}

proof fn lemma_definitions(nodes: Seq<NodeText>, width: int, safe: bool)
    requires
        safe ==> are_safe_nodes(nodes),
    ensures
        all_neat(definition_lines(nodes, width), safe),
    decreases nodes, 0int,
{
    if nodes.len() > 0 {
        lemma_definitions(nodes.drop_last(), width, safe);
        assert(safe ==> is_safe_node(nodes.last()));
        match nodes.last() {
            NodeText::Element(TagText::DefinitionListTitle, children) => {
                lemma_inline(children, bold_style(), width, safe);
                lemma_trimmed(inline_block(children, bold_style(), width), safe);
            },
            NodeText::Element(TagText::DefinitionListDefinition, children) => {
                let inner = blocks(children, width_beside("  · "@, width));
                lemma_marks_are_clean();
                lemma_blocks(children, width_beside("  · "@, width), safe);
                lemma_hung("  · "@, colored_style(ColorRole::Accent), inner, safe);
                lemma_trimmed(hung("  · "@, colored_style(ColorRole::Accent), inner), safe);
            },
            _ => {},
        }
    }
}

proof fn lemma_node_block(node: NodeText, width: int, safe: bool)
    requires
        width > 0,
        safe ==> is_safe_node(node),
    ensures
        node_block(node, width) matches Some(lines) ==> all_neat(lines, safe),
    decreases node, 0int,
{
    match node {
        NodeText::Element(tag, children) => {
            match tag {
                TagText::Paragraph => {
                    lemma_inline(children, plain_style(), width, safe);
                    if children.len() == 1 && children[0] is DisplayMath {
                        lemma_math(children[0]->DisplayMath_0, width, safe);
                    }
                },
                TagText::Heading(level) => lemma_inline(
                    children,
                    heading_style(level),
                    width,
                    safe,
                ),
                TagText::BlockQuote(kind) => {
                    lemma_blocks(children, larger(1, width - 2), safe);
                    lemma_quoted(kind, blocks(children, larger(1, width - 2)), safe);
                },
                TagText::IndentedCode => lemma_code(
                    Seq::empty(),
                    literal_of(children),
                    width,
                    safe,
                ),
                TagText::FencedCode(info) => lemma_code(
                    first_word(info),
                    literal_of(children),
                    width,
                    safe,
                ),
                TagText::List(start) => lemma_list(start, children, width, safe),
                TagText::FootnoteDefinition(label) => {
                    let prefix = footnote_prefix(label);
                    lemma_marks_are_clean();
                    lemma_blocks(children, width_beside(prefix, width), safe);
                    lemma_hung(
                        prefix,
                        footnote_style(),
                        blocks(children, width_beside(prefix, width)),
                        safe,
                    );
                },
                TagText::DefinitionList => lemma_definitions(children, width, safe),
                TagText::Table(alignments) => lemma_table(alignments, children, width, safe),
                TagText::HtmlBlock => lemma_literal(
                    literal_of(children),
                    width,
                    colored_style(ColorRole::Muted),
                    safe,
                ),
                _ => lemma_blocks(children, width, safe),
            }
        },
        NodeText::DisplayMath(formula) => lemma_math(formula, width, safe),
        NodeText::Html(html) => lemma_literal(
            html,
            width,
            colored_style(ColorRole::Muted),
            safe,
        ),
        _ => {},
    }
}

proof fn lemma_clipped_parts(clip: Clip, parts: Seq<Seq<char>>, style: TextStyle, safe: bool)
    requires
        is_neat(clip.line, safe),
        forall|i: int| 0 <= i < parts.len() && safe ==> is_clean(#[trigger] parts[i]),
    ensures
        is_neat(clipped_parts(clip, parts, style).line, safe),
    decreases parts.len(),
{
    if parts.len() > 0 && !clip.ended && text_width(parts[0]) <= clip.remaining {
        assert(safe ==> is_clean(parts[0]));
        lemma_pushed(clip.line, parts[0], style, safe);
        assert forall|i: int| 0 <= i < parts.drop_first().len() && safe implies is_clean(
            #[trigger] parts.drop_first()[i],
        ) by {
            assert(is_clean(parts[i + 1]));
        }
        lemma_clipped_parts(
            Clip {
                line: pushed(clip.line, parts[0], style),
                remaining: clip.remaining - text_width(parts[0]),
                ended: false,
            },
            parts.drop_first(),
            style,
            safe,
        );
    }
}

proof fn lemma_clipped_spans(clip: Clip, spans: Seq<SpanText>, safe: bool)
    requires
        is_neat(clip.line, safe),
        safe ==> is_clean_line(spans),
    ensures
        is_neat(clipped_spans(clip, spans), safe),
    decreases spans.len(),
{
    if spans.len() > 0 && !clip.ended && clip.remaining != 0 {
        if safe {
            assert(is_clean(spans[0].text));
            lemma_clusters_are_safe(spans[0].text, false);
        }
        lemma_clipped_parts(clip, clusters(spans[0].text), spans[0].style, safe);
        lemma_clipped_spans(
            clipped_parts(clip, clusters(spans[0].text), spans[0].style),
            spans.drop_first(),
            safe,
        );
    }
}

proof fn lemma_shown(nodes: Seq<NodeText>, width: int, safe: bool)
    requires
        safe ==> are_safe_nodes(nodes),
    ensures
        all_neat(document_lines(nodes, width), safe),
{
    let columns = larger(1, width);
    let lines = blocks(nodes, columns);
    let shown = document_lines(nodes, width);
    lemma_blocks(nodes, columns, safe);
    assert forall|i: int| 0 <= i < shown.len() implies is_neat(#[trigger] shown[i], safe) by {
        assert(is_neat(lines[i], safe));
        lemma_clipped_spans(
            Clip { line: Seq::empty(), remaining: columns, ended: false },
            lines[i],
            safe,
        );
    }
}

/// Inline content is broken into lines in which no span is empty and no two neighbours share a
/// style.
pub proof fn law_wrapped_lines_are_merged(pieces: Seq<PieceText>, width: int)
    ensures
        all_merged(wrapped(pieces, width)),
{
    lemma_wrapped(pieces, width, false);
    assert forall|i: int| 0 <= i < wrapped(pieces, width).len() implies is_merged(
        #[trigger] wrapped(pieces, width)[i],
    ) by {
        assert(is_neat(wrapped(pieces, width)[i], false));
    }
}

/// The blocks of a document are laid out in lines in which no span is empty and no two neighbours
/// share a style.
pub proof fn law_blocks_are_merged(nodes: Seq<NodeText>, width: int)
    requires
        width > 0,
    ensures
        all_merged(blocks(nodes, width)),
{
    lemma_blocks(nodes, width, false);
    assert forall|i: int| 0 <= i < blocks(nodes, width).len() implies is_merged(
        #[trigger] blocks(nodes, width)[i],
    ) by {
        assert(is_neat(blocks(nodes, width)[i], false));
    }
}

/// In the lines that show a document no span is empty and no two neighbours share a style.
pub proof fn law_shown_lines_are_merged(nodes: Seq<NodeText>, width: int)
    ensures
        all_merged(document_lines(nodes, width)),
{
    let shown = document_lines(nodes, width);
    lemma_shown(nodes, width, false);
    assert forall|i: int| 0 <= i < shown.len() implies is_merged(#[trigger] shown[i]) by {
        assert(is_neat(shown[i], false));
    }
}

spec fn is_safe_tree(tree: Tree) -> bool {
    are_safe_nodes(tree.root) && forall|i: int|
        0 <= i < tree.open.len() ==> is_safe_tag((#[trigger] tree.open[i]).0) && are_safe_nodes(
            tree.open[i].1,
        )
}

proof fn lemma_node_added(tree: Tree, node: NodeText)
    requires
        is_safe_tree(tree),
        is_safe_node(node),
    ensures
        is_safe_tree(node_added(tree, node)),
{
    let after = node_added(tree, node);
    if tree.open.len() > 0 {
        let last = tree.open.len() - 1;
        assert(are_safe_nodes(tree.open[last].1));
        assert(tree.open[last].1.push(node).drop_last() =~= tree.open[last].1);
        assert forall|i: int| 0 <= i < after.open.len() implies is_safe_tag(
            (#[trigger] after.open[i]).0,
        ) && are_safe_nodes(after.open[i].1) by {
            if i < last {
                assert(after.open[i] == tree.open[i]);
            }
        }
    } else {
        assert(tree.root.push(node).drop_last() =~= tree.root);
    }
}

proof fn lemma_element_ended(tree: Tree)
    requires
        is_safe_tree(tree),
    ensures
        is_safe_tree(element_ended(tree)),
{
    if tree.open.len() > 0 {
        let (tag, children) = tree.open.last();
        assert(tree.open[tree.open.len() - 1] == (tag, children));
        lemma_node_added(
            Tree { open: tree.open.drop_last(), ..tree },
            NodeText::Element(tag, children),
        );
    }
}

proof fn lemma_tree(events: Seq<EventText>)
    requires
        are_safe_events(events),
    ensures
        is_safe_tree(tree_of(events)),
    decreases events.len(),
{
    if events.len() > 0 {
        lemma_tree(events.drop_last());
        let tree = tree_of(events.drop_last());
        let event = events[events.len() - 1];
        match event {
            EventText::Start(_) => {},
            EventText::End => lemma_element_ended(tree),
            EventText::Text(text) => {
                lemma_multiline(text);
                lemma_node_added(tree, NodeText::Text(multiline_text(text)));
            },
            EventText::Code(text) => {
                lemma_without_controls(text);
                lemma_node_added(tree, NodeText::Code(without_controls(text)));
            },
            EventText::InlineMath(text) => {
                lemma_without_controls(text);
                lemma_node_added(tree, NodeText::InlineMath(without_controls(text)));
            },
            EventText::DisplayMath(text) => {
                lemma_without_controls(text);
                lemma_node_added(tree, NodeText::DisplayMath(without_controls(text)));
            },
            EventText::Html(text) => {
                lemma_multiline(text);
                lemma_node_added(tree, NodeText::Html(multiline_text(text)));
            },
            EventText::InlineHtml(text) => {
                lemma_without_controls(text);
                lemma_node_added(tree, NodeText::InlineHtml(without_controls(text)));
            },
            EventText::FootnoteReference(label) => {
                lemma_without_controls(label);
                lemma_node_added(tree, NodeText::FootnoteReference(without_controls(label)));
            },
            EventText::SoftBreak => lemma_node_added(tree, NodeText::SoftBreak),
            EventText::HardBreak => lemma_node_added(tree, NodeText::HardBreak),
            EventText::Rule => lemma_node_added(tree, NodeText::Rule),
            EventText::TaskListMarker(checked) => lemma_node_added(
                tree,
                NodeText::TaskListMarker(checked),
            ),
        }
    }
}

proof fn lemma_all_ended(tree: Tree)
    requires
        is_safe_tree(tree),
    ensures
        are_safe_nodes(all_ended(tree)),
    decreases tree.open.len(),
{
    if tree.open.len() > 0 {
        lemma_element_ended(tree);
        lemma_all_ended(element_ended(tree));
    }
}

/// No control character of a source is shown, provided that none stands in what is shown as it
/// is: the language of a code block, the label of a footnote and the address of an image.
pub proof fn law_no_control_is_shown(events: Seq<EventText>, width: int)
    requires
        are_safe_events(events),
    ensures
        all_clean(document_lines(document_of(events), width)),
{
    let shown = document_lines(document_of(events), width);
    lemma_tree(events);
    lemma_all_ended(tree_of(events));
    lemma_shown(document_of(events), width, true);
    assert forall|i: int| 0 <= i < shown.len() implies is_clean_line(#[trigger] shown[i]) by {
        assert(is_neat(shown[i], true));
    }
}

} // verus!
