//! What is shown is what was written: laying text out keeps it.

use two_face::re_exports::syntect::parsing::ScopeStackOp;
use two_face::re_exports::syntect::parsing::SyntaxReference;
use vstd::prelude::*;

use crate::agent_markdown_renderer::highlight::cut_regions;
use crate::agent_markdown_renderer::highlight::cuts_of_line;
use crate::agent_markdown_renderer::highlight::highlighted;
use crate::agent_markdown_renderer::highlight::known_syntax;
use crate::agent_markdown_renderer::highlight::language_token;
use crate::agent_markdown_renderer::highlight::law_regions_make_up_the_line;
use crate::agent_markdown_renderer::highlight::lines_laid;
use crate::agent_markdown_renderer::highlight::regions_laid;
use crate::agent_markdown_renderer::highlight::regions_text;
use crate::agent_markdown_renderer::highlight::scope_style;
use crate::agent_markdown_renderer::inline::breaks_line;
use crate::agent_markdown_renderer::inline::clusters_scanned;
use crate::agent_markdown_renderer::inline::columns_left;
use crate::agent_markdown_renderer::inline::fitting_units;
use crate::agent_markdown_renderer::inline::line_finished;
use crate::agent_markdown_renderer::inline::pieces_scanned;
use crate::agent_markdown_renderer::inline::tokens_of;
use crate::agent_markdown_renderer::inline::units_pushed;
use crate::agent_markdown_renderer::inline::word_laid;
use crate::agent_markdown_renderer::inline::Laid;
use crate::agent_markdown_renderer::inline::PieceText;
use crate::agent_markdown_renderer::inline::Scan;
use crate::agent_markdown_renderer::inline::TokenText;
use crate::agent_markdown_renderer::literal::cluster_laid;
use crate::agent_markdown_renderer::literal::clusters_laid;
use crate::agent_markdown_renderer::literal::ends_with_break;
use crate::agent_markdown_renderer::literal::literal_broken;
use crate::agent_markdown_renderer::literal::literal_lines;
use crate::agent_markdown_renderer::literal::literal_start;
use crate::agent_markdown_renderer::literal::literal_wrapped;
use crate::agent_markdown_renderer::literal::shown_cluster;
use crate::agent_markdown_renderer::literal::without_controls;
use crate::agent_markdown_renderer::literal::Literal;
use crate::agent_markdown_renderer::measure::clusters;
use crate::agent_markdown_renderer::measure::holds_control;
use crate::agent_markdown_renderer::measure::is_cluster;
use crate::agent_markdown_renderer::measure::joined;
use crate::agent_markdown_renderer::measure::law_clusters_divide;
use crate::agent_markdown_renderer::measure::text_width;
use crate::agent_markdown_renderer::style::TextStyle;
use crate::agent_markdown_renderer::styled::law_line_text;
use crate::agent_markdown_renderer::styled::line_text;
use crate::agent_markdown_renderer::styled::line_width;
use crate::agent_markdown_renderer::styled::SpanText;
use crate::agent_markdown_renderer::table::larger;
use crate::agent_markdown_renderer::tidy::lemma_fitting_units;
use crate::parts::lemma_line_length;
use crate::parts::line_length;
use crate::parts::source_lines;
use crate::text::is_control_char;

verus! {

/// What is shown of `c` in literal text: four spaces for a tab, and nothing of any other control
/// character.
pub open spec fn shown_char(c: char) -> Seq<char> {
    if c == '\t' {
        "    "@
    } else if is_control_char(c) {
        Seq::empty()
    } else {
        seq![c]
    }
}

/// What is shown of `text` where it is literal.
pub open spec fn shown_text(text: Seq<char>) -> Seq<char>
    decreases text.len(),
{
    if text.len() == 0 {
        Seq::empty()
    } else {
        shown_text(text.drop_last()) + shown_char(text.last())
    }
}

/// The texts of `lines`, one after the other.
pub open spec fn lines_text(lines: Seq<Seq<SpanText>>) -> Seq<char>
    decreases lines.len(),
{
    if lines.len() == 0 {
        Seq::empty()
    } else {
        lines_text(lines.drop_last()) + line_text(lines.last())
    }
}

/// Whether no grapheme cluster of `text` is shown wider than `width` columns.
pub open spec fn clusters_fit(text: Seq<char>, width: int) -> bool {
    forall|i: int|
        0 <= i < clusters(text).len() ==> text_width(shown_cluster(#[trigger] clusters(text)[i]))
            <= width
}

/// Whether no grapheme cluster of any of `regions` is shown wider than `width` columns.
pub open spec fn regions_fit(regions: Seq<(Seq<char>, ScopeStackOp)>, width: int) -> bool {
    forall|i: int| 0 <= i < regions.len() ==> clusters_fit((#[trigger] regions[i]).0, width)
}

/// Whether no grapheme cluster of the lines `rest` is shown wider than `width` columns, where they
/// are in `syntax` and `seen` are the lines before them.
pub open spec fn code_fits(
    syntax: SyntaxReference,
    seen: Seq<Seq<char>>,
    rest: Seq<Seq<char>>,
    width: int,
) -> bool
    decreases rest.len(),
{
    if rest.len() == 0 {
        true
    } else {
        let now = seen.push(rest[0]);
        &&& cuts_of_line(syntax, now) matches Some(cuts) ==> regions_fit(
            cut_regions(cuts, rest[0]),
            width,
        )
        &&& code_fits(syntax, now, rest.drop_first(), width)
    }
}

spec fn literal_text(literal: Literal) -> Seq<char> {
    lines_text(literal.lines) + line_text(literal.line)
}

proof fn lemma_shown_sum(a: Seq<char>, b: Seq<char>)
    ensures
        shown_text(a + b) == shown_text(a) + shown_text(b),
    decreases b.len(),
{
    if b.len() == 0 {
        assert(a + b =~= a);
    } else {
        lemma_shown_sum(a, b.drop_last());
        assert((a + b).drop_last() =~= a + b.drop_last());
    }
    assert(shown_text(a + b) =~= shown_text(a) + shown_text(b));
}

proof fn lemma_without_controls(s: Seq<char>)
    requires
        forall|i: int| 0 <= i < s.len() ==> #[trigger] s[i] != '\t',
    ensures
        shown_text(s) == without_controls(s),
    decreases s.len(),
{
    if s.len() > 0 {
        assert(s[s.len() - 1] != '\t');
        lemma_without_controls(s.drop_last());
        assert(shown_text(s) =~= without_controls(s));
    }
}

proof fn lemma_shown_cluster(cluster: Seq<char>)
    requires
        is_cluster(cluster),
    ensures
        shown_cluster(cluster) == shown_text(cluster),
        breaks_line(cluster) ==> shown_text(cluster).len() == 0,
{
    reveal_strlit("\t");
    if cluster == "\t"@ {
        assert(shown_text(cluster.drop_last()) =~= Seq::empty());
        assert(shown_text(cluster) =~= "    "@);
    } else {
        assert forall|i: int| 0 <= i < cluster.len() implies #[trigger] cluster[i] != '\t' by {
            if cluster[i] == '\t' {
                assert(holds_control(cluster));
                assert(cluster =~= "\t"@);
            }
        }
        lemma_without_controls(cluster);
        if breaks_line(cluster) {
            let c = if cluster.contains('\n') {
                '\n'
            } else {
                '\r'
            };
            let i = choose|i: int| 0 <= i < cluster.len() && cluster[i] == c;
            assert(is_control_char(cluster[i]));
            reveal_with_fuel(without_controls, 3);
            if cluster.len() == 1 {
                assert(cluster.last() == c);
            } else {
                assert(cluster.last() == '\n');
                assert(cluster.drop_last().last() == '\r');
            }
        }
    }
}

proof fn lemma_finished(literal: Literal)
    ensures
        literal_text(literal_broken(literal)) == literal_text(literal),
{
    assert(literal.lines.push(literal.line).drop_last() =~= literal.lines);
    assert(literal_text(literal_broken(literal)) =~= literal_text(literal));
}

proof fn lemma_cluster_kept(literal: Literal, cluster: Seq<char>, style: TextStyle)
    requires
        is_cluster(cluster),
        text_width(shown_cluster(cluster)) <= literal.width,
    ensures
        literal_text(cluster_laid(literal, cluster, style)) == literal_text(literal) + shown_text(
            cluster,
        ),
        cluster_laid(literal, cluster, style).width == literal.width,
{
    lemma_shown_cluster(cluster);
    lemma_finished(literal);
    let shown = shown_cluster(cluster);
    law_line_text(literal.line, shown, style);
    law_line_text(Seq::empty(), shown, style);
    assert(literal_text(cluster_laid(literal, cluster, style)) =~= literal_text(literal) + shown);
}

proof fn lemma_clusters_kept(literal: Literal, parts: Seq<Seq<char>>, style: TextStyle)
    requires
        forall|i: int|
            0 <= i < parts.len() ==> is_cluster(#[trigger] parts[i]) && text_width(
                shown_cluster(parts[i]),
            ) <= literal.width,
    ensures
        literal_text(clusters_laid(literal, parts, style)) == literal_text(literal) + shown_text(
            joined(parts),
        ),
        clusters_laid(literal, parts, style).width == literal.width,
    decreases parts.len(),
{
    if parts.len() == 0 {
        assert(literal_text(literal) + Seq::<char>::empty() =~= literal_text(literal));
    } else {
        assert(parts.last() == parts[parts.len() - 1]);
        lemma_clusters_kept(literal, parts.drop_last(), style);
        lemma_cluster_kept(clusters_laid(literal, parts.drop_last(), style), parts.last(), style);
        lemma_shown_sum(joined(parts.drop_last()), parts.last());
        assert(literal_text(clusters_laid(literal, parts, style)) =~= literal_text(literal)
            + shown_text(joined(parts)));
    }
}

proof fn lemma_text_kept(literal: Literal, text: Seq<char>, style: TextStyle)
    requires
        clusters_fit(text, literal.width),
    ensures
        literal_text(clusters_laid(literal, clusters(text), style)) == literal_text(literal)
            + shown_text(text),
        clusters_laid(literal, clusters(text), style).width == literal.width,
{
    law_clusters_divide(text);
    lemma_clusters_kept(literal, clusters(text), style);
}

proof fn lemma_all_lines(literal: Literal, ends_with_line_break: bool)
    ensures
        lines_text(literal_lines(literal, ends_with_line_break)) == literal_text(literal),
{
    assert(literal.lines.push(literal.line).drop_last() =~= literal.lines);
    assert(literal.line.len() == 0 ==> line_text(literal.line) =~= Seq::empty());
    assert(lines_text(literal_lines(literal, ends_with_line_break)) =~= literal_text(literal));
}

/// Literal text is laid out with nothing lost, added or moved but what its control characters
/// stand for, provided that no grapheme cluster of it is wider than a line.
pub proof fn law_literal_text_is_kept(text: Seq<char>, width: int, style: TextStyle)
    requires
        clusters_fit(text, larger(1, width)),
    ensures
        lines_text(literal_wrapped(text, width, style)) == shown_text(text),
{
    let start = literal_start(width);
    lemma_text_kept(start, text, style);
    lemma_all_lines(clusters_laid(start, clusters(text), style), ends_with_break(text));
    assert(literal_text(start) + shown_text(text) =~= shown_text(text));
}

proof fn lemma_regions_kept(
    literal: Literal,
    changes: Seq<ScopeStackOp>,
    regions: Seq<(Seq<char>, ScopeStackOp)>,
)
    requires
        regions_fit(regions, literal.width),
    ensures
        regions_laid(literal, changes, regions) matches Some(after) ==> literal_text(after.0)
            == literal_text(literal) + shown_text(regions_text(regions)) && after.0.width
            == literal.width,
    decreases regions.len(),
{
    if regions.len() == 0 {
        assert(literal_text(literal) + Seq::<char>::empty() =~= literal_text(literal));
    } else {
        let (text, change) = regions[0];
        let now = changes.push(change);
        let rest = regions.drop_first();
        let next = if text.len() == 0 {
            literal
        } else {
            clusters_laid(literal, clusters(text), scope_style(now))
        };
        assert(clusters_fit(regions[0].0, literal.width));
        assert forall|i: int| 0 <= i < rest.len() implies clusters_fit(
            (#[trigger] rest[i]).0,
            literal.width,
        ) by {
            assert(clusters_fit(regions[i + 1].0, literal.width));
        }
        if text.len() > 0 {
            lemma_text_kept(literal, text, scope_style(now));
        } else {
            assert(literal_text(literal) + shown_text(text) =~= literal_text(literal));
        }
        lemma_regions_kept(next, now, rest);
        lemma_first_region(regions);
        lemma_shown_sum(text, regions_text(rest));
        assert(literal_text(literal) + shown_text(text) + shown_text(regions_text(rest))
            =~= literal_text(literal) + (shown_text(text) + shown_text(regions_text(rest))));
    }
}

proof fn lemma_first_region(regions: Seq<(Seq<char>, ScopeStackOp)>)
    requires
        regions.len() > 0,
    ensures
        regions_text(regions) == regions[0].0 + regions_text(regions.drop_first()),
    decreases regions.len(),
{
    let rest = regions.drop_first();
    if regions.len() == 1 {
        assert(regions_text(regions.drop_last()) =~= Seq::empty());
        assert(regions_text(rest) =~= Seq::empty());
        assert(regions_text(regions) =~= regions[0].0 + regions_text(rest));
    } else {
        lemma_first_region(regions.drop_last());
        assert(regions.drop_last().drop_first() =~= rest.drop_last());
        assert(regions_text(regions) =~= regions[0].0 + regions_text(rest));
    }
}

/// The texts of `lines`, one after the other.
spec fn chained(lines: Seq<Seq<char>>) -> Seq<char>
    decreases lines.len(),
{
    if lines.len() == 0 {
        Seq::empty()
    } else {
        lines[0] + chained(lines.drop_first())
    }
}

proof fn lemma_source_lines(s: Seq<char>)
    ensures
        chained(source_lines(s)) == s,
    decreases s.len(),
{
    if s.len() > 0 {
        lemma_line_length(s);
        let size = line_length(s) as int;
        lemma_source_lines(s.skip(size));
        assert(source_lines(s).drop_first() =~= source_lines(s.skip(size)));
        assert(chained(source_lines(s)) =~= s);
    }
}

proof fn lemma_lines_kept(
    literal: Literal,
    changes: Seq<ScopeStackOp>,
    syntax: SyntaxReference,
    seen: Seq<Seq<char>>,
    rest: Seq<Seq<char>>,
)
    requires
        code_fits(syntax, seen, rest, literal.width),
    ensures
        lines_laid(literal, changes, syntax, seen, rest) matches Some(after) ==> literal_text(after)
            == literal_text(literal) + shown_text(chained(rest)),
    decreases rest.len(),
{
    if rest.len() == 0 {
        assert(literal_text(literal) + Seq::<char>::empty() =~= literal_text(literal));
    } else {
        let now = seen.push(rest[0]);
        if let Some(cuts) = cuts_of_line(syntax, now) {
            let regions = cut_regions(cuts, rest[0]);
            law_regions_make_up_the_line(cuts, rest[0]);
            lemma_regions_kept(literal, changes, regions);
            if let Some((next, after)) = regions_laid(literal, changes, regions) {
                lemma_lines_kept(next, after, syntax, now, rest.drop_first());
                lemma_shown_sum(rest[0], chained(rest.drop_first()));
                assert(literal_text(literal) + shown_text(rest[0]) + shown_text(
                    chained(rest.drop_first()),
                ) =~= literal_text(literal) + (shown_text(rest[0]) + shown_text(
                    chained(rest.drop_first()),
                )));
            }
        }
    }
}

/// The colours of a language change nothing of the text of the code, provided that no grapheme
/// cluster of it is wider than a line.
pub proof fn law_highlighting_keeps_the_text(
    content: Seq<char>,
    language: Seq<char>,
    width: int,
)
    requires
        known_syntax(language_token(language)) matches Some(syntax) ==> code_fits(
            syntax,
            Seq::empty(),
            source_lines(content),
            larger(1, width),
        ),
    ensures
        highlighted(content, language, width) matches Some(lines) ==> lines_text(lines)
            == shown_text(content),
{
    if let Some(syntax) = known_syntax(language_token(language)) {
        let start = literal_start(width);
        let rest = source_lines(content);
        lemma_lines_kept(start, Seq::empty(), syntax, Seq::empty(), rest);
        lemma_source_lines(content);
        if let Some(literal) = lines_laid(start, Seq::empty(), syntax, Seq::empty(), rest) {
            lemma_all_lines(literal, ends_with_break(content));
            assert(literal_text(start) + shown_text(content) =~= shown_text(content));
        }
    }
}

/// The text of `laid`: of its lines, and of the one that is being filled.
pub open spec fn laid_text(laid: Laid) -> Seq<char> {
    lines_text(laid.lines) + line_text(laid.line)
}

proof fn lemma_line_finished(laid: Laid)
    ensures
        laid_text(line_finished(laid)) == laid_text(laid),
{
    assert(laid.lines.push(laid.line).drop_last() =~= laid.lines);
    assert(laid_text(line_finished(laid)) =~= laid_text(laid));
}

/// Pushing units puts their text behind that of the line.
pub proof fn lemma_units_kept(line: Seq<SpanText>, units: Seq<SpanText>)
    ensures
        line_text(units_pushed(line, units)) == line_text(line) + line_text(units),
    decreases units.len(),
{
    if units.len() == 0 {
        assert(line_text(line) + Seq::<char>::empty() =~= line_text(line));
    } else {
        lemma_units_kept(line, units.drop_last());
        law_line_text(
            units_pushed(line, units.drop_last()),
            units.last().text,
            units.last().style,
        );
        assert(line_text(units_pushed(line, units)) =~= line_text(line) + line_text(units));
    }
}

proof fn lemma_line_split(units: Seq<SpanText>, count: int)
    requires
        0 <= count <= units.len(),
    ensures
        line_text(units.take(count)) + line_text(units.skip(count)) == line_text(units),
    decreases units.len(),
{
    if count == units.len() {
        assert(units.take(count) =~= units);
        assert(line_text(units.skip(count)) =~= Seq::empty());
        assert(line_text(units) + Seq::<char>::empty() =~= line_text(units));
    } else {
        lemma_line_split(units.drop_last(), count);
        assert(units.drop_last().take(count) =~= units.take(count));
        assert(units.drop_last().skip(count) =~= units.skip(count).drop_last());
        assert(line_text(units.take(count)) + line_text(units.skip(count)) =~= line_text(units));
    }
}

/// A word is broken into lines with nothing lost, added or moved, and only between its units,
/// provided that none of them is wider than a line.
pub proof fn law_words_are_kept(laid: Laid, units: Seq<SpanText>, width: int)
    requires
        forall|i: int| 0 <= i < units.len() ==> text_width((#[trigger] units[i]).text) <= width,
    ensures
        laid_text(word_laid(laid, units, width)) == laid_text(laid) + line_text(units),
    decreases units.len(), (if line_width(laid.line) > 0 { 1int } else { 0int }),
{
    let count = fitting_units(units, columns_left(laid.line, width));
    lemma_fitting_units(units, columns_left(laid.line, width));
    if units.len() == 0 {
        assert(laid_text(laid) + Seq::<char>::empty() =~= laid_text(laid));
    } else if count == 0 {
        assert(text_width(units[0].text) <= width);
        lemma_line_finished(laid);
        law_words_are_kept(line_finished(laid), units, width);
    } else {
        let taken = units.take(count as int);
        let filled = Laid { line: units_pushed(laid.line, taken), ..laid };
        lemma_units_kept(laid.line, taken);
        lemma_line_split(units, count as int);
        assert(laid_text(filled) =~= laid_text(laid) + line_text(taken));
        if count < units.len() {
            lemma_line_finished(filled);
            law_words_are_kept(line_finished(filled), units.skip(count as int), width);
            assert(laid_text(laid) + line_text(taken) + line_text(units.skip(count as int))
                =~= laid_text(laid) + line_text(units));
        } else {
            assert(taken =~= units);
        }
    }
}

/// Whether `unit` is a whole grapheme cluster of one of `pieces`, in its style.
pub open spec fn is_whole_cluster(unit: SpanText, pieces: Seq<PieceText>) -> bool {
    exists|i: int|
        0 <= i < pieces.len() && ((#[trigger] pieces[i]) matches PieceText::Span(span)
            && span.style == unit.style && clusters(span.text).contains(unit.text))
}

/// Whether each of `units` is a whole grapheme cluster of one of `pieces`.
pub open spec fn are_whole_clusters(units: Seq<SpanText>, pieces: Seq<PieceText>) -> bool {
    forall|i: int| 0 <= i < units.len() ==> is_whole_cluster(#[trigger] units[i], pieces)
}

spec fn hold_whole_clusters(tokens: Seq<TokenText>, pieces: Seq<PieceText>) -> bool {
    forall|i: int|
        0 <= i < tokens.len() ==> ((#[trigger] tokens[i]) matches TokenText::Word(units)
            ==> are_whole_clusters(units, pieces))
}

proof fn lemma_scanned_whole(
    scan: Scan,
    parts: Seq<Seq<char>>,
    style: TextStyle,
    pieces: Seq<PieceText>,
)
    requires
        hold_whole_clusters(scan.tokens, pieces),
        are_whole_clusters(scan.word, pieces),
        forall|i: int|
            0 <= i < parts.len() ==> is_whole_cluster(
                SpanText { text: #[trigger] parts[i], style },
                pieces,
            ),
    ensures
        hold_whole_clusters(clusters_scanned(scan, parts, style).tokens, pieces),
        are_whole_clusters(clusters_scanned(scan, parts, style).word, pieces),
    decreases parts.len(),
{
    if parts.len() > 0 {
        assert(parts.last() == parts[parts.len() - 1]);
        lemma_scanned_whole(scan, parts.drop_last(), style, pieces);
    }
}

proof fn lemma_pieces_whole(pieces: Seq<PieceText>, all: Seq<PieceText>)
    requires
        pieces.len() <= all.len(),
        pieces == all.take(pieces.len() as int),
    ensures
        hold_whole_clusters(pieces_scanned(pieces).tokens, all),
        are_whole_clusters(pieces_scanned(pieces).word, all),
    decreases pieces.len(),
{
    if pieces.len() > 0 {
        let last = pieces.len() - 1;
        assert(pieces.drop_last() =~= all.take(last));
        lemma_pieces_whole(pieces.drop_last(), all);
        assert(pieces.last() == all[last]);
        if let PieceText::Span(span) = pieces.last() {
            let parts = clusters(span.text);
            assert forall|i: int| 0 <= i < parts.len() implies is_whole_cluster(
                SpanText { text: #[trigger] parts[i], style: span.style },
                all,
            ) by {
                assert(parts.contains(parts[i]));
                assert(all[last] == PieceText::Span(span));
            }
            lemma_scanned_whole(
                pieces_scanned(pieces.drop_last()),
                parts,
                span.style,
                all,
            );
        }
    }
}

/// The units that words are made of, between which alone they are broken, are whole grapheme
/// clusters of the pieces.
pub proof fn law_clusters_stay_whole(pieces: Seq<PieceText>, index: int)
    requires
        0 <= index < tokens_of(pieces).len(),
    ensures
        tokens_of(pieces)[index] matches TokenText::Word(units) ==> are_whole_clusters(
            units,
            pieces,
        ),
{
    assert(pieces =~= pieces.take(pieces.len() as int));
    lemma_pieces_whole(pieces, pieces);
}

} // verus!
