//! Lines are filled: nothing is moved to a new line, and nothing is cut, as long as there is room.

use vstd::prelude::*;

use crate::agent_markdown_renderer::alignment::law_spaces_widen_a_line;
use crate::agent_markdown_renderer::fitting::lemma_first_columns;
use crate::agent_markdown_renderer::inline::all_lines;
use crate::agent_markdown_renderer::inline::breaks_line;
use crate::agent_markdown_renderer::inline::columns_left;
use crate::agent_markdown_renderer::inline::fitting_units;
use crate::agent_markdown_renderer::inline::tokens_wrapped;
use crate::agent_markdown_renderer::inline::units_pushed;
use crate::agent_markdown_renderer::inline::word_laid;
use crate::agent_markdown_renderer::inline::Laid;
use crate::agent_markdown_renderer::inline::TokenText;
use crate::agent_markdown_renderer::kept::lemma_units_kept;
use crate::agent_markdown_renderer::literal::clusters_laid;
use crate::agent_markdown_renderer::literal::shown_cluster;
use crate::agent_markdown_renderer::literal::Literal;
use crate::agent_markdown_renderer::measure::fitting_text;
use crate::agent_markdown_renderer::measure::joined;
use crate::agent_markdown_renderer::measure::text_width;
use crate::agent_markdown_renderer::measure::total_width;
use crate::agent_markdown_renderer::style::TextStyle;
use crate::agent_markdown_renderer::styled::law_line_text;
use crate::agent_markdown_renderer::styled::line_end_trimmed;
use crate::agent_markdown_renderer::styled::line_text;
use crate::agent_markdown_renderer::styled::line_width;
use crate::agent_markdown_renderer::styled::pushed;
use crate::agent_markdown_renderer::styled::span_columns;
use crate::agent_markdown_renderer::styled::SpanText;
use crate::text::repeated;

verus! {

/// Of the units of a word as many are put on a line as there are columns for, and no fewer.
pub proof fn law_as_many_units_as_fit(units: Seq<SpanText>, available: int)
    requires
        0 <= available,
    ensures
        ({
            let count = fitting_units(units, available) as int;
            &&& count <= units.len()
            &&& span_columns(units.take(count)) <= available
            &&& count < units.len() ==> span_columns(units.take(count + 1)) > available
        }),
    decreases units.len(),
{
    let count = fitting_units(units, available) as int;
    if units.len() == 0 {
        assert(units.take(0) =~= Seq::empty());
    } else if text_width(units[0].text) > available {
        assert(units.take(0) =~= Seq::empty());
        lemma_first_columns(units.take(1));
    } else {
        let rest = units.drop_first();
        let left = available - text_width(units[0].text);
        law_as_many_units_as_fit(rest, left);
        lemma_first_columns(units.take(count));
        assert(units.take(count).drop_first() =~= rest.take(count - 1));
        if count < units.len() {
            lemma_first_columns(units.take(count + 1));
            assert(units.take(count + 1).drop_first() =~= rest.take(count));
        }
    }
}

proof fn lemma_part_columns(units: Seq<SpanText>, count: int)
    requires
        0 <= count <= units.len(),
    ensures
        span_columns(units.take(count)) <= span_columns(units),
    decreases units.len(),
{
    if count == units.len() {
        assert(units.take(count) =~= units);
    } else {
        lemma_part_columns(units.drop_last(), count);
        assert(units.drop_last().take(count) =~= units.take(count));
    }
}

/// All units fit where there are columns for all of them.
pub proof fn lemma_all_fit(units: Seq<SpanText>, available: int)
    requires
        span_columns(units) <= available,
    ensures
        fitting_units(units, available) == units.len(),
{
    law_as_many_units_as_fit(units, available);
    let count = fitting_units(units, available) as int;
    if count < units.len() {
        lemma_part_columns(units, count + 1);
    }
}

proof fn lemma_word_fits(laid: Laid, units: Seq<SpanText>, width: int)
    requires
        span_columns(units) <= columns_left(laid.line, width),
    ensures
        word_laid(laid, units, width).lines == laid.lines,
        line_text(word_laid(laid, units, width).line) == line_text(laid.line) + line_text(units),
{
    lemma_all_fit(units, columns_left(laid.line, width));
    lemma_units_kept(laid.line, units);
    if units.len() == 0 {
        assert(line_text(laid.line) + line_text(units) =~= line_text(laid.line));
    } else {
        assert(units.take(units.len() as int) =~= units);
    }
}

/// A word stays on the line as long as there is room for it and for the space in front of it. Where
/// there is not, the line ends there, and the word stands at the start of the next one, if it is not
/// too long for a line.
pub proof fn law_words_stay_on_the_line_if_they_fit(
    tokens: Seq<TokenText>,
    units: Seq<SpanText>,
    width: int,
)
    requires
        1 <= width <= usize::MAX,
        span_columns(units) <= width,
    ensures
        ({
            let before = tokens_wrapped(tokens, width);
            let after = tokens_wrapped(tokens.push(TokenText::Word(units)), width);
            let used = line_width(before.laid.line) as int;
            let gap = if before.pending is Some {
                1int
            } else {
                0int
            };
            &&& used == 0 ==> after.laid.lines == before.laid.lines && line_text(after.laid.line)
                == line_text(before.laid.line) + line_text(units)
            &&& used > 0 && used + gap + span_columns(units) <= width ==> after.laid.lines
                == before.laid.lines && line_text(after.laid.line) == line_text(before.laid.line)
                + repeated(' ', gap as nat) + line_text(units)
            &&& used > 0 && used + gap + span_columns(units) > width ==> after.laid.lines
                == before.laid.lines.push(line_end_trimmed(before.laid.line)) && line_text(
                after.laid.line,
            ) == line_text(units)
        }),
{
    let before = tokens_wrapped(tokens, width);
    let all = tokens.push(TokenText::Word(units));
    assert(all.drop_last() =~= tokens);
    let line = before.laid.line;
    let used = line_width(line) as int;
    if used == 0 {
        lemma_word_fits(before.laid, units, width);
    } else if before.pending is Some && used + 1 + span_columns(units) <= width {
        reveal_strlit(" ");
        assert(repeated(' ', 1) =~= " "@);
        let style = before.pending->0;
        law_spaces_widen_a_line(line, 1, style);
        law_line_text(line, " "@, style);
        let spaced = Laid { line: pushed(line, " "@, style), ..before.laid };
        lemma_word_fits(spaced, units, width);
    } else if before.pending is None && used + span_columns(units) <= width {
        lemma_word_fits(before.laid, units, width);
        assert(line_text(line) + repeated(' ', 0) =~= line_text(line));
    } else {
        let fresh = Laid {
            lines: before.laid.lines.push(line_end_trimmed(line)),
            line: Seq::empty(),
        };
        lemma_word_fits(fresh, units, width);
        assert(line_text(Seq::<SpanText>::empty()) + line_text(units) =~= line_text(units));
    }
}

/// A word that is too long for a line begins at the start of one and is broken where it is full.
pub proof fn law_long_words_fill_their_lines(laid: Laid, units: Seq<SpanText>, width: int)
    requires
        laid.line.len() == 0,
        units.len() > 0,
        text_width(units[0].text) <= width <= usize::MAX,
        span_columns(units) > width,
    ensures
        ({
            let count = fitting_units(units, width) as int;
            &&& 0 < count < units.len()
            &&& span_columns(units.take(count)) <= width < span_columns(units.take(count + 1))
            &&& word_laid(laid, units, width) == word_laid(
                Laid {
                    lines: laid.lines.push(units_pushed(Seq::empty(), units.take(count))),
                    line: Seq::empty(),
                },
                units.skip(count),
                width,
            )
            &&& line_text(units_pushed(Seq::empty(), units.take(count))) == line_text(
                units.take(count),
            )
        }),
{
    let count = fitting_units(units, width) as int;
    law_as_many_units_as_fit(units, width);
    if count == units.len() {
        assert(units.take(count) =~= units);
    }
    assert(laid.line =~= Seq::empty());
    lemma_units_kept(Seq::empty(), units.take(count));
    assert(line_text(Seq::<SpanText>::empty()) + line_text(units.take(count)) =~= line_text(
        units.take(count),
    ));
}

/// All that has been laid out is shown: every finished line, and the last one unless it shows nothing
/// below others.
pub proof fn law_the_last_line_is_shown(laid: Laid)
    ensures
        all_lines(laid).take(laid.lines.len() as int) == laid.lines,
        line_end_trimmed(laid.line).len() > 0 ==> all_lines(laid) == laid.lines.push(
            line_end_trimmed(laid.line),
        ),
        all_lines(laid).len() > 0,
{
    assert(all_lines(laid).take(laid.lines.len() as int) =~= laid.lines);
}

/// Source text stays on the line as long as there is room for it, is moved to a new line where there
/// is not, and ends the line where it breaks it.
pub proof fn law_source_stays_on_the_line_if_it_fits(
    literal: Literal,
    parts: Seq<Seq<char>>,
    cluster: Seq<char>,
    style: TextStyle,
)
    ensures
        ({
            let before = clusters_laid(literal, parts, style);
            let after = clusters_laid(literal, parts.push(cluster), style);
            let shown = shown_cluster(cluster);
            let columns = text_width(shown) as int;
            &&& breaks_line(cluster) ==> after.lines == before.lines.push(before.line)
                && after.line.len() == 0 && after.column == 0
            &&& !breaks_line(cluster) && shown.len() > 0 && before.column + columns <= before.width
                && 0 <= before.column ==> after.lines == before.lines && after.column
                == before.column + columns && line_text(after.line) == line_text(before.line)
                + shown
            &&& !breaks_line(cluster) && shown.len() > 0 && before.column + columns > before.width
                && before.column > 0 && columns <= before.width ==> after.lines
                == before.lines.push(before.line) && after.column == columns && line_text(
                after.line,
            ) == shown
        }),
{
    let before = clusters_laid(literal, parts, style);
    let shown = shown_cluster(cluster);
    assert(parts.push(cluster).drop_last() =~= parts);
    law_line_text(before.line, shown, style);
    law_line_text(Seq::empty(), shown, style);
    assert(line_text(Seq::<SpanText>::empty()) + shown =~= shown);
}

proof fn lemma_first_part(parts: Seq<Seq<char>>)
    requires
        parts.len() > 0,
    ensures
        total_width(parts) == text_width(parts[0]) + total_width(parts.drop_first()),
        joined(parts) == parts[0] + joined(parts.drop_first()),
    decreases parts.len(),
{
    if parts.len() == 1 {
        assert(parts.drop_first() =~= Seq::empty());
        assert(parts.drop_last() =~= Seq::empty());
        reveal_with_fuel(joined, 2);
        reveal_with_fuel(total_width, 2);
        assert(joined(parts) =~= parts[0] + joined(parts.drop_first()));
    } else {
        lemma_first_part(parts.drop_last());
        assert(parts.drop_last().drop_first() =~= parts.drop_first().drop_last());
        assert(joined(parts) =~= parts[0] + joined(parts.drop_first()));
    }
}

/// A text is cut behind the clusters `first` where they fit and the one behind them does not.
pub proof fn law_texts_are_cut_where_they_are_full(
    first: Seq<Seq<char>>,
    rest: Seq<Seq<char>>,
    width: int,
)
    requires
        total_width(first) <= width,
        rest.len() > 0 ==> total_width(first) + text_width(rest[0]) > width,
    ensures
        fitting_text(first + rest, width) == joined(first),
    decreases first.len(),
{
    let all = first + rest;
    if first.len() == 0 {
        assert(all =~= rest);
        assert(joined(first) =~= Seq::empty());
    } else {
        lemma_first_part(first);
        assert(all.drop_first() =~= first.drop_first() + rest);
        law_texts_are_cut_where_they_are_full(
            first.drop_first(),
            rest,
            width - text_width(first[0]),
        );
    }
}

} // verus!
