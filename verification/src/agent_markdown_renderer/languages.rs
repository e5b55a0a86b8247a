//! The languages of code, and the colours of what stands in them.

use two_face::re_exports::syntect::parsing::ScopeStackOp;
use vstd::prelude::*;

use crate::agent_markdown_renderer::highlight::bare_language;
use crate::agent_markdown_renderer::highlight::best_match;
use crate::agent_markdown_renderer::highlight::comma_position;
use crate::agent_markdown_renderer::highlight::is_applicable;
use crate::agent_markdown_renderer::highlight::known_syntax;
use crate::agent_markdown_renderer::highlight::language_token;
use crate::agent_markdown_renderer::highlight::marks_dropped;
use crate::agent_markdown_renderer::highlight::marks_skipped;
use crate::agent_markdown_renderer::highlight::regions_laid;
use crate::agent_markdown_renderer::highlight::rule_strength;
use crate::agent_markdown_renderer::highlight::scope_depth;
use crate::agent_markdown_renderer::highlight::scope_rules;
use crate::agent_markdown_renderer::highlight::scope_style;
use crate::agent_markdown_renderer::highlight::ScopeRule;
use crate::agent_markdown_renderer::highlight::MAX_SCOPES;
use crate::agent_markdown_renderer::literal::clusters_laid;
use crate::agent_markdown_renderer::literal::literal_wrapped;
use crate::agent_markdown_renderer::literal::Literal;
use crate::agent_markdown_renderer::measure::clusters;
use crate::agent_markdown_renderer::renderer::code_lines;
use crate::agent_markdown_renderer::style::plain_style;
use crate::agent_markdown_renderer::style::TextStyle;
use crate::parts::lemma_line_length;
use crate::parts::line_length;
use crate::parts::source_lines;
use crate::text::lowered;
use crate::text::trimmed;

verus! {

/// Whether `text` is made of braces and dots.
pub open spec fn are_all_marks(text: Seq<char>) -> bool {
    forall|i: int| 0 <= i < text.len() ==> (#[trigger] text[i] == '{' || text[i] == '}' || text[i]
        == '.')
}

proof fn lemma_marks_skipped(marks: Seq<char>, rest: Seq<char>)
    requires
        are_all_marks(marks),
        rest.len() > 0,
        rest[0] != '{' && rest[0] != '}' && rest[0] != '.',
    ensures
        marks_skipped(marks + rest) == rest,
    decreases marks.len(),
{
    let all = marks + rest;
    if marks.len() == 0 {
        assert(all =~= rest);
    } else {
        assert(all[0] == marks[0]);
        assert(all.drop_first() =~= marks.drop_first() + rest);
        assert forall|i: int| 0 <= i < marks.drop_first().len() implies (
        #[trigger] marks.drop_first()[i] == '{' || marks.drop_first()[i] == '}'
            || marks.drop_first()[i] == '.') by {
            assert(marks.drop_first()[i] == marks[i + 1]);
        }
        lemma_marks_skipped(marks.drop_first(), rest);
    }
}

proof fn lemma_marks_dropped(name: Seq<char>, marks: Seq<char>)
    requires
        are_all_marks(marks),
        name.len() > 0,
        name.last() != '{' && name.last() != '}' && name.last() != '.',
    ensures
        marks_dropped(name + marks) == name,
    decreases marks.len(),
{
    let all = name + marks;
    if marks.len() == 0 {
        assert(all =~= name);
    } else {
        assert(all.last() == marks[marks.len() - 1]);
        assert(all.drop_last() =~= name + marks.drop_last());
        assert forall|i: int| 0 <= i < marks.drop_last().len() implies (
        #[trigger] marks.drop_last()[i] == '{' || marks.drop_last()[i] == '}'
            || marks.drop_last()[i] == '.') by {
            assert(marks.drop_last()[i] == marks[i]);
        }
        lemma_marks_dropped(name, marks.drop_last());
    }
}

proof fn lemma_comma(name: Seq<char>, rest: Seq<char>)
    requires
        forall|i: int| 0 <= i < name.len() ==> #[trigger] name[i] != ',',
        rest.len() == 0 || rest[0] == ',',
    ensures
        comma_position(name + rest) == name.len(),
    decreases name.len(),
{
    let all = name + rest;
    if name.len() == 0 {
        assert(all =~= rest);
    } else {
        assert(all[0] == name[0]);
        assert(all.drop_first() =~= name.drop_first() + rest);
        assert forall|i: int| 0 <= i < name.drop_first().len() implies #[trigger] name.drop_first()[i]
            != ',' by {
            assert(name.drop_first()[i] == name[i + 1]);
        }
        lemma_comma(name.drop_first(), rest);
    }
}

/// The braces and dots around the name of a language are no part of it, and neither is what follows a
/// comma.
pub proof fn law_language_names_are_bare(
    language: Seq<char>,
    front: Seq<char>,
    name: Seq<char>,
    rest: Seq<char>,
    back: Seq<char>,
)
    requires
        trimmed(language) == front + (name + rest) + back,
        are_all_marks(front),
        are_all_marks(back),
        name.len() > 0,
        name[0] != '{' && name[0] != '}' && name[0] != '.',
        forall|i: int| 0 <= i < name.len() ==> #[trigger] name[i] != ',',
        rest.len() == 0 || rest[0] == ',',
        (name + rest).last() != '{' && (name + rest).last() != '}' && (name + rest).last() != '.',
    ensures
        bare_language(language) == name,
{
    let inner = name + rest;
    assert(front + inner + back =~= front + (inner + back));
    assert((inner + back)[0] == name[0]);
    lemma_marks_skipped(front, inner + back);
    lemma_marks_dropped(inner, back);
    lemma_comma(name, rest);
    assert(inner.take(name.len() as int) =~= name);
}

/// Languages go by their names in whatever case they are written.
pub proof fn law_languages_ignore_case(language: Seq<char>, other: Seq<char>)
    requires
        lowered(bare_language(language)) == lowered(bare_language(other)),
    ensures
        language_token(language) == language_token(other),
{
}

/// Whether the rule at `winner` of `rules` is the last of the strongest ones that match.
pub open spec fn is_strongest(
    rules: Seq<ScopeRule>,
    changes: Seq<ScopeStackOp>,
    winner: int,
) -> bool {
    &&& 0 <= winner < rules.len()
    &&& rule_strength(rules[winner], changes) is Some
    &&& forall|i: int|
        0 <= i < rules.len() && (#[trigger] rule_strength(rules[i], changes)) is Some
            ==> rule_strength(rules[i], changes)->0 <= rule_strength(rules[winner], changes)->0
    &&& forall|i: int|
        winner < i < rules.len() && (#[trigger] rule_strength(rules[i], changes)) is Some
            ==> rule_strength(rules[i], changes)->0 < rule_strength(rules[winner], changes)->0
}

/// Whether no rule is so strong that its strength does not fit into its number.
pub open spec fn are_in_range(rules: Seq<ScopeRule>, changes: Seq<ScopeStackOp>) -> bool {
    forall|i: int|
        0 <= i < rules.len() && (#[trigger] rule_strength(rules[i], changes)) is Some ==> 0
            <= rule_strength(rules[i], changes)->0 <= u64::MAX
}

proof fn lemma_best(rules: Seq<ScopeRule>, changes: Seq<ScopeStackOp>, winner: int)
    requires
        is_strongest(rules, changes, winner),
        are_in_range(rules, changes),
    ensures
        best_match(rules, changes) matches Some(best) && best.role == rules[winner].role
            && best.strength == rule_strength(rules[winner], changes)->0,
    decreases rules.len(),
{
    let front = rules.drop_last();
    let last = rules.len() - 1;
    assert(forall|i: int| 0 <= i < front.len() ==> #[trigger] front[i] == rules[i]);
    assert(rule_strength(rules[winner], changes)->0 <= u64::MAX);
    if winner == last {
        lemma_bound(front, changes, rule_strength(rules[winner], changes)->0);
    } else {
        assert(is_strongest(front, changes, winner)) by {
            assert(front[winner] == rules[winner]);
        }
        assert(are_in_range(front, changes));
        lemma_best(front, changes, winner);
        assert(rules.last() == rules[last]);
        if rule_strength(rules[last], changes) is Some {
            assert(rule_strength(rules[last], changes)->0 < rule_strength(
                rules[winner],
                changes,
            )->0);
        }
    }
}

proof fn lemma_bound(rules: Seq<ScopeRule>, changes: Seq<ScopeStackOp>, bound: int)
    requires
        are_in_range(rules, changes),
        forall|i: int|
            0 <= i < rules.len() && (#[trigger] rule_strength(rules[i], changes)) is Some
                ==> rule_strength(rules[i], changes)->0 <= bound,
    ensures
        best_match(rules, changes) matches Some(best) ==> best.strength <= bound,
    decreases rules.len(),
{
    if rules.len() > 0 {
        let front = rules.drop_last();
        let last = rules.len() - 1;
        assert(forall|i: int| 0 <= i < front.len() ==> #[trigger] front[i] == rules[i]);
        assert forall|i: int|
            0 <= i < front.len() && (#[trigger] rule_strength(front[i], changes)) is Some implies
            rule_strength(front[i], changes)->0 <= bound by {
            assert(rule_strength(rules[i], changes)->0 <= bound);
        }
        assert(are_in_range(front, changes));
        lemma_bound(front, changes, bound);
        assert(rules.last() == rules[last]);
        if rule_strength(rules[last], changes) is Some {
            assert(rule_strength(rules[last], changes)->0 <= bound);
        }
    }
}

proof fn lemma_none(rules: Seq<ScopeRule>, changes: Seq<ScopeStackOp>)
    requires
        forall|i: int|
            0 <= i < rules.len() ==> (#[trigger] rule_strength(rules[i], changes)) is None,
    ensures
        best_match(rules, changes) is None,
    decreases rules.len(),
{
    if rules.len() > 0 {
        let front = rules.drop_last();
        assert forall|i: int| 0 <= i < front.len() implies (
        #[trigger] rule_strength(front[i], changes)) is None by {
            assert(rule_strength(rules[i], changes) is None);
        }
        lemma_none(front, changes);
        assert(rule_strength(rules[rules.len() - 1], changes) is None);
    }
}

/// Code has the colour of the rule that matches its scopes best, and of the last one of several that
/// match equally well. Code that no rule matches has none.
pub proof fn law_the_strongest_rule_colours(changes: Seq<ScopeStackOp>, winner: int)
    requires
        scope_depth(changes) <= MAX_SCOPES,
        are_in_range(scope_rules(), changes),
    ensures
        is_strongest(scope_rules(), changes, winner) ==> scope_style(changes) == (TextStyle {
            color: scope_rules()[winner].role,
            ..plain_style()
        }),
        (forall|i: int|
            0 <= i < scope_rules().len() ==> (#[trigger] rule_strength(
                scope_rules()[i],
                changes,
            )) is None) ==> scope_style(changes) == plain_style(),
{
    if is_strongest(scope_rules(), changes, winner) {
        lemma_best(scope_rules(), changes, winner);
    }
    if forall|i: int|
        0 <= i < scope_rules().len() ==> (#[trigger] rule_strength(
            scope_rules()[i],
            changes,
        )) is None {
        lemma_none(scope_rules(), changes);
    }
}

proof fn lemma_line(line: Seq<char>, rest: Seq<char>)
    requires
        forall|i: int| 0 <= i < line.len() ==> #[trigger] line[i] != '\n',
    ensures
        line_length(line.push('\n') + rest) == line.len() + 1,
        line_length(line) == line.len(),
    decreases line.len(),
{
    let all = line.push('\n') + rest;
    if line.len() == 0 {
        assert(all[0] == '\n');
    } else {
        let tail = line.drop_first();
        assert(all[0] == line[0]);
        assert forall|i: int| 0 <= i < tail.len() implies #[trigger] tail[i] != '\n' by {
            assert(tail[i] == line[i + 1]);
        }
        lemma_line(tail, rest);
        assert(all.drop_first() =~= tail.push('\n') + rest);
    }
}

/// Source is read line by line: each line ends behind its line feed, and the last one where the
/// source does.
pub proof fn law_source_is_read_line_by_line(line: Seq<char>, rest: Seq<char>)
    requires
        forall|i: int| 0 <= i < line.len() ==> #[trigger] line[i] != '\n',
    ensures
        source_lines(line.push('\n') + rest) == seq![line.push('\n')] + source_lines(rest),
        line.len() > 0 ==> source_lines(line) == seq![line],
        source_lines(Seq::empty()).len() == 0,
{
    let all = line.push('\n') + rest;
    lemma_line(line, rest);
    lemma_line_length(all);
    assert(all.take(line.len() as int + 1) =~= line.push('\n'));
    assert(all.skip(line.len() as int + 1) =~= rest);
    if line.len() > 0 {
        assert(line.take(line.len() as int) =~= line);
        assert(line.skip(line.len() as int) =~= Seq::empty());
        reveal_with_fuel(source_lines, 2);
        assert(source_lines(line) =~= seq![line]);
    }
}

/// A region of code is shown in the style of the scopes that hold once its own change has been made,
/// and the regions behind it go on from there. A change that cannot be made leaves nothing.
pub proof fn law_regions_take_the_style_of_their_scopes(
    literal: Literal,
    changes: Seq<ScopeStackOp>,
    text: Seq<char>,
    change: ScopeStackOp,
    rest: Seq<(Seq<char>, ScopeStackOp)>,
)
    ensures
        !is_applicable(changes.push(change)) ==> regions_laid(
            literal,
            changes,
            seq![(text, change)] + rest,
        ) is None,
        is_applicable(changes.push(change)) && text.len() > 0 ==> regions_laid(
            literal,
            changes,
            seq![(text, change)] + rest,
        ) == regions_laid(
            clusters_laid(literal, clusters(text), scope_style(changes.push(change))),
            changes.push(change),
            rest,
        ),
        is_applicable(changes.push(change)) && text.len() == 0 ==> regions_laid(
            literal,
            changes,
            seq![(text, change)] + rest,
        ) == regions_laid(literal, changes.push(change), rest),
{
    let all = seq![(text, change)] + rest;
    assert(all[0] == (text, change));
    assert(all.drop_first() =~= rest);
}

/// Code in a language that is not known is shown as it stands, without colours, and so is code
/// without a language.
pub proof fn law_unknown_languages_are_not_coloured(
    content: Seq<char>,
    language: Seq<char>,
    width: int,
)
    requires
        content.len() > 0,
        language_token(language).len() == 0 || known_syntax(language_token(language)) is None,
    ensures
        code_lines(content, language, width) == literal_wrapped(content, width, plain_style()),
{
}

} // verus!
