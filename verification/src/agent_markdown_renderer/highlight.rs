//! Code in the colours of its language.

use std::str::FromStr;

use two_face::re_exports::syntect::easy::ScopeRegionIterator;
use two_face::re_exports::syntect::highlighting::ScopeSelectors;
use two_face::re_exports::syntect::parsing::ParseState;
use two_face::re_exports::syntect::parsing::ScopeStack;
use two_face::re_exports::syntect::parsing::ScopeStackOp;
use two_face::re_exports::syntect::parsing::SyntaxReference;
use two_face::re_exports::syntect::parsing::SyntaxSet;
use vstd::arithmetic::power::lemma_pow_increases;
use vstd::arithmetic::power::lemma_pow_positive;
use vstd::arithmetic::power::pow;
use vstd::prelude::*;

use crate::agent_markdown_renderer::literal::clusters_laid;
use crate::agent_markdown_renderer::literal::ends_with_break;
use crate::agent_markdown_renderer::literal::ends_with_line_break;
use crate::agent_markdown_renderer::literal::literal_lines;
use crate::agent_markdown_renderer::literal::literal_start;
use crate::agent_markdown_renderer::literal::Literal;
use crate::agent_markdown_renderer::literal::LiteralLayout;
use crate::agent_markdown_renderer::measure::clusters;
use crate::agent_markdown_renderer::style::colored_style;
use crate::agent_markdown_renderer::style::ColorRole;
use crate::agent_markdown_renderer::style::TextStyle;
use crate::agent_markdown_renderer::styled::lines_view;
use crate::agent_markdown_renderer::styled::SpanText;
use crate::agent_markdown_renderer::styled::StyledLine;
use crate::parts::source_lines;
use crate::parts::split_source_lines;
use crate::text::chars_of;
use crate::text::lowered;
use crate::text::lowered_text;
use crate::text::same_text;
use crate::text::text_range;
use crate::text::trim_chars;
use crate::text::trimmed;
use crate::text::texts_view;

verus! {

/// A set of syntax definitions.
#[verifier::external_type_specification]
#[verifier::external_body]
pub struct ExSyntaxSet(SyntaxSet);

/// A parser of one syntax, between two lines.
#[verifier::external_type_specification]
#[verifier::external_body]
pub struct ExParseState(ParseState);

/// The scopes that hold at a point of a source.
#[verifier::external_type_specification]
#[verifier::external_body]
pub struct ExScopeStack(ScopeStack);

/// A change of the scopes.
#[verifier::external_type_specification]
#[verifier::external_body]
pub struct ExScopeStackOp(ScopeStackOp);

/// A condition on scopes.
#[verifier::external_type_specification]
#[verifier::external_body]
pub struct ExScopeSelectors(ScopeSelectors);

/// A syntax definition.
#[verifier::external_type_specification]
#[verifier::external_body]
pub struct ExSyntaxReference(SyntaxReference);

/// What a parser has been given: its syntax, and the lines so far.
#[verifier::ext_equal]
pub struct ParserInput {
    pub syntax: SyntaxReference,
    pub lines: Seq<Seq<char>>,
}

/// Whether `set` holds the syntaxes that come with `two_face`.
pub uninterp spec fn is_bundled(set: SyntaxSet) -> bool;

/// The bundled syntax that goes by `token`.
pub uninterp spec fn known_syntax(token: Seq<char>) -> Option<SyntaxReference>;

/// What `state` has been given.
pub uninterp spec fn parser_input(state: ParseState) -> ParserInput;

/// The changes of scopes in the last of `lines`, each with its place, where the lines are in
/// `syntax`. Nothing where the syntax is broken.
pub uninterp spec fn line_changes(syntax: SyntaxReference, lines: Seq<Seq<char>>) -> Option<
    Seq<(usize, ScopeStackOp)>,
>;

/// How many bytes `c` takes up in UTF-8.
pub open spec fn utf8_length(c: char) -> int {
    if c <= '\u{7f}' {
        1
    } else if c <= '\u{7ff}' {
        2
    } else if c <= '\u{ffff}' {
        3
    } else {
        4
    }
}

/// How many characters of `text` stand within its first `bytes` bytes, whole or in part.
pub open spec fn chars_within(text: Seq<char>, bytes: int) -> int
    decreases text.len(),
{
    if text.len() == 0 || bytes <= 0 {
        0
    } else {
        1 + chars_within(text.drop_first(), bytes - utf8_length(text[0]))
    }
}

/// Whether the first `bytes` bytes of `text` end between two of its characters or at an end of it.
pub open spec fn is_boundary(text: Seq<char>, bytes: int) -> bool
    decreases text.len(),
{
    if text.len() == 0 || bytes <= 0 {
        bytes == 0
    } else {
        is_boundary(text.drop_first(), bytes - utf8_length(text[0]))
    }
}

/// Whether the places of `changes` lie in `line`, between its characters.
pub open spec fn are_cuts(changes: Seq<(usize, ScopeStackOp)>, line: Seq<char>) -> bool {
    forall|i: int| 0 <= i < changes.len() ==> is_boundary(line, (#[trigger] changes[i]).0 as int)
}

/// Whether each of `changes` stands where the one before it does, or behind that.
pub open spec fn are_ordered(changes: Seq<(usize, ScopeStackOp)>) -> bool {
    forall|i: int, j: int|
        0 <= i < j < changes.len() ==> (#[trigger] changes[i]).0 <= (#[trigger] changes[j]).0
}

/// Where the region `index` of `line` begins: at the start, and behind that at the place of each
/// change. What would follow the last one begins at the end.
pub open spec fn region_start(
    changes: Seq<(usize, ScopeStackOp)>,
    line: Seq<char>,
    index: int,
) -> int {
    if index <= 0 {
        0
    } else if index <= changes.len() {
        chars_within(line, changes[index - 1].0 as int)
    } else {
        line.len() as int
    }
}

/// What `ScopeRegionIterator` cuts `line` into at `changes`, each with the change before it.
pub uninterp spec fn found_regions(changes: Seq<(usize, ScopeStackOp)>, line: Seq<char>) -> Seq<
    (Seq<char>, ScopeStackOp),
>;

/// The changes that made `stack`.
pub uninterp spec fn stack_changes(stack: ScopeStack) -> Seq<ScopeStackOp>;

/// Whether the last of `changes` can follow the others.
pub uninterp spec fn is_applicable(changes: Seq<ScopeStackOp>) -> bool;

/// What `selectors` were read from.
pub uninterp spec fn selectors_source(selectors: ScopeSelectors) -> Seq<char>;

/// How many scopes hold where `changes` have been made.
pub uninterp spec fn scope_depth(changes: Seq<ScopeStackOp>) -> nat;

/// How many scopes a selector can be held against: the place of each counts for three binary
/// digits, and the digits are counted in sixteen bits.
pub const MAX_SCOPES: usize = 21845;

/// The characters that a line of code may have. What opens a construct can come back in the
/// expression that looks for its end, as the name of a here-document does, and an expression
/// cannot be built where it is too large.
pub const MAX_LINE: usize = 16000;

/// Whether the selectors that `source` describes match the first `count` of the scopes that
/// `changes` make.
pub uninterp spec fn is_match(source: Seq<char>, changes: Seq<ScopeStackOp>, count: int) -> bool;

/// The models of regions.
pub open spec fn regions_view(regions: Seq<(String, ScopeStackOp)>) -> Seq<
    (Seq<char>, ScopeStackOp),
> {
    regions.map_values(|region: (String, ScopeStackOp)| (region.0@, region.1))
}

/// The texts of regions, one after the other.
pub open spec fn regions_text(regions: Seq<(Seq<char>, ScopeStackOp)>) -> Seq<char>
    decreases regions.len(),
{
    if regions.len() == 0 {
        Seq::empty()
    } else {
        regions_text(regions.drop_last()) + regions.last().0
    }
}

/// What `changes` cut `line` into, each with the change before it: the regions that
/// `ScopeRegionIterator` finds. They make up the line; what did not would be taken as a whole.
pub open spec fn cut_regions(changes: Seq<(usize, ScopeStackOp)>, line: Seq<char>) -> Seq<
    (Seq<char>, ScopeStackOp),
> {
    if regions_text(found_regions(changes, line)) == line {
        found_regions(changes, line)
    } else {
        seq![(line, arbitrary())]
    }
}

/// The regions of a line make it up.
pub proof fn law_regions_make_up_the_line(changes: Seq<(usize, ScopeStackOp)>, line: Seq<char>)
    ensures
        regions_text(cut_regions(changes, line)) == line,
{
    let whole: Seq<(Seq<char>, ScopeStackOp)> = seq![(line, arbitrary())];
    assert(regions_text(whole.drop_last()) =~= Seq::empty());
    assert(regions_text(whole) =~= line);
}

/// `two_face::syntax::extra_newlines`: the bundled syntaxes.
#[verifier::external_body]
fn load_syntaxes() -> (r: SyntaxSet)
    ensures
        is_bundled(r),
{
    two_face::syntax::extra_newlines()
}

/// `SyntaxSet::find_syntax_by_token` of the bundled syntaxes: the one that goes by `token`.
#[verifier::external_body]
fn find_syntax<'a>(set: &'a SyntaxSet, token: &str) -> (r: Option<&'a SyntaxReference>)
    requires
        is_bundled(*set),
    ensures
        match r {
            Some(syntax) => known_syntax(token@) == Some(*syntax),
            None => known_syntax(token@) is None,
        },
{
    set.find_syntax_by_token(token)
}

/// Whether `syntax` is one of the bundled syntaxes.
pub open spec fn is_known(syntax: SyntaxReference) -> bool {
    exists|token: Seq<char>| #[trigger] known_syntax(token) == Some(syntax)
}

/// `ParseState::new`: a parser of the syntax, at the start of a source. It fails on a syntax that
/// has nowhere to start, which each of the bundled ones has.
pub assume_specification[ ParseState::new ](syntax: &SyntaxReference) -> (r: ParseState)
    requires
        is_known(*syntax),
    ensures
        parser_input(r) == (ParserInput { syntax: *syntax, lines: Seq::empty() }),
;

/// `ParseState::parse_line` with the set that holds the syntax: the changes of scopes in the
/// line, each with its place, or nothing where the syntax is broken. They depend on the syntax and
/// on the lines that the parser has been given. A line that is too long is not for it: an
/// expression that repeats a part of the line has to be built, and that fails from ten megabytes
/// on.
#[verifier::external_body]
fn parse_line(state: &mut ParseState, line: &str, set: &SyntaxSet) -> (r: Option<
    Vec<(usize, ScopeStackOp)>,
>)
    requires
        is_bundled(*set),
        is_known(parser_input(*old(state)).syntax),
        line@.len() <= MAX_LINE,
    ensures
        parser_input(*final(state)) == (ParserInput {
            syntax: parser_input(*old(state)).syntax,
            lines: parser_input(*old(state)).lines.push(line@),
        }),
        match r {
            Some(changes) => are_cuts(changes@, line@) && line_changes(
                parser_input(*old(state)).syntax,
                parser_input(*old(state)).lines.push(line@),
            ) == Some(changes@),
            None => line_changes(
                parser_input(*old(state)).syntax,
                parser_input(*old(state)).lines.push(line@),
            ) is None,
        },
{
    state.parse_line(line, set).ok()
}

/// `ScopeRegionIterator`: the line cut at the places of the changes, each region but the first one
/// with the change before it. That of the first one changes nothing.
#[verifier::external_body]
fn find_regions(changes: &Vec<(usize, ScopeStackOp)>, line: &str) -> (r: Vec<
    (String, ScopeStackOp),
>)
    requires
        are_cuts(changes@, line@),
        are_ordered(changes@),
    ensures
        regions_view(r@) == found_regions(changes@, line@),
        r@.len() == changes@.len() + 1,
        forall|i: int|
            0 <= i < r@.len() ==> (#[trigger] r@[i]).0@ == line@.subrange(
                region_start(changes@, line@, i),
                region_start(changes@, line@, i + 1),
            ),
        forall|i: int| 0 < i < r@.len() ==> (#[trigger] r@[i]).1 == changes@[i - 1].1,
{
    let regions = ScopeRegionIterator::new(changes, line);
    regions.map(|(text, change)| (text.to_owned(), change.clone())).collect()
}

proof fn lemma_chars_within(text: Seq<char>, few: int, many: int)
    requires
        few <= many,
    ensures
        0 <= chars_within(text, few) <= chars_within(text, many) <= text.len(),
    decreases text.len(),
{
    if text.len() > 0 {
        lemma_chars_within(
            text.drop_first(),
            few - utf8_length(text[0]),
            many - utf8_length(text[0]),
        );
    }
}

proof fn lemma_region_start(changes: Seq<(usize, ScopeStackOp)>, line: Seq<char>, index: int)
    requires
        are_ordered(changes),
        0 <= index <= changes.len(),
    ensures
        0 <= region_start(changes, line, index) <= region_start(changes, line, index + 1)
            <= line.len(),
{
    if index > 0 {
        let place = changes[index - 1].0 as int;
        lemma_chars_within(line, place, place);
        if index < changes.len() {
            assert(changes[index - 1].0 <= changes[index].0);
            lemma_chars_within(line, place, changes[index].0 as int);
        }
    } else if index < changes.len() {
        let place = changes[index].0 as int;
        lemma_chars_within(line, place, place);
    }
}

/// Whether each of the changes stands where the one before it does, or behind that.
fn stand_in_order(changes: &Vec<(usize, ScopeStackOp)>) -> (r: bool)
    ensures
        r == are_ordered(changes@),
{
    let mut k: usize = 1;
    while k < changes.len()
        invariant
            1 <= k,
            k <= changes@.len() ==> are_ordered(changes@.take(k as int)),
            changes@.len() > 0 ==> k <= changes@.len(),
        decreases changes@.len() - k,
    {
        assert(changes@.take(k as int)[k - 1] == changes@[k - 1]);
        if changes[k].0 < changes[k - 1].0 {
            return false;
        }
        assert forall|i: int, j: int| 0 <= i < j < k + 1 implies (#[trigger] changes@.take(
            k + 1,
        )[i]).0 <= (#[trigger] changes@.take(k + 1)[j]).0 by {
            assert(changes@.take(k as int)[i] == changes@[i]);
            if j < k {
                assert(changes@.take(k as int)[j] == changes@[j]);
            } else if i < k - 1 {
                assert(changes@.take(k as int)[i].0 <= changes@.take(k as int)[k - 1].0);
            }
        }
        k = k + 1;
    }
    assert(changes@.take(changes@.len() as int) =~= changes@);
    true
}

/// The line cut at the places of the changes. The regions make up the line.
fn cut_line(changes: &Vec<(usize, ScopeStackOp)>, line: &str) -> (r: Vec<(String, ScopeStackOp)>)
    requires
        are_cuts(changes@, line@),
        are_ordered(changes@),
    ensures
        regions_view(r@) == cut_regions(changes@, line@),
{
    let regions = find_regions(changes, line);
    let ghost all = regions_view(regions@);
    proof {
        lemma_regions_text(changes@, line@, all, all.len() as int);
        assert(all.take(all.len() as int) =~= all);
        assert(line@.take(line@.len() as int) =~= line@);
    }
    regions
}

proof fn lemma_regions_text(
    changes: Seq<(usize, ScopeStackOp)>,
    line: Seq<char>,
    regions: Seq<(Seq<char>, ScopeStackOp)>,
    count: int,
)
    requires
        are_ordered(changes),
        regions.len() == changes.len() + 1,
        0 <= count <= regions.len(),
        forall|i: int|
            0 <= i < regions.len() ==> (#[trigger] regions[i]).0 == line.subrange(
                region_start(changes, line, i),
                region_start(changes, line, i + 1),
            ),
    ensures
        regions_text(regions.take(count)) == line.take(region_start(changes, line, count)),
    decreases count,
{
    if count > 0 {
        lemma_regions_text(changes, line, regions, count - 1);
        lemma_region_start(changes, line, count - 1);
        assert(regions.take(count).drop_last() =~= regions.take(count - 1));
        assert(regions.take(count).last() == regions[count - 1]);
        assert(regions_text(regions.take(count)) =~= line.take(
            region_start(changes, line, count),
        ));
    } else {
        assert(regions_text(regions.take(0)) =~= line.take(0));
    }
}

/// `ScopeStack::new`: no scope holds.
pub assume_specification[ ScopeStack::new ]() -> (r: ScopeStack)
    ensures
        stack_changes(r) == Seq::<ScopeStackOp>::empty(),
;

/// `ScopeStack::apply`: one more change. It fails where it restores scopes and none have been
/// set aside, which depends on the changes alone.
#[verifier::external_body]
fn apply_change(stack: &mut ScopeStack, change: &ScopeStackOp) -> (r: bool)
    ensures
        stack_changes(*final(stack)) == stack_changes(*old(stack)).push(*change),
        r == is_applicable(stack_changes(*old(stack)).push(*change)),
{
    stack.apply(change).is_ok()
}

/// A selector of one scope, perhaps with an exclusion behind it, and the role of what it matches.
#[verifier::ext_equal]
pub struct ScopeRule {
    pub source: Seq<char>,
    pub role: ColorRole,
}

/// How many atoms the scope at the start of `source` has: they stand between dots.
pub open spec fn atoms_of(source: Seq<char>) -> int
    decreases source.len(),
{
    if source.len() == 0 || source[0] == ' ' {
        1
    } else if source[0] == '.' {
        1 + atoms_of(source.drop_first())
    } else {
        atoms_of(source.drop_first())
    }
}

/// How many atoms the scope at the start of `source` has.
fn count_atoms(source: &str) -> (r: u64)
    ensures
        r == strength_capped(atoms_of(source@)),
{
    let chars = chars_of(source);
    let mut atoms: u64 = 1;
    let mut i: usize = 0;
    assert(chars@.skip(0) =~= chars@);
    while i < chars.len() && chars[i] != ' '
        invariant
            i <= chars@.len(),
            1 <= atoms <= MAX_STRENGTH,
            atoms < MAX_STRENGTH ==> atoms + atoms_of(chars@.skip(i as int)) == 1 + atoms_of(
                chars@,
            ),
            atoms == MAX_STRENGTH ==> atoms_of(chars@) >= MAX_STRENGTH,
        decreases chars@.len() - i,
    {
        assert(chars@.skip(i as int)[0] == chars@[i as int]);
        assert(chars@.skip(i as int).drop_first() =~= chars@.skip(i + 1));
        proof {
            lemma_atoms(chars@.skip(i + 1));
        }
        if chars[i] == '.' && atoms < MAX_STRENGTH {
            atoms = atoms + 1;
        }
        i = i + 1;
    }
    assert(atoms_of(chars@.skip(i as int)) == 1) by {
        if i < chars@.len() {
            assert(chars@.skip(i as int)[0] == chars@[i as int]);
        }
    }
    atoms
}

proof fn lemma_atoms(source: Seq<char>)
    ensures
        atoms_of(source) >= 1,
    decreases source.len(),
{
    if source.len() > 0 {
        lemma_atoms(source.drop_first());
    }
}

/// The rules by which code is coloured: for constants, variables, functions, types, keywords,
/// declarations, numbers, strings and comments.
pub open spec fn scope_rules() -> Seq<ScopeRule> {
    seq![
        ScopeRule { source: "constant"@, role: ColorRole::SyntaxConstant },
        ScopeRule { source: "support.constant"@, role: ColorRole::SyntaxConstant },
        ScopeRule { source: "entity.other.attribute-name"@, role: ColorRole::SyntaxVariable },
        ScopeRule { source: "support.type.property-name"@, role: ColorRole::SyntaxVariable },
        ScopeRule { source: "variable"@, role: ColorRole::SyntaxVariable },
        ScopeRule { source: "entity.name.function"@, role: ColorRole::SyntaxFunction },
        ScopeRule { source: "support.function"@, role: ColorRole::SyntaxFunction },
        ScopeRule { source: "variable.function"@, role: ColorRole::SyntaxFunction },
        ScopeRule { source: "entity.name.type"@, role: ColorRole::SyntaxType },
        ScopeRule { source: "entity.name.class"@, role: ColorRole::SyntaxType },
        ScopeRule { source: "entity.name.struct"@, role: ColorRole::SyntaxType },
        ScopeRule { source: "entity.name.enum"@, role: ColorRole::SyntaxType },
        ScopeRule { source: "support.type"@, role: ColorRole::SyntaxType },
        ScopeRule { source: "support.class"@, role: ColorRole::SyntaxType },
        ScopeRule { source: "keyword - keyword.operator"@, role: ColorRole::SyntaxKeyword },
        ScopeRule { source: "storage"@, role: ColorRole::SyntaxDeclaration },
        ScopeRule { source: "keyword.declaration"@, role: ColorRole::SyntaxDeclaration },
        ScopeRule { source: "entity.name.tag"@, role: ColorRole::SyntaxDeclaration },
        ScopeRule { source: "constant.numeric"@, role: ColorRole::SyntaxNumber },
        ScopeRule { source: "string"@, role: ColorRole::SyntaxString },
        ScopeRule { source: "constant.other.symbol"@, role: ColorRole::SyntaxString },
        ScopeRule { source: "comment"@, role: ColorRole::SyntaxComment },
    ]
}

/// Whether `source` is one of the selectors that this library uses.
pub open spec fn is_built_in(source: Seq<char>) -> bool {
    exists|i: int| 0 <= i < scope_rules().len() && (#[trigger] scope_rules()[i]).source == source
}

/// `ScopeSelectors::from_str`: the selectors that the text describes. Reading fails where a
/// scope has more than eight atoms, which none of the built-in selectors has.
#[verifier::external_body]
fn parse_scope_selector(source: &str) -> (r: ScopeSelectors)
    requires
        is_built_in(source@),
    ensures
        selectors_source(r) == source@,
{
    ScopeSelectors::from_str(source).expect("built-in syntax selector must be valid")
}

/// `ScopeStack::len`: how many scopes hold.
#[verifier::external_body]
fn count_scopes(stack: &ScopeStack) -> (r: usize)
    ensures
        r == scope_depth(stack_changes(*stack)),
{
    stack.len()
}

/// `ScopeSelectors::does_match` of the first `count` scopes: whether the selectors match them. How
/// well they do is a floating-point number, of which nothing is kept.
/// Where there are too many scopes their places cannot be counted.
#[verifier::external_body]
fn matches_first(selectors: &ScopeSelectors, stack: &ScopeStack, count: usize) -> (r: bool)
    requires
        count <= scope_depth(stack_changes(*stack)),
        count <= MAX_SCOPES,
    ensures
        r == is_match(selectors_source(*selectors), stack_changes(*stack), count as int),
{
    selectors.does_match(&stack.as_slice()[..count]).is_some()
}

/// The strongest that a match can be. A match scores as many times eight to the power of its place
/// as its scope has atoms, and from two atoms at place 341 on that is beyond any floating-point
/// number: all such scores are alike.
pub const MAX_STRENGTH: u64 = 2730;

/// `strength`, or the strongest that there is.
pub open spec fn strength_capped(strength: int) -> int {
    if strength < MAX_STRENGTH {
        strength
    } else {
        MAX_STRENGTH as int
    }
}

/// How strong a match is: the one that stands deeper is stronger, and at the same place the one
/// with more atoms.
pub open spec fn strength_at(place: int, atoms: int) -> int {
    strength_capped(8 * place + atoms)
}

/// How strong a match at `place` of a scope with `atoms` atoms is.
pub fn match_strength(place: usize, atoms: u64) -> (r: u64)
    requires
        place <= MAX_SCOPES,
    ensures
        r == strength_at(place as int, atoms as int),
{
    if atoms >= MAX_STRENGTH {
        return MAX_STRENGTH;
    }
    let strength: u64 = 8 * place as u64 + atoms;
    if strength < MAX_STRENGTH {
        strength
    } else {
        MAX_STRENGTH
    }
}

/// What a match at `place` of a scope with `atoms` atoms scores.
pub open spec fn match_score(place: int, atoms: int) -> int {
    atoms * pow(8, place as nat)
}

proof fn lemma_deeper_scores_more(place: int, atoms: int, deeper: int, others: int)
    requires
        0 <= place < deeper,
        1 <= atoms < 8,
        1 <= others < 8,
    ensures
        match_score(place, atoms) < match_score(deeper, others),
{
    reveal(pow);
    let here = pow(8, place as nat);
    let next = pow(8, (place + 1) as nat);
    let there = pow(8, deeper as nat);
    lemma_pow_positive(8, place as nat);
    lemma_pow_increases(8, (place + 1) as nat, deeper as nat);
    assert(next == 8 * here);
    assert(atoms * here < 8 * here) by (nonlinear_arith)
        requires
            atoms < 8,
            here > 0,
    ;
    assert(there <= others * there) by (nonlinear_arith)
        requires
            1 <= others,
            there > 0,
    ;
}

proof fn lemma_scores_order(place: int, atoms: int, other_place: int, other_atoms: int)
    requires
        0 <= place,
        0 <= other_place,
        1 <= atoms < 8,
        1 <= other_atoms < 8,
    ensures
        8 * place + atoms <= 8 * other_place + other_atoms <==> match_score(place, atoms)
            <= match_score(other_place, other_atoms),
{
    if place < other_place {
        lemma_deeper_scores_more(place, atoms, other_place, other_atoms);
    } else if other_place < place {
        lemma_deeper_scores_more(other_place, other_atoms, place, atoms);
    } else {
        let unit = pow(8, place as nat);
        lemma_pow_positive(8, place as nat);
        assert(atoms <= other_atoms <==> atoms * unit <= other_atoms * unit) by (nonlinear_arith)
            requires
                unit > 0,
        ;
    }
}

/// Strengths order as scores do: a match is no stronger than another one if and only if it scores
/// no more, or the other one scores two to the power of 1024 or more, which nothing exceeds.
pub proof fn law_strengths_order_as_scores(
    place: int,
    atoms: int,
    other_place: int,
    other_atoms: int,
)
    requires
        0 <= place,
        0 <= other_place,
        1 <= atoms < 8,
        1 <= other_atoms < 8,
    ensures
        strength_at(place, atoms) <= strength_at(other_place, other_atoms) <==> {
            ||| match_score(place, atoms) <= match_score(other_place, other_atoms)
            ||| match_score(341, 2) <= match_score(other_place, other_atoms)
        },
{
    lemma_scores_order(place, atoms, other_place, other_atoms);
    lemma_scores_order(341, 2, other_place, other_atoms);
}

/// How many scopes it takes for the selectors that `source` describes to match, where `count` or
/// more are needed and all of `depth` are enough.
pub open spec fn match_end(
    source: Seq<char>,
    changes: Seq<ScopeStackOp>,
    count: int,
    depth: int,
) -> int
    decreases depth - count,
{
    if count >= depth || is_match(source, changes, count) {
        count
    } else {
        match_end(source, changes, count + 1, depth)
    }
}

/// How strongly `rule` matches the scopes that `changes` make, if it does. What counts is the
/// first scope that it matches.
pub open spec fn rule_strength(rule: ScopeRule, changes: Seq<ScopeStackOp>) -> Option<int> {
    let depth = scope_depth(changes) as int;
    if is_match(rule.source, changes, depth) {
        Some(strength_at(match_end(rule.source, changes, 1, depth) - 1, atoms_of(rule.source)))
    } else {
        None
    }
}

/// The best match so far, with the role that it stands for.
#[derive(Clone, Copy, Debug, PartialEq, Eq, Structural)]
pub struct Match {
    pub strength: u64,
    pub role: ColorRole,
}

/// The better of `best` and a match of `strength`, the latter where they are equal.
pub open spec fn better_match(best: Option<Match>, strength: Option<int>, role: ColorRole)
    -> Option<Match> {
    match strength {
        Some(value) => if best is None || value >= best->0.strength {
            Some(Match { strength: value as u64, role })
        } else {
            best
        },
        None => best,
    }
}

/// The best match of `rules` with the scopes that `changes` make. Of equally good ones the last
/// one wins.
pub open spec fn best_match(rules: Seq<ScopeRule>, changes: Seq<ScopeStackOp>) -> Option<Match>
    decreases rules.len(),
{
    if rules.len() == 0 {
        None
    } else {
        better_match(
            best_match(rules.drop_last(), changes),
            rule_strength(rules.last(), changes),
            rules.last().role,
        )
    }
}

/// The style of text under the scopes that `changes` make. Too many scopes match nothing.
pub open spec fn scope_style(changes: Seq<ScopeStackOp>) -> TextStyle {
    if scope_depth(changes) > MAX_SCOPES {
        colored_style(ColorRole::Primary)
    } else {
        match best_match(scope_rules(), changes) {
            Some(best) => colored_style(best.role),
            None => colored_style(ColorRole::Primary),
        }
    }
}

/// The strength of a match, as a number.
pub open spec fn strength_value(strength: Option<u64>) -> Option<int> {
    match strength {
        Some(value) => Some(value as int),
        None => None,
    }
}

/// The better of two matches, the second one where they are equal.
pub fn better(best: Option<Match>, strength: Option<u64>, role: ColorRole) -> (r: Option<Match>)
    ensures
        r == better_match(best, strength_value(strength), role),
{
    match (best, strength) {
        (_, None) => best,
        (None, Some(value)) => Some(Match { strength: value, role }),
        (Some(other), Some(value)) => if value >= other.strength {
            Some(Match { strength: value, role })
        } else {
            Some(other)
        },
    }
}

/// A rule by which code is coloured.
struct SyntaxRule {
    selectors: ScopeSelectors,
    atoms: u64,
    role: ColorRole,
}

impl SyntaxRule {
    spec fn rule(&self) -> ScopeRule {
        ScopeRule { source: selectors_source(self.selectors), role: self.role }
    }

    /// Whether the atoms have been counted.
    spec fn is_valid(&self) -> bool {
        self.atoms == strength_capped(atoms_of(selectors_source(self.selectors)))
    }

    /// How strongly the rule matches the scopes.
    fn strength(&self, stack: &ScopeStack) -> (r: Option<u64>)
        requires
            scope_depth(stack_changes(*stack)) <= MAX_SCOPES,
            self.is_valid(),
        ensures
            strength_value(r) == rule_strength(self.rule(), stack_changes(*stack)),
    {
        let depth = count_scopes(stack);
        if !matches_first(&self.selectors, stack, depth) {
            return None;
        }
        let ghost source = selectors_source(self.selectors);
        let ghost changes = stack_changes(*stack);
        let mut count: usize = 1;
        while count < depth && !matches_first(&self.selectors, stack, count)
            invariant
                depth == scope_depth(changes),
                depth <= MAX_SCOPES,
                source == selectors_source(self.selectors),
                changes == stack_changes(*stack),
                1 <= count <= depth || count == 1,
                match_end(source, changes, count as int, depth as int) == match_end(
                    source,
                    changes,
                    1,
                    depth as int,
                ),
            decreases depth - count,
        {
            count = count + 1;
        }
        Some(match_strength(count - 1, self.atoms))
    }
}

/// The rules by which code is coloured.
struct SyntaxSelectors {
    rules: Vec<SyntaxRule>,
}

impl SyntaxSelectors {
    spec fn rules(&self) -> Seq<ScopeRule> {
        self.rules@.map_values(|rule: SyntaxRule| rule.rule())
    }

    /// Whether the atoms of each have been counted.
    spec fn are_counted(&self) -> bool {
        forall|i: int| 0 <= i < self.rules@.len() ==> (#[trigger] self.rules@[i]).is_valid()
    }

    /// Whether these are the rules.
    spec fn is_valid(&self) -> bool {
        &&& self.rules() == scope_rules()
        &&& self.are_counted()
    }

    /// Adds the next of the rules.
    fn add(&mut self, source: &str, role: ColorRole)
        requires
            old(self).are_counted(),
            old(self).rules().len() < scope_rules().len(),
            scope_rules()[old(self).rules().len() as int] == (ScopeRule { source: source@, role }),
        ensures
            final(self).are_counted(),
            final(self).rules() == old(self).rules().push(ScopeRule { source: source@, role }),
    {
        let selectors = parse_scope_selector(source);
        let atoms = count_atoms(source);
        let ghost before = self.rules();
        let rule = SyntaxRule { selectors, atoms, role };
        let ghost added = rule.rule();
        self.rules.push(rule);
        assert(self.rules() =~= before.push(added));
    }

    fn new() -> (r: Self)
        ensures
            r.is_valid(),
    {
        let mut all = SyntaxSelectors { rules: Vec::new() };
        assert(all.rules() =~= Seq::empty());
        all.add("constant", ColorRole::SyntaxConstant);
        all.add("support.constant", ColorRole::SyntaxConstant);
        all.add("entity.other.attribute-name", ColorRole::SyntaxVariable);
        all.add("support.type.property-name", ColorRole::SyntaxVariable);
        all.add("variable", ColorRole::SyntaxVariable);
        all.add("entity.name.function", ColorRole::SyntaxFunction);
        all.add("support.function", ColorRole::SyntaxFunction);
        all.add("variable.function", ColorRole::SyntaxFunction);
        all.add("entity.name.type", ColorRole::SyntaxType);
        all.add("entity.name.class", ColorRole::SyntaxType);
        all.add("entity.name.struct", ColorRole::SyntaxType);
        all.add("entity.name.enum", ColorRole::SyntaxType);
        all.add("support.type", ColorRole::SyntaxType);
        all.add("support.class", ColorRole::SyntaxType);
        all.add("keyword - keyword.operator", ColorRole::SyntaxKeyword);
        all.add("storage", ColorRole::SyntaxDeclaration);
        all.add("keyword.declaration", ColorRole::SyntaxDeclaration);
        all.add("entity.name.tag", ColorRole::SyntaxDeclaration);
        all.add("constant.numeric", ColorRole::SyntaxNumber);
        all.add("string", ColorRole::SyntaxString);
        all.add("constant.other.symbol", ColorRole::SyntaxString);
        all.add("comment", ColorRole::SyntaxComment);
        assert(all.rules() =~= scope_rules());
        all
    }

    fn style(&self, stack: &ScopeStack) -> (r: TextStyle)
        requires
            self.is_valid(),
        ensures
            r == scope_style(stack_changes(*stack)),
    {
        if count_scopes(stack) > MAX_SCOPES {
            return TextStyle::colored(ColorRole::Primary);
        }
        let mut best: Option<Match> = None;
        let ghost changes = stack_changes(*stack);
        for i in 0..self.rules.len()
            invariant
                self.is_valid(),
                changes == stack_changes(*stack),
                scope_depth(changes) <= MAX_SCOPES,
                best == best_match(self.rules().take(i as int), changes),
        {
            assert(self.rules().take(i + 1).drop_last() =~= self.rules().take(i as int));
            assert(self.rules().take(i + 1).last() == self.rules@[i as int].rule());
            best = better(best, self.rules[i].strength(stack), self.rules[i].role);
        }
        assert(self.rules().take(self.rules@.len() as int) =~= self.rules());
        match best {
            Some(found) => TextStyle::colored(found.role),
            None => TextStyle::colored(ColorRole::Primary),
        }
    }
}

/// The bundled syntaxes, loaded.
pub struct Syntaxes {
    set: SyntaxSet,
}

impl Syntaxes {
    #[verifier::type_invariant]
    spec fn is_valid(self) -> bool {
        is_bundled(self.set)
    }

    /// Whether these are the bundled syntaxes.
    pub closed spec fn are_bundled(&self) -> bool {
        is_bundled(self.set)
    }

    /// Loads the bundled syntaxes.
    pub fn load() -> (r: Self)
        ensures
            r.are_bundled(),
    {
        Syntaxes { set: load_syntaxes() }
    }

    /// Whether there is a syntax that goes by `token`.
    pub fn knows(&self, token: &str) -> (r: bool)
        ensures
            r == known_syntax(token@) is Some,
    {
        proof {
            use_type_invariant(self);
        }
        find_syntax(&self.set, token).is_some()
    }
}

/// Whether `c` decorates the name of a language.
pub open spec fn is_fence_mark(c: char) -> bool {
    c == '{' || c == '}' || c == '.'
}

/// `s` without the marks at its start.
pub open spec fn marks_skipped(s: Seq<char>) -> Seq<char>
    decreases s.len(),
{
    if s.len() > 0 && is_fence_mark(s[0]) {
        marks_skipped(s.drop_first())
    } else {
        s
    }
}

/// `s` without the marks at its end.
pub open spec fn marks_dropped(s: Seq<char>) -> Seq<char>
    decreases s.len(),
{
    if s.len() > 0 && is_fence_mark(s.last()) {
        marks_dropped(s.drop_last())
    } else {
        s
    }
}

/// How many characters of `s` stand before its first comma.
pub open spec fn comma_position(s: Seq<char>) -> nat
    decreases s.len(),
{
    if s.len() == 0 || s[0] == ',' {
        0
    } else {
        1 + comma_position(s.drop_first())
    }
}

/// What a language is commonly called, and the token that the syntaxes know it by.
pub open spec fn alias_of(name: Seq<char>) -> Seq<char> {
    if name == "c++"@ || name == "cplusplus"@ {
        "cpp"@
    } else if name == "csharp"@ {
        "cs"@
    } else if name == "golang"@ {
        "go"@
    } else if name == "javascript"@ {
        "js"@
    } else if name == "markdown"@ {
        "md"@
    } else if name == "python"@ {
        "py"@
    } else if name == "ruby"@ {
        "rb"@
    } else if name == "rust"@ {
        "rs"@
    } else if name == "shell"@ || name == "zsh"@ {
        "bash"@
    } else if name == "typescript"@ {
        "ts"@
    } else if name == "yaml"@ {
        "yml"@
    } else {
        name
    }
}

/// The name of a language without what decorates it, up to its first comma.
pub open spec fn bare_language(language: Seq<char>) -> Seq<char> {
    let name = marks_dropped(marks_skipped(trimmed(language)));
    name.take(comma_position(name) as int)
}

/// The token of `language`.
pub open spec fn language_token(language: Seq<char>) -> Seq<char> {
    alias_of(lowered(bare_language(language)))
}

/// The token that the syntaxes know a language by.
fn alias_text(name: String) -> (r: String)
    ensures
        r@ == alias_of(name@),
{
    if same_text(&name, "c++") || same_text(&name, "cplusplus") {
        "cpp".to_owned()
    } else if same_text(&name, "csharp") {
        "cs".to_owned()
    } else if same_text(&name, "golang") {
        "go".to_owned()
    } else if same_text(&name, "javascript") {
        "js".to_owned()
    } else if same_text(&name, "markdown") {
        "md".to_owned()
    } else if same_text(&name, "python") {
        "py".to_owned()
    } else if same_text(&name, "ruby") {
        "rb".to_owned()
    } else if same_text(&name, "rust") {
        "rs".to_owned()
    } else if same_text(&name, "shell") || same_text(&name, "zsh") {
        "bash".to_owned()
    } else if same_text(&name, "typescript") {
        "ts".to_owned()
    } else if same_text(&name, "yaml") {
        "yml".to_owned()
    } else {
        name
    }
}

/// The token of a language, as it is written behind a fence.
pub fn normalized_language_token(language: &str) -> (r: String)
    ensures
        r@ == language_token(language@),
{
    let chars = trim_chars(&chars_of(language));
    let mut start: usize = 0;
    assert(chars@.skip(0) =~= chars@);
    while start < chars.len() && matches!(chars[start], '{' | '}' | '.')
        invariant
            start <= chars@.len(),
            marks_skipped(chars@.skip(start as int)) == marks_skipped(chars@),
        decreases chars@.len() - start,
    {
        assert(chars@.skip(start as int)[0] == chars@[start as int]);
        assert(chars@.skip(start as int).drop_first() =~= chars@.skip(start + 1));
        start = start + 1;
    }
    let ghost kept = chars@.skip(start as int);
    assert(marks_skipped(kept) == kept) by {
        if start < chars@.len() {
            assert(kept[0] == chars@[start as int]);
        }
    }
    let mut end = chars.len();
    assert(chars@.subrange(start as int, end as int) =~= kept);
    while end > start && matches!(chars[end - 1], '{' | '}' | '.')
        invariant
            start <= end <= chars@.len(),
            marks_dropped(chars@.subrange(start as int, end as int)) == marks_dropped(kept),
        decreases end,
    {
        let ghost part = chars@.subrange(start as int, end as int);
        assert(part.last() == chars@[end - 1]);
        assert(part.drop_last() =~= chars@.subrange(start as int, end - 1));
        end = end - 1;
    }
    let ghost name = chars@.subrange(start as int, end as int);
    assert(marks_dropped(name) == name) by {
        if end > start {
            assert(name.last() == chars@[end - 1]);
        }
    }
    let mut comma = start;
    assert(name.skip(0) =~= name);
    while comma < end && chars[comma] != ','
        invariant
            start <= comma <= end <= chars@.len(),
            name == chars@.subrange(start as int, end as int),
            comma - start + comma_position(name.skip(comma - start)) == comma_position(name),
        decreases end - comma,
    {
        assert(name.skip(comma - start)[0] == chars@[comma as int]);
        assert(name.skip(comma - start).drop_first() =~= name.skip(comma + 1 - start));
        comma = comma + 1;
    }
    assert(comma_position(name.skip(comma - start)) == 0) by {
        if comma < end {
            assert(name.skip(comma - start)[0] == chars@[comma as int]);
        }
    }
    assert(chars@.subrange(start as int, comma as int) =~= name.take(comma - start));
    let bare = text_range(&chars, start, comma);
    alias_text(lowered_text(&bare))
}

/// What `regions` come to behind `literal`, each under the scopes that hold there, and the
/// changes of scopes by then. Nothing where a change is not applicable.
pub open spec fn regions_laid(
    literal: Literal,
    changes: Seq<ScopeStackOp>,
    regions: Seq<(Seq<char>, ScopeStackOp)>,
) -> Option<(Literal, Seq<ScopeStackOp>)>
    decreases regions.len(),
{
    if regions.len() == 0 {
        Some((literal, changes))
    } else {
        let (text, change) = regions[0];
        let now = changes.push(change);
        if !is_applicable(now) {
            None
        } else if text.len() == 0 {
            regions_laid(literal, now, regions.drop_first())
        } else {
            regions_laid(
                clusters_laid(literal, clusters(text), scope_style(now)),
                now,
                regions.drop_first(),
            )
        }
    }
}

/// The changes of scopes by which the last of `lines` is cut. Nothing where the line is too long,
/// where the syntax is broken or where the changes are out of order.
pub open spec fn cuts_of_line(syntax: SyntaxReference, lines: Seq<Seq<char>>) -> Option<
    Seq<(usize, ScopeStackOp)>,
> {
    if lines.last().len() > MAX_LINE {
        None
    } else {
        match line_changes(syntax, lines) {
            None => None,
            Some(cuts) => if are_ordered(cuts) {
                Some(cuts)
            } else {
                None
            },
        }
    }
}

/// What the lines `rest` come to behind `literal`, in `syntax`, where `seen` are
/// the lines before them and `changes` the changes of scopes by then.
pub open spec fn lines_laid(
    literal: Literal,
    changes: Seq<ScopeStackOp>,
    syntax: SyntaxReference,
    seen: Seq<Seq<char>>,
    rest: Seq<Seq<char>>,
) -> Option<Literal>
    decreases rest.len(),
{
    if rest.len() == 0 {
        Some(literal)
    } else {
        let now = seen.push(rest[0]);
        match cuts_of_line(syntax, now) {
            None => None,
            Some(cuts) => match regions_laid(literal, changes, cut_regions(cuts, rest[0])) {
                None => None,
                Some((next, after)) => lines_laid(next, after, syntax, now, rest.drop_first()),
            },
        }
    }
}

/// The lines of code in the colours of its language, or nothing where the language is not known,
/// its syntax is broken or a line is too long.
pub open spec fn highlighted(content: Seq<char>, language: Seq<char>, width: int) -> Option<
    Seq<Seq<SpanText>>,
> {
    let token = language_token(language);
    if token.len() == 0 {
        None
    } else {
        match known_syntax(token) {
            None => None,
            Some(syntax) => match lines_laid(
                literal_start(width),
                Seq::empty(),
                syntax,
                Seq::empty(),
                source_lines(content),
            ) {
                None => None,
                Some(literal) => Some(literal_lines(literal, ends_with_break(content))),
            },
        }
    }
}

/// Lays out the regions of one line behind what there is.
fn push_regions(
    layout: &mut LiteralLayout,
    stack: &mut ScopeStack,
    regions: &Vec<(String, ScopeStackOp)>,
    selectors: &SyntaxSelectors,
) -> (r: bool)
    requires
        old(layout).is_valid(),
        selectors.is_valid(),
    ensures
        final(layout).is_valid(),
        r == regions_laid(
            old(layout)@,
            stack_changes(*old(stack)),
            regions_view(regions@),
        ) is Some,
        r ==> regions_laid(old(layout)@, stack_changes(*old(stack)), regions_view(regions@))
            == Some((final(layout)@, stack_changes(*final(stack)))),
{
    let ghost all = regions_view(regions@);
    let ghost start = regions_laid(layout@, stack_changes(*stack), all);
    assert(all.skip(0) =~= all);
    for i in 0..regions.len()
        invariant
            all == regions_view(regions@),
            layout.is_valid(),
            selectors.is_valid(),
            start == regions_laid(layout@, stack_changes(*stack), all.skip(i as int)),
            start == regions_laid(old(layout)@, stack_changes(*old(stack)), all),
    {
        assert(all.skip(i as int)[0] == (regions@[i as int].0@, regions@[i as int].1));
        assert(all.skip(i as int).drop_first() =~= all.skip(i + 1));
        if !apply_change(stack, &regions[i].1) {
            return false;
        }
        if !regions[i].0.as_str().is_empty() {
            layout.push(&regions[i].0, selectors.style(stack));
        }
    }
    true
}

/// What code comes to in `syntax`.
spec fn code_laid(content: Seq<char>, syntax: SyntaxReference, width: int) -> Option<Literal> {
    lines_laid(
        literal_start(width),
        Seq::empty(),
        syntax,
        Seq::empty(),
        source_lines(content),
    )
}

/// Lays out code in the colours of its language with the syntaxes of `set`.
fn highlight_with(content: &str, token: &str, width: usize, set: &SyntaxSet) -> (r: Option<
    Vec<StyledLine>,
>)
    requires
        is_bundled(*set),
    ensures
        match r {
            Some(lines) => known_syntax(token@) is Some && code_laid(
                content@,
                known_syntax(token@)->0,
                width as int,
            ) is Some && lines_view(lines@) == literal_lines(
                code_laid(content@, known_syntax(token@)->0, width as int)->0,
                ends_with_break(content@),
            ),
            None => known_syntax(token@) is None || code_laid(
                content@,
                known_syntax(token@)->0,
                width as int,
            ) is None,
        },
{
    let syntax = match find_syntax(set, token) {
        Some(syntax) => syntax,
        None => return None,
    };
    let mut parser = ParseState::new(syntax);
    let selectors = SyntaxSelectors::new();
    let mut stack = ScopeStack::new();
    let mut layout = LiteralLayout::new(width);
    let lines = split_source_lines(content);
    let ghost all = texts_view(lines@);
    let ghost goal = code_laid(content@, *syntax, width as int);
    assert(all.skip(0) =~= all);
    for i in 0..lines.len()
        invariant
            is_bundled(*set),
            known_syntax(token@) == Some(*syntax),
            selectors.is_valid(),
            layout.is_valid(),
            all == texts_view(lines@),
            parser_input(parser).syntax == *syntax,
            goal == code_laid(content@, *syntax, width as int),
            goal == lines_laid(
                layout@,
                stack_changes(stack),
                *syntax,
                parser_input(parser).lines,
                all.skip(i as int),
            ),
    {
        assert(all.skip(i as int)[0] == lines@[i as int]@);
        assert(all.skip(i as int).drop_first() =~= all.skip(i + 1));
        if chars_of(&lines[i]).len() > MAX_LINE {
            return None;
        }
        let changes = match parse_line(&mut parser, &lines[i], set) {
            Some(changes) => changes,
            None => return None,
        };
        if !stand_in_order(&changes) {
            return None;
        }
        let regions = cut_line(&changes, &lines[i]);
        if !push_regions(&mut layout, &mut stack, &regions, &selectors) {
            return None;
        }
    }
    Some(layout.finish(ends_with_line_break(content)))
}

/// Lays out code in the colours of its language, with the syntaxes of `syntaxes` or, where there
/// are none, with ones that it loads.
pub fn highlight_code(
    content: &str,
    language: &str,
    width: usize,
    syntaxes: Option<&Syntaxes>,
) -> (r: Option<Vec<StyledLine>>)
    ensures
        match r {
            Some(lines) => highlighted(content@, language@, width as int) == Some(
                lines_view(lines@),
            ),
            None => highlighted(content@, language@, width as int) is None,
        },
{
    let token = normalized_language_token(language);
    if token.as_str().is_empty() {
        return None;
    }
    match syntaxes {
        Some(loaded) => {
            proof {
                use_type_invariant(loaded);
            }
            highlight_with(content, &token, width, &loaded.set)
        },
        None => {
            let set = load_syntaxes();
            highlight_with(content, &token, width, &set)
        },
    }
}

} // verus!
