//! Markdown sources: how strong emphasis next to East Asian text is made readable to the parser,
//! and the events that the parser finds.

use std::borrow::Cow;

use pulldown_cmark::DefaultBrokenLinkCallback;
use pulldown_cmark::Options;
use pulldown_cmark::Parser;
use vstd::prelude::*;

pub mod pairs;
pub mod settled;
pub mod spans;

use crate::agent_markdown_renderer::document::EventText;
use crate::text::chars_of;
use crate::text::find_from;
use crate::text::find_pattern;
use crate::text::is_alphanumeric_char;
use crate::text::is_white_space;
use crate::text::occurs_at;
use crate::text::pattern_at;
use crate::text::text_range;

verus! {

/// The character that is put between a marker of strong emphasis and the text beside it. The
/// parser takes it for white space, and it is never shown.
pub const CJK_EMPHASIS_SENTINEL: char = '\u{b}';

/// The extension for tables.
pub const TABLES: u32 = 2;

/// The extension for footnotes.
pub const FOOTNOTES: u32 = 4;

/// The extension for text that is struck out.
pub const STRIKETHROUGH: u32 = 8;

/// The extension for task lists.
pub const TASKLISTS: u32 = 16;

/// The extension for formulas.
pub const MATH: u32 = 1024;

/// The extension for alerts.
pub const ALERTS: u32 = 2048;

/// The extension for definition lists.
pub const DEFINITION_LIST: u32 = 4096;

/// The extension for superscripts.
pub const SUPERSCRIPT: u32 = 8192;

/// The extension for subscripts.
pub const SUBSCRIPT: u32 = 16384;

/// All extensions that a source may use. Each is a bit of its own.
pub const EXTENSIONS: u32 = TABLES + FOOTNOTES + STRIKETHROUGH + TASKLISTS + MATH + ALERTS
    + DEFINITION_LIST + SUPERSCRIPT + SUBSCRIPT;

/// The extensions of the parser that are switched on.
#[verifier::external_type_specification]
#[verifier::external_body]
pub struct ExOptions(Options);

/// The callback that resolves no link.
#[verifier::external_type_specification]
#[verifier::external_body]
pub struct ExDefaultBrokenLinkCallback(DefaultBrokenLinkCallback);

/// The parser, over a source.
#[verifier::external_type_specification]
#[verifier::external_body]
#[verifier::reject_recursive_types(F)]
pub struct ExParser<'input, F>(Parser<'input, F>);

/// The bits of the extensions that are switched on.
pub uninterp spec fn option_bits(options: Options) -> u32;

/// The events of `source`, with the extensions of `bits` switched on.
pub uninterp spec fn source_events(source: Seq<char>, bits: u32) -> Seq<EventText>;

/// The events that `parser` is going to find.
pub uninterp spec fn parser_events(parser: Parser<'_>) -> Seq<EventText>;

/// `Options::from_bits_retain`: the extensions that have these bits.
#[verifier::external_body]
fn options_of(bits: u32) -> (r: Options)
    ensures
        option_bits(r) == bits,
{
    Options::from_bits_retain(bits)
}

/// `Parser::new_ext`: a parser over the source, which finds what the source and the extensions
/// make it find.
#[verifier::external_body]
fn new_parser<'a>(source: &'a str, options: Options) -> (r: Parser<'a>)
    ensures
        parser_events(r) == source_events(source@, option_bits(options)),
{
    Parser::new_ext(source, options)
}

/// The extensions that a source may use.
pub fn options() -> (r: Options)
    ensures
        option_bits(r) == EXTENSIONS,
{
    options_of(EXTENSIONS)
}

/// A parser over a Markdown source.
pub fn parser(markdown: &str) -> (r: Parser<'_>)
    ensures
        parser_events(r) == source_events(markdown@, EXTENSIONS),
{
    new_parser(markdown, options())
}

/// A marker of strong emphasis: where it stands, whether it can open or close by the standard
/// rules, and whether it can by the rules for East Asian text.
#[derive(Clone, Copy, Debug)]
pub struct StrongMarker {
    pub offset: usize,
    pub standard_open: bool,
    pub standard_close: bool,
    pub compatibility_open: bool,
    pub compatibility_close: bool,
}

/// What has opened a stretch of code: a character, how often it stood there, and whether it was
/// a fence.
#[derive(Clone, Copy, Debug)]
pub struct CodeDelimiter {
    pub mark: char,
    pub length: usize,
    pub fenced: bool,
}

/// Whether `c` is neither white space nor part of a word.
pub open spec fn is_punctuation(c: char) -> bool {
    !is_alphanumeric_char(c) && !is_white_space(c)
}

/// Whether `c` is a letter of a script of East Asia.
pub open spec fn is_cjk_char(c: char) -> bool {
    ||| '\u{1100}' <= c <= '\u{11ff}'
    ||| '\u{3040}' <= c <= '\u{30ff}'
    ||| '\u{3100}' <= c <= '\u{312f}'
    ||| '\u{3400}' <= c <= '\u{4dbf}'
    ||| '\u{4e00}' <= c <= '\u{9fff}'
    ||| '\u{ac00}' <= c <= '\u{d7af}'
    ||| '\u{f900}' <= c <= '\u{faff}'
    ||| '\u{20000}' <= c <= '\u{2fa1f}'
}

/// How often `c` stands at `from` and directly behind it.
pub open spec fn run_length(text: Seq<char>, from: int, c: char) -> int
    decreases text.len() - from,
{
    if 0 <= from < text.len() && text[from] == c {
        1 + run_length(text, from + 1, c)
    } else {
        0
    }
}

/// How many backslashes stand directly before `index`.
pub open spec fn backslashes_before(text: Seq<char>, index: int) -> nat
    decreases index,
{
    if 0 < index <= text.len() && text[index - 1] == '\\' {
        1 + backslashes_before(text, index - 1)
    } else {
        0
    }
}

/// Where the line that holds `index` begins.
pub open spec fn line_start(text: Seq<char>, index: int) -> int
    decreases index,
{
    if index <= 0 {
        0
    } else if text[index - 1] == '\n' {
        index
    } else {
        line_start(text, index - 1)
    }
}

/// Where the word that ends before `index` begins, in the line that begins at `from`.
pub open spec fn word_start(text: Seq<char>, from: int, index: int) -> int
    decreases index,
{
    if index <= from || index <= 0 {
        from
    } else if is_white_space(text[index - 1]) {
        index
    } else {
        word_start(text, from, index - 1)
    }
}

/// The last position in `s` up to `at` at which `pattern` stands.
pub open spec fn rfind_upto(s: Seq<char>, pattern: Seq<char>, at: int) -> Option<int>
    decreases at + 1,
{
    if at < 0 {
        None
    } else if occurs_at(s, pattern, at) {
        Some(at)
    } else {
        rfind_upto(s, pattern, at - 1)
    }
}

/// The last position in `s` at which `pattern` stands.
pub open spec fn rfind(s: Seq<char>, pattern: Seq<char>) -> Option<int> {
    rfind_upto(s, pattern, s.len() as int)
}

/// Whether at most three spaces and nothing else stand before `index` in its line.
pub open spec fn at_fence_position(text: Seq<char>, index: int) -> bool {
    let start = line_start(text, index);
    index - start <= 3 && forall|i: int| start <= i < index ==> #[trigger] text[i] == ' '
}

/// Whether `index` is inside of an address, or between the parentheses of a link.
pub open spec fn in_link_target(text: Seq<char>, index: int) -> bool {
    let start = line_start(text, index);
    let line = text.subrange(start, index);
    let word = text.subrange(word_start(text, start, index), index);
    let open = rfind(line, "]("@);
    let close = rfind(line, ")"@);
    find_from(word, "://"@, 0) is Some || (open is Some && (close is None || open->0 > close->0))
}

/// Whether two asterisks, and no more, stand at `at`, neither escaped nor in the target of a link.
pub open spec fn is_strong_marker(text: Seq<char>, at: int) -> bool {
    &&& occurs_at(text, "**"@, at)
    &&& at == 0 || text[at - 1] != '*'
    &&& at + 2 == text.len() || text[at + 2] != '*'
    &&& backslashes_before(text, at) % 2 != 1
    &&& !in_link_target(text, at)
}

/// The model of a marker.
#[verifier::ext_equal]
pub struct MarkerText {
    pub at: int,
    pub standard_open: bool,
    pub standard_close: bool,
    pub compatibility_open: bool,
    pub compatibility_close: bool,
}

impl View for StrongMarker {
    type V = MarkerText;

    open spec fn view(&self) -> MarkerText {
        MarkerText {
            at: self.offset as int,
            standard_open: self.standard_open,
            standard_close: self.standard_close,
            compatibility_open: self.compatibility_open,
            compatibility_close: self.compatibility_close,
        }
    }
}

/// The models of markers.
pub open spec fn markers_view(markers: Seq<StrongMarker>) -> Seq<MarkerText> {
    markers.map_values(|marker: StrongMarker| marker@)
}

/// Whether `c` is white space, as are the ends of the text.
pub open spec fn is_space_or_end(c: Option<char>) -> bool {
    c is None || is_white_space(c->0)
}

/// Whether there is a `c`, and it is punctuation.
pub open spec fn is_some_punctuation(c: Option<char>) -> bool {
    c is Some && is_punctuation(c->0)
}

/// Whether there is a `c`, and it is a letter of a script of East Asia.
pub open spec fn is_some_cjk(c: Option<char>) -> bool {
    c is Some && is_cjk_char(c->0)
}

/// The marker at `at` between `previous` and `next`. By the standard rules it opens if it does
/// not stand before white space, and before punctuation only behind white space or punctuation;
/// it closes if the same holds the other way round. Between East Asian text and punctuation it
/// opens or closes anyway.
pub open spec fn marker_between(at: int, previous: Option<char>, next: Option<char>) -> MarkerText {
    MarkerText {
        at,
        standard_open: !is_space_or_end(next) && (!is_some_punctuation(next) || is_space_or_end(
            previous,
        ) || is_some_punctuation(previous)),
        standard_close: !is_space_or_end(previous) && (!is_some_punctuation(previous)
            || is_space_or_end(next) || is_some_punctuation(next)),
        compatibility_open: is_some_cjk(previous) && is_some_punctuation(next),
        compatibility_close: is_some_punctuation(previous) && is_some_cjk(next),
    }
}

/// The marker that stands at `at`.
pub open spec fn marker_at(text: Seq<char>, at: int) -> MarkerText {
    marker_between(
        at,
        if at > 0 {
            Some(text[at - 1])
        } else {
            None
        },
        if at + 2 < text.len() {
            Some(text[at + 2])
        } else {
            None
        },
    )
}

/// Whether `marker` can open or close anything.
pub open spec fn is_useful(marker: MarkerText) -> bool {
    ||| marker.standard_open
    ||| marker.standard_close
    ||| marker.compatibility_open
    ||| marker.compatibility_close
}

/// Whether a run of `length` times `mark` ends what `delimiter` has begun.
pub open spec fn closes_code(delimiter: CodeDelimiter, mark: char, length: int, fence: bool) -> bool {
    delimiter.mark == mark && if delimiter.fenced {
        fence && length >= delimiter.length
    } else {
        length == delimiter.length
    }
}

/// Whether a run of `length` times `mark` begins code.
pub open spec fn opens_code(mark: char, length: int, fence: bool) -> bool {
    mark == '`' || (mark == '~' && fence && length >= 3)
}

/// The markers of `text` from `from` on, where `code` is the code that `from` stands in.
pub open spec fn markers_from(text: Seq<char>, from: int, code: Option<CodeDelimiter>) -> Seq<
    MarkerText,
>
    decreases text.len() - from,
{
    if from < 0 || from >= text.len() {
        Seq::empty()
    } else {
        let c = text[from];
        let length = run_length(text, from, c);
        let fence = at_fence_position(text, from);
        proof {
            lemma_run_length(text, from, c);
        }
        if (c == '`' || c == '~') && code is Some {
            if closes_code(code->0, c, length, fence) {
                markers_from(text, from + length, None)
            } else {
                markers_from(text, from + length, code)
            }
        } else if opens_code(c, length, fence) && code is None {
            markers_from(
                text,
                from + length,
                Some(
                    CodeDelimiter {
                        mark: c,
                        length: length as usize,
                        fenced: fence && length >= 3,
                    },
                ),
            )
        } else if code is Some {
            markers_from(text, from + 1, code)
        } else if is_strong_marker(text, from) {
            proof {
                reveal_strlit("**");
            }
            if is_useful(marker_at(text, from)) {
                seq![marker_at(text, from)] + markers_from(text, from + 2, None)
            } else {
                markers_from(text, from + 2, None)
            }
        } else {
            markers_from(text, from + 1, None)
        }
    }
}

/// A run is no longer than the text, and not empty where it begins.
pub proof fn lemma_run_length(text: Seq<char>, from: int, c: char)
    requires
        0 <= from <= text.len(),
    ensures
        0 <= run_length(text, from, c) <= text.len() - from,
        from < text.len() && text[from] == c ==> run_length(text, from, c) > 0,
    decreases text.len() - from,
{
    if from < text.len() && text[from] == c {
        lemma_run_length(text, from + 1, c);
    }
}

/// Whether `c` is a letter of a script of East Asia.
fn is_cjk(c: char) -> (r: bool)
    ensures
        r == is_cjk_char(c),
{
    matches!(
        c,
        '\u{1100}'..='\u{11ff}' | '\u{3040}'..='\u{30ff}' | '\u{3100}'..='\u{312f}'
            | '\u{3400}'..='\u{4dbf}' | '\u{4e00}'..='\u{9fff}' | '\u{ac00}'..='\u{d7af}'
            | '\u{f900}'..='\u{faff}' | '\u{20000}'..='\u{2fa1f}'
    )
}

/// Whether `c` is neither white space nor part of a word.
fn is_punctuation_like(c: char) -> (r: bool)
    ensures
        r == is_punctuation(c),
{
    !c.is_alphanumeric() && !c.is_whitespace()
}

/// Whether the character at `index` is escaped by a backslash.
fn is_escaped(chars: &[char], index: usize) -> (r: bool)
    requires
        index <= chars@.len(),
    ensures
        r == (backslashes_before(chars@, index as int) % 2 == 1),
{
    let mut odd = false;
    let mut at = index;
    while at > 0 && chars[at - 1] == '\\'
        invariant
            at <= index <= chars@.len(),
            (backslashes_before(chars@, index as int) % 2 == 1) == (odd != (backslashes_before(
                chars@,
                at as int,
            ) % 2 == 1)),
        decreases at,
    {
        at = at - 1;
        odd = !odd;
    }
    odd
}

/// Where the line that holds `index` begins.
fn find_line_start(chars: &[char], index: usize) -> (r: usize)
    requires
        index <= chars@.len(),
    ensures
        r <= index,
        r == line_start(chars@, index as int),
{
    let mut at = index;
    while at > 0 && chars[at - 1] != '\n'
        invariant
            at <= index <= chars@.len(),
            line_start(chars@, at as int) == line_start(chars@, index as int),
        decreases at,
    {
        at = at - 1;
    }
    at
}

/// Whether at most three spaces and nothing else stand before `index` in its line.
fn is_fence_position(chars: &[char], index: usize) -> (r: bool)
    requires
        index <= chars@.len(),
    ensures
        r == at_fence_position(chars@, index as int),
{
    let start = find_line_start(chars, index);
    if index - start > 3 {
        return false;
    }
    for i in start..index
        invariant
            start == line_start(chars@, index as int),
            start <= index <= chars@.len(),
            forall|j: int| start <= j < i ==> #[trigger] chars@[j] == ' ',
    {
        if chars[i] != ' ' {
            return false;
        }
    }
    true
}

/// The last position in `chars[from..to]` at which `pattern` stands, counted from `from`.
fn find_last(chars: &[char], pattern: &[char]) -> (r: Option<usize>)
    ensures
        match r {
            Some(at) => rfind(chars@, pattern@) == Some(at as int),
            None => rfind(chars@, pattern@) is None,
        },
{
    let mut at = chars.len();
    while !pattern_at(chars, pattern, at)
        invariant
            rfind(chars@, pattern@) == rfind_upto(chars@, pattern@, at as int),
        decreases at,
    {
        if at == 0 {
            assert(rfind_upto(chars@, pattern@, -1) is None);
            return None;
        }
        at = at - 1;
    }
    Some(at)
}

/// Whether `index` is inside of an address, or between the parentheses of a link.
fn inside_link_target(chars: &[char], index: usize) -> (r: bool)
    requires
        index <= chars@.len(),
    ensures
        r == in_link_target(chars@, index as int),
{
    let start = find_line_start(chars, index);
    let mut word = index;
    while word > start && !chars[word - 1].is_whitespace()
        invariant
            start <= word <= index <= chars@.len(),
            word_start(chars@, start as int, word as int) == word_start(
                chars@,
                start as int,
                index as int,
            ),
        decreases word,
    {
        word = word - 1;
    }
    let word_chars = vstd::slice::slice_subrange(chars, word, index);
    if find_pattern(word_chars, &chars_of("://"), 0).is_some() {
        return true;
    }
    let line = vstd::slice::slice_subrange(chars, start, index);
    let open = find_last(line, &chars_of("]("));
    let close = find_last(line, &chars_of(")"));
    match (open, close) {
        (None, _) => false,
        (Some(_), None) => true,
        (Some(first), Some(second)) => first > second,
    }
}

/// Whether two asterisks, and no more, stand at `at`, neither escaped nor in the target of a link.
fn is_marker_position(chars: &[char], at: usize) -> (r: bool)
    requires
        at < chars@.len(),
    ensures
        r == is_strong_marker(chars@, at as int),
{
    proof {
        reveal_strlit("**");
    }
    if !pattern_at(chars, &chars_of("**"), at) {
        return false;
    }
    if at > 0 && chars[at - 1] == '*' {
        return false;
    }
    if at + 2 < chars.len() && chars[at + 2] == '*' {
        return false;
    }
    !is_escaped(chars, at) && !inside_link_target(chars, at)
}

/// The marker at `at` between `previous` and `next`.
pub fn classify_marker(at: usize, previous: Option<char>, next: Option<char>) -> (r: StrongMarker)
    ensures
        r@ == marker_between(at as int, previous, next),
{
    let previous_space = match previous {
        Some(c) => c.is_whitespace(),
        None => true,
    };
    let next_space = match next {
        Some(c) => c.is_whitespace(),
        None => true,
    };
    let previous_punctuation = match previous {
        Some(c) => is_punctuation_like(c),
        None => false,
    };
    let next_punctuation = match next {
        Some(c) => is_punctuation_like(c),
        None => false,
    };
    let previous_cjk = match previous {
        Some(c) => is_cjk(c),
        None => false,
    };
    let next_cjk = match next {
        Some(c) => is_cjk(c),
        None => false,
    };
    StrongMarker {
        offset: at,
        standard_open: !next_space && (!next_punctuation || previous_space || previous_punctuation),
        standard_close: !previous_space && (!previous_punctuation || next_space || next_punctuation),
        compatibility_open: previous_cjk && next_punctuation,
        compatibility_close: previous_punctuation && next_cjk,
    }
}

/// How often the character at `from` stands there and directly behind it.
fn count_run(chars: &[char], from: usize) -> (r: usize)
    requires
        from < chars@.len(),
    ensures
        r == run_length(chars@, from as int, chars@[from as int]),
        0 < r <= chars@.len() - from,
{
    let c = chars[from];
    let mut at = from;
    while at < chars.len() && chars[at] == c
        invariant
            from <= at <= chars@.len(),
            at - from + run_length(chars@, at as int, c) == run_length(chars@, from as int, c),
        decreases chars@.len() - at,
    {
        at = at + 1;
    }
    proof {
        lemma_run_length(chars@, from as int, c);
    }
    at - from
}

/// The markers of strong emphasis of a text: those outside of code that can open or close
/// anything.
pub fn collect_strong_markers(chars: &[char]) -> (r: Vec<StrongMarker>)
    ensures
        markers_view(r@) == markers_from(chars@, 0, None),
{
    let mut markers: Vec<StrongMarker> = Vec::new();
    let mut code: Option<CodeDelimiter> = None;
    let mut cursor: usize = 0;
    assert(markers_view(markers@) + markers_from(chars@, 0, None) =~= markers_from(
        chars@,
        0,
        None,
    ));
    while cursor < chars.len()
        invariant
            cursor <= chars@.len(),
            markers_view(markers@) + markers_from(chars@, cursor as int, code) == markers_from(
                chars@,
                0,
                None,
            ),
        decreases chars@.len() - cursor,
    {
        let c = chars[cursor];
        if c == '`' || c == '~' {
            let length = count_run(chars, cursor);
            let fence = is_fence_position(chars, cursor);
            if let Some(delimiter) = code {
                let closes = delimiter.mark == c && if delimiter.fenced {
                    fence && length >= delimiter.length
                } else {
                    length == delimiter.length
                };
                if closes {
                    code = None;
                }
                cursor = cursor + length;
                continue ;
            }
            if c == '`' || (fence && length >= 3) {
                code = Some(CodeDelimiter { mark: c, length, fenced: fence && length >= 3 });
                cursor = cursor + length;
                continue ;
            }
        }
        if code.is_some() {
            cursor = cursor + 1;
            continue ;
        }
        if is_marker_position(chars, cursor) {
            proof {
                reveal_strlit("**");
            }
            let previous = if cursor > 0 {
                Some(chars[cursor - 1])
            } else {
                None
            };
            let next = if cursor + 2 < chars.len() {
                Some(chars[cursor + 2])
            } else {
                None
            };
            let marker = classify_marker(cursor, previous, next);
            assert(marker@ == marker_at(chars@, cursor as int));
            let ghost rest = markers_from(chars@, cursor + 2, None);
            let ghost before = markers_view(markers@);
            if marker.standard_open || marker.standard_close || marker.compatibility_open
                || marker.compatibility_close {
                markers.push(marker);
                assert(markers_view(markers@) =~= before.push(marker@));
                assert(before + (seq![marker@] + rest) =~= before.push(marker@) + rest);
            }
            cursor = cursor + 2;
        } else {
            cursor = cursor + 1;
        }
    }
    assert(markers_view(markers@) + Seq::<MarkerText>::empty() =~= markers_view(markers@));
    markers
}

/// Which markers have been paired: those that are still open, those before which a sentinel
/// goes, and those behind which one goes.
#[verifier::ext_equal]
pub struct Pairing {
    pub open: Seq<int>,
    pub before: Seq<bool>,
    pub after: Seq<bool>,
}

/// Whether `marker` opens only by the rules for East Asian text.
pub open spec fn opens_by_compatibility(marker: MarkerText) -> bool {
    !marker.standard_open && marker.compatibility_open
}

/// Whether `marker` closes only by the rules for East Asian text.
pub open spec fn closes_by_compatibility(marker: MarkerText) -> bool {
    !marker.standard_close && marker.compatibility_close
}

/// `pairing` after the marker `index`: it closes the last one that is open, or it opens.
pub open spec fn marker_paired(pairing: Pairing, markers: Seq<MarkerText>, index: int) -> Pairing {
    let marker = markers[index];
    if pairing.open.len() > 0 && (marker.standard_close || marker.compatibility_close) {
        let opening = pairing.open.last();
        Pairing {
            open: pairing.open.drop_last(),
            before: pairing.before.update(opening, opens_by_compatibility(markers[opening])),
            after: pairing.after.update(index, closes_by_compatibility(marker)),
        }
    } else if marker.standard_open || marker.compatibility_open {
        Pairing { open: pairing.open.push(index), ..pairing }
    } else {
        pairing
    }
}

/// The pairing of the first `count` of `markers`.
pub open spec fn pairing_of(markers: Seq<MarkerText>, count: int) -> Pairing
    decreases count,
{
    if count <= 0 {
        Pairing {
            open: Seq::empty(),
            before: Seq::new(markers.len(), |i: int| false),
            after: Seq::new(markers.len(), |i: int| false),
        }
    } else {
        marker_paired(pairing_of(markers, count - 1), markers, count - 1)
    }
}

/// One sentinel, or nothing.
pub open spec fn sentinel_if(wanted: bool) -> Seq<char> {
    if wanted {
        seq![CJK_EMPHASIS_SENTINEL]
    } else {
        Seq::empty()
    }
}

/// `text` from `from` on, with the sentinels of the markers from `index` on put in.
pub open spec fn marked_from(
    text: Seq<char>,
    markers: Seq<MarkerText>,
    pairing: Pairing,
    index: int,
    from: int,
) -> Seq<char>
    decreases markers.len() - index,
{
    if index < 0 || index >= markers.len() {
        text.skip(from)
    } else {
        let at = markers[index].at;
        text.subrange(from, at) + sentinel_if(pairing.before[index]) + "**"@ + sentinel_if(
            pairing.after[index],
        ) + marked_from(text, markers, pairing, index + 1, at + 2)
    }
}

/// `text` with sentinels beside those paired markers that only the rules for East Asian text
/// make open or close.
pub open spec fn normalized(text: Seq<char>) -> Seq<char> {
    let markers = markers_from(text, 0, None);
    marked_from(text, markers, pairing_of(markers, markers.len() as int), 0, 0)
}

/// Whether `markers` stand in `text` in order, from `from` on, without overlapping.
pub open spec fn are_in_order(text: Seq<char>, markers: Seq<MarkerText>, from: int) -> bool
    decreases markers.len(),
{
    markers.len() > 0 ==> from <= markers[0].at && occurs_at(text, "**"@, markers[0].at)
        && are_in_order(text, markers.drop_first(), markers[0].at + 2)
}

proof fn lemma_later(text: Seq<char>, markers: Seq<MarkerText>, near: int, far: int)
    requires
        near <= far,
        are_in_order(text, markers, far),
    ensures
        are_in_order(text, markers, near),
{
}

proof fn lemma_markers_in_order(text: Seq<char>, from: int, code: Option<CodeDelimiter>)
    requires
        0 <= from,
    ensures
        are_in_order(text, markers_from(text, from, code), from),
    decreases text.len() - from,
{
    if from < text.len() {
        let c = text[from];
        let length = run_length(text, from, c);
        let fence = at_fence_position(text, from);
        lemma_run_length(text, from, c);
        reveal_strlit("**");
        if (c == '`' || c == '~') && code is Some {
            let next = if closes_code(code->0, c, length, fence) {
                None
            } else {
                code
            };
            lemma_markers_in_order(text, from + length, next);
            lemma_later(text, markers_from(text, from + length, next), from, from + length);
        } else if opens_code(c, length, fence) && code is None {
            let next = Some(
                CodeDelimiter { mark: c, length: length as usize, fenced: fence && length >= 3 },
            );
            lemma_markers_in_order(text, from + length, next);
            lemma_later(text, markers_from(text, from + length, next), from, from + length);
        } else if code is Some {
            lemma_markers_in_order(text, from + 1, code);
            lemma_later(text, markers_from(text, from + 1, code), from, from + 1);
        } else if is_strong_marker(text, from) {
            let rest = markers_from(text, from + 2, None);
            lemma_markers_in_order(text, from + 2, None);
            if is_useful(marker_at(text, from)) {
                let all = seq![marker_at(text, from)] + rest;
                assert(all.drop_first() =~= rest);
            } else {
                lemma_later(text, rest, from, from + 2);
            }
        } else {
            lemma_markers_in_order(text, from + 1, None);
            lemma_later(text, markers_from(text, from + 1, None), from, from + 1);
        }
    }
}

proof fn lemma_pairing_lengths(markers: Seq<MarkerText>, count: int)
    requires
        count <= markers.len(),
    ensures
        pairing_of(markers, count).before.len() == markers.len(),
        pairing_of(markers, count).after.len() == markers.len(),
        forall|i: int|
            0 <= i < pairing_of(markers, count).open.len() ==> 0 <= #[trigger] pairing_of(
                markers,
                count,
            ).open[i] < larger_count(count),
    decreases count,
{
    if count > 0 {
        lemma_pairing_lengths(markers, count - 1);
    }
}

/// `count`, or nothing where it is negative.
spec fn larger_count(count: int) -> int {
    if count < 0 {
        0
    } else {
        count
    }
}

/// `s` without its sentinels.
pub open spec fn without_sentinels(s: Seq<char>) -> Seq<char>
    decreases s.len(),
{
    if s.len() == 0 {
        s
    } else if s.last() == CJK_EMPHASIS_SENTINEL {
        without_sentinels(s.drop_last())
    } else {
        without_sentinels(s.drop_last()).push(s.last())
    }
}

proof fn lemma_without_sentinels(a: Seq<char>, b: Seq<char>)
    ensures
        without_sentinels(a + b) == without_sentinels(a) + without_sentinels(b),
    decreases b.len(),
{
    if b.len() == 0 {
        assert(a + b =~= a);
        assert(without_sentinels(a) + without_sentinels(b) =~= without_sentinels(a));
    } else {
        lemma_without_sentinels(a, b.drop_last());
        assert((a + b).drop_last() =~= a + b.drop_last());
        assert((a + b).last() == b.last());
        assert(without_sentinels(a + b) =~= without_sentinels(a) + without_sentinels(b));
    }
}

proof fn lemma_sentinel(wanted: bool)
    ensures
        without_sentinels(sentinel_if(wanted)) == Seq::<char>::empty(),
{
    reveal_with_fuel(without_sentinels, 2);
    let s = sentinel_if(wanted);
    if wanted {
        assert(s.last() == CJK_EMPHASIS_SENTINEL);
        assert(s.drop_last() =~= Seq::empty());
    }
}

proof fn lemma_marked_from(
    text: Seq<char>,
    markers: Seq<MarkerText>,
    pairing: Pairing,
    index: int,
    from: int,
)
    requires
        0 <= index <= markers.len(),
        0 <= from <= text.len(),
        are_in_order(text, markers.skip(index), from),
    ensures
        without_sentinels(marked_from(text, markers, pairing, index, from)) == without_sentinels(
            text.skip(from),
        ),
    decreases markers.len() - index,
{
    reveal_strlit("**");
    if index < markers.len() {
        assert(markers.skip(index)[0] == markers[index]);
        assert(markers.skip(index).drop_first() =~= markers.skip(index + 1));
        let at = markers[index].at;
        let a = text.subrange(from, at);
        let b = sentinel_if(pairing.before[index]);
        let d = sentinel_if(pairing.after[index]);
        let rest = marked_from(text, markers, pairing, index + 1, at + 2);
        lemma_marked_from(text, markers, pairing, index + 1, at + 2);
        lemma_without_sentinels(a + b + "**"@ + d, rest);
        lemma_without_sentinels(a + b + "**"@, d);
        lemma_without_sentinels(a + b, "**"@);
        lemma_without_sentinels(a, b);
        lemma_sentinel(pairing.before[index]);
        lemma_sentinel(pairing.after[index]);
        let kept = without_sentinels(a) + without_sentinels("**"@);
        assert(without_sentinels(a) + without_sentinels(b) =~= without_sentinels(a));
        assert(kept + without_sentinels(d) =~= kept);
        lemma_without_sentinels(a, "**"@);
        lemma_without_sentinels(a + "**"@, text.skip(at + 2));
        assert(text.subrange(at, at + 2) == "**"@);
        assert(text.skip(from) =~= a + text.subrange(at, at + 2) + text.skip(at + 2));
    }
}

/// Making emphasis readable changes nothing but sentinels: without them the text is what it was.
pub proof fn law_normalizing_keeps_the_text(text: Seq<char>)
    ensures
        without_sentinels(normalized(text)) == without_sentinels(text),
{
    let markers = markers_from(text, 0, None);
    lemma_markers_in_order(text, 0, None);
    assert(markers.skip(0) =~= markers);
    lemma_marked_from(text, markers, pairing_of(markers, markers.len() as int), 0, 0);
    assert(text.skip(0) =~= text);
}

/// Whether any sentinel goes anywhere.
pub open spec fn is_marked(pairing: Pairing) -> bool {
    ||| exists|i: int| 0 <= i < pairing.before.len() && #[trigger] pairing.before[i]
    ||| exists|i: int| 0 <= i < pairing.after.len() && #[trigger] pairing.after[i]
}

proof fn lemma_unmarked(
    text: Seq<char>,
    markers: Seq<MarkerText>,
    pairing: Pairing,
    index: int,
    from: int,
)
    requires
        0 <= index <= markers.len(),
        0 <= from <= text.len(),
        are_in_order(text, markers.skip(index), from),
        pairing.before.len() == markers.len(),
        pairing.after.len() == markers.len(),
        !is_marked(pairing),
    ensures
        marked_from(text, markers, pairing, index, from) == text.skip(from),
    decreases markers.len() - index,
{
    reveal_strlit("**");
    if index < markers.len() {
        assert(markers.skip(index)[0] == markers[index]);
        assert(markers.skip(index).drop_first() =~= markers.skip(index + 1));
        let at = markers[index].at;
        lemma_unmarked(text, markers, pairing, index + 1, at + 2);
        assert(!pairing.before[index] && !pairing.after[index]);
        assert(text.subrange(at, at + 2) == "**"@);
        assert(marked_from(text, markers, pairing, index, from) =~= text.skip(from));
    }
}

spec fn are_standard(markers: Seq<MarkerText>) -> bool {
    forall|i: int|
        0 <= i < markers.len() ==> !(#[trigger] markers[i]).compatibility_open
            && !markers[i].compatibility_close
}

proof fn lemma_standard_markers(text: Seq<char>, from: int, code: Option<CodeDelimiter>)
    requires
        0 <= from,
        forall|i: int| 0 <= i < text.len() ==> !is_cjk_char(#[trigger] text[i]),
    ensures
        are_standard(markers_from(text, from, code)),
    decreases text.len() - from,
{
    if from < text.len() {
        let c = text[from];
        let length = run_length(text, from, c);
        let fence = at_fence_position(text, from);
        lemma_run_length(text, from, c);
        reveal_strlit("**");
        if (c == '`' || c == '~') && code is Some {
            lemma_standard_markers(text, from + length, None);
            lemma_standard_markers(text, from + length, code);
        } else if opens_code(c, length, fence) && code is None {
            lemma_standard_markers(
                text,
                from + length,
                Some(
                    CodeDelimiter { mark: c, length: length as usize, fenced: fence && length >= 3 },
                ),
            );
        } else if code is Some {
            lemma_standard_markers(text, from + 1, code);
        } else if is_strong_marker(text, from) {
            lemma_standard_markers(text, from + 2, None);
            assert(from > 0 ==> !is_cjk_char(text[from - 1]));
            assert(from + 2 < text.len() ==> !is_cjk_char(text[from + 2]));
        } else {
            lemma_standard_markers(text, from + 1, None);
        }
    }
}

proof fn lemma_standard_pairing(markers: Seq<MarkerText>, count: int)
    requires
        0 <= count <= markers.len(),
        are_standard(markers),
    ensures
        !is_marked(pairing_of(markers, count)),
    decreases count,
{
    if count > 0 {
        lemma_standard_pairing(markers, count - 1);
        lemma_pairing_lengths(markers, count - 1);
        let pairing = pairing_of(markers, count - 1);
        if pairing.open.len() > 0 {
            let opening = pairing.open[pairing.open.len() - 1];
            assert(!markers[opening].compatibility_open);
        }
        assert(!markers[count - 1].compatibility_close);
    }
}

/// A text without a letter of a script of East Asia stays as it is.
pub proof fn law_other_scripts_are_untouched(text: Seq<char>)
    requires
        forall|i: int| 0 <= i < text.len() ==> !is_cjk_char(#[trigger] text[i]),
    ensures
        normalized(text) == text,
{
    let markers = markers_from(text, 0, None);
    let pairing = pairing_of(markers, markers.len() as int);
    lemma_standard_markers(text, 0, None);
    lemma_standard_pairing(markers, markers.len() as int);
    lemma_pairing_lengths(markers, markers.len() as int);
    lemma_markers_in_order(text, 0, None);
    assert(markers.skip(0) =~= markers);
    lemma_unmarked(text, markers, pairing, 0, 0);
    assert(text.skip(0) =~= text);
}

/// Which of the markers a sentinel goes before, and which it goes behind.
fn pair_markers(markers: &Vec<StrongMarker>) -> (r: (Vec<bool>, Vec<bool>))
    ensures
        r.0@ == pairing_of(markers_view(markers@), markers@.len() as int).before,
        r.1@ == pairing_of(markers_view(markers@), markers@.len() as int).after,
{
    let ghost all = markers_view(markers@);
    let mut before: Vec<bool> = Vec::new();
    let mut after: Vec<bool> = Vec::new();
    for i in 0..markers.len()
        invariant
            before@ == Seq::new(i as nat, |j: int| false),
            after@ == Seq::new(i as nat, |j: int| false),
    {
        before.push(false);
        after.push(false);
        assert(before@ =~= Seq::new((i + 1) as nat, |j: int| false));
        assert(after@ =~= Seq::new((i + 1) as nat, |j: int| false));
    }
    let mut open: Vec<usize> = Vec::new();
    let ghost mut opened: Seq<int> = Seq::empty();
    assert(all.len() == markers@.len());
    for i in 0..markers.len()
        invariant
            all == markers_view(markers@),
            opened == open@.map_values(|index: usize| index as int),
            (Pairing { open: opened, before: before@, after: after@ }) == pairing_of(
                all,
                i as int,
            ),
    {
        proof {
            lemma_pairing_lengths(all, i as int);
        }
        let marker = &markers[i];
        assert(all[i as int] == marker@);
        if open.len() > 0 && (marker.standard_close || marker.compatibility_close) {
            let last = open[open.len() - 1];
            assert(pairing_of(all, i as int).open[opened.len() - 1] == last);
            assert(all[last as int] == markers@[last as int]@);
            open.pop();
            let opening = &markers[last];
            before.set(last, !opening.standard_open && opening.compatibility_open);
            after.set(i, !marker.standard_close && marker.compatibility_close);
            proof {
                opened = opened.drop_last();
            }
            assert(opened =~= open@.map_values(|index: usize| index as int));
        } else if marker.standard_open || marker.compatibility_open {
            open.push(i);
            proof {
                opened = opened.push(i as int);
            }
            assert(opened =~= open@.map_values(|index: usize| index as int));
        }
    }
    (before, after)
}

/// Whether one of the flags is set.
fn any_set(flags: &Vec<bool>) -> (r: bool)
    ensures
        r == exists|i: int| 0 <= i < flags@.len() && #[trigger] flags@[i],
{
    for i in 0..flags.len()
        invariant
            forall|j: int| 0 <= j < i ==> !#[trigger] flags@[j],
    {
        if flags[i] {
            return true;
        }
    }
    false
}

/// Puts sentinels beside those markers of strong emphasis that the parser would not take for
/// such next to East Asian text. A text that needs none is handed back as it is.
pub fn normalize_cjk_emphasis(markdown: &str) -> (r: Cow<'_, str>)
    ensures
        r@ == normalized(markdown@),
        r is Borrowed == !is_marked(
            pairing_of(
                markers_from(markdown@, 0, None),
                markers_from(markdown@, 0, None).len() as int,
            ),
        ),
{
    let chars = chars_of(markdown);
    let markers = collect_strong_markers(&chars);
    let (before, after) = pair_markers(&markers);
    let ghost text = chars@;
    let ghost all = markers_view(markers@);
    let ghost pairing = pairing_of(all, all.len() as int);
    proof {
        lemma_markers_in_order(text, 0, None);
        lemma_pairing_lengths(all, all.len() as int);
        assert(all.skip(0) =~= all);
        reveal_strlit("**");
    }
    if !any_set(&before) && !any_set(&after) {
        proof {
            lemma_unmarked(text, all, pairing, 0, 0);
            assert(text.skip(0) =~= text);
        }
        return Cow::Borrowed(markdown);
    }
    let mut output = String::new();
    let mut cursor: usize = 0;
    let size = chars.len();
    assert(output@ + marked_from(text, all, pairing, 0, 0) =~= normalized(text));
    for i in 0..markers.len()
        invariant
            text == chars@,
            all == markers_view(markers@),
            all == markers_from(text, 0, None),
            pairing == pairing_of(all, all.len() as int),
            before@ == pairing.before,
            after@ == pairing.after,
            before@.len() == markers@.len(),
            after@.len() == markers@.len(),
            cursor <= size == text.len(),
            are_in_order(text, all.skip(i as int), cursor as int),
            "**"@.len() == 2,
            output@ + marked_from(text, all, pairing, i as int, cursor as int) == normalized(text),
    {
        let at = markers[i].offset;
        assert(all.skip(i as int)[0] == markers@[i as int]@);
        assert(all.skip(i as int).drop_first() =~= all.skip(i + 1));
        assert(occurs_at(text, "**"@, at as int));
        let ghost start = output@;
        let ghost from = cursor as int;
        output.append(&text_range(&chars, cursor, at));
        if before[i] {
            output.push(CJK_EMPHASIS_SENTINEL);
        }
        output.append("**");
        if after[i] {
            output.push(CJK_EMPHASIS_SENTINEL);
        }
        cursor = at + 2;
        let ghost rest = marked_from(text, all, pairing, i + 1, cursor as int);
        assert(output@ + rest =~= start + marked_from(
            text,
            all,
            pairing,
            i as int,
            from,
        ));
    }
    output.append(&text_range(&chars, cursor, size));
    Cow::Owned(output)
}

} // verus!
