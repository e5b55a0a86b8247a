//! Inline content: styled pieces, and how they are broken into lines.

use vstd::prelude::*;

use crate::agent_markdown_renderer::measure::clusters;
use crate::agent_markdown_renderer::measure::graphemes;
use crate::agent_markdown_renderer::measure::text_width;
use crate::agent_markdown_renderer::style::merged_style;
use crate::agent_markdown_renderer::style::plain_style;
use crate::agent_markdown_renderer::style::ColorRole;
use crate::agent_markdown_renderer::style::TextStyle;
use crate::agent_markdown_renderer::styled::clamped;
use crate::agent_markdown_renderer::styled::line_end_trimmed;
use crate::agent_markdown_renderer::styled::line_width;
use crate::agent_markdown_renderer::styled::lines_view;
use crate::agent_markdown_renderer::styled::pushed;
use crate::agent_markdown_renderer::styled::span_columns;
use crate::agent_markdown_renderer::styled::spans_view;
use crate::agent_markdown_renderer::styled::trim_line_end;
use crate::agent_markdown_renderer::styled::SpanText;
use crate::agent_markdown_renderer::styled::StyledLine;
use crate::agent_markdown_renderer::styled::StyledSpan;
use crate::text::is_blank;
use crate::text::is_blank_text;
use crate::text::texts_view;

verus! {

/// The model of an inline piece.
#[verifier::ext_equal]
pub enum PieceText {
    Span(SpanText),
    SoftBreak,
    HardBreak,
}

/// A piece of inline content.
#[derive(Debug)]
pub enum InlinePiece {
    Span(StyledSpan),
    SoftBreak,
    HardBreak,
}

impl View for InlinePiece {
    type V = PieceText;

    open spec fn view(&self) -> PieceText {
        match self {
            InlinePiece::Span(span) => PieceText::Span(span@),
            InlinePiece::SoftBreak => PieceText::SoftBreak,
            InlinePiece::HardBreak => PieceText::HardBreak,
        }
    }
}

impl Clone for InlinePiece {
    fn clone(&self) -> (r: Self)
        ensures
            r@ == self@,
    {
        match self {
            InlinePiece::Span(span) => InlinePiece::Span(span.clone()),
            InlinePiece::SoftBreak => InlinePiece::SoftBreak,
            InlinePiece::HardBreak => InlinePiece::HardBreak,
        }
    }
}

/// The models of `pieces`.
pub open spec fn pieces_view(pieces: Seq<InlinePiece>) -> Seq<PieceText> {
    pieces.map_values(|piece: InlinePiece| piece@)
}

/// `pieces` with `text` behind them: nothing where `text` is empty, part of the last piece where
/// that is a span of the same style, a piece of its own otherwise.
pub open spec fn piece_pushed(pieces: Seq<PieceText>, text: Seq<char>, style: TextStyle) -> Seq<
    PieceText,
> {
    if text.len() == 0 {
        pieces
    } else if pieces.len() > 0 && pieces.last() is Span && pieces.last()->Span_0.style == style {
        pieces.drop_last().push(
            PieceText::Span(SpanText { text: pieces.last()->Span_0.text + text, style }),
        )
    } else {
        pieces.push(PieceText::Span(SpanText { text, style }))
    }
}

/// Puts `text` behind the pieces.
pub fn push_inline_span(output: &mut Vec<InlinePiece>, text: &str, style: TextStyle)
    ensures
        pieces_view(final(output)@) == piece_pushed(pieces_view(old(output)@), text@, style),
{
    if text.is_empty() {
        return;
    }
    let ghost before = pieces_view(output@);
    if output.len() > 0 {
        if let InlinePiece::Span(last) = &output[output.len() - 1] {
            if last.style == style {
                let mut joined = last.text.clone();
                joined.append(text);
                output.pop();
                output.push(InlinePiece::Span(StyledSpan { text: joined, style }));
                assert(pieces_view(output@) =~= piece_pushed(before, text@, style));
                return;
            }
        }
    }
    output.push(InlinePiece::Span(StyledSpan::new(text, style)));
    assert(pieces_view(output@) =~= piece_pushed(before, text@, style));
}

/// `output` with one more piece behind it, joined to the last where both are spans of a style.
pub open spec fn piece_added(output: Seq<PieceText>, piece: PieceText) -> Seq<PieceText> {
    match piece {
        PieceText::Span(span) => piece_pushed(output, span.text, span.style),
        other => output.push(other),
    }
}

/// `output` with `pieces` behind it.
pub open spec fn pieces_extended(output: Seq<PieceText>, pieces: Seq<PieceText>) -> Seq<PieceText>
    decreases pieces.len(),
{
    if pieces.len() == 0 {
        output
    } else {
        piece_added(pieces_extended(output, pieces.drop_last()), pieces.last())
    }
}

/// Puts `pieces` behind `output`.
pub fn extend_inline(output: &mut Vec<InlinePiece>, pieces: Vec<InlinePiece>)
    ensures
        pieces_view(final(output)@) == pieces_extended(
            pieces_view(old(output)@),
            pieces_view(pieces@),
        ),
{
    let ghost before = pieces_view(output@);
    let ghost all = pieces_view(pieces@);
    for i in 0..pieces.len()
        invariant
            all == pieces_view(pieces@),
            pieces_view(output@) == pieces_extended(before, all.take(i as int)),
    {
        let ghost now = pieces_view(output@);
        assert(all.take(i + 1).drop_last() =~= all.take(i as int));
        assert(all.take(i + 1).last() == pieces@[i as int]@);
        match &pieces[i] {
            InlinePiece::Span(span) => push_inline_span(output, &span.text, span.style),
            InlinePiece::SoftBreak => {
                output.push(InlinePiece::SoftBreak);
                assert(pieces_view(output@) =~= now.push(PieceText::SoftBreak));
            },
            InlinePiece::HardBreak => {
                output.push(InlinePiece::HardBreak);
                assert(pieces_view(output@) =~= now.push(PieceText::HardBreak));
            },
        }
    }
    assert(all.take(all.len() as int) =~= all);
}

/// `piece` with `overlay` laid over its style.
pub open spec fn restyled(piece: PieceText, overlay: TextStyle) -> PieceText {
    match piece {
        PieceText::Span(span) => PieceText::Span(
            SpanText { text: span.text, style: merged_style(span.style, overlay) },
        ),
        other => other,
    }
}

/// `pieces` with `overlay` laid over the style of each.
pub open spec fn all_restyled(pieces: Seq<PieceText>, overlay: TextStyle) -> Seq<PieceText> {
    pieces.map_values(|piece: PieceText| restyled(piece, overlay))
}

/// A copy of the pieces with `overlay` laid over the style of each.
pub fn apply_style(pieces: &Vec<InlinePiece>, overlay: TextStyle) -> (r: Vec<InlinePiece>)
    ensures
        pieces_view(r@) == all_restyled(pieces_view(pieces@), overlay),
{
    let mut r: Vec<InlinePiece> = Vec::new();
    let ghost all = all_restyled(pieces_view(pieces@), overlay);
    for i in 0..pieces.len()
        invariant
            all == all_restyled(pieces_view(pieces@), overlay),
            pieces_view(r@) == all.take(i as int),
    {
        let piece = match &pieces[i] {
            InlinePiece::Span(span) => InlinePiece::Span(
                StyledSpan { text: span.text.clone(), style: span.style.merged(overlay) },
            ),
            InlinePiece::SoftBreak => InlinePiece::SoftBreak,
            InlinePiece::HardBreak => InlinePiece::HardBreak,
        };
        let ghost before = pieces_view(r@);
        assert(piece@ == restyled(pieces@[i as int]@, overlay));
        r.push(piece);
        assert(pieces_view(r@) =~= before.push(piece@));
        assert(before.push(piece@) =~= all.take(i + 1));
    }
    assert(all.take(all.len() as int) =~= all);
    r
}

/// The model of a token.
#[verifier::ext_equal]
pub enum TokenText {
    Word(Seq<SpanText>),
    Space(TextStyle),
    HardBreak,
}

/// A token of inline content. The units of a word are single grapheme clusters.
#[derive(Debug)]
pub enum InlineToken {
    Word(Vec<StyledSpan>),
    Space(TextStyle),
    HardBreak,
}

impl View for InlineToken {
    type V = TokenText;

    open spec fn view(&self) -> TokenText {
        match self {
            InlineToken::Word(units) => TokenText::Word(spans_view(units@)),
            InlineToken::Space(style) => TokenText::Space(*style),
            InlineToken::HardBreak => TokenText::HardBreak,
        }
    }
}

/// The models of `tokens`.
pub open spec fn tokens_view(tokens: Seq<InlineToken>) -> Seq<TokenText> {
    tokens.map_values(|token: InlineToken| token@)
}

/// How far the tokens of a sequence of pieces have been found: the tokens, the word that is
/// being read, and whether white space came last.
#[verifier::ext_equal]
pub struct Scan {
    pub tokens: Seq<TokenText>,
    pub word: Seq<SpanText>,
    pub spaced: bool,
}

/// Whether `cluster` breaks the line.
pub open spec fn breaks_line(cluster: Seq<char>) -> bool {
    cluster.contains('\n') || cluster.contains('\r')
}

/// `scan` with the word that is being read ended.
pub open spec fn word_flushed(scan: Scan) -> Scan {
    if scan.word.len() == 0 {
        scan
    } else {
        Scan {
            tokens: scan.tokens.push(TokenText::Word(scan.word)),
            word: Seq::empty(),
            spaced: scan.spaced,
        }
    }
}

/// `scan` after a hard break.
pub open spec fn scan_broken(scan: Scan) -> Scan {
    let flushed = word_flushed(scan);
    Scan { tokens: flushed.tokens.push(TokenText::HardBreak), word: flushed.word, spaced: false }
}

/// `scan` after white space in `style`, of which only the first counts.
pub open spec fn scan_spaced(scan: Scan, style: TextStyle) -> Scan {
    let flushed = word_flushed(scan);
    Scan {
        tokens: if scan.spaced {
            flushed.tokens
        } else {
            flushed.tokens.push(TokenText::Space(style))
        },
        word: flushed.word,
        spaced: true,
    }
}

/// `scan` after a grapheme cluster in `style`: a line break, white space, or a unit of a word.
/// In code, white space is a unit like any other.
pub open spec fn cluster_scanned(scan: Scan, cluster: Seq<char>, style: TextStyle) -> Scan {
    if breaks_line(cluster) {
        scan_broken(scan)
    } else if is_blank(cluster) && style.color != ColorRole::Code {
        scan_spaced(scan, style)
    } else {
        Scan {
            tokens: scan.tokens,
            word: scan.word.push(SpanText { text: cluster, style }),
            spaced: false,
        }
    }
}

/// `scan` after the grapheme clusters `parts` in `style`.
pub open spec fn clusters_scanned(scan: Scan, parts: Seq<Seq<char>>, style: TextStyle) -> Scan
    decreases parts.len(),
{
    if parts.len() == 0 {
        scan
    } else {
        cluster_scanned(clusters_scanned(scan, parts.drop_last(), style), parts.last(), style)
    }
}

/// `scan` after one piece.
pub open spec fn piece_scanned(scan: Scan, piece: PieceText) -> Scan {
    match piece {
        PieceText::SoftBreak => scan_spaced(scan, plain_style()),
        PieceText::HardBreak => scan_broken(scan),
        PieceText::Span(span) => clusters_scanned(scan, clusters(span.text), span.style),
    }
}

/// What the first of `pieces` and all that follow have been read to.
pub open spec fn pieces_scanned(pieces: Seq<PieceText>) -> Scan
    decreases pieces.len(),
{
    if pieces.len() == 0 {
        Scan { tokens: Seq::empty(), word: Seq::empty(), spaced: false }
    } else {
        piece_scanned(pieces_scanned(pieces.drop_last()), pieces.last())
    }
}

/// The tokens of `pieces`: words, single spaces and hard breaks.
pub open spec fn tokens_of(pieces: Seq<PieceText>) -> Seq<TokenText> {
    word_flushed(pieces_scanned(pieces)).tokens
}

/// Whether the cluster holds a line feed or a carriage return.
pub fn is_line_break(cluster: &str) -> (r: bool)
    ensures
        r == breaks_line(cluster@),
{
    for c in it: cluster.chars()
        invariant
            it.seq() == cluster@,
            forall|j: int| 0 <= j < it.index() ==> cluster@[j] != '\n' && cluster@[j] != '\r',
    {
        if c == '\n' || c == '\r' {
            assert(cluster@[it.index() as int] == c);
            return true;
        }
    }
    false
}

/// The tokens read so far, with the word that is being read.
struct Scanner {
    tokens: Vec<InlineToken>,
    word: Vec<StyledSpan>,
    spaced: bool,
}

impl View for Scanner {
    type V = Scan;

    closed spec fn view(&self) -> Scan {
        Scan {
            tokens: tokens_view(self.tokens@),
            word: spans_view(self.word@),
            spaced: self.spaced,
        }
    }
}

impl Scanner {
    fn new() -> (r: Self)
        ensures
            r@ == pieces_scanned(Seq::empty()),
    {
        let r = Scanner { tokens: Vec::new(), word: Vec::new(), spaced: false };
        assert(r@ =~= pieces_scanned(Seq::empty()));
        r
    }

    fn push_token(&mut self, token: InlineToken)
        ensures
            final(self)@ == (Scan { tokens: old(self)@.tokens.push(token@), ..old(self)@ }),
    {
        let ghost before = self@;
        self.tokens.push(token);
        assert(self@.tokens =~= before.tokens.push(token@));
    }

    fn flush_word(&mut self)
        ensures
            final(self)@ == word_flushed(old(self)@),
    {
        if self.word.is_empty() {
            return;
        }
        let ghost before = self@;
        let mut word: Vec<StyledSpan> = Vec::new();
        core::mem::swap(&mut self.word, &mut word);
        assert(self@.word =~= Seq::empty());
        self.push_token(InlineToken::Word(word));
        assert(self@ =~= word_flushed(before));
    }

    fn line_break(&mut self)
        ensures
            final(self)@ == scan_broken(old(self)@),
    {
        self.flush_word();
        self.push_token(InlineToken::HardBreak);
        self.spaced = false;
    }

    fn space(&mut self, style: TextStyle)
        ensures
            final(self)@ == scan_spaced(old(self)@, style),
    {
        self.flush_word();
        if !self.spaced {
            self.push_token(InlineToken::Space(style));
        }
        self.spaced = true;
    }

    fn cluster(&mut self, cluster: String, style: TextStyle)
        ensures
            final(self)@ == cluster_scanned(old(self)@, cluster@, style),
    {
        if is_line_break(&cluster) {
            self.line_break();
        } else if style.color != ColorRole::Code && is_blank_text(&cluster) {
            self.space(style);
        } else {
            let ghost before = self@;
            let unit = StyledSpan { text: cluster, style };
            self.word.push(unit);
            self.spaced = false;
            assert(self@.word =~= before.word.push(unit@));
        }
    }

    fn span(&mut self, span: &StyledSpan)
        ensures
            final(self)@ == clusters_scanned(old(self)@, clusters(span@.text), span@.style),
    {
        let ghost before = self@;
        let parts = graphemes(&span.text);
        let ghost all = texts_view(parts@);
        for i in 0..parts.len()
            invariant
                all == texts_view(parts@),
                self@ == clusters_scanned(before, all.take(i as int), span.style),
        {
            assert(all.take(i + 1).drop_last() =~= all.take(i as int));
            assert(all.take(i + 1).last() == parts@[i as int]@);
            self.cluster(parts[i].clone(), span.style);
        }
        assert(all.take(all.len() as int) =~= all);
    }
}

/// Reads pieces into tokens.
pub fn inline_tokens(pieces: &Vec<InlinePiece>) -> (r: Vec<InlineToken>)
    ensures
        tokens_view(r@) == tokens_of(pieces_view(pieces@)),
{
    let mut scanner = Scanner::new();
    let ghost all = pieces_view(pieces@);
    assert(all.take(0) =~= Seq::empty());
    for i in 0..pieces.len()
        invariant
            all == pieces_view(pieces@),
            scanner@ == pieces_scanned(all.take(i as int)),
    {
        assert(all.take(i + 1).drop_last() =~= all.take(i as int));
        assert(all.take(i + 1).last() == pieces@[i as int]@);
        match &pieces[i] {
            InlinePiece::SoftBreak => scanner.space(TextStyle::default()),
            InlinePiece::HardBreak => scanner.line_break(),
            InlinePiece::Span(span) => scanner.span(span),
        }
    }
    assert(all.take(all.len() as int) =~= all);
    scanner.flush_word();
    scanner.tokens
}

/// How many of `units` fit into `available` columns, from the first one on.
pub open spec fn fitting_units(units: Seq<SpanText>, available: int) -> nat
    decreases units.len(),
{
    if units.len() == 0 || text_width(units[0].text) > available {
        0
    } else {
        1 + fitting_units(units.drop_first(), available - text_width(units[0].text))
    }
}

/// `line` with each of `units` pushed.
pub open spec fn units_pushed(line: Seq<SpanText>, units: Seq<SpanText>) -> Seq<SpanText>
    decreases units.len(),
{
    if units.len() == 0 {
        line
    } else {
        pushed(units_pushed(line, units.drop_last()), units.last().text, units.last().style)
    }
}

/// Lines that are finished, and the one that is being filled.
#[verifier::ext_equal]
pub struct Laid {
    pub lines: Seq<Seq<SpanText>>,
    pub line: Seq<SpanText>,
}

/// `laid` with its line finished.
pub open spec fn line_finished(laid: Laid) -> Laid {
    Laid { lines: laid.lines.push(laid.line), line: Seq::empty() }
}

/// The columns that are left in `line`.
pub open spec fn columns_left(line: Seq<SpanText>, width: int) -> int {
    if line_width(line) > width {
        0
    } else {
        width - line_width(line)
    }
}

/// `laid` with the units of a word behind it, broken between units where a line is full. A unit
/// that fits into no line is shown as an ellipsis on a line that ends there.
pub open spec fn word_laid(laid: Laid, units: Seq<SpanText>, width: int) -> Laid
    decreases units.len(), (if line_width(laid.line) > 0 { 1int } else { 0int }),
{
    let count = fitting_units(units, columns_left(laid.line, width));
    if units.len() == 0 {
        laid
    } else if count == 0 {
        if line_width(laid.line) > 0 {
            word_laid(line_finished(laid), units, width)
        } else {
            let cut = Laid { line: pushed(laid.line, "…"@, units[0].style), ..laid };
            word_laid(line_finished(cut), units.drop_first(), width)
        }
    } else {
        let filled = Laid {
            line: units_pushed(laid.line, units.take(count as int)),
            ..laid
        };
        if count < units.len() {
            word_laid(line_finished(filled), units.skip(count as int), width)
        } else {
            filled
        }
    }
}

/// How far tokens have been laid out: the lines, and the space that waits for the next word.
#[verifier::ext_equal]
pub struct Wrap {
    pub laid: Laid,
    pub pending: Option<TextStyle>,
}

/// Whether a word of `columns` columns has no room behind the line of `wrap`.
pub open spec fn overflows(wrap: Wrap, columns: nat, width: int) -> bool {
    let used = line_width(wrap.laid.line);
    used > 0 && used + (if wrap.pending is Some {
        1int
    } else {
        0int
    }) + columns > width
}

/// `laid` with its line finished, without the white space at its end.
pub open spec fn trimmed_line_finished(laid: Laid) -> Laid {
    line_finished(Laid { line: line_end_trimmed(laid.line), ..laid })
}

/// Where a word starts: on a new line if it has no room, else behind the space that waits.
pub open spec fn word_start(wrap: Wrap, columns: nat, width: int) -> Laid {
    if overflows(wrap, columns, width) {
        trimmed_line_finished(wrap.laid)
    } else if wrap.pending is Some && line_width(wrap.laid.line) > 0 {
        Laid { line: pushed(wrap.laid.line, " "@, wrap.pending->0), ..wrap.laid }
    } else {
        wrap.laid
    }
}

/// `wrap` after one token.
pub open spec fn token_wrapped(wrap: Wrap, token: TokenText, width: int) -> Wrap {
    match token {
        TokenText::HardBreak => Wrap { laid: trimmed_line_finished(wrap.laid), pending: None },
        TokenText::Space(style) => if line_width(wrap.laid.line) > 0 {
            Wrap { pending: Some(style), ..wrap }
        } else {
            wrap
        },
        TokenText::Word(units) => Wrap {
            laid: word_laid(word_start(wrap, span_columns(units), width), units, width),
            pending: None,
        },
    }
}

/// What `tokens` are laid out to.
pub open spec fn tokens_wrapped(tokens: Seq<TokenText>, width: int) -> Wrap
    decreases tokens.len(),
{
    if tokens.len() == 0 {
        Wrap { laid: Laid { lines: Seq::empty(), line: Seq::empty() }, pending: None }
    } else {
        token_wrapped(tokens_wrapped(tokens.drop_last(), width), tokens.last(), width)
    }
}

/// The lines of `laid` with the last one, unless that is empty and not the only one.
pub open spec fn all_lines(laid: Laid) -> Seq<Seq<SpanText>> {
    let last = line_end_trimmed(laid.line);
    if last.len() > 0 || laid.lines.len() == 0 {
        laid.lines.push(last)
    } else {
        laid.lines
    }
}

/// The larger of `width` and one.
pub open spec fn at_least_one(width: int) -> int {
    if width < 1 {
        1
    } else {
        width
    }
}

/// The lines that `pieces` take up at a width of `width` columns.
pub open spec fn wrapped(pieces: Seq<PieceText>, width: int) -> Seq<Seq<SpanText>> {
    all_lines(tokens_wrapped(tokens_of(pieces), at_least_one(width)).laid)
}

/// The columns of units, added up, or the largest `usize` where that is more.
fn units_width(units: &Vec<StyledSpan>) -> (r: usize)
    ensures
        r == clamped(span_columns(spans_view(units@))),
{
    let mut total: usize = 0;
    let ghost all = spans_view(units@);
    for i in 0..units.len()
        invariant
            all == spans_view(units@),
            total == clamped(span_columns(all.take(i as int))),
    {
        assert(all.take(i + 1).drop_last() =~= all.take(i as int));
        assert(all.take(i + 1).last() == units@[i as int]@);
        total = total.saturating_add(units[i].width());
    }
    assert(all.take(all.len() as int) =~= all);
    total
}

/// How many of `units[from..]` fit into `available` columns.
fn count_fitting(units: &Vec<StyledSpan>, from: usize, available: usize) -> (r: usize)
    requires
        from <= units@.len(),
    ensures
        r <= units@.len() - from,
        r == fitting_units(spans_view(units@).skip(from as int), available as int),
{
    let ghost all = spans_view(units@);
    let mut at = from;
    let mut left = available;
    while at < units.len()
        invariant
            all == spans_view(units@),
            from <= at <= units@.len(),
            at - from + fitting_units(all.skip(at as int), left as int) == fitting_units(
                all.skip(from as int),
                available as int,
            ),
        decreases units@.len() - at,
    {
        let width = units[at].width();
        assert(all.skip(at as int)[0] == units@[at as int]@);
        assert(all.skip(at as int).drop_first() =~= all.skip(at + 1));
        if width > left {
            return at - from;
        }
        left = left - width;
        at = at + 1;
    }
    at - from
}

/// Lines that are finished, and the one that is being filled.
struct Layout {
    lines: Vec<StyledLine>,
    line: StyledLine,
}

impl View for Layout {
    type V = Laid;

    closed spec fn view(&self) -> Laid {
        Laid { lines: lines_view(self.lines@), line: self.line@ }
    }
}

impl Layout {
    fn finish_line(&mut self)
        ensures
            final(self)@ == line_finished(old(self)@),
    {
        let ghost before = self@;
        let mut line = StyledLine::default();
        core::mem::swap(&mut self.line, &mut line);
        self.lines.push(line);
        assert(self@.lines =~= before.lines.push(before.line));
    }

    fn lay_word(&mut self, units: &Vec<StyledSpan>, width: usize)
        ensures
            final(self)@ == word_laid(old(self)@, spans_view(units@), width as int),
    {
        let ghost all = spans_view(units@);
        let ghost start = self@;
        let mut from: usize = 0;
        assert(all.skip(0) =~= all);
        while from < units.len()
            invariant
                all == spans_view(units@),
                from <= units@.len(),
                word_laid(self@, all.skip(from as int), width as int) == word_laid(
                    start,
                    all,
                    width as int,
                ),
            decreases
                units@.len() - from,
                (if line_width(self@.line) > 0 { 1int } else { 0int }),
        {
            let used = self.line.width();
            let available = width.saturating_sub(used);
            let count = count_fitting(units, from, available);
            let ghost rest = all.skip(from as int);
            let ghost now = self@;
            if count == 0 {
                if used > 0 {
                    self.finish_line();
                } else {
                    assert(rest[0] == units@[from as int]@);
                    assert(rest.drop_first() =~= all.skip(from + 1));
                    self.line.push("…", units[from].style);
                    self.finish_line();
                    from = from + 1;
                }
            } else {
                let end = from + count;
                let mut next = from;
                while next < end
                    invariant
                        all == spans_view(units@),
                        rest == all.skip(from as int),
                        from <= next <= end <= units@.len(),
                        self@.lines == now.lines,
                        self@.line == units_pushed(now.line, rest.take(next - from)),
                    decreases end - next,
                {
                    self.line.push(&units[next].text, units[next].style);
                    assert(rest.take(next + 1 - from).drop_last() =~= rest.take(next - from));
                    assert(rest.take(next + 1 - from).last() == units@[next as int]@);
                    next = next + 1;
                }
                assert(rest.skip(count as int) =~= all.skip(end as int));
                if end < units.len() {
                    self.finish_line();
                } else {
                    assert(all.skip(end as int).len() == 0);
                }
                from = end;
            }
        }
    }
}

/// Breaks the pieces into lines of at most `width` columns, at least one column wide.
pub fn wrap_inline(pieces: &Vec<InlinePiece>, width: usize) -> (r: Vec<StyledLine>)
    ensures
        lines_view(r@) == wrapped(pieces_view(pieces@), width as int),
        r@.len() > 0,
{
    let width = if width == 0 {
        1
    } else {
        width
    };
    let tokens = inline_tokens(pieces);
    let ghost all = tokens_view(tokens@);
    let mut layout = Layout { lines: Vec::new(), line: StyledLine::default() };
    let mut pending: Option<TextStyle> = None;
    assert(layout@.lines =~= Seq::empty());
    for i in 0..tokens.len()
        invariant
            all == tokens_view(tokens@),
            (Wrap { laid: layout@, pending }) == tokens_wrapped(all.take(i as int), width as int),
    {
        let ghost before = Wrap { laid: layout@, pending };
        assert(all.take(i + 1).drop_last() =~= all.take(i as int));
        assert(all.take(i + 1).last() == tokens@[i as int]@);
        match &tokens[i] {
            InlineToken::HardBreak => {
                trim_line_end(&mut layout.line);
                layout.finish_line();
                pending = None;
            },
            InlineToken::Space(style) => {
                if layout.line.width() > 0 {
                    pending = Some(*style);
                }
            },
            InlineToken::Word(units) => {
                let used = layout.line.width();
                let columns = units_width(units);
                let separator: usize = if pending.is_some() {
                    1
                } else {
                    0
                };
                let full = used > 0 && (used > width || separator > width - used || columns
                    > width - used - separator);
                assert(full == overflows(before, span_columns(spans_view(units@)), width as int));
                if full {
                    trim_line_end(&mut layout.line);
                    layout.finish_line();
                } else if let Some(style) = pending {
                    if used > 0 {
                        layout.line.push(" ", style);
                    }
                }
                pending = None;
                layout.lay_word(units, width);
            },
        }
    }
    assert(all.take(all.len() as int) =~= all);
    let Layout { lines, line } = layout;
    let mut lines = lines;
    let mut line = line;
    trim_line_end(&mut line);
    let ghost before = lines_view(lines@);
    if line.spans.len() > 0 || lines.is_empty() {
        lines.push(line);
        assert(lines_view(lines@) =~= before.push(line@));
    }
    lines
}

/// The largest width of `lines`.
pub open spec fn largest_width(lines: Seq<Seq<SpanText>>) -> usize
    decreases lines.len(),
{
    if lines.len() == 0 {
        0
    } else {
        let rest = largest_width(lines.drop_last());
        let last = line_width(lines.last());
        if last > rest {
            last
        } else {
            rest
        }
    }
}

/// The width that is as good as unlimited.
pub open spec fn unlimited_width() -> int {
    usize::MAX as int / 4
}

/// The columns of the widest line of the pieces, where nothing limits them.
pub fn natural_inline_width(pieces: &Vec<InlinePiece>) -> (r: usize)
    ensures
        r == largest_width(wrapped(pieces_view(pieces@), unlimited_width())),
{
    let lines = wrap_inline(pieces, usize::MAX / 4);
    let ghost all = lines_view(lines@);
    let mut widest: usize = 0;
    for i in 0..lines.len()
        invariant
            all == lines_view(lines@),
            widest == largest_width(all.take(i as int)),
    {
        assert(all.take(i + 1).drop_last() =~= all.take(i as int));
        assert(all.take(i + 1).last() == lines@[i as int]@);
        let width = lines[i].width();
        if width > widest {
            widest = width;
        }
    }
    assert(all.take(all.len() as int) =~= all);
    widest
}

} // verus!
