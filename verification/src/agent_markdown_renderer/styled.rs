//! Styled lines: runs of text in one style each, and the operations that lay lines out.

use vstd::prelude::*;

use crate::agent_markdown_renderer::measure::clusters;
use crate::agent_markdown_renderer::measure::display_width;
use crate::agent_markdown_renderer::measure::graphemes;
use crate::agent_markdown_renderer::measure::is_cluster;
use crate::agent_markdown_renderer::measure::joined;
use crate::agent_markdown_renderer::measure::law_clusters_divide;
use crate::agent_markdown_renderer::measure::text_width;
use crate::agent_markdown_renderer::measure::total_width;
use crate::agent_markdown_renderer::style::TextStyle;
use crate::text::is_blank;
use crate::text::is_blank_text;
use crate::text::trim_end_text;
use crate::text::trimmed_end;
use crate::text::texts_view;

verus! {

/// The model of a span: its characters and their style.
#[verifier::ext_equal]
pub struct SpanText {
    pub text: Seq<char>,
    pub style: TextStyle,
}

/// A run of text in one style.
#[derive(Debug, PartialEq, Eq)]
pub struct StyledSpan {
    pub text: String,
    pub style: TextStyle,
}

impl View for StyledSpan {
    type V = SpanText;

    open spec fn view(&self) -> SpanText {
        SpanText { text: self.text@, style: self.style }
    }
}

impl Clone for StyledSpan {
    fn clone(&self) -> (r: Self)
        ensures
            r@ == self@,
    {
        StyledSpan { text: self.text.clone(), style: self.style }
    }
}

/// A line of styled spans.
#[derive(Debug, PartialEq, Eq)]
pub struct StyledLine {
    pub spans: Vec<StyledSpan>,
}

/// The models of `spans`.
pub open spec fn spans_view(spans: Seq<StyledSpan>) -> Seq<SpanText> {
    spans.map_values(|span: StyledSpan| span@)
}

impl View for StyledLine {
    type V = Seq<SpanText>;

    open spec fn view(&self) -> Seq<SpanText> {
        spans_view(self.spans@)
    }
}

/// The models of `lines`.
pub open spec fn lines_view(lines: Seq<StyledLine>) -> Seq<Seq<SpanText>> {
    lines.map_values(|line: StyledLine| line@)
}

impl Clone for StyledLine {
    fn clone(&self) -> (r: Self)
        ensures
            r@ == self@,
    {
        let mut spans: Vec<StyledSpan> = Vec::new();
        for i in 0..self.spans.len()
            invariant
                spans_view(spans@) == self@.take(i as int),
        {
            let span = self.spans[i].clone();
            let ghost before = spans_view(spans@);
            spans.push(span);
            assert(spans_view(spans@) =~= before.push(span@));
            assert(before.push(span@) =~= self@.take(i + 1));
        }
        assert(self@.take(self@.len() as int) =~= self@);
        StyledLine { spans }
    }
}

impl Default for StyledLine {
    fn default() -> (r: Self)
        ensures
            r@ == Seq::<SpanText>::empty(),
    {
        let r = StyledLine { spans: Vec::new() };
        assert(r@ =~= Seq::<SpanText>::empty());
        r
    }
}

/// The smaller of `total` and the largest `usize`.
pub open spec fn clamped(total: nat) -> usize {
    if total <= usize::MAX {
        total as usize
    } else {
        usize::MAX
    }
}

/// The text of `line`, without its styles.
pub open spec fn line_text(line: Seq<SpanText>) -> Seq<char>
    decreases line.len(),
{
    if line.len() == 0 {
        Seq::empty()
    } else {
        line_text(line.drop_last()) + line.last().text
    }
}

/// The columns of the spans of `line`, added up.
pub open spec fn span_columns(line: Seq<SpanText>) -> nat
    decreases line.len(),
{
    if line.len() == 0 {
        0
    } else {
        span_columns(line.drop_last()) + text_width(line.last().text)
    }
}

/// The width of `line` in columns.
pub open spec fn line_width(line: Seq<SpanText>) -> usize {
    clamped(span_columns(line))
}

/// `line` with `text` behind it: nothing where `text` is empty, part of the last span where
/// the style is the same, a span of its own otherwise.
pub open spec fn pushed(line: Seq<SpanText>, text: Seq<char>, style: TextStyle) -> Seq<SpanText> {
    if text.len() == 0 {
        line
    } else if line.len() > 0 && line.last().style == style {
        line.drop_last().push(SpanText { text: line.last().text + text, style })
    } else {
        line.push(SpanText { text, style })
    }
}

/// `line` with `text` in front of it, joined to the first span where the style is the same.
pub open spec fn prepended(line: Seq<SpanText>, text: Seq<char>, style: TextStyle) -> Seq<
    SpanText,
> {
    if text.len() == 0 {
        line
    } else if line.len() > 0 && line[0].style == style {
        line.update(0, SpanText { text: text + line[0].text, style })
    } else {
        seq![SpanText { text, style }] + line
    }
}

/// `line` with the spans of `other` behind it.
pub open spec fn line_appended(line: Seq<SpanText>, other: Seq<SpanText>) -> Seq<SpanText>
    decreases other.len(),
{
    if other.len() == 0 {
        line
    } else {
        pushed(line_appended(line, other.drop_last()), other.last().text, other.last().style)
    }
}

/// Whether no span of `line` is empty and no two neighbours share a style.
pub open spec fn is_merged(line: Seq<SpanText>) -> bool {
    &&& forall|i: int| 0 <= i < line.len() ==> (#[trigger] line[i]).text.len() > 0
    &&& forall|i: int, j: int|
        0 <= i && j == i + 1 && j < line.len() ==> (#[trigger] line[i]).style != (
        #[trigger] line[j]).style
}

/// Pushing and prepending keep neighbouring spans apart by their styles.
pub proof fn law_lines_stay_merged(line: Seq<SpanText>, text: Seq<char>, style: TextStyle)
    requires
        is_merged(line),
    ensures
        is_merged(pushed(line, text, style)),
        is_merged(prepended(line, text, style)),
{
}

/// Pushing and prepending text puts it behind and in front of the text of the line.
pub proof fn law_line_text(line: Seq<SpanText>, text: Seq<char>, style: TextStyle)
    ensures
        line_text(pushed(line, text, style)) == line_text(line) + text,
        line_text(prepended(line, text, style)) == text + line_text(line),
    decreases line.len(),
{
    if text.len() == 0 {
        assert(line_text(line) + text =~= line_text(line));
        assert(text + line_text(line) =~= line_text(line));
    } else {
        let p = pushed(line, text, style);
        if line.len() > 0 && line.last().style == style {
            assert(p.drop_last() =~= line.drop_last());
        } else {
            assert(p.drop_last() =~= line);
        }
        let q = prepended(line, text, style);
        if line.len() == 0 {
            assert(q.drop_last() =~= Seq::<SpanText>::empty());
            assert(line_text(q.drop_last()) =~= Seq::<char>::empty());
            assert(line_text(q) =~= text + line_text(line));
        } else if line.len() == 1 && line[0].style == style {
            assert(q.drop_last() =~= line.drop_last());
            assert(line_text(line.drop_last()) =~= Seq::<char>::empty());
            assert(line_text(q) =~= text + line_text(line));
        } else {
            law_line_text(line.drop_last(), text, style);
            assert(q.drop_last() =~= prepended(line.drop_last(), text, style));
            assert(q.last() == line.last());
            assert(line_text(q) =~= text + line_text(line));
        }
        assert(line_text(p) =~= line_text(line) + text);
    }
}

impl StyledSpan {
    /// A span of `text` in `style`.
    pub fn new(text: &str, style: TextStyle) -> (r: Self)
        ensures
            r@ == (SpanText { text: text@, style }),
    {
        StyledSpan { text: text.to_owned(), style }
    }

    /// The width of the span in columns.
    pub fn width(&self) -> (r: usize)
        ensures
            r == text_width(self@.text),
    {
        display_width(&self.text)
    }
}

impl StyledLine {
    /// The text of the line, without its styles.
    pub fn plain_text(&self) -> (r: String)
        ensures
            r@ == line_text(self@),
    {
        let mut text = String::new();
        for i in 0..self.spans.len()
            invariant
                text@ == line_text(self@.take(i as int)),
        {
            text.append(&self.spans[i].text);
            assert(self@.take(i + 1).drop_last() =~= self@.take(i as int));
        }
        assert(self@.take(self@.len() as int) =~= self@);
        text
    }

    /// The width of the line in columns: the widths of its spans added up, or the largest
    /// `usize` where that is more.
    pub fn width(&self) -> (r: usize)
        ensures
            r == line_width(self@),
    {
        let mut total: usize = 0;
        for i in 0..self.spans.len()
            invariant
                total == line_width(self@.take(i as int)),
        {
            let width = self.spans[i].width();
            assert(self@.take(i + 1).drop_last() =~= self@.take(i as int));
            total = total.saturating_add(width);
        }
        assert(self@.take(self@.len() as int) =~= self@);
        total
    }

    /// Puts `text` behind the line.
    pub fn push(&mut self, text: &str, style: TextStyle)
        ensures
            final(self)@ == pushed(old(self)@, text@, style),
    {
        if text.is_empty() {
            return;
        }
        let ghost before = self@;
        if let Some(mut last) = self.spans.pop() {
            assert(self@ =~= before.drop_last());
            if last.style == style {
                last.text.append(text);
                self.spans.push(last);
                assert(self@ =~= pushed(before, text@, style));
            } else {
                self.spans.push(last);
                assert(self@ =~= before);
                self.spans.push(StyledSpan::new(text, style));
                assert(self@ =~= pushed(before, text@, style));
            }
        } else {
            self.spans.push(StyledSpan::new(text, style));
            assert(self@ =~= pushed(before, text@, style));
        }
    }

    /// Puts `text` in front of the line.
    pub fn prepend(&mut self, text: &str, style: TextStyle)
        ensures
            final(self)@ == prepended(old(self)@, text@, style),
    {
        if text.is_empty() {
            return;
        }
        let ghost before = self@;
        if self.spans.len() > 0 && self.spans[0].style == style {
            let mut joined = text.to_owned();
            joined.append(&self.spans[0].text);
            self.spans.set(0, StyledSpan { text: joined, style });
            assert(self@ =~= prepended(before, text@, style));
        } else {
            self.spans.insert(0, StyledSpan::new(text, style));
            assert(self@ =~= prepended(before, text@, style));
        }
    }

    /// Puts the spans of `other` behind the line.
    pub fn append_line(&mut self, other: StyledLine)
        ensures
            final(self)@ == line_appended(old(self)@, other@),
    {
        let ghost before = self@;
        for i in 0..other.spans.len()
            invariant
                self@ == line_appended(before, other@.take(i as int)),
        {
            self.push(&other.spans[i].text, other.spans[i].style);
            assert(other@.take(i + 1).drop_last() =~= other@.take(i as int));
        }
        assert(other@.take(other@.len() as int) =~= other@);
    }
}

/// Whether every span of `line` is blank.
pub open spec fn is_blank_line(line: Seq<SpanText>) -> bool {
    forall|i: int| 0 <= i < line.len() ==> is_blank((#[trigger] line[i]).text)
}

/// Whether the line shows nothing but white space.
pub fn line_is_blank(line: &StyledLine) -> (r: bool)
    ensures
        r == is_blank_line(line@),
{
    for i in 0..line.spans.len()
        invariant
            forall|j: int| 0 <= j < i ==> is_blank((#[trigger] line@[j]).text),
    {
        if !is_blank_text(&line.spans[i].text) {
            assert(!is_blank(line@[i as int].text));
            return false;
        }
    }
    true
}

/// `line` without the white space at its end, nor the spans that it leaves empty.
pub open spec fn line_end_trimmed(line: Seq<SpanText>) -> Seq<SpanText>
    decreases line.len(),
{
    if line.len() == 0 {
        line
    } else if trimmed_end(line.last().text).len() == 0 {
        line_end_trimmed(line.drop_last())
    } else {
        line.drop_last().push(
            SpanText { text: trimmed_end(line.last().text), style: line.last().style },
        )
    }
}

/// Cuts the white space off the end of the line.
pub fn trim_line_end(line: &mut StyledLine)
    ensures
        final(line)@ == line_end_trimmed(old(line)@),
{
    let ghost before = line@;
    while line.spans.len() > 0
        invariant_except_break
            line_end_trimmed(line@) == line_end_trimmed(before),
        ensures
            line@ == line_end_trimmed(before),
        decreases line.spans@.len(),
    {
        let last = line.spans.len() - 1;
        let text = trim_end_text(&line.spans[last].text);
        let style = line.spans[last].style;
        let ghost whole = line@;
        line.spans.pop();
        assert(line@ =~= whole.drop_last());
        if !text.as_str().is_empty() {
            line.spans.push(StyledSpan { text, style });
            assert(line@ =~= line_end_trimmed(whole));
            break;
        }
    }
}

/// `lines` without the blank lines at its start.
pub open spec fn blank_start_trimmed(lines: Seq<Seq<SpanText>>) -> Seq<Seq<SpanText>>
    decreases lines.len(),
{
    if lines.len() > 0 && is_blank_line(lines[0]) {
        blank_start_trimmed(lines.drop_first())
    } else {
        lines
    }
}

/// `lines` without the blank lines at its end.
pub open spec fn blank_end_trimmed(lines: Seq<Seq<SpanText>>) -> Seq<Seq<SpanText>>
    decreases lines.len(),
{
    if lines.len() > 0 && is_blank_line(lines.last()) {
        blank_end_trimmed(lines.drop_last())
    } else {
        lines
    }
}

/// `lines` without the blank lines around it.
pub open spec fn blank_trimmed(lines: Seq<Seq<SpanText>>) -> Seq<Seq<SpanText>> {
    blank_end_trimmed(blank_start_trimmed(lines))
}

proof fn lemma_start_trimmed(lines: Seq<Seq<SpanText>>)
    ensures
        blank_start_trimmed(lines).len() > 0 ==> !is_blank_line(blank_start_trimmed(lines)[0]),
    decreases lines.len(),
{
    if lines.len() > 0 && is_blank_line(lines[0]) {
        lemma_start_trimmed(lines.drop_first());
    }
}

proof fn lemma_end_trimmed(lines: Seq<Seq<SpanText>>)
    ensures
        blank_end_trimmed(lines).len() > 0 ==> !is_blank_line(blank_end_trimmed(lines).last())
            && blank_end_trimmed(lines)[0] == lines[0],
    decreases lines.len(),
{
    if lines.len() > 0 && is_blank_line(lines.last()) {
        lemma_end_trimmed(lines.drop_last());
    }
}

/// Lines that have been trimmed neither begin nor end with a blank one.
pub proof fn law_trimmed_lines(lines: Seq<Seq<SpanText>>)
    ensures
        blank_trimmed(lines).len() > 0 ==> !is_blank_line(blank_trimmed(lines)[0])
            && !is_blank_line(blank_trimmed(lines).last()),
{
    lemma_start_trimmed(lines);
    lemma_end_trimmed(blank_start_trimmed(lines));
}

/// Removes the blank lines at the start and at the end.
pub fn trim_blank_lines(lines: &mut Vec<StyledLine>)
    ensures
        lines_view(final(lines)@) == blank_trimmed(lines_view(old(lines)@)),
{
    let ghost before = lines_view(lines@);
    while lines.len() > 0 && line_is_blank(&lines[0])
        invariant
            blank_start_trimmed(lines_view(lines@)) == blank_start_trimmed(before),
        decreases lines@.len(),
    {
        assert(lines_view(lines@.remove(0)) =~= lines_view(lines@).drop_first());
        lines.remove(0);
    }
    let ghost middle = lines_view(lines@);
    assert(middle == blank_start_trimmed(before));
    while lines.len() > 0 && line_is_blank(&lines[lines.len() - 1])
        invariant
            blank_end_trimmed(lines_view(lines@)) == blank_end_trimmed(middle),
        decreases lines@.len(),
    {
        assert(lines_view(lines@.drop_last()) =~= lines_view(lines@).drop_last());
        lines.pop();
    }
}

/// `output` with the lines of `block`, trimmed, behind it: after an empty line where neither is
/// empty and `output` does not end in a blank line.
pub open spec fn block_appended(output: Seq<Seq<SpanText>>, block: Seq<Seq<SpanText>>) -> Seq<
    Seq<SpanText>,
> {
    let kept = blank_trimmed(block);
    if kept.len() == 0 {
        output
    } else if output.len() > 0 && !is_blank_line(output.last()) {
        output.push(Seq::empty()) + kept
    } else {
        output + kept
    }
}

/// Moves the lines of `block` behind `output`.
pub fn extend_lines(output: &mut Vec<StyledLine>, block: Vec<StyledLine>)
    ensures
        lines_view(final(output)@) == lines_view(old(output)@) + lines_view(block@),
{
    let ghost before = lines_view(output@);
    let ghost added = lines_view(block@);
    let mut block = block;
    output.append(&mut block);
    assert(lines_view(output@) =~= before + added);
}

/// Puts a block behind `output`, set off by an empty line.
pub fn append_block(output: &mut Vec<StyledLine>, block: Vec<StyledLine>)
    ensures
        lines_view(final(output)@) == block_appended(lines_view(old(output)@), lines_view(block@)),
{
    let ghost before = lines_view(output@);
    let mut block = block;
    trim_blank_lines(&mut block);
    if block.is_empty() {
        return;
    }
    if output.len() > 0 && !line_is_blank(&output[output.len() - 1]) {
        output.push(StyledLine::default());
        assert(lines_view(output@) =~= before.push(Seq::empty()));
    }
    extend_lines(output, block);
}

/// Puts a block behind `output` without a gap.
pub fn append_block_without_gap(output: &mut Vec<StyledLine>, block: Vec<StyledLine>)
    ensures
        lines_view(final(output)@) == lines_view(old(output)@) + blank_trimmed(lines_view(block@)),
{
    let mut block = block;
    trim_blank_lines(&mut block);
    extend_lines(output, block);
}

/// What clipping has come to: the line so far, the columns left, and whether it has ended.
#[verifier::ext_equal]
pub struct Clip {
    pub line: Seq<SpanText>,
    pub remaining: int,
    pub ended: bool,
}

/// `clip` after `parts` in `style`: each is pushed until one is wider than what remains.
pub open spec fn clipped_parts(clip: Clip, parts: Seq<Seq<char>>, style: TextStyle) -> Clip
    decreases parts.len(),
{
    if parts.len() == 0 || clip.ended {
        clip
    } else if text_width(parts[0]) > clip.remaining {
        Clip { ended: true, ..clip }
    } else {
        clipped_parts(
            Clip {
                line: pushed(clip.line, parts[0], style),
                remaining: clip.remaining - text_width(parts[0]),
                ended: false,
            },
            parts.drop_first(),
            style,
        )
    }
}

/// `clip` after `spans`, cluster by cluster, as long as columns remain.
pub open spec fn clipped_spans(clip: Clip, spans: Seq<SpanText>) -> Seq<SpanText>
    decreases spans.len(),
{
    if spans.len() == 0 || clip.ended || clip.remaining == 0 {
        clip.line
    } else {
        clipped_spans(
            clipped_parts(clip, clusters(spans[0].text), spans[0].style),
            spans.drop_first(),
        )
    }
}

/// The leading grapheme clusters of `line` that fit into `width` columns.
pub open spec fn clipped(line: Seq<SpanText>, width: int) -> Seq<SpanText> {
    clipped_spans(Clip { line: Seq::empty(), remaining: width, ended: false }, line)
}

/// The columns of the grapheme clusters of each span of `line`, added up.
pub open spec fn cluster_columns(line: Seq<SpanText>) -> nat
    decreases line.len(),
{
    if line.len() == 0 {
        0
    } else {
        cluster_columns(line.drop_last()) + total_width(clusters(line.last().text))
    }
}

/// Whether no span of `line` is wider than its grapheme clusters are, taken one by one. Few texts
/// are: in `"\u{2018}\u{fe0e}\u{fe01}\u{5dc}"` each of the two clusters takes up one column, and
/// the text three, as the variation selector in front of the Hebrew letter counts for the quotation
/// mark there.
pub open spec fn is_no_wider_than_clusters(line: Seq<SpanText>) -> bool {
    forall|i: int|
        0 <= i < line.len() ==> text_width((#[trigger] line[i]).text) <= total_width(
            clusters(line[i].text),
        )
}

/// A line is no wider than its clusters, provided that no span of it is.
pub proof fn law_line_within_its_clusters(line: Seq<SpanText>)
    requires
        is_no_wider_than_clusters(line),
    ensures
        span_columns(line) <= cluster_columns(line),
        line_width(line) <= cluster_columns(line),
    decreases line.len(),
{
    if line.len() > 0 {
        law_line_within_its_clusters(line.drop_last());
        assert(line.last() == line[line.len() - 1]);
    }
}

/// Whether the grapheme clusters of each of `lines` take up at most `width` columns, and so does
/// the line itself where none of its spans is wider than its clusters.
pub open spec fn keep_within(lines: Seq<Seq<SpanText>>, width: int) -> bool {
    forall|i: int|
        0 <= i < lines.len() ==> cluster_columns(#[trigger] lines[i]) <= width && (
        is_no_wider_than_clusters(lines[i]) ==> line_width(lines[i]) <= width)
}

proof fn lemma_joined(parts: Seq<Seq<char>>)
    requires
        forall|i: int| 0 <= i < parts.len() ==> is_cluster(#[trigger] parts[i]),
    ensures
        joined(parts).len() >= parts.len(),
    decreases parts.len(),
{
    if parts.len() > 0 {
        lemma_joined(parts.drop_last());
        assert(is_cluster(parts[parts.len() - 1]));
    }
}

proof fn lemma_pushed_twice(line: Seq<SpanText>, a: Seq<char>, b: Seq<char>, style: TextStyle)
    ensures
        pushed(pushed(line, a, style), b, style) == pushed(line, a + b, style),
{
    if a.len() == 0 {
        assert(a + b =~= b);
    } else if b.len() == 0 {
        assert(a + b =~= a);
    } else {
        assert(pushed(pushed(line, a, style), b, style) =~= pushed(line, a + b, style)) by {
            if line.len() > 0 && line.last().style == style {
                assert(line.last().text + a + b =~= line.last().text + (a + b));
            }
        }
    }
}

/// Cuts the line after the last grapheme cluster that fits into `width` columns. Where no span
/// is empty and no two neighbours share a style, the clusters of what is left take up no more.
pub fn clip_line(line: StyledLine, width: usize) -> (r: StyledLine)
    ensures
        r@ == clipped(line@, width as int),
        is_merged(line@) ==> cluster_columns(r@) <= width,
{
    let ghost tidy = is_merged(line@);
    let mut output = StyledLine::default();
    let mut remaining = width;
    let mut ended = false;
    let mut index: usize = 0;
    assert(line@.skip(0) =~= line@);
    assert(line@.take(0) =~= Seq::empty());
    while index < line.spans.len() && !ended && remaining > 0
        invariant
            index <= line@.len(),
            tidy == is_merged(line@),
            clipped_spans(
                Clip { line: output@, remaining: remaining as int, ended },
                line@.skip(index as int),
            ) == clipped(line@, width as int),
            !ended && tidy ==> output@ == line@.take(index as int),
            tidy ==> cluster_columns(output@) + remaining == width,
        decreases line@.len() - index,
    {
        let style = line.spans[index].style;
        let parts = graphemes(&line.spans[index].text);
        let ghost all = texts_view(parts@);
        let ghost text = line@[index as int].text;
        let ghost start = Clip { line: output@, remaining: remaining as int, ended };
        let mut next: usize = 0;
        assert(all.skip(0) =~= all);
        assert(all.take(0) =~= Seq::empty());
        proof {
            law_clusters_divide(text);
        }
        while next < parts.len() && !ended
            invariant
                next <= parts@.len(),
                all == texts_view(parts@),
                clipped_parts(
                    Clip { line: output@, remaining: remaining as int, ended },
                    all.skip(next as int),
                    style,
                ) == clipped_parts(start, all, style),
                output@ == pushed(start.line, joined(all.take(next as int)), style),
                total_width(all.take(next as int)) + remaining == start.remaining,
            decreases parts@.len() - next, (if ended { 0int } else { 1int }),
        {
            let part_width = display_width(&parts[next]);
            assert(all.skip(next as int)[0] == parts@[next as int]@);
            assert(all.skip(next as int).drop_first() =~= all.skip(next + 1));
            if part_width > remaining {
                ended = true;
            } else {
                proof {
                    assert(all.take(next + 1).drop_last() =~= all.take(next as int));
                    lemma_pushed_twice(
                        start.line,
                        joined(all.take(next as int)),
                        parts@[next as int]@,
                        style,
                    );
                }
                output.push(&parts[next], style);
                remaining = remaining - part_width;
                next = next + 1;
            }
        }
        proof {
            let taken = all.take(next as int);
            assert(clusters(joined(taken)) == taken);
            if tidy {
                let base = line@.take(index as int);
                if index > 0 {
                    assert(base.last() == line@[index - 1]);
                    assert(line@[index - 1].style != line@[index as int].style);
                }
                if joined(taken).len() > 0 {
                    assert(output@ == base.push(SpanText { text: joined(taken), style }));
                    assert(output@.drop_last() =~= base);
                } else {
                    assert forall|i: int| 0 <= i < taken.len() implies is_cluster(
                        #[trigger] taken[i],
                    ) by {
                        assert(is_cluster(all[i]));
                    }
                    lemma_joined(taken);
                    assert(taken =~= Seq::empty());
                }
                if !ended {
                    assert(taken =~= all);
                    assert(line@[index as int].text.len() > 0);
                    assert(output@ =~= line@.take(index + 1));
                }
            }
        }
        assert(line@.skip(index as int).drop_first() =~= line@.skip(index + 1));
        assert(line@.skip(index as int)[0] == line@[index as int]);
        index = index + 1;
    }
    output
}

} // verus!
