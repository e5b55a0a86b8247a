//! Literal text: laid out as it stands, white space included.

use vstd::prelude::*;

use crate::agent_markdown_renderer::inline::breaks_line;
use crate::agent_markdown_renderer::inline::is_line_break;
use crate::agent_markdown_renderer::measure::clusters;
use crate::agent_markdown_renderer::measure::display_width;
use crate::agent_markdown_renderer::measure::graphemes;
use crate::agent_markdown_renderer::measure::text_width;
use crate::agent_markdown_renderer::style::TextStyle;
use crate::agent_markdown_renderer::styled::lines_view;
use crate::agent_markdown_renderer::styled::pushed;
use crate::agent_markdown_renderer::styled::SpanText;
use crate::agent_markdown_renderer::styled::StyledLine;
use crate::text::chars_of;
use crate::text::is_control_char;
use crate::text::same_text;
use crate::text::texts_view;

verus! {

/// How far literal text has been laid out: the finished lines, the line that is being filled,
/// the column that it has reached, and the columns that there are.
#[verifier::ext_equal]
pub struct Literal {
    pub lines: Seq<Seq<SpanText>>,
    pub line: Seq<SpanText>,
    pub column: int,
    pub width: int,
}

/// An empty layout of `width` columns, at least one.
pub open spec fn literal_start(width: int) -> Literal {
    Literal {
        lines: Seq::empty(),
        line: Seq::empty(),
        column: 0,
        width: if width < 1 {
            1
        } else {
            width
        },
    }
}

/// `s` without its control characters.
pub open spec fn without_controls(s: Seq<char>) -> Seq<char>
    decreases s.len(),
{
    if s.len() == 0 {
        s
    } else if is_control_char(s.last()) {
        without_controls(s.drop_last())
    } else {
        without_controls(s.drop_last()).push(s.last())
    }
}

/// What is shown of a grapheme cluster: four spaces for a tab, else all but its control
/// characters.
pub open spec fn shown_cluster(cluster: Seq<char>) -> Seq<char> {
    if cluster == "\t"@ {
        "    "@
    } else {
        without_controls(cluster)
    }
}

/// `literal` with its line finished.
pub open spec fn literal_broken(literal: Literal) -> Literal {
    Literal {
        lines: literal.lines.push(literal.line),
        line: Seq::empty(),
        column: 0,
        width: literal.width,
    }
}

/// `literal` with `shown` behind it: on a new line where the line has no room for it, and as an
/// ellipsis that ends its line where no line has.
pub open spec fn shown_laid(literal: Literal, shown: Seq<char>, style: TextStyle) -> Literal {
    let columns = text_width(shown);
    let at = if literal.column + columns > literal.width && literal.column > 0 {
        literal_broken(literal)
    } else {
        literal
    };
    if columns > literal.width {
        literal_broken(Literal { line: pushed(at.line, "…"@, style), ..at })
    } else {
        Literal { line: pushed(at.line, shown, style), column: at.column + columns, ..at }
    }
}

/// `literal` after a grapheme cluster.
pub open spec fn cluster_laid(literal: Literal, cluster: Seq<char>, style: TextStyle) -> Literal {
    if breaks_line(cluster) {
        literal_broken(literal)
    } else if shown_cluster(cluster).len() == 0 {
        literal
    } else {
        shown_laid(literal, shown_cluster(cluster), style)
    }
}

/// `literal` after the grapheme clusters `parts`.
pub open spec fn clusters_laid(literal: Literal, parts: Seq<Seq<char>>, style: TextStyle) -> Literal
    decreases parts.len(),
{
    if parts.len() == 0 {
        literal
    } else {
        cluster_laid(clusters_laid(literal, parts.drop_last(), style), parts.last(), style)
    }
}

/// The lines of `literal`. The last one is left out where it is empty and the text ended with a
/// line break.
pub open spec fn literal_lines(literal: Literal, ends_with_line_break: bool) -> Seq<Seq<SpanText>> {
    if literal.line.len() > 0 || literal.lines.len() == 0 || !ends_with_line_break {
        literal.lines.push(literal.line)
    } else {
        literal.lines
    }
}

/// Whether `text` ends with a line feed or a carriage return.
pub open spec fn ends_with_break(text: Seq<char>) -> bool {
    text.len() > 0 && (text.last() == '\n' || text.last() == '\r')
}

/// The lines that `text` takes up as it stands.
pub open spec fn literal_wrapped(text: Seq<char>, width: int, style: TextStyle) -> Seq<
    Seq<SpanText>,
> {
    literal_lines(clusters_laid(literal_start(width), clusters(text), style), ends_with_break(text))
}

/// The text without its control characters.
pub fn clean_text(text: &str) -> (r: String)
    ensures
        r@ == without_controls(text@),
{
    let mut r = String::new();
    for c in it: text.chars()
        invariant
            it.seq() == text@,
            r@ == without_controls(text@.take(it.index() as int)),
    {
        assert(text@.take(it.index() + 1).drop_last() =~= text@.take(it.index() as int));
        if !c.is_control() {
            r.push(c);
        }
    }
    assert(text@.take(text@.len() as int) =~= text@);
    r
}

/// What is shown of a grapheme cluster.
fn visible_text(cluster: &str) -> (r: String)
    ensures
        r@ == shown_cluster(cluster@),
{
    if same_text(cluster, "\t") {
        "    ".to_owned()
    } else {
        clean_text(cluster)
    }
}

/// Whether the text ends with a line feed or a carriage return.
pub fn ends_with_line_break(text: &str) -> (r: bool)
    ensures
        r == ends_with_break(text@),
{
    let chars = chars_of(text);
    let size = chars.len();
    size > 0 && (chars[size - 1] == '\n' || chars[size - 1] == '\r')
}

/// Lays out literal text line by line.
pub struct LiteralLayout {
    pub lines: Vec<StyledLine>,
    pub line: StyledLine,
    pub column: usize,
    pub width: usize,
}

impl View for LiteralLayout {
    type V = Literal;

    open spec fn view(&self) -> Literal {
        Literal {
            lines: lines_view(self.lines@),
            line: self.line@,
            column: self.column as int,
            width: self.width as int,
        }
    }
}

impl LiteralLayout {
    /// Whether the line that is being filled keeps within the columns that there are.
    pub open spec fn is_valid(&self) -> bool {
        self.column <= self.width && self.width > 0
    }

    /// An empty layout of `width` columns, at least one.
    pub fn new(width: usize) -> (r: Self)
        ensures
            r.is_valid(),
            r@ == literal_start(width as int),
    {
        let r = LiteralLayout {
            lines: Vec::new(),
            line: StyledLine::default(),
            column: 0,
            width: if width == 0 {
                1
            } else {
                width
            },
        };
        assert(r@ =~= literal_start(width as int));
        r
    }

    fn finish_line(&mut self)
        requires
            old(self).is_valid(),
        ensures
            final(self).is_valid(),
            final(self)@ == literal_broken(old(self)@),
    {
        let ghost before = self@;
        let mut line = StyledLine::default();
        core::mem::swap(&mut self.line, &mut line);
        self.lines.push(line);
        self.column = 0;
        assert(self@ =~= literal_broken(before));
    }

    fn push_cluster(&mut self, cluster: &str, style: TextStyle)
        requires
            old(self).is_valid(),
        ensures
            final(self).is_valid(),
            final(self)@ == cluster_laid(old(self)@, cluster@, style),
    {
        if is_line_break(cluster) {
            self.finish_line();
            return;
        }
        let visible = visible_text(cluster);
        if visible.as_str().is_empty() {
            return;
        }
        let columns = display_width(&visible);
        if columns > self.width - self.column && self.column > 0 {
            self.finish_line();
        }
        if columns > self.width {
            self.line.push("…", style);
            self.finish_line();
        } else {
            self.line.push(&visible, style);
            self.column = self.column + columns;
        }
    }

    /// Lays out `text` behind what there is.
    pub fn push(&mut self, text: &str, style: TextStyle)
        requires
            old(self).is_valid(),
        ensures
            final(self).is_valid(),
            final(self)@ == clusters_laid(old(self)@, clusters(text@), style),
    {
        let ghost before = self@;
        let parts = graphemes(text);
        let ghost all = texts_view(parts@);
        for i in 0..parts.len()
            invariant
                all == texts_view(parts@),
                self.is_valid(),
                self@ == clusters_laid(before, all.take(i as int), style),
        {
            assert(all.take(i + 1).drop_last() =~= all.take(i as int));
            assert(all.take(i + 1).last() == parts@[i as int]@);
            self.push_cluster(&parts[i], style);
        }
        assert(all.take(all.len() as int) =~= all);
    }

    /// The lines, the last one included unless it is empty behind a line break.
    pub fn finish(self, ends_with_line_break: bool) -> (r: Vec<StyledLine>)
        ensures
            lines_view(r@) == literal_lines(self@, ends_with_line_break),
    {
        let ghost before = self@;
        let LiteralLayout { lines, line, .. } = self;
        let mut lines = lines;
        if line.spans.len() > 0 || lines.is_empty() || !ends_with_line_break {
            lines.push(line);
            assert(lines_view(lines@) =~= before.lines.push(before.line));
        }
        lines
    }
}

/// Lays out a text as it stands, white space included.
pub fn wrap_preserving_whitespace(text: &str, width: usize, style: TextStyle) -> (r: Vec<
    StyledLine,
>)
    ensures
        lines_view(r@) == literal_wrapped(text@, width as int, style),
{
    let mut layout = LiteralLayout::new(width);
    layout.push(text, style);
    layout.finish(ends_with_line_break(text))
}

} // verus!
