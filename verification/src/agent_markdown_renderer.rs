//! Markdown to styled terminal lines.

use vstd::prelude::*;

pub mod addresses;
pub mod alignment;
pub mod appearance;
pub mod content;
pub mod document;
pub mod events;
pub mod filling;
pub mod fitting;
pub mod frames;
pub mod grid;
pub mod highlight;
pub mod inline;
pub mod kept;
pub mod languages;
pub mod literal;
pub mod measure;
pub mod painted;
pub mod renderer;
pub mod shapes;
pub mod style;
pub mod styled;
pub mod table;
pub mod tidy;
pub mod told;
pub mod urls;
pub mod verbatim;
pub mod words;

pub use measure::display_width;
pub use style::ColorRole;
pub use style::TextStyle;
pub use styled::StyledLine;
pub use styled::StyledSpan;

use document::document_of;
use events::parse_document;
use highlight::Syntaxes;
use renderer::document_lines;
use renderer::render_document;
use styled::keep_within;
use styled::lines_view;
use table::larger;

use crate::markdown::normalized;
use crate::markdown::source_events;
use crate::markdown::EXTENSIONS;

verus! {

/// What this component goes by.
pub const COMPONENT_NAME: &'static str = "agent-markdown-renderer";

/// Shows a Markdown source `width` columns wide, at least one: no line takes up more, counted by
/// its grapheme clusters, and no cluster is split. Nor does it as a whole, unless its text is wider
/// than its clusters, as `"\u{2018}\u{fe0e}\u{fe01}\u{5dc}"` is, which takes up three columns at
/// a width of two. Syntaxes are loaded where the source holds code in a language that it names.
pub fn render(markdown: &str, width: usize) -> (r: Vec<StyledLine>)
    ensures
        lines_view(r@) == document_lines(
            document_of(source_events(normalized(markdown@), EXTENSIONS)),
            width as int,
        ),
        keep_within(lines_view(r@), larger(1, width as int)),
{
    render_document(&parse_document(markdown), width, None)
}

/// Shows a Markdown source as `render` does, with syntaxes that have been loaded before.
pub fn render_with(markdown: &str, width: usize, syntaxes: &Syntaxes) -> (r: Vec<StyledLine>)
    ensures
        lines_view(r@) == document_lines(
            document_of(source_events(normalized(markdown@), EXTENSIONS)),
            width as int,
        ),
        keep_within(lines_view(r@), larger(1, width as int)),
{
    render_document(&parse_document(markdown), width, Some(syntaxes))
}

} // verus!
