//! Colours and text attributes, by role.

use vstd::prelude::*;

verus! {

/// What a piece of text is, as far as its colour goes.
#[derive(Clone, Copy, Debug, PartialEq, Eq, Structural)]
pub enum ColorRole {
    Primary,
    Muted,
    Accent,
    Link,
    Code,
    SyntaxComment,
    SyntaxString,
    SyntaxKeyword,
    SyntaxDeclaration,
    SyntaxNumber,
    SyntaxType,
    SyntaxFunction,
    SyntaxVariable,
    SyntaxConstant,
    Math,
    Success,
    Warning,
    Error,
    Border,
}

impl Default for ColorRole {
    fn default() -> (r: Self)
        ensures
            r == ColorRole::Primary,
    {
        ColorRole::Primary
    }
}

/// The colour role and the attributes of a piece of text.
#[derive(Clone, Copy, Debug, PartialEq, Eq, Structural)]
pub struct TextStyle {
    pub color: ColorRole,
    pub bold: bool,
    pub italic: bool,
    pub underlined: bool,
    pub crossed_out: bool,
    pub dim: bool,
}

/// The style with no attribute set.
pub open spec fn plain_style() -> TextStyle {
    colored_style(ColorRole::Primary)
}

/// The style with no attribute set but the colour role.
pub open spec fn colored_style(color: ColorRole) -> TextStyle {
    TextStyle {
        color,
        bold: false,
        italic: false,
        underlined: false,
        crossed_out: false,
        dim: false,
    }
}

/// The style in bold, and otherwise plain.
pub open spec fn bold_style() -> TextStyle {
    TextStyle { bold: true, ..plain_style() }
}

/// The style of a link.
pub open spec fn link_style() -> TextStyle {
    TextStyle { underlined: true, ..colored_style(ColorRole::Link) }
}

/// `overlay` laid over `base`: the colour of `overlay` unless it is the primary one, and
/// each attribute that either of them sets.
pub open spec fn merged_style(base: TextStyle, overlay: TextStyle) -> TextStyle {
    TextStyle {
        color: if overlay.color == ColorRole::Primary {
            base.color
        } else {
            overlay.color
        },
        bold: base.bold || overlay.bold,
        italic: base.italic || overlay.italic,
        underlined: base.underlined || overlay.underlined,
        crossed_out: base.crossed_out || overlay.crossed_out,
        dim: base.dim || overlay.dim,
    }
}

impl Default for TextStyle {
    fn default() -> (r: Self)
        ensures
            r == plain_style(),
    {
        TextStyle {
            color: ColorRole::Primary,
            bold: false,
            italic: false,
            underlined: false,
            crossed_out: false,
            dim: false,
        }
    }
}

impl TextStyle {
    /// The style that sets only the colour role.
    pub fn colored(color: ColorRole) -> (r: Self)
        ensures
            r == colored_style(color),
    {
        TextStyle {
            color,
            bold: false,
            italic: false,
            underlined: false,
            crossed_out: false,
            dim: false,
        }
    }

    /// The same style in bold.
    pub fn bold(self) -> (r: Self)
        ensures
            r == (TextStyle { bold: true, ..self }),
    {
        TextStyle { bold: true, ..self }
    }

    /// `overlay` laid over this style.
    pub fn merged(self, overlay: Self) -> (r: Self)
        ensures
            r == merged_style(self, overlay),
    {
        TextStyle {
            color: if overlay.color == ColorRole::Primary {
                self.color
            } else {
                overlay.color
            },
            bold: self.bold || overlay.bold,
            italic: self.italic || overlay.italic,
            underlined: self.underlined || overlay.underlined,
            crossed_out: self.crossed_out || overlay.crossed_out,
            dim: self.dim || overlay.dim,
        }
    }
}

/// The plain style changes nothing, on either side, and laying styles over one another is
/// associative and idempotent.
pub proof fn law_merging_styles(a: TextStyle, b: TextStyle, c: TextStyle)
    ensures
        merged_style(a, plain_style()) == a,
        merged_style(plain_style(), a) == a,
        merged_style(a, a) == a,
        merged_style(merged_style(a, b), c) == merged_style(a, merged_style(b, c)),
{
}

} // verus!
