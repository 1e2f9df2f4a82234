//! Styled cell attributes: the basic named colors and text modifiers a
//! terminal cell can carry.

use vstd::prelude::*;

verus! {

/// A basic named terminal color.
#[derive(Clone, Copy, Debug, PartialEq, Eq, Structural)]
pub enum Color {
    Reset,
    Black,
    Red,
    Green,
    Yellow,
    Blue,
    Magenta,
    White,
}

/// Text attributes; each may be set independently.
#[derive(Clone, Copy, Debug, PartialEq, Eq, Structural)]
pub struct Modifiers {
    pub bold: bool,
    pub italic: bool,
    pub underlined: bool,
    pub reversed: bool,
    pub crossed_out: bool,
    pub blink: bool,
}

/// No text attribute set.
pub open spec fn mods_none() -> Modifiers {
    Modifiers {
        bold: false,
        italic: false,
        underlined: false,
        reversed: false,
        crossed_out: false,
        blink: false,
    }
}

impl Modifiers {
    pub fn none() -> (r: Modifiers)
        ensures
            r == mods_none(),
    {
        Modifiers {
            bold: false,
            italic: false,
            underlined: false,
            reversed: false,
            crossed_out: false,
            blink: false,
        }
    }
}

/// Foreground color, background color and text modifiers of one cell.
#[derive(Clone, Copy, Debug, PartialEq, Eq, Structural)]
pub struct Style {
    pub fg: Color,
    pub bg: Color,
    pub mods: Modifiers,
}

/// White on black with no modifiers.
pub open spec fn style_plain() -> Style {
    Style { fg: Color::White, bg: Color::Black, mods: mods_none() }
}

/// `s` with its foreground color replaced.
pub open spec fn spec_with_fg(s: Style, fg: Color) -> Style {
    Style { fg, ..s }
}

/// `s` with its background color replaced.
pub open spec fn spec_with_bg(s: Style, bg: Color) -> Style {
    Style { bg, ..s }
}

impl Style {
    pub fn plain() -> (r: Style)
        ensures
            r == style_plain(),
    {
        Style { fg: Color::White, bg: Color::Black, mods: Modifiers::none() }
    }

    /// The same style with another foreground color.
    pub fn with_fg(self, fg: Color) -> (r: Style)
        ensures
            r == spec_with_fg(self, fg),
    {
        Style { fg, ..self }
    }

    /// The same style with another background color.
    pub fn with_bg(self, bg: Color) -> (r: Style)
        ensures
            r == spec_with_bg(self, bg),
    {
        Style { bg, ..self }
    }
}

} // verus!
