//! Colors and look of the views.

use vstd::prelude::*;

verus! {

/// The color pairs that a theme defines, by role.
#[derive(Clone, Copy, Debug, PartialEq, Eq, Structural)]
pub enum ColorPair {
    Background,
    Shadow,
    Primary,
    Secondary,
    Tertiary,
    TitlePrimary,
    TitleSecondary,
    Highlight,
    HighlightInactive,
}

impl ColorPair {
    /// The number under which a terminal knows the pair.
    pub open spec fn id(self) -> i16 {
        match self {
            ColorPair::Background => 1,
            ColorPair::Shadow => 2,
            ColorPair::Primary => 3,
            ColorPair::Secondary => 4,
            ColorPair::Tertiary => 5,
            ColorPair::TitlePrimary => 6,
            ColorPair::TitleSecondary => 7,
            ColorPair::Highlight => 8,
            ColorPair::HighlightInactive => 9,
        }
    }

    /// The number under which a terminal knows the pair.
    pub fn ncurses_id(self) -> (r: i16)
        ensures
            r == self.id(),
            1 <= r <= 9,
    {
        match self {
            ColorPair::Background => 1,
            ColorPair::Shadow => 2,
            ColorPair::Primary => 3,
            ColorPair::Secondary => 4,
            ColorPair::Tertiary => 5,
            ColorPair::TitlePrimary => 6,
            ColorPair::TitleSecondary => 7,
            ColorPair::Highlight => 8,
            ColorPair::HighlightInactive => 9,
        }
    }
}

/// The look that a printer hands on to the views it draws.
#[derive(Clone, Copy, Debug, PartialEq, Eq, Structural)]
pub struct Theme {
    /// Whether layers cast a shadow.
    pub shadow: bool,
}

} // verus!
