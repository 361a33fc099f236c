//! The window's colour themes.

use vstd::prelude::*;

verus! {

/// The theme the user picks.
#[derive(Clone, Copy, Debug, PartialEq, Eq, Structural)]
pub enum Theme {
    Dark,
    Light,
    System,
}

/// The set of colours a theme is drawn with.
#[derive(Clone, Copy, Debug, PartialEq, Eq, Structural)]
pub enum Palette {
    Dark,
    Light,
}

impl Theme {
    /// The colours the theme is drawn with: the system theme is drawn dark.
    pub fn palette(self) -> (r: Palette)
        ensures
            self == Theme::Light ==> r == Palette::Light,
            self != Theme::Light ==> r == Palette::Dark,
    {
        match self {
            Theme::Dark => Palette::Dark,
            Theme::Light => Palette::Light,
            Theme::System => Palette::Dark,
        }
    }

    /// The theme chosen by the dark/light toggle.
    pub fn from_dark_flag(dark: bool) -> (r: Theme)
        ensures
            dark ==> r == Theme::Dark,
            !dark ==> r == Theme::Light,
    {
        if dark {
            Theme::Dark
        } else {
            Theme::Light
        }
    }
}

} // verus!
