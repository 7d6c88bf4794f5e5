//! The Modernist colour tokens, light and dark.

use vstd::prelude::*;

verus! {

/// Modernist: every corner is square (a radius of zero pixels).
pub const RADIUS: u32 = 0;

/// The colour tokens of a theme, each a `0xRRGGBB` value.
#[derive(Clone, Copy, Debug, PartialEq, Eq, Structural)]
pub struct Theme {
    /// Main content background (airy paper).
    pub bg: u32,
    /// Rail/sidebar background (a touch warmer/darker than `bg`).
    pub surface: u32,
    /// Primary ink.
    pub text: u32,
    /// Secondary text: labels, counts, breadcrumbs.
    pub muted: u32,
    /// Tertiary text: placeholders, neglected/disabled rows.
    pub faint: u32,
    /// Hairline dividers.
    pub divider: u32,
    /// Subtle background for hovered interactive rows.
    pub hover: u32,
    /// Signature red-orange: selection, active nav, emphasis. Used sparingly.
    pub accent: u32,
}

/// The light tokens.
pub open spec fn light_theme() -> Theme {
    Theme {
        bg: 0xf7f6f5,
        surface: 0xf1efee,
        text: 0x201e1d,
        muted: 0x6f6a6a,
        faint: 0xb3aeae,
        divider: 0xe4e1e1,
        hover: 0xe7e4e3,
        accent: 0xec3013,
    }
}

/// The dark tokens; the accent softens to a coral.
pub open spec fn dark_theme() -> Theme {
    Theme {
        bg: 0x1e1d1b,
        surface: 0x191817,
        text: 0xece9e6,
        muted: 0x8b8681,
        faint: 0x565250,
        divider: 0x322f2c,
        hover: 0x272522,
        accent: 0xe08a70,
    }
}

impl Theme {
    /// The light theme.
    pub fn light() -> (t: Theme)
        ensures
            t == light_theme(),
    {
        Theme {
            bg: 0xf7f6f5,
            surface: 0xf1efee,
            text: 0x201e1d,
            muted: 0x6f6a6a,
            faint: 0xb3aeae,
            divider: 0xe4e1e1,
            hover: 0xe7e4e3,
            accent: 0xec3013,
        }
    }

    /// Dark variant. Accent softens to a coral.
    pub fn dark() -> (t: Theme)
        ensures
            t == dark_theme(),
    {
        Theme {
            bg: 0x1e1d1b,
            surface: 0x191817,
            text: 0xece9e6,
            muted: 0x8b8681,
            faint: 0x565250,
            divider: 0x322f2c,
            hover: 0x272522,
            accent: 0xe08a70,
        }
    }

    /// The theme for a light/dark choice.
    pub fn for_dark(dark: bool) -> (t: Theme)
        ensures
            t == (if dark {
                dark_theme()
            } else {
                light_theme()
            }),
    {
        if dark {
            Theme::dark()
        } else {
            Theme::light()
        }
    }
}

/// The two themes can be told apart by their backgrounds.
pub proof fn lemma_dark_differs_from_light()
    ensures
        dark_theme().bg != light_theme().bg,
{
}

} // verus!
