//! The viewer's two colour themes.

use vstd::prelude::*;

verus! {

/// An opaque colour given by its red, green and blue components.
#[derive(Clone, Copy, Debug, PartialEq, Eq, Structural)]
pub struct Rgb {
    pub r: u8,
    pub g: u8,
    pub b: u8,
}

/// The colours a theme paints the viewer with.
#[derive(Clone, Copy, Debug, PartialEq, Eq, Structural)]
pub struct Palette {
    pub panel_bg: Rgb,
    pub plot_bg: Rgb,
    pub text: Rgb,
    pub text_weak: Rgb,
    pub accent: Rgb,
    pub up: Rgb,
    pub down: Rgb,
    pub grid: Rgb,
}

/// Dark or light appearance.
#[derive(Clone, Copy, Debug, PartialEq, Eq, Structural)]
pub enum Theme {
    DarkMode,
    LightMode,
}

impl Default for Theme {
    fn default() -> (t: Self)
        ensures
            t == Theme::DarkMode,
    {
        Theme::DarkMode
    }
}

/// The other theme.
pub open spec fn toggled(t: Theme) -> Theme {
    match t {
        Theme::DarkMode => Theme::LightMode,
        Theme::LightMode => Theme::DarkMode,
    }
}

/// The caption of the button that switches away from a theme.
pub open spec fn icon_of(t: Theme) -> Seq<char> {
    match t {
        Theme::DarkMode => "swap light"@,
        Theme::LightMode => "swap dark"@,
    }
}

/// A colour from its components.
pub open spec fn rgb(r: u8, g: u8, b: u8) -> Rgb {
    Rgb { r, g, b }
}

/// The colours of each theme.
pub open spec fn palette_of(t: Theme) -> Palette {
    match t {
        Theme::DarkMode => Palette {
            panel_bg: rgb(11, 18, 11),
            plot_bg: rgb(9, 11, 9),
            text: rgb(202, 222, 202),
            text_weak: rgb(111, 145, 111),
            accent: rgb(11, 234, 128),
            up: rgb(44, 222, 128),
            down: rgb(234, 77, 66),
            grid: rgb(27, 36, 27),
        },
        Theme::LightMode => Palette {
            panel_bg: rgb(234, 222, 207),
            plot_bg: rgb(243, 232, 234),
            text: rgb(36, 33, 27),
            text_weak: rgb(111, 99, 89),
            accent: rgb(144, 27, 27),
            up: rgb(27, 127, 66),
            down: rgb(167, 33, 33),
            grid: rgb(222, 207, 198),
        },
    }
}

impl Theme {
    /// Switches to the other theme.
    pub fn toggle(self) -> (r: Self)
        ensures
            r == toggled(self),
    {
        match self {
            Theme::DarkMode => Theme::LightMode,
            Theme::LightMode => Theme::DarkMode,
        }
    }

    /// The caption of the button that switches away from this theme.
    pub fn icon(self) -> (r: &'static str)
        ensures
            r@ == icon_of(self),
    {
        match self {
            Theme::DarkMode => "swap light",
            Theme::LightMode => "swap dark",
        }
    }

    /// The colours of this theme.
    pub fn palette(self) -> (p: Palette)
        ensures
            p == palette_of(self),
    {
        match self {
            Theme::DarkMode => Palette {
                panel_bg: Rgb { r: 11, g: 18, b: 11 },
                plot_bg: Rgb { r: 9, g: 11, b: 9 },
                text: Rgb { r: 202, g: 222, b: 202 },
                text_weak: Rgb { r: 111, g: 145, b: 111 },
                accent: Rgb { r: 11, g: 234, b: 128 },
                up: Rgb { r: 44, g: 222, b: 128 },
                down: Rgb { r: 234, g: 77, b: 66 },
                grid: Rgb { r: 27, g: 36, b: 27 },
            },
            Theme::LightMode => Palette {
                panel_bg: Rgb { r: 234, g: 222, b: 207 },
                plot_bg: Rgb { r: 243, g: 232, b: 234 },
                text: Rgb { r: 36, g: 33, b: 27 },
                text_weak: Rgb { r: 111, g: 99, b: 89 },
                accent: Rgb { r: 144, g: 27, b: 27 },
                up: Rgb { r: 27, g: 127, b: 66 },
                down: Rgb { r: 167, g: 33, b: 33 },
                grid: Rgb { r: 222, g: 207, b: 198 },
            },
        }
    }
}

/// Switching twice comes back to the start, and switching always changes
/// the theme.
pub proof fn lemma_toggle_involution(t: Theme)
    ensures
        toggled(toggled(t)) == t,
        toggled(t) != t,
{
}

/// The two themes show different button captions and different colours.
pub proof fn lemma_themes_differ(a: Theme, b: Theme)
    requires
        a != b,
    ensures
        icon_of(a) != icon_of(b),
        palette_of(a) != palette_of(b),
{
    reveal_strlit("swap light");
    reveal_strlit("swap dark");
    assert(icon_of(a).len() != icon_of(b).len());
    assert(palette_of(a).panel_bg.r != palette_of(b).panel_bg.r);
}

/// In every theme gains are painted green and losses red: green is the
/// strongest component of the rising colour, red that of the falling one.
pub proof fn lemma_gains_green_losses_red(t: Theme)
    ensures
        palette_of(t).up.g > palette_of(t).up.r,
        palette_of(t).up.g > palette_of(t).up.b,
        palette_of(t).down.r > palette_of(t).down.g,
        palette_of(t).down.r > palette_of(t).down.b,
{
}

} // verus!
