//! Editor colors that follow the syntax theme: text that stays readable on
//! the theme's background, and the line-number gutter beside it.

use vstd::prelude::*;

verus! {

/// An RGB color.
pub type Rgb = (u8, u8, u8);

/// The mean of the three channels, rounded down.
pub open spec fn brightness_of(c: Rgb) -> int {
    (c.0 + c.1 + c.2) / 3
}

/// `v + d`, kept within `0..=255`.
pub open spec fn clamp_channel(v: int) -> u8 {
    if v < 0 {
        0
    } else if v > 255 {
        255
    } else {
        v as u8
    }
}

/// The colors of the editor's text, cursor and line-number gutter.
#[derive(Debug, Clone, Copy, PartialEq, Eq)]
pub struct EditorTextColors {
    pub text: Rgb,
    pub cursor: Rgb,
    pub line_number_bg: Rgb,
    pub line_number_fg: Rgb,
}

/// The editor colors for a theme's background and foreground: on a dark
/// background (brightness below 128) light text, the theme's foreground
/// unless it is dark too, a white cursor and a gutter 15 lighter; on a
/// light background dark text, the theme's foreground unless it is light
/// too, a black cursor and a gutter 15 darker.
pub open spec fn editor_text_colors_spec(background: Rgb, foreground: Rgb) -> EditorTextColors {
    let (r, g, b) = background;
    if brightness_of(background) < 128 {
        EditorTextColors {
            text: if brightness_of(foreground) < 128 {
                (220, 220, 220)
            } else {
                foreground
            },
            cursor: (255, 255, 255),
            line_number_bg: (clamp_channel(r + 15), clamp_channel(g + 15), clamp_channel(b + 15)),
            line_number_fg: (150, 150, 150),
        }
    } else {
        EditorTextColors {
            text: if brightness_of(foreground) >= 128 {
                (30, 30, 30)
            } else {
                foreground
            },
            cursor: (0, 0, 0),
            line_number_bg: (clamp_channel(r - 15), clamp_channel(g - 15), clamp_channel(b - 15)),
            line_number_fg: (100, 100, 100),
        }
    }
}

fn brightness(c: Rgb) -> (v: u32)
    ensures
        v == brightness_of(c),
{
    (c.0 as u32 + c.1 as u32 + c.2 as u32) / 3
}

fn lighter(v: u8) -> (r: u8)
    ensures
        r == clamp_channel(v + 15),
{
    if v > 240 {
        255
    } else {
        v + 15
    }
}

fn darker(v: u8) -> (r: u8)
    ensures
        r == clamp_channel(v - 15),
{
    if v < 15 {
        0
    } else {
        v - 15
    }
}

/// The editor colors for a syntax theme (see `editor_text_colors_spec`).
pub fn editor_text_colors(background: Rgb, foreground: Rgb) -> (r: EditorTextColors)
    ensures
        r == editor_text_colors_spec(background, foreground),
{
    let (r, g, b) = background;
    if brightness(background) < 128 {
        EditorTextColors {
            text: if brightness(foreground) < 128 {
                (220, 220, 220)
            } else {
                foreground
            },
            cursor: (255, 255, 255),
            line_number_bg: (lighter(r), lighter(g), lighter(b)),
            line_number_fg: (150, 150, 150),
        }
    } else {
        EditorTextColors {
            text: if brightness(foreground) >= 128 {
                (30, 30, 30)
            } else {
                foreground
            },
            cursor: (0, 0, 0),
            line_number_bg: (darker(r), darker(g), darker(b)),
            line_number_fg: (100, 100, 100),
        }
    }
}

/// The text always contrasts with the background: on a dark background it
/// is light, on a light one dark.
pub proof fn lemma_editor_text_contrasts(background: Rgb, foreground: Rgb)
    ensures
        brightness_of(background) < 128 <==> brightness_of(editor_text_colors_spec(background, foreground).text)
            >= 128,
{
}

} // verus!
