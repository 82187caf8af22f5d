//! Toast notifications: the colors of each level and the text shown.

use vstd::prelude::*;

use crate::text::{append_str, string_of};

verus! {

/// Height of the toast bar when shown.
pub const TOAST_HEIGHT: i32 = 28;

/// The level of a toast, which decides its colors.
#[derive(Debug, Clone, Copy, PartialEq, Eq, Structural)]
pub enum ToastLevel {
    Success,
    Info,
    Warning,
    Error,
}

/// The colors and text of a shown toast.
#[derive(Debug, PartialEq, Eq)]
pub struct ToastLook {
    pub bg: (u8, u8, u8),
    pub fg: (u8, u8, u8),
    pub label: String,
}

/// The background of a toast on a dark theme: green, blue, orange or red.
pub open spec fn dark_bg(level: ToastLevel) -> (u8, u8, u8) {
    match level {
        ToastLevel::Success => (46u8, 125u8, 50u8),
        ToastLevel::Info => (25u8, 118u8, 210u8),
        ToastLevel::Warning => (245u8, 124u8, 0u8),
        ToastLevel::Error => (198u8, 40u8, 40u8),
    }
}

/// The background of a toast on a light theme: the light shade of each
/// color.
pub open spec fn light_bg(level: ToastLevel) -> (u8, u8, u8) {
    match level {
        ToastLevel::Success => (200u8, 230u8, 201u8),
        ToastLevel::Info => (187u8, 222u8, 251u8),
        ToastLevel::Warning => (255u8, 224u8, 178u8),
        ToastLevel::Error => (255u8, 205u8, 210u8),
    }
}

/// The text color of a toast: white on a dark theme, the dark shade of
/// each color on a light one.
pub open spec fn text_fg(level: ToastLevel, is_dark: bool) -> (u8, u8, u8) {
    if is_dark {
        (255u8, 255u8, 255u8)
    } else {
        match level {
            ToastLevel::Success => (27u8, 94u8, 32u8),
            ToastLevel::Info => (13u8, 71u8, 161u8),
            ToastLevel::Warning => (230u8, 81u8, 0u8),
            ToastLevel::Error => (183u8, 28u8, 28u8),
        }
    }
}

impl ToastLevel {
    /// The background on a dark theme (see `dark_bg`).
    pub fn bg_color_dark(&self) -> (r: (u8, u8, u8))
        ensures
            r == dark_bg(*self),
    {
        match *self {
            ToastLevel::Success => (46, 125, 50),
            ToastLevel::Info => (25, 118, 210),
            ToastLevel::Warning => (245, 124, 0),
            ToastLevel::Error => (198, 40, 40),
        }
    }

    /// The background on a light theme (see `light_bg`).
    pub fn bg_color_light(&self) -> (r: (u8, u8, u8))
        ensures
            r == light_bg(*self),
    {
        match *self {
            ToastLevel::Success => (200, 230, 201),
            ToastLevel::Info => (187, 222, 251),
            ToastLevel::Warning => (255, 224, 178),
            ToastLevel::Error => (255, 205, 210),
        }
    }

    /// The text color (see `text_fg`).
    pub fn text_color(&self, is_dark: bool) -> (r: (u8, u8, u8))
        ensures
            r == text_fg(*self, is_dark),
    {
        if is_dark {
            (255, 255, 255)
        } else {
            match *self {
                ToastLevel::Success => (27, 94, 32),
                ToastLevel::Info => (13, 71, 161),
                ToastLevel::Warning => (230, 81, 0),
                ToastLevel::Error => (183, 28, 28),
            }
        }
    }
}

/// How a toast of `level` shows `message`: the level's colors for the
/// theme, and the message after two spaces.
pub fn toast_look(level: ToastLevel, message: &str, is_dark: bool) -> (r: ToastLook)
    ensures
        r.bg == (if is_dark {
            dark_bg(level)
        } else {
            light_bg(level)
        }),
        r.fg == text_fg(level, is_dark),
        r.label@ == "  "@ + message@,
{
    let bg = if is_dark {
        level.bg_color_dark()
    } else {
        level.bg_color_light()
    };
    let mut label = string_of("  ");
    append_str(&mut label, message);
    ToastLook { bg, fg: level.text_color(is_dark), label }
}

/// The toast bar's height: its height when shown, nothing when hidden.
pub fn toast_height(visible: bool) -> (r: i32)
    ensures
        r == (if visible {
            TOAST_HEIGHT
        } else {
            0
        }),
{
    if visible {
        TOAST_HEIGHT
    } else {
        0
    }
}

} // verus!
