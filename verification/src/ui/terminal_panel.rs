//! The terminal panel's logic: the bytes a key press sends to the
//! terminal, the colors that keep text readable, the grid's size for the
//! canvas, and scrolling through the scrollback.

use vstd::prelude::*;
use vstd::string::StringSliceAdditionalSpecFns;

use crate::ui::keys::{
    KEY_BACKSPACE, KEY_DELETE, KEY_DOWN, KEY_END, KEY_ENTER, KEY_ESCAPE, KEY_F_BASE, KEY_HOME, KEY_INSERT,
    KEY_LEFT, KEY_PAGE_DOWN, KEY_PAGE_UP, KEY_RIGHT, KEY_TAB, KEY_UP,
};

verus! {

/// Padding around the terminal's text, in pixels.
pub const TERM_PAD: i32 = 4;
/// Width of the panel before it is laid out.
pub const DEFAULT_WIDTH: i32 = 550;

/// An RGB color.
pub type Rgb = (u8, u8, u8);

/// The escape sequence that a special key sends (`shift` matters for Tab
/// only), or `None` for other keys.
pub open spec fn special_key_bytes(key: i32, shift: bool) -> Option<Seq<u8>> {
    if key == KEY_ENTER {
        Some(seq![13u8])
    } else if key == KEY_BACKSPACE {
        Some(seq![0x7fu8])
    } else if key == KEY_TAB {
        if shift {
            Some(seq![0x1bu8, 91u8, 90u8])
        } else {
            Some(seq![9u8])
        }
    } else if key == KEY_ESCAPE {
        Some(seq![0x1bu8])
    } else if key == KEY_UP {
        Some(seq![0x1bu8, 91u8, 65u8])
    } else if key == KEY_DOWN {
        Some(seq![0x1bu8, 91u8, 66u8])
    } else if key == KEY_RIGHT {
        Some(seq![0x1bu8, 91u8, 67u8])
    } else if key == KEY_LEFT {
        Some(seq![0x1bu8, 91u8, 68u8])
    } else if key == KEY_HOME {
        Some(seq![0x1bu8, 91u8, 72u8])
    } else if key == KEY_END {
        Some(seq![0x1bu8, 91u8, 70u8])
    } else if key == KEY_INSERT {
        Some(seq![0x1bu8, 91u8, 50u8, 126u8])
    } else if key == KEY_DELETE {
        Some(seq![0x1bu8, 91u8, 51u8, 126u8])
    } else if key == KEY_PAGE_UP {
        Some(seq![0x1bu8, 91u8, 53u8, 126u8])
    } else if key == KEY_PAGE_DOWN {
        Some(seq![0x1bu8, 91u8, 54u8, 126u8])
    } else if key == KEY_F_BASE + 1 {
        Some(seq![0x1bu8, 79u8, 80u8])
    } else if key == KEY_F_BASE + 2 {
        Some(seq![0x1bu8, 79u8, 81u8])
    } else if key == KEY_F_BASE + 3 {
        Some(seq![0x1bu8, 79u8, 82u8])
    } else if key == KEY_F_BASE + 4 {
        Some(seq![0x1bu8, 79u8, 83u8])
    } else if key == KEY_F_BASE + 5 {
        Some(seq![0x1bu8, 91u8, 49u8, 53u8, 126u8])
    } else if key == KEY_F_BASE + 6 {
        Some(seq![0x1bu8, 91u8, 49u8, 55u8, 126u8])
    } else if key == KEY_F_BASE + 7 {
        Some(seq![0x1bu8, 91u8, 49u8, 56u8, 126u8])
    } else if key == KEY_F_BASE + 8 {
        Some(seq![0x1bu8, 91u8, 49u8, 57u8, 126u8])
    } else if key == KEY_F_BASE + 9 {
        Some(seq![0x1bu8, 91u8, 50u8, 48u8, 126u8])
    } else if key == KEY_F_BASE + 10 {
        Some(seq![0x1bu8, 91u8, 50u8, 49u8, 126u8])
    } else if key == KEY_F_BASE + 11 {
        Some(seq![0x1bu8, 91u8, 50u8, 51u8, 126u8])
    } else if key == KEY_F_BASE + 12 {
        Some(seq![0x1bu8, 91u8, 50u8, 52u8, 126u8])
    } else {
        None
    }
}

/// The arrow keys send the cursor sequences `ESC [ A`, `ESC [ B`,
/// `ESC [ C` and `ESC [ D` for up, down, right and left, whatever else is
/// held or typed.
pub proof fn lemma_arrow_key_sequences(shift: bool, ctrl: bool, text: Seq<u8>)
    ensures
        encode_key_spec(KEY_UP, shift, ctrl, text) == seq![0x1bu8, 0x5bu8, 0x41u8],
        encode_key_spec(KEY_DOWN, shift, ctrl, text) == seq![0x1bu8, 0x5bu8, 0x42u8],
        encode_key_spec(KEY_RIGHT, shift, ctrl, text) == seq![0x1bu8, 0x5bu8, 0x43u8],
        encode_key_spec(KEY_LEFT, shift, ctrl, text) == seq![0x1bu8, 0x5bu8, 0x44u8],
{
}

/// Different special keys send different sequences (Tab with and without
/// Shift counting as different keys), so the terminal can tell every
/// special key apart.
pub proof fn lemma_special_keys_distinct(k1: i32, shift1: bool, k2: i32, shift2: bool)
    requires
        special_key_bytes(k1, shift1) is Some,
        special_key_bytes(k1, shift1) == special_key_bytes(k2, shift2),
    ensures
        k1 == k2,
        k1 == KEY_TAB ==> shift1 == shift2,
{
    let b = special_key_bytes(k1, shift1)->0;
    assert(b.len() >= 1);
    if b.len() == 1 {
        assert(b[0] == seq![13u8][0] || b[0] == seq![0x7fu8][0] || b[0] == seq![9u8][0] || b[0] == seq![0x1bu8][0]);
    } else if b.len() == 3 {
        assert(b[1] == 91u8 || b[1] == 79u8);
    } else if b.len() == 4 {
        assert(b[2] == 50u8 || b[2] == 51u8 || b[2] == 53u8 || b[2] == 54u8);
    } else {
        assert(b.len() == 5);
    }
}

/// The bytes a key press sends: a special key's escape sequence; with Ctrl
/// held and a letter typed, that letter's control code (`a` or `A` is 1);
/// else the typed text itself (possibly nothing).
pub open spec fn encode_key_spec(key: i32, shift: bool, ctrl: bool, text: Seq<u8>) -> Seq<u8> {
    match special_key_bytes(key, shift) {
        Some(b) => b,
        None => if ctrl && text.len() > 0 && 97 <= text[0] <= 122 {
            seq![(text[0] - 97 + 1) as u8]
        } else if ctrl && text.len() > 0 && 65 <= text[0] <= 90 {
            seq![(text[0] - 65 + 1) as u8]
        } else {
            text
        },
    }
}

fn bytes_of(s: &[u8]) -> (r: Vec<u8>)
    ensures
        r@ == s@,
{
    let mut r: Vec<u8> = Vec::new();
    let mut i: usize = 0;
    while i < s.len()
        invariant
            i <= s@.len(),
            r@ == s@.take(i as int),
        decreases s@.len() - i,
    {
        r.push(s[i]);
        assert(r@ =~= s@.take(i + 1));
        i += 1;
    }
    assert(r@ =~= s@);
    r
}

fn special_key_exec(key: i32, shift: bool) -> (r: Option<Vec<u8>>)
    ensures
        r matches Some(v) ==> special_key_bytes(key, shift) == Some(v@),
        r is None ==> special_key_bytes(key, shift) is None,
{
    let b: Option<&[u8]> = if key == KEY_ENTER {
        Some(&[13u8])
    } else if key == KEY_BACKSPACE {
        Some(&[0x7fu8])
    } else if key == KEY_TAB {
        if shift {
            Some(&[0x1bu8, 91u8, 90u8])
        } else {
            Some(&[9u8])
        }
    } else if key == KEY_ESCAPE {
        Some(&[0x1bu8])
    } else if key == KEY_UP {
        Some(&[0x1bu8, 91u8, 65u8])
    } else if key == KEY_DOWN {
        Some(&[0x1bu8, 91u8, 66u8])
    } else if key == KEY_RIGHT {
        Some(&[0x1bu8, 91u8, 67u8])
    } else if key == KEY_LEFT {
        Some(&[0x1bu8, 91u8, 68u8])
    } else if key == KEY_HOME {
        Some(&[0x1bu8, 91u8, 72u8])
    } else if key == KEY_END {
        Some(&[0x1bu8, 91u8, 70u8])
    } else if key == KEY_INSERT {
        Some(&[0x1bu8, 91u8, 50u8, 126u8])
    } else if key == KEY_DELETE {
        Some(&[0x1bu8, 91u8, 51u8, 126u8])
    } else if key == KEY_PAGE_UP {
        Some(&[0x1bu8, 91u8, 53u8, 126u8])
    } else if key == KEY_PAGE_DOWN {
        Some(&[0x1bu8, 91u8, 54u8, 126u8])
    } else if key == KEY_F_BASE + 1 {
        Some(&[0x1bu8, 79u8, 80u8])
    } else if key == KEY_F_BASE + 2 {
        Some(&[0x1bu8, 79u8, 81u8])
    } else if key == KEY_F_BASE + 3 {
        Some(&[0x1bu8, 79u8, 82u8])
    } else if key == KEY_F_BASE + 4 {
        Some(&[0x1bu8, 79u8, 83u8])
    } else if key == KEY_F_BASE + 5 {
        Some(&[0x1bu8, 91u8, 49u8, 53u8, 126u8])
    } else if key == KEY_F_BASE + 6 {
        Some(&[0x1bu8, 91u8, 49u8, 55u8, 126u8])
    } else if key == KEY_F_BASE + 7 {
        Some(&[0x1bu8, 91u8, 49u8, 56u8, 126u8])
    } else if key == KEY_F_BASE + 8 {
        Some(&[0x1bu8, 91u8, 49u8, 57u8, 126u8])
    } else if key == KEY_F_BASE + 9 {
        Some(&[0x1bu8, 91u8, 50u8, 48u8, 126u8])
    } else if key == KEY_F_BASE + 10 {
        Some(&[0x1bu8, 91u8, 50u8, 49u8, 126u8])
    } else if key == KEY_F_BASE + 11 {
        Some(&[0x1bu8, 91u8, 50u8, 51u8, 126u8])
    } else if key == KEY_F_BASE + 12 {
        Some(&[0x1bu8, 91u8, 50u8, 52u8, 126u8])
    } else {
        None
    };
    match b {
        Some(s) => {
            let v = bytes_of(s);
            assert(special_key_bytes(key, shift) == Some(v@));
            Some(v)
        },
        None => None,
    }
}

/// The bytes that pressing `key` sends to the terminal (see
/// `encode_key_spec`); `text` is what the key typed.
pub fn encode_key(key: i32, shift: bool, ctrl: bool, text: &str) -> (r: Vec<u8>)
    ensures
        r@ == encode_key_spec(key, shift, ctrl, text.spec_bytes()),
{
    match special_key_exec(key, shift) {
        Some(v) => v,
        None => {
            let t = text.as_bytes();
            if ctrl && t.len() > 0 {
                let ch = t[0];
                if 97u8 <= ch && ch <= 122u8 {
                    let mut v: Vec<u8> = Vec::new();
                    v.push(ch - 97u8 + 1);
                    return v;
                }
                if 65u8 <= ch && ch <= 90u8 {
                    let mut v: Vec<u8> = Vec::new();
                    v.push(ch - 65u8 + 1);
                    return v;
                }
            }
            bytes_of(t)
        },
    }
}

// ---------------------------------------------------------------------------
// Colors
// ---------------------------------------------------------------------------

/// The terminal's background: the editor's, darkened by 10 on each channel
/// for a dark theme and by 15 for a light one (never below 0).
pub open spec fn terminal_bg_spec(is_dark: bool, bg: Rgb) -> Rgb {
    let d: int = if is_dark {
        10
    } else {
        15
    };
    (
        (if bg.0 >= d { bg.0 - d } else { 0 }) as u8,
        (if bg.1 >= d { bg.1 - d } else { 0 }) as u8,
        (if bg.2 >= d { bg.2 - d } else { 0 }) as u8,
    )
}

/// The terminal's background color (see `terminal_bg_spec`).
pub fn terminal_bg(is_dark: bool, theme_bg: Rgb) -> (r: Rgb)
    ensures
        r == terminal_bg_spec(is_dark, theme_bg),
{
    let d: u8 = if is_dark {
        10
    } else {
        15
    };
    (theme_bg.0.saturating_sub(d), theme_bg.1.saturating_sub(d), theme_bg.2.saturating_sub(d))
}

/// The mean of a color's channels, rounded down.
pub open spec fn brightness(c: Rgb) -> int {
    (c.0 + c.1 + c.2) / 3
}

/// Text on dark backgrounds.
pub open spec fn text_on_dark() -> Rgb {
    (220u8, 220u8, 220u8)
}

/// Text on light backgrounds.
pub open spec fn text_on_light() -> Rgb {
    (30u8, 30u8, 30u8)
}

/// The color a cell's text is drawn in: the cell's own, unless it would be
/// unreadable on the background (the cell's, or the terminal's when the
/// cell has none): dark text on a dark background becomes light, light
/// text on a light background becomes dark.
pub open spec fn effective_fg_spec(cell_fg: Rgb, cell_bg: Option<Rgb>, terminal_bg: Rgb) -> Rgb {
    let bg = match cell_bg {
        Some(b) => b,
        None => terminal_bg,
    };
    if brightness(bg) < 100 && brightness(cell_fg) < 80 {
        text_on_dark()
    } else if brightness(bg) > 160 && brightness(cell_fg) > 180 {
        text_on_light()
    } else {
        cell_fg
    }
}

/// Text stays readable: on a dark background (brightness below 100) the
/// text drawn is never darker than 80; on a light one (above 160) never
/// brighter than 180.
pub proof fn lemma_effective_fg_contrast(cell_fg: Rgb, cell_bg: Option<Rgb>, terminal_bg: Rgb)
    ensures
        ({
            let bg = match cell_bg {
                Some(b) => b,
                None => terminal_bg,
            };
            let fg = effective_fg_spec(cell_fg, cell_bg, terminal_bg);
            &&& brightness(bg) < 100 ==> brightness(fg) >= 80
            &&& brightness(bg) > 160 ==> brightness(fg) <= 180
        }),
{
}

fn brightness_exec(c: Rgb) -> (r: u32)
    ensures
        r == brightness(c),
{
    (c.0 as u32 + c.1 as u32 + c.2 as u32) / 3
}

/// The color a cell's text is drawn in (see `effective_fg_spec`).
pub fn effective_fg(cell_fg: Rgb, cell_bg: Option<Rgb>, terminal_bg: Rgb) -> (r: Rgb)
    ensures
        r == effective_fg_spec(cell_fg, cell_bg, terminal_bg),
{
    let bg = match cell_bg {
        Some(b) => b,
        None => terminal_bg,
    };
    let bg_bright = brightness_exec(bg);
    let fg_bright = brightness_exec(cell_fg);
    if bg_bright < 100 && fg_bright < 80 {
        (220, 220, 220)
    } else if bg_bright > 160 && fg_bright > 180 {
        (30, 30, 30)
    } else {
        cell_fg
    }
}

// ---------------------------------------------------------------------------
// Grid size and scrolling
// ---------------------------------------------------------------------------

/// `a / b` for `b > 0`, rounded toward zero as machine division does.
pub open spec fn div_toward_zero(a: int, b: int) -> int {
    if a >= 0 {
        a / b
    } else {
        -((-a) / b)
    }
}

fn div_i32(a: i32, b: i32) -> (r: i32)
    requires
        b > 0,
    ensures
        r == div_toward_zero(a as int, b as int),
{
    if a >= 0 {
        ((a as u32) / (b as u32)) as i32
    } else {
        let na: u64 = (-(a as i64)) as u64;
        let q: u64 = na / (b as u64);
        assert(q <= na) by (nonlinear_arith)
            requires
                q == na / (b as u64),
                b > 0,
        ;
        let r: i64 = -(q as i64);
        r as i32
    }
}

/// The number of character cells that fit into `extent` pixels, `cell`
/// pixels each, but at least `min`.
pub open spec fn cells_for(extent: int, cell: int, min: int) -> int {
    let n = div_toward_zero(extent, cell);
    if n > min {
        n
    } else {
        min
    }
}

/// The grid size `(cols, rows)` when the terminal starts, for a canvas
/// `canvas_w` by `canvas_h` pixels (a size of 0 or less, before layout,
/// counts as the default size) and characters `char_w` by `char_h`: at
/// least 20 columns and 5 rows.
pub fn initial_grid_size(canvas_w: i32, canvas_h: i32, char_w: i32, char_h: i32) -> (r: (usize, usize))
    requires
        char_w >= 1,
        char_h >= 1,
    ensures
        r.0 == cells_for(
            if canvas_w > 0 {
                canvas_w - TERM_PAD * 2
            } else {
                DEFAULT_WIDTH - 10
            },
            char_w as int,
            20,
        ),
        r.1 == cells_for(
            if canvas_h > 0 {
                canvas_h - TERM_PAD * 2
            } else {
                400
            },
            char_h as int,
            5,
        ),
{
    let w = if canvas_w > 0 {
        canvas_w - TERM_PAD * 2
    } else {
        DEFAULT_WIDTH - 10
    };
    let h = if canvas_h > 0 {
        canvas_h - TERM_PAD * 2
    } else {
        400
    };
    let c = div_i32(w, char_w);
    let rr = div_i32(h, char_h);
    let cols = if c > 20 {
        c
    } else {
        20
    };
    let rows = if rr > 5 {
        rr
    } else {
        5
    };
    (cols as usize, rows as usize)
}

/// The grid size `(cols, rows)` after the canvas is resized: at least 10
/// columns and 3 rows; `None` while the canvas or the characters have no
/// size.
pub fn resized_grid_size(canvas_w: i32, canvas_h: i32, char_w: i32, char_h: i32) -> (r: Option<(usize, usize)>)
    ensures
        (char_w <= 0 || char_h <= 0 || canvas_w <= 0 || canvas_h <= 0) ==> r is None,
        (char_w > 0 && char_h > 0 && canvas_w > 0 && canvas_h > 0) ==> r == Some(
            (
                cells_for(canvas_w - TERM_PAD * 2, char_w as int, 10) as usize,
                cells_for(canvas_h - TERM_PAD * 2, char_h as int, 3) as usize,
            ),
        ),
{
    if char_w <= 0 || char_h <= 0 || canvas_w <= 0 || canvas_h <= 0 {
        return None;
    }
    let c = div_i32(canvas_w - TERM_PAD * 2, char_w);
    let rr = div_i32(canvas_h - TERM_PAD * 2, char_h);
    let cols = if c > 10 {
        c
    } else {
        10
    };
    let rows = if rr > 3 {
        rr
    } else {
        3
    };
    Some((cols as usize, rows as usize))
}

/// The scroll offset (lines up from the bottom) after a wheel step: three
/// lines up, at most to the top of the scrollback, or three lines down, at
/// most to the bottom.
pub fn wheel_scroll(offset: usize, up: bool, max_scroll: usize) -> (r: usize)
    requires
        up ==> offset + 3 <= usize::MAX,
    ensures
        up ==> r == (if offset + 3 < max_scroll {
            offset + 3
        } else {
            max_scroll as int
        }),
        !up ==> r == (if offset >= 3 {
            offset - 3
        } else {
            0
        }),
{
    if up {
        if offset + 3 < max_scroll {
            offset + 3
        } else {
            max_scroll
        }
    } else {
        offset.saturating_sub(3)
    }
}

/// Where a screen row's line comes from when the view is scrolled.
#[derive(Debug, Clone, Copy, PartialEq, Eq, Structural)]
pub enum LineSource {
    /// Line of the scrollback (oldest first).
    Scrollback(usize),
    /// Row of the grid.
    Grid(usize),
}

/// The line shown on screen row `screen_row`, with `sb_len` lines of
/// scrollback above a grid of `rows` rows, scrolled `offset` lines up: the
/// first line shown is `sb_len + rows - (rows + offset)` (at least 0) of
/// scrollback-then-grid.
pub fn line_source(sb_len: usize, rows: usize, offset: usize, screen_row: usize) -> (r: LineSource)
    requires
        sb_len + rows + screen_row <= usize::MAX,
        rows + offset <= usize::MAX,
    ensures
        ({
            let first: int = if sb_len + rows >= rows + offset {
                sb_len + rows - (rows + offset)
            } else {
                0
            };
            let idx = first + screen_row;
            if idx < sb_len {
                r == LineSource::Scrollback(idx as usize)
            } else {
                r == LineSource::Grid((idx - sb_len) as usize)
            }
        }),
{
    let total = sb_len + rows;
    let first = total.saturating_sub(rows + offset);
    let idx = first + screen_row;
    if idx < sb_len {
        LineSource::Scrollback(idx)
    } else {
        LineSource::Grid(idx - sb_len)
    }
}

} // verus!
