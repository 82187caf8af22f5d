//! Key codes and modifier bits, numbered as the FLTK toolkit numbers them, so
//! that a value computed here is the value the toolkit uses.

use vstd::prelude::*;

verus! {

/// Shift modifier bit.
pub const SHIFT: i32 = 0x0001_0000;
/// Control modifier bit.
pub const CTRL: i32 = 0x0004_0000;
/// Alt modifier bit.
pub const ALT: i32 = 0x0008_0000;

pub const KEY_BACKSPACE: i32 = 0xff08;
pub const KEY_TAB: i32 = 0xff09;
pub const KEY_ENTER: i32 = 0xff0d;
pub const KEY_ESCAPE: i32 = 0xff1b;
pub const KEY_HOME: i32 = 0xff50;
pub const KEY_LEFT: i32 = 0xff51;
pub const KEY_UP: i32 = 0xff52;
pub const KEY_RIGHT: i32 = 0xff53;
pub const KEY_DOWN: i32 = 0xff54;
pub const KEY_PAGE_UP: i32 = 0xff55;
pub const KEY_PAGE_DOWN: i32 = 0xff56;
pub const KEY_END: i32 = 0xff57;
pub const KEY_INSERT: i32 = 0xff63;
pub const KEY_DELETE: i32 = 0xffff;
/// Function key `Fn` has code `KEY_F_BASE + n` (F1 is `0xffbe`).
pub const KEY_F_BASE: i32 = 0xffbd;

} // verus!
