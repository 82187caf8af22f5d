//! The font picker's logic: which fonts the list shows for a search and the
//! monospace filter, which row starts selected, the preview size read from
//! the size field, and the font name and size that OK returns.

use vstd::prelude::*;

use crate::text::{chars_of, string_of, parse_i32, parse_i32_spec, same_text, str_to_lowercase, to_lowercase};
use crate::ui::tree_panel::{contains_seq, contains_str};

verus! {

/// A font the picker lists.
pub struct FontEntry {
    /// The name shown in the list.
    pub display_name: String,
    /// The name the toolkit knows the font by.
    pub fltk_name: String,
    pub is_monospace: bool,
}

/// Whether the picker lists `e` for the (lowercase) query: not when only
/// monospace fonts are wanted and `e` is not one; with a query, only when
/// its display name or toolkit name, lowercased, contains it.
pub open spec fn font_shown(e: FontEntry, query: Seq<char>, monospace_only: bool) -> bool {
    &&& !(monospace_only && !e.is_monospace)
    &&& (query.len() == 0 || contains_seq(str_to_lowercase(e.display_name@), query) || contains_seq(
        str_to_lowercase(e.fltk_name@),
        query,
    ))
}

/// The indices of the fonts shown, in order.
pub open spec fn shown_upto(entries: Seq<FontEntry>, query: Seq<char>, mono: bool, n: int) -> Seq<usize>
    decreases n,
{
    if n <= 0 {
        Seq::empty()
    } else {
        shown_upto(entries, query, mono, n - 1) + if font_shown(entries[n - 1], query, mono) {
            seq![(n - 1) as usize]
        } else {
            Seq::empty()
        }
    }
}

/// The row (from 1) that starts selected: the last shown font whose name
/// is `current`; else the first row when something is shown.
pub open spec fn selected_upto(
    entries: Seq<FontEntry>,
    query: Seq<char>,
    mono: bool,
    current: Seq<char>,
    n: int,
) -> Option<int>
    decreases n,
{
    if n <= 0 {
        None
    } else {
        let e = entries[n - 1];
        if font_shown(e, query, mono) && (e.fltk_name@ == current || e.display_name@ == current) {
            Some(shown_upto(entries, query, mono, n).len() as int)
        } else {
            selected_upto(entries, query, mono, current, n - 1)
        }
    }
}

/// The row (from 1) that starts selected: the last shown font named
/// `current`, else the first row, if any row is shown.
pub open spec fn initial_row(entries: Seq<FontEntry>, query: Seq<char>, mono: bool, current: Seq<char>) -> Option<
    int,
> {
    match selected_upto(entries, query, mono, current, entries.len() as int) {
        Some(row) => Some(row),
        None => if shown_upto(entries, query, mono, entries.len() as int).len() > 0 {
            Some(1)
        } else {
            None
        },
    }
}

/// The fonts the list shows (by index into `entries`) and the row (from 1)
/// that starts selected, for the lowercase `query`: see `font_shown` and
/// `selected_upto`.
pub fn visible_fonts(entries: &[FontEntry], query: &str, monospace_only: bool, current: &str) -> (r: (
    Vec<usize>,
    Option<i32>,
))
    requires
        entries@.len() < i32::MAX,
    ensures
        r.0@ == shown_upto(entries@, query@, monospace_only, entries@.len() as int),
        r.1 matches Some(row) ==> initial_row(entries@, query@, monospace_only, current@) == Some(row as int),
        r.1 is None ==> initial_row(entries@, query@, monospace_only, current@) is None,
{
    let q = chars_of(query);
    let mut shown: Vec<usize> = Vec::new();
    let mut select: Option<i32> = None;
    let mut i: usize = 0;
    while i < entries.len()
        invariant
            i <= entries@.len() < i32::MAX,
            q@ == query@,
            shown@ == shown_upto(entries@, query@, monospace_only, i as int),
            shown@.len() <= i,
            select matches Some(row) ==> selected_upto(entries@, query@, monospace_only, current@, i as int)
                == Some(row as int),
            select is None ==> selected_upto(entries@, query@, monospace_only, current@, i as int) is None,
        decreases entries@.len() - i,
    {
        let e = &entries[i];
        let mono_ok = !(monospace_only && !e.is_monospace);
        let matches = if !mono_ok {
            false
        } else if q.len() == 0 {
            true
        } else {
            let d = chars_of(to_lowercase(e.display_name.as_str()).as_str());
            let f = chars_of(to_lowercase(e.fltk_name.as_str()).as_str());
            contains_str(&d, &q) || contains_str(&f, &q)
        };
        assert(matches == font_shown(entries@[i as int], query@, monospace_only));
        if matches {
            shown.push(i);
            if same_text(e.fltk_name.as_str(), current) || same_text(e.display_name.as_str(), current) {
                select = Some(shown.len() as i32);
            }
        }
        i += 1;
    }
    if select.is_none() && shown.len() > 0 {
        select = Some(1);
    }
    (shown, select)
}

/// The preview size for the size field's text: its number, or 16 when it
/// is not one, kept between 6 and 96.
pub fn preview_size(input: &str) -> (r: i32)
    ensures
        r == ({
            let n: int = match parse_i32_spec(input@) {
                Some(v) => v,
                None => 16,
            };
            if n < 6 {
                6
            } else if n > 96 {
                96
            } else {
                n
            }
        }),
{
    let n = match parse_i32(input) {
        Some(v) => v,
        None => 16,
    };
    if n < 6 {
        6
    } else if n > 96 {
        96
    } else {
        n
    }
}


/// The size the picker returns for the size field's text: as
/// `preview_size`, between 6 and 96, 16 when the text is no number.
pub open spec fn picked_size(input: Seq<char>) -> int {
    let n: int = match parse_i32_spec(input) {
        Some(v) => v,
        None => 16,
    };
    if n < 6 {
        6
    } else if n > 96 {
        96
    } else {
        n
    }
}

/// The font (its position in the catalog) that list row `row` (counted
/// from 1) shows, the list showing the fonts at the positions `visible`;
/// `None` when no row is selected or the row shows nothing.
pub fn selected_font(visible: &[usize], row: i32) -> (r: Option<usize>)
    ensures
        (0 < row <= visible@.len()) ==> r == Some(visible@[row - 1]),
        !(0 < row <= visible@.len()) ==> r is None,
{
    if row >= 1 && (row as usize) <= visible.len() {
        Some(visible[(row - 1) as usize])
    } else {
        None
    }
}

/// What OK returns for the selected font `entry`: the name to keep, which
/// is the display name for the editor's built-in (legacy) font names
/// (`is_legacy`, as the settings decide it for the display name) and the
/// toolkit name for any other font; and the size from the size field (see
/// `picked_size`).
pub fn picked_font(entry: &FontEntry, size_input: &str, is_legacy: bool) -> (r: (String, u32))
    ensures
        r.0@ == (if is_legacy {
            entry.display_name@
        } else {
            entry.fltk_name@
        }),
        r.1 == picked_size(size_input@),
{
    let size = preview_size(size_input);
    let name = if is_legacy {
        string_of(entry.display_name.as_str())
    } else {
        string_of(entry.fltk_name.as_str())
    };
    (name, size as u32)
}

} // verus!
