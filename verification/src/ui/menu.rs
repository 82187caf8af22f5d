//! Keyboard shortcuts of the menu bar: parsing shortcut strings such as
//! `"Ctrl+Shift+P"`, the built-in and reserved shortcut tables, and the
//! decision which shortcut a plugin menu item receives.

use vstd::prelude::*;
use vstd::multiset::Multiset;

use super::keys::{
    ALT, CTRL, KEY_BACKSPACE, KEY_DELETE, KEY_DOWN, KEY_END, KEY_ESCAPE, KEY_F_BASE, KEY_HOME,
    KEY_INSERT, KEY_LEFT, KEY_PAGE_DOWN, KEY_PAGE_UP, KEY_RIGHT, KEY_TAB, KEY_UP, SHIFT,
};
use crate::text::{
    append_str, chars_of, decimal_value, ends_with, is_digit, range_equals, same_text, split_bounds,
    split_spec, str_to_lowercase, string_of, to_lowercase, trim_bounds, trim_spec, all_ascii,
    ascii_lowercase,
};

verus! {

/// A key combination as the toolkit encodes it: modifier bits or-ed with a
/// key code. `bits == 0` is "no shortcut".
#[derive(Debug, Clone, Copy, PartialEq, Eq, Structural)]
pub struct Shortcut {
    pub bits: i32,
}

impl Shortcut {
    /// No shortcut.
    pub fn none() -> (r: Shortcut)
        ensures
            r.bits == 0,
    {
        Shortcut { bits: 0 }
    }
}

/// The encoding of a key combined with the given modifiers.
pub open spec fn shortcut_bits(ctrl: bool, shift: bool, alt: bool, key: i32) -> i32 {
    (if ctrl { CTRL } else { 0i32 }) | (if shift { SHIFT } else { 0i32 }) | (if alt { ALT } else { 0i32 }) | key
}

/// Executable form of `shortcut_bits`.
pub fn combine(ctrl: bool, shift: bool, alt: bool, key: i32) -> (r: Shortcut)
    ensures
        r.bits == shortcut_bits(ctrl, shift, alt, key),
{
    let c: i32 = if ctrl { CTRL } else { 0 };
    let s: i32 = if shift { SHIFT } else { 0 };
    let a: i32 = if alt { ALT } else { 0 };
    Shortcut { bits: c | s | a | key }
}

/// Case folding as Unicode lowercasing decides equality with ASCII words:
/// ASCII capitals become small letters, and the Kelvin sign, the one
/// non-ASCII character whose lowercase form is ASCII, becomes `k`. Any other
/// non-ASCII character lowercases to a non-ASCII form, so it can never make
/// a word equal to an ASCII keyword; it is kept as it is.
pub open spec fn fold_char(c: char) -> char {
    if 'A' <= c && c <= 'Z' {
        ((c as u32) + 32) as char
    } else if c == '\u{212A}' {
        'k'
    } else {
        c
    }
}

/// `fold_char` applied to every character.
pub open spec fn fold(s: Seq<char>) -> Seq<char> {
    s.map_values(|c: char| fold_char(c))
}

/// Executable form of `fold_char`.
pub fn fold_one(c: char) -> (r: char)
    ensures
        r == fold_char(c),
{
    if 'A' <= c && c <= 'Z' {
        let code: u8 = (c as u32 + 32) as u8;
        code as char
    } else if c == '\u{212A}' {
        'k'
    } else {
        c
    }
}

/// `fold` of `v[lo..hi]`.
fn fold_range(v: &Vec<char>, lo: usize, hi: usize) -> (r: Vec<char>)
    requires
        lo <= hi <= v.len(),
    ensures
        r@ == fold(v@.subrange(lo as int, hi as int)),
{
    let mut r: Vec<char> = Vec::new();
    let mut i = lo;
    while i < hi
        invariant
            lo <= i <= hi <= v.len(),
            r@ == fold(v@.subrange(lo as int, i as int)),
        decreases hi - i,
    {
        let c = fold_one(v[i]);
        r.push(c);
        assert(fold(v@.subrange(lo as int, i + 1)) =~= fold(v@.subrange(lo as int, i as int)).push(c));
        i += 1;
    }
    r
}

/// The number `n` of a function-key name `f<n>` (already folded), for
/// `1 <= n <= 12`: an `f` followed by decimal digits (leading zeros allowed).
pub open spec fn function_key_number(l: Seq<char>) -> Option<nat> {
    if l.len() >= 2 && l[0] == 'f' && (forall|j: int| 1 <= j < l.len() ==> is_digit(#[trigger] l[j]))
        && 1 <= decimal_value(l.skip(1)) <= 12 {
        Some(decimal_value(l.skip(1)))
    } else {
        None
    }
}

/// Key codes of the named keys, by their folded names.
pub open spec fn named_key(l: Seq<char>) -> Option<i32> {
    if l == "tab"@ {
        Some(KEY_TAB)
    } else if l == "backspace"@ {
        Some(KEY_BACKSPACE)
    } else if l == "delete"@ || l == "del"@ {
        Some(KEY_DELETE)
    } else if l == "insert"@ || l == "ins"@ {
        Some(KEY_INSERT)
    } else if l == "home"@ {
        Some(KEY_HOME)
    } else if l == "end"@ {
        Some(KEY_END)
    } else if l == "pageup"@ || l == "pgup"@ {
        Some(KEY_PAGE_UP)
    } else if l == "pagedown"@ || l == "pgdn"@ {
        Some(KEY_PAGE_DOWN)
    } else if l == "left"@ {
        Some(KEY_LEFT)
    } else if l == "right"@ {
        Some(KEY_RIGHT)
    } else if l == "up"@ {
        Some(KEY_UP)
    } else if l == "down"@ {
        Some(KEY_DOWN)
    } else if l == "space"@ {
        Some(' ' as i32)
    } else if l == "escape"@ || l == "esc"@ {
        Some(KEY_ESCAPE)
    } else {
        None
    }
}

/// Whether `c` is an ASCII letter or digit.
pub open spec fn is_ascii_alnum(c: char) -> bool {
    ('a' <= c && c <= 'z') || ('A' <= c && c <= 'Z') || ('0' <= c && c <= '9')
}

/// The ASCII lowercase form of `c`.
pub open spec fn ascii_lower(c: char) -> char {
    if 'A' <= c && c <= 'Z' {
        ((c as u32) + 32) as char
    } else {
        c
    }
}

/// The key code a (trimmed) non-modifier part names: a function key, a
/// named key, or a single ASCII letter or digit (as its lowercase code).
pub open spec fn key_for_part(p: Seq<char>) -> Option<i32> {
    let l = fold(p);
    if function_key_number(l) is Some {
        Some((KEY_F_BASE + function_key_number(l)->0) as i32)
    } else if named_key(l) is Some {
        named_key(l)
    } else if p.len() == 1 && is_ascii_alnum(p[0]) {
        Some(ascii_lower(p[0]) as i32)
    } else {
        None
    }
}

/// Modifiers and key collected from the parts read so far.
pub struct PartsState {
    pub ctrl: bool,
    pub shift: bool,
    pub alt: bool,
    pub key: Option<i32>,
}

/// Reads the (trimmed) parts of a shortcut string in order: modifier names
/// set their flag; any other part must name a key, and only one key may be
/// named. `None` when a part is invalid.
pub open spec fn parse_parts(parts: Seq<Seq<char>>, st: PartsState) -> Option<PartsState>
    decreases parts.len(),
{
    if parts.len() == 0 {
        Some(st)
    } else {
        let l = fold(parts[0]);
        let rest = parts.drop_first();
        if l == "ctrl"@ || l == "control"@ {
            parse_parts(rest, PartsState { ctrl: true, ..st })
        } else if l == "shift"@ {
            parse_parts(rest, PartsState { shift: true, ..st })
        } else if l == "alt"@ {
            parse_parts(rest, PartsState { alt: true, ..st })
        } else if st.key is Some {
            None
        } else {
            match key_for_part(parts[0]) {
                Some(k) => parse_parts(rest, PartsState { key: Some(k), ..st }),
                None => None,
            }
        }
    }
}

/// The parts of a shortcut string: the pieces between `+` signs, trimmed.
pub open spec fn shortcut_parts(s: Seq<char>) -> Seq<Seq<char>> {
    split_spec(s, '+').map_values(|p: Seq<char>| trim_spec(p))
}

/// What `parse_shortcut` returns for the characters `s`.
pub open spec fn parse_shortcut_spec(s: Seq<char>) -> Option<Shortcut> {
    if s.len() == 0 {
        None
    } else {
        match parse_parts(
            shortcut_parts(s),
            PartsState { ctrl: false, shift: false, alt: false, key: None },
        ) {
            Some(st) => match st.key {
                Some(k) => Some(Shortcut { bits: shortcut_bits(st.ctrl, st.shift, st.alt, k) }),
                None => None,
            },
            None => None,
        }
    }
}

/// Whether a (trimmed) part names a modifier.
pub open spec fn is_modifier_part(p: Seq<char>) -> bool {
    let l = fold(p);
    l == "ctrl"@ || l == "control"@ || l == "shift"@ || l == "alt"@
}

/// Whether a (trimmed) part names Ctrl.
pub open spec fn is_ctrl_part(p: Seq<char>) -> bool {
    fold(p) == "ctrl"@ || fold(p) == "control"@
}

/// Whether `x` is the one part among `m` that is not a modifier.
pub open spec fn sole_key_part(m: Multiset<Seq<char>>, x: Seq<char>) -> bool {
    &&& !is_modifier_part(x)
    &&& m.count(x) == 1
    &&& forall|y: Seq<char>| #[trigger] m.count(y) > 0 && y != x ==> is_modifier_part(y)
}

/// What reading the parts `m` from `st` gives, whatever their order: the
/// modifiers named are set; no other part leaves the key as it was; else
/// the key must be unset and exactly one part, naming a key, may be other
/// than a modifier.
pub open spec fn parts_outcome(m: Multiset<Seq<char>>, st: PartsState) -> Option<PartsState> {
    let flags = PartsState {
        ctrl: st.ctrl || exists|y: Seq<char>| #[trigger] m.count(y) > 0 && is_ctrl_part(y),
        shift: st.shift || exists|y: Seq<char>| #[trigger] m.count(y) > 0 && fold(y) == "shift"@,
        alt: st.alt || exists|y: Seq<char>| #[trigger] m.count(y) > 0 && fold(y) == "alt"@,
        key: st.key,
    };
    if forall|y: Seq<char>| #[trigger] m.count(y) > 0 ==> is_modifier_part(y) {
        Some(flags)
    } else if st.key is None && exists|x: Seq<char>| sole_key_part(m, x) {
        match key_for_part(choose|x: Seq<char>| sole_key_part(m, x)) {
            Some(k) => Some(PartsState { key: Some(k), ..flags }),
            None => None,
        }
    } else {
        None
    }
}

proof fn lemma_sole_key_unique(m: Multiset<Seq<char>>, x: Seq<char>, z: Seq<char>)
    requires
        sole_key_part(m, x),
        !is_modifier_part(z),
        m.count(z) > 0,
    ensures
        z == x,
        (choose|w: Seq<char>| sole_key_part(m, w)) == x,
{
    let w = choose|w: Seq<char>| sole_key_part(m, w);
    assert(sole_key_part(m, w));
    assert(m.count(x) > 0);
    if w != x {
        assert(is_modifier_part(x));
    }
}

/// `parse_parts` depends on the parts only as a multiset (see
/// `parts_outcome`).
proof fn lemma_parse_parts_outcome(parts: Seq<Seq<char>>, st: PartsState)
    ensures
        parse_parts(parts, st) == parts_outcome(parts.to_multiset(), st),
    decreases parts.len(),
{
    broadcast use vstd::multiset::group_multiset_axioms;

    reveal_strlit("ctrl");
    reveal_strlit("control");
    reveal_strlit("shift");
    reveal_strlit("alt");
    let m = parts.to_multiset();
    if parts.len() == 0 {
        assert(parts.to_multiset() =~= Multiset::empty()) by {
            vstd::seq_lib::to_multiset_len(parts);
        }
        return;
    }
    let h = parts[0];
    let rest = parts.drop_first();
    let mr = rest.to_multiset();
    assert(rest.insert(0, h) =~= parts);
    vstd::seq_lib::to_multiset_insert(rest, 0, h);
    assert(m == mr.insert(h));
    assert(m.count(h) > 0);
    assert forall|y: Seq<char>| #[trigger] m.count(y) == mr.count(y) + (if y == h { 1int } else { 0int }) by {
    }
    let l = fold(h);
    if is_modifier_part(h) {
        let st2 = if l == "ctrl"@ || l == "control"@ {
            PartsState { ctrl: true, ..st }
        } else if l == "shift"@ {
            PartsState { shift: true, ..st }
        } else {
            PartsState { alt: true, ..st }
        };
        assert(parse_parts(parts, st) == parse_parts(rest, st2));
        lemma_parse_parts_outcome(rest, st2);
        assert forall|x: Seq<char>| sole_key_part(m, x) <==> sole_key_part(mr, x) by {
            if sole_key_part(mr, x) {
                assert forall|y: Seq<char>| #[trigger] m.count(y) > 0 && y != x implies is_modifier_part(y) by {
                    if y != h {
                        assert(mr.count(y) > 0);
                    }
                }
            }
            if sole_key_part(m, x) {
                assert forall|y: Seq<char>| #[trigger] mr.count(y) > 0 && y != x implies is_modifier_part(y) by {
                    assert(m.count(y) > 0);
                }
            }
        }
        if exists|x: Seq<char>| sole_key_part(m, x) {
            let x = choose|x: Seq<char>| sole_key_part(m, x);
            assert(sole_key_part(mr, x));
            assert(!is_modifier_part(x) && mr.count(x) > 0);
            lemma_sole_key_unique(mr, x, x);
        }
        let ctrl_m = exists|y: Seq<char>| #[trigger] m.count(y) > 0 && is_ctrl_part(y);
        let ctrl_r = exists|y: Seq<char>| #[trigger] mr.count(y) > 0 && is_ctrl_part(y);
        let shift_m = exists|y: Seq<char>| #[trigger] m.count(y) > 0 && fold(y) == "shift"@;
        let shift_r = exists|y: Seq<char>| #[trigger] mr.count(y) > 0 && fold(y) == "shift"@;
        let alt_m = exists|y: Seq<char>| #[trigger] m.count(y) > 0 && fold(y) == "alt"@;
        let alt_r = exists|y: Seq<char>| #[trigger] mr.count(y) > 0 && fold(y) == "alt"@;
        if ctrl_r {
            let y = choose|y: Seq<char>| #[trigger] mr.count(y) > 0 && is_ctrl_part(y);
            assert(m.count(y) > 0);
        }
        if shift_r {
            let y = choose|y: Seq<char>| #[trigger] mr.count(y) > 0 && fold(y) == "shift"@;
            assert(m.count(y) > 0);
        }
        if alt_r {
            let y = choose|y: Seq<char>| #[trigger] mr.count(y) > 0 && fold(y) == "alt"@;
            assert(m.count(y) > 0);
        }
        if ctrl_m && !is_ctrl_part(h) {
            let y = choose|y: Seq<char>| #[trigger] m.count(y) > 0 && is_ctrl_part(y);
            assert(mr.count(y) > 0);
        }
        if shift_m && l != "shift"@ {
            let y = choose|y: Seq<char>| #[trigger] m.count(y) > 0 && fold(y) == "shift"@;
            assert(mr.count(y) > 0);
        }
        if alt_m && l != "alt"@ {
            let y = choose|y: Seq<char>| #[trigger] m.count(y) > 0 && fold(y) == "alt"@;
            assert(mr.count(y) > 0);
        }
        let all_m = forall|y: Seq<char>| #[trigger] m.count(y) > 0 ==> is_modifier_part(y);
        let all_r = forall|y: Seq<char>| #[trigger] mr.count(y) > 0 ==> is_modifier_part(y);
        if all_r {
            assert forall|y: Seq<char>| #[trigger] m.count(y) > 0 implies is_modifier_part(y) by {
                if y != h {
                    assert(mr.count(y) > 0);
                }
            }
        }
        if all_m {
            assert forall|y: Seq<char>| #[trigger] mr.count(y) > 0 implies is_modifier_part(y) by {
                assert(m.count(y) > 0);
            }
        }
    } else {
        assert(!(forall|y: Seq<char>| #[trigger] m.count(y) > 0 ==> is_modifier_part(y)));
        if st.key is None {
            match key_for_part(h) {
                Some(k) => {
                    let st2 = PartsState { key: Some(k), ..st };
                    lemma_parse_parts_outcome(rest, st2);
                    let all_r = forall|y: Seq<char>| #[trigger] mr.count(y) > 0 ==> is_modifier_part(y);
                    if all_r {
                        assert(mr.count(h) == 0);
                        assert(sole_key_part(m, h)) by {
                            assert forall|y: Seq<char>| #[trigger] m.count(y) > 0 && y != h implies is_modifier_part(y) by {
                                assert(mr.count(y) > 0);
                            }
                        }
                        lemma_sole_key_unique(m, h, h);
                        let ctrl_m = exists|y: Seq<char>| #[trigger] m.count(y) > 0 && is_ctrl_part(y);
                        let ctrl_r = exists|y: Seq<char>| #[trigger] mr.count(y) > 0 && is_ctrl_part(y);
                        let shift_m = exists|y: Seq<char>| #[trigger] m.count(y) > 0 && fold(y) == "shift"@;
                        let shift_r = exists|y: Seq<char>| #[trigger] mr.count(y) > 0 && fold(y) == "shift"@;
                        let alt_m = exists|y: Seq<char>| #[trigger] m.count(y) > 0 && fold(y) == "alt"@;
                        let alt_r = exists|y: Seq<char>| #[trigger] mr.count(y) > 0 && fold(y) == "alt"@;
                        if ctrl_r {
                            let y = choose|y: Seq<char>| #[trigger] mr.count(y) > 0 && is_ctrl_part(y);
                            assert(m.count(y) > 0);
                        }
                        if shift_r {
                            let y = choose|y: Seq<char>| #[trigger] mr.count(y) > 0 && fold(y) == "shift"@;
                            assert(m.count(y) > 0);
                        }
                        if alt_r {
                            let y = choose|y: Seq<char>| #[trigger] mr.count(y) > 0 && fold(y) == "alt"@;
                            assert(m.count(y) > 0);
                        }
                        if ctrl_m {
                            let y = choose|y: Seq<char>| #[trigger] m.count(y) > 0 && is_ctrl_part(y);
                            assert(mr.count(y) > 0);
                        }
                        if shift_m {
                            let y = choose|y: Seq<char>| #[trigger] m.count(y) > 0 && fold(y) == "shift"@;
                            assert(mr.count(y) > 0);
                        }
                        if alt_m {
                            let y = choose|y: Seq<char>| #[trigger] m.count(y) > 0 && fold(y) == "alt"@;
                            assert(mr.count(y) > 0);
                        }
                    } else {
                        let z = choose|y: Seq<char>| #[trigger] mr.count(y) > 0 && !is_modifier_part(y);
                        assert(mr.count(z) > 0 && !is_modifier_part(z));
                        if exists|x: Seq<char>| sole_key_part(m, x) {
                            let x = choose|x: Seq<char>| sole_key_part(m, x);
                            assert(m.count(z) > 0);
                            lemma_sole_key_unique(m, x, z);
                            lemma_sole_key_unique(m, x, h);
                            assert(m.count(h) >= 2);
                        }
                    }
                },
                None => {
                    if exists|x: Seq<char>| sole_key_part(m, x) {
                        let x = choose|x: Seq<char>| sole_key_part(m, x);
                        lemma_sole_key_unique(m, x, h);
                    }
                },
            }
        }
    }
}

/// Reordering the parts of a shortcut string, or padding them with
/// whitespace, does not change what it parses to: two strings whose
/// trimmed parts are the same, in any order, parse alike.
pub proof fn lemma_parse_shortcut_ignores_part_order(s1: Seq<char>, s2: Seq<char>)
    requires
        shortcut_parts(s1).to_multiset() == shortcut_parts(s2).to_multiset(),
    ensures
        parse_shortcut_spec(s1) == parse_shortcut_spec(s2),
{
    let init = PartsState { ctrl: false, shift: false, alt: false, key: None };
    lemma_parse_parts_outcome(shortcut_parts(s1), init);
    lemma_parse_parts_outcome(shortcut_parts(s2), init);
    lemma_empty_string_parts(s1);
    lemma_empty_string_parts(s2);
}

/// The empty string's only part names nothing, so reading it fails as
/// the empty string does.
proof fn lemma_empty_string_parts(s: Seq<char>)
    ensures
        s.len() == 0 ==> parse_parts(
            shortcut_parts(s),
            PartsState { ctrl: false, shift: false, alt: false, key: None },
        ) is None,
{
    if s.len() == 0 {
        let e = Seq::<char>::empty();
        assert(split_spec(s, '+') == seq![e]);
        assert(trim_spec(e) =~= e);
        assert(shortcut_parts(s) =~= seq![e]);
        assert(fold(e) =~= e);
        reveal_strlit("ctrl");
        reveal_strlit("control");
        reveal_strlit("shift");
        reveal_strlit("alt");
        reveal_strlit("tab");
        reveal_strlit("backspace");
        reveal_strlit("delete");
        reveal_strlit("del");
        reveal_strlit("insert");
        reveal_strlit("ins");
        reveal_strlit("home");
        reveal_strlit("end");
        reveal_strlit("pageup");
        reveal_strlit("pgup");
        reveal_strlit("pagedown");
        reveal_strlit("pgdn");
        reveal_strlit("left");
        reveal_strlit("right");
        reveal_strlit("up");
        reveal_strlit("down");
        reveal_strlit("space");
        reveal_strlit("escape");
        reveal_strlit("esc");
        assert(key_for_part(e) is None);
        assert(seq![e].drop_first() =~= Seq::<Seq<char>>::empty());
    }
}

/// The number of a function-key name `f<n>` in the folded `l`, if any.
fn function_key_of(l: &Vec<char>) -> (r: Option<u32>)
    ensures
        r matches Some(n) ==> function_key_number(l@) == Some(n as nat),
        r is None ==> function_key_number(l@) is None,
{
    if l.len() < 2 || l[0] != 'f' {
        return None;
    }
    // Digits are read into a value capped at 13: only 1..=12 matters.
    let mut value: u32 = 0;
    let mut i: usize = 1;
    while i < l.len()
        invariant
            1 <= i <= l.len(),
            l.len() >= 2,
            forall|j: int| 1 <= j < i ==> is_digit(#[trigger] l@[j]),
            value as nat == if decimal_value(l@.subrange(1, i as int)) <= 13 {
                decimal_value(l@.subrange(1, i as int))
            } else {
                13
            },
        decreases l.len() - i,
    {
        let c = l[i];
        if !('0' <= c && c <= '9') {
            assert(!is_digit(l@[i as int]));
            return None;
        }
        let d: u32 = c as u32 - '0' as u32;
        let ghost prev = l@.subrange(1, i as int);
        assert(l@.subrange(1, i + 1).drop_last() =~= prev);
        if value >= 13 {
            value = 13;
        } else {
            value = value * 10 + d;
            if value > 13 {
                value = 13;
            }
        }
        i += 1;
    }
    assert(l@.subrange(1, l.len() as int) =~= l@.skip(1));
    if 1 <= value && value <= 12 {
        Some(value)
    } else {
        None
    }
}

/// The key code of a named key, given its folded name.
fn named_key_of(l: &Vec<char>) -> (r: Option<i32>)
    ensures
        r == named_key(l@),
{
    let n = l.len();
    assert(l@.subrange(0, n as int) =~= l@);
    if range_equals(l, 0, n, "tab") {
        Some(KEY_TAB)
    } else if range_equals(l, 0, n, "backspace") {
        Some(KEY_BACKSPACE)
    } else if range_equals(l, 0, n, "delete") || range_equals(l, 0, n, "del") {
        Some(KEY_DELETE)
    } else if range_equals(l, 0, n, "insert") || range_equals(l, 0, n, "ins") {
        Some(KEY_INSERT)
    } else if range_equals(l, 0, n, "home") {
        Some(KEY_HOME)
    } else if range_equals(l, 0, n, "end") {
        Some(KEY_END)
    } else if range_equals(l, 0, n, "pageup") || range_equals(l, 0, n, "pgup") {
        Some(KEY_PAGE_UP)
    } else if range_equals(l, 0, n, "pagedown") || range_equals(l, 0, n, "pgdn") {
        Some(KEY_PAGE_DOWN)
    } else if range_equals(l, 0, n, "left") {
        Some(KEY_LEFT)
    } else if range_equals(l, 0, n, "right") {
        Some(KEY_RIGHT)
    } else if range_equals(l, 0, n, "up") {
        Some(KEY_UP)
    } else if range_equals(l, 0, n, "down") {
        Some(KEY_DOWN)
    } else if range_equals(l, 0, n, "space") {
        Some(' ' as i32)
    } else if range_equals(l, 0, n, "escape") || range_equals(l, 0, n, "esc") {
        Some(KEY_ESCAPE)
    } else {
        None
    }
}

/// The key that the trimmed part `v[a..b]` names, given its fold `l`.
fn key_of_part(v: &Vec<char>, a: usize, b: usize, l: &Vec<char>) -> (r: Option<i32>)
    requires
        a <= b <= v.len(),
        l@ == fold(v@.subrange(a as int, b as int)),
    ensures
        r == key_for_part(v@.subrange(a as int, b as int)),
{
    if let Some(n) = function_key_of(l) {
        return Some(KEY_F_BASE + n as i32);
    }
    if let Some(k) = named_key_of(l) {
        return Some(k);
    }
    if b - a == 1 {
        let c = v[a];
        assert(v@.subrange(a as int, b as int)[0] == c);
        if ('a' <= c && c <= 'z') || ('0' <= c && c <= '9') {
            return Some(c as i32);
        }
        if 'A' <= c && c <= 'Z' {
            return Some((c as u32 + 32) as i32);
        }
    }
    None
}

/// Parses a shortcut string like `"Ctrl+Shift+P"`: parts separated by `+`
/// (surrounding whitespace ignored), matched without regard to case.
/// Modifiers are `Ctrl`/`Control`, `Shift` and `Alt`; exactly one key must
/// be named: `F1`-`F12`, a named key (Tab, Backspace, Delete/Del,
/// Insert/Ins, Home, End, PageUp/PgUp, PageDown/PgDn, arrows, Space,
/// Escape/Esc) or a single ASCII letter or digit. `None` for an empty
/// string, a string without a key, or any unknown part.
pub fn parse_shortcut(s: &str) -> (r: Option<Shortcut>)
    ensures
        r == parse_shortcut_spec(s@),
{
    let v = chars_of(s);
    if v.len() == 0 {
        return None;
    }
    let bounds = split_bounds(&v, '+');
    let ghost parts = shortcut_parts(s@);
    let ghost init = PartsState { ctrl: false, shift: false, alt: false, key: None };
    let mut ctrl = false;
    let mut shift = false;
    let mut alt = false;
    let mut key: Option<i32> = None;
    let mut i: usize = 0;
    assert(parts.skip(0) =~= parts);
    while i < bounds.len()
        invariant
            v@ == s@,
            bounds.len() == parts.len(),
            parts == shortcut_parts(s@),
            init == (PartsState { ctrl: false, shift: false, alt: false, key: None }),
            v.len() > 0,
            forall|k: int|
                0 <= k < bounds.len() ==> {
                    &&& (#[trigger] bounds@[k]).0 <= bounds@[k].1 <= v.len()
                    &&& v@.subrange(bounds@[k].0 as int, bounds@[k].1 as int) == split_spec(
                        v@,
                        '+',
                    )[k]
                },
            i <= bounds.len(),
            parse_parts(parts, init) == parse_parts(
                parts.skip(i as int),
                PartsState { ctrl, shift, alt, key },
            ),
        decreases bounds.len() - i,
    {
        let (lo, hi) = bounds[i];
        let (a, b) = trim_bounds(&v, lo, hi);
        let l = fold_range(&v, a, b);
        let n = l.len();
        let ghost st = PartsState { ctrl, shift, alt, key };
        proof {
            assert(parts[i as int] == trim_spec(split_spec(v@, '+')[i as int]));
            assert(parts[i as int] == v@.subrange(a as int, b as int));
            assert(parts.skip(i as int)[0] == parts[i as int]);
            assert(parts.skip(i as int).drop_first() =~= parts.skip(i + 1));
            assert(l@.subrange(0, n as int) =~= l@);
            assert(fold(parts.skip(i as int)[0]) == l@);
            assert(parse_parts(parts.skip(i as int), st) == {
                let rest = parts.skip(i + 1);
                if l@ == "ctrl"@ || l@ == "control"@ {
                    parse_parts(rest, PartsState { ctrl: true, ..st })
                } else if l@ == "shift"@ {
                    parse_parts(rest, PartsState { shift: true, ..st })
                } else if l@ == "alt"@ {
                    parse_parts(rest, PartsState { alt: true, ..st })
                } else if st.key is Some {
                    None
                } else {
                    match key_for_part(parts[i as int]) {
                        Some(k) => parse_parts(rest, PartsState { key: Some(k), ..st }),
                        None => None,
                    }
                }
            });
        }
        if range_equals(&l, 0, n, "ctrl") || range_equals(&l, 0, n, "control") {
            ctrl = true;
        } else if range_equals(&l, 0, n, "shift") {
            shift = true;
        } else if range_equals(&l, 0, n, "alt") {
            alt = true;
        } else {
            if key.is_some() {
                return None;
            }
            match key_of_part(&v, a, b, &l) {
                Some(k) => {
                    key = Some(k);
                },
                None => {
                    return None;
                },
            }
        }
        i += 1;
    }
    assert(parts.skip(i as int).len() == 0);
    match key {
        Some(k) => Some(combine(ctrl, shift, alt, k)),
        None => None,
    }
}

/// Whether a shortcut string is valid: non-empty and parseable.
pub fn is_valid_shortcut(s: &str) -> (r: bool)
    ensures
        r == (s@.len() > 0 && parse_shortcut_spec(s@) is Some),
{
    if s.is_empty() {
        false
    } else {
        parse_shortcut(s).is_some()
    }
}


/// The command id of a plugin's menu action: `plugin:<name>:<action>`.
pub fn plugin_command_id(plugin_name: &str, action: &str) -> (r: String)
    ensures
        r@ == "plugin:"@ + plugin_name@ + ":"@ + action@,
{
    let mut r = string_of("plugin:");
    append_str(&mut r, plugin_name);
    append_str(&mut r, ":");
    append_str(&mut r, action);
    r
}

/// Whether `s` ends with `suffix`.
pub open spec fn has_suffix(s: Seq<char>, suffix: Seq<char>) -> bool {
    suffix.len() <= s.len() && s.skip(s.len() - suffix.len()) == suffix
}

/// Whether the file path ends with one of the extensions (given with their
/// dot, e.g. `.py`), ignoring case: both are lowercased before comparing.
/// No path never matches. For ASCII text, lowercasing is that of ASCII
/// letters.
pub fn file_matches_extensions(file_path: Option<&str>, extensions: &[&str]) -> (r: bool)
    ensures
        r == match file_path {
            None => false,
            Some(p) => exists|i: int|
                0 <= i < extensions@.len() && has_suffix(
                    str_to_lowercase(p@),
                    str_to_lowercase(#[trigger] extensions@[i]@),
                ),
        },
        match file_path {
            None => true,
            Some(p) => all_ascii(p@) && (forall|i: int|
                0 <= i < extensions@.len() ==> all_ascii(#[trigger] extensions@[i]@)) ==> (r == exists|i: int|
                0 <= i < extensions@.len() && has_suffix(
                    ascii_lowercase(p@),
                    ascii_lowercase(#[trigger] extensions@[i]@),
                )),
        },
{
    match file_path {
        None => false,
        Some(p) => {
            let lower = to_lowercase(p);
            let lv = chars_of(lower.as_str());
            let mut i: usize = 0;
            while i < extensions.len()
                invariant
                    i <= extensions.len(),
                    file_path == Some(p),
                    lv@ == str_to_lowercase(p@),
                    all_ascii(p@) ==> str_to_lowercase(p@) == ascii_lowercase(p@),
                    forall|j: int|
                        0 <= j < i ==> !has_suffix(str_to_lowercase(p@), str_to_lowercase(#[trigger] extensions@[j]@)),
                    forall|j: int|
                        0 <= j < i && all_ascii(#[trigger] extensions@[j]@) ==> str_to_lowercase(extensions@[j]@)
                            == ascii_lowercase(extensions@[j]@),
                decreases extensions.len() - i,
            {
                let ext_lower = to_lowercase(extensions[i]);
                let ext = chars_of(ext_lower.as_str());
                if ends_with(&lv, &ext) {
                    assert(has_suffix(str_to_lowercase(p@), str_to_lowercase(extensions@[i as int]@)));
                    return true;
                }
                i += 1;
            }
            false
        },
    }
}

/// A user's override of a command's shortcut, as the shortcut registry
/// stores it: when `enabled`, `shortcut` replaces the default (an empty
/// one unbinds the command); when not enabled, the default applies.
#[derive(Debug)]
pub struct ShortcutOverride {
    pub enabled: bool,
    pub shortcut: String,
}

/// Which shortcut string a plugin menu item gets: an enabled override with
/// a shortcut wins; an enabled empty override unbinds it; otherwise the
/// plugin manifest's default applies, unless it is empty.
pub open spec fn plugin_item_shortcut_spec(
    override_entry: Option<ShortcutOverride>,
    manifest_default: Option<Seq<char>>,
) -> Option<Seq<char>> {
    let fallback = match manifest_default {
        Some(d) => if d.len() > 0 { Some(d) } else { None },
        None => None,
    };
    match override_entry {
        Some(o) => if o.enabled && o.shortcut@.len() > 0 {
            Some(o.shortcut@)
        } else if o.enabled {
            None
        } else {
            fallback
        },
        None => fallback,
    }
}

/// Resolves the shortcut string of a plugin menu item: registry override
/// first, then the manifest default (see `plugin_item_shortcut_spec`).
pub fn plugin_item_shortcut(
    override_entry: Option<&ShortcutOverride>,
    manifest_default: Option<&str>,
) -> (r: Option<String>)
    ensures
        r matches Some(x) ==> plugin_item_shortcut_spec(
            match override_entry {
                Some(o) => Some(*o),
                None => None,
            },
            match manifest_default {
                Some(d) => Some(d@),
                None => None,
            },
        ) == Some(x@),
        r is None ==> plugin_item_shortcut_spec(
            match override_entry {
                Some(o) => Some(*o),
                None => None,
            },
            match manifest_default {
                Some(d) => Some(d@),
                None => None,
            },
        ) is None,
{
    let fallback = match manifest_default {
        Some(d) => if d.is_empty() {
            None
        } else {
            Some(string_of(d))
        },
        None => None,
    };
    match override_entry {
        Some(o) => if o.enabled && !o.shortcut.as_str().is_empty() {
            Some(string_of(o.shortcut.as_str()))
        } else if o.enabled {
            None
        } else {
            fallback
        },
        None => fallback,
    }
}


/// The built-in commands and their default shortcuts, as `(command id,
/// shortcut)`: the one table of the editor's default shortcuts. `File/New`
/// is `Ctrl+N` instead when tabs are off, and the three tab commands exist
/// only with tabs.
#[verifier::opaque]
pub open spec fn builtin_shortcuts_spec() -> Seq<(Seq<char>, Seq<char>)> {
    seq![
        ("File/New"@, "Ctrl+T"@),
        ("File/Open..."@, "Ctrl+O"@),
        ("File/Save"@, "Ctrl+S"@),
        ("File/Save As..."@, "Ctrl+Shift+S"@),
        ("File/Close Tab"@, "Ctrl+W"@),
        ("File/Next Tab"@, "Ctrl+Tab"@),
        ("File/Previous Tab"@, "Ctrl+Shift+Tab"@),
        ("File/Quit"@, "Ctrl+Q"@),
        ("Edit/Undo"@, "Ctrl+Z"@),
        ("Edit/Redo"@, "Ctrl+Shift+Z"@),
        ("Edit/Cut"@, "Ctrl+X"@),
        ("Edit/Copy"@, "Ctrl+C"@),
        ("Edit/Paste"@, "Ctrl+V"@),
        ("Edit/Select All"@, "Ctrl+A"@),
        ("Edit/Find..."@, "Ctrl+F"@),
        ("Edit/Replace..."@, "Ctrl+H"@),
        ("Edit/Go To Line..."@, "Ctrl+G"@),
        ("View/Preview in Browser"@, "Ctrl+M"@),
        ("Plugins/General/Run All Checks"@, "Ctrl+Shift+L"@),
    ]
}

/// The pairs as plain values.
pub open spec fn pair_views(t: Seq<(String, String)>) -> Seq<(Seq<char>, Seq<char>)> {
    Seq::new(t.len(), |i: int| (t[i].0@, t[i].1@))
}

/// The built-in shortcut table (see `builtin_shortcuts_spec`).
pub fn builtin_shortcuts() -> (r: Vec<(String, String)>)
    ensures
        pair_views(r@) == builtin_shortcuts_spec(),
{
    let mut t: Vec<(String, String)> = Vec::new();
    t.push((string_of("File/New"), string_of("Ctrl+T")));
    t.push((string_of("File/Open..."), string_of("Ctrl+O")));
    t.push((string_of("File/Save"), string_of("Ctrl+S")));
    t.push((string_of("File/Save As..."), string_of("Ctrl+Shift+S")));
    t.push((string_of("File/Close Tab"), string_of("Ctrl+W")));
    t.push((string_of("File/Next Tab"), string_of("Ctrl+Tab")));
    t.push((string_of("File/Previous Tab"), string_of("Ctrl+Shift+Tab")));
    t.push((string_of("File/Quit"), string_of("Ctrl+Q")));
    t.push((string_of("Edit/Undo"), string_of("Ctrl+Z")));
    t.push((string_of("Edit/Redo"), string_of("Ctrl+Shift+Z")));
    t.push((string_of("Edit/Cut"), string_of("Ctrl+X")));
    t.push((string_of("Edit/Copy"), string_of("Ctrl+C")));
    t.push((string_of("Edit/Paste"), string_of("Ctrl+V")));
    t.push((string_of("Edit/Select All"), string_of("Ctrl+A")));
    t.push((string_of("Edit/Find..."), string_of("Ctrl+F")));
    t.push((string_of("Edit/Replace..."), string_of("Ctrl+H")));
    t.push((string_of("Edit/Go To Line..."), string_of("Ctrl+G")));
    t.push((string_of("View/Preview in Browser"), string_of("Ctrl+M")));
    t.push((string_of("Plugins/General/Run All Checks"), string_of("Ctrl+Shift+L")));
    proof {
        reveal(builtin_shortcuts_spec);
    }
    assert(pair_views(t@) =~= builtin_shortcuts_spec());
    t
}

/// Whether a built-in command exists only when tabs are on.
pub open spec fn is_tab_only(id: Seq<char>) -> bool {
    id == "File/Close Tab"@ || id == "File/Next Tab"@ || id == "File/Previous Tab"@
}

/// The shortcut of the first entry of `t` for command `id`; nothing when
/// `t` has no entry for it.
pub open spec fn first_default(t: Seq<(Seq<char>, Seq<char>)>, id: Seq<char>) -> Seq<char>
    decreases t.len(),
{
    if t.len() == 0 {
        Seq::empty()
    } else if t[0].0 == id {
        t[0].1
    } else {
        first_default(t.drop_first(), id)
    }
}

/// The default shortcut of a built-in command: `Ctrl+N` for `File/New`
/// when tabs are off, else its entry in the table (the first one), or
/// nothing for a command not in the table.
pub open spec fn builtin_default_spec(id: Seq<char>, tabs_enabled: bool) -> Seq<char> {
    if id == "File/New"@ && !tabs_enabled {
        "Ctrl+N"@
    } else {
        first_default(builtin_shortcuts_spec(), id)
    }
}

/// The default shortcut of a built-in command (see
/// `builtin_default_spec`).
pub fn builtin_default(id: &str, tabs_enabled: bool) -> (r: String)
    ensures
        r@ == builtin_default_spec(id@, tabs_enabled),
{
    let t = builtin_shortcuts();
    let ghost spec = builtin_shortcuts_spec();
    if same_text(id, "File/New") && !tabs_enabled {
        return string_of("Ctrl+N");
    }
    let mut k: usize = 0;
    assert(spec.skip(0) =~= spec);
    while k < t.len()
        invariant
            k <= t@.len(),
            pair_views(t@) == spec,
            spec == builtin_shortcuts_spec(),
            !(id@ == "File/New"@ && !tabs_enabled),
            first_default(spec, id@) == first_default(spec.skip(k as int), id@),
        decreases t@.len() - k,
    {
        assert(pair_views(t@)[k as int] == (t@[k as int].0@, t@[k as int].1@));
        assert(spec.skip(k as int)[0] == spec[k as int]);
        assert(spec.skip(k as int).drop_first() =~= spec.skip(k + 1));
        if same_text(t[k].0.as_str(), id) {
            return string_of(t[k].1.as_str());
        }
        k += 1;
    }
    assert(spec.skip(k as int) =~= Seq::<(Seq<char>, Seq<char>)>::empty());
    String::new()
}

/// Whether a built-in command's shortcut applies: always with tabs on,
/// and for all but the tab commands with tabs off.
pub open spec fn keep_builtin(tabs_enabled: bool) -> spec_fn((Seq<char>, Seq<char>)) -> bool {
    |e: (Seq<char>, Seq<char>)| tabs_enabled || !is_tab_only(e.0)
}

/// A built-in command with the default that applies: `File/New` moves to
/// `Ctrl+N` with tabs off.
pub open spec fn adjust_builtin(tabs_enabled: bool) -> spec_fn((Seq<char>, Seq<char>)) -> (Seq<char>, Seq<char>) {
    |e: (Seq<char>, Seq<char>)|
        if e.0 == "File/New"@ && !tabs_enabled {
            (e.0, "Ctrl+N"@)
        } else {
            e
        }
}

/// The built-in shortcuts that apply, with their defaults: the whole table
/// with tabs on; with tabs off, without the tab commands and with `File/New`
/// on `Ctrl+N`.
pub open spec fn applicable_builtins_spec(tabs_enabled: bool) -> Seq<(Seq<char>, Seq<char>)> {
    builtin_shortcuts_spec().filter(keep_builtin(tabs_enabled)).map_values(adjust_builtin(tabs_enabled))
}

/// The built-in shortcuts that apply (see `applicable_builtins_spec`), in
/// table order.
pub fn applicable_builtins(tabs_enabled: bool) -> (r: Vec<(String, String)>)
    ensures
        pair_views(r@) == applicable_builtins_spec(tabs_enabled),
{
    let t = builtin_shortcuts();
    let ghost spec = builtin_shortcuts_spec();
    let ghost keep = keep_builtin(tabs_enabled);
    let ghost adjust = adjust_builtin(tabs_enabled);
    let mut r: Vec<(String, String)> = Vec::new();
    let mut k: usize = 0;
    proof {
        reveal(Seq::filter);
        assert(spec.take(0) =~= Seq::<(Seq<char>, Seq<char>)>::empty());
        assert(pair_views(r@) =~= spec.take(0).filter(keep).map_values(adjust));
    }
    while k < t.len()
        invariant
            k <= t@.len(),
            pair_views(t@) == spec,
            spec == builtin_shortcuts_spec(),
            keep == keep_builtin(tabs_enabled),
            adjust == adjust_builtin(tabs_enabled),
            pair_views(r@) == spec.take(k as int).filter(keep).map_values(adjust),
        decreases t@.len() - k,
    {
        assert(pair_views(t@)[k as int] == (t@[k as int].0@, t@[k as int].1@));
        let ghost e = spec[k as int];
        let ghost before = r@;
        proof {
            reveal(Seq::filter);
            assert(spec.take(k + 1).drop_last() =~= spec.take(k as int));
            assert(spec.take(k + 1).last() == e);
        }
        let id = t[k].0.as_str();
        let tab_only = same_text(id, "File/Close Tab") || same_text(id, "File/Next Tab") || same_text(
            id,
            "File/Previous Tab",
        );
        if tabs_enabled || !tab_only {
            let d = if same_text(id, "File/New") && !tabs_enabled {
                string_of("Ctrl+N")
            } else {
                string_of(t[k].1.as_str())
            };
            r.push((string_of(id), d));
            proof {
                assert(keep(e));
                let f = spec.take(k as int).filter(keep);
                assert(spec.take(k + 1).filter(keep) == f.push(e));
                assert(f.push(e).map_values(adjust) =~= f.map_values(adjust).push(adjust(e)));
                assert(pair_views(r@) =~= pair_views(before).push(adjust(e)));
            }
        } else {
            proof {
                assert(!keep(e));
                assert(spec.take(k + 1).filter(keep) == spec.take(k as int).filter(keep));
            }
        }
        k += 1;
    }
    assert(spec.take(k as int) =~= spec);
    r
}


/// The shortcuts, in the shortcut store's normal form, that belong to the
/// editor's built-in commands: plugins cannot take them.
#[verifier::opaque]
pub open spec fn reserved_shortcuts_spec() -> Seq<Seq<char>> {
    seq![
        "ctrl+t"@,
        "ctrl+n"@,
        "ctrl+o"@,
        "ctrl+s"@,
        "ctrl+shift+s"@,
        "ctrl+w"@,
        "ctrl+tab"@,
        "ctrl+shift+tab"@,
        "ctrl+q"@,
        "ctrl+z"@,
        "ctrl+shift+z"@,
        "ctrl+x"@,
        "ctrl+c"@,
        "ctrl+v"@,
        "ctrl+a"@,
        "ctrl+f"@,
        "ctrl+h"@,
        "ctrl+g"@,
        "ctrl+m"@,
        "ctrl+shift+l"@,
    ]
}

/// The strings as plain values.
pub open spec fn string_views(v: Seq<String>) -> Seq<Seq<char>> {
    Seq::new(v.len(), |i: int| v[i]@)
}

/// The reserved shortcuts (see `reserved_shortcuts_spec`).
pub fn reserved_shortcuts() -> (r: Vec<String>)
    ensures
        string_views(r@) == reserved_shortcuts_spec(),
{
    let mut t: Vec<String> = Vec::new();
    t.push(string_of("ctrl+t"));
    t.push(string_of("ctrl+n"));
    t.push(string_of("ctrl+o"));
    t.push(string_of("ctrl+s"));
    t.push(string_of("ctrl+shift+s"));
    t.push(string_of("ctrl+w"));
    t.push(string_of("ctrl+tab"));
    t.push(string_of("ctrl+shift+tab"));
    t.push(string_of("ctrl+q"));
    t.push(string_of("ctrl+z"));
    t.push(string_of("ctrl+shift+z"));
    t.push(string_of("ctrl+x"));
    t.push(string_of("ctrl+c"));
    t.push(string_of("ctrl+v"));
    t.push(string_of("ctrl+a"));
    t.push(string_of("ctrl+f"));
    t.push(string_of("ctrl+h"));
    t.push(string_of("ctrl+g"));
    t.push(string_of("ctrl+m"));
    t.push(string_of("ctrl+shift+l"));
    proof {
        reveal(reserved_shortcuts_spec);
    }
    assert(string_views(t@) =~= reserved_shortcuts_spec());
    t
}

/// The shortcut a plugin menu item asks for (see `plugin_item_shortcut`),
/// if any, and that shortcut in the shortcut store's normal form.
pub struct PluginShortcutRequest {
    pub shortcut: Option<String>,
    pub normalized: String,
}

/// The shortcuts the plugin menu items get, in order, from the first `n`
/// requests, and the normal forms taken by then (the reserved ones first).
/// An item whose shortcut is taken already gets none; one whose shortcut
/// does not parse gets none; otherwise it gets the parsed shortcut, which
/// is then taken.
pub open spec fn assigned_upto(reqs: Seq<PluginShortcutRequest>, n: int) -> (Seq<Option<Shortcut>>, Seq<Seq<char>>)
    decreases n,
{
    if n <= 0 {
        (Seq::empty(), reserved_shortcuts_spec())
    } else {
        let (a, used) = assigned_upto(reqs, n - 1);
        let q = reqs[n - 1];
        match q.shortcut {
            None => (a.push(None), used),
            Some(sc) => if used.contains(q.normalized@) {
                (a.push(None), used)
            } else {
                match parse_shortcut_spec(sc@) {
                    Some(b) => (a.push(Some(b)), used.push(q.normalized@)),
                    None => (a.push(None), used),
                }
            },
        }
    }
}

fn contains_text(v: &Vec<String>, s: &str) -> (r: bool)
    ensures
        r == string_views(v@).contains(s@),
{
    let mut k: usize = 0;
    while k < v.len()
        invariant
            k <= v@.len(),
            forall|j: int| 0 <= j < k ==> v@[j]@ != s@,
        decreases v@.len() - k,
    {
        if same_text(v[k].as_str(), s) {
            assert(string_views(v@)[k as int] == s@);
            return true;
        }
        k += 1;
    }
    assert forall|j: int| 0 <= j < string_views(v@).len() implies string_views(v@)[j] != s@ by {
        assert(string_views(v@)[j] == v@[j]@);
    }
    false
}

/// The shortcuts the plugin menu items get (see `assigned_upto`): the
/// reserved shortcuts and those given to earlier items are not given
/// again.
pub fn assign_plugin_shortcuts(reqs: &[PluginShortcutRequest]) -> (r: Vec<Option<Shortcut>>)
    ensures
        r@ == assigned_upto(reqs@, reqs@.len() as int).0,
{
    let mut used = reserved_shortcuts();
    let mut out: Vec<Option<Shortcut>> = Vec::new();
    let mut k: usize = 0;
    while k < reqs.len()
        invariant
            k <= reqs@.len(),
            out@ == assigned_upto(reqs@, k as int).0,
            string_views(used@) == assigned_upto(reqs@, k as int).1,
        decreases reqs@.len() - k,
    {
        let ghost before = used@;
        match &reqs[k].shortcut {
            None => {
                out.push(None);
            },
            Some(sc) => {
                if contains_text(&used, reqs[k].normalized.as_str()) {
                    out.push(None);
                } else {
                    match parse_shortcut(sc.as_str()) {
                        Some(b) => {
                            out.push(Some(b));
                            used.push(string_of(reqs[k].normalized.as_str()));
                            assert(string_views(used@) =~= string_views(before).push(reqs@[k as int].normalized@));
                        },
                        None => {
                            out.push(None);
                        },
                    }
                }
            },
        }
        k += 1;
    }
    out
}

} // verus!
