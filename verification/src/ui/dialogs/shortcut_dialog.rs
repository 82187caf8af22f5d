//! The keyboard-shortcut editor: naming captured keys, composing the
//! shortcut string of a key press, display names of command ids, and what
//! Save does: each row's shortcut checked, conflicts between rows found,
//! and the overrides built for the rows that differ from their defaults.

use vstd::prelude::*;

use crate::text::{
    append_range, append_str, char_to_uppercase, same_text, trim_spec, trimmed, chars_of, first_index_of, join_spec, push_char, split_bounds, split_spec,
    starts_with, string_of, uppercase_of,
};
use crate::ui::keys::{
    KEY_BACKSPACE, KEY_DELETE, KEY_DOWN, KEY_END, KEY_ESCAPE, KEY_F_BASE, KEY_HOME, KEY_INSERT,
    KEY_LEFT, KEY_PAGE_DOWN, KEY_PAGE_UP, KEY_RIGHT, KEY_TAB, KEY_UP,
};
use crate::ui::menu::{
    builtin_default_spec, builtin_shortcuts_spec, first_default, fold, function_key_number, is_ascii_alnum, key_for_part, named_key,
    is_valid_shortcut, parse_parts, parse_shortcut_spec, shortcut_bits, shortcut_parts, PartsState, Shortcut,
    ShortcutOverride,
};

verus! {

/// The decimal digits of `n`, for `1 <= n <= 12`.
pub open spec fn small_decimal(n: int) -> Seq<char> {
    if n < 10 {
        seq![(n + 48) as char]
    } else {
        seq!['1', (n - 10 + 48) as char]
    }
}

/// The ASCII uppercase form of `c`.
pub open spec fn ascii_upper(c: char) -> char {
    if 'a' <= c && c <= 'z' {
        ((c as u32) - 32) as char
    } else {
        c
    }
}

/// Display names of printable punctuation keys.
pub open spec fn punctuation_name(c: char) -> Option<Seq<char>> {
    if c == ' ' {
        Some("Space"@)
    } else if c == '-' {
        Some("Minus"@)
    } else if c == '=' {
        Some("Equal"@)
    } else if c == '[' {
        Some("LeftBracket"@)
    } else if c == ']' {
        Some("RightBracket"@)
    } else if c == '\\' {
        Some("Backslash"@)
    } else if c == ';' {
        Some("Semicolon"@)
    } else if c == '\'' {
        Some("Quote"@)
    } else if c == ',' {
        Some("Comma"@)
    } else if c == '.' {
        Some("Period"@)
    } else if c == '/' {
        Some("Slash"@)
    } else if c == '`' {
        Some("Backtick"@)
    } else {
        None
    }
}

/// Display names of the named non-printable keys.
pub open spec fn special_key_name(key: i32) -> Option<Seq<char>> {
    if key == KEY_LEFT {
        Some("Left"@)
    } else if key == KEY_RIGHT {
        Some("Right"@)
    } else if key == KEY_UP {
        Some("Up"@)
    } else if key == KEY_DOWN {
        Some("Down"@)
    } else if key == KEY_HOME {
        Some("Home"@)
    } else if key == KEY_END {
        Some("End"@)
    } else if key == KEY_PAGE_UP {
        Some("PageUp"@)
    } else if key == KEY_PAGE_DOWN {
        Some("PageDown"@)
    } else if key == KEY_INSERT {
        Some("Insert"@)
    } else if key == KEY_TAB {
        Some("Tab"@)
    } else if key == KEY_ESCAPE {
        Some("Escape"@)
    } else if key == KEY_BACKSPACE {
        Some("Backspace"@)
    } else if key == KEY_DELETE {
        Some("Delete"@)
    } else {
        None
    }
}

/// The display name of a key code: `F1`-`F12`, an ASCII letter or digit
/// (uppercase), a punctuation name, or a special key's name. `None` for
/// modifier-only and unsupported keys.
pub open spec fn key_name_spec(key: i32) -> Option<Seq<char>> {
    if KEY_F_BASE + 1 <= key <= KEY_F_BASE + 12 {
        Some(seq!['F'] + small_decimal(key - KEY_F_BASE))
    } else if 0x20 <= key <= 0x7e {
        let c = key as char;
        if is_ascii_alnum(c) {
            Some(seq![ascii_upper(c)])
        } else {
            punctuation_name(c)
        }
    } else {
        special_key_name(key)
    }
}

/// Whether `k` is the code of an ASCII letter.
pub open spec fn is_letter_code(k: i32) -> bool {
    (65 <= k <= 90) || (97 <= k <= 122)
}

/// The lengths and leading characters of the key names, which tell them
/// apart.
proof fn lemma_key_name_literals()
    ensures
        "Space"@.len() == 5,
        "Space"@[0] == 'S',
        "Space"@[1] == 'p',
        "Minus"@.len() == 5,
        "Minus"@[0] == 'M',
        "Minus"@[1] == 'i',
        "Equal"@.len() == 5,
        "Equal"@[0] == 'E',
        "Equal"@[1] == 'q',
        "LeftBracket"@.len() == 11,
        "LeftBracket"@[0] == 'L',
        "LeftBracket"@[1] == 'e',
        "RightBracket"@.len() == 12,
        "RightBracket"@[0] == 'R',
        "RightBracket"@[1] == 'i',
        "Backslash"@.len() == 9,
        "Backslash"@[0] == 'B',
        "Backslash"@[1] == 'a',
        "Semicolon"@.len() == 9,
        "Semicolon"@[0] == 'S',
        "Semicolon"@[1] == 'e',
        "Quote"@.len() == 5,
        "Quote"@[0] == 'Q',
        "Quote"@[1] == 'u',
        "Comma"@.len() == 5,
        "Comma"@[0] == 'C',
        "Comma"@[1] == 'o',
        "Period"@.len() == 6,
        "Period"@[0] == 'P',
        "Period"@[1] == 'e',
        "Slash"@.len() == 5,
        "Slash"@[0] == 'S',
        "Slash"@[1] == 'l',
        "Backtick"@.len() == 8,
        "Backtick"@[0] == 'B',
        "Backtick"@[1] == 'a',
        "Left"@.len() == 4,
        "Left"@[0] == 'L',
        "Left"@[1] == 'e',
        "Right"@.len() == 5,
        "Right"@[0] == 'R',
        "Right"@[1] == 'i',
        "Up"@.len() == 2,
        "Up"@[0] == 'U',
        "Up"@[1] == 'p',
        "Down"@.len() == 4,
        "Down"@[0] == 'D',
        "Down"@[1] == 'o',
        "Home"@.len() == 4,
        "Home"@[0] == 'H',
        "Home"@[1] == 'o',
        "End"@.len() == 3,
        "End"@[0] == 'E',
        "End"@[1] == 'n',
        "PageUp"@.len() == 6,
        "PageUp"@[0] == 'P',
        "PageUp"@[1] == 'a',
        "PageDown"@.len() == 8,
        "PageDown"@[0] == 'P',
        "PageDown"@[1] == 'a',
        "Insert"@.len() == 6,
        "Insert"@[0] == 'I',
        "Insert"@[1] == 'n',
        "Tab"@.len() == 3,
        "Tab"@[0] == 'T',
        "Tab"@[1] == 'a',
        "Escape"@.len() == 6,
        "Escape"@[0] == 'E',
        "Escape"@[1] == 's',
        "Backspace"@.len() == 9,
        "Backspace"@[0] == 'B',
        "Backspace"@[1] == 'a',
        "Delete"@.len() == 6,
        "Delete"@[0] == 'D',
        "Delete"@[1] == 'e',
        "Backslash"@[5] == 'l',
        "Backspace"@[5] == 'p',
{
    reveal_strlit("Space");
    reveal_strlit("Minus");
    reveal_strlit("Equal");
    reveal_strlit("LeftBracket");
    reveal_strlit("RightBracket");
    reveal_strlit("Backslash");
    reveal_strlit("Semicolon");
    reveal_strlit("Quote");
    reveal_strlit("Comma");
    reveal_strlit("Period");
    reveal_strlit("Slash");
    reveal_strlit("Backtick");
    reveal_strlit("Left");
    reveal_strlit("Right");
    reveal_strlit("Up");
    reveal_strlit("Down");
    reveal_strlit("Home");
    reveal_strlit("End");
    reveal_strlit("PageUp");
    reveal_strlit("PageDown");
    reveal_strlit("Insert");
    reveal_strlit("Tab");
    reveal_strlit("Escape");
    reveal_strlit("Backspace");
    reveal_strlit("Delete");
}

/// The key that a punctuation or special-key name stands for.
spec fn named_key_code(n: Seq<char>) -> Option<i32> {
    if n == "Space"@ {
        Some(' ' as i32)
    } else if n == "Minus"@ {
        Some('-' as i32)
    } else if n == "Equal"@ {
        Some('=' as i32)
    } else if n == "LeftBracket"@ {
        Some('[' as i32)
    } else if n == "RightBracket"@ {
        Some(']' as i32)
    } else if n == "Backslash"@ {
        Some('\\' as i32)
    } else if n == "Semicolon"@ {
        Some(';' as i32)
    } else if n == "Quote"@ {
        Some('\'' as i32)
    } else if n == "Comma"@ {
        Some(',' as i32)
    } else if n == "Period"@ {
        Some('.' as i32)
    } else if n == "Slash"@ {
        Some('/' as i32)
    } else if n == "Backtick"@ {
        Some('`' as i32)
    } else if n == "Left"@ {
        Some(KEY_LEFT)
    } else if n == "Right"@ {
        Some(KEY_RIGHT)
    } else if n == "Up"@ {
        Some(KEY_UP)
    } else if n == "Down"@ {
        Some(KEY_DOWN)
    } else if n == "Home"@ {
        Some(KEY_HOME)
    } else if n == "End"@ {
        Some(KEY_END)
    } else if n == "PageUp"@ {
        Some(KEY_PAGE_UP)
    } else if n == "PageDown"@ {
        Some(KEY_PAGE_DOWN)
    } else if n == "Insert"@ {
        Some(KEY_INSERT)
    } else if n == "Tab"@ {
        Some(KEY_TAB)
    } else if n == "Escape"@ {
        Some(KEY_ESCAPE)
    } else if n == "Backspace"@ {
        Some(KEY_BACKSPACE)
    } else if n == "Delete"@ {
        Some(KEY_DELETE)
    } else {
        None
    }
}


/// A punctuation key's name leads back to it.
proof fn lemma_punctuation_roundtrip(k: i32)
    requires
        0x20 <= k <= 0x7e,
        punctuation_name(k as char) is Some,
    ensures
        named_key_code(punctuation_name(k as char)->0) == Some(k),
{
    lemma_key_name_literals();
    assert((k as char) as i32 == k);
}

/// A special key's name leads back to it.
proof fn lemma_special_roundtrip(k: i32)
    requires
        special_key_name(k) is Some,
    ensures
        named_key_code(special_key_name(k)->0) == Some(k),
{
    lemma_key_name_literals();
}

/// Different keys get different names, except that a letter's lowercase
/// and uppercase codes share its (uppercase) name: a captured name tells
/// which key was pressed.
pub proof fn lemma_key_names_distinct(k1: i32, k2: i32)
    requires
        key_name_spec(k1) is Some,
        key_name_spec(k1) == key_name_spec(k2),
    ensures
        k1 == k2 || (is_letter_code(k1) && is_letter_code(k2) && (k1 == k2 + 32 || k2 == k1 + 32)),
{
    let n = key_name_spec(k1)->0;
    lemma_key_name_kind(k1);
    lemma_key_name_kind(k2);
    if is_f_range(k1) && is_f_range(k2) {
        assert(n[1] == key_name_spec(k2)->0[1]);
        if n.len() == 3 {
            assert(n[2] == key_name_spec(k2)->0[2]);
        }
    } else if is_alnum_code(k1) && is_alnum_code(k2) {
        assert(n[0] == key_name_spec(k2)->0[0]);
        assert((k1 as char) as i32 == k1);
        assert((k2 as char) as i32 == k2);
    } else if is_named_code(k1) && is_named_code(k2) {
        lemma_named_roundtrip(k1);
        lemma_named_roundtrip(k2);
    } else {
        assert(n.len() == key_name_spec(k2)->0.len());
        if n.len() >= 2 {
            assert(n[1] == key_name_spec(k2)->0[1]);
        }
    }
}

/// Whether `k` is a function key's code.
spec fn is_f_range(k: i32) -> bool {
    KEY_F_BASE + 1 <= k <= KEY_F_BASE + 12
}

/// Whether `k` is the code of an ASCII letter or digit.
spec fn is_alnum_code(k: i32) -> bool {
    !is_f_range(k) && 0x20 <= k <= 0x7e && is_ascii_alnum(k as char)
}

/// Whether `k` is named by a punctuation or special-key name.
spec fn is_named_code(k: i32) -> bool {
    !is_f_range(k) && !is_alnum_code(k)
}

proof fn lemma_named_roundtrip(k: i32)
    requires
        key_name_spec(k) is Some,
        is_named_code(k),
    ensures
        named_key_code(key_name_spec(k)->0) == Some(k),
{
    if 0x20 <= k <= 0x7e {
        lemma_punctuation_roundtrip(k);
    } else {
        lemma_special_roundtrip(k);
    }
}

/// The shape of a key's name: a function key's is `F` and a digit (and one
/// more); a letter's or digit's is one character; any other is at least
/// two characters, the second a letter.
proof fn lemma_key_name_kind(k: i32)
    requires
        key_name_spec(k) is Some,
    ensures
        is_f_range(k) ==> {
            let n = key_name_spec(k)->0;
            &&& 2 <= n.len() <= 3
            &&& n[0] == 'F'
            &&& '0' <= n[1] <= '9'
        },
        is_alnum_code(k) ==> key_name_spec(k)->0.len() == 1,
        is_named_code(k) ==> {
            let n = key_name_spec(k)->0;
            &&& n.len() >= 2
            &&& ('a' <= n[1] <= 'z' || 'A' <= n[1] <= 'Z')
        },
{
    lemma_key_name_literals();
}

/// The punctuation keys are named by what they are: `,` is `Comma` and
/// `.` is `Period`, among the others.
pub proof fn lemma_punctuation_key_names()
    ensures
        key_name_spec(',' as i32) == Some("Comma"@),
        key_name_spec('.' as i32) == Some("Period"@),
        key_name_spec('/' as i32) == Some("Slash"@),
        key_name_spec(';' as i32) == Some("Semicolon"@),
        key_name_spec(' ' as i32) == Some("Space"@),
        key_name_spec('-' as i32) == Some("Minus"@),
{
}

/// Converts a key code to its display name (see `key_name_spec`).
pub fn key_name(key: i32) -> (r: Option<String>)
    ensures
        r matches Some(s) ==> key_name_spec(key) == Some(s@),
        r is None ==> key_name_spec(key) is None,
{
    if KEY_F_BASE + 1 <= key && key <= KEY_F_BASE + 12 {
        let n = key - KEY_F_BASE;
        let mut s = String::new();
        push_char(&mut s, 'F');
        if n < 10 {
            push_char(&mut s, (48 + n as u8) as char);
        } else {
            push_char(&mut s, '1');
            push_char(&mut s, (48 + (n - 10) as u8) as char);
        }
        proof {
            assert(s@ =~= seq!['F'] + small_decimal(key - KEY_F_BASE));
        }
        return Some(s);
    }
    if 0x20 <= key && key <= 0x7e {
        let c = (key as u8) as char;
        assert(c == key as char);
        if ('a' <= c && c <= 'z') {
            let mut s = String::new();
            push_char(&mut s, ((c as u8) - 32) as char);
            assert(s@ =~= seq![ascii_upper(c)]);
            return Some(s);
        }
        if ('A' <= c && c <= 'Z') || ('0' <= c && c <= '9') {
            let mut s = String::new();
            push_char(&mut s, c);
            assert(s@ =~= seq![ascii_upper(c)]);
            return Some(s);
        }
        let name = if c == ' ' {
            "Space"
        } else if c == '-' {
            "Minus"
        } else if c == '=' {
            "Equal"
        } else if c == '[' {
            "LeftBracket"
        } else if c == ']' {
            "RightBracket"
        } else if c == '\\' {
            "Backslash"
        } else if c == ';' {
            "Semicolon"
        } else if c == '\'' {
            "Quote"
        } else if c == ',' {
            "Comma"
        } else if c == '.' {
            "Period"
        } else if c == '/' {
            "Slash"
        } else if c == '`' {
            "Backtick"
        } else {
            return None;
        };
        return Some(string_of(name));
    }
    let name = if key == KEY_LEFT {
        "Left"
    } else if key == KEY_RIGHT {
        "Right"
    } else if key == KEY_UP {
        "Up"
    } else if key == KEY_DOWN {
        "Down"
    } else if key == KEY_HOME {
        "Home"
    } else if key == KEY_END {
        "End"
    } else if key == KEY_PAGE_UP {
        "PageUp"
    } else if key == KEY_PAGE_DOWN {
        "PageDown"
    } else if key == KEY_INSERT {
        "Insert"
    } else if key == KEY_TAB {
        "Tab"
    } else if key == KEY_ESCAPE {
        "Escape"
    } else if key == KEY_BACKSPACE {
        "Backspace"
    } else if key == KEY_DELETE {
        "Delete"
    } else {
        return None;
    };
    Some(string_of(name))
}

/// Whether a key name is a function-key name: `F` followed by digits.
pub open spec fn is_function_key_name(name: Seq<char>) -> bool {
    name.len() >= 2 && name[0] == 'F' && forall|j: int|
        1 <= j < name.len() ==> '0' <= #[trigger] name[j] <= '9'
}

/// The shortcut string of a key press: the held modifiers in the order
/// Ctrl, Shift, Alt, then the key's name, joined by `+`.
pub open spec fn shortcut_string_spec(key: i32, ctrl: bool, shift: bool, alt: bool) -> Option<
    Seq<char>,
> {
    match key_name_spec(key) {
        None => None,
        Some(name) => if !ctrl && !shift && !alt && !is_function_key_name(name) {
            None
        } else {
            Some(
                (if ctrl {
                    "Ctrl+"@
                } else {
                    Seq::empty()
                }) + (if shift {
                    "Shift+"@
                } else {
                    Seq::empty()
                }) + (if alt {
                    "Alt+"@
                } else {
                    Seq::empty()
                }) + name,
            )
        },
    }
}

/// Builds the shortcut string for a key press, e.g. `"Ctrl+Shift+P"`.
/// `None` for an unsupported key, or when no modifier is held and the key
/// is not a function key (bare keys are not shortcuts; bare F-keys are).
pub fn shortcut_string_from_event(key: i32, ctrl: bool, shift: bool, alt: bool) -> (r: Option<
    String,
>)
    ensures
        r matches Some(s) ==> shortcut_string_spec(key, ctrl, shift, alt) == Some(s@),
        r is None ==> shortcut_string_spec(key, ctrl, shift, alt) is None,
{
    let name = match key_name(key) {
        Some(n) => n,
        None => return None,
    };
    let nv = chars_of(name.as_str());
    let mut is_fkey = nv.len() >= 2 && nv[0] == 'F';
    let mut j: usize = 1;
    while is_fkey && j < nv.len()
        invariant
            1 <= j,
            nv@ == name@,
            is_fkey ==> j <= nv.len() && nv.len() >= 2 && nv@[0] == 'F' && forall|k: int|
                1 <= k < j ==> '0' <= #[trigger] nv@[k] <= '9',
            !is_fkey ==> !is_function_key_name(name@),
        decreases nv.len() - j,
    {
        if !('0' <= nv[j] && nv[j] <= '9') {
            is_fkey = false;
        }
        j += 1;
    }
    if !ctrl && !shift && !alt && !is_fkey {
        return None;
    }
    let mut s = String::new();
    if ctrl {
        append_str(&mut s, "Ctrl+");
    }
    let ghost s1 = s@;
    if shift {
        append_str(&mut s, "Shift+");
    }
    let ghost s2 = s@;
    if alt {
        append_str(&mut s, "Alt+");
    }
    append_str(&mut s, name.as_str());
    proof {
        let e = Seq::<char>::empty();
        assert(s1 =~= (if ctrl { "Ctrl+"@ } else { e }));
        assert(s2 =~= s1 + (if shift { "Shift+"@ } else { e }));
    }
    Some(s)
}

/// `w` with its first character uppercased (Unicode uppercasing).
pub open spec fn capitalize(w: Seq<char>) -> Seq<char> {
    if w.len() == 0 {
        Seq::empty()
    } else {
        char_to_uppercase(w[0]) + w.drop_first()
    }
}

/// The words of `s` between occurrences of `sep`, each capitalized, joined
/// with single spaces.
pub open spec fn title_words(s: Seq<char>, sep: char) -> Seq<char> {
    join_spec(split_spec(s, sep).map_values(|w: Seq<char>| capitalize(w)), " "@)
}

/// `s` with every `c` replaced by `with`.
pub open spec fn replace_char(s: Seq<char>, c: char, with: Seq<char>) -> Seq<char>
    decreases s.len(),
{
    if s.len() == 0 {
        Seq::empty()
    } else {
        replace_char(s.drop_last(), c, with) + if s.last() == c {
            with
        } else {
            seq![s.last()]
        }
    }
}

/// The human-readable name of a command id: built-in ids `Menu/Item`
/// become `Menu > Item`; plugin ids `plugin:name-part:action_part` become
/// `Name Part > Action Part` (words capitalized); a plugin id without an
/// action is shown as what follows `plugin:`.
pub open spec fn display_name_spec(id: Seq<char>) -> Seq<char> {
    let prefix = "plugin:"@;
    if id.len() >= prefix.len() && id.take(prefix.len() as int) == prefix {
        let rest = id.skip(prefix.len() as int);
        match first_index_of(rest, ':') {
            Some(k) => title_words(rest.take(k), '-') + " > "@ + title_words(rest.skip(k + 1), '_'),
            None => rest,
        }
    } else {
        replace_char(id, '/', " > "@)
    }
}

/// Appends `title_words(v[lo..hi], sep)` to `out`.
fn append_title_words(out: &mut String, v: &Vec<char>, lo: usize, hi: usize, sep: char)
    requires
        lo <= hi <= v.len(),
    ensures
        final(out)@ == old(out)@ + title_words(v@.subrange(lo as int, hi as int), sep),
{
    let mut part = Vec::new();
    let mut i = lo;
    while i < hi
        invariant
            lo <= i <= hi <= v.len(),
            part@ == v@.subrange(lo as int, i as int),
        decreases hi - i,
    {
        part.push(v[i]);
        assert(v@.subrange(lo as int, i + 1) =~= v@.subrange(lo as int, i as int).push(v@[i as int]));
        i += 1;
    }
    let bounds = split_bounds(&part, sep);
    proof {
        crate::text::lemma_split_len(part@, sep);
    }
    let ghost words = split_spec(part@, sep).map_values(|w: Seq<char>| capitalize(w));
    let ghost start = out@;
    let mut k: usize = 0;
    while k < bounds.len()
        invariant
            k <= bounds.len(),
            bounds.len() == split_spec(part@, sep).len(),
            bounds.len() >= 1,
            words == split_spec(part@, sep).map_values(|w: Seq<char>| capitalize(w)),
            forall|m: int|
                0 <= m < bounds.len() ==> {
                    &&& (#[trigger] bounds@[m]).0 <= bounds@[m].1 <= part.len()
                    &&& part@.subrange(bounds@[m].0 as int, bounds@[m].1 as int) == split_spec(
                        part@,
                        sep,
                    )[m]
                },
            out@ == start + join_spec(words.take(k as int), " "@),
        decreases bounds.len() - k,
    {
        let (a, b) = bounds[k];
        let ghost before = out@;
        if k > 0 {
            append_str(out, " ");
        }
        let ghost w = part@.subrange(a as int, b as int);
        if a < b {
            let up = uppercase_of(part[a]);
            append_range(out, &up, 0, up.len());
            append_range(out, &part, a + 1, b);
            assert(up@.subrange(0, up.len() as int) =~= up@);
            assert(w.drop_first() =~= part@.subrange(a + 1, b as int));
            assert(out@ =~= before + (if k > 0 { " "@ } else { Seq::empty() }) + capitalize(w));
        } else {
            assert(out@ =~= before + (if k > 0 { " "@ } else { Seq::empty() }) + capitalize(w));
        }
        proof {
            assert(words.take(k + 1).drop_last() =~= words.take(k as int));
            assert(words.take(k + 1).last() == capitalize(w));
            if k == 0 {
                assert(join_spec(words.take(1), " "@) == words.take(1)[0]);
                assert(join_spec(words.take(0), " "@) == Seq::<char>::empty());
            }
        }
        k += 1;
    }
    assert(words.take(bounds.len() as int) =~= words);
    assert(part@ =~= v@.subrange(lo as int, hi as int));
}

/// Converts a command id to its display name (see `display_name_spec`),
/// e.g. `"File/Save"` to `"File > Save"` and
/// `"plugin:python-lint:lint"` to `"Python Lint > Lint"`.
pub fn display_name(id: &str) -> (r: String)
    ensures
        r@ == display_name_spec(id@),
{
    let v = chars_of(id);
    let prefix = chars_of("plugin:");
    if starts_with(&v, &prefix) {
        let p = prefix.len();
        let mut k = p;
        while k < v.len() && v[k] != ':'
            invariant
                p <= k <= v.len(),
                forall|j: int| p <= j < k ==> v@[j] != ':',
            decreases v.len() - k,
        {
            k += 1;
        }
        let ghost rest = id@.skip(p as int);
        if k < v.len() {
            let mut out = String::new();
            append_title_words(&mut out, &v, p, k, '-');
            append_str(&mut out, " > ");
            append_title_words(&mut out, &v, k + 1, v.len(), '_');
            proof {
                let kk = (k - p) as int;
                assert(rest[kk] == ':');
                assert(forall|j: int| 0 <= j < kk ==> rest[j] != ':');
                let c = first_index_of(rest, ':')->0;
                assert(0 <= c < rest.len() && rest[c] == ':');
                assert(c == kk) by {
                    if c < kk {
                        assert(rest[c] != ':');
                    } else if c > kk {
                        assert(rest[kk] != ':');
                    }
                }
                assert(rest.take(kk) =~= v@.subrange(p as int, k as int));
                assert(rest.skip(kk + 1) =~= v@.subrange(k + 1, v.len() as int));
            }
            out
        } else {
            proof {
                assert forall|j: int| 0 <= j < rest.len() implies rest[j] != ':' by {
                    assert(rest[j] == v@[p + j]);
                }
            }
            let out = crate::text::string_from_range(&v, p, v.len());
            assert(out@ =~= rest);
            out
        }
    } else {
        let mut out = String::new();
        let mut i: usize = 0;
        while i < v.len()
            invariant
                i <= v.len(),
                v@ == id@,
                out@ == replace_char(v@.take(i as int), '/', " > "@),
            decreases v.len() - i,
        {
            if v[i] == '/' {
                append_str(&mut out, " > ");
            } else {
                push_char(&mut out, v[i]);
            }
            assert(v@.take(i + 1).drop_last() =~= v@.take(i as int));
            i += 1;
        }
        assert(v@.take(v.len() as int) =~= v@);
        out
    }
}


// ---------------------------------------------------------------------------
// Saving: validation, conflicts, overrides
// ---------------------------------------------------------------------------

/// One row of the dialog when Save is pressed: the command, its default
/// shortcut, what the row's field holds, and the field's trimmed text in
/// the shortcut store's normal form (which the store computes; two
/// shortcuts conflict when their normal forms are equal).
pub struct ShortcutRow {
    pub id: String,
    pub default: String,
    pub value: String,
    pub normalized: String,
}

/// Why Save was refused, by row (counted from 0).
#[derive(Debug, Clone, Copy, PartialEq, Eq, Structural)]
pub enum ShortcutSaveError {
    /// The row's shortcut does not parse.
    Invalid { row: usize },
    /// The row's shortcut is the same as that of the earlier row.
    Conflict { earlier: usize, row: usize },
}

/// The trimmed text of row `k`'s field.
pub open spec fn row_text(rows: Seq<ShortcutRow>, k: int) -> Seq<char> {
    trim_spec(rows[k].value@)
}

/// The first row before `k` that holds a shortcut whose normal form is
/// that of row `k`, searching from row `j` on.
pub open spec fn earlier_same(rows: Seq<ShortcutRow>, k: int, j: int) -> Option<int>
    decreases k - j,
{
    if j >= k || j < 0 {
        None
    } else if row_text(rows, j).len() > 0 && rows[j].normalized@ == rows[k].normalized@ {
        Some(j)
    } else {
        earlier_same(rows, k, j + 1)
    }
}

/// What Save finds wrong with row `k` when the rows before it are fine: an
/// empty field is fine; a shortcut that does not parse is invalid; one
/// whose normal form an earlier row already has conflicts with it.
pub open spec fn row_error(rows: Seq<ShortcutRow>, k: int) -> Option<ShortcutSaveError> {
    let t = row_text(rows, k);
    if t.len() == 0 {
        None
    } else if parse_shortcut_spec(t) is None {
        Some(ShortcutSaveError::Invalid { row: k as usize })
    } else {
        match earlier_same(rows, k, 0) {
            Some(j) => Some(ShortcutSaveError::Conflict { earlier: j as usize, row: k as usize }),
            None => None,
        }
    }
}

/// The first problem among the first `n` rows, in row order.
pub open spec fn save_error(rows: Seq<ShortcutRow>, n: int) -> Option<ShortcutSaveError>
    decreases n,
{
    if n <= 0 {
        None
    } else {
        match save_error(rows, n - 1) {
            Some(e) => Some(e),
            None => row_error(rows, n - 1),
        }
    }
}

/// The overrides Save keeps from the first `n` rows, in row order: each
/// row whose trimmed text differs from its default, as that text, enabled.
pub open spec fn overrides_upto(rows: Seq<ShortcutRow>, n: int) -> Seq<(Seq<char>, (Seq<char>, bool))>
    decreases n,
{
    if n <= 0 {
        Seq::empty()
    } else {
        overrides_upto(rows, n - 1) + if row_text(rows, n - 1) != rows[n - 1].default@ {
            seq![(rows[n - 1].id@, (row_text(rows, n - 1), true))]
        } else {
            Seq::empty()
        }
    }
}

/// The overrides as plain values: command, shortcut and whether enabled.
pub open spec fn override_views(v: Seq<(String, ShortcutOverride)>) -> Seq<(Seq<char>, (Seq<char>, bool))> {
    Seq::new(v.len(), |i: int| (v[i].0@, (v[i].1.shortcut@, v[i].1.enabled)))
}

/// Save succeeds exactly when every non-empty row parses and no two
/// non-empty rows share a normal form.
pub proof fn lemma_save_ok_exactly_when_valid(rows: Seq<ShortcutRow>, n: int)
    requires
        0 <= n <= rows.len(),
    ensures
        save_error(rows, n) is None <==> forall|k: int|
            0 <= k < n && row_text(rows, k).len() > 0 ==> {
                &&& parse_shortcut_spec(#[trigger] row_text(rows, k)) is Some
                &&& forall|j: int|
                    0 <= j < k && row_text(rows, j).len() > 0 ==> rows[j].normalized@ != rows[k].normalized@
            },
    decreases n,
{
    if n > 0 {
        lemma_save_ok_exactly_when_valid(rows, n - 1);
        lemma_earlier_same(rows, n - 1, 0);
        let k = n - 1;
        if save_error(rows, n) is None {
            assert forall|m: int|
                0 <= m < n && row_text(rows, m).len() > 0 implies {
                &&& parse_shortcut_spec(#[trigger] row_text(rows, m)) is Some
                &&& forall|j: int|
                    0 <= j < m && row_text(rows, j).len() > 0 ==> rows[j].normalized@ != rows[m].normalized@
            } by {
                if m == k {
                    assert(row_error(rows, k) is None);
                }
            }
        }
    }
}

/// Once a problem is found among the first `k` rows, it stays the first.
proof fn lemma_save_error_stays(rows: Seq<ShortcutRow>, k: int, n: int)
    requires
        0 <= k <= n,
    ensures
        save_error(rows, k) is Some ==> save_error(rows, n) == save_error(rows, k),
    decreases n - k,
{
    if k < n {
        lemma_save_error_stays(rows, k, n - 1);
    }
}

/// `earlier_same` finds the first earlier non-empty row with the same
/// normal form, from `j` on.
proof fn lemma_earlier_same(rows: Seq<ShortcutRow>, k: int, j: int)
    requires
        0 <= j <= k,
    ensures
        earlier_same(rows, k, j) is None <==> forall|m: int|
            j <= m < k && row_text(rows, m).len() > 0 ==> rows[m].normalized@ != rows[k].normalized@,
        earlier_same(rows, k, j) matches Some(m) ==> j <= m < k && row_text(rows, m).len() > 0
            && rows[m].normalized@ == rows[k].normalized@ && forall|i: int|
            j <= i < m && row_text(rows, i).len() > 0 ==> rows[i].normalized@ != rows[k].normalized@,
    decreases k - j,
{
    if j < k {
        lemma_earlier_same(rows, k, j + 1);
    }
}

/// What Save does with the rows: the first invalid or conflicting row in
/// row order refuses it (see `save_error`); otherwise the overrides, one
/// for each row whose trimmed text differs from its default (see
/// `overrides_upto`).
pub fn validate_shortcut_rows(rows: &[ShortcutRow]) -> (r: Result<Vec<(String, ShortcutOverride)>, ShortcutSaveError>)
    ensures
        match save_error(rows@, rows@.len() as int) {
            Some(e) => r == Err::<Vec<(String, ShortcutOverride)>, ShortcutSaveError>(e),
            None => r matches Ok(v) && override_views(v@) == overrides_upto(rows@, rows@.len() as int),
        },
{
    let n = rows.len();
    let mut k: usize = 0;
    while k < n
        invariant
            n == rows@.len(),
            k <= n,
            save_error(rows@, k as int) is None,
        decreases n - k,
    {
        let t = trimmed(rows[k].value.as_str());
        if !t.as_str().is_empty() {
            if !is_valid_shortcut(t.as_str()) {
                proof {
                    lemma_save_error_stays(rows@, k as int + 1, n as int);
                }
                return Err(ShortcutSaveError::Invalid { row: k });
            }
            let mut j: usize = 0;
            proof {
                lemma_earlier_same(rows@, k as int, 0);
            }
            while j < k
                invariant
                    j <= k < n,
                    n == rows@.len(),
                    save_error(rows@, k as int) is None,
                    parse_shortcut_spec(row_text(rows@, k as int)) is Some,
                    row_text(rows@, k as int).len() > 0,
                    t@ == row_text(rows@, k as int),
                    earlier_same(rows@, k as int, 0) == earlier_same(rows@, k as int, j as int),
                decreases k - j,
            {
                let tj = trimmed(rows[j].value.as_str());
                if !tj.as_str().is_empty() && same_text(rows[j].normalized.as_str(), rows[k].normalized.as_str()) {
                    proof {
                        lemma_save_error_stays(rows@, k as int + 1, n as int);
                    }
                    return Err(ShortcutSaveError::Conflict { earlier: j, row: k });
                }
                j += 1;
            }
        }
        k += 1;
    }
    let mut out: Vec<(String, ShortcutOverride)> = Vec::new();
    let mut k: usize = 0;
    while k < n
        invariant
            n == rows@.len(),
            k <= n,
            override_views(out@) == overrides_upto(rows@, k as int),
        decreases n - k,
    {
        let t = trimmed(rows[k].value.as_str());
        let ghost before = out@;
        if !same_text(t.as_str(), rows[k].default.as_str()) {
            let id = string_of(rows[k].id.as_str());
            out.push((id, ShortcutOverride { enabled: true, shortcut: t }));
            assert(override_views(out@) =~= override_views(before).push(
                (rows@[k as int].id@, (row_text(rows@, k as int), true)),
            ));
        } else {
            assert(override_views(out@) =~= override_views(before));
        }
        assert(overrides_upto(rows@, k + 1) =~= overrides_upto(rows@, k as int) + if row_text(rows@, k as int)
            != rows@[k as int].default@ {
            seq![(rows@[k as int].id@, (row_text(rows@, k as int), true))]
        } else {
            Seq::empty()
        });
        k += 1;
    }
    Ok(out)
}

/// The message Save shows for a refusal: `Invalid shortcut 'S' for NAME`,
/// or `Conflict: 'S' used by both NAME1 and NAME2` (the earlier row
/// first), with each command's display name.
pub open spec fn save_error_message_spec(rows: Seq<ShortcutRow>, e: ShortcutSaveError) -> Seq<char> {
    match e {
        ShortcutSaveError::Invalid { row } => "Invalid shortcut '"@ + row_text(rows, row as int) + "' for "@
            + display_name_spec(rows[row as int].id@),
        ShortcutSaveError::Conflict { earlier, row } => "Conflict: '"@ + row_text(rows, row as int)
            + "' used by both "@ + display_name_spec(rows[earlier as int].id@) + " and "@ + display_name_spec(
            rows[row as int].id@,
        ),
    }
}

/// The message Save shows for a refusal (see `save_error_message_spec`).
pub fn save_error_message(rows: &[ShortcutRow], e: ShortcutSaveError) -> (r: String)
    requires
        match e {
            ShortcutSaveError::Invalid { row } => row < rows@.len(),
            ShortcutSaveError::Conflict { earlier, row } => earlier < rows@.len() && row < rows@.len(),
        },
    ensures
        r@ == save_error_message_spec(rows@, e),
{
    match e {
        ShortcutSaveError::Invalid { row } => {
            let mut s = string_of("Invalid shortcut '");
            let t = trimmed(rows[row].value.as_str());
            append_str(&mut s, t.as_str());
            append_str(&mut s, "' for ");
            let d = display_name(rows[row].id.as_str());
            append_str(&mut s, d.as_str());
            s
        },
        ShortcutSaveError::Conflict { earlier, row } => {
            let mut s = string_of("Conflict: '");
            let t = trimmed(rows[row].value.as_str());
            append_str(&mut s, t.as_str());
            append_str(&mut s, "' used by both ");
            let d1 = display_name(rows[earlier].id.as_str());
            append_str(&mut s, d1.as_str());
            append_str(&mut s, " and ");
            let d2 = display_name(rows[row].id.as_str());
            append_str(&mut s, d2.as_str());
            s
        },
    }
}

// ---------------------------------------------------------------------------
// Row layout
// ---------------------------------------------------------------------------

/// Height of a shortcut row.
pub const ROW_HEIGHT: i32 = 32;

/// The width of a tab's shortcut rows in a scroll area `scroll_width` wide:
/// less the scrollbar once the rows (each `ROW_HEIGHT` tall with 2 pixels
/// between) are taller than the content area less 10 pixels.
pub fn shortcut_rows_width(rows: usize, content_height: i32, scroll_width: i32) -> (r: i32)
    requires
        rows * (ROW_HEIGHT + 2) <= i32::MAX,
        content_height >= i32::MIN + 10,
        scroll_width >= i32::MIN + crate::ui::dialogs::SCROLLBAR_SIZE,
    ensures
        r == (if rows * (ROW_HEIGHT + 2) > content_height - 10 {
            scroll_width - crate::ui::dialogs::SCROLLBAR_SIZE
        } else {
            scroll_width as int
        }),
{
    assert(rows <= 63161283) by (nonlinear_arith)
        requires
            rows * 34 <= 2147483647,
    ;
    let total: i32 = rows as i32 * (ROW_HEIGHT + 2);
    if total > content_height - 10 {
        scroll_width - crate::ui::dialogs::SCROLLBAR_SIZE
    } else {
        scroll_width
    }
}

/// The rows the plugins with `action_counts` actions take: a header and a
/// row per action for each plugin with actions.
pub open spec fn plugin_rows_sum(action_counts: Seq<usize>) -> nat
    decreases action_counts.len(),
{
    if action_counts.len() == 0 {
        0
    } else {
        plugin_rows_sum(action_counts.drop_last()) + if action_counts.last() > 0 {
            (1 + action_counts.last()) as nat
        } else {
            0nat
        }
    }
}

/// The rows of the plugin tab: those of `plugin_rows_sum`, or a single
/// "no plugins" row when no plugin has actions.
pub open spec fn plugin_rows_spec(action_counts: Seq<usize>) -> nat {
    if plugin_rows_sum(action_counts) == 0 {
        1
    } else {
        plugin_rows_sum(action_counts)
    }
}

/// The rows of the plugin tab (see `plugin_rows_spec`), given how many
/// menu actions each plugin has.
pub fn plugin_shortcut_rows(action_counts: &[usize]) -> (r: usize)
    requires
        plugin_rows_sum(action_counts@) <= usize::MAX,
    ensures
        r == plugin_rows_spec(action_counts@),
{
    let mut total: usize = 0;
    let mut i: usize = 0;
    while i < action_counts.len()
        invariant
            i <= action_counts@.len(),
            plugin_rows_sum(action_counts@) <= usize::MAX,
            total == plugin_rows_sum(action_counts@.take(i as int)),
        decreases action_counts@.len() - i,
    {
        proof {
            assert(action_counts@.take(i + 1).drop_last() =~= action_counts@.take(i as int));
            lemma_plugin_rows_prefix(action_counts@, i + 1);
        }
        let n = action_counts[i];
        if n > 0 {
            total = total + 1 + n;
        }
        i += 1;
    }
    assert(action_counts@.take(i as int) =~= action_counts@);
    if total == 0 {
        1
    } else {
        total
    }
}

/// A prefix takes no more rows than the whole.
proof fn lemma_plugin_rows_prefix(s: Seq<usize>, k: int)
    requires
        0 <= k <= s.len(),
    ensures
        plugin_rows_sum(s.take(k)) <= plugin_rows_sum(s),
    decreases s.len() - k,
{
    if k < s.len() {
        lemma_plugin_rows_prefix(s.drop_last(), k);
        assert(s.drop_last().take(k) =~= s.take(k));
    } else {
        assert(s.take(k) =~= s);
    }
}

// ---------------------------------------------------------------------------
// Captured shortcuts parse back
// ---------------------------------------------------------------------------

/// Whether `key` is a printable punctuation key: printable ASCII other than
/// a letter, a digit or the space bar.
pub open spec fn is_punctuation_key(key: i32) -> bool {
    0x21 <= key <= 0x7e && !is_ascii_alnum(key as char)
}

/// The key code that parsing a key's display name gives back: an uppercase
/// letter comes back as its lowercase code, every other key as it is.
pub open spec fn parsed_key_code(key: i32) -> i32 {
    if 0x41 <= key <= 0x5a {
        (key + 32) as i32
    } else {
        key
    }
}

/// The folded spellings that the parser reads as modifiers.
spec fn is_modifier_word(l: Seq<char>) -> bool {
    l == "ctrl"@ || l == "control"@ || l == "shift"@ || l == "alt"@
}

/// A word that holds neither `+` nor whitespace at its ends, and no `+`
/// inside, is one trimmed part of its own.
proof fn lemma_plain_word(w: Seq<char>)
    requires
        w.len() >= 1,
        forall|j: int| 0 <= j < w.len() ==> is_ascii_alnum(#[trigger] w[j]),
    ensures
        shortcut_parts(w) == seq![w],
        crate::text::trim_spec(w) == w,
{
    crate::text::lemma_split_none(w, '+');
    assert(crate::text::leading_ws(w) == 0);
    assert(w.skip(0) =~= w);
    assert(crate::text::trailing_ws(w) == 0);
    assert(w.take(w.len() as int) =~= w);
    assert(shortcut_parts(w) =~= seq![w]);
}

/// One modifier in front of the rest of a shortcut string.
proof fn lemma_modifier_step(word: Seq<char>, rest: Seq<char>, st: PartsState, next: PartsState)
    requires
        (word == "Ctrl"@ && next == PartsState { ctrl: true, ..st }) || (word == "Shift"@ && next
            == PartsState { shift: true, ..st }) || (word == "Alt"@ && next == PartsState {
            alt: true,
            ..st
        }),
    ensures
        parse_parts(shortcut_parts(word + seq!['+'] + rest), st) == parse_parts(
            shortcut_parts(rest),
            next,
        ),
{
    reveal_strlit("Ctrl");
    reveal_strlit("Shift");
    reveal_strlit("Alt");
    reveal_strlit("ctrl");
    reveal_strlit("control");
    reveal_strlit("shift");
    reveal_strlit("alt");
    let s = word + seq!['+'] + rest;
    let k = word.len() as int;
    assert(forall|j: int| 0 <= j < k ==> is_ascii_alnum(#[trigger] word[j]));
    assert(forall|j: int| 0 <= j < k ==> s[j] == word[j]);
    crate::text::lemma_split_at_sep(s, '+', k);
    assert(s.take(k) =~= word);
    assert(s.skip(k + 1) =~= rest);
    lemma_plain_word(word);
    let parts = shortcut_parts(s);
    assert(parts =~= seq![word] + shortcut_parts(rest));
    assert(parts[0] == word);
    assert(parts.drop_first() =~= shortcut_parts(rest));
    if word == "Ctrl"@ {
        assert(fold(word) =~= "ctrl"@);
    } else if word == "Shift"@ {
        assert(fold(word) =~= "shift"@);
        assert(fold(word) != "ctrl"@ && fold(word) != "control"@);
    } else {
        assert(fold(word) =~= "alt"@);
        assert(fold(word) != "ctrl"@ && fold(word) != "control"@ && fold(word) != "shift"@);
    }
}

/// The key's name, last of the parts, sets the key.
proof fn lemma_key_step(name: Seq<char>, st: PartsState, k: i32)
    requires
        st.key is None,
        name.len() >= 1,
        forall|j: int| 0 <= j < name.len() ==> is_ascii_alnum(#[trigger] name[j]),
        !is_modifier_word(fold(name)),
        key_for_part(name) == Some(k),
    ensures
        parse_parts(shortcut_parts(name), st) == Some(PartsState { key: Some(k), ..st }),
{
    lemma_plain_word(name);
    let parts = seq![name];
    assert(parts[0] == name);
    assert(parts.drop_first() =~= Seq::<Seq<char>>::empty());
    let done = PartsState { key: Some(k), ..st };
    assert(parse_parts(Seq::<Seq<char>>::empty(), done) == Some(done));
}

/// The name of a function key `F<n>` is read back as that key.
proof fn lemma_function_key_name(key: i32)
    requires
        KEY_F_BASE + 1 <= key <= KEY_F_BASE + 12,
    ensures
        ({
            let name = key_name_spec(key)->0;
            &&& key_name_spec(key) is Some
            &&& name.len() >= 1
            &&& forall|j: int| 0 <= j < name.len() ==> is_ascii_alnum(#[trigger] name[j])
            &&& !is_modifier_word(fold(name))
            &&& key_for_part(name) == Some(key)
        }),
{
    reveal_strlit("ctrl");
    reveal_strlit("control");
    reveal_strlit("shift");
    reveal_strlit("alt");
    let n = key - KEY_F_BASE;
    let digits = small_decimal(n);
    let name = seq!['F'] + digits;
    assert(key_name_spec(key) == Some(name));
    let l = fold(name);
    assert(l =~= seq!['f'] + digits);
    assert(l.skip(1) =~= digits);
    assert(crate::text::decimal_value(Seq::<char>::empty()) == 0);
    if n < 10 {
        assert(((n + 48) as char) as u32 == n + 48);
        assert(digits.drop_last() =~= Seq::<char>::empty());
        assert(crate::text::decimal_value(digits) == n);
    } else {
        assert(((n - 10 + 48) as char) as u32 == n - 10 + 48);
        assert(('1' as u32) - ('0' as u32) == 1);
        assert(digits.drop_last() =~= seq!['1']);
        assert(seq!['1'].drop_last() =~= Seq::<char>::empty());
        assert(seq!['1'].last() == '1');
        assert(crate::text::decimal_value(seq!['1']) == 1);
        assert(crate::text::decimal_value(digits) == n);
    }
    assert(forall|j: int| 1 <= j < l.len() ==> crate::text::is_digit(#[trigger] l[j]));
    assert(function_key_number(l) == Some(n as nat));
    assert(l[0] == 'f');
    assert(!is_modifier_word(l));
}

/// Every name the parser reads as a named key has at least two
/// characters.
#[verifier::spinoff_prover]
proof fn lemma_named_key_len(l: Seq<char>)
    ensures
        named_key(l) is Some ==> l.len() >= 2,
{
    reveal_strlit("tab");
    reveal_strlit("backspace");
    reveal_strlit("delete");
    reveal_strlit("del");
    reveal_strlit("insert");
    reveal_strlit("ins");
    reveal_strlit("home");
    reveal_strlit("end");
    reveal_strlit("pageup");
    reveal_strlit("pgup");
    reveal_strlit("pagedown");
    reveal_strlit("pgdn");
    reveal_strlit("left");
    reveal_strlit("right");
    reveal_strlit("up");
    reveal_strlit("down");
    reveal_strlit("space");
    reveal_strlit("escape");
    reveal_strlit("esc");
}

/// No modifier word has a single character.
proof fn lemma_modifier_word_len(l: Seq<char>)
    ensures
        is_modifier_word(l) ==> l.len() >= 3,
{
    reveal_strlit("ctrl");
    reveal_strlit("control");
    reveal_strlit("shift");
    reveal_strlit("alt");
}

/// The name of a letter or digit key is that character, read back as its
/// lowercase code.
proof fn lemma_alnum_key_name(key: i32)
    requires
        0x20 <= key <= 0x7e,
        is_ascii_alnum(key as char),
    ensures
        ({
            let name = key_name_spec(key)->0;
            &&& key_name_spec(key) is Some
            &&& name.len() >= 1
            &&& forall|j: int| 0 <= j < name.len() ==> is_ascii_alnum(#[trigger] name[j])
            &&& !is_modifier_word(fold(name))
            &&& key_for_part(name) == Some(parsed_key_code(key))
        }),
{
    let c = key as char;
    let name = seq![ascii_upper(c)];
    assert(key_name_spec(key) == Some(name));
    let l = fold(name);
    assert(l.len() == 1);
    lemma_named_key_len(l);
    lemma_modifier_word_len(l);
    assert(function_key_number(l) is None);
    assert(named_key(l) is None);
    assert(!is_modifier_word(l));
    assert(crate::ui::menu::ascii_lower(ascii_upper(c)) as i32 == parsed_key_code(key));
}

/// What the key-name lemmas establish of a name, its folded form and
/// its key: the name is ASCII letters and digits, and it folds to a word
/// that is no modifier and that the parser reads as `key`.
spec fn reads_back(name: Seq<char>, key: i32) -> bool {
    &&& name.len() >= 1
    &&& forall|j: int| 0 <= j < name.len() ==> is_ascii_alnum(#[trigger] name[j])
    &&& !is_modifier_word(fold(name))
    &&& key_for_part(name) == Some(key)
}

/// A named key's name whose folded form is `lower` reads back as `key`
/// when `lower` is read as `key` and starts with no `f`.
proof fn lemma_named_word(name: Seq<char>, lower: Seq<char>, key: i32)
    requires
        name.len() >= 1,
        forall|j: int| 0 <= j < name.len() ==> is_ascii_alnum(#[trigger] name[j]),
        fold(name) == lower,
        lower[0] != 'f',
        !is_modifier_word(lower),
        named_key(lower) == Some(key),
    ensures
        reads_back(name, key),
{
    assert(function_key_number(lower) is None);
}

/// `Space` reads back as its key.
#[verifier::spinoff_prover]
proof fn lemma_name_space()
    ensures
        reads_back("Space"@, (' ' as i32)),
{
    reveal_strlit("Space");
    reveal_strlit("ctrl");
    reveal_strlit("control");
    reveal_strlit("shift");
    reveal_strlit("alt");
    reveal_strlit("tab");
    reveal_strlit("backspace");
    reveal_strlit("delete");
    reveal_strlit("del");
    reveal_strlit("insert");
    reveal_strlit("ins");
    reveal_strlit("home");
    reveal_strlit("end");
    reveal_strlit("pageup");
    reveal_strlit("pgup");
    reveal_strlit("pagedown");
    reveal_strlit("pgdn");
    reveal_strlit("left");
    reveal_strlit("right");
    reveal_strlit("up");
    reveal_strlit("down");
    reveal_strlit("space");
    assert("space"@.len() == 5 && "space"@[1] == 'p');
    assert(fold("Space"@) =~= "space"@);
    lemma_named_word("Space"@, "space"@, (' ' as i32));
}

/// `Left` reads back as its key.
#[verifier::spinoff_prover]
proof fn lemma_name_left()
    ensures
        reads_back("Left"@, KEY_LEFT),
{
    reveal_strlit("Left");
    reveal_strlit("ctrl");
    reveal_strlit("control");
    reveal_strlit("shift");
    reveal_strlit("alt");
    reveal_strlit("tab");
    reveal_strlit("backspace");
    reveal_strlit("delete");
    reveal_strlit("del");
    reveal_strlit("insert");
    reveal_strlit("ins");
    reveal_strlit("home");
    reveal_strlit("end");
    reveal_strlit("pageup");
    reveal_strlit("pgup");
    reveal_strlit("pagedown");
    reveal_strlit("pgdn");
    reveal_strlit("left");
    assert(fold("Left"@) =~= "left"@);
    lemma_named_word("Left"@, "left"@, KEY_LEFT);
}

/// `Right` reads back as its key.
#[verifier::spinoff_prover]
proof fn lemma_name_right()
    ensures
        reads_back("Right"@, KEY_RIGHT),
{
    reveal_strlit("Right");
    reveal_strlit("ctrl");
    reveal_strlit("control");
    reveal_strlit("shift");
    reveal_strlit("alt");
    reveal_strlit("tab");
    reveal_strlit("backspace");
    reveal_strlit("delete");
    reveal_strlit("del");
    reveal_strlit("insert");
    reveal_strlit("ins");
    reveal_strlit("home");
    reveal_strlit("end");
    reveal_strlit("pageup");
    reveal_strlit("pgup");
    reveal_strlit("pagedown");
    reveal_strlit("pgdn");
    reveal_strlit("left");
    reveal_strlit("right");
    assert(fold("Right"@) =~= "right"@);
    lemma_named_word("Right"@, "right"@, KEY_RIGHT);
}

/// `Up` reads back as its key.
#[verifier::spinoff_prover]
proof fn lemma_name_up()
    ensures
        reads_back("Up"@, KEY_UP),
{
    reveal_strlit("Up");
    reveal_strlit("ctrl");
    reveal_strlit("control");
    reveal_strlit("shift");
    reveal_strlit("alt");
    reveal_strlit("tab");
    reveal_strlit("backspace");
    reveal_strlit("delete");
    reveal_strlit("del");
    reveal_strlit("insert");
    reveal_strlit("ins");
    reveal_strlit("home");
    reveal_strlit("end");
    reveal_strlit("pageup");
    reveal_strlit("pgup");
    reveal_strlit("pagedown");
    reveal_strlit("pgdn");
    reveal_strlit("left");
    reveal_strlit("right");
    reveal_strlit("up");
    assert(fold("Up"@) =~= "up"@);
    lemma_named_word("Up"@, "up"@, KEY_UP);
}

/// `Down` reads back as its key.
#[verifier::spinoff_prover]
proof fn lemma_name_down()
    ensures
        reads_back("Down"@, KEY_DOWN),
{
    reveal_strlit("Down");
    reveal_strlit("ctrl");
    reveal_strlit("control");
    reveal_strlit("shift");
    reveal_strlit("alt");
    reveal_strlit("tab");
    reveal_strlit("backspace");
    reveal_strlit("delete");
    reveal_strlit("del");
    reveal_strlit("insert");
    reveal_strlit("ins");
    reveal_strlit("home");
    reveal_strlit("end");
    reveal_strlit("pageup");
    reveal_strlit("pgup");
    reveal_strlit("pagedown");
    reveal_strlit("pgdn");
    reveal_strlit("left");
    reveal_strlit("right");
    reveal_strlit("up");
    reveal_strlit("down");
    assert(fold("Down"@) =~= "down"@);
    lemma_named_word("Down"@, "down"@, KEY_DOWN);
}

/// `Home` reads back as its key.
#[verifier::spinoff_prover]
proof fn lemma_name_home()
    ensures
        reads_back("Home"@, KEY_HOME),
{
    reveal_strlit("Home");
    reveal_strlit("ctrl");
    reveal_strlit("control");
    reveal_strlit("shift");
    reveal_strlit("alt");
    reveal_strlit("tab");
    reveal_strlit("backspace");
    reveal_strlit("delete");
    reveal_strlit("del");
    reveal_strlit("insert");
    reveal_strlit("ins");
    reveal_strlit("home");
    assert(fold("Home"@) =~= "home"@);
    lemma_named_word("Home"@, "home"@, KEY_HOME);
}

/// `End` reads back as its key.
#[verifier::spinoff_prover]
proof fn lemma_name_end()
    ensures
        reads_back("End"@, KEY_END),
{
    reveal_strlit("End");
    reveal_strlit("ctrl");
    reveal_strlit("control");
    reveal_strlit("shift");
    reveal_strlit("alt");
    reveal_strlit("tab");
    reveal_strlit("backspace");
    reveal_strlit("delete");
    reveal_strlit("del");
    reveal_strlit("insert");
    reveal_strlit("ins");
    reveal_strlit("home");
    reveal_strlit("end");
    assert(fold("End"@) =~= "end"@);
    lemma_named_word("End"@, "end"@, KEY_END);
}

/// `PageUp` reads back as its key.
#[verifier::spinoff_prover]
proof fn lemma_name_pageup()
    ensures
        reads_back("PageUp"@, KEY_PAGE_UP),
{
    reveal_strlit("PageUp");
    reveal_strlit("ctrl");
    reveal_strlit("control");
    reveal_strlit("shift");
    reveal_strlit("alt");
    reveal_strlit("tab");
    reveal_strlit("backspace");
    reveal_strlit("delete");
    reveal_strlit("del");
    reveal_strlit("insert");
    reveal_strlit("ins");
    reveal_strlit("home");
    reveal_strlit("end");
    reveal_strlit("pageup");
    assert(fold("PageUp"@) =~= "pageup"@);
    lemma_named_word("PageUp"@, "pageup"@, KEY_PAGE_UP);
}

/// `PageDown` reads back as its key.
#[verifier::spinoff_prover]
proof fn lemma_name_pagedown()
    ensures
        reads_back("PageDown"@, KEY_PAGE_DOWN),
{
    reveal_strlit("PageDown");
    reveal_strlit("ctrl");
    reveal_strlit("control");
    reveal_strlit("shift");
    reveal_strlit("alt");
    reveal_strlit("tab");
    reveal_strlit("backspace");
    reveal_strlit("delete");
    reveal_strlit("del");
    reveal_strlit("insert");
    reveal_strlit("ins");
    reveal_strlit("home");
    reveal_strlit("end");
    reveal_strlit("pageup");
    reveal_strlit("pgup");
    reveal_strlit("pagedown");
    assert(fold("PageDown"@) =~= "pagedown"@);
    lemma_named_word("PageDown"@, "pagedown"@, KEY_PAGE_DOWN);
}

/// `Insert` reads back as its key.
#[verifier::spinoff_prover]
proof fn lemma_name_insert()
    ensures
        reads_back("Insert"@, KEY_INSERT),
{
    reveal_strlit("Insert");
    reveal_strlit("ctrl");
    reveal_strlit("control");
    reveal_strlit("shift");
    reveal_strlit("alt");
    reveal_strlit("tab");
    reveal_strlit("backspace");
    reveal_strlit("delete");
    reveal_strlit("del");
    reveal_strlit("insert");
    assert(fold("Insert"@) =~= "insert"@);
    lemma_named_word("Insert"@, "insert"@, KEY_INSERT);
}

/// `Tab` reads back as its key.
#[verifier::spinoff_prover]
proof fn lemma_name_tab()
    ensures
        reads_back("Tab"@, KEY_TAB),
{
    reveal_strlit("Tab");
    reveal_strlit("ctrl");
    reveal_strlit("control");
    reveal_strlit("shift");
    reveal_strlit("alt");
    reveal_strlit("tab");
    assert(fold("Tab"@) =~= "tab"@);
    lemma_named_word("Tab"@, "tab"@, KEY_TAB);
}

/// `Escape` reads back as its key.
#[verifier::spinoff_prover]
proof fn lemma_name_escape()
    ensures
        reads_back("Escape"@, KEY_ESCAPE),
{
    reveal_strlit("Escape");
    reveal_strlit("ctrl");
    reveal_strlit("control");
    reveal_strlit("shift");
    reveal_strlit("alt");
    reveal_strlit("tab");
    reveal_strlit("backspace");
    reveal_strlit("delete");
    reveal_strlit("del");
    reveal_strlit("insert");
    reveal_strlit("ins");
    reveal_strlit("home");
    reveal_strlit("end");
    reveal_strlit("pageup");
    reveal_strlit("pgup");
    reveal_strlit("pagedown");
    reveal_strlit("pgdn");
    reveal_strlit("left");
    reveal_strlit("right");
    reveal_strlit("up");
    reveal_strlit("down");
    reveal_strlit("space");
    reveal_strlit("escape");
    assert(fold("Escape"@) =~= "escape"@);
    lemma_named_word("Escape"@, "escape"@, KEY_ESCAPE);
}

/// `Backspace` reads back as its key.
#[verifier::spinoff_prover]
proof fn lemma_name_backspace()
    ensures
        reads_back("Backspace"@, KEY_BACKSPACE),
{
    reveal_strlit("Backspace");
    reveal_strlit("ctrl");
    reveal_strlit("control");
    reveal_strlit("shift");
    reveal_strlit("alt");
    reveal_strlit("tab");
    reveal_strlit("backspace");
    assert(fold("Backspace"@) =~= "backspace"@);
    lemma_named_word("Backspace"@, "backspace"@, KEY_BACKSPACE);
}

/// `Delete` reads back as its key.
#[verifier::spinoff_prover]
proof fn lemma_name_delete()
    ensures
        reads_back("Delete"@, KEY_DELETE),
{
    reveal_strlit("Delete");
    reveal_strlit("ctrl");
    reveal_strlit("control");
    reveal_strlit("shift");
    reveal_strlit("alt");
    reveal_strlit("tab");
    reveal_strlit("backspace");
    reveal_strlit("delete");
    assert(fold("Delete"@) =~= "delete"@);
    lemma_named_word("Delete"@, "delete"@, KEY_DELETE);
}

/// The names of the non-printable named keys, and of the space bar, are
/// read back as those keys.
proof fn lemma_named_key_name(key: i32)
    requires
        key_name_spec(key) is Some,
        !(KEY_F_BASE + 1 <= key <= KEY_F_BASE + 12),
        !(0x21 <= key <= 0x7e),
    ensures
        reads_back(key_name_spec(key)->0, key),
{
    if key == 0x20 {
        assert(key_name_spec(key) == Some("Space"@));
        lemma_name_space();
    } else if key == KEY_LEFT {
        lemma_name_left();
    } else if key == KEY_RIGHT {
        lemma_name_right();
    } else if key == KEY_UP {
        lemma_name_up();
    } else if key == KEY_DOWN {
        lemma_name_down();
    } else if key == KEY_HOME {
        lemma_name_home();
    } else if key == KEY_END {
        lemma_name_end();
    } else if key == KEY_PAGE_UP {
        lemma_name_pageup();
    } else if key == KEY_PAGE_DOWN {
        lemma_name_pagedown();
    } else if key == KEY_INSERT {
        lemma_name_insert();
    } else if key == KEY_TAB {
        lemma_name_tab();
    } else if key == KEY_ESCAPE {
        lemma_name_escape();
    } else if key == KEY_BACKSPACE {
        lemma_name_backspace();
    } else {
        assert(key == KEY_DELETE);
        lemma_name_delete();
    }
}

/// A shortcut captured from a key press parses back to that key press:
/// the same modifiers and the same key (an uppercase letter comes back as
/// its lowercase code). Punctuation keys other than the space bar are left
/// out: the parser does not accept their names (such as `Minus`).
pub proof fn lemma_captured_shortcut_parses(key: i32, ctrl: bool, shift: bool, alt: bool)
    requires
        shortcut_string_spec(key, ctrl, shift, alt) is Some,
        !is_punctuation_key(key),
    ensures
        parse_shortcut_spec(shortcut_string_spec(key, ctrl, shift, alt)->0) == Some(
            Shortcut { bits: shortcut_bits(ctrl, shift, alt, parsed_key_code(key)) },
        ),
{
    let name = key_name_spec(key)->0;
    if KEY_F_BASE + 1 <= key <= KEY_F_BASE + 12 {
        lemma_function_key_name(key);
    } else if 0x21 <= key <= 0x7e {
        lemma_alnum_key_name(key);
    } else if key == 0x20 {
        lemma_named_key_name(key);
    } else {
        lemma_named_key_name(key);
    }
    assert(key_for_part(name) == Some(parsed_key_code(key)));
    reveal_strlit("Ctrl+");
    reveal_strlit("Shift+");
    reveal_strlit("Alt+");
    reveal_strlit("Ctrl");
    reveal_strlit("Shift");
    reveal_strlit("Alt");
    let e = Seq::<char>::empty();
    let pa = if alt { "Alt+"@ } else { e };
    let ps = if shift { "Shift+"@ } else { e };
    let pc = if ctrl { "Ctrl+"@ } else { e };
    let r2 = pa + name;
    let r1 = ps + r2;
    let s = pc + r1;
    assert(shortcut_string_spec(key, ctrl, shift, alt) == Some(s)) by {
        assert(pc + ps + pa + name =~= s);
    }
    let init = PartsState { ctrl: false, shift: false, alt: false, key: None };
    let st1 = PartsState { ctrl: ctrl, ..init };
    let st2 = PartsState { shift: shift, ..st1 };
    let st3 = PartsState { alt: alt, ..st2 };
    if ctrl {
        assert(s =~= "Ctrl"@ + seq!['+'] + r1);
        lemma_modifier_step("Ctrl"@, r1, init, st1);
    } else {
        assert(s =~= r1);
    }
    if shift {
        assert(r1 =~= "Shift"@ + seq!['+'] + r2);
        lemma_modifier_step("Shift"@, r2, st1, st2);
    } else {
        assert(r1 =~= r2);
    }
    if alt {
        assert(r2 =~= "Alt"@ + seq!['+'] + name);
        lemma_modifier_step("Alt"@, name, st2, st3);
    } else {
        assert(r2 =~= name);
    }
    lemma_key_step(name, st3, parsed_key_code(key));
    assert(s.len() > 0);
}


/// `Ctrl` (and `Shift`) with a letter key is recorded as `Ctrl+` (and
/// `Shift+`) and the capital letter, and parses.
proof fn lemma_ctrl_letter_parses(c: char, shift: bool, text: Seq<char>)
    requires
        'a' <= c <= 'z',
        text == "Ctrl+"@ + (if shift {
            "Shift+"@
        } else {
            Seq::<char>::empty()
        }) + seq![ascii_upper(c)],
    ensures
        parse_shortcut_spec(text) is Some,
{
    let key = (c as u32) as i32;
    assert(key as char == c);
    assert(0x20 <= key <= 0x7e);
    assert(key_name_spec(key) == Some(seq![ascii_upper(c)]));
    assert(shortcut_string_spec(key, true, shift, false) == Some(text)) by {
        let e = Seq::<char>::empty();
        assert(text =~= "Ctrl+"@ + (if shift { "Shift+"@ } else { e }) + e + seq![ascii_upper(c)]);
    }
    lemma_captured_shortcut_parses(key, true, shift, false);
}

/// `Ctrl` (and `Shift`) with the Tab key is recorded as `Ctrl+` (and
/// `Shift+`) and `Tab`, and parses.
proof fn lemma_ctrl_tab_parses(shift: bool, text: Seq<char>)
    requires
        text == "Ctrl+"@ + (if shift {
            "Shift+"@
        } else {
            Seq::<char>::empty()
        }) + "Tab"@,
    ensures
        parse_shortcut_spec(text) is Some,
{
    assert(key_name_spec(KEY_TAB) == Some("Tab"@));
    assert(shortcut_string_spec(KEY_TAB, true, shift, false) == Some(text)) by {
        let e = Seq::<char>::empty();
        assert(text =~= "Ctrl+"@ + (if shift { "Shift+"@ } else { e }) + e + "Tab"@);
    }
    lemma_captured_shortcut_parses(KEY_TAB, true, shift, false);
}

/// The default shortcut of every built-in command, with tabs on or off, is
/// one the shortcut parser accepts (when there is one): each is what the
/// shortcut dialog records for its key press.
pub proof fn lemma_builtin_defaults_parse(id: Seq<char>, tabs_enabled: bool)
    ensures
        builtin_default_spec(id, tabs_enabled).len() > 0 ==> parse_shortcut_spec(
            builtin_default_spec(id, tabs_enabled),
        ) is Some,
{
    if id == "File/New"@ && !tabs_enabled {
        lemma_ctrl_n_parses();
    } else {
        assert(builtin_shortcuts_spec().skip(0) =~= builtin_shortcuts_spec());
        lemma_table_defaults_parse(id, 0);
    }
}

/// The first entry for `id` from entry `i` of the table on holds a
/// shortcut that parses, when there is one.
proof fn lemma_table_defaults_parse(id: Seq<char>, i: int)
    requires
        0 <= i <= builtin_shortcuts_spec().len(),
    ensures
        ({
            let d = first_default(builtin_shortcuts_spec().skip(i), id);
            d.len() > 0 ==> parse_shortcut_spec(d) is Some
        }),
    decreases builtin_shortcuts_spec().len() - i,
{
    let t = builtin_shortcuts_spec();
    if i == t.len() {
        assert(t.skip(i) =~= Seq::<(Seq<char>, Seq<char>)>::empty());
    } else {
        assert(t.skip(i)[0] == t[i]);
        assert(t.skip(i).drop_first() =~= t.skip(i + 1));
        if t[i].0 == id {
            lemma_builtin_entry_parses(i);
        } else {
            lemma_table_defaults_parse(id, i + 1);
        }
    }
}

/// `Ctrl+N`, the default of `File/New` without tabs, parses.
proof fn lemma_ctrl_n_parses()
    ensures
        parse_shortcut_spec("Ctrl+N"@) is Some,
{
    reveal_strlit("Ctrl+");
    reveal_strlit("Ctrl+N");
    assert("Ctrl+N"@ =~= "Ctrl+"@ + Seq::<char>::empty() + seq![ascii_upper('n')]);
    lemma_ctrl_letter_parses('n', false, "Ctrl+N"@);
}

/// Entry `k` of the built-in table holds a shortcut the parser accepts.
proof fn lemma_builtin_entry_parses(k: int)
    requires
        0 <= k < builtin_shortcuts_spec().len(),
    ensures
        parse_shortcut_spec(builtin_shortcuts_spec()[k].1) is Some,
{
    reveal(builtin_shortcuts_spec);
    reveal_strlit("Ctrl+");
    reveal_strlit("Shift+");
    reveal_strlit("Tab");
    reveal_strlit("Ctrl+T");
    reveal_strlit("Ctrl+O");
    reveal_strlit("Ctrl+S");
    reveal_strlit("Ctrl+Shift+S");
    reveal_strlit("Ctrl+W");
    reveal_strlit("Ctrl+Tab");
    reveal_strlit("Ctrl+Shift+Tab");
    reveal_strlit("Ctrl+Q");
    reveal_strlit("Ctrl+Z");
    reveal_strlit("Ctrl+Shift+Z");
    reveal_strlit("Ctrl+X");
    reveal_strlit("Ctrl+C");
    reveal_strlit("Ctrl+V");
    reveal_strlit("Ctrl+A");
    reveal_strlit("Ctrl+F");
    reveal_strlit("Ctrl+H");
    reveal_strlit("Ctrl+G");
    reveal_strlit("Ctrl+M");
    reveal_strlit("Ctrl+Shift+L");
    if k == 0 {
        assert("Ctrl+T"@ =~= "Ctrl+"@ + Seq::<char>::empty() + seq![ascii_upper('t')]);
        lemma_ctrl_letter_parses('t', false, "Ctrl+T"@);
    } else if k == 1 {
        assert("Ctrl+O"@ =~= "Ctrl+"@ + Seq::<char>::empty() + seq![ascii_upper('o')]);
        lemma_ctrl_letter_parses('o', false, "Ctrl+O"@);
    } else if k == 2 {
        assert("Ctrl+S"@ =~= "Ctrl+"@ + Seq::<char>::empty() + seq![ascii_upper('s')]);
        lemma_ctrl_letter_parses('s', false, "Ctrl+S"@);
    } else if k == 3 {
        assert("Ctrl+Shift+S"@ =~= "Ctrl+"@ + "Shift+"@ + seq![ascii_upper('s')]);
        lemma_ctrl_letter_parses('s', true, "Ctrl+Shift+S"@);
    } else if k == 4 {
        assert("Ctrl+W"@ =~= "Ctrl+"@ + Seq::<char>::empty() + seq![ascii_upper('w')]);
        lemma_ctrl_letter_parses('w', false, "Ctrl+W"@);
    } else if k == 5 {
        assert("Ctrl+Tab"@ =~= "Ctrl+"@ + Seq::<char>::empty() + "Tab"@);
        lemma_ctrl_tab_parses(false, "Ctrl+Tab"@);
    } else if k == 6 {
        assert("Ctrl+Shift+Tab"@ =~= "Ctrl+"@ + "Shift+"@ + "Tab"@);
        lemma_ctrl_tab_parses(true, "Ctrl+Shift+Tab"@);
    } else if k == 7 {
        assert("Ctrl+Q"@ =~= "Ctrl+"@ + Seq::<char>::empty() + seq![ascii_upper('q')]);
        lemma_ctrl_letter_parses('q', false, "Ctrl+Q"@);
    } else if k == 8 {
        assert("Ctrl+Z"@ =~= "Ctrl+"@ + Seq::<char>::empty() + seq![ascii_upper('z')]);
        lemma_ctrl_letter_parses('z', false, "Ctrl+Z"@);
    } else if k == 9 {
        assert("Ctrl+Shift+Z"@ =~= "Ctrl+"@ + "Shift+"@ + seq![ascii_upper('z')]);
        lemma_ctrl_letter_parses('z', true, "Ctrl+Shift+Z"@);
    } else if k == 10 {
        assert("Ctrl+X"@ =~= "Ctrl+"@ + Seq::<char>::empty() + seq![ascii_upper('x')]);
        lemma_ctrl_letter_parses('x', false, "Ctrl+X"@);
    } else if k == 11 {
        assert("Ctrl+C"@ =~= "Ctrl+"@ + Seq::<char>::empty() + seq![ascii_upper('c')]);
        lemma_ctrl_letter_parses('c', false, "Ctrl+C"@);
    } else if k == 12 {
        assert("Ctrl+V"@ =~= "Ctrl+"@ + Seq::<char>::empty() + seq![ascii_upper('v')]);
        lemma_ctrl_letter_parses('v', false, "Ctrl+V"@);
    } else if k == 13 {
        assert("Ctrl+A"@ =~= "Ctrl+"@ + Seq::<char>::empty() + seq![ascii_upper('a')]);
        lemma_ctrl_letter_parses('a', false, "Ctrl+A"@);
    } else if k == 14 {
        assert("Ctrl+F"@ =~= "Ctrl+"@ + Seq::<char>::empty() + seq![ascii_upper('f')]);
        lemma_ctrl_letter_parses('f', false, "Ctrl+F"@);
    } else if k == 15 {
        assert("Ctrl+H"@ =~= "Ctrl+"@ + Seq::<char>::empty() + seq![ascii_upper('h')]);
        lemma_ctrl_letter_parses('h', false, "Ctrl+H"@);
    } else if k == 16 {
        assert("Ctrl+G"@ =~= "Ctrl+"@ + Seq::<char>::empty() + seq![ascii_upper('g')]);
        lemma_ctrl_letter_parses('g', false, "Ctrl+G"@);
    } else if k == 17 {
        assert("Ctrl+M"@ =~= "Ctrl+"@ + Seq::<char>::empty() + seq![ascii_upper('m')]);
        lemma_ctrl_letter_parses('m', false, "Ctrl+M"@);
    } else if k == 18 {
        assert("Ctrl+Shift+L"@ =~= "Ctrl+"@ + "Shift+"@ + seq![ascii_upper('l')]);
        lemma_ctrl_letter_parses('l', true, "Ctrl+Shift+L"@);
    }
}

} // verus!
