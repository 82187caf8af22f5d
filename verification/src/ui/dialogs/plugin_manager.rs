//! The plugin manager dialog's logic: how descriptions are shortened, the
//! color of a plugin's icon, the name a plugin has in the registry, which
//! toggles are kept, and what closing the dialog reports.

use vstd::prelude::*;

use crate::text::{
    chars_of, is_unicode_whitespace, is_whitespace, lemma_trailing_ws, push_char, same_text, str_to_lowercase,
    string_from_range, string_of, to_lowercase, trailing_ws,
};
use crate::ui::dialogs::shortcut_dialog::{ascii_upper, replace_char};

verus! {

/// How many characters of a description a row shows.
pub const DESC_MAX_CHARS: usize = 60;

/// `s` without trailing whitespace (what `str::trim_end` returns).
pub open spec fn trim_end_spec(s: Seq<char>) -> Seq<char> {
    s.take(s.len() - trailing_ws(s))
}

/// `text` cut to `max_chars` characters: unchanged if it fits, else its
/// first `max_chars - 3` characters (none if `max_chars < 3`), trailing
/// whitespace removed, followed by `...`.
pub open spec fn truncate_text_spec(text: Seq<char>, max_chars: nat) -> Seq<char> {
    if text.len() <= max_chars {
        text
    } else {
        let keep: int = if max_chars >= 3 {
            max_chars - 3
        } else {
            0
        };
        trim_end_spec(text.take(keep)) + "..."@
    }
}

/// A text that is cut ends with `...` and is at most `max_chars`
/// characters long (for `max_chars >= 3`); one that fits is unchanged.
pub proof fn lemma_truncate_length(text: Seq<char>, max_chars: nat)
    requires
        max_chars >= 3,
    ensures
        truncate_text_spec(text, max_chars).len() <= max_chars,
        text.len() <= max_chars ==> truncate_text_spec(text, max_chars) == text,
        text.len() > max_chars ==> truncate_text_spec(text, max_chars).skip(
            truncate_text_spec(text, max_chars).len() - 3,
        ) == "..."@,
{
    if text.len() > max_chars {
        let s = text.take(max_chars - 3);
        lemma_trailing_ws_le(s);
        reveal_strlit("...");
        let r = truncate_text_spec(text, max_chars);
        assert(r.skip(r.len() - 3) =~= "..."@);
    }
}

proof fn lemma_trailing_ws_le(s: Seq<char>)
    ensures
        trailing_ws(s) <= s.len(),
    decreases s.len(),
{
    if s.len() > 0 {
        lemma_trailing_ws_le(s.drop_last());
    }
}

/// `text` cut to `max_chars` characters (see `truncate_text_spec`).
pub fn truncate_text(text: &str, max_chars: usize) -> (r: String)
    ensures
        r@ == truncate_text_spec(text@, max_chars as nat),
{
    let v = chars_of(text);
    if v.len() <= max_chars {
        return string_of(text);
    }
    let keep: usize = if max_chars >= 3 {
        max_chars - 3
    } else {
        0
    };
    let mut end = keep;
    while end > 0 && is_whitespace(v[end - 1])
        invariant
            end <= keep < v@.len(),
            forall|j: int| end <= j < keep ==> is_unicode_whitespace(#[trigger] v@[j]),
        decreases end,
    {
        end -= 1;
    }
    proof {
        let s = v@.take(keep as int);
        assert forall|j: int| s.len() - (keep - end) <= j < s.len() implies is_unicode_whitespace(#[trigger] s[j]) by {
            assert(s[j] == v@[j]);
        }
        if end > 0 {
            assert(s[s.len() - (keep - end) - 1] == v@[end - 1]);
        }
        lemma_trailing_ws(s, (keep - end) as int);
    }
    let mut r = string_from_range(&v, 0, end);
    push_char(&mut r, '.');
    push_char(&mut r, '.');
    push_char(&mut r, '.');
    proof {
        reveal_strlit("...");
        assert(r@ =~= truncate_text_spec(text@, max_chars as nat));
    }
    r
}

/// An RGB color.
pub type Rgb = (u8, u8, u8);

/// The icon colors for dark themes (blue, purple, teal, brown, olive, rose).
pub open spec fn dark_palette() -> Seq<Rgb> {
    seq![(100u8, 140u8, 180u8), (140u8, 100u8, 160u8), (100u8, 160u8, 140u8), (160u8, 120u8, 100u8), (140u8, 140u8, 100u8), (160u8, 100u8, 120u8)]
}

/// The icon colors for light themes.
pub open spec fn light_palette() -> Seq<Rgb> {
    seq![(70u8, 110u8, 150u8), (110u8, 70u8, 130u8), (70u8, 130u8, 110u8), (130u8, 90u8, 70u8), (110u8, 110u8, 70u8), (130u8, 70u8, 90u8)]
}

/// The background of a plugin's icon: a palette color chosen by the code
/// of the (ASCII-uppercased) first letter, modulo 6.
pub fn icon_color_for_letter(letter: char, is_dark: bool) -> (r: Rgb)
    ensures
        r == (if is_dark {
            dark_palette()
        } else {
            light_palette()
        })[((ascii_upper(letter) as u32) % 6) as int],
{
    let upper = if 'a' <= letter && letter <= 'z' {
        ((letter as u32) - 32) as u32
    } else {
        letter as u32
    };
    proof {
        if 'a' <= letter && letter <= 'z' {
            assert((ascii_upper(letter) as u32) == (letter as u32) - 32);
        }
    }
    let idx = upper % 6;
    let palette: Vec<Rgb> = if is_dark {
        vec![(100, 140, 180), (140, 100, 160), (100, 160, 140), (160, 120, 100), (140, 140, 100), (160, 100, 120)]
    } else {
        vec![(70, 110, 150), (110, 70, 130), (70, 130, 110), (130, 90, 70), (110, 110, 70), (130, 70, 90)]
    };
    proof {
        if is_dark {
            assert(palette@ =~= dark_palette());
        } else {
            assert(palette@ =~= light_palette());
        }
    }
    palette[idx as usize]
}

/// The name a plugin has in the registry: its display name lowercased, with
/// spaces turned into hyphens.
pub fn registry_name(name: &str) -> (r: String)
    ensures
        r@ == replace_char(str_to_lowercase(name@), ' ', "-"@),
{
    let lower = to_lowercase(name);
    let v = chars_of(lower.as_str());
    let mut r = String::new();
    let mut i: usize = 0;
    proof {
        reveal_strlit("-");
        assert(v@.take(0) =~= Seq::<char>::empty());
    }
    while i < v.len()
        invariant
            i <= v@.len(),
            v@ == str_to_lowercase(name@),
            "-"@ == seq!['-'],
            r@ == replace_char(v@.take(i as int), ' ', "-"@),
        decreases v@.len() - i,
    {
        assert(v@.take(i + 1).drop_last() =~= v@.take(i as int));
        if v[i] == ' ' {
            push_char(&mut r, '-');
        } else {
            push_char(&mut r, v[i]);
        }
        i += 1;
    }
    assert(v@.take(i as int) =~= v@);
    r
}

/// The toggles as `(name, enabled)` values.
pub open spec fn toggle_views(s: Seq<(String, bool)>) -> Seq<(Seq<char>, bool)> {
    Seq::new(s.len(), |i: int| (s[i].0@, s[i].1))
}

/// The toggles whose plugin is not `name`, in order.
pub open spec fn without_name(s: Seq<(Seq<char>, bool)>, name: Seq<char>) -> Seq<(Seq<char>, bool)>
    decreases s.len(),
{
    if s.len() == 0 {
        s
    } else {
        let rest = without_name(s.drop_last(), name);
        if s.last().0 != name {
            rest.push(s.last())
        } else {
            rest
        }
    }
}

/// Records that plugin `name` was switched to `enabled`: an earlier toggle
/// of the same plugin is dropped, and this one is added last.
pub fn record_toggle(toggles: &mut Vec<(String, bool)>, name: &str, enabled: bool)
    ensures
        toggle_views(final(toggles)@) == without_name(toggle_views(old(toggles)@), name@).push((name@, enabled)),
{
    let mut kept: Vec<(String, bool)> = Vec::new();
    let mut i: usize = 0;
    let ghost olds = toggle_views(old(toggles)@);
    assert(olds.take(0) =~= Seq::<(Seq<char>, bool)>::empty());
    assert(toggle_views(kept@) =~= Seq::<(Seq<char>, bool)>::empty());
    while i < toggles.len()
        invariant
            i <= toggles@.len(),
            toggles@ == old(toggles)@,
            olds == toggle_views(old(toggles)@),
            toggle_views(kept@) == without_name(olds.take(i as int), name@),
        decreases toggles@.len() - i,
    {
        let same = same_text(toggles[i].0.as_str(), name);
        proof {
            assert(olds.take(i + 1).drop_last() =~= olds.take(i as int));
            assert(olds.take(i + 1).last() == olds[i as int]);
        }
        let ghost before = kept@;
        if !same {
            let (n, b) = (string_of(toggles[i].0.as_str()), toggles[i].1);
            kept.push((n, b));
            assert(toggle_views(kept@) =~= toggle_views(before).push(olds[i as int]));
        }
        i += 1;
    }
    assert(olds.take(i as int) =~= olds);
    let ghost before = kept@;
    kept.push((string_of(name), enabled));
    assert(toggle_views(kept@) =~= toggle_views(before).push((name@, enabled)));
    *toggles = kept;
}

/// No plugin occurs twice among the toggles.
pub open spec fn distinct_names(s: Seq<(Seq<char>, bool)>) -> bool {
    forall|i: int, j: int| 0 <= i < j < s.len() ==> (#[trigger] s[i]).0 != (#[trigger] s[j]).0
}

/// What `without_name` keeps: the toggles of other plugins, each taken
/// from `s`, and all of them.
proof fn lemma_without_name(s: Seq<(Seq<char>, bool)>, name: Seq<char>)
    ensures
        forall|i: int|
            0 <= i < without_name(s, name).len() ==> (#[trigger] without_name(s, name)[i]).0 != name
                && s.contains(without_name(s, name)[i]),
        forall|j: int| 0 <= j < s.len() && (#[trigger] s[j]).0 != name ==> without_name(s, name).contains(s[j]),
        distinct_names(s) ==> distinct_names(without_name(s, name)),
    decreases s.len(),
{
    if s.len() > 0 {
        let init = s.drop_last();
        lemma_without_name(init, name);
        let rest = without_name(init, name);
        let w = without_name(s, name);
        assert forall|i: int| 0 <= i < w.len() implies (#[trigger] w[i]).0 != name && s.contains(w[i]) by {
            if i < rest.len() {
                assert(w[i] == rest[i]);
                let j = choose|j: int| 0 <= j < init.len() && init[j] == rest[i];
                assert(s[j] == w[i]);
            } else {
                assert(w[i] == s.last());
                assert(s[s.len() - 1] == w[i]);
            }
        }
        assert forall|j: int| 0 <= j < s.len() && (#[trigger] s[j]).0 != name implies w.contains(s[j]) by {
            if j < s.len() - 1 {
                assert(init[j] == s[j]);
                let i = choose|i: int| 0 <= i < rest.len() && rest[i] == init[j];
                assert(w[i] == rest[i]);
            } else {
                assert(w[w.len() - 1] == s[j]);
            }
        }
        if distinct_names(s) {
            assert(distinct_names(init)) by {
                assert forall|i: int, j: int| 0 <= i < j < init.len() implies (#[trigger] init[i]).0
                    != (#[trigger] init[j]).0 by {
                    assert(init[i] == s[i] && init[j] == s[j]);
                }
            }
            assert forall|i: int, j: int| 0 <= i < j < w.len() implies (#[trigger] w[i]).0 != (
            #[trigger] w[j]).0 by {
                if j < rest.len() {
                    assert(w[i] == rest[i] && w[j] == rest[j]);
                } else {
                    assert(w[i] == rest[i] && w[j] == s.last());
                    let k = choose|k: int| 0 <= k < init.len() && init[k] == rest[i];
                    assert(s[k] == init[k]);
                    assert(s[s.len() - 1] == s.last());
                }
            }
        }
    }
}

/// Dropping a plugin's toggles twice drops them once.
proof fn lemma_without_name_twice(s: Seq<(Seq<char>, bool)>, name: Seq<char>)
    ensures
        without_name(without_name(s, name), name) == without_name(s, name),
    decreases s.len(),
{
    if s.len() > 0 {
        lemma_without_name_twice(s.drop_last(), name);
        let rest = without_name(s.drop_last(), name);
        if s.last().0 != name {
            assert(rest.push(s.last()).drop_last() =~= rest);
        }
    }
}

/// Recording toggles keeps each plugin at most once, with its latest state
/// last, and keeps every other plugin's toggle.
pub proof fn lemma_record_toggle_keeps_one_per_plugin(
    s: Seq<(Seq<char>, bool)>,
    name: Seq<char>,
    enabled: bool,
)
    requires
        distinct_names(s),
    ensures
        ({
            let r = without_name(s, name).push((name, enabled));
            &&& distinct_names(r)
            &&& r.last() == (name, enabled)
            &&& forall|j: int| 0 <= j < s.len() && (#[trigger] s[j]).0 != name ==> r.contains(s[j])
        }),
{
    lemma_without_name(s, name);
    let w = without_name(s, name);
    let r = w.push((name, enabled));
    assert forall|i: int, j: int| 0 <= i < j < r.len() implies (#[trigger] r[i]).0 != (#[trigger] r[j]).0 by {
        assert(r[i] == w[i]);
        if j < w.len() {
            assert(r[j] == w[j]);
        }
    }
    assert forall|j: int| 0 <= j < s.len() && (#[trigger] s[j]).0 != name implies r.contains(s[j]) by {
        let i = choose|i: int| 0 <= i < w.len() && w[i] == s[j];
        assert(r[i] == w[i]);
    }
}

/// The latest toggle of a plugin wins: recording `a` and then `b` for the
/// same plugin leaves what recording `b` alone leaves.
pub proof fn lemma_record_toggle_latest_wins(
    s: Seq<(Seq<char>, bool)>,
    name: Seq<char>,
    a: bool,
    b: bool,
)
    ensures
        without_name(without_name(s, name).push((name, a)), name).push((name, b)) == without_name(
            s,
            name,
        ).push((name, b)),
{
    let w = without_name(s, name);
    assert(w.push((name, a)).drop_last() =~= w);
    assert(w.push((name, a)).last().0 == name);
    lemma_without_name_twice(s, name);
}


/// What the plugin manager reports when it closes.
#[derive(Debug)]
pub enum PluginManagerResult {
    /// Plugins switched on or off: `(name, enabled)`.
    ToggledPlugins(Vec<(String, bool)>),
    /// Reload all plugins.
    ReloadAll,
    /// Plugins installed.
    InstalledPlugins(Vec<String>),
    /// Plugins uninstalled.
    UninstalledPlugins(Vec<String>),
    /// Nothing changed.
    Cancelled,
}

/// What closing the dialog reports: uninstalls if any, else installs if
/// any, else toggles if any, else `otherwise` (nothing changed when the
/// Close button is used; what was already decided when the window is
/// closed).
pub fn closing_result(
    toggles: Vec<(String, bool)>,
    installed: Vec<String>,
    uninstalled: Vec<String>,
    otherwise: PluginManagerResult,
) -> (r: PluginManagerResult)
    ensures
        uninstalled@.len() > 0 ==> (r matches PluginManagerResult::UninstalledPlugins(v) && v@ == uninstalled@),
        uninstalled@.len() == 0 && installed@.len() > 0 ==> (r matches PluginManagerResult::InstalledPlugins(v)
            && v@ == installed@),
        uninstalled@.len() == 0 && installed@.len() == 0 && toggles@.len() > 0 ==> (
        r matches PluginManagerResult::ToggledPlugins(v) && v@ == toggles@),
        uninstalled@.len() == 0 && installed@.len() == 0 && toggles@.len() == 0 ==> r == otherwise,
{
    if uninstalled.len() > 0 {
        PluginManagerResult::UninstalledPlugins(uninstalled)
    } else if installed.len() > 0 {
        PluginManagerResult::InstalledPlugins(installed)
    } else if toggles.len() > 0 {
        PluginManagerResult::ToggledPlugins(toggles)
    } else {
        otherwise
    }
}


/// The width of the plugin rows in a scroll area `full_width` wide: the
/// whole width while the rows (`content_height` tall) fit in the viewport,
/// less the scrollbar once they are taller.
pub fn row_width_for_scroll(content_height: i32, viewport_height: i32, full_width: i32) -> (r: i32)
    requires
        full_width >= i32::MIN + crate::ui::dialogs::SCROLLBAR_SIZE,
    ensures
        r == (if content_height > viewport_height {
            full_width - crate::ui::dialogs::SCROLLBAR_SIZE
        } else {
            full_width as int
        }),
{
    if content_height > viewport_height {
        full_width - crate::ui::dialogs::SCROLLBAR_SIZE
    } else {
        full_width
    }
}

} // verus!
