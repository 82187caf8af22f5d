//! The status bar's text: the cursor position (`Ln X, Col Y`, with the
//! selection's size), the file's path relative to the project, and the
//! label that puts the path on the left and the position on the right,
//! shortening the path from the left when the bar is narrow.

use vstd::prelude::*;
use vstd::string::StringSliceAdditionalSpecFns;
use vstd::utf8::{decode_utf8, encode_utf8, is_char_boundary};

use crate::text::{append_str, chars_of, decimal, pad_left, push_char, push_decimal, string_from_range, string_of, starts_with};

verus! {

/// Height of the status bar in pixels.
pub const STATUS_BAR_HEIGHT: i32 = 20;
/// Width of a character of the bar's font, in pixels.
pub const CHAR_WIDTH: i32 = 7;

/// The decimal text of `n`, with a minus sign when negative.
pub open spec fn int_text(n: int) -> Seq<char> {
    if n < 0 {
        seq!['-'] + decimal((-n) as nat)
    } else {
        decimal(n as nat)
    }
}

fn push_int(s: &mut String, n: i32)
    ensures
        final(s)@ == old(s)@ + int_text(n as int),
{
    let ghost before = s@;
    if n < 0 {
        push_char(s, '-');
        let m: i64 = -(n as i64);
        push_decimal(s, m as usize);
        assert(s@ =~= before + int_text(n as int));
    } else {
        push_decimal(s, n as usize);
    }
}

/// The position text: `Ln L, Col C`, then, for a selection over more than
/// one line, `    N lines selected`, else `    N chars selected`.
pub open spec fn position_text_spec(line: int, col: int, selection: Option<(i32, i32)>) -> Seq<char> {
    let base = "Ln "@ + int_text(line) + ", Col "@ + int_text(col);
    match selection {
        None => base,
        Some((lines, chars)) => if lines > 1 {
            base + "    "@ + int_text(lines as int) + " lines selected"@
        } else {
            base + "    "@ + int_text(chars as int) + " chars selected"@
        },
    }
}

/// The position text for cursor line `line` and column `col`;
/// `selection` is the number of lines the selection spans and its length
/// in characters, if there is a selection.
pub fn position_text(line: i32, col: i32, selection: Option<(i32, i32)>) -> (r: String)
    ensures
        r@ == position_text_spec(line as int, col as int, selection),
{
    let mut s = String::new();
    append_str(&mut s, "Ln ");
    push_int(&mut s, line);
    append_str(&mut s, ", Col ");
    push_int(&mut s, col);
    match selection {
        None => {},
        Some((lines, chars)) => {
            append_str(&mut s, "    ");
            if lines > 1 {
                push_int(&mut s, lines);
                append_str(&mut s, " lines selected");
            } else {
                push_int(&mut s, chars);
                append_str(&mut s, " chars selected");
            }
        },
    }
    proof {
        assert(s@ =~= position_text_spec(line as int, col as int, selection));
    }
    s
}

/// The path shown for file `fp`: relative to the project root when the
/// file lies under it (the root taken with a trailing `/`), else whole.
pub open spec fn relative_path_spec(fp: Seq<char>, root: Option<Seq<char>>) -> Seq<char> {
    match root {
        None => fp,
        Some(r) => {
            let rws = if r.len() > 0 && r.last() == '/' {
                r
            } else {
                r + seq!['/']
            };
            if rws.len() <= fp.len() && fp.take(rws.len() as int) == rws {
                fp.skip(rws.len() as int)
            } else {
                fp
            }
        },
    }
}

/// The path shown for file `fp` (see `relative_path_spec`).
pub fn relative_path(fp: &str, root: Option<&str>) -> (r: String)
    ensures
        root is None ==> r@ == fp@,
        root matches Some(x) ==> r@ == relative_path_spec(fp@, Some(x@)),
{
    match root {
        None => string_of(fp),
        Some(rt) => {
            let mut rws = chars_of(rt);
            if !(rws.len() > 0 && rws[rws.len() - 1] == '/') {
                rws.push('/');
            }
            assert(rws@ == (if rt@.len() > 0 && rt@.last() == '/' {
                rt@
            } else {
                rt@ + seq!['/']
            }));
            let v = chars_of(fp);
            if starts_with(&v, &rws) {
                let r = string_from_range(&v, rws.len(), v.len());
                assert(r@ =~= fp@.skip(rws@.len() as int));
                r
            } else {
                string_of(fp)
            }
        },
    }
}

/// The first `/` at or after byte `from`.
pub open spec fn first_slash_from(b: Seq<u8>, from: int) -> Option<int> {
    if exists|k: int| from <= k < b.len() && b[k] == 47u8 {
        Some(choose|k: int| from <= k < b.len() && b[k] == 47u8 && forall|j: int| from <= j < k ==> b[j] != 47u8)
    } else {
        None
    }
}

/// Where the path is cut when `avail` bytes are left for it, as
/// `(cut, with_ellipsis)`; `None` when it is not shown at all. It is shown
/// whole if it fits; when more than five bytes are left, its start is cut
/// so that the rest (after an ellipsis) takes `avail - 2` bytes, moved
/// forward to the next `/` if there is one.
pub open spec fn path_cut(b: Seq<u8>, avail: nat) -> Option<(int, bool)> {
    if b.len() == 0 {
        None
    } else if b.len() <= avail {
        Some((0, false))
    } else if avail > 5 {
        let skip = b.len() - (avail - 2);
        match first_slash_from(b, skip) {
            Some(k) => Some((k, true)),
            None => Some((skip, true)),
        }
    } else {
        None
    }
}

/// The status bar's label for a bar `width_px` pixels wide: without a path
/// to show, the position text right-aligned in the bar's width (in
/// characters); else two spaces, the (possibly cut) path, spaces, the
/// position text and two spaces, the gap filling the bar's width. Lengths
/// are counted in bytes, as the bar measures them.
pub open spec fn label_spec(width_px: int, path: Seq<char>, pos: Seq<char>) -> Seq<char> {
    let total: nat = if width_px / CHAR_WIDTH as int > 0 {
        (width_px / CHAR_WIDTH as int) as nat
    } else {
        0
    };
    let b = encode_utf8(path);
    let pos_len = encode_utf8(pos).len();
    let avail: nat = if total >= pos_len + 4 {
        (total - (pos_len + 4)) as nat
    } else {
        0
    };
    match path_cut(b, avail) {
        None => pad_left(pos, total),
        Some((cut, ell)) => {
            let shown = decode_utf8(b.skip(cut));
            let shown_len: int = (if ell {
                3int
            } else {
                0int
            }) + b.len() - cut;
            let gap: nat = if total >= shown_len + pos_len + 4 {
                (total - (shown_len + pos_len + 4)) as nat
            } else {
                0
            };
            "  "@ + (if ell {
                seq!['\u{2026}']
            } else {
                Seq::empty()
            }) + shown + Seq::new(gap, |i: int| ' ') + pos + "  "@
        },
    }
}

/// Whether cutting the path where `path_cut` says lands between two
/// characters (the bar cannot cut a character in two).
pub open spec fn label_cut_ok(width_px: int, path: Seq<char>, pos: Seq<char>) -> bool {
    let total: nat = if width_px / CHAR_WIDTH as int > 0 {
        (width_px / CHAR_WIDTH as int) as nat
    } else {
        0
    };
    let b = encode_utf8(path);
    let pos_len = encode_utf8(pos).len();
    let avail: nat = if total >= pos_len + 4 {
        (total - (pos_len + 4)) as nat
    } else {
        0
    };
    match path_cut(b, avail) {
        Some((cut, _)) => is_char_boundary(b, cut),
        None => true,
    }
}

fn first_slash_exec(b: &[u8], from: usize) -> (r: Option<usize>)
    requires
        from <= b@.len(),
    ensures
        r matches Some(k) ==> first_slash_from(b@, from as int) == Some(k as int) && k < b@.len(),
        r is None ==> first_slash_from(b@, from as int) is None,
{
    let mut k = from;
    while k < b.len()
        invariant
            from <= k <= b@.len(),
            forall|j: int| from <= j < k ==> b@[j] != 47u8,
        decreases b@.len() - k,
    {
        if b[k] == 47u8 {
            proof {
                let w = choose|w: int| from <= w < b@.len() && b@[w] == 47u8 && forall|j: int| from <= j < w ==> b@[j] != 47u8;
                assert(from <= k < b@.len() && b@[k as int] == 47u8 && forall|j: int| from <= j < k ==> b@[j] != 47u8);
                assert(w == k as int) by {
                    if w < k {
                    } else if w > k {
                        assert(b@[k as int] != 47u8);
                    }
                }
            }
            return Some(k);
        }
        k += 1;
    }
    None
}

fn path_cut_exec(b: &[u8], avail: usize) -> (r: Option<(usize, bool)>)
    ensures
        r matches Some((c, e)) ==> path_cut(b@, avail as nat) == Some((c as int, e)) && c <= b@.len(),
        r is None ==> path_cut(b@, avail as nat) is None,
{
    if b.len() == 0 {
        None
    } else if b.len() <= avail {
        Some((0, false))
    } else if avail > 5 {
        let skip = b.len() - (avail - 2);
        match first_slash_exec(b, skip) {
            Some(k) => Some((k, true)),
            None => Some((skip, true)),
        }
    } else {
        None
    }
}

/// `pos` right-aligned in `total` characters.
fn right_aligned(pos: &str, total: usize) -> (r: String)
    ensures
        r@ == pad_left(pos@, total as nat),
{
    let mut s = String::new();
    let pv = chars_of(pos);
    if pv.len() < total {
        let mut k: usize = pv.len();
        while k < total
            invariant
                pv@.len() <= k <= total,
                s@ == Seq::new((k - pv@.len()) as nat, |i: int| ' '),
            decreases total - k,
        {
            push_char(&mut s, ' ');
            assert(s@ =~= Seq::new((k + 1 - pv@.len()) as nat, |i: int| ' '));
            k += 1;
        }
    }
    append_str(&mut s, pos);
    assert(s@ =~= pad_left(pos@, total as nat));
    s
}

/// Two spaces, the ellipsis (if `ell`), `shown`, `gap` spaces, `pos`, two
/// spaces.
fn path_and_position(ell: bool, shown: &str, gap: usize, pos: &str) -> (r: String)
    ensures
        r@ == "  "@ + (if ell {
            seq!['\u{2026}']
        } else {
            Seq::empty()
        }) + shown@ + Seq::new(gap as nat, |i: int| ' ') + pos@ + "  "@,
{
    let mut s = String::new();
    append_str(&mut s, "  ");
    if ell {
        push_char(&mut s, '\u{2026}');
    }
    append_str(&mut s, shown);
    let ghost before = s@;
    let mut k: usize = 0;
    while k < gap
        invariant
            k <= gap,
            s@ == before + Seq::new(k as nat, |i: int| ' '),
        decreases gap - k,
    {
        push_char(&mut s, ' ');
        assert(s@ =~= before + Seq::new((k + 1) as nat, |i: int| ' '));
        k += 1;
    }
    append_str(&mut s, pos);
    append_str(&mut s, "  ");
    proof {
        let e: Seq<char> = if ell {
            seq!['\u{2026}']
        } else {
            Seq::empty()
        };
        assert(s@ =~= "  "@ + e + shown@ + Seq::new(gap as nat, |i: int| ' ') + pos@ + "  "@);
    }
    s
}

/// The status bar's label (see `label_spec`); `None` when the path would
/// have to be cut inside a character (see `label_cut_ok`).
pub fn compose_label(width_px: i32, path_text: &str, pos_text: &str) -> (r: Option<String>)
    requires
        path_text.spec_bytes().len() + pos_text.spec_bytes().len() + 8 <= usize::MAX,
    ensures
        label_cut_ok(width_px as int, path_text@, pos_text@) ==> (r matches Some(s) && s@ == label_spec(
            width_px as int,
            path_text@,
            pos_text@,
        )),
        !label_cut_ok(width_px as int, path_text@, pos_text@) ==> r is None,
{
    let q: i32 = if width_px >= 0 {
        width_px / CHAR_WIDTH
    } else {
        0
    };
    assert(width_px < 0 ==> width_px as int / CHAR_WIDTH as int <= 0) by (nonlinear_arith);
    let total: usize = if q > 0 {
        q as usize
    } else {
        0
    };
    let b = path_text.as_bytes();
    let pos_len = pos_text.as_bytes().len();
    let avail: usize = if total >= pos_len + 4 {
        total - (pos_len + 4)
    } else {
        0
    };
    match path_cut_exec(b, avail) {
        None => Some(right_aligned(pos_text, total)),
        Some((c, ell)) => {
            if !path_text.is_char_boundary(c) {
                return None;
            }
            let (_, tail) = path_text.split_at(c);
            proof {
                broadcast use vstd::utf8::encode_utf8_decode_utf8;

                assert(tail@ == decode_utf8(encode_utf8(tail@)));
            }
            let shown_len: usize = if ell {
                3 + (b.len() - c)
            } else {
                b.len() - c
            };
            let gap: usize = if total >= shown_len + pos_len + 4 {
                total - (shown_len + pos_len + 4)
            } else {
                0
            };
            Some(path_and_position(ell, tail, gap, pos_text))
        },
    }
}

} // verus!
