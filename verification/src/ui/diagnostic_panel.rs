//! The diagnostic panel's text: the header that sums up the diagnostics
//! (or says that all checks passed), one line per diagnostic, the tooltip
//! of a diagnostic, the list's order (by severity: errors, then warnings,
//! then infos and hints) and which diagnostic a list row stands for.

use vstd::prelude::*;

use crate::text::{append_str, decimal, push_char, push_decimal, string_of};

verus! {

/// Height of the diagnostic panel when it is shown.
pub const DIAGNOSTIC_PANEL_HEIGHT: i32 = 120;

/// How serious a diagnostic is.
#[derive(Debug, Clone, Copy, PartialEq, Eq, Structural)]
pub enum DiagnosticLevel {
    Error,
    Warning,
    Info,
    Hint,
}

/// A diagnostic that a lint plugin reports.
pub struct Diagnostic {
    pub level: DiagnosticLevel,
    pub line: u32,
    pub column: Option<u32>,
    pub message: String,
    pub source: String,
    pub fix_message: Option<String>,
    pub url: Option<String>,
}

/// An RGB color.
pub type Rgb = (u8, u8, u8);

/// The number of diagnostics at the given levels.
pub open spec fn count_levels(d: Seq<Diagnostic>, a: DiagnosticLevel, b: DiagnosticLevel) -> nat
    decreases d.len(),
{
    if d.len() == 0 {
        0
    } else {
        count_levels(d.drop_last(), a, b) + if d.last().level == a || d.last().level == b {
            1nat
        } else {
            0nat
        }
    }
}

/// `n` followed by `word`, with an `s` unless `n` is 1.
pub open spec fn counted(n: nat, word: Seq<char>) -> Seq<char> {
    decimal(n) + seq![' '] + word + if n == 1 {
        Seq::empty()
    } else {
        seq!['s']
    }
}

/// The header of the panel: its text and its background. Without
/// diagnostics, a green "All checks passed"; else a warning sign and the
/// counts of errors, warnings and infos (hints counted as infos), the ones
/// that are not zero, joined with commas, on red if there are errors,
/// orange if there are warnings, else blue.
pub open spec fn summary_spec(d: Seq<Diagnostic>) -> (Seq<char>, Rgb) {
    let e = count_levels(d, DiagnosticLevel::Error, DiagnosticLevel::Error);
    let w = count_levels(d, DiagnosticLevel::Warning, DiagnosticLevel::Warning);
    let i = count_levels(d, DiagnosticLevel::Info, DiagnosticLevel::Hint);
    if d.len() == 0 {
        ("  \u{2714} All checks passed"@, (46u8, 125u8, 50u8))
    } else {
        let parts = (if e > 0 { seq![counted(e, "error"@)] } else { Seq::empty() }) + (if w > 0 {
            seq![counted(w, "warning"@)]
        } else {
            Seq::empty()
        }) + (if i > 0 { seq![decimal(i) + " info"@] } else { Seq::empty() });
        (
            "  \u{26A0} "@ + crate::text::join_spec(parts, ", "@),
            if e > 0 {
                (198u8, 40u8, 40u8)
            } else if w > 0 {
                (245u8, 124u8, 0u8)
            } else {
                (25u8, 118u8, 210u8)
            },
        )
    }
}

fn count_exec(d: &[Diagnostic], a: DiagnosticLevel, b: DiagnosticLevel) -> (r: usize)
    ensures
        r == count_levels(d@, a, b),
{
    let mut n: usize = 0;
    let mut k: usize = 0;
    assert(d@.take(0) =~= Seq::<Diagnostic>::empty());
    while k < d.len()
        invariant
            k <= d@.len(),
            n == count_levels(d@.take(k as int), a, b),
            n <= k,
        decreases d@.len() - k,
    {
        assert(d@.take(k + 1).drop_last() =~= d@.take(k as int));
        if d[k].level == a || d[k].level == b {
            n += 1;
        }
        k += 1;
    }
    assert(d@.take(k as int) =~= d@);
    n
}

fn push_counted(s: &mut String, n: usize, word: &str)
    ensures
        final(s)@ == old(s)@ + counted(n as nat, word@),
{
    push_decimal(s, n);
    push_char(s, ' ');
    append_str(s, word);
    if n != 1 {
        push_char(s, 's');
    }
    proof {
        assert(final(s)@ =~= old(s)@ + counted(n as nat, word@));
    }
}

/// The header of the panel (see `summary_spec`).
pub fn summary(d: &[Diagnostic]) -> (r: (String, Rgb))
    ensures
        (r.0@, r.1) == summary_spec(d@),
{
    let e = count_exec(d, DiagnosticLevel::Error, DiagnosticLevel::Error);
    let w = count_exec(d, DiagnosticLevel::Warning, DiagnosticLevel::Warning);
    let i = count_exec(d, DiagnosticLevel::Info, DiagnosticLevel::Hint);
    if d.len() == 0 {
        return (string_of("  \u{2714} All checks passed"), (46, 125, 50));
    }
    let ghost pe: Seq<Seq<char>> = if e > 0 { seq![counted(e as nat, "error"@)] } else { Seq::empty() };
    let ghost pw: Seq<Seq<char>> = if w > 0 { seq![counted(w as nat, "warning"@)] } else { Seq::empty() };
    let ghost pi: Seq<Seq<char>> = if i > 0 { seq![decimal(i as nat) + " info"@] } else { Seq::empty() };
    let mut s = string_of("  \u{26A0} ");
    let ghost head = s@;
    let mut first = true;
    if e > 0 {
        push_counted(&mut s, e, "error");
        first = false;
    }
    let ghost after_e = s@;
    if w > 0 {
        if !first {
            append_str(&mut s, ", ");
        }
        push_counted(&mut s, w, "warning");
        first = false;
    }
    let ghost after_w = s@;
    if i > 0 {
        if !first {
            append_str(&mut s, ", ");
        }
        push_decimal(&mut s, i);
        append_str(&mut s, " info");
    }
    proof {
        let parts = pe + pw + pi;
        reveal_with_fuel(crate::text::join_spec, 4);
        assert(parts.len() <= 3);
        if pe.len() == 1 && pw.len() == 1 && pi.len() == 1 {
            assert(parts.drop_last() =~= pe + pw);
            assert((pe + pw).drop_last() =~= pe);
        } else if pe.len() == 1 && pw.len() == 1 {
            assert(parts =~= pe + pw);
            assert(parts.drop_last() =~= pe);
        } else if pe.len() == 1 && pi.len() == 1 {
            assert(parts =~= pe + pi);
            assert(parts.drop_last() =~= pe);
        } else if pw.len() == 1 && pi.len() == 1 {
            assert(parts =~= pw + pi);
            assert(parts.drop_last() =~= pw);
        }
        assert(s@ =~= head + crate::text::join_spec(parts, ", "@));
    }
    let color: Rgb = if e > 0 {
        (198, 40, 40)
    } else if w > 0 {
        (245, 124, 0)
    } else {
        (25, 118, 210)
    };
    (s, color)
}

/// The list row of a diagnostic: the toolkit's color code and an icon for
/// its level, then `Line N` (and `:C` with a column), the message and the
/// source in brackets.
pub open spec fn row_spec(d: Diagnostic) -> Seq<char> {
    let (icon, color) = match d.level {
        DiagnosticLevel::Error => ("\u{2718}"@, "@C88"@),
        DiagnosticLevel::Warning => ("\u{26A0}"@, "@C94"@),
        DiagnosticLevel::Info => ("\u{2139}"@, "@C12"@),
        DiagnosticLevel::Hint => ("\u{2022}"@, "@C8"@),
    };
    let col = match d.column {
        Some(c) => seq![':'] + decimal(c as nat),
        None => Seq::empty(),
    };
    color + seq![' '] + icon + " Line "@ + decimal(d.line as nat) + col + ": "@ + d.message@ + " ["@ + d.source@
        + "]"@
}

/// The list row of a diagnostic (see `row_spec`).
pub fn row_text(d: &Diagnostic) -> (r: String)
    ensures
        r@ == row_spec(*d),
{
    let mut s = String::new();
    match d.level {
        DiagnosticLevel::Error => {
            append_str(&mut s, "@C88");
            push_char(&mut s, ' ');
            append_str(&mut s, "\u{2718}");
        },
        DiagnosticLevel::Warning => {
            append_str(&mut s, "@C94");
            push_char(&mut s, ' ');
            append_str(&mut s, "\u{26A0}");
        },
        DiagnosticLevel::Info => {
            append_str(&mut s, "@C12");
            push_char(&mut s, ' ');
            append_str(&mut s, "\u{2139}");
        },
        DiagnosticLevel::Hint => {
            append_str(&mut s, "@C8");
            push_char(&mut s, ' ');
            append_str(&mut s, "\u{2022}");
        },
    }
    append_str(&mut s, " Line ");
    push_decimal(&mut s, d.line as usize);
    if let Some(c) = d.column {
        push_char(&mut s, ':');
        push_decimal(&mut s, c as usize);
    }
    append_str(&mut s, ": ");
    append_str(&mut s, d.message.as_str());
    append_str(&mut s, " [");
    append_str(&mut s, d.source.as_str());
    append_str(&mut s, "]");
    proof {
        assert(s@ =~= row_spec(*d));
    }
    s
}

/// The tooltip of a diagnostic: `Line N: message`, its source, then its
/// fix and its documentation address when it has them.
pub open spec fn tooltip_spec(d: Diagnostic) -> Seq<char> {
    "Line "@ + decimal(d.line as nat) + ": "@ + d.message@ + "\nSource: "@ + d.source@ + (match d.fix_message {
        Some(f) => "\n\nFix: "@ + f@,
        None => Seq::empty(),
    }) + (match d.url {
        Some(u) => "\nDocs: "@ + u@ + "  (double-click to open)"@,
        None => Seq::empty(),
    })
}

/// The tooltip of a diagnostic (see `tooltip_spec`).
pub fn tooltip_text(d: &Diagnostic) -> (r: String)
    ensures
        r@ == tooltip_spec(*d),
{
    let mut s = String::new();
    append_str(&mut s, "Line ");
    push_decimal(&mut s, d.line as usize);
    append_str(&mut s, ": ");
    append_str(&mut s, d.message.as_str());
    append_str(&mut s, "\nSource: ");
    append_str(&mut s, d.source.as_str());
    let ghost mid = s@;
    if let Some(f) = &d.fix_message {
        append_str(&mut s, "\n\nFix: ");
        append_str(&mut s, f.as_str());
    }
    let ghost mid2 = s@;
    if let Some(u) = &d.url {
        append_str(&mut s, "\nDocs: ");
        append_str(&mut s, u.as_str());
        append_str(&mut s, "  (double-click to open)");
    }
    proof {
        assert(s@ =~= tooltip_spec(*d));
    }
    s
}

/// Where a level sorts in the list: errors first, then warnings, then
/// infos and hints.
pub open spec fn severity_rank(l: DiagnosticLevel) -> nat {
    match l {
        DiagnosticLevel::Error => 0,
        DiagnosticLevel::Warning => 1,
        DiagnosticLevel::Info => 2,
        DiagnosticLevel::Hint => 2,
    }
}

/// The positions, among the first `n` diagnostics, of those of rank `r`,
/// in order.
pub open spec fn indices_of_rank(d: Seq<Diagnostic>, r: nat, n: nat) -> Seq<usize>
    decreases n,
{
    if n == 0 {
        Seq::empty()
    } else {
        indices_of_rank(d, r, (n - 1) as nat) + if severity_rank(d[n - 1].level) == r {
            seq![(n - 1) as usize]
        } else {
            Seq::empty()
        }
    }
}

/// The order in which the list shows the diagnostics, as their positions:
/// sorted by severity (errors, then warnings, then infos and hints), those
/// of one severity in the order they came.
pub open spec fn display_order_spec(d: Seq<Diagnostic>) -> Seq<usize> {
    indices_of_rank(d, 0, d.len()) + indices_of_rank(d, 1, d.len()) + indices_of_rank(d, 2, d.len())
}

/// What `indices_of_rank` holds: positions below `n`, increasing, each of
/// a diagnostic of rank `r`.
proof fn lemma_indices_of_rank(d: Seq<Diagnostic>, r: nat, n: nat)
    requires
        n <= d.len(),
        d.len() <= usize::MAX,
    ensures
        forall|i: int|
            0 <= i < indices_of_rank(d, r, n).len() ==> (#[trigger] indices_of_rank(d, r, n)[i]) < n
                && severity_rank(d[indices_of_rank(d, r, n)[i] as int].level) == r,
        forall|i: int, j: int|
            0 <= i < j < indices_of_rank(d, r, n).len() ==> (#[trigger] indices_of_rank(d, r, n)[i])
                < #[trigger] indices_of_rank(d, r, n)[j],
    decreases n,
{
    if n > 0 {
        let m = (n - 1) as nat;
        lemma_indices_of_rank(d, r, m);
        let prev = indices_of_rank(d, r, m);
        let cur = indices_of_rank(d, r, n);
        assert forall|i: int| 0 <= i < prev.len() implies cur[i] == prev[i] by {}
        if severity_rank(d[n - 1].level) == r {
            assert(cur.len() == prev.len() + 1);
            assert(cur[prev.len() as int] == (n - 1) as usize);
        } else {
            assert(cur =~= prev);
        }
    }
}

/// The list is sorted by severity, and diagnostics of one severity keep
/// the order they came in; every position shown is a diagnostic's.
pub proof fn lemma_display_order_sorted(d: Seq<Diagnostic>)
    requires
        d.len() <= usize::MAX,
    ensures
        forall|i: int|
            0 <= i < display_order_spec(d).len() ==> (#[trigger] display_order_spec(d)[i]) < d.len(),
        forall|i: int, j: int|
            #![trigger display_order_spec(d)[i], display_order_spec(d)[j]]
            0 <= i < j < display_order_spec(d).len() ==> {
                let a = display_order_spec(d)[i] as int;
                let b = display_order_spec(d)[j] as int;
                severity_rank(d[a].level) < severity_rank(d[b].level) || (severity_rank(d[a].level)
                    == severity_rank(d[b].level) && a < b)
            },
{
    let n = d.len();
    lemma_indices_of_rank(d, 0, n);
    lemma_indices_of_rank(d, 1, n);
    lemma_indices_of_rank(d, 2, n);
    let s0 = indices_of_rank(d, 0, n);
    let s1 = indices_of_rank(d, 1, n);
    let s2 = indices_of_rank(d, 2, n);
    let o = display_order_spec(d);
    assert(o == s0 + s1 + s2);
    assert forall|i: int| 0 <= i < o.len() implies (#[trigger] o[i]) < d.len() by {
        if i < s0.len() {
            assert(o[i] == s0[i]);
        } else if i < s0.len() + s1.len() {
            assert(o[i] == s1[i - s0.len()]);
        } else {
            assert(o[i] == s2[i - s0.len() - s1.len()]);
        }
    }
    assert forall|i: int, j: int| #![trigger o[i], o[j]] 0 <= i < j < o.len() implies {
        let a = o[i] as int;
        let b = o[j] as int;
        severity_rank(d[a].level) < severity_rank(d[b].level) || (severity_rank(d[a].level)
            == severity_rank(d[b].level) && a < b)
    } by {
        let k0 = s0.len() as int;
        let k1 = k0 + s1.len();
        if i < k0 {
            assert(o[i] == s0[i]);
        } else if i < k1 {
            assert(o[i] == s1[i - k0]);
        } else {
            assert(o[i] == s2[i - k1]);
        }
        if j < k0 {
            assert(o[j] == s0[j]);
        } else if j < k1 {
            assert(o[j] == s1[j - k0]);
        } else {
            assert(o[j] == s2[j - k1]);
        }
    }
}

fn rank_of(l: DiagnosticLevel) -> (r: u8)
    ensures
        r == severity_rank(l),
{
    match l {
        DiagnosticLevel::Error => 0,
        DiagnosticLevel::Warning => 1,
        DiagnosticLevel::Info => 2,
        DiagnosticLevel::Hint => 2,
    }
}

fn push_rank(out: &mut Vec<usize>, d: &[Diagnostic], r: u8)
    ensures
        final(out)@ == old(out)@ + indices_of_rank(d@, r as nat, d@.len()),
{
    let ghost start = out@;
    let mut k: usize = 0;
    while k < d.len()
        invariant
            k <= d@.len(),
            out@ == start + indices_of_rank(d@, r as nat, k as nat),
        decreases d@.len() - k,
    {
        if rank_of(d[k].level) == r {
            out.push(k);
        }
        assert(out@ =~= start + indices_of_rank(d@, r as nat, (k + 1) as nat));
        k += 1;
    }
}

/// The order in which the list shows the diagnostics (see
/// `display_order_spec`): the positions of the diagnostics, row by row.
pub fn display_order(d: &[Diagnostic]) -> (r: Vec<usize>)
    ensures
        r@ == display_order_spec(d@),
{
    let mut out: Vec<usize> = Vec::new();
    push_rank(&mut out, d, 0);
    push_rank(&mut out, d, 1);
    push_rank(&mut out, d, 2);
    assert(out@ =~= display_order_spec(d@));
    out
}

/// The diagnostic (its position in `d`) that list row `row` (counted from
/// 1, 0 for no row) shows, the list being in `display_order`.
pub fn diagnostic_at_row(d: &[Diagnostic], row: i32) -> (r: Option<usize>)
    ensures
        (0 < row <= display_order_spec(d@).len()) ==> r == Some(display_order_spec(d@)[row - 1]),
        !(0 < row <= display_order_spec(d@).len()) ==> r is None,
{
    let order = display_order(d);
    if row > 0 && (row as usize) <= order.len() {
        Some(order[(row - 1) as usize])
    } else {
        None
    }
}

/// The diagnostic that list row `row` (counted from 1, 0 for no row) stands
/// for, if there is one.
pub fn row_diagnostic(row: i32, count: usize) -> (r: Option<usize>)
    ensures
        (row > 0 && row <= count) ==> r == Some((row - 1) as usize),
        !(row > 0 && row <= count) ==> r is None,
{
    if row > 0 && (row as usize) <= count {
        Some((row - 1) as usize)
    } else {
        None
    }
}

/// The list item (counted from 0) under a pointer at height `y`, the list
/// starting at `top`, scrolled `scroll` pixels, rows `item_height` high;
/// `None` above the list.
pub fn hovered_item(y: i32, top: i32, scroll: i32, item_height: i32) -> (r: Option<i64>)
    requires
        item_height > 0,
    ensures
        y < top ==> r is None,
        y >= top ==> r == Some(crate::ui::tab_bar::div_toward_zero(y - top + scroll, item_height as int) as i64),
{
    if y < top {
        return None;
    }
    let rel: i64 = y as i64 - top as i64 + scroll as i64;
    let h: i64 = item_height as i64;
    let q: i64 = if rel >= 0 {
        ((rel as u64) / (h as u64)) as i64
    } else {
        let n: u64 = (-rel) as u64;
        let d: u64 = n / (h as u64);
        assert(d <= n) by (nonlinear_arith)
            requires
                d == n / (h as u64),
                h > 0,
        ;
        -(d as i64)
    };
    Some(q)
}


/// Height of the panel's header row.
pub const HEADER_HEIGHT: i32 = 24;

/// The panel's height in the layout: nothing when hidden, the full panel
/// when expanded with diagnostics to list, else the header alone.
pub fn panel_height(visible: bool, expanded: bool, diagnostic_count: usize) -> (r: i32)
    ensures
        r == (if !visible {
            0
        } else if expanded && diagnostic_count > 0 {
            DIAGNOSTIC_PANEL_HEIGHT
        } else {
            HEADER_HEIGHT
        }),
{
    if !visible {
        0
    } else if expanded && diagnostic_count > 0 {
        DIAGNOSTIC_PANEL_HEIGHT
    } else {
        HEADER_HEIGHT
    }
}

} // verus!
