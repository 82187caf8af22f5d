//! The split panel's highlighting logic: which diff background applies to
//! each byte of a pane, and the style table that combines syntax
//! foreground colors with diff backgrounds.

use vstd::prelude::*;
use vstd::string::StringSliceAdditionalSpecFns;

use crate::text::push_char;

use std::collections::HashMap;

verus! {

/// The largest number of styles in the split view's style table: one per
/// character from `A` on.
pub const MAX_STYLE_ENTRIES: usize = 62;

/// The diff background of a byte.
#[derive(Debug, Clone, Copy, PartialEq, Eq, Structural)]
pub enum DiffBg {
    Normal,
    Added,
    Removed,
    Modified,
    AddedEmphasis,
    RemovedEmphasis,
}

/// The index of the base style of a diff background.
pub open spec fn base_index_spec(d: DiffBg) -> nat {
    match d {
        DiffBg::Normal => 0,
        DiffBg::Added => 1,
        DiffBg::Removed => 2,
        DiffBg::Modified => 3,
        DiffBg::AddedEmphasis => 4,
        DiffBg::RemovedEmphasis => 5,
    }
}

impl DiffBg {
    /// The index (0 to 5) of the style that shows this background alone.
    pub fn base_index(self) -> (r: usize)
        ensures
            r == base_index_spec(self),
    {
        match self {
            DiffBg::Normal => 0,
            DiffBg::Added => 1,
            DiffBg::Removed => 2,
            DiffBg::Modified => 3,
            DiffBg::AddedEmphasis => 4,
            DiffBg::RemovedEmphasis => 5,
        }
    }
}

/// The color a plugin gives a highlighted line.
#[derive(Debug, Clone, Copy, PartialEq, Eq, Structural)]
pub enum HighlightColor {
    Added,
    Removed,
    Modified,
    Rgb(u8, u8, u8),
}

/// A span of bytes within a line, from `start` to `end` (exclusive).
#[derive(Debug, Clone, Copy, PartialEq, Eq, Structural)]
pub struct HighlightSpan {
    pub start: u32,
    pub end: u32,
}

/// A highlighted line (1-based), with spans to emphasize.
pub struct LineHighlight {
    pub line: u32,
    pub color: HighlightColor,
    pub spans: Vec<HighlightSpan>,
}

/// The background of a highlighted line.
pub open spec fn line_bg(c: HighlightColor) -> DiffBg {
    match c {
        HighlightColor::Added => DiffBg::Added,
        HighlightColor::Removed => DiffBg::Removed,
        HighlightColor::Modified => DiffBg::Modified,
        HighlightColor::Rgb(..) => DiffBg::Added,
    }
}

/// The background of an emphasized span.
pub open spec fn span_bg(c: HighlightColor) -> DiffBg {
    match c {
        HighlightColor::Added => DiffBg::AddedEmphasis,
        HighlightColor::Removed => DiffBg::RemovedEmphasis,
        _ => line_bg(c),
    }
}

/// The line starts of `text` found among its first `n` bytes: 0, then the
/// byte after each newline that is not the last byte.
pub open spec fn line_starts_upto(text: Seq<u8>, n: nat) -> Seq<int>
    decreases n,
{
    if n == 0 {
        seq![0int]
    } else {
        line_starts_upto(text, (n - 1) as nat) + if text[n - 1] == 10u8 && n < text.len() {
            seq![n as int]
        } else {
            Seq::<int>::empty()
        }
    }
}

/// The start of each line of `text`.
pub open spec fn line_starts(text: Seq<u8>) -> Seq<int> {
    line_starts_upto(text, text.len())
}

/// Where the line starting at `start` ends: at its newline, or at the end.
pub open spec fn line_end_from(text: Seq<u8>, start: int) -> int
    decreases text.len() - start,
{
    if start >= text.len() {
        text.len() as int
    } else if text[start] == 10u8 {
        start
    } else {
        line_end_from(text, start + 1)
    }
}

/// `m` with the positions from `a` to `b` (exclusive) set to `v`.
pub open spec fn fill(m: Seq<DiffBg>, a: int, b: int, v: DiffBg) -> Seq<DiffBg> {
    Seq::new(m.len(), |i: int| if a <= i < b { v } else { m[i] })
}

/// `m` after emphasizing the spans of a line from `ls` to `le`.
pub open spec fn apply_spans(m: Seq<DiffBg>, spans: Seq<HighlightSpan>, ls: int, le: int, v: DiffBg) -> Seq<DiffBg>
    decreases spans.len(),
{
    if spans.len() == 0 {
        m
    } else {
        let before = apply_spans(m, spans.drop_last(), ls, le, v);
        let sp = spans.last();
        let s = ls + sp.start;
        let e = if ls + sp.end < le {
            ls + sp.end
        } else {
            le
        };
        if s < e && s < m.len() {
            fill(before, s, e, v)
        } else {
            before
        }
    }
}

/// `m` after one highlight: a line that exists gets the line background,
/// then its spans the emphasis background; other highlights change nothing.
pub open spec fn apply_highlight(text: Seq<u8>, m: Seq<DiffBg>, line: nat, color: HighlightColor, spans: Seq<
    HighlightSpan,
>) -> Seq<DiffBg> {
    let starts = line_starts(text);
    if line == 0 || line > starts.len() {
        m
    } else {
        let ls = starts[line - 1];
        let le = line_end_from(text, ls);
        apply_spans(fill(m, ls, le, line_bg(color)), spans, ls, le, span_bg(color))
    }
}

/// The diff background of each byte of `text` after the highlights, in
/// order (a later highlight overrides an earlier one).
pub open spec fn diff_map_spec(text: Seq<u8>, hls: Seq<(nat, HighlightColor, Seq<HighlightSpan>)>) -> Seq<DiffBg>
    decreases hls.len(),
{
    if hls.len() == 0 {
        Seq::new(text.len(), |i: int| DiffBg::Normal)
    } else {
        let h = hls.last();
        apply_highlight(text, diff_map_spec(text, hls.drop_last()), h.0, h.1, h.2)
    }
}

proof fn lemma_apply_spans_len(m: Seq<DiffBg>, spans: Seq<HighlightSpan>, ls: int, le: int, v: DiffBg)
    ensures
        apply_spans(m, spans, ls, le, v).len() == m.len(),
    decreases spans.len(),
{
    if spans.len() > 0 {
        lemma_apply_spans_len(m, spans.drop_last(), ls, le, v);
    }
}

/// One background per byte: the diff map is exactly as long as the text,
/// whatever the highlights.
pub proof fn lemma_diff_map_len(text: Seq<u8>, hls: Seq<(nat, HighlightColor, Seq<HighlightSpan>)>)
    ensures
        diff_map_spec(text, hls).len() == text.len(),
    decreases hls.len(),
{
    if hls.len() > 0 {
        lemma_diff_map_len(text, hls.drop_last());
        let h = hls.last();
        let m = diff_map_spec(text, hls.drop_last());
        let starts = line_starts(text);
        if !(h.0 == 0 || h.0 > starts.len()) {
            let ls = starts[h.0 - 1];
            let le = line_end_from(text, ls);
            lemma_apply_spans_len(fill(m, ls, le, line_bg(h.1)), h.2, ls, le, span_bg(h.1));
        }
    }
}

/// Whether byte `i` lies in one of the spans of the line starting at `ls`.
pub open spec fn in_some_span(spans: Seq<HighlightSpan>, ls: int, i: int) -> bool {
    exists|k: int| 0 <= k < spans.len() && ls + (#[trigger] spans[k]).start <= i < ls + spans[k].end
}

/// Emphasizing spans leaves the bytes outside them as they were, and gives
/// the bytes inside them (within the line) the emphasis.
proof fn lemma_apply_spans_at(m: Seq<DiffBg>, spans: Seq<HighlightSpan>, ls: int, le: int, v: DiffBg, i: int)
    requires
        0 <= i < m.len(),
    ensures
        !in_some_span(spans, ls, i) ==> apply_spans(m, spans, ls, le, v)[i] == m[i],
        in_some_span(spans, ls, i) && i < le ==> apply_spans(m, spans, ls, le, v)[i] == v,
    decreases spans.len(),
{
    if spans.len() > 0 {
        let init = spans.drop_last();
        lemma_apply_spans_at(m, init, ls, le, v, i);
        lemma_apply_spans_len(m, init, ls, le, v);
        let sp = spans.last();
        if !in_some_span(spans, ls, i) {
            assert(!in_some_span(init, ls, i)) by {
                if in_some_span(init, ls, i) {
                    let k = choose|k: int| 0 <= k < init.len() && ls + (#[trigger] init[k]).start <= i < ls + init[k].end;
                    assert(spans[k] == init[k]);
                }
            }
        }
        if in_some_span(spans, ls, i) && i < le {
            let k = choose|k: int| 0 <= k < spans.len() && ls + (#[trigger] spans[k]).start <= i < ls + spans[k].end;
            if k < init.len() {
                assert(init[k] == spans[k]);
                assert(in_some_span(init, ls, i));
            }
        }
    }
}

/// The byte background a highlight color gives its line.
pub open spec fn color_background(c: HighlightColor) -> DiffBg {
    if c is Removed {
        DiffBg::Removed
    } else if c is Modified {
        DiffBg::Modified
    } else {
        DiffBg::Added
    }
}

/// The byte background a highlight color gives the spans of its line.
pub open spec fn color_emphasis(c: HighlightColor) -> DiffBg {
    if c is Added {
        DiffBg::AddedEmphasis
    } else if c is Removed {
        DiffBg::RemovedEmphasis
    } else {
        color_background(c)
    }
}

/// A highlighted line shows its color: after the highlights, every byte
/// of the line that the last highlight names (when that line exists) has
/// the background of that highlight's color (added, removed or modified;
/// a custom color counts as added), outside its spans, and the emphasis
/// of that color inside them (added or removed emphasis; a modified or
/// custom line's spans keep the line's background).
pub proof fn lemma_highlighted_line_background(
    text: Seq<u8>,
    hls: Seq<(nat, HighlightColor, Seq<HighlightSpan>)>,
    i: int,
)
    requires
        hls.len() > 0,
        1 <= hls.last().0 <= line_starts(text).len(),
        line_starts(text)[hls.last().0 - 1] <= i < line_end_from(text, line_starts(text)[hls.last().0 - 1]),
    ensures
        !in_some_span(hls.last().2, line_starts(text)[hls.last().0 - 1], i) ==> diff_map_spec(text, hls)[i]
            == color_background(hls.last().1),
        in_some_span(hls.last().2, line_starts(text)[hls.last().0 - 1], i) ==> diff_map_spec(text, hls)[i]
            == color_emphasis(hls.last().1),
{
    let h = hls.last();
    let ls = line_starts(text)[h.0 - 1];
    let le = line_end_from(text, ls);
    lemma_line_end_bound(text, ls);
    lemma_diff_map_len(text, hls.drop_last());
    let m = diff_map_spec(text, hls.drop_last());
    let f = fill(m, ls, le, line_bg(h.1));
    lemma_line_starts_bounds(text, text.len());
    assert(f.len() == text.len());
    assert(f[i] == line_bg(h.1));
    assert(diff_map_spec(text, hls) == apply_spans(f, h.2, ls, le, span_bg(h.1)));
    lemma_apply_spans_at(f, h.2, ls, le, span_bg(h.1), i);
}

proof fn lemma_line_end_bound(text: Seq<u8>, start: int)
    ensures
        line_end_from(text, start) <= text.len(),
    decreases text.len() - start,
{
    if start < text.len() && text[start] != 10u8 {
        lemma_line_end_bound(text, start + 1);
    }
}

/// The highlights as plain values.
pub open spec fn highlight_values(hls: Seq<LineHighlight>) -> Seq<(nat, HighlightColor, Seq<HighlightSpan>)> {
    Seq::new(hls.len(), |i: int| (hls[i].line as nat, hls[i].color, hls[i].spans@))
}

proof fn lemma_line_starts_bounds(text: Seq<u8>, n: nat)
    requires
        n <= text.len(),
    ensures
        line_starts_upto(text, n).len() >= 1,
        line_starts_upto(text, n).len() <= n + 1,
        forall|k: int| 0 <= k < line_starts_upto(text, n).len() ==> 0 <= #[trigger] line_starts_upto(text, n)[k] <= n,
        forall|k: int| 0 < k < line_starts_upto(text, n).len() ==> #[trigger] line_starts_upto(text, n)[k] < text.len(),
    decreases n,
{
    if n > 0 {
        lemma_line_starts_bounds(text, (n - 1) as nat);
    }
}

/// The line starts of `text`.
fn compute_line_starts(text: &[u8]) -> (r: Vec<usize>)
    ensures
        r@.len() == line_starts(text@).len(),
        forall|k: int| 0 <= k < r@.len() ==> r@[k] == #[trigger] line_starts(text@)[k],
{
    let mut r: Vec<usize> = Vec::new();
    r.push(0);
    let mut i: usize = 0;
    while i < text.len()
        invariant
            i <= text@.len(),
            r@.len() == line_starts_upto(text@, i as nat).len(),
            forall|k: int| 0 <= k < r@.len() ==> r@[k] == #[trigger] line_starts_upto(text@, i as nat)[k],
        decreases text@.len() - i,
    {
        proof {
            lemma_line_starts_bounds(text@, i as nat);
        }
        if text[i] == 10u8 && i + 1 < text.len() {
            r.push(i + 1);
        }
        i += 1;
    }
    r
}

/// The end of the line that starts at `start`.
fn line_end(text: &[u8], start: usize) -> (r: usize)
    requires
        start <= text@.len(),
    ensures
        r == line_end_from(text@, start as int),
        start <= r <= text@.len(),
{
    let mut k = start;
    while k < text.len() && text[k] != 10u8
        invariant
            start <= k <= text@.len(),
            line_end_from(text@, start as int) == line_end_from(text@, k as int),
        decreases text@.len() - k,
    {
        k += 1;
    }
    k
}

/// Sets `m[a..b]` to `v`.
fn fill_range(m: &mut Vec<DiffBg>, a: usize, b: usize, v: DiffBg)
    requires
        a <= b <= old(m)@.len(),
    ensures
        final(m)@ == fill(old(m)@, a as int, b as int, v),
{
    let mut k = a;
    while k < b
        invariant
            a <= k <= b <= m@.len(),
            m@.len() == old(m)@.len(),
            forall|i: int| 0 <= i < m@.len() ==> #[trigger] m@[i] == if a <= i < k {
                v
            } else {
                old(m)@[i]
            },
        decreases b - k,
    {
        m.set(k, v);
        k += 1;
    }
    assert(m@ =~= fill(old(m)@, a as int, b as int, v));
}

/// Emphasizes the spans of the line from `ls` to `le`.
fn apply_spans_exec(m: &mut Vec<DiffBg>, spans: &Vec<HighlightSpan>, ls: usize, le: usize, v: DiffBg)
    requires
        ls <= le <= old(m)@.len(),
    ensures
        final(m)@ == apply_spans(old(m)@, spans@, ls as int, le as int, v),
        final(m)@.len() == old(m)@.len(),
{
    let mut j: usize = 0;
    assert(spans@.take(0) =~= Seq::<HighlightSpan>::empty());
    while j < spans.len()
        invariant
            j <= spans@.len(),
            ls <= le <= m@.len(),
            m@.len() == old(m)@.len(),
            m@ == apply_spans(old(m)@, spans@.take(j as int), ls as int, le as int, v),
        decreases spans@.len() - j,
    {
        let sp = spans[j];
        proof {
            assert(spans@.take(j + 1).drop_last() =~= spans@.take(j as int));
            assert(spans@.take(j + 1).last() == sp);
        }
        let s_off = sp.start as usize;
        let e_off = sp.end as usize;
        // The span starts at `ls + s_off` and ends at `ls + e_off`, or at the
        // line's end if that comes first.
        if s_off < le - ls {
            let s = ls + s_off;
            let e = if e_off < le - ls {
                ls + e_off
            } else {
                le
            };
            if s < e {
                fill_range(m, s, e, v);
            }
        }
        j += 1;
    }
    assert(spans@.take(j as int) =~= spans@);
}

/// The diff background of each byte of `text` (see `diff_map_spec`).
pub fn build_diff_map(text: &str, highlights: &[LineHighlight]) -> (r: Vec<DiffBg>)
    ensures
        r@ == diff_map_spec(text.spec_bytes(), highlight_values(highlights@)),
{
    let bytes = text.as_bytes();
    let mut m: Vec<DiffBg> = Vec::new();
    let mut k: usize = 0;
    while k < bytes.len()
        invariant
            k <= bytes@.len(),
            m@ == Seq::new(k as nat, |i: int| DiffBg::Normal),
        decreases bytes@.len() - k,
    {
        m.push(DiffBg::Normal);
        assert(m@ =~= Seq::new((k + 1) as nat, |i: int| DiffBg::Normal));
        k += 1;
    }
    let starts = compute_line_starts(bytes);
    proof {
        lemma_line_starts_bounds(bytes@, bytes@.len());
    }
    let ghost hv = highlight_values(highlights@);
    assert(hv.take(0) =~= Seq::<(nat, HighlightColor, Seq<HighlightSpan>)>::empty());
    let mut h: usize = 0;
    while h < highlights.len()
        invariant
            h <= highlights@.len(),
            hv == highlight_values(highlights@),
            m@.len() == bytes@.len(),
            starts@.len() == line_starts(bytes@).len(),
            forall|k: int| 0 <= k < starts@.len() ==> starts@[k] == #[trigger] line_starts(bytes@)[k],
            forall|k: int| 0 <= k < line_starts(bytes@).len() ==> 0 <= #[trigger] line_starts(bytes@)[k] <= bytes@.len(),
            m@ == diff_map_spec(bytes@, hv.take(h as int)),
        decreases highlights@.len() - h,
    {
        let hl = &highlights[h];
        proof {
            assert(hv.take(h + 1).drop_last() =~= hv.take(h as int));
            assert(hv.take(h + 1).last() == hv[h as int]);
        }
        let line = hl.line as usize;
        if line != 0 && line <= starts.len() {
            let ls = starts[line - 1];
            assert(ls == line_starts(bytes@)[line - 1]);
            let le = line_end(bytes, ls);
            let base = match hl.color {
                HighlightColor::Added => DiffBg::Added,
                HighlightColor::Removed => DiffBg::Removed,
                HighlightColor::Modified => DiffBg::Modified,
                HighlightColor::Rgb(..) => DiffBg::Added,
            };
            let emphasis = match hl.color {
                HighlightColor::Added => DiffBg::AddedEmphasis,
                HighlightColor::Removed => DiffBg::RemovedEmphasis,
                _ => base,
            };
            fill_range(&mut m, ls, le, base);
            apply_spans_exec(&mut m, &hl.spans, ls, le, emphasis);
        }
        h += 1;
    }
    assert(hv.take(h as int) =~= hv);
    m
}


// ---------------------------------------------------------------------------
// The combined style table
// ---------------------------------------------------------------------------

/// An RGB color.
pub type Rgb = (u8, u8, u8);

/// The style character of entry `i` of the table (`A` is entry 0).
pub open spec fn style_char(i: nat) -> char {
    (65 + i) as char
}

fn style_char_exec(i: usize) -> (c: char)
    requires
        i < MAX_STYLE_ENTRIES,
    ensures
        c == style_char(i as nat),
{
    let b: u8 = 65u8 + i as u8;
    b as char
}

/// Styles that combine a syntax foreground color with a diff background.
/// The table's first six entries are the diff backgrounds alone (in the
/// order of `DiffBg::base_index`); entry `6 + k` is combination `k`. The
/// index finds a combination's style character by its key.
pub struct SyntaxDiffMap {
    combos: Vec<(Rgb, DiffBg)>,
    index: HashMap<u32, char>,
}

/// No combination occurs twice, and the table has room for them all.
pub open spec fn combos_wf(c: Seq<(Rgb, DiffBg)>) -> bool {
    &&& 6 + c.len() <= MAX_STYLE_ENTRIES
    &&& forall|i: int, j: int| 0 <= i < j < c.len() ==> c[i] != c[j]
}

/// The key of a combination in the index: the color's three bytes and the
/// background's base index, one byte each.
pub open spec fn combo_key(fg: Rgb, diff: DiffBg) -> u32 {
    ((fg.0 as u32) << 24u32) | ((fg.1 as u32) << 16u32) | ((fg.2 as u32) << 8u32) | (base_index_spec(
        diff,
    ) as u32)
}

proof fn lemma_pack_bytes_injective(r1: u8, g1: u8, b1: u8, d1: u8, r2: u8, g2: u8, b2: u8, d2: u8)
    by (bit_vector)
    requires
        ((r1 as u32) << 24u32) | ((g1 as u32) << 16u32) | ((b1 as u32) << 8u32) | (d1 as u32) == ((r2 as u32)
            << 24u32) | ((g2 as u32) << 16u32) | ((b2 as u32) << 8u32) | (d2 as u32),
    ensures
        r1 == r2 && g1 == g2 && b1 == b2 && d1 == d2,
{
}

/// Different combinations have different keys.
proof fn lemma_combo_key_injective(a: (Rgb, DiffBg), b: (Rgb, DiffBg))
    requires
        combo_key(a.0, a.1) == combo_key(b.0, b.1),
    ensures
        a == b,
{
    let da = base_index_spec(a.1) as u8;
    let db = base_index_spec(b.1) as u8;
    assert(base_index_spec(a.1) as u32 == da as u32);
    assert(base_index_spec(b.1) as u32 == db as u32);
    lemma_pack_bytes_injective(a.0.0, a.0.1, a.0.2, da, b.0.0, b.0.1, b.0.2, db);
}

/// The index holds exactly the keys of the combinations, each mapped to
/// its style character.
pub open spec fn index_matches(c: Seq<(Rgb, DiffBg)>, index: Map<u32, char>) -> bool {
    &&& forall|k: int|
        0 <= k < c.len() ==> #[trigger] index.contains_key(combo_key(c[k].0, c[k].1)) && index[combo_key(
            c[k].0,
            c[k].1,
        )] == style_char((6 + k) as nat)
    &&& forall|key: u32|
        #[trigger] index.contains_key(key) ==> exists|k: int|
            0 <= k < c.len() && combo_key(c[k].0, c[k].1) == key
}

/// Looking up (or adding) a combination in `c`: the style character and
/// the combinations after. A known combination keeps its character; a new
/// one gets the next entry, or, when the table is full, the character of
/// its diff background alone.
pub open spec fn lookup_combo(c: Seq<(Rgb, DiffBg)>, fg: Rgb, diff: DiffBg) -> (char, Seq<(Rgb, DiffBg)>) {
    if exists|k: int| 0 <= k < c.len() && c[k] == (fg, diff) {
        let k = choose|k: int| 0 <= k < c.len() && c[k] == (fg, diff);
        (style_char((6 + k) as nat), c)
    } else if 6 + c.len() >= MAX_STYLE_ENTRIES {
        (style_char(base_index_spec(diff)), c)
    } else {
        (style_char(6 + c.len()), c.push((fg, diff)))
    }
}

impl View for SyntaxDiffMap {
    type V = Seq<(Rgb, DiffBg)>;

    closed spec fn view(&self) -> Seq<(Rgb, DiffBg)> {
        self.combos@
    }
}

fn combo_key_exec(fg: Rgb, diff: DiffBg) -> (r: u32)
    ensures
        r == combo_key(fg, diff),
{
    let d: u32 = diff.base_index() as u32;
    ((fg.0 as u32) << 24u32) | ((fg.1 as u32) << 16u32) | ((fg.2 as u32) << 8u32) | d
}

impl SyntaxDiffMap {
    #[verifier::type_invariant]
    spec fn inv(&self) -> bool {
        &&& combos_wf(self.combos@)
        &&& index_matches(self.combos@, self.index@)
    }

    /// A table with the six diff backgrounds alone.
    pub fn new() -> (m: Self)
        ensures
            m@ == Seq::<(Rgb, DiffBg)>::empty(),
    {
        SyntaxDiffMap { combos: Vec::new(), index: HashMap::new() }
    }

    /// The combinations, in table order after the six base entries.
    pub fn combos(&self) -> (r: Vec<(Rgb, DiffBg)>)
        ensures
            r@ == self@,
            combos_wf(r@),
    {
        proof {
            use_type_invariant(self);
        }
        let mut r: Vec<(Rgb, DiffBg)> = Vec::new();
        let mut k: usize = 0;
        while k < self.combos.len()
            invariant
                k <= self.combos@.len(),
                r@ == self.combos@.take(k as int),
            decreases self.combos@.len() - k,
        {
            r.push(self.combos[k]);
            assert(r@ =~= self.combos@.take(k + 1));
            k += 1;
        }
        assert(r@ =~= self.combos@);
        r
    }

    /// The style character that combines `fg` with `diff` (see
    /// `lookup_combo`).
    pub fn get_or_insert(&mut self, fg: Rgb, diff: DiffBg) -> (c: char)
        ensures
            (c, final(self)@) == lookup_combo(old(self)@, fg, diff),
            combos_wf(final(self)@),
    {
        broadcast use vstd::std_specs::hash::group_hash_axioms;

        proof {
            use_type_invariant(&*self);
        }
        let key = combo_key_exec(fg, diff);
        let ghost c0 = self.combos@;
        let ghost idx0 = self.index@;
        match self.index.get(&key) {
            Some(ch) => {
                let ch = *ch;
                proof {
                    let k = choose|k: int| 0 <= k < c0.len() && combo_key(c0[k].0, c0[k].1) == key;
                    lemma_combo_key_injective(c0[k], (fg, diff));
                    let w = choose|w: int| 0 <= w < c0.len() && c0[w] == (fg, diff);
                    if w != k {
                        assert(c0[w] == c0[k]);
                    }
                }
                return ch;
            },
            None => {
                assert forall|k: int| 0 <= k < c0.len() implies c0[k] != (fg, diff) by {
                    assert(self.index@.contains_key(combo_key(c0[k].0, c0[k].1)));
                }
            },
        }
        if 6 + self.combos.len() >= MAX_STYLE_ENTRIES {
            return style_char_exec(diff.base_index());
        }
        let n = self.combos.len();
        let ch = style_char_exec(6 + n);
        let mut taken = SyntaxDiffMap::new();
        std::mem::swap(self, &mut taken);
        let SyntaxDiffMap { combos: mut v, index: mut m } = taken;
        assert(v@ == c0 && m@ == idx0);
        v.push((fg, diff));
        m.insert(key, ch);
        proof {
            let c1 = v@;
            assert(c1 == c0.push((fg, diff)));
            assert forall|k: int|
                0 <= k < c1.len() implies #[trigger] m@.contains_key(combo_key(c1[k].0, c1[k].1)) && m@[combo_key(
                c1[k].0,
                c1[k].1,
            )] == style_char((6 + k) as nat) by {
                if k < c0.len() {
                    assert(c1[k] == c0[k]);
                    if combo_key(c0[k].0, c0[k].1) == key {
                        lemma_combo_key_injective(c0[k], (fg, diff));
                    }
                }
            }
            assert forall|kk: u32| #[trigger] m@.contains_key(kk) implies exists|k: int|
                0 <= k < c1.len() && combo_key(c1[k].0, c1[k].1) == kk by {
                if kk == key {
                    assert(combo_key(c1[n as int].0, c1[n as int].1) == kk);
                } else {
                    let k = choose|k: int| 0 <= k < c0.len() && combo_key(c0[k].0, c0[k].1) == kk;
                    assert(c1[k] == c0[k]);
                }
            }
        }
        *self = SyntaxDiffMap { combos: v, index: m };
        ch
    }

    /// The diff background (as its base index) of every entry of the
    /// table: 0 to 5 for the base entries, then that of each combination.
    pub fn diff_bg_indices(&self) -> (r: Vec<u8>)
        ensures
            r@.len() == 6 + self@.len(),
            forall|i: int| 0 <= i < 6 ==> r@[i] == i,
            forall|k: int| 0 <= k < self@.len() ==> r@[6 + k] == base_index_spec(#[trigger] self@[k].1),
    {
        proof {
            use_type_invariant(self);
        }
        let mut r: Vec<u8> = Vec::new();
        let mut i: u8 = 0;
        while i < 6
            invariant
                i <= 6,
                r@.len() == i,
                forall|j: int| 0 <= j < i ==> r@[j] == j,
            decreases 6 - i,
        {
            r.push(i);
            i += 1;
        }
        let mut k: usize = 0;
        while k < self.combos.len()
            invariant
                k <= self.combos@.len(),
                combos_wf(self.combos@),
                r@.len() == 6 + k,
                forall|i: int| 0 <= i < 6 ==> r@[i] == i,
                forall|j: int| 0 <= j < k ==> r@[6 + j] == base_index_spec(#[trigger] self.combos@[j].1),
            decreases self.combos@.len() - k,
        {
            let d = self.combos[k].1.base_index();
            r.push(d as u8);
            k += 1;
        }
        r
    }
}

/// Asking twice for the same combination gives the same character and
/// adds nothing the second time.
pub proof fn lemma_lookup_idempotent(c: Seq<(Rgb, DiffBg)>, fg: Rgb, diff: DiffBg)
    requires
        combos_wf(c),
    ensures
        lookup_combo(lookup_combo(c, fg, diff).1, fg, diff) == (lookup_combo(c, fg, diff).0, lookup_combo(
            c,
            fg,
            diff,
        ).1),
{
    let c2 = lookup_combo(c, fg, diff).1;
    if exists|k: int| 0 <= k < c.len() && c[k] == (fg, diff) {
        let k = choose|k: int| 0 <= k < c.len() && c[k] == (fg, diff);
        let k2 = choose|k: int| 0 <= k < c2.len() && c2[k] == (fg, diff);
        assert(c2 == c);
        assert(k == k2) by {
            if k != k2 {
                if k < k2 {
                    assert(c[k] != c[k2]);
                } else {
                    assert(c[k2] != c[k]);
                }
            }
        }
    } else if 6 + c.len() < MAX_STYLE_ENTRIES {
        assert(c2[c.len() as int] == (fg, diff));
        let k2 = choose|k: int| 0 <= k < c2.len() && c2[k] == (fg, diff);
        assert(k2 == c.len()) by {
            if k2 < c.len() {
                assert(c[k2] == c2[k2]);
            }
        }
    }
}

/// The diff background (as its base index) that entry `e` of the table
/// shows, the table's combinations being `c`.
pub open spec fn entry_bg_index(c: Seq<(Rgb, DiffBg)>, e: int) -> nat {
    if e < 6 {
        e as nat
    } else {
        base_index_spec(c[e - 6].1)
    }
}

/// Every style character handed out names an entry of the table that
/// shows the background asked for; one past the six base entries also
/// holds the color asked for, and a base entry is handed out only when
/// the table is full.
pub proof fn lemma_lookup_shows_background(c: Seq<(Rgb, DiffBg)>, fg: Rgb, diff: DiffBg)
    requires
        combos_wf(c),
    ensures
        ({
            let (ch, after) = lookup_combo(c, fg, diff);
            let e = ch as int - 65;
            &&& 0 <= e < 6 + after.len()
            &&& entry_bg_index(after, e) == base_index_spec(diff)
            &&& e >= 6 ==> after[e - 6] == (fg, diff)
            &&& e < 6 ==> 6 + c.len() >= MAX_STYLE_ENTRIES
        }),
{
    if exists|k: int| 0 <= k < c.len() && c[k] == (fg, diff) {
        let k = choose|k: int| 0 <= k < c.len() && c[k] == (fg, diff);
        assert(style_char((6 + k) as nat) as int == 65 + 6 + k);
    } else if 6 + c.len() >= MAX_STYLE_ENTRIES {
        assert(style_char(base_index_spec(diff)) as int == 65 + base_index_spec(diff));
    } else {
        assert(style_char((6 + c.len()) as nat) as int == 65 + 6 + c.len());
    }
}

/// The style character of each byte, the syntax color (if any) of the
/// byte combined with its diff background, and the combinations after.
pub open spec fn styles_upto(
    dm: Seq<DiffBg>,
    fgs: Seq<Option<Rgb>>,
    c: Seq<(Rgb, DiffBg)>,
    n: nat,
) -> (Seq<char>, Seq<(Rgb, DiffBg)>)
    decreases n,
{
    if n == 0 {
        (Seq::empty(), c)
    } else {
        let (s, c1) = styles_upto(dm, fgs, c, (n - 1) as nat);
        match fgs[n - 1] {
            Some(fg) => {
                let (ch, c2) = lookup_combo(c1, fg, dm[n - 1]);
                (s.push(ch), c2)
            },
            None => (s.push(style_char(base_index_spec(dm[n - 1]))), c1),
        }
    }
}

/// Looking up a combination keeps the table well formed and keeps the
/// combinations already there, in place.
proof fn lemma_lookup_keeps_table(c: Seq<(Rgb, DiffBg)>, fg: Rgb, diff: DiffBg)
    requires
        combos_wf(c),
    ensures
        combos_wf(lookup_combo(c, fg, diff).1),
        lookup_combo(c, fg, diff).1.len() >= c.len(),
        lookup_combo(c, fg, diff).1.take(c.len() as int) == c,
{
    let after = lookup_combo(c, fg, diff).1;
    assert(after.take(c.len() as int) =~= c);
    if !(exists|k: int| 0 <= k < c.len() && c[k] == (fg, diff)) && 6 + c.len() < MAX_STYLE_ENTRIES {
        assert forall|i: int, j: int| 0 <= i < j < after.len() implies after[i] != after[j] by {
            if j == c.len() {
                assert(after[i] == c[i]);
            } else {
                assert(after[i] == c[i] && after[j] == c[j]);
            }
        }
    }
}

/// Each byte of a pane shows its diff background: the style text has one
/// character per byte, and the character of each byte names an entry of
/// the final table that shows that byte's background. The combinations
/// already in the table stay where they were.
pub proof fn lemma_pane_styles_show_backgrounds(
    dm: Seq<DiffBg>,
    fgs: Seq<Option<Rgb>>,
    c: Seq<(Rgb, DiffBg)>,
    n: nat,
)
    requires
        combos_wf(c),
        n <= dm.len(),
        n <= fgs.len(),
    ensures
        ({
            let (styles, after) = styles_upto(dm, fgs, c, n);
            &&& styles.len() == n
            &&& combos_wf(after)
            &&& after.len() >= c.len()
            &&& after.take(c.len() as int) == c
            &&& forall|i: int|
                0 <= i < n ==> {
                    let e = (#[trigger] styles[i]) as int - 65;
                    &&& 0 <= e < 6 + after.len()
                    &&& entry_bg_index(after, e) == base_index_spec(dm[i])
                }
        }),
    decreases n,
{
    if n > 0 {
        lemma_pane_styles_show_backgrounds(dm, fgs, c, (n - 1) as nat);
        let (s1, c1) = styles_upto(dm, fgs, c, (n - 1) as nat);
        let (s, after) = styles_upto(dm, fgs, c, n);
        match fgs[n - 1] {
            Some(fg) => {
                lemma_lookup_keeps_table(c1, fg, dm[n - 1]);
                lemma_lookup_shows_background(c1, fg, dm[n - 1]);
                assert(after.take(c1.len() as int) == c1);
                assert(after.take(c.len() as int) =~= c) by {
                    assert forall|k: int| 0 <= k < c.len() implies after[k] == c[k] by {
                        assert(after.take(c1.len() as int)[k] == c1[k]);
                        assert(c1.take(c.len() as int)[k] == c[k]);
                    }
                }
                assert forall|i: int| 0 <= i < n implies {
                    let e = (#[trigger] s[i]) as int - 65;
                    &&& 0 <= e < 6 + after.len()
                    &&& entry_bg_index(after, e) == base_index_spec(dm[i])
                } by {
                    if i < n - 1 {
                        assert(s[i] == s1[i]);
                        let e = s1[i] as int - 65;
                        if e >= 6 {
                            assert(after.take(c1.len() as int)[e - 6] == c1[e - 6]);
                        }
                    }
                }
            },
            None => {
                assert(style_char(base_index_spec(dm[n - 1])) as int == 65 + base_index_spec(dm[n - 1]));
                assert forall|i: int| 0 <= i < n implies {
                    let e = (#[trigger] s[i]) as int - 65;
                    &&& 0 <= e < 6 + after.len()
                    &&& entry_bg_index(after, e) == base_index_spec(dm[i])
                } by {
                    if i < n - 1 {
                        assert(s[i] == s1[i]);
                    }
                }
            },
        }
    } else {
        assert(c.take(c.len() as int) =~= c);
    }
}

/// The syntax foreground color of byte `i`: the color of the main table's
/// entry named by the syntax style byte, if there is such a byte and such
/// an entry.
pub open spec fn syntax_fg(syntax: Seq<u8>, table: Seq<Rgb>, i: int) -> Option<Rgb> {
    if i < syntax.len() && syntax[i] - 65 < table.len() {
        Some(table[syntax[i] - 65])
    } else {
        None
    }
}

/// The style text of a pane whose bytes have the diff backgrounds `dm`:
/// with syntax styles, each byte combines its syntax color (see
/// `syntax_fg`) with its background; without, each byte gets its
/// background alone.
pub fn pane_styles(dm: &[DiffBg], syntax: Option<&[u8]>, table: &[Rgb], sdm: &mut SyntaxDiffMap) -> (r: String)
    requires
        syntax matches Some(s) ==> forall|i: int| 0 <= i < s@.len() && i < dm@.len() ==> s@[i] >= 65,
    ensures
        syntax is None ==> r@ == Seq::new(dm@.len(), |i: int| style_char(base_index_spec(dm@[i]))),
        syntax is None ==> final(sdm)@ == old(sdm)@,
        syntax matches Some(s) ==> (r@, final(sdm)@) == styles_upto(
            dm@,
            Seq::new(dm@.len(), |i: int| syntax_fg(s@, table@, i)),
            old(sdm)@,
            dm@.len(),
        ),
{
    let mut out = String::new();
    let mut i: usize = 0;
    match syntax {
        None => {
            while i < dm.len()
                invariant
                    i <= dm@.len(),
                    out@ == Seq::new(i as nat, |k: int| style_char(base_index_spec(dm@[k]))),
                decreases dm@.len() - i,
            {
                let c = style_char_exec(dm[i].base_index());
                push_char(&mut out, c);
                assert(out@ =~= Seq::new((i + 1) as nat, |k: int| style_char(base_index_spec(dm@[k]))));
                i += 1;
            }
            assert(out@ =~= Seq::new(dm@.len(), |k: int| style_char(base_index_spec(dm@[k]))));
            out
        },
        Some(s) => {
            let ghost fgs = Seq::new(dm@.len(), |k: int| syntax_fg(s@, table@, k));
            while i < dm.len()
                invariant
                    i <= dm@.len(),
                    fgs == Seq::new(dm@.len(), |k: int| syntax_fg(s@, table@, k)),
                    forall|k: int| 0 <= k < s@.len() && k < dm@.len() ==> s@[k] >= 65,
                    (out@, sdm@) == styles_upto(dm@, fgs, old(sdm)@, i as nat),
                decreases dm@.len() - i,
            {
                let fg: Option<Rgb> = if i < s.len() {
                    let idx = (s[i] - 65u8) as usize;
                    if idx < table.len() {
                        Some(table[idx])
                    } else {
                        None
                    }
                } else {
                    None
                };
                assert(fg == fgs[i as int]);
                let c = match fg {
                    Some(f) => sdm.get_or_insert(f, dm[i]),
                    None => style_char_exec(dm[i].base_index()),
                };
                push_char(&mut out, c);
                i += 1;
            }
            out
        },
    }
}


/// Height of the split view's header row.
pub const HEADER_HEIGHT: i32 = 24;
/// Height of the pane labels.
pub const LABEL_HEIGHT: i32 = 20;
/// Height of the action button bar.
pub const ACTION_BAR_HEIGHT: i32 = 34;
/// Height of the two panes.
pub const DEFAULT_CONTENT_HEIGHT: i32 = 250;

/// The split view's height in the layout: header, labels, panes and
/// action bar when shown, nothing when hidden.
pub fn panel_height(visible: bool) -> (r: i32)
    ensures
        r == (if visible {
            HEADER_HEIGHT + LABEL_HEIGHT + DEFAULT_CONTENT_HEIGHT + ACTION_BAR_HEIGHT
        } else {
            0
        }),
{
    if visible {
        HEADER_HEIGHT + LABEL_HEIGHT + DEFAULT_CONTENT_HEIGHT + ACTION_BAR_HEIGHT
    } else {
        0
    }
}

} // verus!
