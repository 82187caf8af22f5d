//! The read-only viewer for files too large to edit: the file's bytes are
//! shown one page (1 MiB) at a time, each line prefixed with its line
//! number; the viewer pages, jumps to a line or a range of lines, and
//! searches forward and backward.

use vstd::prelude::*;
use vstd::string::StringSliceAdditionalSpecFns;

use crate::text::{
    append_range, chars_of, decimal, decimal_len, find_char, first_index_of, join_spec, lemma_join_take,
    lemma_split_len_le, pad_left, parse_usize_chars, parse_usize_spec, push_char, push_padded_decimal,
    split_bounds, split_spec, trim_bounds, trim_spec,
};
use crate::ui::keys::{KEY_END, KEY_HOME, KEY_PAGE_DOWN, KEY_PAGE_UP};

verus! {

/// Size of a page in bytes.
pub const PAGE_SIZE: usize = 1048576;

/// The number of newline bytes in `s`.
pub open spec fn count_newlines(s: Seq<u8>) -> nat
    decreases s.len(),
{
    if s.len() == 0 {
        0
    } else {
        count_newlines(s.drop_last()) + if s.last() == 10u8 {
            1nat
        } else {
            0nat
        }
    }
}

/// What `String::from_utf8_lossy` makes of `bytes`.
pub uninterp spec fn utf8_lossy(bytes: Seq<u8>) -> Seq<char>;

/// Calls `String::from_utf8_lossy`. Claims that the result is
/// `utf8_lossy` of the bytes and has no more characters than there are
/// bytes (each character, or each replacement character for an invalid
/// sequence, stands for at least one byte).
#[verifier::external_body]
fn lossy_string(bytes: &[u8]) -> (r: String)
    ensures
        r@ == utf8_lossy(bytes@),
        r@.len() <= bytes@.len(),
{
    String::from_utf8_lossy(bytes).into_owned()
}

/// One line of the viewer: the line number right-aligned in `digits`
/// columns, a box-drawing separator and a space, then the line.
pub open spec fn numbered_line(n: int, digits: nat, line: Seq<char>) -> Seq<char> {
    pad_left(decimal(n as nat), digits) + seq!['\u{2502}', ' '] + line
}

/// `text` with its lines (split at `\n`) numbered from `start_line` on, the
/// numbers as wide as `end_line` has digits.
pub open spec fn numbered_lines(text: Seq<char>, start_line: nat, end_line: nat) -> Seq<char> {
    let lines = split_spec(text, '\n');
    let digits = decimal(end_line).len();
    join_spec(Seq::new(lines.len(), |i: int| numbered_line(start_line + i, digits, lines[i])), seq!['\n'])
}

/// Width in bytes of the line-number prefix for line numbers up to
/// `max_line`: the digits, then the separator (three bytes) and a space.
pub fn line_number_prefix_width(max_line: usize) -> (r: usize)
    ensures
        r == decimal(max_line as nat).len() + 4,
        r <= 24,
{
    decimal_len(max_line) + 4
}

/// `text` with each line prefixed by its line number (see
/// `numbered_lines`).
pub fn prepend_line_numbers(text: &str, start_line: usize, end_line: usize) -> (r: String)
    requires
        start_line + text@.len() <= usize::MAX,
    ensures
        r@ == numbered_lines(text@, start_line as nat, end_line as nat),
{
    let v = chars_of(text);
    let bounds = split_bounds(&v, '\n');
    let digits = decimal_len(end_line);
    let ghost lines = split_spec(v@, '\n');
    let ghost parts = Seq::new(
        lines.len(),
        |i: int| numbered_line(start_line + i, digits as nat, lines[i]),
    );
    proof {
        lemma_split_len_le(v@, '\n');
    }
    let mut out = String::new();
    let mut i: usize = 0;
    assert(parts.take(0) =~= Seq::<Seq<char>>::empty());
    while i < bounds.len()
        invariant
            i <= bounds.len() == lines.len() == parts.len(),
            lines == split_spec(v@, '\n'),
            v@ == text@,
            lines.len() <= v@.len() + 1,
            start_line + v@.len() <= usize::MAX,
            digits == decimal(end_line as nat).len(),
            parts == Seq::new(
                lines.len(),
                |i: int| numbered_line(start_line + i, digits as nat, lines[i]),
            ),
            forall|k: int|
                0 <= k < bounds.len() ==> {
                    &&& (#[trigger] bounds@[k]).0 <= bounds@[k].1 <= v.len()
                    &&& v@.subrange(bounds@[k].0 as int, bounds@[k].1 as int) == lines[k]
                },
            out@ == join_spec(parts.take(i as int), seq!['\n']),
        decreases bounds.len() - i,
    {
        let ghost before = out@;
        if i > 0 {
            push_char(&mut out, '\n');
        }
        push_padded_decimal(&mut out, start_line + i, digits);
        push_char(&mut out, '\u{2502}');
        push_char(&mut out, ' ');
        let (lo, hi) = bounds[i];
        append_range(&mut out, &v, lo, hi);
        proof {
            lemma_join_take(parts, seq!['\n'], i as int);
            assert(parts[i as int] == numbered_line(start_line + i, digits as nat, lines[i as int]));
            assert(out@ =~= before + (if i > 0 {
                seq!['\n']
            } else {
                Seq::empty()
            }) + parts[i as int]);
        }
        i += 1;
    }
    assert(parts.take(i as int) =~= parts);
    out
}


// ---------------------------------------------------------------------------
// Bytes: newlines, line starts, matches
// ---------------------------------------------------------------------------

proof fn lemma_newlines_step(s: Seq<u8>, lo: int, i: int)
    requires
        0 <= lo <= i < s.len(),
    ensures
        count_newlines(s.subrange(lo, i + 1)) == count_newlines(s.subrange(lo, i)) + if s[i] == 10u8 {
            1nat
        } else {
            0nat
        },
{
    assert(s.subrange(lo, i + 1).drop_last() =~= s.subrange(lo, i));
}

proof fn lemma_newlines_le(s: Seq<u8>)
    ensures
        count_newlines(s) <= s.len(),
    decreases s.len(),
{
    if s.len() > 0 {
        lemma_newlines_le(s.drop_last());
    }
}

/// The number of newlines in `data[lo..hi]`.
fn newlines_between(data: &[u8], lo: usize, hi: usize) -> (r: usize)
    requires
        lo <= hi <= data@.len(),
    ensures
        r == count_newlines(data@.subrange(lo as int, hi as int)),
{
    let mut n: usize = 0;
    let mut i: usize = lo;
    assert(data@.subrange(lo as int, lo as int) =~= Seq::<u8>::empty());
    while i < hi
        invariant
            lo <= i <= hi <= data@.len(),
            n == count_newlines(data@.subrange(lo as int, i as int)),
        decreases hi - i,
    {
        proof {
            lemma_newlines_step(data@, lo as int, i as int);
            lemma_newlines_le(data@.subrange(lo as int, i as int));
        }
        if data[i] == 10u8 {
            n += 1;
        }
        i += 1;
    }
    n
}

/// Where line `target` (1-based) starts: 0 for the first line (and for
/// 0), else the first byte at which `target - 1` newlines lie behind; the
/// length of the data when there are not that many lines.
pub open spec fn line_start_spec(data: Seq<u8>, target: nat, r: nat) -> bool {
    &&& r <= data.len()
    &&& target <= 1 ==> r == 0
    &&& target > 1 ==> {
        &&& forall|j: int| 0 <= j < r ==> #[trigger] count_newlines(data.take(j)) + 1 < target
        &&& r < data.len() ==> count_newlines(data.take(r as int)) + 1 >= target
    }
}

/// Whether `q` occurs in `data` at byte `p`.
pub open spec fn matches_at(data: Seq<u8>, q: Seq<u8>, p: int) -> bool {
    0 <= p && p + q.len() <= data.len() && data.subrange(p, p + q.len()) == q
}

fn bytes_match_at(data: &[u8], q: &[u8], p: usize) -> (r: bool)
    requires
        p + q@.len() <= data@.len(),
    ensures
        r == matches_at(data@, q@, p as int),
{
    let n: usize = data.len();
    let mut k: usize = 0;
    while k < q.len()
        invariant
            k <= q@.len(),
            n == data@.len(),
            p + q@.len() <= data@.len(),
            forall|j: int| 0 <= j < k ==> data@[p + j] == q@[j],
        decreases q@.len() - k,
    {
        if data[p + k] != q[k] {
            assert(data@.subrange(p as int, p + q@.len())[k as int] != q@[k as int]);
            return false;
        }
        k += 1;
    }
    assert(data@.subrange(p as int, p + q@.len()) =~= q@);
    true
}

/// The first occurrence of `q` at or after `from`.
fn first_match_from(data: &[u8], q: &[u8], from: usize) -> (r: Option<usize>)
    ensures
        r matches Some(p) ==> from <= p && matches_at(data@, q@, p as int) && forall|j: int|
            from <= j < p ==> !#[trigger] matches_at(data@, q@, j),
        r is None ==> forall|j: int| from <= j ==> !#[trigger] matches_at(data@, q@, j),
{
    if q.len() > data.len() || from > data.len() - q.len() {
        return None;
    }
    let last: usize = data.len() - q.len();
    let mut p: usize = from;
    loop
        invariant
            from <= p <= last,
            last + q@.len() == data@.len(),
            forall|j: int| from <= j < p ==> !#[trigger] matches_at(data@, q@, j),
        decreases last - p,
    {
        if bytes_match_at(data, q, p) {
            return Some(p);
        }
        if p == last {
            return None;
        }
        p += 1;
    }
}

/// The last occurrence of `q` that ends at or before `end`.
fn last_match_before(data: &[u8], q: &[u8], end: usize) -> (r: Option<usize>)
    requires
        end <= data@.len(),
    ensures
        r matches Some(p) ==> p + q@.len() <= end && matches_at(data@, q@, p as int) && forall|j: int|
            p < j && j + q@.len() <= end ==> !#[trigger] matches_at(data@, q@, j),
        r is None ==> forall|j: int| 0 <= j && j + q@.len() <= end ==> !#[trigger] matches_at(data@, q@, j),
{
    if q.len() > end {
        return None;
    }
    let mut p: usize = end - q.len();
    loop
        invariant
            p + q@.len() <= end <= data@.len(),
            forall|j: int| p < j && j + q@.len() <= end ==> !#[trigger] matches_at(data@, q@, j),
        decreases p,
    {
        if bytes_match_at(data, q, p) {
            return Some(p);
        }
        if p == 0 {
            return None;
        }
        p -= 1;
    }
}

/// Where line `target` starts (see `line_start_spec`).
pub fn find_line_offset(data: &[u8], target: usize) -> (r: usize)
    ensures
        line_start_spec(data@, target as nat, r as nat),
{
    if target <= 1 {
        return 0;
    }
    let mut line_count: usize = 1;
    let mut i: usize = 0;
    assert(data@.take(0) =~= Seq::<u8>::empty());
    while i < data.len()
        invariant
            i <= data@.len(),
            target > 1,
            line_count == count_newlines(data@.take(i as int)) + 1,
            forall|j: int| 0 <= j < i ==> #[trigger] count_newlines(data@.take(j)) + 1 < target,
        decreases data@.len() - i,
    {
        if line_count >= target {
            return i;
        }
        proof {
            assert(data@.subrange(0, i as int) =~= data@.take(i as int));
            assert(data@.subrange(0, i + 1) =~= data@.take(i + 1));
            lemma_newlines_step(data@, 0, i as int);
        }
        if data[i] == 10u8 {
            line_count += 1;
        }
        i += 1;
    }
    i
}

/// The line-start offset found for a later line is never before the one
/// for an earlier line.
pub proof fn lemma_line_start_monotone(data: Seq<u8>, a: nat, ra: nat, b: nat, rb: nat)
    requires
        a <= b,
        line_start_spec(data, a, ra),
        line_start_spec(data, b, rb),
    ensures
        ra <= rb,
{
    if a > 1 && ra > rb {
        assert(count_newlines(data.take(rb as int)) + 1 < a);
    }
}

/// At the offset found for line `target` (when it is within the data and
/// `target > 1`), exactly `target - 1` newlines lie behind, the last of
/// them just before it: the offset is the start of line `target`.
pub proof fn lemma_line_start_is_line_start(data: Seq<u8>, target: nat, r: nat)
    requires
        line_start_spec(data, target, r),
        target > 1,
        r < data.len(),
    ensures
        r > 0,
        count_newlines(data.take(r as int)) == target - 1,
        data[r - 1] == 10u8,
{
    assert(data.take(0) =~= Seq::<u8>::empty());
    assert(r > 0);
    assert(count_newlines(data.take(r - 1)) + 1 < target);
    assert(data.take(r as int).drop_last() =~= data.take(r - 1));
}


// ---------------------------------------------------------------------------
// The viewer's state
// ---------------------------------------------------------------------------

/// The number of pages that `len` bytes take (the last one may be short).
pub open spec fn pages_for(len: nat) -> nat {
    ((len + PAGE_SIZE - 1) / PAGE_SIZE as int) as nat
}

/// Where page `p` ends in data of `len` bytes.
pub open spec fn page_end(len: nat, p: nat) -> nat {
    if p * PAGE_SIZE + PAGE_SIZE <= len {
        (p * PAGE_SIZE + PAGE_SIZE) as nat
    } else {
        len
    }
}

/// The bytes of page `p`.
pub open spec fn page_bytes(data: Seq<u8>, p: nat) -> Seq<u8> {
    data.subrange(p * PAGE_SIZE, page_end(data.len(), p) as int)
}

/// What the viewer's state stands for.
pub struct ViewerView {
    pub data: Seq<u8>,
    pub total_pages: nat,
    pub current_page: nat,
    pub search_pos: nat,
    /// Number of the first line shown.
    pub start_line: nat,
    /// Width in bytes of the line-number prefix of the lines shown.
    pub prefix_width: nat,
    /// Where the bytes shown start.
    pub shown_start: nat,
    /// Where the bytes shown end.
    pub shown_end: nat,
}

/// The number of the first line of page `p`.
pub open spec fn first_line_of_page(data: Seq<u8>, p: nat) -> nat {
    count_newlines(data.take(p * PAGE_SIZE)) + 1
}

/// The number of the last line of page `p`.
pub open spec fn last_line_of_page(data: Seq<u8>, p: nat) -> nat {
    first_line_of_page(data, p) + count_newlines(page_bytes(data, p))
}

/// The state after page `p` is shown.
pub open spec fn showing_page(v: ViewerView, p: nat) -> ViewerView {
    ViewerView {
        current_page: p,
        start_line: first_line_of_page(v.data, p),
        prefix_width: decimal(last_line_of_page(v.data, p)).len() + 4,
        shown_start: (p * PAGE_SIZE) as nat,
        shown_end: page_end(v.data.len(), p),
        ..v
    }
}

/// Which page was shown before does not matter: showing page `b` after
/// page `a` gives the same state as showing `b` directly.
pub proof fn lemma_page_history_independent(v: ViewerView, a: nat, b: nat)
    ensures
        showing_page(showing_page(v, a), b) == showing_page(v, b),
{
}

/// A page as shown: its text with numbered lines, and the numbers for
/// the position label ("Page n/total | Lines a-b").
pub struct PageView {
    pub text: String,
    /// The page, counted from 0.
    pub page: usize,
    pub total_pages: usize,
    pub start_line: usize,
    pub end_line: usize,
}

/// `pv` shows page `p` of `data`, which has `total` pages.
pub open spec fn shows_page(pv: PageView, data: Seq<u8>, total: nat, p: nat) -> bool {
    &&& pv.page == p
    &&& pv.total_pages == total
    &&& pv.start_line == first_line_of_page(data, p)
    &&& pv.end_line == last_line_of_page(data, p)
    &&& pv.text@ == numbered_lines(
        utf8_lossy(page_bytes(data, p)),
        first_line_of_page(data, p),
        last_line_of_page(data, p),
    )
}

/// Where the cursor goes for a match at byte `pos` of the page shown: the
/// match's offset in the page plus the line-number prefixes of the lines
/// up to it.
pub open spec fn cursor_for_match(v: ViewerView, pos: nat) -> int {
    let local = pos - v.current_page * PAGE_SIZE;
    local + (count_newlines(page_bytes(v.data, v.current_page).take(local)) + 1) * v.prefix_width
}

/// The outcome of a search that found a match.
pub struct SearchHit {
    /// The page that holds the match, now shown.
    pub page: PageView,
    /// Where to put the cursor in the page's text.
    pub cursor: i32,
}

/// The state of the viewer over a file's bytes.
pub struct ViewerState<'a> {
    data: &'a [u8],
    total_pages: usize,
    current_page: usize,
    search_pos: usize,
    current_start_line: usize,
    current_prefix_width: usize,
    shown_start: usize,
    shown_end: usize,
}

impl<'a> View for ViewerState<'a> {
    type V = ViewerView;

    closed spec fn view(&self) -> ViewerView {
        ViewerView {
            data: self.data@,
            total_pages: self.total_pages as nat,
            current_page: self.current_page as nat,
            search_pos: self.search_pos as nat,
            start_line: self.current_start_line as nat,
            prefix_width: self.current_prefix_width as nat,
            shown_start: self.shown_start as nat,
            shown_end: self.shown_end as nat,
        }
    }
}

/// What every state of the viewer keeps: the page count fits the data, the
/// current page exists (or is 0 when there is none), the search position is
/// within the data, the first line shown is at most one past the last
/// newline, the prefix is at most 24 bytes wide, and the bytes shown lie in
/// the data, their last line being at most one past the last newline.
pub open spec fn viewer_wf(v: ViewerView) -> bool {
    &&& v.data.len() <= isize::MAX
    &&& v.total_pages == pages_for(v.data.len())
    &&& (v.current_page < v.total_pages || (v.total_pages == 0 && v.current_page == 0))
    &&& v.search_pos <= v.data.len()
    &&& 1 <= v.start_line <= v.data.len() + 1
    &&& v.prefix_width <= 24
    &&& v.shown_start <= v.shown_end <= v.data.len()
    &&& v.start_line + count_newlines(v.data.subrange(v.shown_start as int, v.shown_end as int)) <= v.data.len() + 1
}

proof fn lemma_page_facts(data: Seq<u8>, p: nat)
    requires
        p < pages_for(data.len()),
        data.len() <= isize::MAX,
    ensures
        p * PAGE_SIZE < data.len(),
        p * PAGE_SIZE <= page_end(data.len(), p) <= data.len(),
        page_end(data.len(), p) - p * PAGE_SIZE <= PAGE_SIZE,
        first_line_of_page(data, p) <= p * PAGE_SIZE + 1,
        last_line_of_page(data, p) <= data.len() + 1,
{
    assert(p * PAGE_SIZE < data.len()) by (nonlinear_arith)
        requires
            p < (data.len() + PAGE_SIZE - 1) / PAGE_SIZE as int,
    ;
    lemma_newlines_le(data.take(p * PAGE_SIZE));
    lemma_newlines_le(page_bytes(data, p));
    lemma_newlines_split(data, p * PAGE_SIZE, page_end(data.len(), p) as int);
    lemma_newlines_le(data.take(page_end(data.len(), p) as int));
}

proof fn lemma_newlines_split(s: Seq<u8>, a: int, b: int)
    requires
        0 <= a <= b <= s.len(),
    ensures
        count_newlines(s.take(b)) == count_newlines(s.take(a)) + count_newlines(s.subrange(a, b)),
    decreases b - a,
{
    if b > a {
        lemma_newlines_split(s, a, b - 1);
        lemma_newlines_step(s, a, b - 1);
        assert(s.take(b).drop_last() =~= s.take(b - 1));
        assert(s.take(b).last() == s[b - 1]);
    } else {
        assert(s.subrange(a, b) =~= Seq::<u8>::empty());
    }
}

impl<'a> ViewerState<'a> {
    #[verifier::type_invariant]
    spec fn inv(&self) -> bool {
        viewer_wf(self@)
    }

    /// A viewer over `data`, at its first page, with the search at the start.
    pub fn new(data: &'a [u8]) -> (s: Self)
        requires
            data@.len() <= isize::MAX,
        ensures
            s@ == (ViewerView {
                data: data@,
                total_pages: pages_for(data@.len()),
                current_page: 0,
                search_pos: 0,
                start_line: 1,
                prefix_width: 0,
                shown_start: 0,
                shown_end: page_end(data@.len(), 0),
            }),
            viewer_wf(s@),
    {
        let len = data.len();
        let total = len / PAGE_SIZE + if len % PAGE_SIZE != 0 {
            1
        } else {
            0
        };
        assert(total == pages_for(len as nat)) by (nonlinear_arith)
            requires
                total == len as int / PAGE_SIZE as int + if len as int % PAGE_SIZE as int != 0 {
                    1int
                } else {
                    0int
                },
        ;
        let first_end: usize = if PAGE_SIZE <= len {
            PAGE_SIZE
        } else {
            len
        };
        proof {
            lemma_newlines_le(data@.subrange(0, first_end as int));
        }
        ViewerState {
            data,
            total_pages: total,
            current_page: 0,
            search_pos: 0,
            current_start_line: 1,
            current_prefix_width: 0,
            shown_start: 0,
            shown_end: first_end,
        }
    }

    /// The page shown, counted from 0.
    pub fn current_page(&self) -> (p: usize)
        ensures
            p == self@.current_page,
    {
        self.current_page
    }

    /// The number of pages.
    pub fn total_pages(&self) -> (n: usize)
        ensures
            n == self@.total_pages,
    {
        self.total_pages
    }

    /// Restarts the forward search at the start of the file.
    pub fn reset_search(&mut self)
        ensures
            final(self)@ == (ViewerView { search_pos: 0, ..old(self)@ }),
    {
        proof {
            use_type_invariant(&*self);
        }
        self.search_pos = 0;
    }

    /// Shows the current page: its text with numbered lines. Nothing when
    /// the file is empty.
    pub fn load_current_page(&mut self) -> (r: Option<PageView>)
        ensures
            old(self)@.data.len() == 0 ==> r is None && final(self)@ == old(self)@,
            old(self)@.data.len() > 0 ==> (r matches Some(pv) && shows_page(
                pv,
                old(self)@.data,
                old(self)@.total_pages,
                old(self)@.current_page,
            ) && final(self)@ == showing_page(old(self)@, old(self)@.current_page)),
    {
        proof {
            use_type_invariant(&*self);
        }
        if self.data.len() == 0 {
            return None;
        }
        let ghost v = self@;
        let p = self.current_page;
        proof {
            lemma_page_facts(v.data, p as nat);
        }
        let start: usize = p * PAGE_SIZE;
        let end: usize = if start + PAGE_SIZE <= self.data.len() {
            start + PAGE_SIZE
        } else {
            self.data.len()
        };
        let slice = &self.data[start..end];
        let text = lossy_string(slice);
        let before = newlines_between(self.data, 0, start);
        let in_page = newlines_between(self.data, start, end);
        proof {
            assert(v.data.subrange(0, start as int) =~= v.data.take(start as int));
            lemma_newlines_split(v.data, start as int, end as int);
            lemma_newlines_le(v.data.take(end as int));
        }
        let start_line = before + 1;
        let end_line = start_line + in_page;
        let prefixed = prepend_line_numbers(&text, start_line, end_line);
        let width = line_number_prefix_width(end_line);
        *self = ViewerState {
            data: self.data,
            total_pages: self.total_pages,
            current_page: self.current_page,
            search_pos: self.search_pos,
            current_start_line: start_line,
            current_prefix_width: width,
            shown_start: start,
            shown_end: end,
        };
        Some(PageView { text: prefixed, page: p, total_pages: self.total_pages, start_line, end_line })
    }

    /// Shows page `page` (counted from 0) if there is such a page; else
    /// nothing changes.
    pub fn go_to_page(&mut self, page: usize) -> (r: Option<PageView>)
        ensures
            page < old(self)@.total_pages ==> (r matches Some(pv) && shows_page(
                pv,
                old(self)@.data,
                old(self)@.total_pages,
                page as nat,
            ) && final(self)@ == showing_page(old(self)@, page as nat)),
            page >= old(self)@.total_pages ==> r is None && final(self)@ == old(self)@,
    {
        proof {
            use_type_invariant(&*self);
        }
        if page < self.total_pages {
            self.current_page = page;
            proof {
                lemma_page_facts(self@.data, page as nat);
            }
            self.load_current_page()
        } else {
            None
        }
    }

    /// Shows the previous page, if there is one.
    pub fn prev_page(&mut self) -> (r: Option<PageView>)
        ensures
            old(self)@.current_page > 0 ==> (r matches Some(pv) && shows_page(
                pv,
                old(self)@.data,
                old(self)@.total_pages,
                (old(self)@.current_page - 1) as nat,
            ) && final(self)@ == showing_page(old(self)@, (old(self)@.current_page - 1) as nat)),
            old(self)@.current_page == 0 ==> r is None && final(self)@ == old(self)@,
    {
        proof {
            use_type_invariant(&*self);
        }
        if self.current_page > 0 {
            self.go_to_page(self.current_page - 1)
        } else {
            None
        }
    }

    /// Shows the next page, if there is one.
    pub fn next_page(&mut self) -> (r: Option<PageView>)
        requires
            old(self)@.total_pages > 0,
        ensures
            old(self)@.current_page + 1 < old(self)@.total_pages ==> (r matches Some(pv) && shows_page(
                pv,
                old(self)@.data,
                old(self)@.total_pages,
                old(self)@.current_page + 1,
            ) && final(self)@ == showing_page(old(self)@, old(self)@.current_page + 1)),
            old(self)@.current_page + 1 >= old(self)@.total_pages ==> r is None && final(self)@ == old(self)@,
    {
        proof {
            use_type_invariant(&*self);
        }
        if self.current_page < self.total_pages - 1 {
            self.go_to_page(self.current_page + 1)
        } else {
            None
        }
    }

    /// Shows the page that holds the start of line `target` (1-based);
    /// nothing for line 0, or when that page does not exist.
    pub fn go_to_line(&mut self, target: usize) -> (r: Option<PageView>)
        ensures
            target == 0 ==> r is None && final(self)@ == old(self)@,
            target > 0 ==> exists|off: nat|
                #![trigger line_start_spec(old(self)@.data, target as nat, off)]
                line_start_spec(old(self)@.data, target as nat, off) && {
                    let page = off / PAGE_SIZE as nat;
                    &&& page < old(self)@.total_pages ==> (r matches Some(pv) && shows_page(
                        pv,
                        old(self)@.data,
                        old(self)@.total_pages,
                        page,
                    ) && final(self)@ == showing_page(old(self)@, page))
                    &&& page >= old(self)@.total_pages ==> r is None && final(self)@ == old(self)@
                },
    {
        if target == 0 {
            return None;
        }
        let ghost v = self@;
        let off = find_line_offset(self.data, target);
        let r = self.go_to_page(off / PAGE_SIZE);
        assert(line_start_spec(v.data, target as nat, off as nat));
        assert((off / PAGE_SIZE) as nat == off as nat / PAGE_SIZE as nat);
        r
    }

    /// Shows lines `start_line` to `end_line` (1-based, inclusive): the
    /// bytes from the start of the first to the start of the line after the
    /// last (or the end of the file), with numbered lines; the current page
    /// becomes the one that holds the first line. Nothing when the range is
    /// empty, starts at line 0, or its first line is past the end.
    pub fn load_line_range(&mut self, start_line: usize, end_line: usize) -> (r: Option<RangeView>)
        requires
            end_line < usize::MAX,
        ensures
            (start_line == 0 || end_line < start_line) ==> r is None && final(self)@ == old(self)@,
            (start_line > 0 && end_line >= start_line) ==> exists|so: nat, eo: nat|
                #![trigger line_start_spec(old(self)@.data, start_line as nat, so), line_start_spec(old(self)@.data, (end_line + 1) as nat, eo)]
                line_start_spec(old(self)@.data, start_line as nat, so) && line_start_spec(
                    old(self)@.data,
                    (end_line + 1) as nat,
                    eo,
                ) && {
                    &&& so >= old(self)@.data.len() ==> r is None && final(self)@ == old(self)@
                    &&& so < old(self)@.data.len() ==> (r matches Some(rv) && rv.start_line == start_line
                        && rv.end_line == end_line && rv.text@ == numbered_lines(
                        utf8_lossy(old(self)@.data.subrange(so as int, eo as int)),
                        start_line as nat,
                        end_line as nat,
                    ) && final(self)@ == (ViewerView {
                        current_page: so / PAGE_SIZE as nat,
                        start_line: start_line as nat,
                        prefix_width: decimal(end_line as nat).len() + 4,
                        shown_start: so,
                        shown_end: eo,
                        ..old(self)@
                    }))
                },
    {
        proof {
            use_type_invariant(&*self);
        }
        if start_line == 0 || end_line < start_line {
            return None;
        }
        let ghost v = self@;
        let so = find_line_offset(self.data, start_line);
        let eo = find_line_offset(self.data, end_line + 1);
        proof {
            lemma_line_start_monotone(v.data, start_line as nat, so as nat, (end_line + 1) as nat, eo as nat);
        }
        if so >= self.data.len() {
            assert(line_start_spec(v.data, start_line as nat, so as nat));
            assert(line_start_spec(v.data, (end_line + 1) as nat, eo as nat));
            return None;
        }
        proof {
            if start_line > 1 {
                lemma_line_start_is_line_start(v.data, start_line as nat, so as nat);
                lemma_newlines_le(v.data.take(so as int));
            }
            assert((so as nat / (PAGE_SIZE as nat)) < pages_for(v.data.len())) by (nonlinear_arith)
                requires
                    so < v.data.len(),
            ;
        }
        let slice = &self.data[so..eo];
        let text = lossy_string(slice);
        let prefixed = prepend_line_numbers(&text, start_line, end_line);
        let width = line_number_prefix_width(end_line);
        proof {
            lemma_newlines_split(v.data, so as int, eo as int);
            lemma_newlines_le(v.data.take(eo as int));
        }
        *self = ViewerState {
            data: self.data,
            total_pages: self.total_pages,
            current_page: so / PAGE_SIZE,
            search_pos: self.search_pos,
            current_start_line: start_line,
            current_prefix_width: width,
            shown_start: so,
            shown_end: eo,
        };
        assert(line_start_spec(v.data, start_line as nat, so as nat));
        assert(line_start_spec(v.data, (end_line + 1) as nat, eo as nat));
        Some(RangeView { text: prefixed, start_line, end_line })
    }

    /// Shows the page of the match at byte `pos` and gives where the cursor
    /// goes.
    fn show_match(&mut self, pos: usize) -> (hit: SearchHit)
        requires
            pos < old(self)@.data.len(),
        ensures
            shows_page(hit.page, old(self)@.data, old(self)@.total_pages, pos as nat / PAGE_SIZE as nat),
            final(self)@ == showing_page(old(self)@, pos as nat / PAGE_SIZE as nat),
            hit.cursor == cursor_for_match(final(self)@, pos as nat),
    {
        proof {
            use_type_invariant(&*self);
            assert((pos as nat / (PAGE_SIZE as nat)) < pages_for(self@.data.len())) by (nonlinear_arith)
                requires
                    pos < self@.data.len(),
            ;
        }
        let page = self.go_to_page(pos / PAGE_SIZE);
        let page = match page {
            Some(pv) => pv,
            None => {
                proof {
                    assert(false);
                }
                PageView { text: String::new(), page: 0, total_pages: 0, start_line: 0, end_line: 0 }
            },
        };
        proof {
            use_type_invariant(&*self);
            lemma_page_facts(self@.data, self@.current_page);
            assert(self.current_page * PAGE_SIZE <= pos) by (nonlinear_arith)
                requires
                    self.current_page == pos / PAGE_SIZE,
            ;
            assert(pos < self.current_page * PAGE_SIZE + PAGE_SIZE) by (nonlinear_arith)
                requires
                    self.current_page == pos / PAGE_SIZE,
            ;
        }
        let page_start: usize = self.current_page * PAGE_SIZE;
        let local: usize = pos - page_start;
        let before = newlines_between(self.data, page_start, pos);
        proof {
            assert(page_bytes(self@.data, self@.current_page).take(local as int) =~= self@.data.subrange(
                page_start as int,
                pos as int,
            ));
            lemma_newlines_le(self@.data.subrange(page_start as int, pos as int));
            assert((before + 1) * self.current_prefix_width <= (PAGE_SIZE + 1) * 24) by (nonlinear_arith)
                requires
                    before <= PAGE_SIZE,
                    self.current_prefix_width <= 24,
            ;
        }
        let cursor = (local + (before + 1) * self.current_prefix_width) as i32;
        SearchHit { page, cursor }
    }

    /// Searches for `query` from the start (`from_start`) or from where
    /// the last match ended; on a match, moves past it, shows its page and
    /// gives where the cursor goes. Nothing for an empty query, when the
    /// search position is at the end, or when there is no match.
    pub fn search(&mut self, query: &str, from_start: bool) -> (r: Option<SearchHit>)
        ensures
            ({
                let q = query.spec_bytes();
                let from = if from_start {
                    0
                } else {
                    old(self)@.search_pos
                };
                if q.len() == 0 || from >= old(self)@.data.len() || forall|j: int|
                    from <= j ==> !#[trigger] matches_at(old(self)@.data, q, j) {
                    r is None && final(self)@ == old(self)@
                } else {
                    exists|p: nat|
                        #![trigger matches_at(old(self)@.data, q, p as int)]
                        from <= p && matches_at(old(self)@.data, q, p as int) && (forall|j: int|
                            from <= j < p ==> !#[trigger] matches_at(old(self)@.data, q, j)) && (r matches Some(
                            hit,
                        ) && shows_page(
                            hit.page,
                            old(self)@.data,
                            old(self)@.total_pages,
                            p / PAGE_SIZE as nat,
                        ) && final(self)@ == showing_page(
                            ViewerView { search_pos: p + q.len(), ..old(self)@ },
                            p / PAGE_SIZE as nat,
                        ) && hit.cursor == cursor_for_match(final(self)@, p))
                }
            }),
    {
        proof {
            use_type_invariant(&*self);
        }
        let q = query.as_bytes();
        if q.len() == 0 {
            return None;
        }
        let start = if from_start {
            0
        } else {
            self.search_pos
        };
        if start >= self.data.len() {
            return None;
        }
        match first_match_from(self.data, q, start) {
            None => None,
            Some(p) => {
                let ghost v = self@;
                self.search_pos = p + q.len();
                let hit = self.show_match(p);
                assert(matches_at(v.data, q@, p as int));
                Some(hit)
            },
        }
    }

    /// Searches backward for `query`, for the last match that ends at or
    /// before the search position less the query's length (after a forward
    /// match, that is where the match begins; after a backward one, the
    /// query's length before it); on a match, the search position moves to
    /// its start, its page is shown and the cursor position is given.
    /// Nothing for an empty query, at the start of the file, or when there
    /// is no such match.
    pub fn search_backward(&mut self, query: &str) -> (r: Option<SearchHit>)
        ensures
            ({
                let q = query.spec_bytes();
                let end: int = if old(self)@.search_pos >= q.len() {
                    old(self)@.search_pos - q.len()
                } else {
                    0
                };
                if q.len() == 0 || old(self)@.search_pos == 0 || end == 0 || forall|j: int|
                    0 <= j && j + q.len() <= end ==> !#[trigger] matches_at(old(self)@.data, q, j) {
                    r is None && final(self)@ == old(self)@
                } else {
                    exists|p: nat|
                        #![trigger matches_at(old(self)@.data, q, p as int)]
                        p + q.len() <= end && matches_at(old(self)@.data, q, p as int) && (forall|j: int|
                            p < j && j + q.len() <= end ==> !#[trigger] matches_at(old(self)@.data, q, j)) && (r matches Some(
                            hit,
                        ) && shows_page(
                            hit.page,
                            old(self)@.data,
                            old(self)@.total_pages,
                            p / PAGE_SIZE as nat,
                        ) && final(self)@ == showing_page(
                            ViewerView { search_pos: p, ..old(self)@ },
                            p / PAGE_SIZE as nat,
                        ) && hit.cursor == cursor_for_match(final(self)@, p))
                }
            }),
    {
        proof {
            use_type_invariant(&*self);
        }
        let q = query.as_bytes();
        if q.len() == 0 || self.search_pos == 0 {
            return None;
        }
        let end = if self.search_pos >= q.len() {
            self.search_pos - q.len()
        } else {
            0
        };
        if end == 0 {
            return None;
        }
        match last_match_before(self.data, q, end) {
            None => None,
            Some(p) => {
                let ghost v = self@;
                self.search_pos = p;
                let hit = self.show_match(p);
                assert(matches_at(v.data, q@, p as int));
                Some(hit)
            },
        }
    }

    /// The lines shown, to be opened for editing: their bytes (converted
    /// lossily), the number of the first line shown, that number plus the
    /// newlines shown, and the byte range shown (the page, or the range of
    /// lines last gone to).
    pub fn open_request(&self) -> (r: ViewerOpenRequest)
        ensures
            r.content@ == utf8_lossy(self@.data.subrange(self@.shown_start as int, self@.shown_end as int)),
            r.start_line == self@.start_line,
            r.end_line == self@.start_line + count_newlines(
                self@.data.subrange(self@.shown_start as int, self@.shown_end as int),
            ),
            r.start_byte == self@.shown_start,
            r.end_byte == self@.shown_end,
    {
        proof {
            use_type_invariant(self);
        }
        let start = self.shown_start;
        let end = self.shown_end;
        let slice = &self.data[start..end];
        let lines = newlines_between(self.data, start, end);
        let content = lossy_string(slice);
        ViewerOpenRequest {
            content,
            start_line: self.current_start_line,
            end_line: self.current_start_line + lines,
            start_byte: start as u64,
            end_byte: end as u64,
        }
    }
}

/// A range of lines as shown: the text with numbered lines, and the
/// numbers for the position label ("Lines a-b").
pub struct RangeView {
    pub text: String,
    pub start_line: usize,
    pub end_line: usize,
}

impl PageView {
    /// The position label of the page: `Page n/total | Lines a-b`, the page
    /// counted from 1.
    pub fn position_label(&self) -> (r: String)
        requires
            self.page < usize::MAX,
        ensures
            r@ == "Page "@ + decimal((self.page + 1) as nat) + "/"@ + decimal(self.total_pages as nat)
                + " | Lines "@ + decimal(self.start_line as nat) + "-"@ + decimal(self.end_line as nat),
    {
        let mut r = String::new();
        crate::text::append_str(&mut r, "Page ");
        crate::text::push_decimal(&mut r, self.page + 1);
        crate::text::append_str(&mut r, "/");
        crate::text::push_decimal(&mut r, self.total_pages);
        crate::text::append_str(&mut r, " | Lines ");
        crate::text::push_decimal(&mut r, self.start_line);
        crate::text::append_str(&mut r, "-");
        crate::text::push_decimal(&mut r, self.end_line);
        r
    }
}

impl RangeView {
    /// The position label of the range: `Lines a-b`.
    pub fn position_label(&self) -> (r: String)
        ensures
            r@ == "Lines "@ + decimal(self.start_line as nat) + "-"@ + decimal(self.end_line as nat),
    {
        let mut r = String::new();
        crate::text::append_str(&mut r, "Lines ");
        crate::text::push_decimal(&mut r, self.start_line);
        crate::text::append_str(&mut r, "-");
        crate::text::push_decimal(&mut r, self.end_line);
        r
    }
}

/// What the viewer hands back when the user opens the page shown for
/// editing.
pub struct ViewerOpenRequest {
    pub content: String,
    pub start_line: usize,
    pub end_line: usize,
    pub start_byte: u64,
    pub end_byte: u64,
}


// ---------------------------------------------------------------------------
// What the viewer's fields and keys ask for
// ---------------------------------------------------------------------------

/// The page (counted from 0) that the "Go to Page" field asks for: its
/// trimmed text read as a number of 1 or more.
pub open spec fn page_request_spec(s: Seq<char>) -> Option<nat> {
    match parse_usize_spec(trim_spec(s)) {
        Some(n) => if n >= 1 {
            Some((n - 1) as nat)
        } else {
            None
        },
        None => None,
    }
}

/// The page that the "Go to Page" field asks for (see `page_request_spec`).
pub fn page_request(input: &str) -> (r: Option<usize>)
    ensures
        r matches Some(p) ==> page_request_spec(input@) == Some(p as nat),
        r is None ==> page_request_spec(input@) is None,
{
    let v = chars_of(input);
    let (a, b) = trim_bounds(&v, 0, v.len());
    assert(v@.subrange(0, v@.len() as int) =~= input@);
    match parse_usize_chars(&v, a, b) {
        Some(n) => if n >= 1 {
            Some(n - 1)
        } else {
            None
        },
        None => None,
    }
}

/// What the "Go to Line" field asks for.
#[derive(Debug, Clone, Copy, PartialEq, Eq, Structural)]
pub enum GotoRequest {
    /// Show the lines from the first to the second (inclusive).
    Range(usize, usize),
    /// Show the page of the line.
    Line(usize),
    /// The text is neither a number nor a range.
    Invalid,
}

/// What the "Go to Line" text `s` asks for: split at its first `-` (or,
/// failing that, its first `:`), two trimmed numbers make a range; without
/// either, the whole text (untrimmed) is a line number.
pub open spec fn goto_request_spec(s: Seq<char>) -> GotoRequest {
    let split = match first_index_of(s, '-') {
        Some(k) => Some(k),
        None => first_index_of(s, ':'),
    };
    match split {
        Some(k) => match (parse_usize_spec(trim_spec(s.take(k))), parse_usize_spec(trim_spec(s.skip(k + 1)))) {
            (Some(a), Some(b)) => GotoRequest::Range(a as usize, b as usize),
            _ => GotoRequest::Invalid,
        },
        None => match parse_usize_spec(s) {
            Some(n) => GotoRequest::Line(n as usize),
            None => GotoRequest::Invalid,
        },
    }
}

/// What the "Go to Line" field asks for (see `goto_request_spec`).
pub fn goto_request(input: &str) -> (r: GotoRequest)
    ensures
        r == goto_request_spec(input@),
{
    let v = chars_of(input);
    let split = match find_char(&v, '-') {
        Some(k) => Some(k),
        None => find_char(&v, ':'),
    };
    match split {
        Some(k) => {
            let (a0, a1) = trim_bounds(&v, 0, k);
            let (b0, b1) = trim_bounds(&v, k + 1, v.len());
            assert(v@.subrange(0, k as int) =~= v@.take(k as int));
            assert(v@.subrange(k + 1, v@.len() as int) =~= v@.skip(k + 1));
            let first = parse_usize_chars(&v, a0, a1);
            let second = parse_usize_chars(&v, b0, b1);
            match (first, second) {
                (Some(a), Some(b)) => GotoRequest::Range(a, b),
                _ => GotoRequest::Invalid,
            }
        },
        None => {
            assert(v@.subrange(0, v@.len() as int) =~= v@);
            match parse_usize_chars(&v, 0, v.len()) {
                Some(n) => GotoRequest::Line(n),
                None => GotoRequest::Invalid,
            }
        },
    }
}

/// A page movement that a key asks for.
#[derive(Debug, Clone, Copy, PartialEq, Eq, Structural)]
pub enum PageKey {
    Prev,
    Next,
    First,
    Last,
}

/// What pressing `key` asks for: Page Up and Page Down move one page,
/// Ctrl+Home and Ctrl+End go to the first and the last page. Other keys
/// (Escape among them) are not the viewer's.
pub fn page_key(key: i32, ctrl: bool) -> (r: Option<PageKey>)
    ensures
        r == (if key == KEY_PAGE_UP {
            Some(PageKey::Prev)
        } else if key == KEY_PAGE_DOWN {
            Some(PageKey::Next)
        } else if key == KEY_HOME && ctrl {
            Some(PageKey::First)
        } else if key == KEY_END && ctrl {
            Some(PageKey::Last)
        } else {
            None
        }),
{
    if key == KEY_PAGE_UP {
        Some(PageKey::Prev)
    } else if key == KEY_PAGE_DOWN {
        Some(PageKey::Next)
    } else if key == KEY_HOME && ctrl {
        Some(PageKey::First)
    } else if key == KEY_END && ctrl {
        Some(PageKey::Last)
    } else {
        None
    }
}

} // verus!
