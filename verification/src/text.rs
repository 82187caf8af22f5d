//! Character-level helpers shared by the parsers and formatters.

use vstd::prelude::*;

verus! {

/// Appends one character to a `String` (std's `String::push`).
#[verifier::external_body]
pub(crate) fn push_char(s: &mut String, c: char)
    ensures
        final(s)@ == old(s)@.push(c),
{
    s.push(c);
}

/// The characters of `s`, in order.
pub fn chars_of(s: &str) -> (r: Vec<char>)
    ensures
        r@ == s@,
{
    let mut r: Vec<char> = Vec::new();
    for c in it: s.chars()
        invariant
            it.seq() == s@,
            r@ == it.seq().take(it.index() as int),
    {
        r.push(c);
    }
    r
}

/// A `String` holding the characters `v[start..end]`.
pub fn string_from_range(v: &Vec<char>, start: usize, end: usize) -> (r: String)
    requires
        start <= end <= v.len(),
    ensures
        r@ == v@.subrange(start as int, end as int),
{
    let mut r = String::new();
    let mut i = start;
    while i < end
        invariant
            start <= i <= end <= v.len(),
            r@ == v@.subrange(start as int, i as int),
        decreases end - i,
    {
        push_char(&mut r, v[i]);
        assert(v@.subrange(start as int, i + 1) == v@.subrange(start as int, i as int).push(v@[i as int]));
        i += 1;
    }
    r
}


/// Whether `c` has the Unicode `White_Space` property, the set that
/// `char::is_whitespace` (and so `str::trim`) recognises.
pub open spec fn is_unicode_whitespace(c: char) -> bool {
    ||| ('\u{9}' <= c && c <= '\u{D}')
    ||| c == ' '
    ||| c == '\u{85}'
    ||| c == '\u{A0}'
    ||| c == '\u{1680}'
    ||| ('\u{2000}' <= c && c <= '\u{200A}')
    ||| c == '\u{2028}'
    ||| c == '\u{2029}'
    ||| c == '\u{202F}'
    ||| c == '\u{205F}'
    ||| c == '\u{3000}'
}

/// Executable form of `is_unicode_whitespace`.
pub fn is_whitespace(c: char) -> (r: bool)
    ensures
        r == is_unicode_whitespace(c),
{
    ('\u{9}' <= c && c <= '\u{D}') || c == ' ' || c == '\u{85}' || c == '\u{A0}' || c == '\u{1680}'
        || ('\u{2000}' <= c && c <= '\u{200A}') || c == '\u{2028}' || c == '\u{2029}' || c
        == '\u{202F}' || c == '\u{205F}' || c == '\u{3000}'
}

/// Number of leading whitespace characters of `s`.
pub open spec fn leading_ws(s: Seq<char>) -> nat
    decreases s.len(),
{
    if s.len() > 0 && is_unicode_whitespace(s[0]) {
        1 + leading_ws(s.drop_first())
    } else {
        0
    }
}

/// Number of trailing whitespace characters of `s`.
pub open spec fn trailing_ws(s: Seq<char>) -> nat
    decreases s.len(),
{
    if s.len() > 0 && is_unicode_whitespace(s.last()) {
        1 + trailing_ws(s.drop_last())
    } else {
        0
    }
}

/// `s` without leading and trailing whitespace (what `str::trim` returns).
pub open spec fn trim_spec(s: Seq<char>) -> Seq<char> {
    let front = s.skip(leading_ws(s) as int);
    front.take(front.len() - trailing_ws(front))
}

/// `i` leading whitespace characters, before a non-whitespace one (or the
/// end), are what `leading_ws` counts.
proof fn lemma_leading_ws(s: Seq<char>, i: int)
    requires
        0 <= i <= s.len(),
        forall|j: int| 0 <= j < i ==> is_unicode_whitespace(#[trigger] s[j]),
        i == s.len() || !is_unicode_whitespace(s[i]),
    ensures
        leading_ws(s) == i,
    decreases i,
{
    if i > 0 {
        assert(forall|j: int| 0 <= j < i - 1 ==> s.drop_first()[j] == s[j + 1]);
        lemma_leading_ws(s.drop_first(), i - 1);
    }
}

/// `k` trailing whitespace characters, before a non-whitespace one (or the
/// start), are what `trailing_ws` counts.
pub proof fn lemma_trailing_ws(s: Seq<char>, k: int)
    requires
        0 <= k <= s.len(),
        forall|j: int| s.len() - k <= j < s.len() ==> is_unicode_whitespace(#[trigger] s[j]),
        k == s.len() || !is_unicode_whitespace(s[s.len() - k - 1]),
    ensures
        trailing_ws(s) == k,
    decreases k,
{
    if k > 0 {
        assert(forall|j: int| 0 <= j < s.len() - 1 ==> s.drop_last()[j] == s[j]);
        lemma_trailing_ws(s.drop_last(), k - 1);
    }
}

/// The bounds `(start, end)` of `v[lo..hi]` once whitespace is trimmed from
/// both ends.
pub fn trim_bounds(v: &Vec<char>, lo: usize, hi: usize) -> (r: (usize, usize))
    requires
        lo <= hi <= v.len(),
    ensures
        lo <= r.0 <= r.1 <= hi,
        v@.subrange(r.0 as int, r.1 as int) == trim_spec(v@.subrange(lo as int, hi as int)),
{
    let ghost s = v@.subrange(lo as int, hi as int);
    let mut a = lo;
    while a < hi && is_whitespace(v[a])
        invariant
            lo <= a <= hi <= v.len(),
            s == v@.subrange(lo as int, hi as int),
            forall|j: int| lo <= j < a ==> is_unicode_whitespace(v@[j]),
        decreases hi - a,
    {
        a += 1;
    }
    proof {
        lemma_leading_ws(s, a - lo);
    }
    let ghost front = s.skip(a - lo);
    assert(front =~= v@.subrange(a as int, hi as int));
    let mut b = hi;
    while b > a && is_whitespace(v[b - 1])
        invariant
            lo <= a <= b <= hi <= v.len(),
            front == v@.subrange(a as int, hi as int),
            forall|j: int| b <= j < hi ==> is_unicode_whitespace(v@[j]),
        decreases b - a,
    {
        b -= 1;
    }
    proof {
        lemma_trailing_ws(front, (hi - b) as int);
        assert(v@.subrange(a as int, b as int) =~= front.take(front.len() - trailing_ws(front)));
    }
    (a, b)
}

/// Index of the first `c` in `s`, if any.
pub open spec fn first_index_of(s: Seq<char>, c: char) -> Option<int> {
    if exists|k: int| 0 <= k < s.len() && s[k] == c {
        Some(choose|k: int| 0 <= k < s.len() && s[k] == c && forall|j: int| 0 <= j < k ==> s[j] != c)
    } else {
        None
    }
}

/// The index of the first `c` in `v`, if any (see `first_index_of`).
pub fn find_char(v: &Vec<char>, c: char) -> (r: Option<usize>)
    ensures
        r matches Some(k) ==> k < v@.len() && first_index_of(v@, c) == Some(k as int),
        r is None ==> first_index_of(v@, c) is None,
{
    let mut k: usize = 0;
    while k < v.len()
        invariant
            k <= v@.len(),
            forall|j: int| 0 <= j < k ==> v@[j] != c,
        decreases v@.len() - k,
    {
        if v[k] == c {
            proof {
                let w = choose|w: int| 0 <= w < v@.len() && v@[w] == c && forall|j: int| 0 <= j < w ==> v@[j] != c;
                assert(0 <= k < v@.len() && v@[k as int] == c && forall|j: int| 0 <= j < k ==> v@[j] != c);
                assert(w == k as int) by {
                    if w < k {
                    } else if w > k {
                        assert(v@[k as int] != c);
                    }
                }
            }
            return Some(k);
        }
        k += 1;
    }
    None
}

/// The pieces joined with `sep` between consecutive ones.
pub open spec fn join_spec(parts: Seq<Seq<char>>, sep: Seq<char>) -> Seq<char>
    decreases parts.len(),
{
    if parts.len() == 0 {
        Seq::empty()
    } else if parts.len() == 1 {
        parts[0]
    } else {
        join_spec(parts.drop_last(), sep) + sep + parts.last()
    }
}

/// The pieces of `s` between occurrences of `sep` (what `str::split`
/// yields for a single-character pattern): always at least one piece.
pub open spec fn split_spec(s: Seq<char>, sep: char) -> Seq<Seq<char>>
    decreases s.len(),
{
    if s.len() == 0 {
        seq![Seq::empty()]
    } else {
        let rest = split_spec(s.drop_first(), sep);
        if s[0] == sep {
            seq![Seq::empty()] + rest
        } else {
            rest.update(0, seq![s[0]] + rest[0])
        }
    }
}

/// Splitting always gives at least one piece.
pub proof fn lemma_split_len(s: Seq<char>, sep: char)
    ensures
        split_spec(s, sep).len() >= 1,
    decreases s.len(),
{
    if s.len() > 0 {
        lemma_split_len(s.drop_first(), sep);
    }
}

/// There is at most one more piece than there are characters.
pub proof fn lemma_split_len_le(s: Seq<char>, sep: char)
    ensures
        split_spec(s, sep).len() <= s.len() + 1,
    decreases s.len(),
{
    if s.len() > 0 {
        lemma_split_len_le(s.drop_first(), sep);
        lemma_split_len(s.drop_first(), sep);
    }
}

/// Joining one more piece adds the separator (unless it is the first) and
/// the piece.
pub proof fn lemma_join_take(parts: Seq<Seq<char>>, sep: Seq<char>, i: int)
    requires
        0 <= i < parts.len(),
    ensures
        join_spec(parts.take(i + 1), sep) == join_spec(parts.take(i), sep) + (if i > 0 {
            sep
        } else {
            Seq::empty()
        }) + parts[i],
{
    assert(parts.take(i + 1).drop_last() =~= parts.take(i));
    if i == 0 {
        assert(join_spec(parts.take(0), sep) =~= Seq::<char>::empty());
        assert(join_spec(parts.take(i), sep) + Seq::<char>::empty() + parts[i] =~= parts[i]);
    }
}

/// Splitting `s` whose first `sep` is at `k`: the first piece is `s[..k]`,
/// the rest is the split of `s[k + 1..]`.
pub proof fn lemma_split_at_sep(s: Seq<char>, sep: char, k: int)
    requires
        0 <= k < s.len(),
        s[k] == sep,
        forall|j: int| 0 <= j < k ==> s[j] != sep,
    ensures
        split_spec(s, sep) == seq![s.take(k)] + split_spec(s.skip(k + 1), sep),
    decreases k,
{
    if k == 0 {
        assert(s.drop_first() =~= s.skip(1));
        assert(s.take(0) =~= Seq::<char>::empty());
    } else {
        lemma_split_at_sep(s.drop_first(), sep, k - 1);
        assert(s.drop_first().skip(k) =~= s.skip(k + 1));
        assert(seq![s[0]] + s.drop_first().take(k - 1) =~= s.take(k));
        lemma_split_len(s.skip(k + 1), sep);
        assert(split_spec(s, sep) =~= seq![s.take(k)] + split_spec(s.skip(k + 1), sep));
    }
}

/// Splitting `s` that holds no `sep` gives `s` alone.
pub proof fn lemma_split_none(s: Seq<char>, sep: char)
    requires
        forall|j: int| 0 <= j < s.len() ==> s[j] != sep,
    ensures
        split_spec(s, sep) == seq![s],
    decreases s.len(),
{
    if s.len() > 0 {
        lemma_split_none(s.drop_first(), sep);
        assert(seq![s[0]] + s.drop_first() =~= s);
        assert(split_spec(s, sep) =~= seq![s]);
    } else {
        assert(s =~= Seq::<char>::empty());
    }
}

/// The `(start, end)` bounds, in `v`, of the pieces of `v` between
/// occurrences of `sep`.
pub fn split_bounds(v: &Vec<char>, sep: char) -> (r: Vec<(usize, usize)>)
    ensures
        r.len() == split_spec(v@, sep).len(),
        forall|i: int|
            0 <= i < r.len() ==> {
                &&& (#[trigger] r@[i]).0 <= r@[i].1 <= v.len()
                &&& v@.subrange(r@[i].0 as int, r@[i].1 as int) == split_spec(v@, sep)[i]
            },
{
    let mut r: Vec<(usize, usize)> = Vec::new();
    let mut start: usize = 0;
    let mut i: usize = 0;
    assert(v@.skip(0) =~= v@);
    assert(r@.map_values(|p: (usize, usize)| v@.subrange(p.0 as int, p.1 as int)) + split_spec(v@, sep)
        =~= split_spec(v@, sep));
    while i < v.len()
        invariant
            start <= i <= v.len(),
            forall|j: int| start <= j < i ==> v@[j] != sep,
            split_spec(v@, sep) == r@.map_values(
                |p: (usize, usize)| v@.subrange(p.0 as int, p.1 as int),
            ) + split_spec(v@.skip(start as int), sep),
            forall|k: int|
                0 <= k < r.len() ==> (#[trigger] r@[k]).0 <= r@[k].1 <= v.len(),
        decreases v.len() - i,
    {
        if v[i] == sep {
            proof {
                let t = v@.skip(start as int);
                assert forall|j: int| 0 <= j < i - start implies t[j] != sep by {
                    assert(t[j] == v@[start + j]);
                }
                lemma_split_at_sep(t, sep, i - start);
                assert(t.take(i - start) =~= v@.subrange(start as int, i as int));
                assert(t.skip(i - start + 1) =~= v@.skip(i + 1));
            }
            let ghost old_r = r@;
            r.push((start, i));
            proof {
                assert(r@.map_values(|p: (usize, usize)| v@.subrange(p.0 as int, p.1 as int))
                    =~= old_r.map_values(|p: (usize, usize)| v@.subrange(p.0 as int, p.1 as int))
                    + seq![v@.subrange(start as int, i as int)]);
            }
            start = i + 1;
        }
        i += 1;
    }
    proof {
        let t = v@.skip(start as int);
        assert forall|j: int| 0 <= j < t.len() implies t[j] != sep by {
            assert(t[j] == v@[start + j]);
        }
        lemma_split_none(t, sep);
        assert(t =~= v@.subrange(start as int, v.len() as int));
    }
    let ghost old_r = r@;
    r.push((start, v.len()));
    proof {
        assert(r@.map_values(|p: (usize, usize)| v@.subrange(p.0 as int, p.1 as int))
            =~= old_r.map_values(|p: (usize, usize)| v@.subrange(p.0 as int, p.1 as int))
            + seq![v@.subrange(start as int, v.len() as int)]);
        let m = r@.map_values(|p: (usize, usize)| v@.subrange(p.0 as int, p.1 as int));
        assert forall|i: int| 0 <= i < r.len() implies v@.subrange(r@[i].0 as int, r@[i].1 as int)
            == split_spec(v@, sep)[i] by {
            assert(m[i] == v@.subrange(r@[i].0 as int, r@[i].1 as int));
        }
    }
    r
}

/// Whether `v[lo..hi]` spells `lit`.
pub fn range_equals(v: &Vec<char>, lo: usize, hi: usize, lit: &str) -> (r: bool)
    requires
        lo <= hi <= v.len(),
    ensures
        r == (v@.subrange(lo as int, hi as int) == lit@),
{
    let l = chars_of(lit);
    if hi - lo != l.len() {
        return false;
    }
    let mut i: usize = 0;
    while i < l.len()
        invariant
            hi - lo == l.len(),
            lo <= hi <= v.len(),
            l@ == lit@,
            i <= l.len(),
            forall|j: int| 0 <= j < i ==> v@[lo + j] == l@[j],
        decreases l.len() - i,
    {
        if v[lo + i] != l[i] {
            assert(v@.subrange(lo as int, hi as int)[i as int] != lit@[i as int]);
            return false;
        }
        i += 1;
    }
    assert(v@.subrange(lo as int, hi as int) =~= lit@);
    true
}


/// `s` without leading and trailing whitespace (what `str::trim` gives).
pub fn trimmed(s: &str) -> (r: String)
    ensures
        r@ == trim_spec(s@),
{
    let v = chars_of(s);
    let (a, b) = trim_bounds(&v, 0, v.len());
    assert(v@.subrange(0, v@.len() as int) =~= s@);
    string_from_range(&v, a, b)
}

/// Whether `a` and `b` hold the same characters.
pub fn same_text(a: &str, b: &str) -> (r: bool)
    ensures
        r == (a@ == b@),
{
    let va = chars_of(a);
    let vb = chars_of(b);
    if va.len() != vb.len() {
        return false;
    }
    let mut i: usize = 0;
    while i < va.len()
        invariant
            i <= va@.len() == vb@.len(),
            forall|j: int| 0 <= j < i ==> va@[j] == vb@[j],
            va@ == a@,
            vb@ == b@,
        decreases va@.len() - i,
    {
        if va[i] != vb[i] {
            assert(va@[i as int] != vb@[i as int]);
            return false;
        }
        i += 1;
    }
    assert(va@ =~= vb@);
    true
}

/// What `str::to_lowercase` returns for the characters `s` (full Unicode
/// lowercasing, including the word-final sigma rule).
pub uninterp spec fn str_to_lowercase(s: Seq<char>) -> Seq<char>;

/// Whether every character of `s` is ASCII.
pub open spec fn all_ascii(s: Seq<char>) -> bool {
    forall|i: int| 0 <= i < s.len() ==> (#[trigger] s[i]) as u32 <= 0x7f
}

/// The ASCII lowercase form of `c`: `A`-`Z` become `a`-`z`, anything else
/// stays.
pub open spec fn ascii_to_lower(c: char) -> char {
    if 'A' <= c && c <= 'Z' {
        ((c as u32) + 32) as char
    } else {
        c
    }
}

/// `ascii_to_lower` applied to every character.
pub open spec fn ascii_lowercase(s: Seq<char>) -> Seq<char> {
    s.map_values(|c: char| ascii_to_lower(c))
}

/// The ASCII uppercase form of `c`: `a`-`z` become `A`-`Z`, anything else
/// stays.
pub open spec fn ascii_to_upper(c: char) -> char {
    if 'a' <= c && c <= 'z' {
        ((c as u32) - 32) as char
    } else {
        c
    }
}

/// Calls `str::to_lowercase`. Claims that the result is `str_to_lowercase`
/// of the input, and, for text that is all ASCII, the text with its
/// letters `A`-`Z` lowercased and nothing else changed (the Unicode
/// lowercase mapping of an ASCII character is its ASCII lowercase). Unicode
/// case mapping beyond ASCII is not restated.
#[verifier::external_body]
pub(crate) fn to_lowercase(s: &str) -> (r: String)
    ensures
        r@ == str_to_lowercase(s@),
        all_ascii(s@) ==> r@ == ascii_lowercase(s@),
{
    s.to_lowercase()
}

/// What `char::to_uppercase` yields for `c` (one to three characters).
pub uninterp spec fn char_to_uppercase(c: char) -> Seq<char>;

/// Calls `char::to_uppercase` and collects the characters it yields.
/// Claims that they are `char_to_uppercase(c)`, and, for an ASCII
/// character, that one character comes out: its ASCII uppercase (`a`-`z`
/// become `A`-`Z`; any other ASCII character has no uppercase mapping and
/// comes out unchanged). Unicode case mapping beyond ASCII is not restated.
#[verifier::external_body]
pub(crate) fn uppercase_of(c: char) -> (r: Vec<char>)
    ensures
        r@ == char_to_uppercase(c),
        c as u32 <= 0x7f ==> r@ == seq![ascii_to_upper(c)],
{
    c.to_uppercase().collect()
}

/// A `String` holding the characters of `s`.
pub fn string_of(s: &str) -> (r: String)
    ensures
        r@ == s@,
{
    let v = chars_of(s);
    let r = string_from_range(&v, 0, v.len());
    assert(v@.subrange(0, v.len() as int) =~= v@);
    r
}

/// Appends the characters `v[lo..hi]` to `s`.
pub fn append_range(s: &mut String, v: &Vec<char>, lo: usize, hi: usize)
    requires
        lo <= hi <= v.len(),
    ensures
        final(s)@ == old(s)@ + v@.subrange(lo as int, hi as int),
{
    let mut i = lo;
    while i < hi
        invariant
            lo <= i <= hi <= v.len(),
            s@ == old(s)@ + v@.subrange(lo as int, i as int),
        decreases hi - i,
    {
        push_char(s, v[i]);
        assert(old(s)@ + v@.subrange(lo as int, i + 1) =~= old(s)@ + v@.subrange(lo as int, i as int)
            + seq![v@[i as int]]);
        i += 1;
    }
}

/// Appends the characters of `t` to `s`.
pub fn append_str(s: &mut String, t: &str)
    ensures
        final(s)@ == old(s)@ + t@,
{
    let v = chars_of(t);
    append_range(s, &v, 0, v.len());
    assert(v@.subrange(0, v.len() as int) =~= t@);
}

/// Whether `s` ends with `suffix`.
pub fn ends_with(s: &Vec<char>, suffix: &Vec<char>) -> (r: bool)
    ensures
        r == (suffix.len() <= s.len() && s@.skip(s.len() - suffix.len()) == suffix@),
{
    if suffix.len() > s.len() {
        return false;
    }
    let off = s.len() - suffix.len();
    let mut i: usize = 0;
    while i < suffix.len()
        invariant
            off + suffix.len() == s.len(),
            i <= suffix.len(),
            forall|j: int| 0 <= j < i ==> s@[off + j] == suffix@[j],
        decreases suffix.len() - i,
    {
        if s[off + i] != suffix[i] {
            assert(s@.skip(off as int)[i as int] != suffix@[i as int]);
            return false;
        }
        i += 1;
    }
    assert(s@.skip(off as int) =~= suffix@);
    true
}

/// Whether `s` starts with `prefix`.
pub fn starts_with(s: &Vec<char>, prefix: &Vec<char>) -> (r: bool)
    ensures
        r == (prefix.len() <= s.len() && s@.take(prefix.len() as int) == prefix@),
{
    if prefix.len() > s.len() {
        return false;
    }
    let mut i: usize = 0;
    while i < prefix.len()
        invariant
            prefix.len() <= s.len(),
            i <= prefix.len(),
            forall|j: int| 0 <= j < i ==> s@[j] == prefix@[j],
        decreases prefix.len() - i,
    {
        if s[i] != prefix[i] {
            assert(s@.take(prefix.len() as int)[i as int] != prefix@[i as int]);
            return false;
        }
        i += 1;
    }
    assert(s@.take(prefix.len() as int) =~= prefix@);
    true
}


// ---------------------------------------------------------------------------
// Decimal numbers
// ---------------------------------------------------------------------------

/// Whether `c` is an ASCII decimal digit.
pub open spec fn is_digit(c: char) -> bool {
    '0' <= c && c <= '9'
}

/// The decimal value of a string of digits.
pub open spec fn decimal_value(s: Seq<char>) -> nat
    decreases s.len(),
{
    if s.len() == 0 {
        0
    } else {
        decimal_value(s.drop_last()) * 10 + ((s.last() as u32) - ('0' as u32)) as nat
    }
}

/// The character of the digit `d` (`0 <= d < 10`).
pub open spec fn digit_char(d: nat) -> char {
    (d + 48) as char
}

/// The decimal representation of `n`, without leading zeros.
pub open spec fn decimal(n: nat) -> Seq<char>
    decreases n,
{
    if n < 10 {
        seq![digit_char(n)]
    } else {
        decimal(n / 10) + seq![digit_char(n % 10)]
    }
}

/// `s` right-aligned in a field `width` characters wide (padded on the
/// left with spaces; never cut).
pub open spec fn pad_left(s: Seq<char>, width: nat) -> Seq<char> {
    if s.len() < width {
        Seq::new((width - s.len()) as nat, |i: int| ' ') + s
    } else {
        s
    }
}

/// Reading the decimal representation back gives the number.
pub proof fn lemma_decimal_roundtrip(n: nat)
    ensures
        decimal(n).len() >= 1,
        forall|i: int| 0 <= i < decimal(n).len() ==> is_digit(#[trigger] decimal(n)[i]),
        decimal_value(decimal(n)) == n,
    decreases n,
{
    assert((digit_char(n % 10) as u32) == n % 10 + 48);
    if n < 10 {
        assert(decimal(n).drop_last() =~= Seq::<char>::empty());
        assert(n % 10 == n);
        assert(decimal(n).last() == digit_char(n));
        assert(decimal_value(decimal(n)) == decimal_value(decimal(n).drop_last()) * 10 + ((digit_char(n) as u32) - ('0' as u32)) as nat);
    }
    if n >= 10 {
        lemma_decimal_roundtrip(n / 10);
        let d = decimal(n / 10) + seq![digit_char(n % 10)];
        assert(d.drop_last() =~= decimal(n / 10));
        assert(d.last() == digit_char(n % 10));
        assert(decimal_value(d) == decimal_value(decimal(n / 10)) * 10 + n % 10);
        assert(n == (n / 10) * 10 + n % 10);
        assert(decimal(n) == d);
        assert(decimal_value(decimal(n)) == n);
        assert forall|i: int| 0 <= i < d.len() implies is_digit(#[trigger] d[i]) by {
            if i < d.len() - 1 {
                assert(d[i] == decimal(n / 10)[i]);
            }
        }
    }
}

/// The number of decimal digits of `n` (at least 1).
pub fn decimal_len(n: usize) -> (r: usize)
    ensures
        r == decimal(n as nat).len(),
        1 <= r <= 20,
{
    proof {
        lemma_decimal_len_bound(n as nat);
    }
    let mut r: usize = 1;
    let mut m: usize = n;
    while m >= 10
        invariant
            1 <= r,
            decimal(n as nat).len() <= 20,
            decimal(n as nat).len() == decimal(m as nat).len() + r - 1,
        decreases m,
    {
        proof {
            lemma_decimal_roundtrip((m / 10) as nat);
        }
        m = m / 10;
        r = r + 1;
    }
    r
}

pub open spec fn pow10(k: nat) -> nat
    decreases k,
{
    if k == 0 {
        1
    } else {
        10 * pow10((k - 1) as nat)
    }
}

proof fn lemma_decimal_len_bound(n: nat)
    ensures
        n <= usize::MAX ==> decimal(n).len() <= 20,
{
    lemma_decimal_roundtrip(n);
    if n <= usize::MAX && decimal(n).len() > 20 {
        lemma_pow10_mono(20, (decimal(n).len() - 1) as nat);
        lemma_decimal_lower(n);
        assert(pow10(20) == 100000000000000000000nat) by {
            reveal_with_fuel(pow10, 21);
        }
    }
}

proof fn lemma_pow10_mono(a: nat, b: nat)
    requires
        a <= b,
    ensures
        pow10(a) <= pow10(b),
    decreases b,
{
    if a < b {
        lemma_pow10_mono(a, (b - 1) as nat);
    }
}

proof fn lemma_decimal_lower(n: nat)
    ensures
        n >= 10 ==> pow10((decimal(n).len() - 1) as nat) <= n,
    decreases n,
{
    lemma_decimal_roundtrip(n);
    if n >= 10 {
        lemma_decimal_lower(n / 10);
        lemma_decimal_roundtrip(n / 10);
        let k = decimal(n / 10).len();
        assert(decimal(n).len() == k + 1);
        assert(pow10(k) == 10 * pow10((k - 1) as nat));
        if n / 10 >= 10 {
            assert(pow10((k - 1) as nat) <= n / 10);
            assert(10 * pow10((k - 1) as nat) <= 10 * (n / 10));
        } else {
            assert(k == 1);
            assert(pow10(0) == 1);
        }
    }
}

/// Appends the decimal representation of `n` to `s`.
pub fn push_decimal(s: &mut String, n: usize)
    ensures
        final(s)@ == old(s)@ + decimal(n as nat),
    decreases n,
{
    if n >= 10 {
        push_decimal(s, n / 10);
    }
    let d: u32 = (n % 10) as u32;
    let c = char_of_digit(d);
    push_char(s, c);
}

fn char_of_digit(d: u32) -> (c: char)
    requires
        d < 10,
    ensures
        c == digit_char(d as nat),
{
    match d {
        0 => '0',
        1 => '1',
        2 => '2',
        3 => '3',
        4 => '4',
        5 => '5',
        6 => '6',
        7 => '7',
        8 => '8',
        _ => '9',
    }
}

/// Appends `n` to `s` right-aligned in a field `width` characters wide.
pub fn push_padded_decimal(s: &mut String, n: usize, width: usize)
    ensures
        final(s)@ == old(s)@ + pad_left(decimal(n as nat), width as nat),
{
    let len = decimal_len(n);
    let ghost before = s@;
    if len < width {
        let mut k: usize = len;
        while k < width
            invariant
                len <= k <= width,
                s@ == before + Seq::new((k - len) as nat, |i: int| ' '),
            decreases width - k,
        {
            push_char(s, ' ');
            assert(before + Seq::new((k + 1 - len) as nat, |i: int| ' ') =~= before + Seq::new(
                (k - len) as nat,
                |i: int| ' ',
            ).push(' '));
            k += 1;
        }
    }
    let ghost mid = s@;
    push_decimal(s, n);
    proof {
        if len < width {
            assert(s@ =~= before + pad_left(decimal(n as nat), width as nat));
        } else {
            assert(s@ =~= before + pad_left(decimal(n as nat), width as nat));
        }
    }
}

/// `s` without a leading `+`.
pub open spec fn unsigned_digits(s: Seq<char>) -> Seq<char> {
    if s.len() > 0 && s[0] == '+' {
        s.drop_first()
    } else {
        s
    }
}

/// Whether every character of `d` is an ASCII digit.
pub open spec fn all_digits(d: Seq<char>) -> bool {
    forall|i: int| 0 <= i < d.len() ==> is_digit(#[trigger] d[i])
}

/// What `str::parse::<usize>` accepts: an optional `+`, then one or more
/// ASCII digits whose value fits in `usize`.
pub open spec fn parse_usize_spec(s: Seq<char>) -> Option<nat> {
    let d = unsigned_digits(s);
    if d.len() > 0 && all_digits(d) && decimal_value(d) <= usize::MAX {
        Some(decimal_value(d))
    } else {
        None
    }
}

proof fn lemma_decimal_prefix_le(s: Seq<char>, k: int)
    requires
        0 <= k <= s.len(),
        forall|i: int| 0 <= i < s.len() ==> is_digit(#[trigger] s[i]),
    ensures
        decimal_value(s.take(k)) <= decimal_value(s),
    decreases s.len(),
{
    if k < s.len() {
        assert(s.drop_last().take(k) =~= s.take(k));
        lemma_decimal_prefix_le(s.drop_last(), k);
    } else {
        assert(s.take(k) =~= s);
    }
}

/// Parses a decimal `usize` as `str::parse::<usize>` does (see
/// `parse_usize_spec`).
pub fn parse_usize(s: &str) -> (r: Option<usize>)
    ensures
        r matches Some(n) ==> parse_usize_spec(s@) == Some(n as nat),
        r is None ==> parse_usize_spec(s@) is None,
{
    let v = chars_of(s);
    let r = parse_usize_chars(&v, 0, v.len());
    assert(v@.subrange(0, v@.len() as int) =~= s@);
    r
}

/// Parses the characters `v[lo..hi]` as `str::parse::<usize>` does.
pub fn parse_usize_chars(v: &Vec<char>, lo: usize, hi: usize) -> (r: Option<usize>)
    requires
        lo <= hi <= v@.len(),
    ensures
        r matches Some(n) ==> parse_usize_spec(v@.subrange(lo as int, hi as int)) == Some(n as nat),
        r is None ==> parse_usize_spec(v@.subrange(lo as int, hi as int)) is None,
{
    let ghost s = v@.subrange(lo as int, hi as int);
    let start: usize = if lo < hi && v[lo] == '+' {
        lo + 1
    } else {
        lo
    };
    let ghost d = unsigned_digits(s);
    assert(d =~= v@.subrange(start as int, hi as int));
    if start >= hi {
        assert(d.len() == 0);
        return None;
    }
    let mut value: usize = 0;
    let mut i: usize = start;
    assert(v@.subrange(start as int, start as int) =~= Seq::<char>::empty());
    while i < hi
        invariant
            start <= i <= hi <= v@.len(),
            d == v@.subrange(start as int, hi as int),
            d == unsigned_digits(s),
            s == v@.subrange(lo as int, hi as int),
            forall|j: int| start <= j < i ==> is_digit(#[trigger] v@[j]),
            value == decimal_value(v@.subrange(start as int, i as int)),
        decreases hi - i,
    {
        let c = v[i];
        if !('0' <= c && c <= '9') {
            assert(!is_digit(d[i - start]));
            return None;
        }
        let digit: usize = ((c as u32) - ('0' as u32)) as usize;
        assert(v@.subrange(start as int, i + 1).drop_last() =~= v@.subrange(start as int, i as int));
        assert(v@.subrange(start as int, i + 1).last() == c);
        assert(decimal_value(v@.subrange(start as int, i + 1)) == value * 10 + digit);
        assert(d.take(i + 1 - start) =~= v@.subrange(start as int, i + 1));
        match value.checked_mul(10) {
            None => {
                proof {
                    if all_digits(d) {
                        lemma_decimal_prefix_le(d, i + 1 - start);
                    }
                }
                return None;
            },
            Some(m) => match m.checked_add(digit) {
                None => {
                    proof {
                        if all_digits(d) {
                            lemma_decimal_prefix_le(d, i + 1 - start);
                        }
                    }
                    return None;
                },
                Some(nv) => {
                    value = nv;
                },
            },
        }
        i += 1;
    }
    Some(value)
}


/// What `str::parse::<i32>` accepts: an optional sign, then one or more
/// ASCII digits whose signed value fits in `i32`.
pub open spec fn parse_i32_spec(s: Seq<char>) -> Option<int> {
    let neg = s.len() > 0 && s[0] == '-';
    let d = if s.len() > 0 && (s[0] == '-' || s[0] == '+') {
        s.drop_first()
    } else {
        s
    };
    if d.len() > 0 && all_digits(d) {
        let v = decimal_value(d);
        if neg && v <= 0x8000_0000 {
            Some(-v)
        } else if !neg && v <= 0x7fff_ffff {
            Some(v as int)
        } else {
            None
        }
    } else {
        None
    }
}

/// Parses a decimal `i32` as `str::parse::<i32>` does (see
/// `parse_i32_spec`).
pub fn parse_i32(s: &str) -> (r: Option<i32>)
    ensures
        r matches Some(n) ==> parse_i32_spec(s@) == Some(n as int),
        r is None ==> parse_i32_spec(s@) is None,
{
    let v = chars_of(s);
    let n = v.len();
    let neg = n > 0 && v[0] == '-';
    let start: usize = if n > 0 && (v[0] == '-' || v[0] == '+') {
        1
    } else {
        0
    };
    let ghost d = if s@.len() > 0 && (s@[0] == '-' || s@[0] == '+') {
        s@.drop_first()
    } else {
        s@
    };
    assert(d =~= v@.subrange(start as int, n as int));
    if start >= n {
        return None;
    }
    if v[start] == '+' {
        assert(!is_digit(d[0]));
        return None;
    }
    assert(unsigned_digits(d) == d);
    match parse_usize_chars(&v, start, n) {
        None => None,
        Some(value) => {
            if neg {
                if value <= 0x8000_0000 {
                    let r: i64 = -(value as i64);
                    Some(r as i32)
                } else {
                    None
                }
            } else if value <= 0x7fff_ffff {
                Some(value as i32)
            } else {
                None
            }
        },
    }
}


/// Reading back the decimal text of a number that fits in `usize` gives the
/// number.
pub proof fn lemma_parse_decimal_roundtrip(n: nat)
    requires
        n <= usize::MAX,
    ensures
        parse_usize_spec(decimal(n)) == Some(n),
{
    lemma_decimal_roundtrip(n);
    let d = decimal(n);
    assert(d[0] != '+');
    assert(unsigned_digits(d) == d);
    assert(all_digits(d));
}

} // verus!
