//! The Go To Line dialog's logic: reading the line number typed, counting
//! the text's lines, and the messages for bad input.

use vstd::prelude::*;

use crate::text::{chars_of, decimal, parse_usize_chars, parse_usize_spec, push_decimal, string_of, trim_bounds, trim_spec};

verus! {

/// The line number typed: the field's trimmed text read as a number.
pub fn line_number_input(input: &str) -> (r: Option<usize>)
    ensures
        r matches Some(n) ==> parse_usize_spec(trim_spec(input@)) == Some(n as nat),
        r is None ==> parse_usize_spec(trim_spec(input@)) is None,
{
    let v = chars_of(input);
    let (a, b) = trim_bounds(&v, 0, v.len());
    assert(v@.subrange(0, v@.len() as int) =~= input@);
    parse_usize_chars(&v, a, b)
}

/// The number of newline characters in `s`.
pub open spec fn count_char(s: Seq<char>, c: char) -> nat
    decreases s.len(),
{
    if s.len() == 0 {
        0
    } else {
        count_char(s.drop_last(), c) + if s.last() == c {
            1nat
        } else {
            0nat
        }
    }
}

/// The number of lines of `text`: one more than its newlines.
pub fn total_lines(text: &str) -> (r: usize)
    requires
        text@.len() < usize::MAX,
    ensures
        r == count_char(text@, '\n') + 1,
{
    let v = chars_of(text);
    let mut n: usize = 0;
    let mut k: usize = 0;
    assert(v@.take(0) =~= Seq::<char>::empty());
    while k < v.len()
        invariant
            k <= v@.len() < usize::MAX,
            n == count_char(v@.take(k as int), '\n'),
            n <= k,
        decreases v@.len() - k,
    {
        assert(v@.take(k + 1).drop_last() =~= v@.take(k as int));
        if v[k] == '\n' {
            n += 1;
        }
        k += 1;
    }
    assert(v@.take(k as int) =~= text@);
    n + 1
}

/// The message for a line number out of range.
pub fn out_of_range_message(total: usize) -> (r: String)
    ensures
        r@ == "Line number must be between 1 and "@ + decimal(total as nat),
{
    let mut s = string_of("Line number must be between 1 and ");
    push_decimal(&mut s, total);
    s
}

} // verus!
