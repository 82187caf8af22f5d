//! The "file too large" dialog's outcome, and the line range its fields
//! ask for.

use vstd::prelude::*;

use crate::text::{chars_of, parse_usize_chars, parse_usize_spec, trim_bounds, trim_spec};

verus! {

/// What the user chose for a file above the editable size.
#[derive(Debug, Clone, Copy, PartialEq, Eq, Structural)]
pub enum TooLargeAction {
    /// Do not open the file.
    Cancel,
    /// Open the last lines of the file.
    OpenTail,
    /// Open the file in the read-only viewer.
    ViewReadOnly,
    /// Open lines `start` to `end` for editing.
    OpenChunk(usize, usize),
}

fn trimmed_number(input: &str) -> (r: Option<usize>)
    ensures
        r matches Some(n) ==> parse_usize_spec(trim_spec(input@)) == Some(n as nat),
        r is None ==> parse_usize_spec(trim_spec(input@)) is None,
{
    let v = chars_of(input);
    let (a, b) = trim_bounds(&v, 0, v.len());
    assert(v@.subrange(0, v@.len() as int) =~= input@);
    parse_usize_chars(&v, a, b)
}

/// The chunk the "Open Lines" fields ask for: each field's trimmed number,
/// or 1 for the first line and 10000 for the last when it is not one.
pub fn chunk_action(start_input: &str, end_input: &str) -> (r: TooLargeAction)
    ensures
        r == TooLargeAction::OpenChunk(
            match parse_usize_spec(trim_spec(start_input@)) {
                Some(n) => n as usize,
                None => 1,
            },
            match parse_usize_spec(trim_spec(end_input@)) {
                Some(n) => n as usize,
                None => 10000,
            },
        ),
{
    let start = match trimmed_number(start_input) {
        Some(n) => n,
        None => 1,
    };
    let end = match trimmed_number(end_input) {
        Some(n) => n,
        None => 10000,
    };
    TooLargeAction::OpenChunk(start, end)
}

} // verus!
