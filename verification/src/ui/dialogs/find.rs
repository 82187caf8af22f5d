//! The find and replace dialog's state: where a search starts, when it
//! wraps around, where the cursor goes after a match or a replacement, and
//! the messages it shows. The searches themselves run on the editor's
//! text outside this module; their outcomes come back here.

use vstd::prelude::*;

use crate::text::{append_str, push_decimal, same_text, str_to_lowercase, string_of, to_lowercase};

verus! {

/// The query of the last search and where the next one starts.
pub struct FindState {
    search_text: String,
    search_pos: usize,
}

impl View for FindState {
    type V = (Seq<char>, nat);

    closed spec fn view(&self) -> (Seq<char>, nat) {
        (self.search_text@, self.search_pos as nat)
    }
}

impl FindState {
    /// No search yet: an empty query, starting at 0.
    pub fn new() -> (s: Self)
        ensures
            s@ == (Seq::<char>::empty(), 0nat),
    {
        FindState { search_text: String::new(), search_pos: 0 }
    }

    /// Where a search for `query` starts: from the cursor when the query
    /// changed (which is then remembered, with the cursor as the position),
    /// else from where the last search left off.
    pub fn start_position(&mut self, query: &str, cursor: usize) -> (start: usize)
        ensures
            old(self)@.0 != query@ ==> start == cursor && final(self)@ == (query@, cursor as nat),
            old(self)@.0 == query@ ==> start == old(self)@.1 && final(self)@ == old(self)@,
    {
        if !same_text(self.search_text.as_str(), query) {
            self.search_text = string_of(query);
            self.search_pos = cursor;
            cursor
        } else {
            self.search_pos
        }
    }

    /// After a forward match ending at `end`: the next search starts there,
    /// which is also where the cursor goes.
    pub fn record_forward_match(&mut self, end: usize) -> (cursor: usize)
        ensures
            cursor == end,
            final(self)@ == (old(self)@.0, end as nat),
    {
        self.search_pos = end;
        end
    }

    /// After a backward match starting at `start`: the next search starts
    /// there, which is also where the cursor goes.
    pub fn record_backward_match(&mut self, start: usize) -> (cursor: usize)
        ensures
            cursor == start,
            final(self)@ == (old(self)@.0, start as nat),
    {
        self.search_pos = start;
        start
    }

    /// After the selection at `start` was replaced by `len` bytes: the next
    /// search starts after the replacement, where the cursor goes.
    pub fn record_replacement(&mut self, start: usize, len: usize) -> (cursor: usize)
        requires
            start + len <= usize::MAX,
        ensures
            cursor == start + len,
            final(self)@ == (old(self)@.0, (start + len) as nat),
    {
        self.search_pos = start + len;
        start + len
    }
}

/// Whether a forward search that found nothing from `start` is run again
/// from the top: when it did not already start there.
pub fn wrap_forward(start: usize, found: bool) -> (r: bool)
    ensures
        r == (!found && start > 0),
{
    !found && start > 0
}

/// Whether a backward search that found nothing before `start` is run
/// again from the end of the text (`text_len` bytes): when it did not
/// already start there.
pub fn wrap_backward(start: usize, text_len: usize, found: bool) -> (r: bool)
    ensures
        r == (!found && start < text_len),
{
    !found && start < text_len
}

/// Whether the selected text is the query, so that Replace replaces it:
/// exactly when the search is case sensitive, else after lowercasing both.
pub fn selection_matches(selected: &str, query: &str, case_sensitive: bool) -> (r: bool)
    ensures
        case_sensitive ==> r == (selected@ == query@),
        !case_sensitive ==> r == (str_to_lowercase(selected@) == str_to_lowercase(query@)),
{
    if case_sensitive {
        same_text(selected, query)
    } else {
        let a = to_lowercase(selected);
        let b = to_lowercase(query);
        same_text(a.as_str(), b.as_str())
    }
}

/// The message when the query is not found: `Cannot find '<query>'`.
pub fn not_found_message(query: &str) -> (r: String)
    ensures
        r@ == "Cannot find '"@ + query@ + "'"@,
{
    let mut s = string_of("Cannot find '");
    append_str(&mut s, query);
    append_str(&mut s, "'");
    s
}

/// The message after Replace All: `Replaced <n> occurrence(s)`.
pub fn replaced_message(count: usize) -> (r: String)
    ensures
        r@ == "Replaced "@ + crate::text::decimal(count as nat) + " occurrence(s)"@,
{
    let mut s = string_of("Replaced ");
    push_decimal(&mut s, count);
    append_str(&mut s, " occurrence(s)");
    s
}

} // verus!
