//! The session picker's decisions: how the sessions are listed, which
//! session a button acts on, and what each button does with it.

use vstd::prelude::*;

use crate::text::{append_str, chars_of, same_text, string_of, trim_bounds, trim_spec};

verus! {

/// What the session picker reports when it closes.
#[derive(Debug, Clone, PartialEq, Eq)]
pub enum SessionPickerResult {
    /// Switch the current instance to this session.
    Switch(String),
    /// Open this session in a new window.
    NewWindow(String),
    /// Delete this session.
    Delete(String),
    /// Nothing chosen.
    Cancelled,
}

/// The line of the session list for `name`: marked when it is the active
/// session.
pub open spec fn session_line(name: Seq<char>, current: Seq<char>) -> Seq<char> {
    if name == current {
        name + " (active)"@
    } else {
        name
    }
}

/// The 1-based line of the last session named `current` among the first
/// `n` sessions, 0 when there is none.
pub open spec fn active_line(sessions: Seq<String>, current: Seq<char>, n: int) -> int
    decreases n,
{
    if n <= 0 {
        0
    } else if sessions[n - 1]@ == current {
        n
    } else {
        active_line(sessions, current, n - 1)
    }
}

/// The lines of the session list, and the (1-based) line to select: that
/// of the active session, 0 when it is not listed.
pub fn session_lines(sessions: &[String], current: &str) -> (r: (Vec<String>, usize))
    ensures
        r.0@.len() == sessions@.len(),
        forall|i: int| 0 <= i < sessions@.len() ==> (#[trigger] r.0@[i])@ == session_line(sessions@[i]@, current@),
        r.1 == active_line(sessions@, current@, sessions@.len() as int),
{
    let mut lines: Vec<String> = Vec::new();
    let mut selected: usize = 0;
    let mut i: usize = 0;
    while i < sessions.len()
        invariant
            i <= sessions@.len(),
            lines@.len() == i,
            forall|j: int| 0 <= j < i ==> (#[trigger] lines@[j])@ == session_line(sessions@[j]@, current@),
            selected == active_line(sessions@, current@, i as int),
        decreases sessions@.len() - i,
    {
        let name = sessions[i].as_str();
        if same_text(name, current) {
            let mut line = string_of(name);
            append_str(&mut line, " (active)");
            lines.push(line);
            selected = i + 1;
        } else {
            lines.push(string_of(name));
        }
        i += 1;
    }
    (lines, selected)
}

/// The session a button acts on: the typed name, when the input holds
/// more than whitespace, as the session store's name check turned it
/// (`checked_typed`, `None` when the name was refused); else the selected
/// session (`selected` is the list's 1-based line, 0 for none).
pub open spec fn target_spec(
    typed: Seq<char>,
    checked_typed: Option<Seq<char>>,
    sessions: Seq<String>,
    selected: int,
) -> Option<Seq<char>> {
    if trim_spec(typed).len() > 0 {
        checked_typed
    } else if 0 < selected <= sessions.len() {
        Some(sessions[selected - 1]@)
    } else {
        None
    }
}

/// The session a button acts on (see `target_spec`).
pub fn target_session(typed: &str, checked_typed: Option<String>, sessions: &[String], selected: i32) -> (r:
    Option<String>)
    ensures
        r matches Some(n) ==> target_spec(
            typed@,
            match checked_typed {
                Some(c) => Some(c@),
                None => None,
            },
            sessions@,
            selected as int,
        ) == Some(n@),
        r is None ==> target_spec(
            typed@,
            match checked_typed {
                Some(c) => Some(c@),
                None => None,
            },
            sessions@,
            selected as int,
        ) is None,
{
    let v = chars_of(typed);
    let (a, b) = trim_bounds(&v, 0, v.len());
    assert(v@.subrange(0, v@.len() as int) =~= typed@);
    if a < b {
        checked_typed
    } else if selected > 0 && (selected as usize) <= sessions.len() {
        Some(string_of(sessions[(selected - 1) as usize].as_str()))
    } else {
        None
    }
}

/// What the Switch button does with `target`: switch to it, unless it is
/// the active session or open in another window (`locked`); without a
/// target it asks for one.
pub fn switch_action(target: Option<String>, current: &str, locked: bool) -> (r: Result<
    SessionPickerResult,
    String,
>)
    ensures
        match target {
            None => r matches Err(m) && m@ == "Select or type a session name."@,
            Some(t) => if t@ == current@ {
                r matches Err(m) && m@ == "Already on this session."@
            } else if locked {
                r matches Err(m) && m@ == "Session is open in another window."@
            } else {
                r matches Ok(SessionPickerResult::Switch(n)) && n@ == t@
            },
        },
{
    match target {
        None => Err(string_of("Select or type a session name.")),
        Some(t) => {
            if same_text(t.as_str(), current) {
                Err(string_of("Already on this session."))
            } else if locked {
                Err(string_of("Session is open in another window."))
            } else {
                Ok(SessionPickerResult::Switch(t))
            }
        },
    }
}

/// What the New Window button does with `target`: open it in a new
/// window, unless it is open in another window (`locked`); without a
/// target it asks for one.
pub fn new_window_action(target: Option<String>, locked: bool) -> (r: Result<SessionPickerResult, String>)
    ensures
        match target {
            None => r matches Err(m) && m@ == "Select or type a session name."@,
            Some(t) => if locked {
                r matches Err(m) && m@ == "Session is open in another window."@
            } else {
                r matches Ok(SessionPickerResult::NewWindow(n)) && n@ == t@
            },
        },
{
    match target {
        None => Err(string_of("Select or type a session name.")),
        Some(t) => {
            if locked {
                Err(string_of("Session is open in another window."))
            } else {
                Ok(SessionPickerResult::NewWindow(t))
            }
        },
    }
}

/// What the Delete button does with `target`: delete it, unless it is the
/// active session or the default session (`default_name`); without a
/// target it asks for one.
pub fn delete_action(target: Option<String>, current: &str, default_name: &str) -> (r: Result<
    SessionPickerResult,
    String,
>)
    ensures
        match target {
            None => r matches Err(m) && m@ == "Select a session to delete."@,
            Some(t) => if t@ == current@ {
                r matches Err(m) && m@ == "Cannot delete the active session."@
            } else if t@ == default_name@ {
                r matches Err(m) && m@ == "Cannot delete the default session."@
            } else {
                r matches Ok(SessionPickerResult::Delete(n)) && n@ == t@
            },
        },
{
    match target {
        None => Err(string_of("Select a session to delete.")),
        Some(t) => {
            if same_text(t.as_str(), current) {
                Err(string_of("Cannot delete the active session."))
            } else if same_text(t.as_str(), default_name) {
                Err(string_of("Cannot delete the default session."))
            } else {
                Ok(SessionPickerResult::Delete(t))
            }
        },
    }
}

/// What the Create button of the new-session dialog does with the name as
/// the session store's name check turned it: create it, or say that the
/// name was refused.
pub fn new_session_name(checked: Option<String>) -> (r: Result<String, String>)
    ensures
        match checked {
            Some(n) => r matches Ok(x) && x@ == n@,
            None => r matches Err(m) && m@ == "Invalid name (use letters, numbers, -)"@,
        },
{
    match checked {
        Some(n) => Ok(n),
        None => Err(string_of("Invalid name (use letters, numbers, -)")),
    }
}

} // verus!
