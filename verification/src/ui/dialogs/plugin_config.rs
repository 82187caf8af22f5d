//! Validation in the plugin configuration dialog: rules a parameter's value
//! must follow (`cli_args`, `regex:PATTERN`), and how a choice option
//! (`value` or `value|Label`) reads.

use vstd::prelude::*;

use crate::text::{
    append_str, chars_of, find_char, first_index_of, push_char, range_equals,
    string_from_range, string_of,
};

verus! {

#[verifier::external_type_specification]
#[verifier::external_body]
pub struct ExRegex(regex_lite::Regex);

/// Whether `regex_lite` accepts `pattern` (builds a regex for it within its
/// default size limit).
pub uninterp spec fn regex_compiles(pattern: Seq<char>) -> bool;

/// Whether the regex built from `pattern` matches somewhere in `haystack`.
pub uninterp spec fn regex_matches(pattern: Seq<char>, haystack: Seq<char>) -> bool;

/// A regex together with the pattern it was built from.
pub struct CompiledPattern {
    regex: regex_lite::Regex,
    pattern: String,
}

impl View for CompiledPattern {
    type V = Seq<char>;

    closed spec fn view(&self) -> Seq<char> {
        self.pattern@
    }
}

/// Calls `regex_lite::Regex::new`. Claims that it succeeds exactly when
/// `regex_compiles(pattern)`, and keeps the pattern beside the regex.
#[verifier::external_body]
fn compile_pattern(pattern: &str) -> (r: Option<CompiledPattern>)
    ensures
        r is Some <==> regex_compiles(pattern@),
        r matches Some(c) ==> c@ == pattern@,
{
    match regex_lite::Regex::new(pattern) {
        Ok(regex) => Some(CompiledPattern { regex, pattern: pattern.to_string() }),
        Err(_) => None,
    }
}

/// Calls `regex_lite::Regex::is_match`. Claims that the answer is
/// `regex_matches` of the regex's pattern and the haystack.
#[verifier::external_body]
fn pattern_matches(c: &CompiledPattern, haystack: &str) -> (r: bool)
    ensures
        r == regex_matches(c@, haystack@),
{
    c.regex.is_match(haystack)
}

/// The characters a `cli_args` value may not hold, in the order they are
/// checked.
pub open spec fn shell_metachars() -> Seq<char> {
    seq![
        ';', '&', '|', '$', '`', '(', ')', '{', '}', '<', '>', '\n', '\r', '\\', '"', '\'', '!', '*',
        '?', '[', ']', '#', '~', '^',
    ]
}

fn shell_metacharacters() -> (r: Vec<char>)
    ensures
        r@ == shell_metachars(),
{
    let r = vec![
        ';', '&', '|', '$', '`', '(', ')', '{', '}', '<', '>', '\n', '\r', '\\', '"', '\'', '!', '*',
        '?', '[', ']', '#', '~', '^',
    ];
    assert(r@ =~= shell_metachars());
    r
}

/// The first shell metacharacter (in the order of `shell_metachars`) that
/// `value` holds.
pub open spec fn first_forbidden(value: Seq<char>) -> Option<char> {
    let m = shell_metachars();
    if exists|k: int| 0 <= k < m.len() && value.contains(m[k]) {
        let k = choose|k: int|
            0 <= k < m.len() && value.contains(m[k]) && forall|j: int| 0 <= j < k ==> !value.contains(m[j]);
        Some(m[k])
    } else {
        None
    }
}

/// The message for a value holding a shell metacharacter.
pub open spec fn forbidden_message(label: Seq<char>, c: char) -> Seq<char> {
    "'"@ + label + "' contains invalid character '"@ + seq![c]
        + "'. Shell metacharacters are not allowed."@
}

/// The message for a value that does not match its pattern.
pub open spec fn mismatch_message(label: Seq<char>) -> Seq<char> {
    "'"@ + label + "' does not match required format"@
}

/// The verdict on a value checked against a pattern: `None` when the
/// pattern is not a valid regex (the value is then allowed), else whether
/// the value matched.
pub open spec fn pattern_verdict_spec(outcome: Option<bool>, label: Seq<char>) -> Result<(), Seq<char>> {
    match outcome {
        Some(false) => Err(mismatch_message(label)),
        _ => Ok(()),
    }
}

/// Whether `rule` starts with `regex:`.
pub open spec fn is_regex_rule(rule: Seq<char>) -> bool {
    rule.len() >= 6 && rule.take(6) == "regex:"@
}

/// The check of `value` against the validation rule `rule` (`label` names
/// the field in messages): an empty value always passes; `cli_args`
/// rejects a value holding a shell metacharacter, naming the first one;
/// `regex:PATTERN` rejects a value the pattern does not match (an invalid
/// pattern lets every value pass); any other rule lets every value pass.
pub open spec fn validate_spec(value: Seq<char>, rule: Seq<char>, label: Seq<char>) -> Result<(), Seq<char>> {
    if value.len() == 0 {
        Ok(())
    } else if rule == "cli_args"@ {
        match first_forbidden(value) {
            Some(c) => Err(forbidden_message(label, c)),
            None => Ok(()),
        }
    } else if is_regex_rule(rule) {
        let pattern = rule.skip(6);
        pattern_verdict_spec(
            if regex_compiles(pattern) {
                Some(regex_matches(pattern, value))
            } else {
                None
            },
            label,
        )
    } else {
        Ok(())
    }
}

/// The verdict on a value checked against a pattern (see
/// `pattern_verdict_spec`).
pub fn pattern_verdict(outcome: Option<bool>, label: &str) -> (r: Result<(), String>)
    ensures
        match r {
            Ok(()) => pattern_verdict_spec(outcome, label@) == Ok::<(), Seq<char>>(()),
            Err(s) => pattern_verdict_spec(outcome, label@) == Err::<(), Seq<char>>(s@),
        },
{
    match outcome {
        Some(false) => {
            let mut s = String::new();
            push_char(&mut s, '\'');
            append_str(&mut s, label);
            append_str(&mut s, "' does not match required format");
            proof {
                reveal_strlit("' does not match required format");
                reveal_strlit("'");
                assert(s@ =~= mismatch_message(label@));
            }
            Err(s)
        },
        _ => Ok(()),
    }
}

/// Whether `v` holds `c`.
fn holds_char(v: &Vec<char>, c: char) -> (r: bool)
    ensures
        r == v@.contains(c),
{
    let mut k: usize = 0;
    while k < v.len()
        invariant
            k <= v@.len(),
            forall|j: int| 0 <= j < k ==> v@[j] != c,
        decreases v@.len() - k,
    {
        if v[k] == c {
            assert(v@[k as int] == c);
            return true;
        }
        k += 1;
    }
    false
}

fn first_forbidden_exec(v: &Vec<char>) -> (r: Option<char>)
    ensures
        r == first_forbidden(v@),
{
    let m = shell_metacharacters();
    let mut k: usize = 0;
    while k < m.len()
        invariant
            k <= m@.len(),
            m@ == shell_metachars(),
            forall|j: int| 0 <= j < k ==> !v@.contains(#[trigger] m@[j]),
        decreases m@.len() - k,
    {
        if holds_char(v, m[k]) {
            proof {
                let w = choose|w: int|
                    0 <= w < m@.len() && v@.contains(m@[w]) && forall|j: int| 0 <= j < w ==> !v@.contains(m@[j]);
                assert(0 <= k < m@.len() && v@.contains(m@[k as int]) && forall|j: int|
                    0 <= j < k ==> !v@.contains(m@[j]));
                assert(w == k as int) by {
                    if w < k {
                        assert(!v@.contains(m@[w]));
                    } else if w > k {
                        assert(!v@.contains(m@[k as int]));
                    }
                }
            }
            return Some(m[k]);
        }
        k += 1;
    }
    None
}

/// Checks `value` against the validation rule `rule` (see
/// `validate_spec`); `label` names the field in the message.
pub fn validate_param_value(value: &str, rule: &str, label: &str) -> (r: Result<(), String>)
    ensures
        match r {
            Ok(()) => validate_spec(value@, rule@, label@) == Ok::<(), Seq<char>>(()),
            Err(s) => validate_spec(value@, rule@, label@) == Err::<(), Seq<char>>(s@),
        },
{
    let v = chars_of(value);
    if v.len() == 0 {
        return Ok(());
    }
    let rv = chars_of(rule);
    proof {
        reveal_strlit("cli_args");
        reveal_strlit("regex:");
    }
    if range_equals(&rv, 0, rv.len(), "cli_args") {
        assert(rv@.subrange(0, rv@.len() as int) =~= rule@);
        match first_forbidden_exec(&v) {
            Some(c) => {
                let mut s = String::new();
                push_char(&mut s, '\'');
                append_str(&mut s, label);
                append_str(&mut s, "' contains invalid character '");
                push_char(&mut s, c);
                append_str(&mut s, "'. Shell metacharacters are not allowed.");
                proof {
                    reveal_strlit("' contains invalid character '");
                    reveal_strlit("'. Shell metacharacters are not allowed.");
                    reveal_strlit("'");
                    assert(s@ =~= forbidden_message(label@, c));
                }
                Err(s)
            },
            None => Ok(()),
        }
    } else {
        assert(rv@.subrange(0, rv@.len() as int) =~= rule@);
        if rv.len() >= 6 && range_equals(&rv, 0, 6, "regex:") {
            assert(rv@.subrange(0, 6) =~= rule@.take(6));
            let pattern = string_from_range(&rv, 6, rv.len());
            assert(pattern@ =~= rule@.skip(6));
            let outcome = match compile_pattern(&pattern) {
                Some(c) => Some(pattern_matches(&c, value)),
                None => None,
            };
            pattern_verdict(outcome, label)
        } else {
            proof {
                if is_regex_rule(rule@) {
                    assert(rv@.subrange(0, 6) =~= rule@.take(6));
                }
            }
            Ok(())
        }
    }
}

/// A choice option read as `(value, label)`: split at its first `|`, or
/// the whole option as both.
pub open spec fn parse_option_spec(opt: Seq<char>) -> (Seq<char>, Seq<char>) {
    match first_index_of(opt, '|') {
        Some(k) => (opt.take(k), opt.skip(k + 1)),
        None => (opt, opt),
    }
}

/// A choice option read as `(value, label)` (see `parse_option_spec`).
pub fn parse_option(opt: &str) -> (r: (String, String))
    ensures
        (r.0@, r.1@) == parse_option_spec(opt@),
{
    let v = chars_of(opt);
    match find_char(&v, '|') {
        Some(k) => {
            let a = string_from_range(&v, 0, k);
            let b = string_from_range(&v, k + 1, v.len());
            assert(a@ =~= opt@.take(k as int));
            assert(b@ =~= opt@.skip(k + 1));
            (a, b)
        },
        None => (string_of(opt), string_of(opt)),
    }
}

/// The value saved for a choice field: the option value at the selected
/// index, or an empty string when nothing valid is selected.
pub fn choice_value(index: i32, option_values: &[String]) -> (r: String)
    ensures
        (0 <= index < option_values@.len()) ==> r@ == option_values@[index as int]@,
        !(0 <= index < option_values@.len()) ==> r@ == Seq::<char>::empty(),
{
    if index >= 0 && (index as usize) < option_values.len() {
        string_of(option_values[index as usize].as_str())
    } else {
        String::new()
    }
}

/// The value saved for a check box.
pub fn bool_value(checked: bool) -> (r: String)
    ensures
        r@ == (if checked {
            "true"@
        } else {
            "false"@
        }),
{
    if checked {
        string_of("true")
    } else {
        string_of("false")
    }
}

} // verus!
