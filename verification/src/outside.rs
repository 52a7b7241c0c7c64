//! The few places the library leans on outside crates: minting a fresh
//! identifier, and extracting an interpreter path from a wrapper script
//! with fixed regular expressions.

use vstd::prelude::*;

verus! {

/// The first target of an `exec` line in quotes: what the fixed pattern
/// `exec\s+"([^"]+)"` captures in this text, a function of the text alone.
pub uninterp spec fn quoted_exec_target(s: Seq<char>) -> Option<Seq<char>>;

/// The first unquoted target of an `exec` line: what the fixed pattern
/// `exec\s+([^\s]+)` captures in this text, a function of the text alone.
pub uninterp spec fn word_exec_target(s: Seq<char>) -> Option<Seq<char>>;

/// Relies on `regex::Regex::captures` with the fixed pattern
/// `exec\s+"([^"]+)"`: the first quoted word after `exec`, determined by
/// the text alone.
#[verifier::external_body]
fn capture_quoted_exec(content: &str) -> (r: Option<String>)
    ensures
        match r {
            Some(v) => quoted_exec_target(content@) == Some(v@),
            None => quoted_exec_target(content@) is None,
        },
{
    match regex::Regex::new(r#"exec\s+"([^"]+)""#) {
        Ok(re) => re.captures(content).map(|c| c[1].to_string()),
        Err(_) => None,
    }
}

/// Relies on `regex::Regex::captures` with the fixed pattern
/// `exec\s+([^\s]+)`: the first word after `exec`, determined by the text
/// alone.
#[verifier::external_body]
fn capture_word_exec(content: &str) -> (r: Option<String>)
    ensures
        match r {
            Some(v) => word_exec_target(content@) == Some(v@),
            None => word_exec_target(content@) is None,
        },
{
    match regex::Regex::new(r"exec\s+([^\s]+)") {
        Ok(re) => re.captures(content).map(|c| c[1].to_string()),
        Err(_) => None,
    }
}

/// The interpreter path a wrapper script resolves to.
pub open spec fn resolved_path_of(wrapper: Seq<char>, script: Option<Seq<char>>) -> Seq<char> {
    match script {
        None => wrapper,
        Some(s) => match quoted_exec_target(s) {
            Some(t) => t,
            None => match word_exec_target(s) {
                Some(t) => t,
                None => wrapper,
            },
        },
    }
}

/// The actual interpreter behind a wrapper script: the quoted target of its
/// `exec` line, else the bare target, else the wrapper path itself.  The
/// caller reads the script (or hands `None` when it cannot be read).
pub fn resolve_interpreter_path(wrapper_path: &str, script: Option<&str>) -> (r: String)
    ensures
        r@ == resolved_path_of(
            wrapper_path@,
            match script {
                Some(s) => Some(s@),
                None => None,
            },
        ),
{
    match script {
        None => wrapper_path.to_owned(),
        Some(s) => {
            match capture_quoted_exec(s) {
                Some(t) => t,
                None => {
                    match capture_word_exec(s) {
                        Some(t) => t,
                        None => wrapper_path.to_owned(),
                    }
                },
            }
        },
    }
}

/// Relies on `uuid::Uuid::new_v4` and its `Display`: a fresh random
/// identifier in hyphenated form, 36 characters long.  Nothing else is
/// promised: two calls may (and almost surely do) differ.
#[verifier::external_body]
pub fn fresh_uuid() -> (r: String)
    ensures
        r@.len() == 36,
{
    uuid::Uuid::new_v4().to_string()
}

} // verus!
