//! Character-level helpers shared by the parser and the serializer.
//!
//! The tree holds its strings as `String`; the parser and serializer work
//! over `Vec<char>`, whose view is the same `Seq<char>` a `String` views to.
//! The two conversions between the representations are the only places the
//! module leans on unspecified std functions.

use vstd::prelude::*;

verus! {

/// Relies on `str::chars` / `Iterator::collect`: the characters of a string
/// slice, in order, are exactly its view sequence.
#[verifier::external_body]
pub fn str_to_chars(s: &str) -> (v: Vec<char>)
    ensures
        v@ == s@,
{
    s.chars().collect()
}

/// Relies on `String: FromIterator<char>`: collecting characters yields the
/// string whose view is that character sequence.
#[verifier::external_body]
pub fn chars_to_string(v: &Vec<char>) -> (s: String)
    ensures
        s@ == v@,
{
    v.iter().collect()
}

/// XML whitespace: space, tab, carriage return, line feed.
pub open spec fn is_ws(c: char) -> bool {
    c == ' ' || c == '\t' || c == '\r' || c == '\n'
}

/// Executable mirror of [`is_ws`].
pub fn ws_char(c: char) -> (r: bool)
    ensures
        r == is_ws(c),
{
    c == ' ' || c == '\t' || c == '\r' || c == '\n'
}

} // verus!
