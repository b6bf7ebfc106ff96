//! Regular expressions over window classes.
use vstd::prelude::*;

verus! {

/// A character that regular expressions give a meaning of its own.
pub open spec fn is_meta(c: char) -> bool {
    c == '\\' || c == '.' || c == '+' || c == '*' || c == '?' || c == '(' || c == ')' || c == '|'
        || c == '[' || c == ']' || c == '{' || c == '}' || c == '^' || c == '$' || c == '#' || c
        == '&' || c == '-' || c == '~'
}

/// A text with a backslash before each of its special characters.
pub open spec fn escaped(s: Seq<char>) -> Seq<char>
    decreases s.len(),
{
    if s.len() == 0 {
        seq![]
    } else if is_meta(s.last()) {
        escaped(s.drop_last()).push('\\').push(s.last())
    } else {
        escaped(s.drop_last()).push(s.last())
    }
}

/// `regex::escape`: every character in turn, with a backslash before those
/// that have a meaning in a regular expression.
#[verifier::external_body]
pub(crate) fn escape(s: &str) -> (r: String)
    ensures
        r@ == escaped(s@),
{
    regex::escape(s)
}

/// The text is a regular expression that can be compiled.
pub uninterp spec fn compiles(pattern: Seq<char>) -> bool;

/// `regex::Regex::new`: whether the pattern compiles, which depends on the
/// pattern alone. Nothing is said of why one does not.
#[verifier::external_body]
pub(crate) fn is_valid(pattern: &str) -> (r: bool)
    ensures
        r == compiles(pattern@),
{
    regex::Regex::new(pattern).is_ok()
}

/// The compiled pattern has a match somewhere in the text.
pub uninterp spec fn matches_somewhere(pattern: Seq<char>, text: Seq<char>) -> bool;

/// `regex::Regex::is_match`, on the pattern compiled with default options:
/// whether there is a match anywhere in the text, which depends on the two
/// texts alone. A pattern that does not compile matches nothing.
#[verifier::external_body]
pub(crate) fn is_match(pattern: &str, text: &str) -> (r: bool)
    ensures
        r == (compiles(pattern@) && matches_somewhere(pattern@, text@)),
{
    match regex::Regex::new(pattern) {
        Ok(re) => re.is_match(text),
        Err(_) => false,
    }
}

} // verus!
