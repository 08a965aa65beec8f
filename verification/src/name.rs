//! The names that players may go by.

use vstd::prelude::*;

verus! {

/// Why a name is refused.
#[derive(Clone, Copy, Debug, PartialEq, Eq, Structural)]
pub enum NameError {
    /// The name is empty or longer than `MAX_NAME_LENGTH` bytes.
    Length,
    /// The name holds a character that names may not hold.
    Pattern,
}

/// The largest number of bytes of a name.
pub const MAX_NAME_LENGTH: usize = 30;

/// Whether the regular expression `pattern` matches somewhere in `haystack`, as
/// the crate `regex` decides it; `None` where `pattern` is no regular expression
/// that the crate accepts.
pub uninterp spec fn regex_search(pattern: Seq<char>, haystack: Seq<char>) -> Option<bool>;

/// Compiles `pattern` with `regex::Regex::new` and asks `Regex::is_match` for
/// `haystack`. A pattern that does not compile gives `None`. The answer depends
/// on the two strings alone, and is known here only by the name `regex_search`.
#[verifier::external_body]
fn regex_is_match(pattern: &str, haystack: &str) -> (r: Option<bool>)
    ensures
        r == regex_search(pattern@, haystack@),
{
    match regex::Regex::new(pattern) {
        Ok(re) => Some(re.is_match(haystack)),
        Err(_) => None,
    }
}

/// The pattern of a name: one or more of the characters from `A` to `z` in the
/// order of their codes, and of `_ - # @ $ % * ,`.
pub fn name_pattern() -> (pattern: &'static str)
    ensures
        pattern@ == "^[A-z_\\-#@$%*,]+$"@,
{
    "^[A-z_\\-#@$%*,]+$"
}

/// What is said of a name of `len` bytes for which the search for the pattern of
/// names gave `found`.
pub open spec fn verdict(len: int, found: Option<bool>) -> Result<(), NameError> {
    if len <= 0 || len > MAX_NAME_LENGTH {
        Err(NameError::Length)
    } else if found == Some(true) {
        Ok(())
    } else {
        Err(NameError::Pattern)
    }
}

/// Judges a name of `len` bytes for which the search for the pattern of names
/// gave `found`: the length is looked at first.
pub fn name_verdict(len: usize, found: Option<bool>) -> (r: Result<(), NameError>)
    ensures
        r == verdict(len as int, found),
{
    if len == 0 || len > MAX_NAME_LENGTH {
        return Err(NameError::Length);
    }
    match found {
        Some(true) => Ok(()),
        _ => Err(NameError::Pattern),
    }
}

/// Judges a name: it has 1 to 30 bytes and matches the pattern of names.
pub fn check_name(name: &str) -> (r: Result<(), NameError>)
    ensures
        r == verdict(
            name.len() as int,
            regex_search("^[A-z_\\-#@$%*,]+$"@, name@),
        ),
{
    let found = regex_is_match(name_pattern(), name);
    name_verdict(name.len(), found)
}

} // verus!
