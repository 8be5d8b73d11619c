use vstd::prelude::*;

verus! {

/// A character that may appear in a field name: an ASCII letter, an ASCII
/// digit or `_`.
pub open spec fn is_name_char(c: char) -> bool {
    ('a' <= c && c <= 'z') || ('A' <= c && c <= 'Z') || ('0' <= c && c <= '9') || c == '_'
}

/// A well-formed field name: non-empty, made of name characters only.
pub open spec fn valid_field_name(s: Seq<char>) -> bool {
    s.len() > 0 && forall|i: int| 0 <= i < s.len() ==> #[trigger] is_name_char(s[i])
}

/// Relies on `regex::Regex::new` and `regex::Regex::is_match`. For the
/// pattern `^[_a-zA-Z0-9]+$` (a character class repeated at least once,
/// anchored at the start and at the end of the haystack, not in multi-line
/// mode) the pattern compiles, and the haystack matches exactly when it is
/// non-empty and every character lies in the class.
#[verifier::external_body]
fn regex_full_match(pattern: &str, haystack: &str) -> (r: Option<bool>)
    ensures
        pattern@ == "^[_a-zA-Z0-9]+$"@ ==> r == Some(valid_field_name(haystack@)),
{
    match regex::Regex::new(pattern) {
        Ok(re) => Some(re.is_match(haystack)),
        Err(_) => None,
    }
}

/// Whether `field_name` is non-empty and made only of ASCII letters, ASCII
/// digits and `_`.
pub fn is_valid_field_name(field_name: &str) -> (r: bool)
    ensures
        r == valid_field_name(field_name@),
{
    match regex_full_match("^[_a-zA-Z0-9]+$", field_name) {
        Some(b) => b,
        None => false,
    }
}

} // verus!
