//! Letter case of words: lower case, and title case (first letter upper case,
//! the rest lower case).
use vstd::prelude::*;

verus! {

/// What `str::to_lowercase` makes of a string.
pub uninterp spec fn lower_of(s: Seq<char>) -> Seq<char>;

/// What `char::to_uppercase` makes of one character (one or more characters).
pub uninterp spec fn upper_of(c: char) -> Seq<char>;

/// Relies on `str::to_lowercase`: the lower case of each character, in
/// order.
#[verifier::external_body]
pub(crate) fn lowercase(s: &str) -> (r: String)
    ensures
        r@ == lower_of(s@),
{
    s.to_lowercase()
}

/// Relies on `char::to_uppercase`, whose characters are collected into a
/// string.
#[verifier::external_body]
fn uppercase_char(c: char) -> (r: String)
    ensures
        r@ == upper_of(c),
{
    c.to_uppercase().collect()
}

/// `s` with its first character in upper case and the rest unchanged.
pub open spec fn capitalized(s: Seq<char>) -> Seq<char> {
    if s.len() == 0 {
        s
    } else {
        upper_of(s[0]) + s.drop_first()
    }
}

/// `s` in title case: all of it in lower case, then its first character in
/// upper case.
pub open spec fn title_case_of(s: Seq<char>) -> Seq<char> {
    capitalized(lower_of(s))
}

/// Puts the first character of `s` in upper case and leaves the rest as it
/// is.
pub fn capitalize_first(s: &str) -> (r: String)
    ensures
        r@ == capitalized(s@),
{
    let n = s.unicode_len();
    if n == 0 {
        return String::new();
    }
    let first = s.get_char(0);
    let mut r = uppercase_char(first);
    let rest = s.substring_char(1, n);
    r.append(rest);
    proof {
        assert(rest@ =~= s@.drop_first());
    }
    r
}

/// Makes `s` all lower case, then its first character upper case.
pub fn make_title_case(s: &str) -> (r: String)
    ensures
        r@ == title_case_of(s@),
{
    let lowered = lowercase(s);
    capitalize_first(lowered.as_str())
}

} // verus!
