//! ASCII case-insensitive comparison of keys and profile names.

use vstd::prelude::*;

verus! {

/// The ASCII lower-case form of one character: `A` to `Z` move to `a` to
/// `z`, every other character stays.
pub open spec fn fold_char(c: char) -> char {
    if 'A' <= c && c <= 'Z' {
        ((c as u8) + 32u8) as char
    } else {
        c
    }
}

/// The ASCII lower-case form of a text. Two keys name the same entry exactly
/// when their folded forms are equal.
pub open spec fn folded(s: Seq<char>) -> Seq<char> {
    s.map_values(|c: char| fold_char(c))
}

/// Compares two keys without regard to ASCII case.
///
/// Trusted: calls `uncased::eq`, which compares the two strings with
/// `str::eq_ignore_ascii_case`, that is, as equal exactly when their ASCII
/// lower-case forms are.
#[verifier::external_body]
pub(crate) fn keys_match(a: &str, b: &str) -> (same: bool)
    ensures
        same == (folded(a@) == folded(b@)),
{
    uncased::eq(a, b)
}

} // verus!
