//! Validation of datastore and key names.
//!
//! A name is valid when it is non-empty and every character is a lowercase
//! ASCII letter or a hyphen. The restricted charset excludes `/`, `.` and
//! `..`, so a valid name can never escape its directory or nest namespaces.
//! The same rule applies to datastore names and to key names.

use vstd::prelude::*;

verus! {

/// True for the characters a name may contain: `a`-`z` and `-`.
pub open spec fn valid_name_char(c: char) -> bool {
    ('a' <= c && c <= 'z') || c == '-'
}

/// A valid name is non-empty and drawn entirely from `[a-z-]`.
///
/// Empty names are rejected: the charset rule alone would accept them
/// vacuously, but an empty file or directory name has no filesystem
/// representation.
pub open spec fn valid_name(s: Seq<char>) -> bool {
    s.len() > 0 && forall|i: int| 0 <= i < s.len() ==> valid_name_char(s[i])
}

/// Checks a datastore or key name against the charset rule.
pub fn validate_name(s: &str) -> (r: bool)
    ensures
        r == valid_name(s@),
{
    let n = s.unicode_len();
    if n == 0 {
        return false;
    }
    let mut i: usize = 0;
    while i < n
        invariant
            n == s@.len(),
            0 <= i <= n,
            forall|j: int| 0 <= j < i ==> valid_name_char(s@[j]),
        decreases n - i,
    {
        let c = s.get_char(i);
        if !(('a' <= c && c <= 'z') || c == '-') {
            return false;
        }
        i += 1;
    }
    true
}

} // verus!
