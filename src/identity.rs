//! Identity strings: chosen by the user, alphanumeric, of a fixed length
//! in bytes.

use vstd::prelude::*;
use vstd::string::StringSliceAdditionalSpecFns;

verus! {

/// Length in bytes of an identity string.
pub const IDENTIFIER_STRING_LENGTH: usize = 8;

/// What `char::is_alphanumeric` returns on `c`.
pub uninterp spec fn alphanumeric(c: char) -> bool;

/// An ASCII letter or digit.
pub open spec fn ascii_alphanumeric(c: char) -> bool {
    ('a' <= c && c <= 'z') || ('A' <= c && c <= 'Z') || ('0' <= c && c <= '9')
}

/// Relies on `char::is_alphanumeric`: true for letters and numerals in the
/// Unicode sense; among ASCII characters, exactly the letters and digits.
#[verifier::external_body]
fn char_is_alphanumeric(c: char) -> (r: bool)
    ensures
        r == alphanumeric(c),
        (c as u32) < 128 ==> (r == ascii_alphanumeric(c)),
{
    c.is_alphanumeric()
}

/// An identity string the client accepts: every character alphanumeric,
/// and `IDENTIFIER_STRING_LENGTH` bytes long.
pub open spec fn valid_identity(s: &str) -> bool {
    &&& forall|i: int| 0 <= i < s@.len() ==> alphanumeric(#[trigger] s@[i])
    &&& s.spec_bytes().len() == IDENTIFIER_STRING_LENGTH
}

/// Whether `s` is an acceptable identity string.
pub fn is_valid_identity(s: &str) -> (r: bool)
    ensures
        r == valid_identity(s),
{
    let n = s.unicode_len();
    let mut i: usize = 0;
    while i < n
        invariant
            n == s@.len(),
            0 <= i <= n,
            forall|j: int| 0 <= j < i ==> alphanumeric(#[trigger] s@[j]),
        decreases n - i,
    {
        if !char_is_alphanumeric(s.get_char(i)) {
            return false;
        }
        i = i + 1;
    }
    s.as_bytes().len() == IDENTIFIER_STRING_LENGTH
}

} // verus!
