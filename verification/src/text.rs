//! Character and string primitives: mathematical names for the Unicode case
//! mappings the engine relies on, thin trusted wrappers around the outside
//! functions that compute them, and small verified helpers on `Vec<char>`.

use vstd::prelude::*;

verus! {

/// The sequence of characters that `char::to_lowercase` yields for `c`.
pub uninterp spec fn lower_char(c: char) -> Seq<char>;

/// The sequence of characters that `char::to_uppercase` yields for `c`.
pub uninterp spec fn upper_char(c: char) -> Seq<char>;

/// Whether `char::is_lowercase` holds of `c`.
pub uninterp spec fn char_is_lower(c: char) -> bool;

/// Whether `char::is_whitespace` holds of `c`.
pub uninterp spec fn char_is_ws(c: char) -> bool;

/// The sequence of characters of `str::to_lowercase` applied to `s`.
pub uninterp spec fn lower_str(s: Seq<char>) -> Seq<char>;

/// Relies on `char::to_lowercase`: the lowercase mapping of a character,
/// which depends on the character alone.
#[verifier::external_body]
pub(crate) fn char_to_lower(c: char) -> (r: String)
    ensures
        r@ == lower_char(c),
{
    c.to_lowercase().collect()
}

/// Relies on `char::to_uppercase`: the uppercase mapping of a character,
/// which depends on the character alone.
#[verifier::external_body]
pub(crate) fn char_to_upper(c: char) -> (r: String)
    ensures
        r@ == upper_char(c),
{
    c.to_uppercase().collect()
}

/// Relies on `char::is_lowercase`: whether the character has the Unicode
/// lowercase property.
#[verifier::external_body]
pub(crate) fn char_is_lowercase(c: char) -> (r: bool)
    ensures
        r == char_is_lower(c),
{
    c.is_lowercase()
}

/// Relies on `char::is_whitespace`: whether the character has the Unicode
/// whitespace property.
#[verifier::external_body]
pub(crate) fn char_is_whitespace(c: char) -> (r: bool)
    ensures
        r == char_is_ws(c),
{
    c.is_whitespace()
}

/// Relies on `str::to_lowercase`: the lowercase mapping of a string, which
/// depends on its characters alone.
#[verifier::external_body]
pub(crate) fn str_to_lower(s: &str) -> (r: String)
    ensures
        r@ == lower_str(s@),
{
    s.to_lowercase()
}

/// Relies on `String`'s `FromIterator<char>` implementation: collecting the
/// characters of a `Vec<char>` yields the string with exactly those
/// characters in order.
#[verifier::external_body]
pub(crate) fn chars_to_string(v: &Vec<char>) -> (r: String)
    ensures
        r@ == v@,
{
    v.iter().collect()
}

/// The characters of a string slice, as a vector.
pub fn str_chars(s: &str) -> (r: Vec<char>)
    ensures
        r@ == s@,
{
    let n = s.unicode_len();
    let mut r: Vec<char> = Vec::new();
    let mut i: usize = 0;
    while i < n
        invariant
            n == s@.len(),
            i <= n,
            r@ == s@.subrange(0, i as int),
        decreases n - i,
    {
        r.push(s.get_char(i));
        i = i + 1;
        proof {
            assert(r@ =~= s@.subrange(0, i as int));
        }
    }
    proof {
        assert(r@ =~= s@);
    }
    r
}

/// Whether two character vectors hold the same characters.
pub fn chars_eq(a: &Vec<char>, b: &Vec<char>) -> (r: bool)
    ensures
        r == (a@ == b@),
{
    if a.len() != b.len() {
        proof {
            assert(a@ != b@);
        }
        return false;
    }
    let n = a.len();
    let mut i: usize = 0;
    while i < n
        invariant
            n == a@.len() && n == b@.len(),
            i <= n,
            forall|j: int| 0 <= j < i ==> a@[j] == b@[j],
        decreases n - i,
    {
        if a[i] != b[i] {
            return false;
        }
        i = i + 1;
    }
    proof {
        assert(a@ =~= b@);
    }
    true
}

} // verus!
