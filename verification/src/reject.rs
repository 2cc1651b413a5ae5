//! The rejection filter: compare a transformed line with the original and
//! decide whether to suppress it as unchanged.

use vstd::prelude::*;

use crate::text::chars_eq;
use crate::text::str_chars;

verus! {

/// The ASCII transliteration that `deunicode::deunicode` gives a string;
/// it depends on the characters alone.
pub uninterp spec fn ascii_of(s: Seq<char>) -> Seq<char>;

/// Relies on `deunicode::deunicode`: the Unicode-to-ASCII transliteration
/// of a string.
#[verifier::external_body]
fn to_ascii(s: &str) -> (r: String)
    ensures
        r@ == ascii_of(s@),
{
    deunicode::deunicode(s)
}

/// Which comparison suppresses an output line.
#[derive(Clone, Copy, PartialEq, Eq, Structural, Debug)]
pub enum RejectionCriterion {
    /// Reject a line whose output equals the input exactly.
    Unchanged,
    /// Reject a line whose output equals the input after ASCII
    /// transliteration of both.
    AsciiUnchanged,
}

/// Whether the criterion rejects `result` against `original`.
pub open spec fn rejects_spec(
    criterion: RejectionCriterion,
    result: Seq<char>,
    original: Seq<char>,
) -> bool {
    match criterion {
        RejectionCriterion::Unchanged => result == original,
        RejectionCriterion::AsciiUnchanged => ascii_of(result) == ascii_of(original),
    }
}

/// Decide whether the transformed line is suppressed as unchanged.
pub fn should_reject(criterion: &RejectionCriterion, result: &str, original: &str) -> (r: bool)
    ensures
        r == rejects_spec(*criterion, result@, original@),
{
    match criterion {
        RejectionCriterion::Unchanged => {
            let a = str_chars(result);
            let b = str_chars(original);
            chars_eq(&a, &b)
        },
        RejectionCriterion::AsciiUnchanged => {
            let ra = to_ascii(result);
            let rb = to_ascii(original);
            let a = str_chars(ra.as_str());
            let b = str_chars(rb.as_str());
            chars_eq(&a, &b)
        },
    }
}

} // verus!
