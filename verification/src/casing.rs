//! The casing projector: mapping the per-character case pattern of a matched
//! source span onto a (possibly different-length) replacement string.

use vstd::prelude::*;

use crate::text::char_is_lower;
use crate::text::char_is_lowercase;
use crate::text::char_to_upper;
use crate::text::chars_to_string;
use crate::text::str_chars;
use crate::text::upper_char;

verus! {

/// The case of one source character.
#[derive(Clone, Copy, PartialEq, Eq, Structural, Debug)]
pub enum CharCase {
    Lower,
    Upper,
}

/// The case tag of a character: `Lower` exactly when it is lowercase.
pub open spec fn case_of(c: char) -> CharCase {
    if char_is_lower(c) {
        CharCase::Lower
    } else {
        CharCase::Upper
    }
}

/// The case tags of a whole span.
pub open spec fn cases_of(s: Seq<char>) -> Seq<CharCase> {
    s.map_values(|c: char| case_of(c))
}

/// Executable case tag of one character.
pub fn char_case(c: char) -> (r: CharCase)
    ensures
        r == case_of(c),
{
    if char_is_lowercase(c) {
        CharCase::Lower
    } else {
        CharCase::Upper
    }
}

/// The case projection of `to` under `tags`: position by position, a
/// replacement character under an `Upper` tag is uppercased and otherwise
/// kept; replacement characters beyond the tags are kept verbatim, and tags
/// beyond the replacement are ignored.
pub open spec fn apply_casing_spec(to: Seq<char>, tags: Seq<CharCase>) -> Seq<char>
    decreases to.len(),
{
    if to.len() == 0 {
        Seq::empty()
    } else {
        let head = if tags.len() > 0 && tags[0] is Upper {
            upper_char(to[0])
        } else {
            seq![to[0]]
        };
        head + apply_casing_spec(
            to.drop_first(),
            if tags.len() > 0 {
                tags.drop_first()
            } else {
                tags
            },
        )
    }
}

/// The full uppercasing of a span: each character replaced by its uppercase
/// mapping.
pub open spec fn uppercased(s: Seq<char>) -> Seq<char>
    decreases s.len(),
{
    if s.len() == 0 {
        Seq::empty()
    } else {
        upper_char(s[0]) + uppercased(s.drop_first())
    }
}

/// Projecting an all-`Lower` tag sequence of the replacement's own length
/// returns the replacement unchanged.
pub proof fn lemma_apply_casing_all_lower(to: Seq<char>, tags: Seq<CharCase>)
    requires
        tags.len() == to.len(),
        forall|i: int| 0 <= i < tags.len() ==> tags[i] is Lower,
    ensures
        apply_casing_spec(to, tags) == to,
    decreases to.len(),
{
    if to.len() == 0 {
        assert(apply_casing_spec(to, tags) =~= to);
    } else {
        assert forall|i: int| 0 <= i < tags.drop_first().len() implies tags.drop_first()[i]
            is Lower by {
            assert(tags.drop_first()[i] == tags[i + 1]);
        }
        lemma_apply_casing_all_lower(to.drop_first(), tags.drop_first());
        assert(seq![to[0]] + to.drop_first() =~= to);
    }
}

/// Projecting an all-`Upper` tag sequence of the replacement's own length
/// returns the replacement fully uppercased.
pub proof fn lemma_apply_casing_all_upper(to: Seq<char>, tags: Seq<CharCase>)
    requires
        tags.len() == to.len(),
        forall|i: int| 0 <= i < tags.len() ==> tags[i] is Upper,
    ensures
        apply_casing_spec(to, tags) == uppercased(to),
    decreases to.len(),
{
    if to.len() == 0 {
        assert(apply_casing_spec(to, tags) =~= uppercased(to));
    } else {
        assert forall|i: int| 0 <= i < tags.drop_first().len() implies tags.drop_first()[i]
            is Upper by {
            assert(tags.drop_first()[i] == tags[i + 1]);
        }
        lemma_apply_casing_all_upper(to.drop_first(), tags.drop_first());
    }
}

spec fn min_int(a: int, b: int) -> int {
    if a <= b {
        a
    } else {
        b
    }
}

/// Project the case tags of a matched span onto a replacement string.
pub fn apply_casing(lowercased_str: &str, char_cases: &[CharCase]) -> (r: String)
    ensures
        r@ == apply_casing_spec(lowercased_str@, char_cases@),
{
    let cs = str_chars(lowercased_str);
    let n = cs.len();
    let m = char_cases.len();
    let mut out: Vec<char> = Vec::new();
    let mut i: usize = 0;
    proof {
        assert(cs@.subrange(0, n as int) =~= cs@);
        assert(char_cases@.subrange(0, m as int) =~= char_cases@);
    }
    while i < n
        invariant
            n == cs@.len(),
            cs@ == lowercased_str@,
            m == char_cases@.len(),
            i <= n,
            out@ + apply_casing_spec(
                cs@.subrange(i as int, n as int),
                char_cases@.subrange(min_int(i as int, m as int), m as int),
            ) == apply_casing_spec(cs@, char_cases@),
        decreases n - i,
    {
        let ghost suf = cs@.subrange(i as int, n as int);
        let ghost tags = char_cases@.subrange(min_int(i as int, m as int), m as int);
        proof {
            assert(suf[0] == cs@[i as int]);
            assert(suf.drop_first() =~= cs@.subrange(i + 1, n as int));
            if i < m {
                assert(tags[0] == char_cases@[i as int]);
                assert(tags.drop_first() =~= char_cases@.subrange(
                    min_int(i + 1, m as int),
                    m as int,
                ));
            } else {
                assert(tags.len() == 0);
                assert(tags =~= char_cases@.subrange(min_int(i + 1, m as int), m as int));
            }
        }
        let c = cs[i];
        let upper_here = i < m && matches!(char_cases[i], CharCase::Upper);
        let ghost old_out = out@;
        if upper_here {
            let up = char_to_upper(c);
            let mut up_chars = str_chars(up.as_str());
            out.append(&mut up_chars);
            proof {
                assert(out@ =~= old_out + upper_char(c));
            }
        } else {
            out.push(c);
            proof {
                assert(out@ =~= old_out + seq![c]);
            }
        }
        proof {
            assert(apply_casing_spec(suf, tags) == (if upper_here {
                upper_char(c)
            } else {
                seq![c]
            }) + apply_casing_spec(
                cs@.subrange(i + 1, n as int),
                char_cases@.subrange(min_int(i + 1, m as int), m as int),
            ));
            assert(out@ + apply_casing_spec(
                cs@.subrange(i + 1, n as int),
                char_cases@.subrange(min_int(i + 1, m as int), m as int),
            ) =~= old_out + apply_casing_spec(suf, tags));
        }
        i = i + 1;
    }
    proof {
        assert(cs@.subrange(n as int, n as int).len() == 0);
        assert(out@ + apply_casing_spec(
            cs@.subrange(n as int, n as int),
            char_cases@.subrange(min_int(n as int, m as int), m as int),
        ) =~= out@);
    }
    chars_to_string(&out)
}

} // verus!
