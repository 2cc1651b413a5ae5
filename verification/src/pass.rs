//! The pass executor: the three transform strategies.
//!
//! A case-preserving literal pass walks a cursor over the input characters;
//! at each position the first matching rule (in declaration order) is
//! applied, its replacement carrying the case pattern of the matched span.
//! A global pattern pass folds its rules over the whole string, each rule's
//! output feeding the next.  A segmented pattern pass does the same
//! independently within each delimiter-bounded segment and reassembles the
//! segments around the original delimiters.

use vstd::prelude::*;

use crate::casing::CharCase;
use crate::casing::apply_casing;
use crate::casing::apply_casing_spec;
use crate::casing::case_of;
use crate::casing::cases_of;
use crate::casing::char_case;
use crate::rules::LiteralRule;
use crate::rules::PassModel;
use crate::rules::PatternRule;
use crate::rules::TransformPass;
use crate::rules::pass_wf;
use crate::rules::pat_replaced;
use crate::rules::pat_rules_wf;
use crate::rules::regex_replace_all;
use crate::rules::regex_valid;
use crate::segment::delims_of;
use crate::segment::desegmentize;
use crate::segment::desegmentize_spec;
use crate::segment::lemma_segment_count;
use crate::segment::segmentize;
use crate::segment::segments_of;
use crate::text::char_to_lower;
use crate::text::chars_to_string;
use crate::text::lower_char;
use crate::text::str_chars;

verus! {

/// Whether the literal rule text `from` matches the input at position `i`:
/// `from` is non-empty (an empty `from` is unmatchable), the match stays
/// within the input, and each input character's lowercase mapping equals the
/// corresponding single rule character.
pub open spec fn lit_matches_at(from: Seq<char>, input: Seq<char>, i: int) -> bool {
    &&& from.len() > 0
    &&& 0 <= i
    &&& i + from.len() <= input.len()
    &&& forall|j: int|
        i <= j < i + from.len() ==> #[trigger] lower_char(input[j]) == seq![from[j - i]]
}

/// Index of the first rule whose `from` matches the input at `i`, or
/// `rules.len()` if none does.
pub open spec fn lit_first_match(
    rules: Seq<(Seq<char>, Seq<char>)>,
    input: Seq<char>,
    i: int,
) -> int
    decreases rules.len(),
{
    if rules.len() == 0 {
        0
    } else if lit_matches_at(rules[0].0, input, i) {
        0
    } else {
        1 + lit_first_match(rules.drop_first(), input, i)
    }
}

pub proof fn lemma_lit_first_match(rules: Seq<(Seq<char>, Seq<char>)>, input: Seq<char>, i: int)
    ensures
        0 <= lit_first_match(rules, input, i) <= rules.len(),
        forall|k: int|
            0 <= k < lit_first_match(rules, input, i) ==> !lit_matches_at(
                #[trigger] rules[k].0,
                input,
                i,
            ),
        lit_first_match(rules, input, i) < rules.len() ==> lit_matches_at(
            rules[lit_first_match(rules, input, i)].0,
            input,
            i,
        ),
    decreases rules.len(),
{
    if rules.len() == 0 {
    } else if lit_matches_at(rules[0].0, input, i) {
    } else {
        lemma_lit_first_match(rules.drop_first(), input, i);
        let fm = lit_first_match(rules, input, i);
        assert forall|k: int| 0 <= k < fm implies !lit_matches_at(
            #[trigger] rules[k].0,
            input,
            i,
        ) by {
            if k > 0 {
                assert(rules.drop_first()[k - 1] == rules[k]);
            }
        }
        if fm < rules.len() {
            assert(rules.drop_first()[fm - 1] == rules[fm]);
        }
    }
}

/// The output of a case-preserving literal pass from cursor position `i` on.
/// At each position the first matching rule applies: an empty replacement
/// deletes one input character (the cursor advances by one, not by the match
/// length); otherwise the case pattern of the matched span is projected onto
/// the replacement and the cursor advances by the match length.  With no
/// matching rule the input character is kept.
pub open spec fn literal_pass_spec(
    rules: Seq<(Seq<char>, Seq<char>)>,
    input: Seq<char>,
    i: int,
) -> Seq<char>
    decreases input.len() - i,
    via literal_pass_spec_dec
{
    if i < 0 || i >= input.len() {
        Seq::empty()
    } else {
        let k = lit_first_match(rules, input, i);
        if k == rules.len() {
            seq![input[i]] + literal_pass_spec(rules, input, i + 1)
        } else if rules[k].1.len() == 0 {
            literal_pass_spec(rules, input, i + 1)
        } else {
            apply_casing_spec(rules[k].1, cases_of(input.subrange(i, i + rules[k].0.len())))
                + literal_pass_spec(rules, input, i + rules[k].0.len())
        }
    }
}

#[via_fn]
proof fn literal_pass_spec_dec(rules: Seq<(Seq<char>, Seq<char>)>, input: Seq<char>, i: int) {
    lemma_lit_first_match(rules, input, i);
}

/// The output of a pattern rule list folded over the whole input: each
/// rule's replacement output is the next rule's input.
pub open spec fn pattern_rules_spec(
    rules: Seq<(Seq<char>, Seq<char>)>,
    input: Seq<char>,
) -> Seq<char>
    decreases rules.len(),
{
    if rules.len() == 0 {
        input
    } else {
        pattern_rules_spec(rules.drop_first(), pat_replaced(rules[0].0, rules[0].1, input))
    }
}

/// The output of a segmented pattern pass: the rule fold applied to each
/// segment independently, the results reassembled around the original
/// delimiters.
pub open spec fn segmented_pass_spec(
    rules: Seq<(Seq<char>, Seq<char>)>,
    input: Seq<char>,
) -> Seq<char> {
    desegmentize_spec(
        segments_of(input).map_values(|seg: Seq<char>| pattern_rules_spec(rules, seg)),
        delims_of(input),
    )
}

/// The output of one pass on one input.
pub open spec fn pass_output(p: PassModel, input: Seq<char>) -> Seq<char> {
    match p {
        PassModel::CasePreservingLiteral(rs) => literal_pass_spec(rs, input, 0),
        PassModel::GlobalPattern(rs) => pattern_rules_spec(rs, input),
        PassModel::SegmentedPattern(rs) => segmented_pass_spec(rs, input),
    }
}

/// Executable test of `lit_matches_at`.
fn lit_matches(from_chars: &Vec<char>, input: &Vec<char>, i: usize) -> (r: bool)
    requires
        i <= input@.len(),
    ensures
        r == lit_matches_at(from_chars@, input@, i as int),
{
    let flen = from_chars.len();
    if flen == 0 {
        return false;
    }
    if flen > input.len() - i {
        return false;
    }
    let mut j: usize = 0;
    while j < flen
        invariant
            flen == from_chars@.len(),
            flen > 0,
            i + flen <= input@.len(),
            input@.len() <= usize::MAX,
            j <= flen,
            forall|t: int|
                i <= t < i + j ==> #[trigger] lower_char(input@[t]) == seq![from_chars@[t - i]],
        decreases flen - j,
    {
        let lc = char_to_lower(input[i + j]);
        let fj = from_chars[j];
        let hit = lc.as_str().unicode_len() == 1 && lc.as_str().get_char(0) == fj;
        if !hit {
            proof {
                assert(lc@ != seq![fj]) by {
                    if lc@ == seq![fj] {
                        assert(lc@.len() == 1);
                        assert(lc@[0] == fj);
                    }
                }
                assert(lower_char(input@[i + j]) != seq![from_chars@[j as int]]);
            }
            return false;
        }
        proof {
            assert(lc@ =~= seq![fj]);
        }
        j = j + 1;
    }
    true
}

/// Execute a case-preserving literal pass.
pub fn execute_literal(rules: &Vec<LiteralRule>, input: &str) -> (r: String)
    ensures
        r@ == literal_pass_spec(rules.deep_view(), input@, 0),
{
    let ghost rl = rules.deep_view();
    let cs = str_chars(input);
    let n = cs.len();

    let mut tags: Vec<CharCase> = Vec::new();
    let mut t: usize = 0;
    while t < n
        invariant
            n == cs@.len(),
            t <= n,
            tags@.len() == t,
            forall|q: int| 0 <= q < t ==> tags@[q] == case_of(cs@[q]),
        decreases n - t,
    {
        tags.push(char_case(cs[t]));
        t = t + 1;
    }

    let mut out: Vec<char> = Vec::new();
    let mut i: usize = 0;
    proof {
        assert(out@ + literal_pass_spec(rl, cs@, 0) =~= literal_pass_spec(rl, cs@, 0));
    }
    while i < n
        invariant
            n == cs@.len(),
            cs@ == input@,
            rl == rules.deep_view(),
            tags@.len() == n,
            forall|q: int| 0 <= q < n ==> tags@[q] == case_of(cs@[q]),
            i <= n,
            literal_pass_spec(rl, cs@, 0) == out@ + literal_pass_spec(rl, cs@, i as int),
        decreases n - i,
    {
        let mut k: usize = 0;
        let mut matched = false;
        while k < rules.len() && !matched
            invariant
                rl == rules.deep_view(),
                k <= rl.len(),
                n == cs@.len(),
                i < n,
                forall|q: int| 0 <= q < k ==> !lit_matches_at(#[trigger] rl[q].0, cs@, i as int),
                matched ==> k < rl.len() && lit_matches_at(rl[k as int].0, cs@, i as int),
            decreases rl.len() - k, (if matched { 0int } else { 1int }),
        {
            let fc = str_chars(rules[k].from.as_str());
            if lit_matches(&fc, &cs, i) {
                matched = true;
            } else {
                k = k + 1;
            }
        }
        proof {
            lemma_lit_first_match(rl, cs@, i as int);
            let fm = lit_first_match(rl, cs@, i as int);
            if matched {
                if fm < k {
                    assert(!lit_matches_at(rl[fm].0, cs@, i as int));
                }
                if fm > k as int {
                    assert(!lit_matches_at(rl[k as int].0, cs@, i as int));
                }
                assert(fm == k as int);
            } else {
                assert(k == rl.len());
                if fm < rl.len() {
                    assert(!lit_matches_at(rl[fm].0, cs@, i as int));
                }
                assert(fm == rl.len());
            }
        }
        let ghost old_out = out@;
        if !matched {
            out.push(cs[i]);
            proof {
                assert(literal_pass_spec(rl, cs@, i as int) == seq![cs@[i as int]]
                    + literal_pass_spec(rl, cs@, i + 1));
                assert(out@ + literal_pass_spec(rl, cs@, i + 1) =~= old_out + literal_pass_spec(
                    rl,
                    cs@,
                    i as int,
                ));
            }
            i = i + 1;
        } else if rules[k].to.as_str().is_empty() {
            proof {
                assert(literal_pass_spec(rl, cs@, i as int) == literal_pass_spec(rl, cs@, i + 1));
            }
            i = i + 1;
        } else {
            let fc = str_chars(rules[k].from.as_str());
            let fl = fc.len();
            proof {
                assert(lit_matches_at(rl[k as int].0, cs@, i as int));
                assert(fl == rl[k as int].0.len());
                assert(fl > 0);
                assert(i + fl <= n);
            }
            let mut span: Vec<CharCase> = Vec::new();
            let mut q: usize = 0;
            while q < fl
                invariant
                    i + fl <= n,
                    tags@.len() == n,
                    q <= fl,
                    span@.len() == q,
                    forall|w: int| 0 <= w < q ==> span@[w] == tags@[i + w],
                decreases fl - q,
            {
                span.push(tags[i + q]);
                q = q + 1;
            }
            let ghost sub = cs@.subrange(i as int, i + fl);
            proof {
                assert forall|w: int| 0 <= w < fl implies span@[w] == cases_of(sub)[w] by {
                    assert(tags@[i + w] == case_of(cs@[i + w]));
                    assert(sub[w] == cs@[i + w]);
                }
                assert(span@ =~= cases_of(sub));
            }
            let chunk = apply_casing(rules[k].to.as_str(), span.as_slice());
            let mut chunk_chars = str_chars(chunk.as_str());
            out.append(&mut chunk_chars);
            proof {
                assert(literal_pass_spec(rl, cs@, i as int) == apply_casing_spec(
                    rl[k as int].1,
                    cases_of(sub),
                ) + literal_pass_spec(rl, cs@, i + fl));
                assert(out@ + literal_pass_spec(rl, cs@, i + fl) =~= old_out + literal_pass_spec(
                    rl,
                    cs@,
                    i as int,
                ));
            }
            i = i + fl;
        }
    }
    proof {
        assert(literal_pass_spec(rl, cs@, n as int) =~= Seq::<char>::empty());
        assert(out@ + literal_pass_spec(rl, cs@, n as int) =~= out@);
    }
    chars_to_string(&out)
}

/// Execute a pattern rule list over a whole string, each rule's output
/// feeding the next rule's input.
pub fn execute_pattern_rules(rules: &Vec<PatternRule>, input: &str) -> (r: String)
    requires
        pat_rules_wf(rules.deep_view()),
    ensures
        r@ == pattern_rules_spec(rules.deep_view(), input@),
{
    let ghost rl = rules.deep_view();
    let mut cur = String::from_str(input);
    let mut k: usize = 0;
    proof {
        assert(rl.subrange(0, rl.len() as int) =~= rl);
    }
    while k < rules.len()
        invariant
            rl == rules.deep_view(),
            pat_rules_wf(rl),
            k <= rl.len(),
            pattern_rules_spec(rl, input@) == pattern_rules_spec(
                rl.subrange(k as int, rl.len() as int),
                cur@,
            ),
        decreases rl.len() - k,
    {
        proof {
            assert(regex_valid(rl[k as int].0));
        }
        let res = regex_replace_all(rules[k].from.as_str(), rules[k].to.as_str(), cur.as_str());
        let ghost suffix = rl.subrange(k as int, rl.len() as int);
        proof {
            assert(suffix[0] == rl[k as int]);
            assert(suffix.drop_first() =~= rl.subrange(k + 1, rl.len() as int));
        }
        cur = res.unwrap();
        k = k + 1;
    }
    proof {
        assert(rl.subrange(rl.len() as int, rl.len() as int).len() == 0);
    }
    cur
}

/// Execute a segmented pattern pass: the rule list applied within each
/// segment, the transformed segments reassembled around the delimiters.
pub fn execute_segmented(rules: &Vec<PatternRule>, input: &str) -> (r: String)
    requires
        pat_rules_wf(rules.deep_view()),
    ensures
        r@ == segmented_pass_spec(rules.deep_view(), input@),
{
    let ghost rl = rules.deep_view();
    let (segs, seg_delims) = segmentize(input);
    let mut transformed: Vec<String> = Vec::new();
    let mut t: usize = 0;
    while t < segs.len()
        invariant
            rl == rules.deep_view(),
            pat_rules_wf(rl),
            segs.deep_view() == segments_of(input@),
            t <= segs@.len(),
            transformed@.len() == t,
            forall|q: int|
                0 <= q < t ==> transformed.deep_view()[q] == pattern_rules_spec(
                    rl,
                    #[trigger] segs.deep_view()[q],
                ),
        decreases segs@.len() - t,
    {
        let out = execute_pattern_rules(rules, segs[t].as_str());
        transformed.push(out);
        t = t + 1;
    }
    proof {
        lemma_segment_count(input@);
        assert(transformed.deep_view() =~= segments_of(input@).map_values(
            |seg: Seq<char>| pattern_rules_spec(rl, seg),
        ));
    }
    desegmentize(transformed, seg_delims)
}

impl TransformPass {
    /// Execute this pass on one input string.  Pass execution is total: once
    /// the pass is well formed (every pattern compiles), no input can make it
    /// fail.
    pub fn execute(&self, input: &str) -> (r: String)
        requires
            pass_wf(self@),
        ensures
            r@ == pass_output(self@, input@),
    {
        match self {
            TransformPass::CasePreservingLiteral(rules) => execute_literal(rules, input),
            TransformPass::GlobalPattern(rules) => execute_pattern_rules(rules, input),
            TransformPass::SegmentedPattern(rules) => execute_segmented(rules, input),
        }
    }
}

/// The input with every character whose lowercase mapping is exactly `x`
/// removed, all other characters kept.
pub open spec fn without_matching(input: Seq<char>, x: char) -> Seq<char>
    decreases input.len(),
{
    if input.len() == 0 {
        Seq::empty()
    } else if lower_char(input[0]) == seq![x] {
        without_matching(input.drop_first(), x)
    } else {
        seq![input[0]] + without_matching(input.drop_first(), x)
    }
}

proof fn lemma_literal_deletion_from(x: char, input: Seq<char>, i: int)
    requires
        0 <= i <= input.len(),
    ensures
        literal_pass_spec(seq![(seq![x], Seq::<char>::empty())], input, i) == without_matching(
            input.subrange(i, input.len() as int),
            x,
        ),
    decreases input.len() - i,
{
    let rules = seq![(seq![x], Seq::<char>::empty())];
    let sub = input.subrange(i, input.len() as int);
    if i == input.len() {
        assert(sub.len() == 0);
    } else {
        lemma_literal_deletion_from(x, input, i + 1);
        assert(sub[0] == input[i]);
        assert(sub.drop_first() =~= input.subrange(i + 1, input.len() as int));
        assert(rules[0].0 == seq![x]);
        assert(seq![x].len() == 1);
        if lower_char(input[i]) == seq![x] {
            assert(lit_matches_at(rules[0].0, input, i)) by {
                assert forall|j: int| i <= j < i + 1 implies #[trigger] lower_char(input[j])
                    == seq![seq![x][j - i]] by {
                    assert(j == i);
                }
            }
            assert(lit_first_match(rules, input, i) == 0);
        } else {
            assert(!lit_matches_at(rules[0].0, input, i)) by {
                if lit_matches_at(rules[0].0, input, i) {
                    assert(lower_char(input[i]) == seq![seq![x][0]]);
                }
            }
            assert(rules.drop_first().len() == 0);
            assert(lit_first_match(rules.drop_first(), input, i) == 0);
            assert(lit_first_match(rules, input, i) == 1);
        }
    }
}

/// A single literal rule with an empty replacement removes every character
/// of the input whose lowercase mapping is the rule's one character, and
/// leaves every other character untouched.
pub proof fn lemma_literal_deletion(x: char, input: Seq<char>)
    ensures
        literal_pass_spec(seq![(seq![x], Seq::<char>::empty())], input, 0) == without_matching(
            input,
            x,
        ),
{
    lemma_literal_deletion_from(x, input, 0);
    assert(input.subrange(0, input.len() as int) =~= input);
}

/// In a pattern pass the rules run in sequence: with two rules, the second
/// rule's input is exactly the first rule's output.
pub proof fn lemma_pattern_pass_sequencing(
    r1: (Seq<char>, Seq<char>),
    r2: (Seq<char>, Seq<char>),
    input: Seq<char>,
)
    ensures
        pattern_rules_spec(seq![r1, r2], input) == pat_replaced(
            r2.0,
            r2.1,
            pat_replaced(r1.0, r1.1, input),
        ),
{
    let mid = pat_replaced(r1.0, r1.1, input);
    let last = pat_replaced(r2.0, r2.1, mid);
    assert(seq![r1, r2].drop_first() =~= seq![r2]);
    assert(seq![r2].drop_first() =~= Seq::<(Seq<char>, Seq<char>)>::empty());
    assert(pattern_rules_spec(Seq::<(Seq<char>, Seq<char>)>::empty(), last) == last);
    assert(pattern_rules_spec(seq![r2], mid) == last);
}

/// Declaration order decides: where the first rule matches, the pass applies
/// it, whatever later rules would have matched at the same position.
pub proof fn lemma_rule_order_precedence(
    rules: Seq<(Seq<char>, Seq<char>)>,
    input: Seq<char>,
    i: int,
)
    requires
        rules.len() > 0,
        lit_matches_at(rules[0].0, input, i),
        rules[0].1.len() > 0,
    ensures
        literal_pass_spec(rules, input, i) == apply_casing_spec(
            rules[0].1,
            cases_of(input.subrange(i, i + rules[0].0.len())),
        ) + literal_pass_spec(rules, input, i + rules[0].0.len()),
{
    assert(lit_first_match(rules, input, i) == 0);
    assert(i < input.len());
}

} // verus!
