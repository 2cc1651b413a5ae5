//! The rule-file parser: comment stripping, trimming, pass headers, and
//! rule lines, producing the ordered pass list.
//!
//! Each line is cut at its first `#`, then trimmed; lines that become empty
//! are dropped.  A line starting with `@` declares a pass by one of three
//! strategy names; any other line is a rule of the current pass, split at
//! its first `/`.  A declared pass is kept only when at least one rule
//! followed it.

use vstd::prelude::*;

use crate::rules::LiteralRule;
use crate::rules::ParseError;
use crate::rules::ParseErrorModel;
use crate::rules::PassModel;
use crate::rules::PatternRule;
use crate::rules::TransformPass;
use crate::rules::pass_wf;
use crate::rules::regex_is_valid;
use crate::rules::regex_valid;
use crate::text::char_is_whitespace;
use crate::text::char_is_ws;
use crate::text::chars_eq;
use crate::text::chars_to_string;
use crate::text::lower_str;
use crate::text::str_chars;
use crate::text::str_to_lower;

verus! {

/// Index of the first `#` in `s`, or `s.len()` if there is none.
pub open spec fn first_hash(s: Seq<char>) -> int
    decreases s.len(),
{
    if s.len() == 0 {
        0
    } else if s[0] == '#' {
        0
    } else {
        1 + first_hash(s.drop_first())
    }
}

proof fn lemma_first_hash_is(s: Seq<char>, k: int)
    requires
        0 <= k <= s.len(),
        forall|j: int| 0 <= j < k ==> s[j] != '#',
        k < s.len() ==> s[k] == '#',
    ensures
        first_hash(s) == k,
    decreases s.len(),
{
    if s.len() == 0 {
    } else if s[0] == '#' {
    } else {
        assert forall|j: int| 0 <= j < k - 1 implies s.drop_first()[j] != '#' by {
            assert(s.drop_first()[j] == s[j + 1]);
        }
        lemma_first_hash_is(s.drop_first(), k - 1);
    }
}

/// Everything before the first `#`: the line with any comment stripped.
pub open spec fn strip_comment_spec(s: Seq<char>) -> Seq<char> {
    s.subrange(0, first_hash(s))
}

/// The count of leading whitespace characters of `s`.
pub open spec fn leading_ws(s: Seq<char>) -> int
    decreases s.len(),
{
    if s.len() == 0 {
        0
    } else if !char_is_ws(s[0]) {
        0
    } else {
        1 + leading_ws(s.drop_first())
    }
}

/// The count of trailing whitespace characters of `s`.
pub open spec fn trailing_ws(s: Seq<char>) -> int
    decreases s.len(),
{
    if s.len() == 0 {
        0
    } else if !char_is_ws(s[s.len() - 1]) {
        0
    } else {
        1 + trailing_ws(s.drop_last())
    }
}

/// `s` with leading and trailing whitespace removed.
pub open spec fn trim_spec(s: Seq<char>) -> Seq<char> {
    let a = leading_ws(s);
    if a == s.len() {
        Seq::empty()
    } else {
        s.subrange(a, s.len() - trailing_ws(s))
    }
}

proof fn lemma_leading_ws_is(s: Seq<char>, k: int)
    requires
        0 <= k <= s.len(),
        forall|j: int| 0 <= j < k ==> char_is_ws(#[trigger] s[j]),
        k < s.len() ==> !char_is_ws(s[k]),
    ensures
        leading_ws(s) == k,
    decreases s.len(),
{
    if s.len() == 0 {
    } else if k == 0 {
    } else {
        assert(char_is_ws(s[0]));
        assert forall|j: int| 0 <= j < k - 1 implies char_is_ws(#[trigger] s.drop_first()[j]) by {
            assert(s.drop_first()[j] == s[j + 1]);
        }
        if k - 1 < s.drop_first().len() {
            assert(s.drop_first()[k - 1] == s[k as int]);
        }
        lemma_leading_ws_is(s.drop_first(), k - 1);
    }
}

proof fn lemma_trailing_ws_is(s: Seq<char>, b: int)
    requires
        0 <= b <= s.len(),
        forall|j: int| b <= j < s.len() ==> char_is_ws(#[trigger] s[j]),
        b > 0 ==> !char_is_ws(s[b - 1]),
    ensures
        trailing_ws(s) == s.len() - b,
    decreases s.len(),
{
    if s.len() == 0 {
    } else if b == s.len() {
        assert(!char_is_ws(s[s.len() - 1]));
    } else {
        assert(char_is_ws(s[s.len() - 1]));
        assert forall|j: int| b <= j < s.drop_last().len() implies char_is_ws(
            #[trigger] s.drop_last()[j],
        ) by {
            assert(s.drop_last()[j] == s[j]);
        }
        if b > 0 {
            assert(s.drop_last()[b - 1] == s[b - 1]);
        }
        lemma_trailing_ws_is(s.drop_last(), b);
    }
}

/// One raw line after comment stripping and trimming.
pub open spec fn preprocess_line(s: Seq<char>) -> Seq<char> {
    trim_spec(strip_comment_spec(s))
}

/// The raw lines after preprocessing, with lines that became empty dropped.
pub open spec fn preprocess_spec(lines: Seq<Seq<char>>) -> Seq<Seq<char>>
    decreases lines.len(),
{
    if lines.len() == 0 {
        Seq::empty()
    } else {
        let h = preprocess_line(lines[0]);
        (if h.len() == 0 {
            Seq::<Seq<char>>::empty()
        } else {
            seq![h]
        }) + preprocess_spec(lines.drop_first())
    }
}

/// Index of the first `/` in `s`, or `s.len()` if there is none.
pub open spec fn first_slash(s: Seq<char>) -> int
    decreases s.len(),
{
    if s.len() == 0 {
        0
    } else if s[0] == '/' {
        0
    } else {
        1 + first_slash(s.drop_first())
    }
}

proof fn lemma_first_slash_is(s: Seq<char>, k: int)
    requires
        0 <= k <= s.len(),
        forall|j: int| 0 <= j < k ==> s[j] != '/',
        k < s.len() ==> s[k] == '/',
    ensures
        first_slash(s) == k,
    decreases s.len(),
{
    if s.len() == 0 {
    } else if s[0] == '/' {
    } else {
        assert forall|j: int| 0 <= j < k - 1 implies s.drop_first()[j] != '/' by {
            assert(s.drop_first()[j] == s[j + 1]);
        }
        lemma_first_slash_is(s.drop_first(), k - 1);
    }
}

/// The empty pass declared by a header name, or `None` for an unknown name.
/// The three wire names are matched case-sensitively.
pub open spec fn strategy_of_name(name: Seq<char>) -> Option<PassModel> {
    if name == "NonReturningNonSegmentedSimple"@ {
        Some(PassModel::CasePreservingLiteral(Seq::empty()))
    } else if name == "ReturningNonSegmentedRegex"@ {
        Some(PassModel::GlobalPattern(Seq::empty()))
    } else if name == "ReturningSegmentedRegex"@ {
        Some(PassModel::SegmentedPattern(Seq::empty()))
    } else {
        None
    }
}

/// The pass with one rule appended.
pub open spec fn append_rule(p: PassModel, r: (Seq<char>, Seq<char>)) -> PassModel {
    match p {
        PassModel::CasePreservingLiteral(rs) => PassModel::CasePreservingLiteral(rs.push(r)),
        PassModel::GlobalPattern(rs) => PassModel::GlobalPattern(rs.push(r)),
        PassModel::SegmentedPattern(rs) => PassModel::SegmentedPattern(rs.push(r)),
    }
}

/// Parse one rule line for the given pass: split at the first `/`; a line
/// without `/` is malformed.  A literal rule's fields are lowercased; a
/// pattern rule's pattern must compile and its template is kept as written.
pub open spec fn parse_rule_spec(p: PassModel, line: Seq<char>) -> Result<
    (Seq<char>, Seq<char>),
    ParseErrorModel,
> {
    let sl = first_slash(line);
    if sl == line.len() {
        Err(ParseErrorModel::MalformedRule { line })
    } else {
        let from_raw = line.subrange(0, sl);
        let to_raw = line.subrange(sl + 1, line.len() as int);
        match p {
            PassModel::CasePreservingLiteral(_) => Ok((lower_str(from_raw), lower_str(to_raw))),
            _ => if regex_valid(from_raw) {
                Ok((from_raw, to_raw))
            } else {
                Err(ParseErrorModel::InvalidPattern { line })
            },
        }
    }
}

/// Close the pass under construction: it joins the pipeline only when at
/// least one rule followed its header.
pub open spec fn close_pass(cur: Option<PassModel>) -> Seq<PassModel> {
    match cur {
        None => Seq::empty(),
        Some(p) => if p.rules().len() > 0 {
            seq![p]
        } else {
            Seq::empty()
        },
    }
}

/// Parse preprocessed lines, given the pass under construction and the
/// passes already closed.
pub open spec fn parse_lines(
    lines: Seq<Seq<char>>,
    cur: Option<PassModel>,
    done: Seq<PassModel>,
) -> Result<Seq<PassModel>, ParseErrorModel>
    decreases lines.len(),
{
    if lines.len() == 0 {
        Ok(done + close_pass(cur))
    } else {
        let line = lines[0];
        if line.len() > 0 && line[0] == '@' {
            match strategy_of_name(line.drop_first()) {
                None => Err(ParseErrorModel::InvalidPassHeader { line }),
                Some(p0) => parse_lines(lines.drop_first(), Some(p0), done + close_pass(cur)),
            }
        } else {
            match cur {
                None => Err(ParseErrorModel::MissingPassHeader { line }),
                Some(p) => match parse_rule_spec(p, line) {
                    Err(e) => Err(e),
                    Ok(r) => parse_lines(lines.drop_first(), Some(append_rule(p, r)), done),
                },
            }
        }
    }
}

/// The parse of a whole rules file, from its raw lines.
pub open spec fn build_passes_spec(lines: Seq<Seq<char>>) -> Result<
    Seq<PassModel>,
    ParseErrorModel,
> {
    parse_lines(preprocess_spec(lines), None, Seq::empty())
}

/// Copy of the characters `a..b` of `s`.
fn subvec(s: &Vec<char>, a: usize, b: usize) -> (r: Vec<char>)
    requires
        a <= b <= s@.len(),
    ensures
        r@ == s@.subrange(a as int, b as int),
{
    let mut r: Vec<char> = Vec::new();
    let mut q: usize = a;
    while q < b
        invariant
            a <= q <= b <= s@.len(),
            r@ == s@.subrange(a as int, q as int),
        decreases b - q,
    {
        r.push(s[q]);
        q = q + 1;
        proof {
            assert(r@ =~= s@.subrange(a as int, q as int));
        }
    }
    r
}

/// Cut the line at its first `#`.
fn strip_comment_chars(s: &Vec<char>) -> (r: Vec<char>)
    ensures
        r@ == strip_comment_spec(s@),
{
    let n = s.len();
    let mut q: usize = 0;
    let mut r: Vec<char> = Vec::new();
    while q < n && s[q] != '#'
        invariant
            n == s@.len(),
            q <= n,
            forall|w: int| 0 <= w < q ==> s@[w] != '#',
            r@ == s@.subrange(0, q as int),
        decreases n - q,
    {
        r.push(s[q]);
        q = q + 1;
        proof {
            assert(r@ =~= s@.subrange(0, q as int));
        }
    }
    proof {
        lemma_first_hash_is(s@, q as int);
    }
    r
}

/// Trim leading and trailing whitespace.
fn trim_chars(s: &Vec<char>) -> (r: Vec<char>)
    ensures
        r@ == trim_spec(s@),
{
    let n = s.len();
    let mut a: usize = 0;
    while a < n && char_is_whitespace(s[a])
        invariant
            n == s@.len(),
            a <= n,
            forall|w: int| 0 <= w < a ==> char_is_ws(#[trigger] s@[w]),
        decreases n - a,
    {
        a = a + 1;
    }
    proof {
        lemma_leading_ws_is(s@, a as int);
    }
    if a == n {
        let r: Vec<char> = Vec::new();
        proof {
            assert(r@ =~= trim_spec(s@));
        }
        return r;
    }
    let mut b: usize = n;
    while b > a + 1 && char_is_whitespace(s[b - 1])
        invariant
            n == s@.len(),
            a < n,
            !char_is_ws(s@[a as int]),
            a + 1 <= b <= n,
            forall|w: int| b <= w < n ==> char_is_ws(#[trigger] s@[w]),
        decreases b,
    {
        b = b - 1;
    }
    proof {
        if b == a + 1 && char_is_ws(s@[b - 1]) {
            assert(false);
        }
        lemma_trailing_ws_is(s@, b as int);
    }
    subvec(s, a, b)
}

/// The model of the pass under construction.
pub open spec fn cur_model(cur: Option<TransformPass>) -> Option<PassModel> {
    match cur {
        None => None,
        Some(p) => Some(p@),
    }
}

/// Append one rule line to a pass, taking the pass by value.
fn pass_with_rule(p: TransformPass, line: &Vec<char>) -> (r: Result<TransformPass, ParseError>)
    ensures
        r is Ok <==> parse_rule_spec(p@, line@) is Ok,
        r is Ok ==> r->Ok_0@ == append_rule(p@, parse_rule_spec(p@, line@)->Ok_0),
        r is Err ==> r->Err_0@ == parse_rule_spec(p@, line@)->Err_0,
{
    let n = line.len();
    let mut sl: usize = 0;
    while sl < n && line[sl] != '/'
        invariant
            n == line@.len(),
            sl <= n,
            forall|w: int| 0 <= w < sl ==> line@[w] != '/',
        decreases n - sl,
    {
        sl = sl + 1;
    }
    proof {
        lemma_first_slash_is(line@, sl as int);
    }
    if sl == n {
        return Err(ParseError::MalformedRule { line: chars_to_string(line) });
    }
    let from_raw = subvec(line, 0, sl);
    let to_raw = subvec(line, sl + 1, n);
    match p {
        TransformPass::CasePreservingLiteral(mut rules) => {
            let ghost old_rules = rules.deep_view();
            let from = str_to_lower(chars_to_string(&from_raw).as_str());
            let to = str_to_lower(chars_to_string(&to_raw).as_str());
            rules.push(LiteralRule { from, to });
            proof {
                assert(rules.deep_view() =~= old_rules.push(
                    (lower_str(from_raw@), lower_str(to_raw@)),
                ));
            }
            Ok(TransformPass::CasePreservingLiteral(rules))
        },
        TransformPass::GlobalPattern(mut rules) => {
            let from = chars_to_string(&from_raw);
            if !regex_is_valid(from.as_str()) {
                return Err(ParseError::InvalidPattern { line: chars_to_string(line) });
            }
            let ghost old_rules = rules.deep_view();
            let to = chars_to_string(&to_raw);
            rules.push(PatternRule { from, to });
            proof {
                assert(rules.deep_view() =~= old_rules.push((from_raw@, to_raw@)));
            }
            Ok(TransformPass::GlobalPattern(rules))
        },
        TransformPass::SegmentedPattern(mut rules) => {
            let from = chars_to_string(&from_raw);
            if !regex_is_valid(from.as_str()) {
                return Err(ParseError::InvalidPattern { line: chars_to_string(line) });
            }
            let ghost old_rules = rules.deep_view();
            let to = chars_to_string(&to_raw);
            rules.push(PatternRule { from, to });
            proof {
                assert(rules.deep_view() =~= old_rules.push((from_raw@, to_raw@)));
            }
            Ok(TransformPass::SegmentedPattern(rules))
        },
    }
}

/// Build the ordered pass list from the raw lines of a rules file.
pub fn build_passes(lines: &Vec<String>) -> (r: Result<Vec<TransformPass>, ParseError>)
    ensures
        r is Ok <==> build_passes_spec(lines.deep_view()) is Ok,
        r is Ok ==> r->Ok_0.deep_view() == build_passes_spec(lines.deep_view())->Ok_0,
        r is Ok ==> forall|q: int|
            0 <= q < r->Ok_0.deep_view().len() ==> pass_wf(#[trigger] r->Ok_0.deep_view()[q]),
        r is Err ==> r->Err_0@ == build_passes_spec(lines.deep_view())->Err_0,
{
    let ghost all = lines.deep_view();
    let ghost target = parse_lines(preprocess_spec(all), None, Seq::<PassModel>::empty());
    let mut done: Vec<TransformPass> = Vec::new();
    let mut cur: Option<TransformPass> = None;
    let mut li: usize = 0;
    proof {
        assert(all.subrange(0, all.len() as int) =~= all);
        assert(done.deep_view() =~= Seq::<PassModel>::empty());
    }
    while li < lines.len()
        invariant
            all == lines.deep_view(),
            target == parse_lines(preprocess_spec(all), None, Seq::<PassModel>::empty()),
            li <= all.len(),
            target == parse_lines(
                preprocess_spec(all.subrange(li as int, all.len() as int)),
                cur_model(cur),
                done.deep_view(),
            ),
            forall|q: int|
                0 <= q < done.deep_view().len() ==> pass_wf(#[trigger] done.deep_view()[q]),
            cur matches Some(p) ==> pass_wf(p@),
        decreases all.len() - li,
    {
        let ghost rest = all.subrange(li as int, all.len() as int);
        proof {
            assert(rest[0] == all[li as int]);
            assert(rest.drop_first() =~= all.subrange(li + 1, all.len() as int));
        }
        let raw = str_chars(lines[li].as_str());
        let stripped = strip_comment_chars(&raw);
        let trimmed = trim_chars(&stripped);
        let ghost h = preprocess_line(all[li as int]);
        proof {
            assert(trimmed@ == h);
            if h.len() == 0 {
                assert(preprocess_spec(rest) == preprocess_spec(rest.drop_first()));
            } else {
                assert(preprocess_spec(rest) == seq![h] + preprocess_spec(rest.drop_first()));
                assert((seq![h] + preprocess_spec(rest.drop_first()))[0] == h);
                assert((seq![h] + preprocess_spec(rest.drop_first())).drop_first()
                    =~= preprocess_spec(rest.drop_first()));
            }
        }
        if trimmed.len() == 0 {
            li = li + 1;
            continue ;
        }
        if trimmed[0] == '@' {
            let name = subvec(&trimmed, 1, trimmed.len());
            proof {
                assert(name@ =~= h.drop_first());
            }
            let new_pass: TransformPass;
            if chars_eq(&name, &str_chars("NonReturningNonSegmentedSimple")) {
                let v: Vec<LiteralRule> = Vec::new();
                proof {
                    assert(v.deep_view() =~= Seq::<(Seq<char>, Seq<char>)>::empty());
                }
                new_pass = TransformPass::CasePreservingLiteral(v);
            } else if chars_eq(&name, &str_chars("ReturningNonSegmentedRegex")) {
                let v: Vec<PatternRule> = Vec::new();
                proof {
                    assert(v.deep_view() =~= Seq::<(Seq<char>, Seq<char>)>::empty());
                }
                new_pass = TransformPass::GlobalPattern(v);
            } else if chars_eq(&name, &str_chars("ReturningSegmentedRegex")) {
                let v: Vec<PatternRule> = Vec::new();
                proof {
                    assert(v.deep_view() =~= Seq::<(Seq<char>, Seq<char>)>::empty());
                }
                new_pass = TransformPass::SegmentedPattern(v);
            } else {
                proof {
                    assert(strategy_of_name(h.drop_first()) is None);
                }
                return Err(ParseError::InvalidPassHeader { line: chars_to_string(&trimmed) });
            }
            proof {
                assert(strategy_of_name(h.drop_first()) == Some(new_pass@));
            }
            let ghost old_done = done.deep_view();
            let prev = cur;
            match prev {
                Some(p) => {
                    if p.has_rules() {
                        done.push(p);
                        proof {
                            assert(done.deep_view() =~= old_done.push(p@));
                            assert(done.deep_view() =~= old_done + close_pass(Some(p@)));
                        }
                    } else {
                        proof {
                            assert(done.deep_view() =~= old_done + close_pass(Some(p@)));
                        }
                    }
                },
                None => {
                    proof {
                        assert(done.deep_view() =~= old_done + close_pass(None));
                    }
                },
            }
            cur = Some(new_pass);
        } else {
            proof {
                assert(!(h.len() > 0 && h[0] == '@'));
            }
            let prev = cur;
            match prev {
                None => {
                    return Err(ParseError::MissingPassHeader { line: chars_to_string(&trimmed) });
                },
                Some(p) => {
                    let ghost pm = p@;
                    match pass_with_rule(p, &trimmed) {
                        Ok(p2) => {
                            proof {
                                assert(pass_wf(p2@)) by {
                                    let r0 = parse_rule_spec(pm, h)->Ok_0;
                                    match pm {
                                        PassModel::CasePreservingLiteral(_) => {},
                                        PassModel::GlobalPattern(rs) => {
                                            assert(regex_valid(r0.0));
                                            assert(forall|w: int|
                                                0 <= w < rs.push(r0).len() ==> regex_valid(
                                                    #[trigger] rs.push(r0)[w].0,
                                                ));
                                        },
                                        PassModel::SegmentedPattern(rs) => {
                                            assert(regex_valid(r0.0));
                                            assert(forall|w: int|
                                                0 <= w < rs.push(r0).len() ==> regex_valid(
                                                    #[trigger] rs.push(r0)[w].0,
                                                ));
                                        },
                                    }
                                }
                            }
                            cur = Some(p2);
                        },
                        Err(e) => {
                            return Err(e);
                        },
                    }
                },
            }
        }
        li = li + 1;
    }
    proof {
        assert(all.subrange(all.len() as int, all.len() as int).len() == 0);
        assert(preprocess_spec(all.subrange(all.len() as int, all.len() as int)).len() == 0);
    }
    let ghost old_done = done.deep_view();
    let prev = cur;
    match prev {
        Some(p) => {
            if p.has_rules() {
                done.push(p);
                proof {
                    assert(done.deep_view() =~= old_done.push(p@));
                    assert(done.deep_view() =~= old_done + close_pass(Some(p@)));
                }
            } else {
                proof {
                    assert(done.deep_view() =~= old_done + close_pass(Some(p@)));
                }
            }
        },
        None => {
            proof {
                assert(done.deep_view() =~= old_done + close_pass(None));
            }
        },
    }
    Ok(done)
}

} // verus!
