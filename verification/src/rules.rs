//! The rule and pass model: substitution rules, the three pass strategies,
//! parse errors, and the trusted interface to the regular-expression engine.

use vstd::prelude::*;

verus! {

/// Whether a pattern is accepted by the regular-expression engine.
pub uninterp spec fn regex_valid(pattern: Seq<char>) -> bool;

/// The result of replacing every non-overlapping match of `pattern` in
/// `input` with the template `template` (capture-group references in the
/// template are expanded), scanning left to right.  It depends on the three
/// strings alone.
pub uninterp spec fn pat_replaced(pattern: Seq<char>, template: Seq<char>, input: Seq<char>) -> Seq<
    char,
>;

/// Relies on `regex::Regex::new`: compilation succeeds exactly when the
/// pattern is valid regular-expression syntax, which depends on the pattern
/// alone.
#[verifier::external_body]
pub(crate) fn regex_is_valid(pattern: &str) -> (r: bool)
    ensures
        r == regex_valid(pattern@),
{
    regex::Regex::new(pattern).is_ok()
}

/// Relies on `regex::Regex::new` and `regex::Regex::replace_all`: compiling
/// a valid pattern and replacing every non-overlapping match of it in
/// `input` with the template, left to right, with capture-group expansion.
/// Returns `None` exactly when the pattern does not compile.
#[verifier::external_body]
pub(crate) fn regex_replace_all(pattern: &str, template: &str, input: &str) -> (r: Option<String>)
    ensures
        r is Some <==> regex_valid(pattern@),
        r is Some ==> r->Some_0@ == pat_replaced(pattern@, template@, input@),
{
    match regex::Regex::new(pattern) {
        Ok(re) => Some(re.replace_all(input, template).into_owned()),
        Err(_) => None,
    }
}

/// A literal substitution rule; both fields are lowercased at parse time.
pub struct LiteralRule {
    pub from: String,
    pub to: String,
}

impl View for LiteralRule {
    type V = (Seq<char>, Seq<char>);

    open spec fn view(&self) -> (Seq<char>, Seq<char>) {
        (self.from@, self.to@)
    }
}

impl DeepView for LiteralRule {
    type V = (Seq<char>, Seq<char>);

    open spec fn deep_view(&self) -> (Seq<char>, Seq<char>) {
        self.view()
    }
}

/// A pattern substitution rule: `from` is a regular-expression pattern,
/// validated at parse time, and `to` is a replacement template kept as
/// written.
pub struct PatternRule {
    pub from: String,
    pub to: String,
}

impl View for PatternRule {
    type V = (Seq<char>, Seq<char>);

    open spec fn view(&self) -> (Seq<char>, Seq<char>) {
        (self.from@, self.to@)
    }
}

impl DeepView for PatternRule {
    type V = (Seq<char>, Seq<char>);

    open spec fn deep_view(&self) -> (Seq<char>, Seq<char>) {
        self.view()
    }
}

/// One transform pass: a strategy together with its rules, in declaration
/// order.  The strategy fixes the rule kind.
pub enum TransformPass {
    CasePreservingLiteral(Vec<LiteralRule>),
    GlobalPattern(Vec<PatternRule>),
    SegmentedPattern(Vec<PatternRule>),
}

/// The mathematical model of a pass: its strategy and its rules as
/// `(from, to)` pairs of character sequences.
pub enum PassModel {
    CasePreservingLiteral(Seq<(Seq<char>, Seq<char>)>),
    GlobalPattern(Seq<(Seq<char>, Seq<char>)>),
    SegmentedPattern(Seq<(Seq<char>, Seq<char>)>),
}

impl View for TransformPass {
    type V = PassModel;

    open spec fn view(&self) -> PassModel {
        match self {
            TransformPass::CasePreservingLiteral(rules) => PassModel::CasePreservingLiteral(
                rules.deep_view(),
            ),
            TransformPass::GlobalPattern(rules) => PassModel::GlobalPattern(rules.deep_view()),
            TransformPass::SegmentedPattern(rules) => PassModel::SegmentedPattern(
                rules.deep_view(),
            ),
        }
    }
}

impl DeepView for TransformPass {
    type V = PassModel;

    open spec fn deep_view(&self) -> PassModel {
        self.view()
    }
}

impl PassModel {
    /// The rules of the pass, whatever its strategy.
    pub open spec fn rules(self) -> Seq<(Seq<char>, Seq<char>)> {
        match self {
            PassModel::CasePreservingLiteral(rs) => rs,
            PassModel::GlobalPattern(rs) => rs,
            PassModel::SegmentedPattern(rs) => rs,
        }
    }
}

/// Every pattern of a rule list compiles.
pub open spec fn pat_rules_wf(rules: Seq<(Seq<char>, Seq<char>)>) -> bool {
    forall|i: int| 0 <= i < rules.len() ==> regex_valid(#[trigger] rules[i].0)
}

/// A pass is well formed when every pattern it holds compiles; a literal
/// pass holds no pattern.
pub open spec fn pass_wf(p: PassModel) -> bool {
    match p {
        PassModel::CasePreservingLiteral(_) => true,
        PassModel::GlobalPattern(rs) => pat_rules_wf(rs),
        PassModel::SegmentedPattern(rs) => pat_rules_wf(rs),
    }
}

impl TransformPass {
    /// Whether the pass holds at least one rule.
    pub fn has_rules(&self) -> (r: bool)
        ensures
            r == (self@.rules().len() > 0),
    {
        match self {
            TransformPass::CasePreservingLiteral(rules) => rules.len() > 0,
            TransformPass::GlobalPattern(rules) => rules.len() > 0,
            TransformPass::SegmentedPattern(rules) => rules.len() > 0,
        }
    }
}

/// A parse-time fatal error, carrying the offending (comment-stripped,
/// trimmed) line.
pub enum ParseError {
    /// A rule line appeared before any pass header.
    MissingPassHeader { line: String },
    /// A header named none of the three strategies.
    InvalidPassHeader { line: String },
    /// A rule line held no `/` separator.
    MalformedRule { line: String },
    /// A pattern rule's pattern did not compile.
    InvalidPattern { line: String },
}

/// The mathematical model of a parse error.
pub enum ParseErrorModel {
    MissingPassHeader { line: Seq<char> },
    InvalidPassHeader { line: Seq<char> },
    MalformedRule { line: Seq<char> },
    InvalidPattern { line: Seq<char> },
}

impl View for ParseError {
    type V = ParseErrorModel;

    open spec fn view(&self) -> ParseErrorModel {
        match self {
            ParseError::MissingPassHeader { line } => ParseErrorModel::MissingPassHeader {
                line: line@,
            },
            ParseError::InvalidPassHeader { line } => ParseErrorModel::InvalidPassHeader {
                line: line@,
            },
            ParseError::MalformedRule { line } => ParseErrorModel::MalformedRule { line: line@ },
            ParseError::InvalidPattern { line } => ParseErrorModel::InvalidPattern { line: line@ },
        }
    }
}

impl ParseError {
    /// A short description of the error together with the offending line.
    pub fn message(&self) -> (r: String)
        ensures
            r@ == match self@ {
                ParseErrorModel::MissingPassHeader { line } => (
                "missing transform pass definition header: ")@ + line,
                ParseErrorModel::InvalidPassHeader { line } => (
                "invalid transform pass definition header: ")@ + line,
                ParseErrorModel::MalformedRule { line } => ("malformed rule line: ")@ + line,
                ParseErrorModel::InvalidPattern { line } => ("invalid pattern in rule line: ")@
                    + line,
            },
    {
        match self {
            ParseError::MissingPassHeader { line } => join_msg(
                "missing transform pass definition header: ",
                line,
            ),
            ParseError::InvalidPassHeader { line } => join_msg(
                "invalid transform pass definition header: ",
                line,
            ),
            ParseError::MalformedRule { line } => join_msg("malformed rule line: ", line),
            ParseError::InvalidPattern { line } => join_msg("invalid pattern in rule line: ", line),
        }
    }
}

fn join_msg(prefix: &str, line: &String) -> (r: String)
    ensures
        r@ == prefix@ + line@,
{
    let mut r = String::from_str(prefix);
    r.append(line.as_str());
    r
}

} // verus!
