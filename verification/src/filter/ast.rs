//! The filter expression tree, and the compiled test-name patterns it holds.
use vstd::prelude::*;

use crate::runner::binary::BinaryKind;

verus! {

#[verifier::external_type_specification]
#[verifier::external_body]
pub struct ExRegex(regex::Regex);

#[verifier::external_type_specification]
#[verifier::external_body]
pub struct ExRegexError(regex::Error);

/// Whether `regex` compiles `pattern` with its lazy DFA limited to
/// `dfa_size_limit` bytes.
pub uninterp spec fn regex_builds(pattern: Seq<char>, dfa_size_limit: usize) -> bool;

/// The DFA size limit, in bytes, that test-name patterns are compiled with.
pub const PATTERN_DFA_SIZE_LIMIT: usize = 262144;

/// Whether the regex compiled from `pattern` matches somewhere in `haystack`.
pub uninterp spec fn regex_is_match(pattern: Seq<char>, haystack: Seq<char>) -> bool;

/// A compiled test-name pattern together with its source text. Only
/// `compile_pattern` builds one, so the regex is always the one compiled
/// from `source`.
#[derive(Debug)]
pub struct TestPattern {
    source: String,
    regex: regex::Regex,
}

impl View for TestPattern {
    type V = Seq<char>;

    closed spec fn view(&self) -> Seq<char> {
        self.source@
    }
}

impl TestPattern {
    /// The pattern's source text.
    pub fn source(&self) -> (r: &str)
        ensures
            r@ == self@,
    {
        self.source.as_str()
    }
}

/// `RegexBuilder::new(pattern).dfa_size_limit(dfa_size_limit).build()`:
/// compiles `pattern`; succeeds exactly when `regex_builds` holds of it,
/// and keeps the source text beside the compiled regex.
#[verifier::external_body]
pub(crate) fn compile_pattern(pattern: &str, dfa_size_limit: usize) -> (r: Result<TestPattern, regex::Error>)
    ensures
        r is Ok <==> regex_builds(pattern@, dfa_size_limit),
        r matches Ok(p) ==> p@ == pattern@,
{
    match regex::RegexBuilder::new(pattern).dfa_size_limit(dfa_size_limit).build() {
        Ok(regex) => Ok(TestPattern { source: pattern.to_string(), regex }),
        Err(e) => Err(e),
    }
}

/// `Regex::is_match`: whether the pattern matches somewhere in `haystack`.
#[verifier::external_body]
pub(crate) fn pattern_is_match(p: &TestPattern, haystack: &str) -> (r: bool)
    ensures
        r == regex_is_match(p@, haystack@),
{
    p.regex.is_match(haystack)
}

/// `regex::Error`'s `Display` text; nothing is promised of its content.
#[verifier::external_body]
pub(crate) fn regex_error_text(e: &regex::Error) -> String {
    e.to_string()
}

/// A filter expression.
#[derive(Debug)]
pub enum FilterExpr {
    And(Vec<FilterExpr>),
    Or(Vec<FilterExpr>),
    Not(Box<FilterExpr>),
    Predicate(Predicate),
}

/// A leaf of a filter expression.
#[derive(Debug)]
pub enum Predicate {
    Test(TestPattern),
    Package(String),
    Binary(String),
    Kind(BinaryKind),
    Flaky,
    Quarantined,
    All,
}

/// The model of a predicate: patterns by their source text.
pub enum SpecPredicate {
    Test(Seq<char>),
    Package(Seq<char>),
    Binary(Seq<char>),
    Kind(BinaryKind),
    Flaky,
    Quarantined,
    All,
}

/// The model of a filter expression.
pub enum SpecExpr {
    And(Seq<SpecExpr>),
    Or(Seq<SpecExpr>),
    Not(Box<SpecExpr>),
    Pred(SpecPredicate),
}

/// The model of a predicate.
pub open spec fn pred_shape(p: Predicate) -> SpecPredicate {
    match p {
        Predicate::Test(t) => SpecPredicate::Test(t@),
        Predicate::Package(s) => SpecPredicate::Package(s@),
        Predicate::Binary(s) => SpecPredicate::Binary(s@),
        Predicate::Kind(k) => SpecPredicate::Kind(k),
        Predicate::Flaky => SpecPredicate::Flaky,
        Predicate::Quarantined => SpecPredicate::Quarantined,
        Predicate::All => SpecPredicate::All,
    }
}

/// The model of a filter expression.
pub open spec fn shape(e: FilterExpr) -> SpecExpr
    decreases e,
{
    match e {
        FilterExpr::And(v) => SpecExpr::And(shapes(v@)),
        FilterExpr::Or(v) => SpecExpr::Or(shapes(v@)),
        FilterExpr::Not(b) => SpecExpr::Not(Box::new(shape(*b))),
        FilterExpr::Predicate(p) => SpecExpr::Pred(pred_shape(p)),
    }
}

/// The models of a sequence of filter expressions.
pub open spec fn shapes(s: Seq<FilterExpr>) -> Seq<SpecExpr>
    decreases s,
{
    if s.len() == 0 {
        seq![]
    } else {
        seq![shape(s[0])] + shapes(s.subrange(1, s.len() as int))
    }
}

} // verus!
