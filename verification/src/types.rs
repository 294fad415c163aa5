//! Core value types: test names and outcomes, diagnose classes and counts,
//! categories and the small enums the rest of the library is built from.
use vstd::prelude::*;
use vstd::std_specs::convert::FromSpecImpl;

use crate::text::{chars_of, extend_chars, extend_str, string_of};

verus! {

/// The two-character separator `::` of a test identity key.
pub open spec fn path_sep() -> Seq<char> {
    seq![':', ':']
}

/// Newtype for test names, keeping them apart from branch names, commit
/// hashes and error messages.
#[derive(Debug, PartialEq, Eq, Hash)]
pub struct TestName(pub String);

impl Clone for TestName {
    fn clone(&self) -> (r: TestName)
        ensures
            r == *self,
    {
        TestName(self.0.clone())
    }
}

impl View for TestName {
    type V = Seq<char>;

    open spec fn view(&self) -> Seq<char> {
        self.0@
    }
}

impl TestName {
    /// The owned name.
    pub fn into_inner(self) -> (r: String)
        ensures
            r@ == self@,
    {
        self.0
    }

    /// The name as a string slice.
    pub fn as_str(&self) -> (r: &str)
        ensures
            r@ == self@,
    {
        self.0.as_str()
    }

    /// Builds a name from a string slice.
    pub fn from_text(s: &str) -> (r: TestName)
        ensures
            r@ == s@,
    {
        TestName(s.to_owned())
    }
}

impl From<String> for TestName {
    fn from(s: String) -> (r: TestName) {
        TestName(s)
    }
}

impl FromSpecImpl<String> for TestName {
    open spec fn obeys_from_spec() -> bool {
        true
    }

    open spec fn from_spec(s: String) -> TestName {
        TestName(s)
    }
}

impl<'a> From<&'a str> for TestName {
    fn from(s: &'a str) -> (r: TestName) {
        TestName(s.to_owned())
    }
}

impl<'a> FromSpecImpl<&'a str> for TestName {
    open spec fn obeys_from_spec() -> bool {
        false
    }

    open spec fn from_spec(s: &'a str) -> TestName {
        arbitrary()
    }
}

/// The result of one execution of a test.
#[derive(Debug, Clone, Copy, PartialEq, Eq, Hash, Structural)]
pub enum TestOutcome {
    Passed,
    Failed,
    Ignored,
    Timeout,
    Panic,
}

/// Failed, panicked and timed-out runs count as failures.
pub open spec fn is_failure(o: TestOutcome) -> bool {
    o == TestOutcome::Failed || o == TestOutcome::Panic || o == TestOutcome::Timeout
}

/// The text `Display` writes for an outcome.
pub open spec fn outcome_text(o: TestOutcome) -> Seq<char> {
    match o {
        TestOutcome::Passed => seq!['p', 'a', 's', 's', 'e', 'd'],
        TestOutcome::Failed => seq!['f', 'a', 'i', 'l', 'e', 'd'],
        TestOutcome::Ignored => seq!['i', 'g', 'n', 'o', 'r', 'e', 'd'],
        TestOutcome::Timeout => seq!['t', 'i', 'm', 'e', 'o', 'u', 't'],
        TestOutcome::Panic => seq!['p', 'a', 'n', 'i', 'c'],
    }
}

/// The outcome whose text is `s`, if any.
pub open spec fn outcome_from_text(s: Seq<char>) -> Option<TestOutcome> {
    if s == outcome_text(TestOutcome::Passed) {
        Some(TestOutcome::Passed)
    } else if s == outcome_text(TestOutcome::Failed) {
        Some(TestOutcome::Failed)
    } else if s == outcome_text(TestOutcome::Ignored) {
        Some(TestOutcome::Ignored)
    } else if s == outcome_text(TestOutcome::Timeout) {
        Some(TestOutcome::Timeout)
    } else if s == outcome_text(TestOutcome::Panic) {
        Some(TestOutcome::Panic)
    } else {
        None
    }
}

impl TestOutcome {
    /// Whether the outcome counts as a failure.
    pub fn is_failure(self) -> (r: bool)
        ensures
            r == is_failure(self),
    {
        match self {
            TestOutcome::Failed | TestOutcome::Panic | TestOutcome::Timeout => true,
            _ => false,
        }
    }

    /// The lower-case name of the outcome (what `Display` prints).
    pub fn as_str(self) -> (r: &'static str)
        ensures
            r@ == outcome_text(self),
    {
        match self {
            TestOutcome::Passed => {
                proof {
                    reveal_strlit("passed");
                }
                "passed"
            },
            TestOutcome::Failed => {
                proof {
                    reveal_strlit("failed");
                }
                "failed"
            },
            TestOutcome::Ignored => {
                proof {
                    reveal_strlit("ignored");
                }
                "ignored"
            },
            TestOutcome::Timeout => {
                proof {
                    reveal_strlit("timeout");
                }
                "timeout"
            },
            TestOutcome::Panic => {
                proof {
                    reveal_strlit("panic");
                }
                "panic"
            },
        }
    }

    /// Parses the lower-case name of an outcome; any other text is
    /// refused with `unknown test outcome: <text>`.
    pub fn parse(s: &str) -> (r: Result<TestOutcome, String>)
        ensures
            r matches Ok(o) ==> outcome_from_text(s@) == Some(o),
            r is Err <==> outcome_from_text(s@) is None,
            r matches Err(m) ==> m@ == unknown_text(outcome_err_prefix(), s@),
    {
        let v = chars_of(s);
        let mut k = TestOutcome::Passed;
        let mut found = false;
        let mut idx: usize = 0;
        while idx < 5 && !found
            invariant
                0 <= idx <= 5,
                v@ == s@,
                found ==> outcome_from_text(s@) == Some(k),
                !found ==> forall|j: int| 0 <= j < idx ==> v@ != outcome_text(outcome_at(j)),
            decreases 5 - idx,
        {
            let cand = outcome_at_exec(idx);
            let t = chars_of(cand.as_str());
            if chars_equal(&t, &v) {
                k = cand;
                found = true;
                proof {
                    lemma_outcome_from_text_first(s@, idx as int);
                }
            }
            idx += 1;
        }
        if found {
            Ok(k)
        } else {
            proof {
                lemma_outcome_from_text_none(s@);
            }
            proof {
                reveal_strlit("unknown test outcome: ");
            }
            Err(unknown_message("unknown test outcome: ", s))
        }
    }
}

impl std::str::FromStr for TestOutcome {
    type Err = String;

    fn from_str(s: &str) -> (r: Result<TestOutcome, String>)
        ensures
            r matches Ok(o) ==> outcome_from_text(s@) == Some(o),
            r is Err <==> outcome_from_text(s@) is None,
            r matches Err(m) ==> m@ == unknown_text(outcome_err_prefix(), s@),
    {
        TestOutcome::parse(s)
    }
}

/// The `j`-th outcome in declaration order.
pub open spec fn outcome_at(j: int) -> TestOutcome {
    if j == 0 {
        TestOutcome::Passed
    } else if j == 1 {
        TestOutcome::Failed
    } else if j == 2 {
        TestOutcome::Ignored
    } else if j == 3 {
        TestOutcome::Timeout
    } else {
        TestOutcome::Panic
    }
}

fn outcome_at_exec(j: usize) -> (r: TestOutcome)
    ensures
        r == outcome_at(j as int),
{
    if j == 0 {
        TestOutcome::Passed
    } else if j == 1 {
        TestOutcome::Failed
    } else if j == 2 {
        TestOutcome::Ignored
    } else if j == 3 {
        TestOutcome::Timeout
    } else {
        TestOutcome::Panic
    }
}

proof fn lemma_outcome_from_text_first(s: Seq<char>, idx: int)
    requires
        0 <= idx < 5,
        s == outcome_text(outcome_at(idx)),
        forall|j: int| 0 <= j < idx ==> s != outcome_text(outcome_at(j)),
    ensures
        outcome_from_text(s) == Some(outcome_at(idx)),
{
    assert(s != outcome_text(outcome_at(0)) || idx == 0);
}

proof fn lemma_outcome_from_text_none(s: Seq<char>)
    requires
        forall|j: int| 0 <= j < 5 ==> s != outcome_text(outcome_at(j)),
    ensures
        outcome_from_text(s) is None,
{
    assert(s != outcome_text(outcome_at(0)));
    assert(s != outcome_text(outcome_at(1)));
    assert(s != outcome_text(outcome_at(2)));
    assert(s != outcome_text(outcome_at(3)));
    assert(s != outcome_text(outcome_at(4)));
}

/// Whether two character vectors hold the same characters.
pub fn chars_equal(a: &Vec<char>, b: &Vec<char>) -> (r: bool)
    ensures
        r == (a@ == b@),
{
    if a.len() != b.len() {
        return false;
    }
    let mut i: usize = 0;
    while i < a.len()
        invariant
            a.len() == b.len(),
            i <= a.len(),
            forall|j: int| 0 <= j < i ==> a@[j] == b@[j],
        decreases a.len() - i,
    {
        if a[i] != b[i] {
            return false;
        }
        i += 1;
    }
    assert(a@ =~= b@);
    true
}

/// Whether two strings hold the same characters.
pub fn str_equal(a: &str, b: &str) -> (r: bool)
    ensures
        r == (a@ == b@),
{
    let x = chars_of(a);
    let y = chars_of(b);
    chars_equal(&x, &y)
}

/// `unknown test outcome: `
pub open spec fn outcome_err_prefix() -> Seq<char> {
    seq!['u', 'n', 'k', 'n', 'o', 'w', 'n', ' ', 't', 'e', 's', 't', ' ', 'o', 'u', 't', 'c', 'o', 'm', 'e', ':', ' ']
}

/// An "unknown ..." error message: a prefix followed by the refused text.
pub open spec fn unknown_text(prefix: Seq<char>, s: Seq<char>) -> Seq<char> {
    prefix + s
}

/// Builds `prefix` followed by `s` as a `String`.
pub(crate) fn unknown_message(prefix: &str, s: &str) -> (r: String)
    ensures
        r@ == unknown_text(prefix@, s@),
{
    let mut v: Vec<char> = Vec::new();
    extend_str(&mut v, prefix);
    extend_str(&mut v, s);
    string_of(&v)
}

/// How a test's recorded runs (retry attempts included) classify it.
#[derive(Debug, Clone, Copy, PartialEq, Eq, Structural)]
pub enum TestVerdict {
    Passed,
    Flaky,
    Failed,
    Skipped,
}

/// Pass / failure / ignore counts of a group of runs.
#[derive(Debug, Clone, Copy, Default, PartialEq, Eq, Structural)]
pub struct OutcomeCounts {
    pub passed: u32,
    pub failed: u32,
    pub ignored: u32,
}

/// Number of outcomes in `s` that satisfy `pred`.
pub open spec fn count_where(s: Seq<TestOutcome>, pred: spec_fn(TestOutcome) -> bool) -> nat
    decreases s.len(),
{
    if s.len() == 0 {
        0
    } else {
        count_where(s.drop_last(), pred) + if pred(s.last()) {
            1nat
        } else {
            0nat
        }
    }
}

pub proof fn lemma_count_where_bound(s: Seq<TestOutcome>, pred: spec_fn(TestOutcome) -> bool)
    ensures
        count_where(s, pred) <= s.len(),
    decreases s.len(),
{
    if s.len() > 0 {
        lemma_count_where_bound(s.drop_last(), pred);
    }
}

/// The verdict of counts: any failure beside a pass is flaky.
pub open spec fn verdict_of(passed: nat, failed: nat) -> TestVerdict {
    if passed > 0 && failed > 0 {
        TestVerdict::Flaky
    } else if passed > 0 {
        TestVerdict::Passed
    } else if failed > 0 {
        TestVerdict::Failed
    } else {
        TestVerdict::Skipped
    }
}

impl OutcomeCounts {
    /// Counts the outcomes of recorded runs; panics, timeouts and
    /// failures all count as failed.
    pub fn from_outcomes(outcomes: &Vec<TestOutcome>) -> (r: OutcomeCounts)
        requires
            outcomes.len() <= u32::MAX,
        ensures
            r.passed == count_where(outcomes@, |o: TestOutcome| o == TestOutcome::Passed),
            r.failed == count_where(outcomes@, |o: TestOutcome| is_failure(o)),
            r.ignored == count_where(outcomes@, |o: TestOutcome| o == TestOutcome::Ignored),
    {
        let mut counts = OutcomeCounts { passed: 0, failed: 0, ignored: 0 };
        let mut i: usize = 0;
        while i < outcomes.len()
            invariant
                i <= outcomes.len(),
                outcomes.len() <= u32::MAX,
                counts.passed == count_where(
                    outcomes@.take(i as int),
                    |o: TestOutcome| o == TestOutcome::Passed,
                ),
                counts.failed == count_where(
                    outcomes@.take(i as int),
                    |o: TestOutcome| is_failure(o),
                ),
                counts.ignored == count_where(
                    outcomes@.take(i as int),
                    |o: TestOutcome| o == TestOutcome::Ignored,
                ),
            decreases outcomes.len() - i,
        {
            let ghost t = outcomes@.take(i + 1);
            assert(t.drop_last() =~= outcomes@.take(i as int));
            proof {
                lemma_count_where_bound(outcomes@.take(i as int), |o: TestOutcome| o == TestOutcome::Passed);
                lemma_count_where_bound(outcomes@.take(i as int), |o: TestOutcome| is_failure(o));
                lemma_count_where_bound(outcomes@.take(i as int), |o: TestOutcome| o == TestOutcome::Ignored);
            }
            match outcomes[i] {
                TestOutcome::Passed => counts.passed = counts.passed + 1,
                TestOutcome::Failed | TestOutcome::Panic | TestOutcome::Timeout => {
                    counts.failed = counts.failed + 1;
                },
                TestOutcome::Ignored => counts.ignored = counts.ignored + 1,
            }
            i += 1;
        }
        assert(outcomes@.take(outcomes.len() as int) =~= outcomes@);
        counts
    }

    /// Any recorded failure alongside a pass marks the test flaky, even when
    /// every iteration eventually passed on retry.
    pub fn verdict(self) -> (r: TestVerdict)
        ensures
            r == verdict_of(self.passed as nat, self.failed as nat),
    {
        if self.passed > 0 && self.failed > 0 {
            TestVerdict::Flaky
        } else if self.passed > 0 {
            TestVerdict::Passed
        } else if self.failed > 0 {
            TestVerdict::Failed
        } else {
            TestVerdict::Skipped
        }
    }
}

/// The root cause class that diagnose assigns to a flaky test.
#[derive(Debug, Clone, Copy, PartialEq, Eq, Hash, Structural)]
pub enum FlakeClass {
    Broken,
    Intrinsic,
    Contention,
}

/// The snake-case name of a class.
pub open spec fn flake_class_text(c: FlakeClass) -> Seq<char> {
    match c {
        FlakeClass::Broken => seq!['b', 'r', 'o', 'k', 'e', 'n'],
        FlakeClass::Intrinsic => seq!['i', 'n', 't', 'r', 'i', 'n', 's', 'i', 'c'],
        FlakeClass::Contention => seq!['c', 'o', 'n', 't', 'e', 'n', 't', 'i', 'o', 'n'],
    }
}

impl FlakeClass {
    /// The snake-case name of the class.
    pub fn as_str(self) -> (r: &'static str)
        ensures
            r@ == flake_class_text(self),
    {
        match self {
            FlakeClass::Broken => {
                proof {
                    reveal_strlit("broken");
                }
                "broken"
            },
            FlakeClass::Intrinsic => {
                proof {
                    reveal_strlit("intrinsic");
                }
                "intrinsic"
            },
            FlakeClass::Contention => {
                proof {
                    reveal_strlit("contention");
                }
                "contention"
            },
        }
    }

    /// Parses a class name; any other text is refused with
    /// `unknown flake class: <text>`.
    pub fn parse(s: &str) -> (r: Result<FlakeClass, String>)
        ensures
            r matches Ok(c) ==> flake_class_text(c) == s@,
            r is Err <==> (forall|c: FlakeClass| flake_class_text(c) != s@),
            r matches Err(m) ==> m@ == seq!['u', 'n', 'k', 'n', 'o', 'w', 'n', ' ', 'f', 'l', 'a', 'k', 'e', ' ', 'c', 'l', 'a', 's', 's', ':', ' '] + s@,
    {
        if str_equal(s, FlakeClass::Broken.as_str()) {
            Ok(FlakeClass::Broken)
        } else if str_equal(s, FlakeClass::Intrinsic.as_str()) {
            Ok(FlakeClass::Intrinsic)
        } else if str_equal(s, FlakeClass::Contention.as_str()) {
            Ok(FlakeClass::Contention)
        } else {
            proof {
                reveal_strlit("unknown flake class: ");
                assert forall|c: FlakeClass| flake_class_text(c) != s@ by {
                    match c {
                        FlakeClass::Broken => {},
                        FlakeClass::Intrinsic => {},
                        FlakeClass::Contention => {},
                    }
                }
            }
            Err(unknown_message("unknown flake class: ", s))
        }
    }
}

impl std::str::FromStr for FlakeClass {
    type Err = String;

    fn from_str(s: &str) -> (r: Result<FlakeClass, String>)
        ensures
            r matches Ok(c) ==> flake_class_text(c) == s@,
            r is Err <==> (forall|c: FlakeClass| flake_class_text(c) != s@),
            r matches Err(m) ==> m@ == seq!['u', 'n', 'k', 'n', 'o', 'w', 'n', ' ', 'f', 'l', 'a', 'k', 'e', ' ', 'c', 'l', 'a', 's', 's', ':', ' '] + s@,
    {
        FlakeClass::parse(s)
    }
}

/// Run and failure counts of the stress and isolation phases of one test.
#[derive(Debug, Clone, Copy, PartialEq, Eq, Structural)]
pub struct PhaseCounts {
    pub stress_runs: u32,
    pub stress_failures: u32,
    pub isolation_runs: u32,
    pub isolation_failures: u32,
}

/// What an attempt to record a failing run under rr came to.
#[derive(Debug, Clone, PartialEq, Eq)]
pub enum RecordOutcome {
    SkippedNoRequest,
    Unavailable,
    UnsupportedOs,
    RecorderError,
    PassedNoFailure,
    FailedWithTrace { path: String },
}

impl RecordOutcome {
    /// The trace directory, for a captured failure.
    pub fn recording_path(&self) -> (r: Option<&str>)
        ensures
            (self is FailedWithTrace) ==> (r matches Some(p) && p@ == self->path@),
            !(self is FailedWithTrace) ==> r is None,
    {
        match self {
            RecordOutcome::FailedWithTrace { path } => Some(path.as_str()),
            _ => None,
        }
    }
}

/// Identity of a test: package, binary and test name.
#[derive(Debug, PartialEq, Eq, Hash)]
pub struct TestId {
    pub package_name: String,
    pub binary_name: String,
    pub test_name: TestName,
}

impl Clone for TestId {
    fn clone(&self) -> (r: TestId)
        ensures
            r == *self,
    {
        TestId {
            package_name: self.package_name.clone(),
            binary_name: self.binary_name.clone(),
            test_name: self.test_name.clone(),
        }
    }
}

/// The `package::binary::test` key of an identity.
pub open spec fn id_key(package: Seq<char>, binary: Seq<char>, name: Seq<char>) -> Seq<char> {
    package + path_sep() + binary + path_sep() + name
}

impl TestId {
    /// The `package::binary::test` key.
    pub fn key(&self) -> (r: String)
        ensures
            r@ == id_key(self.package_name@, self.binary_name@, self.test_name@),
    {
        let mut v = chars_of(self.package_name.as_str());
        v.push(':');
        v.push(':');
        let b = chars_of(self.binary_name.as_str());
        extend_chars(&mut v, &b);
        v.push(':');
        v.push(':');
        let n = chars_of(self.test_name.as_str());
        extend_chars(&mut v, &n);
        assert(v@ =~= id_key(self.package_name@, self.binary_name@, self.test_name@));
        string_of(&v)
    }

    /// Builds an identity from its three parts.
    pub fn new(package_name: &str, binary_name: &str, test_name: &str) -> (r: TestId)
        ensures
            r.package_name@ == package_name@,
            r.binary_name@ == binary_name@,
            r.test_name@ == test_name@,
    {
        TestId {
            package_name: package_name.to_owned(),
            binary_name: binary_name.to_owned(),
            test_name: TestName::from_text(test_name),
        }
    }
}

/// The outcome of diagnosing one test.
#[derive(Debug, Clone)]
pub struct DiagnosticResult {
    pub test_id: TestId,
    pub class: FlakeClass,
    pub counts: PhaseCounts,
    pub recording: RecordOutcome,
}

/// Phase a stored run belongs to.
#[derive(Debug, Clone, Copy, PartialEq, Eq, Structural)]
pub enum RunPhase {
    Isolation,
}

impl RunPhase {
    /// The snake-case name of the phase.
    pub fn as_str(self) -> (r: &'static str)
        ensures
            r@ == seq!['i', 's', 'o', 'l', 'a', 't', 'i', 'o', 'n'],
    {
        proof {
            reveal_strlit("isolation");
        }
        "isolation"
    }

    /// Parses a phase name; any other text is refused with
    /// `unknown run phase: <text>`.
    pub fn parse(s: &str) -> (r: Result<RunPhase, String>)
        ensures
            r is Ok <==> s@ == seq!['i', 's', 'o', 'l', 'a', 't', 'i', 'o', 'n'],
            r matches Err(m) ==> m@ == seq!['u', 'n', 'k', 'n', 'o', 'w', 'n', ' ', 'r', 'u', 'n', ' ', 'p', 'h', 'a', 's', 'e', ':', ' '] + s@,
    {
        if str_equal(s, RunPhase::Isolation.as_str()) {
            Ok(RunPhase::Isolation)
        } else {
            proof {
                reveal_strlit("unknown run phase: ");
            }
            Err(unknown_message("unknown run phase: ", s))
        }
    }
}

impl std::str::FromStr for RunPhase {
    type Err = String;

    fn from_str(s: &str) -> (r: Result<RunPhase, String>)
        ensures
            r is Ok <==> s@ == seq!['i', 's', 'o', 'l', 'a', 't', 'i', 'o', 'n'],
            r matches Err(m) ==> m@ == seq!['u', 'n', 'k', 'n', 'o', 'w', 'n', ' ', 'r', 'u', 'n', ' ', 'p', 'h', 'a', 's', 'e', ':', ' '] + s@,
    {
        RunPhase::parse(s)
    }
}

/// Kind of a stored session.
#[derive(Debug, Clone, Copy, PartialEq, Eq, Structural)]
pub enum SessionKind {
    Detection,
    Diagnose,
}

/// The snake-case name of a session kind.
pub open spec fn session_kind_text(k: SessionKind) -> Seq<char> {
    match k {
        SessionKind::Detection => seq!['d', 'e', 't', 'e', 'c', 't', 'i', 'o', 'n'],
        SessionKind::Diagnose => seq!['d', 'i', 'a', 'g', 'n', 'o', 's', 'e'],
    }
}

impl SessionKind {
    /// The snake-case name of the kind.
    pub fn as_str(self) -> (r: &'static str)
        ensures
            r@ == session_kind_text(self),
    {
        match self {
            SessionKind::Detection => {
                proof {
                    reveal_strlit("detection");
                }
                "detection"
            },
            SessionKind::Diagnose => {
                proof {
                    reveal_strlit("diagnose");
                }
                "diagnose"
            },
        }
    }

    /// Parses a kind name; any other text is refused with
    /// `unknown session kind: <text>`.
    pub fn parse(s: &str) -> (r: Result<SessionKind, String>)
        ensures
            r matches Ok(k) ==> session_kind_text(k) == s@,
            r is Err <==> (forall|k: SessionKind| session_kind_text(k) != s@),
            r matches Err(m) ==> m@ == seq!['u', 'n', 'k', 'n', 'o', 'w', 'n', ' ', 's', 'e', 's', 's', 'i', 'o', 'n', ' ', 'k', 'i', 'n', 'd', ':', ' '] + s@,
    {
        if str_equal(s, SessionKind::Detection.as_str()) {
            Ok(SessionKind::Detection)
        } else if str_equal(s, SessionKind::Diagnose.as_str()) {
            Ok(SessionKind::Diagnose)
        } else {
            proof {
                reveal_strlit("unknown session kind: ");
                assert forall|k: SessionKind| session_kind_text(k) != s@ by {
                    match k {
                        SessionKind::Detection => {},
                        SessionKind::Diagnose => {},
                    }
                }
            }
            Err(unknown_message("unknown session kind: ", s))
        }
    }
}

impl std::str::FromStr for SessionKind {
    type Err = String;

    fn from_str(s: &str) -> (r: Result<SessionKind, String>)
        ensures
            r matches Ok(k) ==> session_kind_text(k) == s@,
            r is Err <==> (forall|k: SessionKind| session_kind_text(k) != s@),
            r matches Err(m) ==> m@ == seq!['u', 'n', 'k', 'n', 'o', 'w', 'n', ' ', 's', 'e', 's', 's', 'i', 'o', 'n', ' ', 'k', 'i', 'n', 'd', ':', ' '] + s@,
    {
        SessionKind::parse(s)
    }
}

impl Default for SessionKind {
    fn default() -> (r: SessionKind)
        ensures
            r == SessionKind::Detection,
    {
        SessionKind::Detection
    }
}

/// Severity bands of a flakiness score.
#[derive(Debug, Clone, Copy, PartialEq, Eq, Hash, Structural)]
pub enum FlakinessCategory {
    Stable,
    Occasional,
    Moderate,
    Frequent,
    Critical,
}

/// The display label of a category.
pub open spec fn category_text(c: FlakinessCategory) -> Seq<char> {
    match c {
        FlakinessCategory::Stable => seq!['S', 't', 'a', 'b', 'l', 'e'],
        FlakinessCategory::Occasional => seq!['O', 'c', 'c', 'a', 's', 'i', 'o', 'n', 'a', 'l'],
        FlakinessCategory::Moderate => seq!['M', 'o', 'd', 'e', 'r', 'a', 't', 'e'],
        FlakinessCategory::Frequent => seq!['F', 'r', 'e', 'q', 'u', 'e', 'n', 't'],
        FlakinessCategory::Critical => seq!['C', 'r', 'i', 't', 'i', 'c', 'a', 'l'],
    }
}

impl FlakinessCategory {
    /// The display label of the category.
    pub fn label(&self) -> (r: &'static str)
        ensures
            r@ == category_text(*self),
    {
        match self {
            FlakinessCategory::Stable => {
                proof {
                    reveal_strlit("Stable");
                }
                "Stable"
            },
            FlakinessCategory::Occasional => {
                proof {
                    reveal_strlit("Occasional");
                }
                "Occasional"
            },
            FlakinessCategory::Moderate => {
                proof {
                    reveal_strlit("Moderate");
                }
                "Moderate"
            },
            FlakinessCategory::Frequent => {
                proof {
                    reveal_strlit("Frequent");
                }
                "Frequent"
            },
            FlakinessCategory::Critical => {
                proof {
                    reveal_strlit("Critical");
                }
                "Critical"
            },
        }
    }
}

/// Direction of a test's failure rate over its recent history.
#[derive(Debug, Clone, Copy, PartialEq, Eq, Hash, Structural)]
pub enum TrendDirection {
    Improving,
    Stable,
    Degrading,
}

impl TrendDirection {
    /// The lower-case name `Display` prints.
    pub fn as_str(self) -> (r: &'static str)
        ensures
            r@ == (match self {
                TrendDirection::Improving => seq!['i', 'm', 'p', 'r', 'o', 'v', 'i', 'n', 'g'],
                TrendDirection::Stable => seq!['s', 't', 'a', 'b', 'l', 'e'],
                TrendDirection::Degrading => seq!['d', 'e', 'g', 'r', 'a', 'd', 'i', 'n', 'g'],
            }),
    {
        match self {
            TrendDirection::Improving => {
                proof {
                    reveal_strlit("improving");
                }
                "improving"
            },
            TrendDirection::Stable => {
                proof {
                    reveal_strlit("stable");
                }
                "stable"
            },
            TrendDirection::Degrading => {
                proof {
                    reveal_strlit("degrading");
                }
                "degrading"
            },
        }
    }
}

/// Kind of a detected failure pattern.
#[derive(Debug, Clone, Copy, PartialEq, Eq, Hash, Structural)]
pub enum PatternType {
    TimeOfDay,
    Environmental,
    Random,
}

impl PatternType {
    /// The kebab-case name `Display` prints.
    pub fn as_str(self) -> (r: &'static str)
        ensures
            r@ == (match self {
                PatternType::TimeOfDay => seq!['t', 'i', 'm', 'e', '-', 'o', 'f', '-', 'd', 'a', 'y'],
                PatternType::Environmental => seq!['e', 'n', 'v', 'i', 'r', 'o', 'n', 'm', 'e', 'n', 't', 'a', 'l'],
                PatternType::Random => seq!['r', 'a', 'n', 'd', 'o', 'm'],
            }),
    {
        match self {
            PatternType::TimeOfDay => {
                proof {
                    reveal_strlit("time-of-day");
                }
                "time-of-day"
            },
            PatternType::Environmental => {
                proof {
                    reveal_strlit("environmental");
                }
                "environmental"
            },
            PatternType::Random => {
                proof {
                    reveal_strlit("random");
                }
                "random"
            },
        }
    }
}

/// The identity of a test as a triple of texts.
pub type IdKey = (Seq<char>, Seq<char>, Seq<char>);

/// The key an identity is looked up by.
pub open spec fn id_view(id: TestId) -> IdKey {
    (id.package_name@, id.binary_name@, id.test_name@)
}

/// Whether two identities are equal, part by part.
pub fn id_equal(a: &TestId, b: &TestId) -> (r: bool)
    ensures
        r == (id_view(*a) == id_view(*b)),
{
    str_equal(a.package_name.as_str(), b.package_name.as_str()) && str_equal(
        b.binary_name.as_str(),
        a.binary_name.as_str(),
    ) && str_equal(a.test_name.as_str(), b.test_name.as_str())
}

/// The map that a list of entries with distinct keys denotes.
pub open spec fn entries_map(s: Seq<(TestId, PhaseCounts)>) -> Map<IdKey, PhaseCounts>
    decreases s.len(),
{
    if s.len() == 0 {
        Map::empty()
    } else {
        entries_map(s.drop_last()).insert(id_view(s.last().0), s.last().1)
    }
}

/// No two entries share a key.
pub open spec fn distinct_ids(s: Seq<(TestId, PhaseCounts)>) -> bool {
    forall|i: int, j: int|
        0 <= i < s.len() && 0 <= j < s.len() && i != j ==> id_view(#[trigger] s[i].0) != id_view(
            #[trigger] s[j].0,
        )
}

pub proof fn lemma_entries_map(s: Seq<(TestId, PhaseCounts)>)
    requires
        distinct_ids(s),
    ensures
        forall|i: int|
            0 <= i < s.len() ==> #[trigger] entries_map(s).contains_key(id_view(s[i].0))
                && entries_map(s)[id_view(s[i].0)] == s[i].1,
        forall|k: IdKey|
            #[trigger] entries_map(s).contains_key(k) ==> exists|i: int|
                0 <= i < s.len() && id_view(s[i].0) == k,
        entries_map(s).dom().finite(),
        entries_map(s).dom().len() == s.len(),
    decreases s.len(),
{
    if s.len() > 0 {
        let p = s.drop_last();
        assert(distinct_ids(p)) by {
            assert forall|i: int, j: int|
                0 <= i < p.len() && 0 <= j < p.len() && i != j implies id_view(#[trigger] p[i].0)
                != id_view(#[trigger] p[j].0) by {
                assert(p[i] == s[i] && p[j] == s[j]);
            }
        }
        lemma_entries_map(p);
        let k = id_view(s.last().0);
        assert(!entries_map(p).contains_key(k)) by {
            if entries_map(p).contains_key(k) {
                let i = choose|i: int| 0 <= i < p.len() && id_view(p[i].0) == k;
                assert(p[i] == s[i]);
                assert(s.last() == s[s.len() - 1]);
            }
        }
        assert forall|i: int| 0 <= i < s.len() implies #[trigger] entries_map(s).contains_key(
            id_view(s[i].0),
        ) && entries_map(s)[id_view(s[i].0)] == s[i].1 by {
            if i < s.len() - 1 {
                assert(p[i] == s[i]);
                assert(id_view(s[i].0) != k);
            }
        }
        assert forall|k2: IdKey| #[trigger] entries_map(s).contains_key(k2) implies exists|i: int|
            0 <= i < s.len() && id_view(s[i].0) == k2 by {
            if k2 != k {
                let i = choose|i: int| 0 <= i < p.len() && id_view(p[i].0) == k2;
                assert(p[i] == s[i]);
            } else {
                assert(id_view(s[s.len() - 1].0) == k2);
            }
        }
    }
}

/// Phase counts keyed by test identity; each identity occurs once.
#[derive(Debug)]
pub struct PhaseCountsMap {
    entries: Vec<(TestId, PhaseCounts)>,
}

impl View for PhaseCountsMap {
    type V = Map<IdKey, PhaseCounts>;

    closed spec fn view(&self) -> Map<IdKey, PhaseCounts> {
        entries_map(self.entries@)
    }
}

impl PhaseCountsMap {
    #[verifier::type_invariant]
    closed spec fn wf(self) -> bool {
        distinct_ids(self.entries@)
    }

    /// An empty map.
    pub fn new() -> (r: PhaseCountsMap)
        ensures
            r@ == Map::<IdKey, PhaseCounts>::empty(),
    {
        PhaseCountsMap { entries: Vec::new() }
    }

    /// The number of identities in the map.
    pub fn len(&self) -> (r: usize)
        ensures
            r == self@.dom().len(),
            self@.dom().finite(),
    {
        proof {
            use_type_invariant(self);
            lemma_entries_map(self.entries@);
        }
        self.entries.len()
    }

    fn index_of(&self, id: &TestId) -> (r: Option<usize>)
        ensures
            r matches Some(i) ==> i < self.entries@.len() && id_view(self.entries@[i as int].0)
                == id_view(*id),
            r is None ==> forall|i: int|
                0 <= i < self.entries@.len() ==> id_view(#[trigger] self.entries@[i].0) != id_view(
                    *id,
                ),
    {
        let mut i: usize = 0;
        while i < self.entries.len()
            invariant
                i <= self.entries.len(),
                forall|j: int| 0 <= j < i ==> id_view(#[trigger] self.entries@[j].0) != id_view(*id),
            decreases self.entries.len() - i,
        {
            if id_equal(&self.entries[i].0, id) {
                return Some(i);
            }
            i += 1;
        }
        None
    }

    /// The counts of an identity, if present.
    pub fn get(&self, id: &TestId) -> (r: Option<&PhaseCounts>)
        ensures
            r matches Some(c) ==> self@.contains_key(id_view(*id)) && self@[id_view(*id)] == *c,
            r is None ==> !self@.contains_key(id_view(*id)),
    {
        proof {
            use_type_invariant(self);
            lemma_entries_map(self.entries@);
        }
        match self.index_of(id) {
            Some(i) => {
                proof {
                    assert(entries_map(self.entries@).contains_key(
                        id_view(self.entries@[i as int].0),
                    ));
                }
                Some(&self.entries[i].1)
            },
            None => None,
        }
    }

    /// Sets the counts of an identity.
    pub fn insert(&mut self, id: TestId, counts: PhaseCounts)
        ensures
            final(self)@ == old(self)@.insert(id_view(id), counts),
    {
        proof {
            use_type_invariant(&*self);
        }
        let ghost old_entries = self.entries@;
        let found = self.index_of(&id);
        let mut es: Vec<(TestId, PhaseCounts)> = Vec::new();
        std::mem::swap(&mut es, &mut self.entries);
        match found {
            Some(i) => {
                es.set(i, (id, counts));
                proof {
                    lemma_replace_entry(old_entries, i as int, es@);
                }
            },
            None => {
                es.push((id, counts));
                proof {
                    assert(es@.drop_last() =~= old_entries);
                    assert forall|a: int, b: int|
                        0 <= a < es@.len() && 0 <= b < es@.len() && a != b
                            implies id_view(#[trigger] es@[a].0) != id_view(
                            #[trigger] es@[b].0,
                        ) by {
                        if a < old_entries.len() && b < old_entries.len() {
                            assert(es@[a] == old_entries[a]);
                            assert(es@[b] == old_entries[b]);
                        } else if a < old_entries.len() {
                            assert(es@[a] == old_entries[a]);
                        } else {
                            assert(es@[b] == old_entries[b]);
                        }
                    }
                }
            },
        }
        self.entries = es;
    }

    /// The entries of the map, in insertion order.
    pub closed spec fn entry_seq(&self) -> Seq<(TestId, PhaseCounts)> {
        self.entries@
    }

    /// The entries of the map, each identity once, in insertion order.
    pub fn entries(&self) -> (r: &Vec<(TestId, PhaseCounts)>)
        ensures
            r@ == self.entry_seq(),
            distinct_ids(r@),
            entries_map(r@) == self@,
    {
        proof {
            use_type_invariant(self);
        }
        &self.entries
    }
}

proof fn lemma_replace_entry(
    old_s: Seq<(TestId, PhaseCounts)>,
    i: int,
    new_s: Seq<(TestId, PhaseCounts)>,
)
    requires
        distinct_ids(old_s),
        0 <= i < old_s.len(),
        new_s.len() == old_s.len(),
        id_view(new_s[i].0) == id_view(old_s[i].0),
        forall|j: int| 0 <= j < old_s.len() && j != i ==> new_s[j] == old_s[j],
    ensures
        distinct_ids(new_s),
        entries_map(new_s) == entries_map(old_s).insert(id_view(new_s[i].0), new_s[i].1),
{
    assert(distinct_ids(new_s)) by {
        assert forall|a: int, b: int|
            0 <= a < new_s.len() && 0 <= b < new_s.len() && a != b implies id_view(
            #[trigger] new_s[a].0,
        ) != id_view(#[trigger] new_s[b].0) by {
            if a != i {
                assert(new_s[a] == old_s[a]);
            }
            if b != i {
                assert(new_s[b] == old_s[b]);
            }
        }
    }
    lemma_entries_map(old_s);
    lemma_entries_map(new_s);
    let k = id_view(new_s[i].0);
    assert forall|k2: IdKey| #[trigger] entries_map(new_s).contains_key(k2)
        == entries_map(old_s).insert(k, new_s[i].1).contains_key(k2) by {
        if entries_map(new_s).contains_key(k2) {
            let j = choose|j: int| 0 <= j < new_s.len() && id_view(new_s[j].0) == k2;
            if j != i {
                assert(new_s[j] == old_s[j]);
            }
        }
        if entries_map(old_s).contains_key(k2) {
            let j = choose|j: int| 0 <= j < old_s.len() && id_view(old_s[j].0) == k2;
            if j != i {
                assert(new_s[j] == old_s[j]);
            }
        }
    }
    assert forall|k2: IdKey| #[trigger] entries_map(new_s).contains_key(k2) implies entries_map(
        new_s,
    )[k2] == entries_map(old_s).insert(k, new_s[i].1)[k2] by {
        let j = choose|j: int| 0 <= j < new_s.len() && id_view(new_s[j].0) == k2;
        if j != i {
            assert(new_s[j] == old_s[j]);
        }
    }
    assert(entries_map(new_s) =~= entries_map(old_s).insert(k, new_s[i].1));
}

/// Reading back the name of an outcome gives the outcome.
pub proof fn law_outcome_name_roundtrip(o: TestOutcome)
    ensures
        outcome_from_text(outcome_text(o)) == Some(o),
{
    match o {
        TestOutcome::Passed => {},
        TestOutcome::Failed => {
            assert(outcome_text(TestOutcome::Failed)[0] != outcome_text(TestOutcome::Passed)[0]);
        },
        TestOutcome::Ignored => {
            assert(outcome_text(TestOutcome::Ignored)[0] != outcome_text(TestOutcome::Passed)[0]);
            assert(outcome_text(TestOutcome::Ignored)[0] != outcome_text(TestOutcome::Failed)[0]);
        },
        TestOutcome::Timeout => {
            assert(outcome_text(TestOutcome::Timeout)[0] != outcome_text(TestOutcome::Passed)[0]);
            assert(outcome_text(TestOutcome::Timeout)[0] != outcome_text(TestOutcome::Failed)[0]);
            assert(outcome_text(TestOutcome::Timeout)[0] != outcome_text(TestOutcome::Ignored)[0]);
        },
        TestOutcome::Panic => {
            assert(outcome_text(TestOutcome::Panic).len() != outcome_text(TestOutcome::Passed).len());
            assert(outcome_text(TestOutcome::Panic)[0] != outcome_text(TestOutcome::Failed)[0]);
            assert(outcome_text(TestOutcome::Panic)[0] != outcome_text(TestOutcome::Ignored)[0]);
            assert(outcome_text(TestOutcome::Panic)[0] != outcome_text(TestOutcome::Timeout)[0]);
        },
    }
}

/// Flake classes have distinct names, so parsing a class's name (which
/// returns the class carrying that name) gives the class back.
pub proof fn law_flake_class_name_roundtrip(a: FlakeClass, b: FlakeClass)
    ensures
        flake_class_text(a) == flake_class_text(b) ==> a == b,
{
    if flake_class_text(a) == flake_class_text(b) {
        match (a, b) {
            (FlakeClass::Broken, FlakeClass::Intrinsic) | (FlakeClass::Intrinsic, FlakeClass::Broken) => {
                assert(flake_class_text(FlakeClass::Broken)[0] != flake_class_text(FlakeClass::Intrinsic)[0]);
            },
            (FlakeClass::Broken, FlakeClass::Contention) | (FlakeClass::Contention, FlakeClass::Broken) => {
                assert(flake_class_text(FlakeClass::Broken)[0] != flake_class_text(FlakeClass::Contention)[0]);
            },
            (FlakeClass::Intrinsic, FlakeClass::Contention) | (FlakeClass::Contention, FlakeClass::Intrinsic) => {
                assert(flake_class_text(FlakeClass::Intrinsic)[0] != flake_class_text(FlakeClass::Contention)[0]);
            },
            _ => {},
        }
    }
}

/// Session kinds have distinct names, so parsing a kind's name gives the
/// kind back.
pub proof fn law_session_kind_name_roundtrip(a: SessionKind, b: SessionKind)
    ensures
        session_kind_text(a) == session_kind_text(b) ==> a == b,
{
    if session_kind_text(a) == session_kind_text(b) && a != b {
        assert(session_kind_text(SessionKind::Detection)[1] != session_kind_text(SessionKind::Diagnose)[1]);
    }
}

} // verus!
