//! Running one test case: configuration, results, how an exit is read,
//! and the retry loop's decisions.
use vstd::prelude::*;

use crate::runner::listing::TestCase;
use crate::text::{chars_of, contains, contains_text, extend_str, string_of};
use crate::types::{is_failure, TestOutcome};

verus! {

/// How tests are executed.
#[derive(Debug, Clone)]
pub struct ExecutionConfig {
    pub concurrency: usize,
    pub timeout_ms: u64,
    pub retries: u32,
    pub retry_delay_ms: u64,
}

impl ExecutionConfig {
    /// The default configuration given the machine's parallelism: that
    /// many workers (4 when unknown), a 300 s timeout, no retries and a
    /// 100 ms retry delay.
    pub fn with_parallelism(available: Option<usize>) -> (r: ExecutionConfig)
        ensures
            r.concurrency == (match available {
                Some(n) => n,
                None => 4,
            }),
            r.timeout_ms == 300_000,
            r.retries == 0,
            r.retry_delay_ms == 100,
    {
        ExecutionConfig {
            concurrency: match available {
                Some(n) => n,
                None => 4,
            },
            timeout_ms: 300_000,
            retries: 0,
            retry_delay_ms: 100,
        }
    }
}

/// One execution of one test.
#[derive(Debug)]
pub struct TestResult {
    pub test_case: TestCase,
    pub outcome: TestOutcome,
    pub duration_ms: u64,
    pub stdout: String,
    pub stderr: String,
    pub attempt: u32,
}

/// Runs tests under an execution configuration.
pub struct Executor<'a> {
    config: &'a ExecutionConfig,
}

impl<'a> Executor<'a> {
    /// An executor for the given configuration.
    pub fn new(config: &'a ExecutionConfig) -> (r: Executor<'a>)
        ensures
            r.config() == config,
    {
        Executor { config }
    }

    pub closed spec fn config(&self) -> &'a ExecutionConfig {
        self.config
    }

    /// The configuration the executor runs under.
    pub fn execution_config(&self) -> (r: &'a ExecutionConfig)
        ensures
            r == self.config(),
    {
        self.config
    }
}

/// `test result: ok. 0 passed;`, what libtest prints when the selected
/// test was ignored.
pub open spec fn ignored_marker() -> Seq<char> {
    "test result: ok. 0 passed;"@
}

/// `panicked at`
pub open spec fn panic_marker() -> Seq<char> {
    "panicked at"@
}

/// How a finished test process is read: a successful exit is `Ignored`
/// when libtest reports that nothing ran and `Passed` otherwise; a failed
/// exit is `Panic` when either stream mentions a panic and `Failed`
/// otherwise.
pub open spec fn outcome_of(success: bool, stdout: Seq<char>, stderr: Seq<char>) -> TestOutcome {
    if success {
        if contains_text(stdout, ignored_marker()) {
            TestOutcome::Ignored
        } else {
            TestOutcome::Passed
        }
    } else if contains_text(stderr, panic_marker()) || contains_text(stdout, panic_marker()) {
        TestOutcome::Panic
    } else {
        TestOutcome::Failed
    }
}

/// Reads the outcome of a finished test process.
pub fn classify_output(success: bool, stdout: &str, stderr: &str) -> (r: TestOutcome)
    ensures
        r == outcome_of(success, stdout@, stderr@),
{
    let out = chars_of(stdout);
    let err = chars_of(stderr);
    if success {
        let m = chars_of("test result: ok. 0 passed;");
        if contains(&out, &m) {
            TestOutcome::Ignored
        } else {
            TestOutcome::Passed
        }
    } else {
        let p = chars_of("panicked at");
        if contains(&err, &p) || contains(&out, &p) {
            TestOutcome::Panic
        } else {
            TestOutcome::Failed
        }
    }
}

/// What the retry loop does next.
#[derive(Debug, Clone, Copy, PartialEq, Eq, Structural)]
pub enum AttemptAction {
    /// Run the test again after waiting `delay_ms` (0 for the first run).
    Run { delay_ms: u64 },
    /// Stop: every attempt has been recorded.
    Finish,
}

/// The retry loop of one test: every attempt is kept, oldest first, so
/// that fail-then-pass sequences stay visible to flakiness detection.
pub struct AttemptLoop {
    retries: u32,
    retry_delay_ms: u64,
    attempts: Vec<TestResult>,
    done: bool,
}

/// Attempts stop after the first one that did not fail, or after
/// `retries + 1` attempts.
pub open spec fn loop_done(retries: u32, attempts: Seq<TestResult>) -> bool {
    attempts.len() > 0 && (!is_failure(attempts.last().outcome) || attempts.len() >= retries + 1)
}

impl AttemptLoop {
    /// The attempts recorded so far.
    pub closed spec fn recorded(&self) -> Seq<TestResult> {
        self.attempts@
    }

    pub closed spec fn retries(&self) -> u32 {
        self.retries
    }

    pub closed spec fn retry_delay(&self) -> u64 {
        self.retry_delay_ms
    }

    /// Well-formed: attempts are numbered from 1, every one but the last
    /// failed, and the loop is done exactly when it should stop.
    pub closed spec fn wf(&self) -> bool {
        &&& self.attempts@.len() <= self.retries + 1
        &&& forall|i: int| 0 <= i < self.attempts@.len() ==> #[trigger] self.attempts@[i].attempt == i + 1
        &&& forall|i: int| 0 <= i < self.attempts@.len() - 1 ==> is_failure(#[trigger] self.attempts@[i].outcome)
        &&& self.done == loop_done(self.retries, self.attempts@)
    }

    /// A loop that has run nothing yet.
    pub fn new(retries: u32, retry_delay_ms: u64) -> (r: AttemptLoop)
        ensures
            r.wf(),
            r.recorded().len() == 0,
            r.retries() == retries,
            r.retry_delay() == retry_delay_ms,
    {
        AttemptLoop { retries, retry_delay_ms, attempts: Vec::new(), done: false }
    }

    /// The next step: run (immediately the first time, after the retry
    /// delay later) until the loop is done.
    pub fn next_action(&self) -> (r: AttemptAction)
        requires
            self.wf(),
        ensures
            loop_done(self.retries(), self.recorded()) ==> r == AttemptAction::Finish,
            !loop_done(self.retries(), self.recorded()) ==> r == (AttemptAction::Run {
                delay_ms: if self.recorded().len() == 0 {
                    0
                } else {
                    self.retry_delay()
                },
            }),
    {
        if self.done {
            AttemptAction::Finish
        } else if self.attempts.len() == 0 {
            AttemptAction::Run { delay_ms: 0 }
        } else {
            AttemptAction::Run { delay_ms: self.retry_delay_ms }
        }
    }

    /// Records the result of the attempt that was just run, numbering it.
    pub fn record(&mut self, result: TestResult)
        requires
            old(self).wf(),
            old(self).recorded().len() < u32::MAX,
            !loop_done(old(self).retries(), old(self).recorded()),
        ensures
            final(self).wf(),
            final(self).retries() == old(self).retries(),
            final(self).retry_delay() == old(self).retry_delay(),
            final(self).recorded().len() == old(self).recorded().len() + 1,
            final(self).recorded().drop_last() == old(self).recorded(),
            final(self).recorded().last().outcome == result.outcome,
            final(self).recorded().last().test_case == result.test_case,
            final(self).recorded().last().attempt == old(self).recorded().len() + 1,
    {
        let n = self.attempts.len();
        assert(n <= self.retries);
        let n32 = n as u32;
        let numbered = TestResult { attempt: n32 + 1, ..result };
        self.attempts.push(numbered);
        let stop = !numbered_is_failure(self.attempts[n].outcome) || (self.attempts.len() as u64)
            > (self.retries as u64);
        self.done = stop;
        proof {
            assert(self.attempts@.drop_last() =~= old(self).attempts@);
        }
    }

    /// The recorded attempts, oldest first.
    pub fn into_attempts(self) -> (r: Vec<TestResult>)
        ensures
            r@ == self.recorded(),
    {
        self.attempts
    }
}

fn numbered_is_failure(o: TestOutcome) -> (r: bool)
    ensures
        r == is_failure(o),
{
    o.is_failure()
}

/// The error message stored with a run: none for passed and ignored runs,
/// the timeout for timed-out runs, and otherwise stderr, else stdout, when
/// not empty.
pub fn run_error_message(outcome: TestOutcome, stdout: &str, stderr: &str, duration_text: &str) -> (r: Option<String>)
    ensures
        (outcome == TestOutcome::Passed || outcome == TestOutcome::Ignored) ==> r is None,
        outcome == TestOutcome::Timeout ==> (r matches Some(m) && m@ == "test timed out after "@ + duration_text@),
        (outcome == TestOutcome::Failed || outcome == TestOutcome::Panic) ==> (if stderr@.len() > 0 {
            r matches Some(m) && m@ == stderr@
        } else if stdout@.len() > 0 {
            r matches Some(m) && m@ == stdout@
        } else {
            r is None
        }),
{
    match outcome {
        TestOutcome::Passed | TestOutcome::Ignored => None,
        TestOutcome::Timeout => {
            let mut v = chars_of("test timed out after ");
            extend_str(&mut v, duration_text);
            Some(string_of(&v))
        },
        _ => {
            if !stderr.is_empty() {
                Some(stderr.to_owned())
            } else if !stdout.is_empty() {
                Some(stdout.to_owned())
            } else {
                None
            }
        },
    }
}


/// A failed test process is a panic when either of its streams mentions
/// `panicked at`, and a plain failure when neither does; a successful one
/// is never a failure.
pub proof fn law_panic_in_either_stream(stdout: Seq<char>, stderr: Seq<char>)
    ensures
        contains_text(stdout, "panicked at"@) ==> outcome_of(false, stdout, stderr) == TestOutcome::Panic,
        contains_text(stderr, "panicked at"@) ==> outcome_of(false, stdout, stderr) == TestOutcome::Panic,
        !contains_text(stdout, "panicked at"@) && !contains_text(stderr, "panicked at"@) ==> outcome_of(
            false,
            stdout,
            stderr,
        ) == TestOutcome::Failed,
        outcome_of(true, stdout, stderr) == TestOutcome::Passed || outcome_of(true, stdout, stderr)
            == TestOutcome::Ignored,
{
}

} // verus!
