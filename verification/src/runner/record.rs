//! Recording failing isolation runs under rr: availability, the command,
//! directory names and user-facing messages.
use vstd::prelude::*;

use crate::runner::listing::TestCase;
use crate::runner::process::{arg_texts, CommandSpec};
use crate::text::{chars_of, decimal, decimal_of, extend_chars, string_of};
use crate::types::RecordOutcome;

verus! {

/// Probe for rr availability, implemented by the system and by test doubles.
pub trait RrEnvironment {
    /// Whether the platform is Linux, where rr runs.
    fn is_linux(&self) -> bool;

    /// The path of the rr executable, if it is on `PATH`.
    fn find_rr(&self) -> Option<String>;
}

/// What rr availability comes to: unsupported off Linux, unavailable
/// without an rr executable, and otherwise ready (recording still has to
/// be requested).
pub open spec fn rr_readiness(is_linux: bool, rr_found: bool) -> RecordOutcome {
    if !is_linux {
        RecordOutcome::UnsupportedOs
    } else if rr_found {
        RecordOutcome::SkippedNoRequest
    } else {
        RecordOutcome::Unavailable
    }
}

/// Decides rr availability from the platform and the rr lookup.
pub fn rr_outcome(is_linux: bool, rr_found: bool) -> (r: RecordOutcome)
    ensures
        r == rr_readiness(is_linux, rr_found),
{
    if !is_linux {
        RecordOutcome::UnsupportedOs
    } else if rr_found {
        RecordOutcome::SkippedNoRequest
    } else {
        RecordOutcome::Unavailable
    }
}

/// Resolves whether rr can be used for recording, by asking `env`.
pub fn resolve_rr<E: RrEnvironment>(env: &E) -> (r: RecordOutcome)
    ensures
        exists|linux: bool, found: bool| r == rr_readiness(linux, found),
{
    let linux = env.is_linux();
    if !linux {
        let r = rr_outcome(false, false);
        assert(r == rr_readiness(false, false));
        return r;
    }
    let found = match env.find_rr() {
        Some(_) => true,
        None => false,
    };
    let r = rr_outcome(true, found);
    assert(r == rr_readiness(true, found));
    r
}

/// The arguments of `rr record [--chaos] -o <out_dir> -- <binary> --exact
/// <name> --nocapture`.
pub open spec fn rr_args(binary: Seq<char>, test_name: Seq<char>, out_dir: Seq<char>, chaos: bool) -> Seq<Seq<char>> {
    let head = if chaos {
        seq!["record"@, "--chaos"@]
    } else {
        seq!["record"@]
    };
    head + seq!["-o"@, out_dir, "--"@, binary, "--exact"@, test_name, "--nocapture"@]
}

/// Builds `rr record [--chaos] -o <out_dir> -- <binary> --exact <name> --nocapture`.
pub fn rr_record_spec(rr: &str, binary: &str, test_name: &str, out_dir: &str, chaos: bool) -> (r: CommandSpec)
    ensures
        r.program@ == rr@,
        arg_texts(r.args@) == rr_args(binary@, test_name@, out_dir@, chaos),
        r.cwd is None,
{
    let mut args: Vec<String> = Vec::new();
    args.push("record".to_owned());
    if chaos {
        args.push("--chaos".to_owned());
    }
    let ghost head = arg_texts(args@);
    args.push("-o".to_owned());
    args.push(out_dir.to_owned());
    args.push("--".to_owned());
    args.push(binary.to_owned());
    args.push("--exact".to_owned());
    args.push(test_name.to_owned());
    args.push("--nocapture".to_owned());
    proof {
        let h = if chaos {
            seq!["record"@, "--chaos"@]
        } else {
            seq!["record"@]
        };
        assert(head =~= h);
        assert(arg_texts(args@) =~= rr_args(binary@, test_name@, out_dir@, chaos));
    }
    CommandSpec { program: rr.to_owned(), args, cwd: None }
}

/// The character a path segment keeps: ASCII letters and digits, `_` and
/// `-`; anything else becomes `_`.
pub open spec fn segment_char(c: char) -> char {
    if ('a' <= c && c <= 'z') || ('A' <= c && c <= 'Z') || ('0' <= c && c <= '9') || c == '_'
        || c == '-' {
        c
    } else {
        '_'
    }
}

/// A name made safe to use as one path segment.
pub open spec fn sanitized(s: Seq<char>) -> Seq<char> {
    Seq::new(s.len(), |i: int| segment_char(s[i]))
}

/// Replaces every character that is not an ASCII letter, digit, `_` or `-`
/// with `_`.
pub fn sanitize_segment(s: &str) -> (r: String)
    ensures
        r@ == sanitized(s@),
{
    let v = chars_of(s);
    let mut out: Vec<char> = Vec::new();
    let mut i: usize = 0;
    while i < v.len()
        invariant
            i <= v.len(),
            out@ == sanitized(v@).take(i as int),
        decreases v.len() - i,
    {
        let c = v[i];
        let k = if ('a' <= c && c <= 'z') || ('A' <= c && c <= 'Z') || ('0' <= c && c <= '9') || c
            == '_' || c == '-' {
            c
        } else {
            '_'
        };
        out.push(k);
        assert(sanitized(v@).take(i + 1) =~= sanitized(v@).take(i as int).push(k));
        i += 1;
    }
    assert(sanitized(v@).take(v.len() as int) =~= sanitized(v@));
    string_of(&out)
}

/// The two directory levels a test's recordings go under:
/// `<package>` and `<binary>__<test>`, each sanitized.
pub fn record_dir_segments(test_case: &TestCase) -> (r: (String, String))
    ensures
        r.0@ == sanitized(test_case.package_name@),
        r.1@ == sanitized(test_case.binary_name@) + seq!['_', '_'] + sanitized(test_case.name@),
{
    let pkg = sanitize_segment(test_case.package_name.as_str());
    let bin = sanitize_segment(test_case.binary_name.as_str());
    let name = sanitize_segment(test_case.name.as_str());
    let mut v = chars_of(bin.as_str());
    v.push('_');
    v.push('_');
    let n = chars_of(name.as_str());
    extend_chars(&mut v, &n);
    assert(v@ =~= sanitized(test_case.binary_name@) + seq!['_', '_'] + sanitized(test_case.name@));
    (pkg, string_of(&v))
}

/// The directory name of the `i`-th recording attempt: `attempt_<i>`.
pub fn attempt_dir_name(i: u32) -> (r: String)
    ensures
        r@ == seq!['a', 't', 't', 'e', 'm', 'p', 't', '_'] + decimal(i as nat),
{
    let mut v = chars_of("attempt_");
    proof {
        reveal_strlit("attempt_");
    }
    let d = decimal_of(i as u64);
    extend_chars(&mut v, &d);
    string_of(&v)
}

/// An attempt captured a failure when the test failed under rr and left a
/// non-empty trace directory.
pub fn attempt_captured(success: bool, trace_nonempty: bool) -> (r: bool)
    ensures
        r == (!success && trace_nonempty),
{
    !success && trace_nonempty
}

/// User-facing message when recording was requested but skipped or
/// soft-failed; empty when there is nothing to say.
pub fn rr_skip_message(outcome: &RecordOutcome) -> (r: String)
    ensures
        outcome is UnsupportedOs ==> r@
            == "rr recording is not supported on this platform; classification still ran."@,
        outcome is Unavailable ==> r@
            == "rr not found on PATH; install from https://rr-project.org/ (Linux only). Classification still ran."@,
        outcome is RecorderError ==> r@
            == "rr failed to produce a valid trace; classification still ran."@,
        outcome is PassedNoFailure ==> r@
            == "rr ran but no failing isolation attempt was captured within the attempt budget."@,
        (outcome is SkippedNoRequest || outcome is FailedWithTrace) ==> r@.len() == 0,
{
    match outcome {
        RecordOutcome::UnsupportedOs => {
            "rr recording is not supported on this platform; classification still ran.".to_owned()
        },
        RecordOutcome::Unavailable => {
            "rr not found on PATH; install from https://rr-project.org/ (Linux only). Classification still ran.".to_owned()
        },
        RecordOutcome::RecorderError => {
            "rr failed to produce a valid trace; classification still ran.".to_owned()
        },
        RecordOutcome::PassedNoFailure => {
            "rr ran but no failing isolation attempt was captured within the attempt budget.".to_owned()
        },
        RecordOutcome::SkippedNoRequest | RecordOutcome::FailedWithTrace { .. } => String::new(),
    }
}

/// What the recording loop asks for next.
#[derive(Debug, Clone, Copy, PartialEq, Eq, Structural)]
pub enum RecordStep {
    /// Run attempt `index` under rr, in a fresh directory of its own.
    Attempt { index: u32 },
    /// Attempt `index` failed and left a trace: move its directory to a
    /// name of its own, then report where it went.
    KeepTrace { index: u32 },
    /// Recording is over; take the outcome.
    Done,
}

/// How one attempt under rr ended.
#[derive(Debug, Clone, Copy, PartialEq, Eq, Structural)]
pub enum AttemptReport {
    /// rr could not be started.
    NotStarted,
    /// The attempt ran past the timeout.
    TimedOut,
    /// The attempt exited; `trace_nonempty` tells whether its directory
    /// holds anything.
    Exited { success: bool, trace_nonempty: bool },
}

/// The recording attempts of one test: attempts run one after another
/// until one fails with a trace, which is kept, or the budget is spent.
pub struct RecordLoop {
    attempts: u32,
    index: u32,
    keeping: bool,
    outcome: Option<RecordOutcome>,
    rr_failed_each: bool,
}

/// rr itself failed: the attempt exited unsuccessfully and left no trace.
pub open spec fn rr_failed(r: AttemptReport) -> bool {
    r == (AttemptReport::Exited { success: false, trace_nonempty: false })
}

/// A report shows a failure caught on a trace.
pub open spec fn report_captured(r: AttemptReport) -> bool {
    r matches AttemptReport::Exited { success, trace_nonempty } && attempt_captured_spec(success, trace_nonempty)
}

/// A failing exit with a non-empty trace directory is a capture.
pub open spec fn attempt_captured_spec(success: bool, trace_nonempty: bool) -> bool {
    !success && trace_nonempty
}

/// Where a kept trace ends up: the new name when the move worked, else the
/// attempt directory while it still holds the trace, else nothing usable.
pub open spec fn kept_outcome(moved_to: Option<Seq<char>>, out_dir: Seq<char>, still_nonempty: bool) -> Option<Seq<char>> {
    match moved_to {
        Some(p) => Some(p),
        None => if still_nonempty {
            Some(out_dir)
        } else {
            None
        },
    }
}

impl RecordLoop {
    /// The attempt budget.
    pub closed spec fn budget(&self) -> u32 {
        self.attempts
    }

    /// The attempt that runs next (or whose trace is being kept).
    pub closed spec fn current(&self) -> u32 {
        self.index
    }

    /// A trace is being kept.
    pub closed spec fn keeping(&self) -> bool {
        self.keeping
    }

    /// The decided outcome, once there is one.
    pub closed spec fn decided(&self) -> Option<RecordOutcome> {
        self.outcome
    }

    /// Every attempt discarded so far ended with rr failing without a
    /// trace (true before any attempt).
    pub closed spec fn rr_failed_so_far(&self) -> bool {
        self.rr_failed_each
    }

    /// Well-formed: attempts never pass the budget, and a trace is kept
    /// only for an attempt within it, before any outcome.
    pub closed spec fn wf(&self) -> bool {
        &&& self.index <= self.attempts
        &&& self.keeping ==> self.index < self.attempts && self.outcome is None
    }

    /// The step the loop is at.
    pub open spec fn step_of(&self) -> RecordStep {
        if self.decided() is Some {
            RecordStep::Done
        } else if self.keeping() {
            RecordStep::KeepTrace { index: self.current() }
        } else if self.current() < self.budget() {
            RecordStep::Attempt { index: self.current() }
        } else {
            RecordStep::Done
        }
    }

    /// A loop with `attempts` attempts to spend.
    pub fn new(attempts: u32) -> (r: RecordLoop)
        ensures
            r.wf(),
            r.budget() == attempts,
            r.current() == 0,
            !r.keeping(),
            r.decided() is None,
            r.rr_failed_so_far(),
    {
        RecordLoop { attempts, index: 0, keeping: false, outcome: None, rr_failed_each: true }
    }

    /// What to do next.
    pub fn next_step(&self) -> (r: RecordStep)
        requires
            self.wf(),
        ensures
            r == self.step_of(),
    {
        if self.outcome.is_some() {
            RecordStep::Done
        } else if self.keeping {
            RecordStep::KeepTrace { index: self.index }
        } else if self.index < self.attempts {
            RecordStep::Attempt { index: self.index }
        } else {
            RecordStep::Done
        }
    }

    /// Takes in how the current attempt ended: a failure with a trace is
    /// kept; anything else is discarded and the next attempt comes.
    pub fn attempt_ended(&mut self, report: AttemptReport)
        requires
            old(self).wf(),
            old(self).step_of() is Attempt,
        ensures
            final(self).wf(),
            final(self).budget() == old(self).budget(),
            final(self).decided() is None,
            report_captured(report) ==> final(self).keeping() && final(self).current() == old(self).current(),
            !report_captured(report) ==> !final(self).keeping() && final(self).current() == old(self).current() + 1,
            !report_captured(report) ==> final(self).rr_failed_so_far() == (old(self).rr_failed_so_far()
                && rr_failed(report)),
    {
        let captured = match report {
            AttemptReport::Exited { success, trace_nonempty } => attempt_captured(success, trace_nonempty),
            _ => false,
        };
        if captured {
            self.keeping = true;
        } else {
            let failed = match report {
                AttemptReport::Exited { success, trace_nonempty } => !success && !trace_nonempty,
                _ => false,
            };
            self.rr_failed_each = self.rr_failed_each && failed;
            self.index = self.index + 1;
        }
    }

    /// Takes in where the kept trace went: `moved_to` when the move worked;
    /// otherwise whether the attempt directory `out_dir` still holds it.
    pub fn trace_kept(&mut self, moved_to: Option<String>, out_dir: String, still_nonempty: bool)
        requires
            old(self).wf(),
            old(self).step_of() is KeepTrace,
        ensures
            final(self).wf(),
            final(self).budget() == old(self).budget(),
            final(self).current() == old(self).current(),
            !final(self).keeping(),
            match kept_outcome(
                match moved_to {
                    Some(p) => Some(p@),
                    None => None,
                },
                out_dir@,
                still_nonempty,
            ) {
                Some(p) => final(self).decided() matches Some(RecordOutcome::FailedWithTrace { path }) && path@ == p,
                None => final(self).decided() == Some(RecordOutcome::RecorderError),
            },
    {
        let outcome = match moved_to {
            Some(p) => RecordOutcome::FailedWithTrace { path: p },
            None => if still_nonempty {
                RecordOutcome::FailedWithTrace { path: out_dir }
            } else {
                RecordOutcome::RecorderError
            },
        };
        self.keeping = false;
        self.outcome = Some(outcome);
    }

    /// The outcome of a finished loop: the kept trace; that rr failed,
    /// when every attempt of a non-empty budget ended with rr failing
    /// without a trace; or else that no attempt caught a failure.
    pub fn into_outcome(self) -> (r: RecordOutcome)
        requires
            self.wf(),
            self.step_of() is Done,
        ensures
            self.decided() matches Some(o) ==> r == o,
            self.decided() is None ==> self.current() == self.budget() && r == (if self.budget() > 0
                && self.rr_failed_so_far() {
                RecordOutcome::RecorderError
            } else {
                RecordOutcome::PassedNoFailure
            }),
    {
        match self.outcome {
            Some(o) => o,
            None => if self.attempts > 0 && self.rr_failed_each {
                RecordOutcome::RecorderError
            } else {
                RecordOutcome::PassedNoFailure
            },
        }
    }
}

} // verus!
