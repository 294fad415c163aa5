//! Tallying a detection run: how many tests passed every iteration,
//! failed every iteration, or did some of each.
use vstd::prelude::*;
use crate::types::{TestOutcome, count_where, lemma_count_where_bound};
use crate::report::result_text;

verus! {

/// Running totals of a detection run.
#[derive(Debug, Clone, Copy, PartialEq, Eq, Structural)]
pub struct SuiteTally {
    pub pass_count: usize,
    pub flaky_count: usize,
    pub fail_count: usize,
    pub completed: usize,
}

/// Every completed test is counted once as passed, flaky or failed.
pub open spec fn tally_consistent(t: SuiteTally) -> bool {
    t.completed == t.pass_count + t.flaky_count + t.fail_count
}

impl SuiteTally {
    /// Nothing completed yet.
    pub fn new() -> (r: SuiteTally)
        ensures
            r == (SuiteTally { pass_count: 0, flaky_count: 0, fail_count: 0, completed: 0 }),
            tally_consistent(r),
    {
        SuiteTally { pass_count: 0, flaky_count: 0, fail_count: 0, completed: 0 }
    }

    /// Counts one finished test by how many of its iterations passed: all
    /// of them is a pass, none is a failure, anything between is flaky.
    pub fn record(&mut self, passed: u32, iterations: u32)
        requires
            old(self).completed < usize::MAX,
            tally_consistent(*old(self)),
        ensures
            final(self).completed == old(self).completed + 1,
            final(self).pass_count == old(self).pass_count + if passed == iterations { 1int } else { 0int },
            final(self).fail_count == old(self).fail_count + if passed != iterations && passed == 0 {
                1int
            } else {
                0int
            },
            final(self).flaky_count == old(self).flaky_count + if passed != iterations && passed != 0 {
                1int
            } else {
                0int
            },
            tally_consistent(*final(self)),
    {
        if passed == iterations {
            self.pass_count = self.pass_count + 1;
        } else if passed == 0 {
            self.fail_count = self.fail_count + 1;
        } else {
            self.flaky_count = self.flaky_count + 1;
        }
        self.completed = self.completed + 1;
    }
}

/// The tally's class of a test agrees with the label of its result line.
pub proof fn law_tally_matches_label(passed: u32, iterations: u32)
    ensures
        (result_text(passed, iterations) == seq!['P', 'A', 'S', 'S']) == (passed == iterations),
        (result_text(passed, iterations) == seq!['F', 'A', 'I', 'L']) == (passed != iterations
            && passed == 0),
        (result_text(passed, iterations) == seq!['F', 'L', 'A', 'K', 'Y']) == (passed != iterations
            && passed != 0),
{
    assert(seq!['P', 'A', 'S', 'S'] != seq!['F', 'A', 'I', 'L']) by {
        assert(seq!['P', 'A', 'S', 'S'][0] != seq!['F', 'A', 'I', 'L'][0]);
    }
    assert(seq!['P', 'A', 'S', 'S'] != seq!['F', 'L', 'A', 'K', 'Y']) by {
        assert(seq!['P', 'A', 'S', 'S'].len() != seq!['F', 'L', 'A', 'K', 'Y'].len());
    }
    assert(seq!['F', 'A', 'I', 'L'] != seq!['F', 'L', 'A', 'K', 'Y']) by {
        assert(seq!['F', 'A', 'I', 'L'].len() != seq!['F', 'L', 'A', 'K', 'Y'].len());
    }
}

/// How many of a test's runs passed, saturating at `u32::MAX`.
pub fn passed_count(outcomes: &Vec<TestOutcome>) -> (r: u32)
    ensures
        r == if count_where(outcomes@, |o: TestOutcome| o == TestOutcome::Passed) > u32::MAX {
            u32::MAX as nat
        } else {
            count_where(outcomes@, |o: TestOutcome| o == TestOutcome::Passed)
        },
{
    let mut n: usize = 0;
    let mut i: usize = 0;
    while i < outcomes.len()
        invariant
            i <= outcomes@.len(),
            n == count_where(outcomes@.take(i as int), |o: TestOutcome| o == TestOutcome::Passed),
        decreases outcomes@.len() - i,
    {
        proof {
            let t = outcomes@.take(i + 1);
            assert(t.drop_last() =~= outcomes@.take(i as int));
            lemma_count_where_bound(outcomes@.take(i as int), |o: TestOutcome| o == TestOutcome::Passed);
        }
        if outcomes[i] == TestOutcome::Passed {
            n = n + 1;
        }
        i += 1;
    }
    assert(outcomes@.take(outcomes@.len() as int) =~= outcomes@);
    if n > u32::MAX as usize {
        u32::MAX
    } else {
        n as u32
    }
}

} // verus!
