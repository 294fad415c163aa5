//! Test discovery, execution and stress / record support.
pub mod binary;
pub mod listing;
pub mod process;
pub mod stress;
pub mod record;
pub mod executor;

use vstd::prelude::*;

use crate::runner::executor::ExecutionConfig;
use crate::runner::listing::{TestCase, TestKind};
use crate::text::{chars_of, contains, contains_text};

verus! {

/// Runs test binaries directly, without an external test runner.
pub struct NativeRunner {
    project_root: String,
    execution_config: ExecutionConfig,
}

impl NativeRunner {
    /// A runner for the project at `project_root`.
    pub fn new(project_root: &str, config: ExecutionConfig) -> (r: NativeRunner)
        ensures
            r.project_root()@ == project_root@,
            r.execution_config() == config,
    {
        NativeRunner { project_root: project_root.to_owned(), execution_config: config }
    }

    pub closed spec fn project_root(&self) -> String {
        self.project_root
    }

    pub closed spec fn execution_config(&self) -> ExecutionConfig {
        self.execution_config
    }

    /// The project root.
    pub fn root(&self) -> (r: &str)
        ensures
            r@ == self.project_root()@,
    {
        self.project_root.as_str()
    }

    /// The execution configuration.
    pub fn config(&self) -> (r: &ExecutionConfig)
        ensures
            *r == self.execution_config(),
    {
        &self.execution_config
    }
}

/// The runner back ends.
pub enum RunnerBackend {
    Native(NativeRunner),
}

impl RunnerBackend {
    /// The native back end for the project at `project_root`.
    pub fn native(project_root: &str, config: ExecutionConfig) -> (r: RunnerBackend)
        ensures
            r matches RunnerBackend::Native(n) && n.project_root()@ == project_root@
                && n.execution_config() == config,
    {
        RunnerBackend::Native(NativeRunner::new(project_root, config))
    }

    /// The execution configuration of the back end.
    pub fn execution_config(&self) -> (r: &ExecutionConfig)
        ensures
            self matches RunnerBackend::Native(n) && *r == n.execution_config(),
    {
        match self {
            RunnerBackend::Native(n) => n.config(),
        }
    }
}

/// A discovered case is kept when it is a test (not a benchmark) and, for
/// a non-empty filter, its name contains the filter.
pub open spec fn keep_case(tc: TestCase, filter: Seq<char>) -> bool {
    tc.kind == TestKind::Test && (filter.len() == 0 || contains_text(tc.name@, filter))
}

/// The cases of `s` that are kept, in order.
pub open spec fn kept_cases(s: Seq<TestCase>, filter: Seq<char>) -> Seq<TestCase>
    decreases s.len(),
{
    if s.len() == 0 {
        seq![]
    } else if keep_case(s.last(), filter) {
        kept_cases(s.drop_last(), filter).push(s.last())
    } else {
        kept_cases(s.drop_last(), filter)
    }
}

/// Keeps the tests (not benchmarks) whose name contains `filter`; an empty
/// filter keeps every test.
pub fn select_cases(cases: Vec<TestCase>, filter: &str) -> (r: Vec<TestCase>)
    ensures
        r@ == kept_cases(cases@, filter@),
{
    let f = chars_of(filter);
    let mut out: Vec<TestCase> = Vec::new();
    let mut i: usize = 0;
    while i < cases.len()
        invariant
            i <= cases.len(),
            f@ == filter@,
            out@ == kept_cases(cases@.take(i as int), filter@),
        decreases cases.len() - i,
    {
        let tc = &cases[i];
        let is_test = match tc.kind {
            TestKind::Test => true,
            TestKind::Benchmark => false,
        };
        let keep = is_test && (f.len() == 0 || {
            let n = chars_of(tc.name.as_str());
            contains(&n, &f)
        });
        proof {
            let t = cases@.take(i + 1);
            assert(t.drop_last() =~= cases@.take(i as int));
            assert(t.last() == cases@[i as int]);
        }
        if keep {
            out.push(tc.clone());
        }
        i += 1;
    }
    assert(cases@.take(cases.len() as int) =~= cases@);
    out
}


/// What selection keeps: only cases of kind test, never benchmarks, each
/// one of the given cases whose name contains a non-empty filter; and
/// every such test case is kept.
pub proof fn law_selected_cases_are_tests(cases: Seq<TestCase>, filter: Seq<char>)
    ensures
        forall|i: int| 0 <= i < kept_cases(cases, filter).len() ==> {
            let c = #[trigger] kept_cases(cases, filter)[i];
            &&& c.kind == TestKind::Test
            &&& filter.len() == 0 || contains_text(c.name@, filter)
            &&& cases.contains(c)
        },
        forall|j: int| 0 <= j < cases.len() && (#[trigger] cases[j]).kind == TestKind::Test && (filter.len() == 0
            || contains_text(cases[j].name@, filter)) ==> kept_cases(cases, filter).contains(cases[j]),
    decreases cases.len(),
{
    if cases.len() > 0 {
        let init = cases.drop_last();
        law_selected_cases_are_tests(init, filter);
        let k = kept_cases(cases, filter);
        let ki = kept_cases(init, filter);
        assert forall|i: int| 0 <= i < k.len() implies {
            let c = #[trigger] k[i];
            &&& c.kind == TestKind::Test
            &&& filter.len() == 0 || contains_text(c.name@, filter)
            &&& cases.contains(c)
        } by {
            if i < ki.len() {
                assert(k[i] == ki[i]);
                let c = ki[i];
                let m = choose|m: int| 0 <= m < init.len() && init[m] == c;
                assert(cases[m] == c);
            } else {
                assert(k[i] == cases.last());
                assert(cases[cases.len() - 1] == cases.last());
            }
        }
        assert forall|j: int| 0 <= j < cases.len() && (#[trigger] cases[j]).kind == TestKind::Test && (filter.len()
            == 0 || contains_text(cases[j].name@, filter)) implies k.contains(cases[j]) by {
            if j < init.len() {
                assert(init[j] == cases[j]);
                assert(ki.contains(cases[j]));
                let m = choose|m: int| 0 <= m < ki.len() && ki[m] == cases[j];
                assert(k[m] == cases[j]);
            } else {
                assert(cases[j] == cases.last());
                assert(k[k.len() - 1] == cases[j]);
            }
        }
    }
}

} // verus!
