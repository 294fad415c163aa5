//! Multi-phase diagnosis of flaky tests: stress the whole binary, rerun
//! the tests that failed in isolation, and classify each from the counts.
use vstd::prelude::*;

use crate::runner::executor::ExecutionConfig;
use crate::runner::listing::TestCase;
use crate::text::{chars_of, text_less, text_lt, lemma_text_lt_total, lemma_text_lt_transitive};
use crate::types::{
    count_where, entries_map, id_key, id_view, is_failure, lemma_count_where_bound,
    lemma_entries_map, distinct_ids, FlakeClass, IdKey, PhaseCounts, PhaseCountsMap, TestId,
    TestOutcome, DiagnosticResult, flake_class_text, str_equal,
};
use crate::text::{string_of, extend_str};
use crate::filter::eval::{listed, name_set};

verus! {

/// The class of a test from its phase counts: none unless it failed under
/// stress and ran in isolation; contention when isolation never failed,
/// broken when every isolation run failed, intrinsic otherwise.
pub open spec fn class_of(c: PhaseCounts) -> Option<FlakeClass> {
    if c.stress_failures == 0 || c.isolation_runs == 0 {
        None
    } else if c.isolation_failures == 0 {
        Some(FlakeClass::Contention)
    } else if c.isolation_failures >= c.isolation_runs {
        Some(FlakeClass::Broken)
    } else {
        Some(FlakeClass::Intrinsic)
    }
}

/// Classifies a test from stress and isolation phase counts.
///
/// Returns `None` when the test never failed under stress (or isolation
/// was not run).
pub fn classify(counts: &PhaseCounts) -> (r: Option<FlakeClass>)
    ensures
        r == class_of(*counts),
{
    if counts.stress_failures == 0 || counts.isolation_runs == 0 {
        return None;
    }
    if counts.isolation_failures == 0 {
        return Some(FlakeClass::Contention);
    }
    if counts.isolation_failures >= counts.isolation_runs {
        return Some(FlakeClass::Broken);
    }
    Some(FlakeClass::Intrinsic)
}

/// Resolves the multi-phase flag: `--no-multi` wins, then `--multi`, then
/// the configuration.
pub fn resolve_multi_phase(cli_multi: bool, cli_no_multi: bool, config_multi: bool) -> (r: bool)
    ensures
        r == (!cli_no_multi && (cli_multi || config_multi)),
{
    if cli_no_multi {
        false
    } else if cli_multi {
        true
    } else {
        config_multi
    }
}

/// Isolation execution config for diagnose: serial, no retries.
pub fn isolation_execution_config(timeout_ms: u64) -> (r: ExecutionConfig)
    ensures
        r.concurrency == 1,
        r.retries == 0,
        r.timeout_ms == timeout_ms,
        r.retry_delay_ms == 0,
{
    ExecutionConfig { concurrency: 1, retries: 0, timeout_ms, retry_delay_ms: 0 }
}

/// The identity key text of an entry.
pub open spec fn key_of(id: TestId) -> Seq<char> {
    id_key(id.package_name@, id.binary_name@, id.test_name@)
}

/// Sorted by identity key (equal keys in any order).
pub open spec fn sorted_by_key(s: Seq<(TestId, FlakeClass, PhaseCounts)>) -> bool {
    forall|i: int, j: int| 0 <= i < j < s.len() ==> !text_lt(key_of(#[trigger] s[j].0), key_of(#[trigger] s[i].0))
}

/// Number of classified entries among the first `k` of `s`.
pub open spec fn classified_count(s: Seq<(TestId, PhaseCounts)>, k: int) -> nat
    decreases k,
{
    if k <= 0 {
        0
    } else {
        classified_count(s, k - 1) + if class_of(s[k - 1].1) is Some {
            1nat
        } else {
            0nat
        }
    }
}

/// A result row agrees with the map: its identity is present with these
/// counts, and the counts classify to its class.
pub open spec fn row_of_map(
    m: Map<IdKey, PhaseCounts>,
    row: (TestId, FlakeClass, PhaseCounts),
) -> bool {
    m.contains_key(id_view(row.0)) && m[id_view(row.0)] == row.2 && class_of(row.2) == Some(row.1)
}

fn insert_by_key(out: &mut Vec<(TestId, FlakeClass, PhaseCounts)>, row: (TestId, FlakeClass, PhaseCounts))
    requires
        sorted_by_key(old(out)@),
    ensures
        sorted_by_key(final(out)@),
        exists|p: int| 0 <= p <= old(out)@.len() && final(out)@ == old(out)@.insert(p, row),
{
    let k = row.0.key();
    let kv = chars_of(k.as_str());
    let mut p: usize = 0;
    while p < out.len() && !key_before(&kv, &out[p].0)
        invariant
            p <= out.len(),
            kv@ == key_of(row.0),
            forall|i: int| 0 <= i < p ==> !text_lt(kv@, key_of(#[trigger] out@[i].0)),
        decreases out.len() - p,
    {
        p += 1;
    }
    let ghost before = out@;
    out.insert(p, row);
    proof {
        let after = out@;
        assert forall|a: int, b: int| 0 <= a < b < after.len() implies !text_lt(
            key_of(#[trigger] after[b].0),
            key_of(#[trigger] after[a].0),
        ) by {
            if b < p {
                assert(after[a] == before[a] && after[b] == before[b]);
            } else if b == p {
                assert(after[a] == before[a]);
                assert(!text_lt(kv@, key_of(before[a].0)));
                lemma_text_lt_total(kv@, key_of(before[a].0));
                if text_lt(key_of(before[a].0), kv@) {
                    crate::text::lemma_text_lt_irreflexive(kv@);
                    if text_lt(kv@, key_of(before[a].0)) {
                        lemma_text_lt_transitive(kv@, key_of(before[a].0), kv@);
                    }
                }
            } else if a == p {
                assert(after[b] == before[b - 1]);
                // kv < key(before[p]) <= key(before[b-1])
                assert(text_lt(kv@, key_of(before[p as int].0)));
                if text_lt(key_of(before[b - 1].0), kv@) {
                    lemma_text_lt_transitive(key_of(before[b - 1].0), kv@, key_of(before[p as int].0));
                    if b - 1 > p {
                        assert(!text_lt(key_of(before[b - 1].0), key_of(before[p as int].0)));
                    } else {
                        crate::text::lemma_text_lt_irreflexive(key_of(before[p as int].0));
                    }
                }
            } else if a < p {
                assert(after[a] == before[a] && after[b] == before[b - 1]);
            } else {
                assert(after[a] == before[a - 1] && after[b] == before[b - 1]);
            }
        }
    }
}

fn key_before(kv: &Vec<char>, id: &TestId) -> (r: bool)
    ensures
        r == text_lt(kv@, key_of(*id)),
{
    let other = id.key();
    let ov = chars_of(other.as_str());
    text_less(kv, &ov)
}

/// Builds the diagnostic results of a count map: one row per classified
/// test, sorted by identity key.
pub fn build_results_from_counts(counts: &PhaseCountsMap) -> (r: Vec<(TestId, FlakeClass, PhaseCounts)>)
    ensures
        sorted_by_key(r@),
        forall|i: int| 0 <= i < r@.len() ==> row_of_map(counts@, #[trigger] r@[i]),
        forall|k: IdKey|
            #[trigger] counts@.contains_key(k) && class_of(counts@[k]) is Some ==> exists|i: int|
                0 <= i < r@.len() && id_view(r@[i].0) == k,
        r@.len() == classified_count(counts.entry_seq(), counts.entry_seq().len() as int),
{
    let entries = counts.entries();
    let ghost es = entries@;
    proof {
        lemma_entries_map(es);
    }
    let mut out: Vec<(TestId, FlakeClass, PhaseCounts)> = Vec::new();
    let mut i: usize = 0;
    while i < entries.len()
        invariant
            i <= entries.len(),
            es == entries@,
            distinct_ids(es),
            entries_map(es) == counts@,
            sorted_by_key(out@),
            out@.len() == classified_count(es, i as int),
            forall|j: int|
                0 <= j < out@.len() ==> exists|e: int|
                    0 <= e < i && id_view(#[trigger] out@[j].0) == id_view(es[e].0) && out@[j].2
                        == es[e].1 && class_of(es[e].1) == Some(out@[j].1),
            forall|e: int|
                0 <= e < i && class_of(#[trigger] es[e].1) is Some ==> exists|j: int|
                    0 <= j < out@.len() && id_view(out@[j].0) == id_view(es[e].0),
        decreases entries.len() - i,
    {
        let ghost prev = out@;
        let c = entries[i].1;
        match classify(&c) {
            Some(class) => {
                let row = (entries[i].0.clone(), class, c);
                insert_by_key(&mut out, row);
                proof {
                    let p = choose|p: int| 0 <= p <= prev.len() && out@ == prev.insert(p, row);
                    assert forall|j: int| 0 <= j < out@.len() implies exists|e: int|
                        0 <= e < i + 1 && id_view(#[trigger] out@[j].0) == id_view(es[e].0)
                            && out@[j].2 == es[e].1 && class_of(es[e].1) == Some(out@[j].1) by {
                        if j < p {
                            assert(out@[j] == prev[j]);
                        } else if j == p {
                            assert(out@[j] == row);
                        } else {
                            assert(out@[j] == prev[j - 1]);
                        }
                    }
                    assert forall|e: int| 0 <= e < i + 1 && class_of(#[trigger] es[e].1) is Some implies exists|j: int|
                        0 <= j < out@.len() && id_view(out@[j].0) == id_view(es[e].0) by {
                        if e == i {
                            assert(out@[p] == row);
                        } else {
                            let j = choose|j: int| 0 <= j < prev.len() && id_view(prev[j].0) == id_view(es[e].0);
                            if j < p {
                                assert(out@[j] == prev[j]);
                            } else {
                                assert(out@[j + 1] == prev[j]);
                            }
                        }
                    }
                }
            },
            None => {},
        }
        i += 1;
    }
    proof {
        assert forall|j: int| 0 <= j < out@.len() implies row_of_map(counts@, #[trigger] out@[j]) by {
            let e = choose|e: int|
                0 <= e < i && id_view(out@[j].0) == id_view(es[e].0) && out@[j].2 == es[e].1
                    && class_of(es[e].1) == Some(out@[j].1);
            assert(entries_map(es).contains_key(id_view(es[e].0)));
        }
        assert forall|k: IdKey| #[trigger] counts@.contains_key(k) && class_of(counts@[k]) is Some implies exists|j: int|
            0 <= j < out@.len() && id_view(out@[j].0) == k by {
            let e = choose|e: int| 0 <= e < es.len() && id_view(es[e].0) == k;
            assert(entries_map(es).contains_key(id_view(es[e].0)));
            assert(class_of(es[e].1) is Some);
        }
    }
    out
}

/// Which diagnose classes are quarantined automatically.
#[derive(Debug, Clone, Copy, PartialEq, Eq, Structural)]
pub struct QuarantineByClass {
    pub intrinsic: bool,
    pub contention: bool,
    pub broken: bool,
}

impl Default for QuarantineByClass {
    /// Intrinsic and broken tests are quarantined; contention is not, as
    /// it only shows under load.
    fn default() -> (r: QuarantineByClass)
        ensures
            r == (QuarantineByClass { intrinsic: true, contention: false, broken: true }),
    {
        QuarantineByClass { intrinsic: true, contention: false, broken: true }
    }
}

/// Whether `by` quarantines `class`.
pub open spec fn class_quarantined(class: FlakeClass, by: QuarantineByClass) -> bool {
    match class {
        FlakeClass::Intrinsic => by.intrinsic,
        FlakeClass::Contention => by.contention,
        FlakeClass::Broken => by.broken,
    }
}

/// Whether a diagnose class is eligible for auto-quarantine under `by`.
pub fn should_quarantine_class(class: FlakeClass, by: &QuarantineByClass) -> (r: bool)
    ensures
        r == class_quarantined(class, *by),
{
    match class {
        FlakeClass::Intrinsic => by.intrinsic,
        FlakeClass::Contention => by.contention,
        FlakeClass::Broken => by.broken,
    }
}

/// Isolation counts of a candidate: its stress counts (zero when it has
/// none) with the isolation runs and failures of `outcomes`.
pub fn with_isolation(stress: Option<PhaseCounts>, outcomes: &Vec<TestOutcome>) -> (r: PhaseCounts)
    requires
        outcomes.len() <= u32::MAX,
    ensures
        r.stress_runs == (match stress {
            Some(c) => c.stress_runs,
            None => 0,
        }),
        r.stress_failures == (match stress {
            Some(c) => c.stress_failures,
            None => 0,
        }),
        r.isolation_runs == outcomes@.len(),
        r.isolation_failures == count_where(outcomes@, |o: TestOutcome| is_failure(o)),
{
    let base = match stress {
        Some(c) => c,
        None => PhaseCounts { stress_runs: 0, stress_failures: 0, isolation_runs: 0, isolation_failures: 0 },
    };
    let counts = crate::types::OutcomeCounts::from_outcomes(outcomes);
    PhaseCounts {
        isolation_runs: outcomes.len() as u32,
        isolation_failures: counts.failed,
        ..base
    }
}

/// The counts of a candidate after isolation: its stress counts (zero
/// without any) with the isolation runs and failures of `outcomes`.
pub open spec fn isolation_counts(stress: Option<PhaseCounts>, outcomes: Seq<TestOutcome>) -> PhaseCounts {
    let base = match stress {
        Some(c) => c,
        None => PhaseCounts { stress_runs: 0, stress_failures: 0, isolation_runs: 0, isolation_failures: 0 },
    };
    PhaseCounts {
        isolation_runs: outcomes.len() as u32,
        isolation_failures: count_where(outcomes, |o: TestOutcome| is_failure(o)) as u32,
        ..base
    }
}

/// What diagnosis makes of one candidate after its isolation runs: nothing
/// when it does not classify; else its counts, its class, and whether to
/// record it (when recording was asked for and it is intrinsic).
pub fn diagnose_candidate(stress: Option<PhaseCounts>, outcomes: &Vec<TestOutcome>, record: bool) -> (r: Option<
    (PhaseCounts, FlakeClass, bool),
>)
    requires
        outcomes.len() <= u32::MAX,
    ensures
        r is None <==> class_of(isolation_counts(stress, outcomes@)) is None,
        r matches Some((c, k, rec)) ==> c == isolation_counts(stress, outcomes@) && class_of(c) == Some(k)
            && rec == (record && k == FlakeClass::Intrinsic),
{
    let counts = with_isolation(stress, outcomes);
    proof {
        lemma_count_where_bound(outcomes@, |o: TestOutcome| is_failure(o));
        assert(counts == isolation_counts(stress, outcomes@));
    }
    match classify(&counts) {
        None => None,
        Some(class) => Some((counts, class, should_record(record, class))),
    }
}

/// A selected test is an isolation candidate when it failed at least once
/// under stress.
pub open spec fn is_candidate(m: Map<IdKey, PhaseCounts>, tc: TestCase) -> bool {
    let k = (tc.package_name@, tc.binary_name@, tc.name@);
    m.contains_key(k) && m[k].stress_failures > 0
}

/// The candidates among `s`, in order.
pub open spec fn candidates_of(m: Map<IdKey, PhaseCounts>, s: Seq<TestCase>) -> Seq<TestCase>
    decreases s.len(),
{
    if s.len() == 0 {
        seq![]
    } else if is_candidate(m, s.last()) {
        candidates_of(m, s.drop_last()).push(s.last())
    } else {
        candidates_of(m, s.drop_last())
    }
}

/// The tests that failed at least once under stress, in selection order.
pub fn stress_candidates(tests: &Vec<TestCase>, counts: &PhaseCountsMap) -> (r: Vec<TestCase>)
    ensures
        r@ == candidates_of(counts@, tests@),
{
    let mut out: Vec<TestCase> = Vec::new();
    let mut i: usize = 0;
    while i < tests.len()
        invariant
            i <= tests.len(),
            out@ == candidates_of(counts@, tests@.take(i as int)),
        decreases tests.len() - i,
    {
        let tc = &tests[i];
        let id = TestId::new(tc.package_name.as_str(), tc.binary_name.as_str(), tc.name.as_str());
        let keep = match counts.get(&id) {
            Some(c) => c.stress_failures > 0,
            None => false,
        };
        proof {
            let t = tests@.take(i + 1);
            assert(t.drop_last() =~= tests@.take(i as int));
            assert(t.last() == tests@[i as int]);
        }
        if keep {
            out.push(tc.clone());
        }
        i += 1;
    }
    assert(tests@.take(tests.len() as int) =~= tests@);
    out
}

/// Recording is attempted only when requested and only for intrinsic
/// flakes, the ones a single-threaded trace can capture.
pub fn should_record(requested: bool, class: FlakeClass) -> (r: bool)
    ensures
        r == (requested && class == FlakeClass::Intrinsic),
{
    requested && match class {
        FlakeClass::Intrinsic => true,
        _ => false,
    }
}

/// The binaries of `s`, each once, in order of first appearance.
pub open spec fn distinct_paths(s: Seq<TestCase>) -> Seq<Seq<char>>
    decreases s.len(),
{
    if s.len() == 0 {
        seq![]
    } else {
        let d = distinct_paths(s.drop_last());
        if d.contains(s.last().binary_path@) {
            d
        } else {
            d.push(s.last().binary_path@)
        }
    }
}

/// The tests of `s` in the binary `path`, in order.
pub open spec fn cases_for(s: Seq<TestCase>, path: Seq<char>) -> Seq<TestCase>
    decreases s.len(),
{
    if s.len() == 0 {
        seq![]
    } else if s.last().binary_path@ == path {
        cases_for(s.drop_last(), path).push(s.last())
    } else {
        cases_for(s.drop_last(), path)
    }
}

/// The texts of a list of strings.
pub open spec fn texts_of(v: Seq<String>) -> Seq<Seq<char>> {
    v.map_values(|x: String| x@)
}

fn holds_text(v: &Vec<String>, p: &str) -> (r: bool)
    ensures
        r == texts_of(v@).contains(p@),
{
    let mut i: usize = 0;
    while i < v.len()
        invariant
            i <= v@.len(),
            forall|j: int| 0 <= j < i ==> v@[j]@ != p@,
        decreases v@.len() - i,
    {
        if str_equal(v[i].as_str(), p) {
            assert(texts_of(v@)[i as int] == p@);
            return true;
        }
        i += 1;
    }
    proof {
        if texts_of(v@).contains(p@) {
            let j = choose|j: int| 0 <= j < texts_of(v@).len() && texts_of(v@)[j] == p@;
            assert(v@[j]@ == p@);
        }
    }
    false
}

fn tests_in(tests: &Vec<TestCase>, path: &str) -> (r: Vec<TestCase>)
    ensures
        r@ == cases_for(tests@, path@),
{
    let mut out: Vec<TestCase> = Vec::new();
    let mut i: usize = 0;
    while i < tests.len()
        invariant
            i <= tests@.len(),
            out@ == cases_for(tests@.take(i as int), path@),
        decreases tests@.len() - i,
    {
        proof {
            let t = tests@.take(i + 1);
            assert(t.drop_last() =~= tests@.take(i as int));
            assert(t.last() == tests@[i as int]);
        }
        if str_equal(tests[i].binary_path.as_str(), path) {
            out.push(tests[i].clone());
        }
        i += 1;
    }
    assert(tests@.take(tests@.len() as int) =~= tests@);
    out
}

/// The selected tests grouped by binary: one group per binary, in order of
/// first appearance, each holding that binary's tests in order.
pub fn group_by_binary(tests: &Vec<TestCase>) -> (r: Vec<(String, Vec<TestCase>)>)
    ensures
        r@.len() == distinct_paths(tests@).len(),
        forall|g: int| 0 <= g < r@.len() ==> #[trigger] r@[g].0@ == distinct_paths(tests@)[g],
        forall|g: int| 0 <= g < r@.len() ==> #[trigger] r@[g].1@ == cases_for(tests@, r@[g].0@),
{
    let mut keys: Vec<String> = Vec::new();
    let mut i: usize = 0;
    while i < tests.len()
        invariant
            i <= tests@.len(),
            texts_of(keys@) == distinct_paths(tests@.take(i as int)),
        decreases tests@.len() - i,
    {
        proof {
            let t = tests@.take(i + 1);
            assert(t.drop_last() =~= tests@.take(i as int));
            assert(t.last() == tests@[i as int]);
        }
        let p = tests[i].binary_path.as_str();
        if !holds_text(&keys, p) {
            let ghost before = keys@;
            keys.push(tests[i].binary_path.clone());
            proof {
                assert(texts_of(keys@) =~= texts_of(before).push(tests@[i as int].binary_path@));
            }
        }
        i += 1;
    }
    assert(tests@.take(tests@.len() as int) =~= tests@);
    let mut groups: Vec<(String, Vec<TestCase>)> = Vec::new();
    let mut g: usize = 0;
    while g < keys.len()
        invariant
            g <= keys@.len(),
            texts_of(keys@) == distinct_paths(tests@),
            groups@.len() == g,
            forall|h: int| 0 <= h < g ==> #[trigger] groups@[h].0@ == distinct_paths(tests@)[h],
            forall|h: int| 0 <= h < g ==> #[trigger] groups@[h].1@ == cases_for(tests@, groups@[h].0@),
        decreases keys@.len() - g,
    {
        assert(texts_of(keys@)[g as int] == keys@[g as int]@);
        let cases = tests_in(tests, keys[g].as_str());
        groups.push((keys[g].clone(), cases));
        g += 1;
    }
    groups
}

/// What quarantining diagnose results writes: for each result whose class
/// is quarantined, in order, the test's short name and the reason
/// `auto:<class>`; nothing when quarantine or its automatic mode is off.
pub open spec fn quarantine_plan_of(
    results: Seq<DiagnosticResult>,
    enabled: bool,
    auto: bool,
    by: QuarantineByClass,
) -> Seq<(Seq<char>, Seq<char>)>
    decreases results.len(),
{
    if !(enabled && auto) || results.len() == 0 {
        seq![]
    } else {
        let rest = quarantine_plan_of(results.drop_last(), enabled, auto, by);
        let last = results.last();
        if class_quarantined(last.class, by) {
            rest.push((last.test_id.test_name@, seq!['a', 'u', 't', 'o', ':'] + flake_class_text(last.class)))
        } else {
            rest
        }
    }
}

/// The pairs' texts.
pub open spec fn pair_texts(v: Seq<(String, String)>) -> Seq<(Seq<char>, Seq<char>)> {
    v.map_values(|p: (String, String)| (p.0@, p.1@))
}

/// The quarantine entries diagnose results ask for: the short test name
/// and the reason, for each result whose class the configuration
/// quarantines. Tests already in quarantine are left to the caller, who
/// asks the store.
pub fn quarantine_plan(
    enabled: bool,
    auto: bool,
    by: &QuarantineByClass,
    results: &Vec<DiagnosticResult>,
) -> (r: Vec<(String, String)>)
    ensures
        pair_texts(r@) == quarantine_plan_of(results@, enabled, auto, *by),
{
    let mut out: Vec<(String, String)> = Vec::new();
    if !enabled || !auto {
        assert(pair_texts(out@) =~= Seq::<(Seq<char>, Seq<char>)>::empty());
        return out;
    }
    let mut i: usize = 0;
    while i < results.len()
        invariant
            enabled && auto,
            i <= results@.len(),
            pair_texts(out@) == quarantine_plan_of(results@.take(i as int), enabled, auto, *by),
        decreases results@.len() - i,
    {
        proof {
            let t = results@.take(i + 1);
            assert(t.drop_last() =~= results@.take(i as int));
            assert(t.last() == results@[i as int]);
        }
        let res = &results[i];
        if should_quarantine_class(res.class, by) {
            let mut reason: Vec<char> = Vec::new();
            reason.push('a');
            reason.push('u');
            reason.push('t');
            reason.push('o');
            reason.push(':');
            extend_str(&mut reason, res.class.as_str());
            assert(reason@ =~= seq!['a', 'u', 't', 'o', ':'] + flake_class_text(res.class));
            let name = res.test_id.test_name.as_str().to_owned();
            assert(name@ == res.test_id.test_name@);
            let ghost before = out@;
            out.push((name, string_of(&reason)));
            proof {
                assert(pair_texts(out@) =~= pair_texts(before).push(
                    (res.test_id.test_name@, seq!['a', 'u', 't', 'o', ':'] + flake_class_text(res.class)),
                ));
            }
        }
        i += 1;
    }
    assert(results@.take(results@.len() as int) =~= results@);
    out
}

/// The names of plan entries.
pub open spec fn plan_names(plan: Seq<(Seq<char>, Seq<char>)>) -> Seq<Seq<char>> {
    plan.map_values(|e: (Seq<char>, Seq<char>)| e.0)
}

/// The entries of a quarantine plan still to write, in order: an entry is
/// left out when its test is already held, or when an earlier entry
/// names the same test (that one put it in quarantine).
pub open spec fn fresh_quarantines(
    plan: Seq<(Seq<char>, Seq<char>)>,
    held: Set<Seq<char>>,
) -> Seq<(Seq<char>, Seq<char>)>
    decreases plan.len(),
{
    if plan.len() == 0 {
        seq![]
    } else {
        let rest = fresh_quarantines(plan.drop_last(), held);
        let e = plan.last();
        if held.contains(e.0) || plan_names(plan.drop_last()).contains(e.0) {
            rest
        } else {
            rest.push(e)
        }
    }
}

/// Whether an entry before position `i` of the plan names `name`.
fn named_before(plan: &Vec<(String, String)>, i: usize, name: &str) -> (r: bool)
    requires
        i <= plan@.len(),
    ensures
        r == plan_names(pair_texts(plan@.take(i as int))).contains(name@),
{
    let ghost names = plan_names(pair_texts(plan@.take(i as int)));
    let mut j: usize = 0;
    while j < i
        invariant
            j <= i <= plan@.len(),
            names == plan_names(pair_texts(plan@.take(i as int))),
            forall|k: int| 0 <= k < j ==> names[k] != name@,
        decreases i - j,
    {
        assert(names[j as int] == plan@[j as int].0@);
        if str_equal(plan[j].0.as_str(), name) {
            return true;
        }
        j += 1;
    }
    proof {
        if names.contains(name@) {
            let k = choose|k: int| 0 <= k < names.len() && names[k] == name@;
            assert(false);
        }
    }
    false
}

/// The entries of `plan` still to write, given the names already in
/// quarantine.
pub fn fresh_quarantine_entries(plan: &Vec<(String, String)>, quarantined: &Vec<String>) -> (r: Vec<
    (String, String),
>)
    ensures
        pair_texts(r@) == fresh_quarantines(pair_texts(plan@), name_set(quarantined@)),
{
    let mut out: Vec<(String, String)> = Vec::new();
    let mut i: usize = 0;
    assert(pair_texts(plan@.take(0)) =~= Seq::<(Seq<char>, Seq<char>)>::empty());
    while i < plan.len()
        invariant
            i <= plan@.len(),
            pair_texts(out@) == fresh_quarantines(pair_texts(plan@.take(i as int)), name_set(quarantined@)),
        decreases plan@.len() - i,
    {
        let name = plan[i].0.as_str();
        let held = listed(quarantined, name);
        let earlier = named_before(plan, i, name);
        proof {
            let t = plan@.take(i + 1);
            assert(t.drop_last() =~= plan@.take(i as int));
            assert(pair_texts(t).drop_last() =~= pair_texts(plan@.take(i as int)));
            assert(pair_texts(t).last() == (plan@[i as int].0@, plan@[i as int].1@));
        }
        if !held && !earlier {
            let ghost before = out@;
            let entry = (plan[i].0.as_str().to_owned(), plan[i].1.as_str().to_owned());
            out.push(entry);
            proof {
                assert(pair_texts(out@) =~= pair_texts(before).push((plan@[i as int].0@, plan@[i as int].1@)));
            }
        }
        i += 1;
    }
    assert(plan@.take(plan@.len() as int) =~= plan@);
    out
}


/// What the counts make of a test: no class unless it failed under stress
/// and ran in isolation; contention when it never failed in isolation;
/// broken when it failed in every isolation run (or more); intrinsic when
/// it failed in some isolation runs but not all.
pub proof fn law_flake_classes(c: PhaseCounts)
    ensures
        class_of(c) is None <==> (c.stress_failures == 0 || c.isolation_runs == 0),
        class_of(c) == Some(FlakeClass::Contention) <==> (c.stress_failures > 0 && c.isolation_runs > 0
            && c.isolation_failures == 0),
        class_of(c) == Some(FlakeClass::Broken) <==> (c.stress_failures > 0 && c.isolation_runs > 0
            && c.isolation_failures >= c.isolation_runs),
        class_of(c) == Some(FlakeClass::Intrinsic) <==> (c.stress_failures > 0 && 0 < c.isolation_failures
            < c.isolation_runs),
{
}

} // verus!
