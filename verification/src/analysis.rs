//! Counting over a test's run history: passes and failures, the failing
//! streak at the end, and the recent and previous halves of a trend
//! window.
use vstd::prelude::*;
use crate::types::{TestOutcome, OutcomeCounts, count_where, is_failure, str_equal,
    lemma_count_where_bound};
use crate::tui::sort::{IndexOrder, stable_sort, increasing, same_elements, stable_under,
    lemma_stable_from_increasing};

verus! {

/// Counts passes and failures (panics and timeouts count as failures;
/// ignored runs count as neither).
pub fn count_outcomes(outcomes: &Vec<TestOutcome>) -> (r: (u32, u32))
    requires
        outcomes@.len() <= u32::MAX,
    ensures
        r.0 == count_where(outcomes@, |o: TestOutcome| o == TestOutcome::Passed),
        r.1 == count_where(outcomes@, |o: TestOutcome| is_failure(o)),
{
    let counts = OutcomeCounts::from_outcomes(outcomes);
    (counts.passed, counts.failed)
}

/// The failures at the end of a history, oldest first: counting back from
/// the newest run, failures add one, ignored runs are passed over, and the
/// first pass stops the count.
pub open spec fn trailing_failures(s: Seq<TestOutcome>) -> nat
    decreases s.len(),
{
    if s.len() == 0 {
        0
    } else if s.last() == TestOutcome::Passed {
        0
    } else if s.last() == TestOutcome::Ignored {
        trailing_failures(s.drop_last())
    } else {
        1 + trailing_failures(s.drop_last())
    }
}

proof fn lemma_trailing_bound(s: Seq<TestOutcome>)
    ensures
        trailing_failures(s) <= s.len(),
    decreases s.len(),
{
    if s.len() > 0 {
        lemma_trailing_bound(s.drop_last());
    }
}

/// The number of failures since the last pass.
pub fn count_consecutive_trailing_failures(outcomes: &Vec<TestOutcome>) -> (r: u32)
    requires
        outcomes@.len() <= u32::MAX,
    ensures
        r == trailing_failures(outcomes@),
{
    let mut count: u32 = 0;
    let mut i: usize = outcomes.len();
    assert(outcomes@.take(outcomes@.len() as int) =~= outcomes@);
    while i > 0
        invariant
            i <= outcomes@.len() <= u32::MAX,
            trailing_failures(outcomes@) == count + trailing_failures(outcomes@.take(i as int)),
            count <= outcomes@.len() - i,
        decreases i,
    {
        let ghost t = outcomes@.take(i as int);
        assert(t.drop_last() =~= outcomes@.take(i - 1));
        match outcomes[i - 1] {
            TestOutcome::Passed => {
                return count;
            },
            TestOutcome::Ignored => {},
            _ => {
                count = count + 1;
            },
        }
        i -= 1;
    }
    assert(outcomes@.take(0) =~= Seq::<TestOutcome>::empty());
    count
}

/// One run as the trend reads it: its test, when it ran (nanoseconds since
/// the Unix epoch) and how it ended.
pub struct TrendSample {
    pub test_name: String,
    pub timestamp: i128,
    pub outcome: TestOutcome,
}

/// The two halves of a trend window: the newer half first.
#[derive(Debug, Clone, Copy, PartialEq, Eq, Structural)]
pub struct TrendCounts {
    pub recent_runs: usize,
    pub recent_failures: usize,
    pub previous_runs: usize,
    pub previous_failures: usize,
    pub window_runs: usize,
}

/// Newest first: a later run comes before an earlier one.
pub struct NewestFirst<'a> {
    pub samples: &'a Vec<TrendSample>,
}

impl<'a> IndexOrder for NewestFirst<'a> {
    open spec fn valid(&self, a: usize) -> bool {
        a < self.samples@.len()
    }

    open spec fn before(&self, a: usize, b: usize) -> bool {
        self.samples@[a as int].timestamp > self.samples@[b as int].timestamp
    }

    fn comes_before(&self, a: usize, b: usize) -> (r: bool) {
        self.samples[a].timestamp > self.samples[b].timestamp
    }

    proof fn lemma_irreflexive(&self, a: usize) {
    }

    proof fn lemma_transitive(&self, a: usize, b: usize, c: usize) {
    }

    proof fn lemma_weak(&self, a: usize, b: usize, c: usize) {
    }
}

/// `s` lists the runs of the test, each once, newest first, with runs
/// of the same time in the order they were given.
pub open spec fn newest_first(samples: Seq<TrendSample>, name: Seq<char>, s: Seq<usize>) -> bool {
    &&& forall|k: int| 0 <= k < s.len() ==> #[trigger] s[k] < samples.len() && samples[s[k] as int].test_name@ == name
    &&& forall|i: usize| i < samples.len() && samples[i as int].test_name@ == name ==> #[trigger] s.contains(i)
    &&& s.no_duplicates()
    &&& forall|i: int, j: int|
        0 <= i < j < s.len() ==> samples[#[trigger] s[i] as int].timestamp >= samples[#[trigger] s[j] as int].timestamp
    &&& forall|i: int, j: int|
        0 <= i < j < s.len() && samples[#[trigger] s[i] as int].timestamp == samples[#[trigger] s[j] as int].timestamp
            ==> s[i] < s[j]
}

/// Failures among the runs at positions `lo..hi` of `s`.
pub open spec fn failures_between(samples: Seq<TrendSample>, s: Seq<usize>, lo: int, hi: int) -> nat
    decreases hi - lo,
{
    if hi <= lo {
        0
    } else {
        failures_between(samples, s, lo, hi - 1) + if is_failure(samples[s[hi - 1] as int].outcome) {
            1nat
        } else {
            0nat
        }
    }
}

/// The trend counts of a newest-first list cut to `window` runs: none
/// below four runs, else the newer half (rounded down) and the rest.
pub open spec fn trend_of(samples: Seq<TrendSample>, s: Seq<usize>, window: u32) -> Option<TrendCounts> {
    let n: int = if s.len() < window { s.len() as int } else { window as int };
    if n < 4 {
        None
    } else {
        let mid = n / 2;
        Some(
            TrendCounts {
                recent_runs: mid as usize,
                recent_failures: failures_between(samples, s, 0, mid) as usize,
                previous_runs: (n - mid) as usize,
                previous_failures: failures_between(samples, s, mid, n) as usize,
                window_runs: n as usize,
            },
        )
    }
}

proof fn lemma_failures_bound(samples: Seq<TrendSample>, s: Seq<usize>, lo: int, hi: int)
    ensures
        failures_between(samples, s, lo, hi) <= if hi <= lo { 0 } else { hi - lo },
    decreases hi - lo,
{
    if hi > lo {
        lemma_failures_bound(samples, s, lo, hi - 1);
    }
}

fn count_failures_between(samples: &Vec<TrendSample>, s: &Vec<usize>, lo: usize, hi: usize) -> (r:
    usize)
    requires
        lo <= hi <= s@.len(),
        forall|k: int| 0 <= k < s@.len() ==> #[trigger] s@[k] < samples@.len(),
    ensures
        r == failures_between(samples@, s@, lo as int, hi as int),
{
    let mut count: usize = 0;
    let mut k: usize = lo;
    while k < hi
        invariant
            lo <= k <= hi <= s@.len(),
            forall|k: int| 0 <= k < s@.len() ==> #[trigger] s@[k] < samples@.len(),
            count == failures_between(samples@, s@, lo as int, k as int),
        decreases hi - k,
    {
        proof {
            lemma_failures_bound(samples@, s@, lo as int, k as int);
        }
        let o = samples[s[k]].outcome;
        if o.is_failure() {
            count = count + 1;
        }
        k += 1;
    }
    count
}

/// The runs of one test, in the order given.
fn runs_of(samples: &Vec<TrendSample>, name: &str) -> (r: Vec<usize>)
    ensures
        increasing(r@),
        forall|k: int| 0 <= k < r@.len() ==> #[trigger] r@[k] < samples@.len() && samples@[r@[k] as int].test_name@ == name@,
        forall|i: usize| i < samples@.len() && samples@[i as int].test_name@ == name@ ==> #[trigger] r@.contains(i),
{
    let mut out: Vec<usize> = Vec::new();
    let mut i: usize = 0;
    while i < samples.len()
        invariant
            i <= samples@.len(),
            increasing(out@),
            forall|k: int| 0 <= k < out@.len() ==> #[trigger] out@[k] < i && samples@[out@[k] as int].test_name@ == name@,
            forall|j: usize| j < i && samples@[j as int].test_name@ == name@ ==> #[trigger] out@.contains(j),
        decreases samples@.len() - i,
    {
        if str_equal(samples[i].test_name.as_str(), name) {
            let ghost before = out@;
            out.push(i);
            proof {
                assert forall|j: usize| j < i && samples@[j as int].test_name@ == name@ implies #[trigger] out@.contains(j) by {
                    assert(before.contains(j));
                    let k = choose|k: int| 0 <= k < before.len() && before[k] == j;
                    assert(out@[k] == j);
                }
                assert(out@[before.len() as int] == i);
            }
        }
        i += 1;
    }
    out
}

/// The trend window of a test: its runs newest first, cut to `window`;
/// with at least four runs, the failures of the newer half (rounded down)
/// and of the older rest.
pub fn trend_window(samples: &Vec<TrendSample>, test_name: &str, window: u32) -> (r: Option<
    TrendCounts,
>)
    ensures
        exists|s: Seq<usize>| newest_first(samples@, test_name@, s) && r == trend_of(samples@, s, window),
{
    let kept = runs_of(samples, test_name);
    let ord = NewestFirst { samples };
    proof {
        assert(kept@.no_duplicates()) by {
            assert forall|i: int, j: int| 0 <= i < kept@.len() && 0 <= j < kept@.len() && i != j implies kept@[i]
                != kept@[j] by {
                if i < j {
                    assert(kept@[i] < kept@[j]);
                } else {
                    assert(kept@[j] < kept@[i]);
                }
            }
        }
    }
    let s = stable_sort(&ord, &kept);
    proof {
        lemma_stable_from_increasing(&ord, kept@, s@);
        assert forall|k: int| 0 <= k < s@.len() implies #[trigger] s@[k] < samples@.len() && samples@[s@[k] as int].test_name@ == test_name@ by {
            assert(kept@.contains(s@[k]));
        }
        assert forall|i: usize| i < samples@.len() && samples@[i as int].test_name@ == test_name@ implies #[trigger] s@.contains(i) by {
            assert(kept@.contains(i));
            let p = choose|p: int| 0 <= p < kept@.len() && kept@[p] == i;
            assert(s@.contains(kept@[p]));
        }
        assert(s@.no_duplicates()) by {
            assert forall|i: int, j: int| 0 <= i < s@.len() && 0 <= j < s@.len() && i != j implies s@[i] != s@[j] by {
                if i < j {
                    assert(!ord.before(s@[i], s@[j]) ==> s@[i] < s@[j]);
                    assert(!ord.before(s@[j], s@[i]));
                } else {
                    assert(!ord.before(s@[j], s@[i]) ==> s@[j] < s@[i]);
                    assert(!ord.before(s@[i], s@[j]));
                }
            }
        }
        assert(newest_first(samples@, test_name@, s@));
    }
    let len = s.len();
    let w = window as usize;
    let n = if len < w {
        len
    } else {
        w
    };
    if n < 4 {
        assert(newest_first(samples@, test_name@, s@) && None::<TrendCounts> == trend_of(samples@, s@, window));
        return None;
    }
    let mid = n / 2;
    let recent_failures = count_failures_between(samples, &s, 0, mid);
    let previous_failures = count_failures_between(samples, &s, mid, n);
    let r = Some(
        TrendCounts {
            recent_runs: mid,
            recent_failures,
            previous_runs: n - mid,
            previous_failures,
            window_runs: n,
        },
    );
    assert(newest_first(samples@, test_name@, s@) && r == trend_of(samples@, s@, window));
    r
}

/// The times of the runs at the positions `s` lists, in that order.
pub open spec fn times_of(samples: Seq<TrendSample>, s: Seq<usize>) -> Seq<i128> {
    s.map_values(|i: usize| samples[i as int].timestamp)
}

/// Strictly later to earlier.
pub open spec fn strictly_decreasing(a: Seq<i128>) -> bool {
    forall|i: int, j: int| 0 <= i < j < a.len() ==> a[i] > a[j]
}

/// Two strictly decreasing sequences with the same elements are the same.
proof fn lemma_decreasing_unique(a: Seq<i128>, b: Seq<i128>)
    requires
        strictly_decreasing(a),
        strictly_decreasing(b),
        forall|x: i128| a.contains(x) <==> b.contains(x),
    ensures
        a == b,
    decreases a.len(),
{
    if a.len() == 0 {
        if b.len() > 0 {
            assert(b.contains(b[0]));
        }
        assert(a =~= b);
    } else {
        assert(a.contains(a[0]));
        assert(b.len() > 0);
        assert(b.contains(b[0]));
        let j = choose|j: int| 0 <= j < b.len() && b[j] == a[0];
        let i = choose|i: int| 0 <= i < a.len() && a[i] == b[0];
        assert(a[0] >= a[i]);
        assert(b[0] >= b[j]);
        assert(a[0] == b[0]);
        let ra = a.drop_first();
        let rb = b.drop_first();
        assert forall|x: i128| ra.contains(x) <==> rb.contains(x) by {
            if ra.contains(x) {
                let k = choose|k: int| 0 <= k < ra.len() && ra[k] == x;
                assert(a[k + 1] == x);
                assert(a.contains(x));
                let m = choose|m: int| 0 <= m < b.len() && b[m] == x;
                assert(m != 0);
                assert(rb[m - 1] == x);
            }
            if rb.contains(x) {
                let k = choose|k: int| 0 <= k < rb.len() && rb[k] == x;
                assert(b[k + 1] == x);
                assert(b.contains(x));
                let m = choose|m: int| 0 <= m < a.len() && a[m] == x;
                assert(m != 0);
                assert(ra[m - 1] == x);
            }
        }
        lemma_decreasing_unique(ra, rb);
        assert forall|k: int| 0 <= k < a.len() implies a[k] == b[k] by {
            if k > 0 {
                assert(a[k] == ra[k - 1]);
                assert(b[k] == rb[k - 1]);
            }
        }
        assert(a =~= b);
    }
}

/// Counting failures over a range sees only the outcomes there.
proof fn lemma_failures_same(
    samples1: Seq<TrendSample>,
    s1: Seq<usize>,
    samples2: Seq<TrendSample>,
    s2: Seq<usize>,
    lo: int,
    hi: int,
)
    requires
        0 <= lo,
        hi <= s1.len(),
        hi <= s2.len(),
        forall|k: int| 0 <= k < s1.len() && k < s2.len() ==> #[trigger] samples1[s1[k] as int].outcome
            == samples2[s2[k] as int].outcome,
    ensures
        failures_between(samples1, s1, lo, hi) == failures_between(samples2, s2, lo, hi),
    decreases hi - lo,
{
    if hi > lo {
        lemma_failures_same(samples1, s1, samples2, s2, lo, hi - 1);
        assert(samples1[s1[hi - 1] as int].outcome == samples2[s2[hi - 1] as int].outcome);
    }
}

/// The trend of a test does not depend on the order its runs come in,
/// when no two of its runs have the same time: for `samples2` holding the
/// runs of `samples1` in another order (run `i` of `samples2` is run
/// `perm[i]` of `samples1`, and `inv` undoes `perm`), the newest-first
/// lists of the two give the same trend counts.
pub proof fn law_trend_order_independent(
    samples1: Seq<TrendSample>,
    samples2: Seq<TrendSample>,
    perm: Seq<int>,
    inv: Seq<int>,
    name: Seq<char>,
    s1: Seq<usize>,
    s2: Seq<usize>,
    window: u32,
)
    requires
        samples1.len() <= usize::MAX,
        samples2.len() == samples1.len(),
        perm.len() == samples1.len(),
        inv.len() == samples1.len(),
        forall|i: int| 0 <= i < samples1.len() ==> 0 <= #[trigger] perm[i] < samples1.len() && inv[perm[i]] == i,
        forall|j: int| 0 <= j < samples1.len() ==> 0 <= #[trigger] inv[j] < samples1.len() && perm[inv[j]] == j,
        forall|i: int| 0 <= i < samples1.len() ==> (#[trigger] samples2[i]).test_name@ == samples1[perm[i]].test_name@
            && samples2[i].timestamp == samples1[perm[i]].timestamp && samples2[i].outcome
            == samples1[perm[i]].outcome,
        forall|i: int, j: int|
            0 <= i < samples1.len() && 0 <= j < samples1.len() && i != j && (#[trigger] samples1[i]).test_name@
                == name && (#[trigger] samples1[j]).test_name@ == name ==> samples1[i].timestamp
                != samples1[j].timestamp,
        newest_first(samples1, name, s1),
        newest_first(samples2, name, s2),
    ensures
        trend_of(samples1, s1, window) == trend_of(samples2, s2, window),
{
    let n = samples1.len();
    let t1 = times_of(samples1, s1);
    let t2 = times_of(samples2, s2);
    assert forall|i: int, j: int| 0 <= i < j < t1.len() implies t1[i] > t1[j] by {
        assert(samples1[s1[i] as int].timestamp >= samples1[s1[j] as int].timestamp);
        assert(s1[i] != s1[j]);
        assert(samples1[s1[i] as int].test_name@ == name);
        assert(samples1[s1[j] as int].test_name@ == name);
    }
    assert forall|i: int, j: int| 0 <= i < j < t2.len() implies t2[i] > t2[j] by {
        assert(samples2[s2[i] as int].timestamp >= samples2[s2[j] as int].timestamp);
        assert(s2[i] != s2[j]);
        let a = s2[i] as int;
        let b = s2[j] as int;
        assert(samples2[a].test_name@ == name);
        assert(samples2[b].test_name@ == name);
        assert(perm[a] != perm[b]) by {
            if perm[a] == perm[b] {
                assert(inv[perm[a]] == a);
                assert(inv[perm[b]] == b);
            }
        }
        assert(samples1[perm[a]].test_name@ == name);
        assert(samples1[perm[b]].test_name@ == name);
    }
    assert forall|x: i128| t1.contains(x) <==> t2.contains(x) by {
        if t1.contains(x) {
            let k = choose|k: int| 0 <= k < t1.len() && t1[k] == x;
            let m = s1[k] as int;
            let i2 = inv[m];
            assert(perm[i2] == m);
            assert(samples2[i2].test_name@ == name);
            let u2: usize = i2 as usize;
            assert(u2 as int == i2);
            assert(s2.contains(u2));
            let q = choose|q: int| 0 <= q < s2.len() && s2[q] == u2;
            assert(t2[q] == x);
        }
        if t2.contains(x) {
            let k = choose|k: int| 0 <= k < t2.len() && t2[k] == x;
            let m = s2[k] as int;
            let i1 = perm[m];
            assert(samples2[m].test_name@ == samples1[i1].test_name@);
            assert(samples1[i1].test_name@ == name);
            let u1: usize = i1 as usize;
            assert(u1 as int == i1);
            assert(s1.contains(u1));
            let q = choose|q: int| 0 <= q < s1.len() && s1[q] == u1;
            assert(samples2[m].timestamp == samples1[i1].timestamp);
            assert(t1[q] == x);
        }
    }
    lemma_decreasing_unique(t1, t2);
    assert(s1.len() == t1.len() && s2.len() == t2.len());
    assert forall|k: int| 0 <= k < s1.len() && k < s2.len() implies #[trigger] samples1[s1[k] as int].outcome
        == samples2[s2[k] as int].outcome by {
        assert(t1[k] == t2[k]);
        let m = s2[k] as int;
        let i1 = perm[m];
        assert(samples2[m].timestamp == samples1[i1].timestamp);
        assert(samples2[m].test_name@ == samples1[i1].test_name@);
        assert(samples1[i1].test_name@ == name);
        assert(samples1[s1[k] as int].test_name@ == name);
        assert(i1 == s1[k] as int);
    }
    let len: int = if s1.len() < window { s1.len() as int } else { window as int };
    lemma_failures_same(samples1, s1, samples2, s2, 0, len / 2);
    lemma_failures_same(samples1, s1, samples2, s2, len / 2, len);
}

/// How many of `hours` equal `h`.
pub open spec fn hour_count(hours: Seq<u32>, h: int) -> nat
    decreases hours.len(),
{
    if hours.len() == 0 {
        0
    } else {
        hour_count(hours.drop_last(), h) + if hours.last() == h {
            1nat
        } else {
            0nat
        }
    }
}

proof fn lemma_hour_count_bound(hours: Seq<u32>, h: int)
    ensures
        hour_count(hours, h) <= hours.len(),
    decreases hours.len(),
{
    if hours.len() > 0 {
        lemma_hour_count_bound(hours.drop_last(), h);
    }
}

/// Failures per hour of the day: entry `h` counts the failing runs that
/// started in hour `h`; hours past 23 are not counted.
pub fn hour_histogram(hours: &Vec<u32>) -> (r: Vec<u32>)
    requires
        hours@.len() <= u32::MAX,
    ensures
        r@.len() == 24,
        forall|h: int| 0 <= h < 24 ==> #[trigger] r@[h] == hour_count(hours@, h),
{
    let mut counts: Vec<u32> = Vec::new();
    let mut k: usize = 0;
    while k < 24
        invariant
            k <= 24,
            counts@.len() == k,
            forall|h: int| 0 <= h < k ==> #[trigger] counts@[h] == 0,
        decreases 24 - k,
    {
        counts.push(0);
        k += 1;
    }
    let mut i: usize = 0;
    while i < hours.len()
        invariant
            i <= hours@.len() <= u32::MAX,
            counts@.len() == 24,
            forall|h: int| 0 <= h < 24 ==> #[trigger] counts@[h] == hour_count(hours@.take(i as int), h),
        decreases hours@.len() - i,
    {
        let ghost before = counts@;
        proof {
            assert(hours@.take(i + 1).drop_last() =~= hours@.take(i as int));
        }
        let h = hours[i];
        if h < 24 {
            let hu = h as usize;
            proof {
                lemma_hour_count_bound(hours@.take(i as int), hu as int);
            }
            let c = counts[hu];
            counts.set(hu, c + 1);
        }
        i += 1;
    }
    assert(hours@.take(hours@.len() as int) =~= hours@);
    counts
}

/// The busiest hour and its count: the highest count, and the last hour
/// that has it.
pub fn peak_hour(counts: &Vec<u32>) -> (r: (usize, u32))
    requires
        counts@.len() > 0,
    ensures
        r.0 < counts@.len(),
        r.1 == counts@[r.0 as int],
        forall|q: int| 0 <= q < counts@.len() ==> #[trigger] counts@[q] <= r.1,
        forall|q: int| r.0 < q < counts@.len() ==> #[trigger] counts@[q] < r.1,
{
    let mut best: usize = 0;
    let mut i: usize = 1;
    while i < counts.len()
        invariant
            1 <= i <= counts@.len(),
            best < i,
            forall|q: int| 0 <= q < i ==> #[trigger] counts@[q] <= counts@[best as int],
            forall|q: int| best < q < i ==> #[trigger] counts@[q] < counts@[best as int],
        decreases counts@.len() - i,
    {
        if counts[i] >= counts[best] {
            best = i;
        }
        i += 1;
    }
    (best, counts[best])
}

} // verus!
