//! How run data is written to and read back from the database columns.
use vstd::prelude::*;
use crate::types::{TestOutcome, outcome_from_text};

verus! {

/// The milliseconds column written for a duration of `millis` whole
/// milliseconds: saturates at `i64::MAX`.
pub open spec fn stored_ms(millis: int) -> int {
    if millis > i64::MAX {
        i64::MAX as int
    } else {
        millis
    }
}

/// The milliseconds of duration read from a column: a negative column
/// reads as zero.
pub open spec fn read_ms(ms: int) -> int {
    if ms < 0 {
        0
    } else {
        ms
    }
}

/// The milliseconds column of a duration of `millis` whole milliseconds.
pub fn duration_to_ms(millis: u128) -> (r: i64)
    ensures
        r == stored_ms(millis as int),
{
    if millis > i64::MAX as u128 {
        i64::MAX
    } else {
        millis as i64
    }
}

/// The duration, in milliseconds, that a milliseconds column holds.
pub fn ms_to_duration(ms: i64) -> (r: u64)
    ensures
        r == read_ms(ms as int),
{
    if ms < 0 {
        0
    } else {
        ms as u64
    }
}

/// Reading back a stored duration gives the milliseconds that were
/// stored, whenever they were not negative.
pub proof fn law_duration_roundtrip(ms: i64)
    requires
        ms >= 0,
    ensures
        stored_ms(read_ms(ms as int)) == ms,
{
}

/// Writing a duration and reading it back gives it again, when it fits
/// the column.
pub proof fn law_column_roundtrip(millis: u128)
    requires
        millis <= i64::MAX,
    ensures
        read_ms(stored_ms(millis as int)) == millis,
{
}

/// The outcome a stored outcome column names; an unknown text reads as a
/// failure, so that a corrupt row never hides one.
pub open spec fn stored_outcome_of(s: Seq<char>) -> TestOutcome {
    match outcome_from_text(s) {
        Some(o) => o,
        None => TestOutcome::Failed,
    }
}

/// Reads an outcome column.
pub fn stored_outcome(s: &str) -> (r: TestOutcome)
    ensures
        r == stored_outcome_of(s@),
{
    match TestOutcome::parse(s) {
        Ok(o) => o,
        Err(_) => TestOutcome::Failed,
    }
}

/// The schema versions still to apply, in order, to a database at
/// `current`, when the code knows `total` migrations (version `k` is the
/// `k`-th): every version above `current` up to `total`.
pub open spec fn pending_versions(current: int, total: int) -> Seq<int> {
    let first = if current < 0 { 1 } else { current + 1 };
    if first > total {
        seq![]
    } else {
        Seq::new((total - first + 1) as nat, |k: int| first + k)
    }
}

/// The schema version a database is at after its pending migrations ran.
pub open spec fn version_after(current: int, total: int) -> int {
    if current < total {
        total
    } else {
        current
    }
}

/// The versions of a list, as integers.
pub open spec fn versions(s: Seq<i64>) -> Seq<int> {
    s.map_values(|v: i64| v as int)
}

/// The migrations to run on a database whose schema is at version
/// `current`, by version number, oldest first.
pub fn pending_migrations(current: i64, total: u32) -> (r: Vec<i64>)
    ensures
        versions(r@) == pending_versions(current as int, total as int),
{
    let mut out: Vec<i64> = Vec::new();
    let mut k: u32 = 0;
    while k < total
        invariant
            k <= total,
            forall|i: int| 0 <= i < out@.len() ==> (#[trigger] out@[i]) > current && 1 <= out@[i] <= k,
            forall|i: int, j: int| 0 <= i < j < out@.len() ==> #[trigger] out@[i] < #[trigger] out@[j],
            forall|v: int| current < v <= k && v >= 1 ==> #[trigger] versions(out@).contains(v),
        decreases total - k,
    {
        let version: i64 = k as i64 + 1;
        let ghost before = out@;
        if version > current {
            out.push(version);
            proof {
                assert(versions(out@) =~= versions(before).push(version as int));
                assert forall|v: int| current < v <= k + 1 && v >= 1 implies #[trigger] versions(out@).contains(v) by {
                    if v <= k {
                        assert(versions(before).contains(v));
                        let a = choose|a: int| 0 <= a < versions(before).len() && versions(before)[a] == v;
                        assert(versions(out@)[a] == v);
                    } else {
                        assert(versions(out@)[before.len() as int] == v);
                    }
                }
            }
        }
        k += 1;
    }
    proof {
        let p = pending_versions(current as int, total as int);
        let m = versions(out@);
        assert forall|i: int| 0 <= i < m.len() implies m[i] == (if current < 0 { 1 } else { current + 1 }) + i by {
            lemma_consecutive(m, current as int, total as int, i);
        }
        let first = if current < 0 { 1 } else { current + 1 };
        if m.len() > 0 {
            let last = m[m.len() - 1];
            if last < total {
                assert(m.contains(last + 1));
                let a = choose|a: int| 0 <= a < m.len() && m[a] == last + 1;
            }
            assert(m.len() == p.len());
        } else {
            if first <= total {
                assert(m.contains(first));
            }
        }
        assert(m =~= p);
    }
    out
}

proof fn lemma_consecutive(s: Seq<int>, current: int, total: int, i: int)
    requires
        0 <= i < s.len(),
        forall|a: int| 0 <= a < s.len() ==> (#[trigger] s[a]) > current && 1 <= s[a] <= total,
        forall|a: int, b: int| 0 <= a < b < s.len() ==> #[trigger] s[a] < #[trigger] s[b],
        forall|v: int| current < v <= total && v >= 1 ==> #[trigger] s.contains(v),
    ensures
        s[i] == (if current < 0 { 1 } else { current + 1 }) + i,
    decreases i,
{
    let first = if current < 0 { 1 } else { current + 1 };
    if i == 0 {
        if s[0] > first {
            assert(s.contains(first));
            let a = choose|a: int| 0 <= a < s.len() && s[a] == first;
            if a > 0 {
                assert(s[0] < s[a]);
            }
        }
    } else {
        lemma_consecutive(s, current, total, i - 1);
        assert(s[i - 1] < s[i]);
        if s[i] > s[i - 1] + 1 {
            let v = s[i - 1] + 1;
            assert(s.contains(v));
            let a = choose|a: int| 0 <= a < s.len() && s[a] == v;
            if a < i - 1 {
                assert(s[a] < s[i - 1]);
            } else if a > i {
                assert(s[i] < s[a]);
            }
        }
    }
}

/// Running the pending migrations brings the schema up to date, after
/// which nothing is pending: migrating twice changes nothing.
pub proof fn law_migration_idempotent(current: int, total: int)
    requires
        total >= 0,
    ensures
        pending_versions(version_after(current, total), total).len() == 0,
        pending_versions(current, total).len() > 0 ==> pending_versions(current, total).last() == version_after(current, total),
{
}

} // verus!
