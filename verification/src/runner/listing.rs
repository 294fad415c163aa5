//! Test listings printed by `<binary> --list --format terse`.
use vstd::prelude::*;

use crate::runner::binary::{BinaryKind, TestBinary};
use crate::text::{chars_of, ends_with, has_suffix, lines, slice_of, split_lines, string_of, trim,
    trim_chars};
use crate::types::TestName;
use crate::error::NinetyNineError;

verus! {

/// Whether a listed entry is a test or a benchmark.
#[derive(Debug, Clone, Copy, PartialEq, Eq, Structural)]
pub enum TestKind {
    Test,
    Benchmark,
}

/// One test of one binary.
#[derive(Debug)]
pub struct TestCase {
    pub name: TestName,
    pub binary_path: String,
    pub binary_name: String,
    pub package_name: String,
    pub binary_kind: BinaryKind,
    pub kind: TestKind,
}

impl Clone for TestCase {
    fn clone(&self) -> (r: TestCase)
        ensures
            r == *self,
    {
        TestCase {
            name: self.name.clone(),
            binary_path: self.binary_path.clone(),
            binary_name: self.binary_name.clone(),
            package_name: self.package_name.clone(),
            binary_kind: self.binary_kind,
            kind: self.kind,
        }
    }
}

/// `: test`
pub open spec fn test_suffix() -> Seq<char> {
    seq![':', ' ', 't', 'e', 's', 't']
}

/// `: benchmark`
pub open spec fn bench_suffix() -> Seq<char> {
    seq![':', ' ', 'b', 'e', 'n', 'c', 'h', 'm', 'a', 'r', 'k']
}

/// The entry a listing line names: `<name>: test` or `<name>: benchmark`
/// with a non-empty name.
pub open spec fn listing_entry(l: Seq<char>) -> Option<(Seq<char>, TestKind)> {
    if ends_with(l, test_suffix()) && l.len() > test_suffix().len() {
        Some((l.take(l.len() - test_suffix().len()), TestKind::Test))
    } else if ends_with(l, bench_suffix()) && l.len() > bench_suffix().len() {
        Some((l.take(l.len() - bench_suffix().len()), TestKind::Benchmark))
    } else {
        None
    }
}

/// The entries named by a sequence of listing lines, in order; each line
/// is trimmed first.
pub open spec fn listing_entries(ls: Seq<Seq<char>>) -> Seq<(Seq<char>, TestKind)>
    decreases ls.len(),
{
    if ls.len() == 0 {
        seq![]
    } else {
        listing_entries(ls.drop_last()) + match listing_entry(trim(ls.last())) {
            Some(e) => seq![e],
            None => seq![],
        }
    }
}

/// Parses one trimmed listing line.
pub fn parse_listing_line(line: &str) -> (r: Option<(String, TestKind)>)
    ensures
        r matches Some((n, k)) ==> listing_entry(line@) == Some((n@, k)),
        r is None <==> listing_entry(line@) is None,
{
    let l = chars_of(line);
    let ts = chars_of(": test");
    let bs = chars_of(": benchmark");
    proof {
        reveal_strlit(": test");
        reveal_strlit(": benchmark");
        assert(ts@ =~= test_suffix());
        assert(bs@ =~= bench_suffix());
    }
    if has_suffix(&l, &ts) && l.len() > ts.len() {
        let name = slice_of(&l, 0, l.len() - ts.len());
        assert(name@ =~= l@.take(l@.len() - test_suffix().len()));
        return Some((string_of(&name), TestKind::Test));
    }
    if has_suffix(&l, &bs) && l.len() > bs.len() {
        let name = slice_of(&l, 0, l.len() - bs.len());
        assert(name@ =~= l@.take(l@.len() - bench_suffix().len()));
        return Some((string_of(&name), TestKind::Benchmark));
    }
    None
}

/// Parses the listing a binary printed into its test cases, one per
/// `<name>: test` or `<name>: benchmark` line, in order; every case
/// carries the binary's path, names and kind.
pub fn parse_test_listing(output: &str, binary: &TestBinary) -> (r: Vec<TestCase>)
    ensures
        r@.len() == listing_entries(lines(output@)).len(),
        forall|i: int|
            0 <= i < r@.len() ==> {
                &&& (#[trigger] r@[i]).name@ == listing_entries(lines(output@))[i].0
                &&& r@[i].kind == listing_entries(lines(output@))[i].1
                &&& r@[i].binary_path@ == binary.path@
                &&& r@[i].binary_name@ == binary.binary_name@
                &&& r@[i].package_name@ == binary.package_name@
                &&& r@[i].binary_kind == binary.kind
            },
{
    let s = chars_of(output);
    let ls = split_lines(&s);
    let ghost lv = ls@.map_values(|l: Vec<char>| l@);
    let mut cases: Vec<TestCase> = Vec::new();
    let mut i: usize = 0;
    while i < ls.len()
        invariant
            i <= ls.len(),
            lv == ls@.map_values(|l: Vec<char>| l@),
            lv == lines(output@),
            cases@.len() == listing_entries(lv.take(i as int)).len(),
            forall|j: int|
                0 <= j < cases@.len() ==> {
                    &&& (#[trigger] cases@[j]).name@ == listing_entries(lv.take(i as int))[j].0
                    &&& cases@[j].kind == listing_entries(lv.take(i as int))[j].1
                    &&& cases@[j].binary_path@ == binary.path@
                    &&& cases@[j].binary_name@ == binary.binary_name@
                    &&& cases@[j].package_name@ == binary.package_name@
                    &&& cases@[j].binary_kind == binary.kind
                },
        decreases ls.len() - i,
    {
        let trimmed = trim_chars(&ls[i]);
        let line = string_of(&trimmed);
        let parsed = parse_listing_line(line.as_str());
        proof {
            assert(lv.take(i + 1).drop_last() =~= lv.take(i as int));
            assert(lv.take(i + 1).last() == ls@[i as int]@);
        }
        match parsed {
            Some((name, kind)) => {
                cases.push(
                    TestCase {
                        name: TestName(name),
                        binary_path: binary.path.clone(),
                        binary_name: binary.binary_name.clone(),
                        package_name: binary.package_name.clone(),
                        binary_kind: binary.kind,
                        kind,
                    },
                );
            },
            None => {},
        }
        i += 1;
    }
    assert(lv.take(ls.len() as int) =~= lv);
    cases
}

/// The tests of all binaries, in order: a binary whose listing failed is
/// skipped; any other error stops the merge.
pub open spec fn merged_listing(rs: Seq<Result<Vec<TestCase>, NinetyNineError>>) -> Result<
    Seq<TestCase>,
    NinetyNineError,
>
    decreases rs.len(),
{
    if rs.len() == 0 {
        Ok(seq![])
    } else {
        match merged_listing(rs.drop_last()) {
            Err(e) => Err(e),
            Ok(acc) => match rs.last() {
                Ok(cases) => Ok(acc + cases@),
                Err(NinetyNineError::TestListing { .. }) => Ok(acc),
                Err(e) => Err(e),
            },
        }
    }
}

proof fn lemma_merge_error_stays(rs: Seq<Result<Vec<TestCase>, NinetyNineError>>, k: int)
    requires
        0 < k <= rs.len(),
        merged_listing(rs.take(k)) is Err,
    ensures
        merged_listing(rs) == merged_listing(rs.take(k)),
    decreases rs.len() - k,
{
    if k < rs.len() {
        assert(rs.take(k + 1).drop_last() =~= rs.take(k));
        lemma_merge_error_stays(rs, k + 1);
    } else {
        assert(rs.take(k) =~= rs);
    }
}

/// Merges the listings of several binaries.
pub fn merge_listings(listings: Vec<Result<Vec<TestCase>, NinetyNineError>>) -> (r: Result<
    Vec<TestCase>,
    NinetyNineError,
>)
    ensures
        match merged_listing(listings@) {
            Ok(s) => r matches Ok(v) && v@ == s,
            Err(e) => r matches Err(f) && f == e,
        },
{
    let ghost all = listings@;
    let mut results = listings;
    let mut out: Vec<TestCase> = Vec::new();
    let mut i: usize = 0;
    while i < results.len()
        invariant
            results@ == all,
            all == listings@,
            i <= all.len(),
            merged_listing(all.take(i as int)) == Ok::<Seq<TestCase>, NinetyNineError>(out@),
        decreases all.len() - i,
    {
        proof {
            assert(all.take(i + 1).drop_last() =~= all.take(i as int));
            assert(all.take(i + 1).last() == all[i as int]);
        }
        let stop = match &results[i] {
            Ok(cases) => {
                let mut j: usize = 0;
                let ghost start = out@;
                while j < cases.len()
                    invariant
                        j <= cases@.len(),
                        out@ == start + cases@.take(j as int),
                    decreases cases@.len() - j,
                {
                    out.push(cases[j].clone());
                    assert(cases@.take(j + 1) =~= cases@.take(j as int).push(cases@[j as int]));
                    j += 1;
                }
                assert(cases@.take(cases@.len() as int) =~= cases@);
                false
            },
            Err(NinetyNineError::TestListing { .. }) => false,
            Err(_) => true,
        };
        if stop {
            let failed = results.remove(i);
            proof {
                assert(failed == all[i as int]);
                assert(merged_listing(all.take(i + 1)) == match failed {
                    Err(e) => Err::<Seq<TestCase>, NinetyNineError>(e),
                    Ok(_) => Err::<Seq<TestCase>, NinetyNineError>(NinetyNineError::NoRunnerAvailable),
                });
                lemma_merge_error_stays(all, i as int + 1);
                assert(merged_listing(all) == merged_listing(all.take(i + 1)));
            }
            return failed;
        }
        i += 1;
    }
    assert(all.take(all.len() as int) =~= all);
    Ok(out)
}

} // verus!
