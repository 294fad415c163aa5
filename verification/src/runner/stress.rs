//! Full-binary stress runs: the command, reading failed test names out of
//! libtest's output, and folding one run into per-test counts.
use vstd::prelude::*;

use crate::runner::listing::TestCase;
use crate::runner::process::{arg_texts, CommandSpec};
use crate::text::{chars_of, contains, contains_text, decimal, decimal_of, ends_with, extend_str, find_from, find_in, find_text, has_prefix, has_suffix, insert_sorted, lemma_find_from_bounds, lines, occurs_at, slice_of, split_lines, starts_with, string_of, strictly_sorted, texts, trim, trim_chars};
use crate::types::{id_view, PhaseCounts, PhaseCountsMap, TestId, IdKey};

verus! {

/// What one stress run of a binary reported.
#[derive(Debug, Clone, Default)]
pub struct StressIteration {
    /// Names of the tests that failed, sorted and each once.
    pub failure_names: Vec<String>,
    pub timed_out: bool,
    pub inconclusive: bool,
}

/// `--test-threads`
pub open spec fn test_threads_flag() -> Seq<char> {
    seq!['-', '-', 't', 'e', 's', 't', '-', 't', 'h', 'r', 'e', 'a', 'd', 's']
}

/// Builds the command for a full-binary multi-threaded stress run: the
/// binary with `--test-threads <threads>` and no `--exact`.
pub fn stress_command(binary: &str, threads: usize) -> (r: CommandSpec)
    ensures
        r.program@ == binary@,
        arg_texts(r.args@) == seq![test_threads_flag(), decimal(threads as nat)],
        r.cwd is None,
{
    let digits = decimal_of(threads as u64);
    proof {
        reveal_strlit("--test-threads");
    }
    let flag = "--test-threads".to_owned();
    assert(flag@ =~= test_threads_flag());
    let args = vec![flag, string_of(&digits)];
    assert(args@[0]@ == test_threads_flag());
    assert(args@[1]@ == decimal(threads as nat));
    assert(arg_texts(args@) =~= seq![test_threads_flag(), decimal(threads as nat)]);
    CommandSpec { program: binary.to_owned(), args, cwd: None }
}

/// `\nfailures:\n`, the header of libtest's trailing failure list.
pub open spec fn failures_marker() -> Seq<char> {
    seq!['\n', 'f', 'a', 'i', 'l', 'u', 'r', 'e', 's', ':', '\n']
}

/// `\ntest result:`
pub open spec fn result_marker() -> Seq<char> {
    seq!['\n', 't', 'e', 's', 't', ' ', 'r', 'e', 's', 'u', 'l', 't', ':']
}

/// A blank line.
pub open spec fn blank_marker() -> Seq<char> {
    seq!['\n', '\n']
}

/// `failures:`
pub open spec fn failures_word() -> Seq<char> {
    seq!['f', 'a', 'i', 'l', 'u', 'r', 'e', 's', ':']
}

/// `test `
pub open spec fn test_word() -> Seq<char> {
    seq!['t', 'e', 's', 't', ' ']
}

/// ` ... FAILED`
pub open spec fn failed_tail() -> Seq<char> {
    seq![' ', '.', '.', '.', ' ', 'F', 'A', 'I', 'L', 'E', 'D']
}

/// `... FAILED`
pub open spec fn failed_end() -> Seq<char> {
    seq!['.', '.', '.', ' ', 'F', 'A', 'I', 'L', 'E', 'D']
}

/// ` ... `
pub open spec fn dots_sep() -> Seq<char> {
    seq![' ', '.', '.', '.', ' ']
}

/// The last occurrence of `pat` at or after `start`.
pub open spec fn last_from(s: Seq<char>, pat: Seq<char>, start: int) -> Option<int>
    decreases s.len() + 1 - start,
{
    if start < 0 || start > s.len() {
        None
    } else {
        match find_from(s, pat, start) {
            None => None,
            Some(i) => {
                if start <= i && i < s.len() {
                    match last_from(s, pat, i + 1) {
                        None => Some(i),
                        Some(j) => Some(j),
                    }
                } else {
                    None
                }
            },
        }
    }
}

/// The text after a failure-list header, up to the result line, else up
/// to a blank line, else to the end.
pub open spec fn section_after(after: Seq<char>) -> Seq<char> {
    match find_text(after, result_marker()) {
        Some(e) => after.take(e),
        None => match find_text(after, blank_marker()) {
            Some(e) => after.take(e),
            None => after,
        },
    }
}

/// The trailing `failures:` list of libtest output, if there is one.
pub open spec fn failures_section(s: Seq<char>) -> Option<Seq<char>> {
    match last_from(s, failures_marker(), 0) {
        None => None,
        Some(k) => Some(section_after(s.skip(k + failures_marker().len()))),
    }
}

/// A line of the failure list names a test when, trimmed, it is not
/// empty and is not itself a `failures:` header.
pub open spec fn section_line_ok(l: Seq<char>) -> bool {
    trim(l).len() > 0 && !starts_with(trim(l), failures_word())
}

/// Names in the first `k` lines of a failure list.
pub open spec fn section_names_upto(ls: Seq<Seq<char>>, k: int) -> Set<Seq<char>> {
    Set::new(
        |n: Seq<char>|
            exists|i: int| 0 <= i < k && section_line_ok(#[trigger] ls[i]) && trim(ls[i]) == n,
    )
}

/// Names in a failure list.
pub open spec fn section_names(list: Seq<char>) -> Set<Seq<char>> {
    section_names_upto(lines(list), lines(list).len() as int)
}

/// The text before the first ` ... `, or all of it.
pub open spec fn before_dots(rest: Seq<char>) -> Seq<char> {
    match find_text(rest, dots_sep()) {
        Some(i) => rest.take(i),
        None => rest,
    }
}

/// The test a `test <name> ... FAILED` line names.
pub open spec fn failed_line_name(line: Seq<char>) -> Option<Seq<char>> {
    let l = trim(line);
    if starts_with(l, test_word()) {
        let rest = l.skip(5);
        if contains_text(rest, failed_tail()) || ends_with(rest, failed_end()) {
            let n = trim(before_dots(rest));
            if n.len() > 0 {
                Some(n)
            } else {
                None
            }
        } else {
            None
        }
    } else {
        None
    }
}

/// Names on the first `k` `... FAILED` lines.
pub open spec fn failed_line_names_upto(ls: Seq<Seq<char>>, k: int) -> Set<Seq<char>> {
    Set::new(
        |n: Seq<char>| exists|i: int| 0 <= i < k && failed_line_name(#[trigger] ls[i]) == Some(n),
    )
}

/// Names on all `test <name> ... FAILED` lines.
pub open spec fn failed_line_names(s: Seq<char>) -> Set<Seq<char>> {
    failed_line_names_upto(lines(s), lines(s).len() as int)
}

/// The failed test names of libtest output: those of the trailing
/// `failures:` list when it names any, else those of the
/// `test <name> ... FAILED` lines.
pub open spec fn libtest_failures(s: Seq<char>) -> Set<Seq<char>> {
    match failures_section(s) {
        Some(list) => {
            if section_names(list).is_empty() {
                failed_line_names(s)
            } else {
                section_names(list)
            }
        },
        None => failed_line_names(s),
    }
}

/// Parses libtest failure names from suite output.
///
/// Prefers the trailing `failures:` list section; falls back to lines of
/// the form `test <name> ... FAILED`. The names come back sorted, each once.
pub fn parse_libtest_failure_names(stdout: &str) -> (r: Vec<String>)
    ensures
        strictly_sorted(r@),
        texts(r@) == libtest_failures(stdout@),
{
    let s = chars_of(stdout);
    let mut names: Vec<String> = Vec::new();
    proof {
        assert(texts(names@) =~= Set::<Seq<char>>::empty());
    }
    let section = extract_failures_list_section(&s);
    let found_section = match section {
        Some(_) => true,
        None => false,
    };
    if let Some(list) = section {
        let ls = split_lines(&list);
        let ghost lv = ls@.map_values(|l: Vec<char>| l@);
        let fw = chars_of("failures:");
        proof {
            reveal_strlit("failures:");
            assert(fw@ =~= failures_word());
            assert(section_names_upto(lv, 0) =~= Set::<Seq<char>>::empty());
        }
        let mut i: usize = 0;
        while i < ls.len()
            invariant
                i <= ls.len(),
                lv == ls@.map_values(|l: Vec<char>| l@),
                lv == lines(list@),
                fw@ == failures_word(),
                strictly_sorted(names@),
                texts(names@) == section_names_upto(lv, i as int),
            decreases ls.len() - i,
        {
            let name = trim_chars(&ls[i]);
            assert(lv[i as int] == ls@[i as int]@);
            if name.len() > 0 && !has_prefix(&name, &fw) {
                insert_sorted(&mut names, string_of(&name));
                proof {
                    assert(section_names_upto(lv, i + 1) =~= section_names_upto(lv, i as int).insert(
                        name@,
                    ));
                }
            } else {
                proof {
                    assert(section_names_upto(lv, i + 1) =~= section_names_upto(lv, i as int));
                }
            }
            i += 1;
        }
        if names.len() > 0 {
            proof {
                assert(names@[0]@ == names@[0]@);
                assert(texts(names@).contains(names@[0]@));
            }
            return names;
        }
        proof {
            assert(texts(names@) =~= Set::<Seq<char>>::empty());
        }
    }
    let ls = split_lines(&s);
    let ghost lv = ls@.map_values(|l: Vec<char>| l@);
    let tw = chars_of("test ");
    let ft = chars_of(" ... FAILED");
    let fe = chars_of("... FAILED");
    let ds = chars_of(" ... ");
    proof {
        reveal_strlit("test ");
        reveal_strlit(" ... FAILED");
        reveal_strlit("... FAILED");
        reveal_strlit(" ... ");
        assert(tw@ =~= test_word());
        assert(ft@ =~= failed_tail());
        assert(fe@ =~= failed_end());
        assert(ds@ =~= dots_sep());
        assert(failed_line_names_upto(lv, 0) =~= Set::<Seq<char>>::empty());
    }
    let mut i: usize = 0;
    while i < ls.len()
        invariant
            i <= ls.len(),
            lv == ls@.map_values(|l: Vec<char>| l@),
            lv == lines(s@),
            s@ == stdout@,
            tw@ == test_word(),
            ft@ == failed_tail(),
            fe@ == failed_end(),
            ds@ == dots_sep(),
            strictly_sorted(names@),
            texts(names@) == failed_line_names_upto(lv, i as int),
        decreases ls.len() - i,
    {
        assert(lv[i as int] == ls@[i as int]@);
        let found = failed_name_of(&ls[i], &tw, &ft, &fe, &ds);
        match found {
            Some(name) => {
                let ghost nv = name@;
                insert_sorted(&mut names, name);
                proof {
                    assert(failed_line_names_upto(lv, i + 1) =~= failed_line_names_upto(
                        lv,
                        i as int,
                    ).insert(nv));
                }
            },
            None => {
                proof {
                    assert(failed_line_names_upto(lv, i + 1) =~= failed_line_names_upto(
                        lv,
                        i as int,
                    ));
                }
            },
        }
        i += 1;
    }
    proof {
        if found_section {
            let list = failures_section(s@)->0;
            assert(section_names(list).is_empty()) by {
                assert(section_names(list) =~= Set::<Seq<char>>::empty());
            }
        }
    }
    names
}

fn failed_name_of(
    line: &Vec<char>,
    tw: &Vec<char>,
    ft: &Vec<char>,
    fe: &Vec<char>,
    ds: &Vec<char>,
) -> (r: Option<String>)
    requires
        tw@ == test_word(),
        ft@ == failed_tail(),
        fe@ == failed_end(),
        ds@ == dots_sep(),
    ensures
        r matches Some(n) ==> failed_line_name(line@) == Some(n@),
        r is None ==> failed_line_name(line@) is None,
{
    let l = trim_chars(line);
    if !has_prefix(&l, tw) {
        return None;
    }
    let rest = slice_of(&l, 5, l.len());
    assert(rest@ =~= l@.skip(5));
    if !(contains(&rest, ft) || has_suffix(&rest, fe)) {
        return None;
    }
    proof {
        lemma_find_from_bounds(rest@, dots_sep(), 0);
    }
    let piece = match find_in(&rest, ds, 0) {
        Some(i) => slice_of(&rest, 0, i),
        None => rest.clone(),
    };
    proof {
        match find_text(rest@, dots_sep()) {
            Some(i) => {
                assert(piece@ =~= rest@.take(i));
            },
            None => {},
        }
    }
    let name = trim_chars(&piece);
    if name.len() > 0 {
        Some(string_of(&name))
    } else {
        None
    }
}

/// The trailing `failures:` list of libtest output, if there is one.
fn extract_failures_list_section(s: &Vec<char>) -> (r: Option<Vec<char>>)
    ensures
        r matches Some(v) ==> failures_section(s@) == Some(v@),
        r is None ==> failures_section(s@) is None,
{
    let marker = chars_of("\nfailures:\n");
    let rm = chars_of("\ntest result:");
    let bm = chars_of("\n\n");
    proof {
        reveal_strlit("\nfailures:\n");
        reveal_strlit("\ntest result:");
        reveal_strlit("\n\n");
        assert(marker@ =~= failures_marker());
        assert(rm@ =~= result_marker());
        assert(bm@ =~= blank_marker());
    }
    let mut start: usize = 0;
    let mut last: Option<usize> = None;
    let mut done = false;
    while !done
        invariant
            marker@ == failures_marker(),
            start <= s.len(),
            done ==> last_from(s@, failures_marker(), start as int) is None,
            last_from(s@, failures_marker(), 0) == (match last_from(
                s@,
                failures_marker(),
                start as int,
            ) {
                Some(j) => Some(j),
                None => match last {
                    Some(k) => Some(k as int),
                    None => None,
                },
            }),
            last matches Some(k) ==> k < s.len(),
        decreases s.len() - start + (if done { 0int } else { 1int }),
    {
        proof {
            lemma_find_from_bounds(s@, failures_marker(), start as int);
        }
        match find_in(s, &marker, start) {
            Some(idx) => {
                proof {
                    assert(idx < s.len());
                }
                last = Some(idx);
                start = idx + 1;
            },
            None => {
                proof {
                    assert(last_from(s@, failures_marker(), start as int) is None);
                }
                done = true;
            },
        }
    }
    match last {
        None => None,
        Some(k) => {
            if marker.len() > s.len() - k {
                // an occurrence always fits inside the text
                proof {
                    lemma_last_from_fits(s@, failures_marker(), 0);
                }
                return None;
            }
            let after = slice_of(s, k + marker.len(), s.len());
            assert(k + failures_marker().len() <= s@.len());
            assert(after@ =~= s@.skip(k + failures_marker().len()));
            proof {
                lemma_find_from_bounds(after@, result_marker(), 0);
                lemma_find_from_bounds(after@, blank_marker(), 0);
            }
            match find_in(&after, &rm, 0) {
                Some(e) => {
                    let v = slice_of(&after, 0, e);
                    assert(v@ =~= after@.take(e as int));
                    Some(v)
                },
                None => match find_in(&after, &bm, 0) {
                    Some(e) => {
                        let v = slice_of(&after, 0, e);
                        assert(v@ =~= after@.take(e as int));
                        Some(v)
                    },
                    None => Some(after),
                },
            }
        },
    }
}

proof fn lemma_last_from_fits(s: Seq<char>, pat: Seq<char>, start: int)
    requires
        0 <= start,
    ensures
        last_from(s, pat, start) matches Some(k) ==> occurs_at(s, pat, k),
    decreases s.len() + 1 - start,
{
    if start <= s.len() {
        lemma_find_from_bounds(s, pat, start);
        match find_from(s, pat, start) {
            None => {},
            Some(i) => {
                if start <= i && i < s.len() {
                    lemma_last_from_fits(s, pat, i + 1);
                }
            },
        }
    }
}

/// The counts of `tc` after one stress run: one more run, and one more
/// failure when the run was conclusive and named the test as failed.
pub open spec fn bump(
    m: Map<IdKey, PhaseCounts>,
    tc: TestCase,
    iter: StressIteration,
) -> Map<IdKey, PhaseCounts> {
    let k = (tc.package_name@, tc.binary_name@, tc.name@);
    let c = if m.contains_key(k) {
        m[k]
    } else {
        PhaseCounts { stress_runs: 0, stress_failures: 0, isolation_runs: 0, isolation_failures: 0 }
    };
    let failed = !iter.inconclusive && texts(iter.failure_names@).contains(tc.name@);
    m.insert(
        k,
        PhaseCounts {
            stress_runs: c.stress_runs.saturating_add(1),
            stress_failures: if failed {
                c.stress_failures.saturating_add(1)
            } else {
                c.stress_failures
            },
            ..c
        },
    )
}

/// The counts after one stress run, applied to each selected test in turn.
pub open spec fn bump_all(
    m: Map<IdKey, PhaseCounts>,
    cases: Seq<TestCase>,
    iter: StressIteration,
) -> Map<IdKey, PhaseCounts>
    decreases cases.len(),
{
    if cases.len() == 0 {
        m
    } else {
        bump(bump_all(m, cases.drop_last(), iter), cases.last(), iter)
    }
}

/// Whether `name` is among the failure names.
fn named_failure(names: &Vec<String>, name: &str) -> (r: bool)
    ensures
        r == texts(names@).contains(name@),
{
    let mut i: usize = 0;
    while i < names.len()
        invariant
            i <= names.len(),
            forall|j: int| 0 <= j < i ==> names@[j]@ != name@,
        decreases names.len() - i,
    {
        if crate::types::str_equal(names[i].as_str(), name) {
            assert(names@[i as int]@ == name@);
            return true;
        }
        i += 1;
    }
    false
}

/// Applies one stress iteration to the selected tests of a binary.
///
/// Every selected test gets one more stress run; it gets one more stress
/// failure only when the iteration was conclusive and its short name is
/// among the failure names. Counts saturate.
pub fn apply_stress_iteration(
    selected_on_binary: &Vec<TestCase>,
    iter: &StressIteration,
    acc: &mut PhaseCountsMap,
)
    ensures
        final(acc)@ == bump_all(old(acc)@, selected_on_binary@, *iter),
{
    let mut i: usize = 0;
    assert(selected_on_binary@.take(0) =~= Seq::<TestCase>::empty());
    while i < selected_on_binary.len()
        invariant
            i <= selected_on_binary.len(),
            acc@ == bump_all(old(acc)@, selected_on_binary@.take(i as int), *iter),
        decreases selected_on_binary.len() - i,
    {
        let tc = &selected_on_binary[i];
        let id = TestId::new(tc.package_name.as_str(), tc.binary_name.as_str(), tc.name.as_str());
        let c = match acc.get(&id) {
            Some(c) => *c,
            None => PhaseCounts {
                stress_runs: 0,
                stress_failures: 0,
                isolation_runs: 0,
                isolation_failures: 0,
            },
        };
        let failed = !iter.inconclusive && named_failure(&iter.failure_names, tc.name.as_str());
        let updated = PhaseCounts {
            stress_runs: c.stress_runs.saturating_add(1),
            stress_failures: if failed {
                c.stress_failures.saturating_add(1)
            } else {
                c.stress_failures
            },
            ..c
        };
        acc.insert(id, updated);
        proof {
            let t = selected_on_binary@.take(i + 1);
            assert(t.drop_last() =~= selected_on_binary@.take(i as int));
            assert(t.last() == selected_on_binary@[i as int]);
        }
        i += 1;
    }
    assert(selected_on_binary@.take(selected_on_binary.len() as int) =~= selected_on_binary@);
}

/// What one stress run reported, given how the process ended and what it
/// printed: a timeout is inconclusive with no names; otherwise the names
/// are those of stdout followed by stderr, and a failed exit that names no
/// test is inconclusive.
pub fn stress_iteration_from_outcome(
    timed_out: bool,
    success: bool,
    stdout: &str,
    stderr: &str,
) -> (r: StressIteration)
    ensures
        r.timed_out == timed_out,
        timed_out ==> r.failure_names@.len() == 0 && r.inconclusive,
        !timed_out ==> texts(r.failure_names@) == libtest_failures(stdout@ + stderr@)
            && strictly_sorted(r.failure_names@) && r.inconclusive == (!success
            && r.failure_names@.len() == 0),
{
    if timed_out {
        return StressIteration { failure_names: Vec::new(), timed_out: true, inconclusive: true };
    }
    let mut combined = chars_of(stdout);
    extend_str(&mut combined, stderr);
    let text = string_of(&combined);
    let failure_names = parse_libtest_failure_names(text.as_str());
    let inconclusive = !success && failure_names.len() == 0;
    StressIteration { failure_names, timed_out: false, inconclusive }
}

} // verus!
