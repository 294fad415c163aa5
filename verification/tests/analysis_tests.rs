use ninety_nine::analysis::{
    count_consecutive_trailing_failures, count_outcomes, trend_window, TrendCounts, TrendSample,
};
use ninety_nine::storage::{duration_to_ms, ms_to_duration, stored_outcome};
use ninety_nine::types::TestOutcome;

fn runs_by_outcome(passes: u32, failures: u32) -> Vec<TestOutcome> {
    let mut v = Vec::new();
    for _ in 0..passes {
        v.push(TestOutcome::Passed);
    }
    for _ in 0..failures {
        v.push(TestOutcome::Failed);
    }
    v
}

#[test]
fn consecutive_failures_tracked() {
    let runs = runs_by_outcome(5, 3);
    assert_eq!(count_consecutive_trailing_failures(&runs), 3);
}

#[test]
fn trailing_failures_skip_ignored_and_stop_at_pass() {
    let runs = vec![
        TestOutcome::Failed,
        TestOutcome::Passed,
        TestOutcome::Panic,
        TestOutcome::Ignored,
        TestOutcome::Timeout,
    ];
    assert_eq!(count_consecutive_trailing_failures(&runs), 2);
    assert_eq!(count_consecutive_trailing_failures(&Vec::new()), 0);
}

#[test]
fn outcome_counts_split_passes_and_failures() {
    let runs = vec![TestOutcome::Passed, TestOutcome::Ignored, TestOutcome::Timeout, TestOutcome::Panic];
    assert_eq!(count_outcomes(&runs), (1, 2));
}

fn chronological(name: &str, outcomes: &[TestOutcome]) -> Vec<TrendSample> {
    outcomes
        .iter()
        .enumerate()
        .map(|(i, o)| TrendSample {
            test_name: name.to_string(),
            timestamp: (i as i128) * 3_600_000_000_000,
            outcome: *o,
        })
        .collect()
}

#[test]
fn too_few_runs_returns_none() {
    let runs = chronological("test::a", &[TestOutcome::Passed, TestOutcome::Passed]);
    assert!(trend_window(&runs, "test::a", 100).is_none());
}

#[test]
fn trend_halves_are_newest_first_whatever_the_input_order() {
    let outcomes = [
        TestOutcome::Passed,
        TestOutcome::Passed,
        TestOutcome::Passed,
        TestOutcome::Failed,
        TestOutcome::Failed,
        TestOutcome::Failed,
    ];
    let mut runs = chronological("test::order", &outcomes);
    let expected = Some(TrendCounts {
        recent_runs: 3,
        recent_failures: 3,
        previous_runs: 3,
        previous_failures: 0,
        window_runs: 6,
    });
    assert_eq!(trend_window(&runs, "test::order", 100), expected);
    runs.reverse();
    assert_eq!(trend_window(&runs, "test::order", 100), expected);
}

#[test]
fn trend_window_cuts_to_the_newest_runs_of_the_test() {
    let mut runs = chronological("t", &[TestOutcome::Failed, TestOutcome::Failed, TestOutcome::Passed,
        TestOutcome::Passed, TestOutcome::Passed, TestOutcome::Failed]);
    runs.push(TrendSample { test_name: "other".into(), timestamp: 0, outcome: TestOutcome::Failed });
    let c = trend_window(&runs, "t", 4).unwrap();
    assert_eq!(c.window_runs, 4);
    assert_eq!((c.recent_runs, c.recent_failures), (2, 1));
    assert_eq!((c.previous_runs, c.previous_failures), (2, 0));
    let odd = trend_window(&runs, "t", 5).unwrap();
    assert_eq!((odd.recent_runs, odd.previous_runs), (2, 3));
    assert!(trend_window(&runs, "t", 3).is_none());
}

#[test]
fn stored_durations_roundtrip() {
    assert_eq!(duration_to_ms(1500), 1500);
    assert_eq!(duration_to_ms(u128::MAX), i64::MAX);
    assert_eq!(ms_to_duration(42), 42);
    assert_eq!(ms_to_duration(-5), 0);
    assert_eq!(duration_to_ms(ms_to_duration(987) as u128), 987);
}

#[test]
fn into_test_run_handles_unrecognized_outcome() {
    assert_eq!(stored_outcome("Exploded"), TestOutcome::Failed);
    assert_eq!(stored_outcome("ignored"), TestOutcome::Ignored);
}

use ninety_nine::analysis::{hour_histogram, peak_hour};
use ninety_nine::env::{ci_env_vars, ci_provider, mem_total_kb};
use ninety_nine::storage::pending_migrations;

#[test]
fn hours_histogram_and_last_peak() {
    let hours = vec![3, 3, 7, 7, 23, 30];
    let h = hour_histogram(&hours);
    assert_eq!(h.len(), 24);
    assert_eq!(h[3], 2);
    assert_eq!(h[7], 2);
    assert_eq!(h[23], 1);
    assert_eq!(h.iter().sum::<u32>(), 5);
    assert_eq!(peak_hour(&h), (7, 2));
}

#[test]
fn pending_migrations_from_version() {
    assert_eq!(pending_migrations(0, 1), vec![1]);
    assert_eq!(pending_migrations(0, 3), vec![1, 2, 3]);
    assert_eq!(pending_migrations(2, 3), vec![3]);
}

#[test]
fn pending_migrations_none_when_current() {
    assert!(pending_migrations(1, 1).is_empty());
    assert!(pending_migrations(5, 3).is_empty());
    assert_eq!(pending_migrations(-1, 2), vec![1, 2]);
}

#[test]
fn ci_provider_is_the_first_set_variable() {
    let vars = ci_env_vars();
    assert_eq!(vars[0], "GITHUB_ACTIONS");
    assert_eq!(vars[5], "TF_BUILD");
    assert_eq!(ci_provider(&vec![false; 6]), None);
    assert_eq!(ci_provider(&vec![false, true, false, true, false, false]), Some("GitLab CI".to_string()));
    assert_eq!(ci_provider(&vec![false, false, false, false, false, true]), Some("Azure DevOps".to_string()));
}

#[test]
fn meminfo_total_is_read_from_its_line() {
    let text = "MemFree:  100 kB\nMemTotal:       16318340 kB\nSwap: 0 kB\n";
    assert_eq!(mem_total_kb(text), Some(16318340));
    assert_eq!(mem_total_kb("MemTotal: +42 kB"), Some(42));
    assert_eq!(mem_total_kb("MemTotal: lots"), None);
    assert_eq!(mem_total_kb("MemTotal:"), None);
    assert_eq!(mem_total_kb("MemTotal: 99999999999999999999999 kB"), None);
    assert_eq!(mem_total_kb("nothing here"), None);
}

#[test]
fn trend_window_does_not_depend_on_run_order() {
    let (p, f) = (TestOutcome::Passed, TestOutcome::Failed);
    let runs = chronological("t", &[p, f, p, p, f, f, p, f]);
    let mut shuffled: Vec<TrendSample> = runs
        .iter()
        .rev()
        .map(|r| TrendSample { test_name: r.test_name.clone(), timestamp: r.timestamp, outcome: r.outcome })
        .collect();
    shuffled.swap(1, 5);
    shuffled.swap(0, 3);
    let a = trend_window(&runs, "t", 6);
    assert_eq!(a, trend_window(&shuffled, "t", 6));
    assert_eq!(
        a,
        Some(TrendCounts { recent_runs: 3, recent_failures: 2, previous_runs: 3, previous_failures: 1, window_runs: 6 })
    );
}
