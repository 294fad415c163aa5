use ninety_nine::config::DiagnoseConfig;
use ninety_nine::diagnose::{
    build_results_from_counts, classify, diagnose_candidate, fresh_quarantine_entries, group_by_binary, isolation_execution_config,
    quarantine_plan, resolve_multi_phase, should_quarantine_class, should_record,
    stress_candidates, with_isolation, QuarantineByClass,
};
use ninety_nine::runner::binary::BinaryKind;
use ninety_nine::runner::listing::{TestCase, TestKind};
use ninety_nine::types::{
    DiagnosticResult, FlakeClass, PhaseCounts, PhaseCountsMap, RecordOutcome, TestId, TestName,
    TestOutcome,
};

fn counts(stress_runs: u32, stress_failures: u32, isolation_runs: u32, isolation_failures: u32) -> PhaseCounts {
    PhaseCounts { stress_runs, stress_failures, isolation_runs, isolation_failures }
}

fn case(package: &str, binary: &str, name: &str) -> TestCase {
    TestCase {
        name: TestName::from(name),
        binary_path: format!("/tmp/{binary}"),
        binary_name: binary.to_string(),
        package_name: package.to_string(),
        binary_kind: BinaryKind::Test,
        kind: TestKind::Test,
    }
}

#[test]
fn resolve_multi_phase_cli_over_config() {
    assert!(resolve_multi_phase(true, false, false));
    assert!(!resolve_multi_phase(false, true, true));
    assert!(resolve_multi_phase(false, false, true));
    assert!(!resolve_multi_phase(false, false, false));
}

#[test]
fn isolation_config_disables_retries() {
    let cfg = isolation_execution_config(10_000);
    assert_eq!(cfg.retries, 0);
    assert_eq!(cfg.concurrency, 1);
    assert_eq!(cfg.timeout_ms, 10_000);
    assert_eq!(cfg.retry_delay_ms, 0);
}

#[test]
fn build_results_classifies_from_counts_map() {
    let mut map = PhaseCountsMap::new();
    map.insert(TestId::new("p", "b", "t::contention"), counts(3, 1, 10, 0));
    map.insert(TestId::new("p", "b", "t::clean"), counts(3, 0, 0, 0));
    map.insert(TestId::new("p", "b", "t::broken"), counts(2, 2, 5, 5));

    let results = build_results_from_counts(&map);
    assert_eq!(results.len(), 2);
    let classes: Vec<FlakeClass> = results.iter().map(|(_, c, _)| *c).collect();
    assert!(classes.contains(&FlakeClass::Contention));
    assert!(classes.contains(&FlakeClass::Broken));
}

#[test]
fn build_results_are_ordered_by_key() {
    let mut map = PhaseCountsMap::new();
    map.insert(TestId::new("p", "b", "t::z"), counts(3, 1, 10, 0));
    map.insert(TestId::new("p", "b", "t::a"), counts(2, 2, 5, 5));
    map.insert(TestId::new("p", "b", "t::m"), counts(2, 2, 5, 2));
    let results = build_results_from_counts(&map);
    let keys: Vec<String> = results.iter().map(|(id, _, _)| id.key()).collect();
    assert_eq!(keys, vec!["p::b::t::a", "p::b::t::m", "p::b::t::z"]);
    assert_eq!(results[1].1, FlakeClass::Intrinsic);
}

#[test]
fn classify_contention_when_stress_failed_isolation_clean() {
    assert_eq!(classify(&counts(3, 1, 10, 0)), Some(FlakeClass::Contention));
}

#[test]
fn classify_intrinsic_mixed_isolation() {
    assert_eq!(classify(&counts(3, 1, 10, 3)), Some(FlakeClass::Intrinsic));
}

#[test]
fn classify_broken_all_isolation_fail() {
    assert_eq!(classify(&counts(2, 2, 5, 5)), Some(FlakeClass::Broken));
}

#[test]
fn classify_none_when_no_stress_failures() {
    assert_eq!(classify(&counts(3, 0, 0, 0)), None);
}

#[test]
fn classify_none_without_isolation_runs() {
    assert_eq!(classify(&counts(3, 2, 0, 0)), None);
}

#[test]
fn should_auto_quarantine_intrinsic_when_enabled() {
    let cfg = QuarantineByClass { intrinsic: true, contention: false, broken: true };
    assert!(should_quarantine_class(FlakeClass::Intrinsic, &cfg));
}

#[test]
fn should_not_auto_quarantine_contention_by_default() {
    assert!(!should_quarantine_class(FlakeClass::Contention, &QuarantineByClass::default()));
}

fn result(name: &str, class: FlakeClass) -> DiagnosticResult {
    DiagnosticResult {
        test_id: TestId::new("pkg", "bin", name),
        class,
        counts: counts(3, 1, 10, 3),
        recording: RecordOutcome::SkippedNoRequest,
    }
}

#[test]
fn auto_quarantine_writes_reason_with_class() {
    let results = vec![result("tests::intrinsic", FlakeClass::Intrinsic)];
    let plan = quarantine_plan(true, true, &QuarantineByClass::default(), &results);
    assert_eq!(plan.len(), 1);
    assert_eq!(plan[0].0, "tests::intrinsic");
    assert!(plan[0].1.contains("intrinsic"));
    assert_eq!(plan[0].1, "auto:intrinsic");
}

#[test]
fn auto_quarantine_skips_contention_by_default() {
    let results = vec![result("tests::racy", FlakeClass::Contention)];
    let plan = quarantine_plan(true, true, &QuarantineByClass::default(), &results);
    assert!(plan.is_empty());
}

#[test]
fn quarantine_plan_empty_when_disabled_or_manual() {
    let results = vec![result("tests::broken", FlakeClass::Broken)];
    assert!(quarantine_plan(false, true, &QuarantineByClass::default(), &results).is_empty());
    assert!(quarantine_plan(true, false, &QuarantineByClass::default(), &results).is_empty());
    let plan = quarantine_plan(true, true, &QuarantineByClass::default(), &results);
    assert_eq!(plan, vec![("tests::broken".to_string(), "auto:broken".to_string())]);
}

#[test]
fn candidates_are_tests_that_failed_under_stress() {
    let tests = vec![case("pkg", "bin", "a"), case("pkg", "bin", "b"), case("pkg", "bin", "c")];
    let mut map = PhaseCountsMap::new();
    map.insert(TestId::new("pkg", "bin", "a"), counts(3, 0, 0, 0));
    map.insert(TestId::new("pkg", "bin", "b"), counts(3, 2, 0, 0));
    let cands = stress_candidates(&tests, &map);
    assert_eq!(cands.len(), 1);
    assert_eq!(cands[0].name.as_str(), "b");
}

#[test]
fn isolation_counts_keep_stress_counts() {
    let outcomes = vec![TestOutcome::Passed, TestOutcome::Failed, TestOutcome::Timeout, TestOutcome::Ignored];
    let c = with_isolation(Some(counts(3, 2, 0, 0)), &outcomes);
    assert_eq!(c, counts(3, 2, 4, 2));
    let fresh = with_isolation(None, &outcomes);
    assert_eq!(fresh, counts(0, 0, 4, 2));
}

#[test]
fn recording_only_for_requested_intrinsic() {
    assert!(should_record(true, FlakeClass::Intrinsic));
    assert!(!should_record(false, FlakeClass::Intrinsic));
    assert!(!should_record(true, FlakeClass::Contention));
    assert!(!should_record(true, FlakeClass::Broken));
}

#[test]
fn group_by_binary_keeps_first_appearance_order() {
    let tests = vec![
        case("pkg", "two", "x"),
        case("pkg", "one", "y"),
        case("pkg", "two", "z"),
    ];
    let groups = group_by_binary(&tests);
    assert_eq!(groups.len(), 2);
    assert_eq!(groups[0].0, "/tmp/two");
    let names: Vec<&str> = groups[0].1.iter().map(|t| t.name.as_str()).collect();
    assert_eq!(names, vec!["x", "z"]);
    assert_eq!(groups[1].0, "/tmp/one");
    assert_eq!(groups[1].1.len(), 1);
}

#[test]
fn diagnose_config_defaults() {
    let d = DiagnoseConfig::default();
    assert_eq!(d.stress_runs, 3);
    assert_eq!(d.isolation_runs, 10);
    assert_eq!(d.stress_threads, 0);
    assert!(!d.record);
    assert_eq!(d.record_attempts, 10);
    assert!(d.validate().is_ok());
}

#[test]
fn diagnose_validate_rejects_zero_stress_runs() {
    let d = DiagnoseConfig { stress_runs: 0, ..DiagnoseConfig::default() };
    assert!(d.validate().is_err());
}

#[test]
fn diagnose_validate_allows_zero_stress_threads() {
    let d = DiagnoseConfig { stress_threads: 0, ..DiagnoseConfig::default() };
    assert!(d.validate().is_ok());
    assert!(d.effective_stress_threads(None) >= 1);
    assert_eq!(d.effective_stress_threads(Some(6)), 6);
}

#[test]
fn diagnose_validate_names_each_zero_field() {
    let d = DiagnoseConfig { isolation_runs: 0, ..DiagnoseConfig::default() };
    match d.validate() {
        Err(ninety_nine::error::NinetyNineError::InvalidConfig { message }) => {
            assert_eq!(message, "diagnose.isolation_runs must be >= 1");
        }
        other => panic!("unexpected {other:?}"),
    }
    let d = DiagnoseConfig { record_attempts: 0, ..DiagnoseConfig::default() };
    assert!(d.validate().is_err());
    let d = DiagnoseConfig { stress_timeout_secs: 0, ..DiagnoseConfig::default() };
    assert!(d.validate().is_err());
    let d = DiagnoseConfig { stress_threads: 8, ..DiagnoseConfig::default() };
    assert_eq!(d.effective_stress_threads(Some(2)), 8);
}

#[test]
fn quarantine_entries_skip_held_and_repeated_tests() {
    let entry = |n: &str, r: &str| (n.to_string(), r.to_string());
    let plan = vec![
        entry("a", "auto:intrinsic"),
        entry("b", "auto:broken"),
        entry("a", "auto:broken"),
        entry("c", "auto:intrinsic"),
    ];
    let held = vec!["b".to_string()];
    assert_eq!(
        fresh_quarantine_entries(&plan, &held),
        vec![entry("a", "auto:intrinsic"), entry("c", "auto:intrinsic")]
    );
    assert!(fresh_quarantine_entries(&Vec::new(), &held).is_empty());
}

#[test]
fn candidate_decision_classifies_and_picks_recording() {
    let stress = PhaseCounts { stress_runs: 3, stress_failures: 1, isolation_runs: 0, isolation_failures: 0 };
    let mixed = vec![TestOutcome::Passed, TestOutcome::Failed, TestOutcome::Passed];
    let expected = PhaseCounts { stress_runs: 3, stress_failures: 1, isolation_runs: 3, isolation_failures: 1 };
    assert_eq!(diagnose_candidate(Some(stress), &mixed, true), Some((expected, FlakeClass::Intrinsic, true)));
    assert_eq!(diagnose_candidate(Some(stress), &mixed, false), Some((expected, FlakeClass::Intrinsic, false)));
    let clean = vec![TestOutcome::Passed, TestOutcome::Passed];
    let contention = diagnose_candidate(Some(stress), &clean, true).map(|(_, class, record)| (class, record));
    assert_eq!(contention, Some((FlakeClass::Contention, false)));
    assert_eq!(diagnose_candidate(None, &mixed, true), None);
}
