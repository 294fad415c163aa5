use ninety_nine::types::{
    FlakeClass, FlakinessCategory, OutcomeCounts, PhaseCounts, PhaseCountsMap, RunPhase,
    SessionKind, TestId, TestName, TestOutcome, TestVerdict,
};

#[test]
fn test_id_key_format() {
    let id = TestId {
        package_name: "pkg".into(),
        binary_name: "bin".into(),
        test_name: TestName::from("mod::t"),
    };
    assert_eq!(id.key(), "pkg::bin::mod::t");
}

#[test]
fn flake_class_roundtrip_str() {
    for c in [FlakeClass::Broken, FlakeClass::Intrinsic, FlakeClass::Contention] {
        assert_eq!(c.as_str().parse::<FlakeClass>().unwrap(), c);
    }
}

#[test]
fn session_kind_and_run_phase_roundtrip() {
    assert_eq!(SessionKind::Diagnose.as_str().parse::<SessionKind>().unwrap(), SessionKind::Diagnose);
    assert_eq!(RunPhase::Isolation.as_str().parse::<RunPhase>().unwrap(), RunPhase::Isolation);
}

#[test]
fn outcome_names_roundtrip() {
    for o in [TestOutcome::Passed, TestOutcome::Failed, TestOutcome::Ignored, TestOutcome::Timeout, TestOutcome::Panic] {
        assert_eq!(o.as_str().parse::<TestOutcome>().unwrap(), o);
    }
    assert_eq!(TestOutcome::Timeout.as_str(), "timeout");
}

#[test]
fn unknown_names_are_refused_with_the_text() {
    assert_eq!("exploded".parse::<TestOutcome>().unwrap_err(), "unknown test outcome: exploded");
    assert_eq!(FlakeClass::parse("weird").unwrap_err(), "unknown flake class: weird");
    assert_eq!(SessionKind::parse("x").unwrap_err(), "unknown session kind: x");
    assert_eq!(RunPhase::parse("stress").unwrap_err(), "unknown run phase: stress");
    assert_eq!(SessionKind::default(), SessionKind::Detection);
}

#[test]
fn failures_include_panics_and_timeouts() {
    assert!(TestOutcome::Failed.is_failure());
    assert!(TestOutcome::Panic.is_failure());
    assert!(TestOutcome::Timeout.is_failure());
    assert!(!TestOutcome::Passed.is_failure());
    assert!(!TestOutcome::Ignored.is_failure());
}

#[test]
fn outcome_counts_and_verdicts() {
    let outcomes = vec![
        TestOutcome::Passed,
        TestOutcome::Failed,
        TestOutcome::Panic,
        TestOutcome::Ignored,
        TestOutcome::Passed,
    ];
    let c = OutcomeCounts::from_outcomes(&outcomes);
    assert_eq!(c, OutcomeCounts { passed: 2, failed: 2, ignored: 1 });
    assert_eq!(c.verdict(), TestVerdict::Flaky);
    assert_eq!(OutcomeCounts { passed: 3, failed: 0, ignored: 0 }.verdict(), TestVerdict::Passed);
    assert_eq!(OutcomeCounts { passed: 0, failed: 1, ignored: 0 }.verdict(), TestVerdict::Failed);
    assert_eq!(OutcomeCounts { passed: 0, failed: 0, ignored: 4 }.verdict(), TestVerdict::Skipped);
}

#[test]
fn category_labels() {
    assert_eq!(FlakinessCategory::Stable.label(), "Stable");
    assert_eq!(FlakinessCategory::Critical.label(), "Critical");
}

#[test]
fn counts_map_insert_replaces_and_keeps_order() {
    let zero = PhaseCounts { stress_runs: 0, stress_failures: 0, isolation_runs: 0, isolation_failures: 0 };
    let one = PhaseCounts { stress_runs: 1, ..zero };
    let mut m = PhaseCountsMap::new();
    m.insert(TestId::new("p", "b", "x"), zero);
    m.insert(TestId::new("p", "b", "y"), zero);
    m.insert(TestId::new("p", "b", "x"), one);
    assert_eq!(m.len(), 2);
    assert_eq!(m.get(&TestId::new("p", "b", "x")), Some(&one));
    assert_eq!(m.get(&TestId::new("p", "c", "x")), None);
    assert_eq!(m.entries()[0].0.key(), "p::b::x");
}

#[test]
fn test_names_convert() {
    let n = TestName::from("a::b");
    assert_eq!(n.as_str(), "a::b");
    let s: String = n.clone().into_inner();
    assert_eq!(s, "a::b");
    assert_eq!(TestName::from(String::from("c")).as_str(), "c");
}
