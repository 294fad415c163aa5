use ninety_nine::error::NinetyNineError;
use ninety_nine::runner::binary::{
    artifact_kind_of, binaries_from_messages, classify_artifact_kind, package_name_from_id,
    check_nesting, parse_cargo_messages, ArtifactKind, BinaryKind, CargoArtifact, TestBinary,
};
use ninety_nine::runner::executor::{
    classify_output, run_error_message, AttemptAction, AttemptLoop, ExecutionConfig, TestResult,
};
use ninety_nine::runner::listing::{parse_listing_line, parse_test_listing, TestCase, TestKind};
use ninety_nine::runner::record::{
    attempt_captured, attempt_dir_name, record_dir_segments, resolve_rr, rr_outcome,
    rr_record_spec, rr_skip_message, sanitize_segment, RrEnvironment,
};
use ninety_nine::runner::stress::{
    apply_stress_iteration, parse_libtest_failure_names, stress_command,
    stress_iteration_from_outcome, StressIteration,
};
use ninety_nine::runner::{select_cases, NativeRunner, RunnerBackend};
use ninety_nine::types::{PhaseCountsMap, RecordOutcome, TestId, TestName, TestOutcome};

struct MockEnv {
    linux: bool,
    rr: Option<String>,
}

impl RrEnvironment for MockEnv {
    fn is_linux(&self) -> bool {
        self.linux
    }
    fn find_rr(&self) -> Option<String> {
        self.rr.clone()
    }
}

fn case(package: &str, binary: &str, name: &str) -> TestCase {
    TestCase {
        name: TestName::from(name),
        binary_path: format!("/tmp/{binary}"),
        binary_name: binary.to_string(),
        package_name: package.to_string(),
        binary_kind: BinaryKind::Test,
        kind: TestKind::Test,
    }
}

#[test]
fn unsupported_os_when_not_linux() {
    let env = MockEnv { linux: false, rr: Some("/usr/bin/rr".to_string()) };
    assert_eq!(resolve_rr(&env), RecordOutcome::UnsupportedOs);
    assert_eq!(rr_outcome(false, true), RecordOutcome::UnsupportedOs);
}

#[test]
fn unavailable_when_rr_not_on_path() {
    let env = MockEnv { linux: true, rr: None };
    assert_eq!(resolve_rr(&env), RecordOutcome::Unavailable);
    assert_eq!(rr_outcome(true, false), RecordOutcome::Unavailable);
}

#[test]
fn ready_when_linux_and_rr_found() {
    let env = MockEnv { linux: true, rr: Some("/usr/bin/rr".to_string()) };
    assert_eq!(resolve_rr(&env), RecordOutcome::SkippedNoRequest);
}

#[test]
fn rr_spec_shape() {
    let spec = rr_record_spec("/usr/bin/rr", "/tmp/bin", "tests::t", "/tmp/out", false);
    assert_eq!(spec.program, "/usr/bin/rr");
    assert!(spec.args.iter().any(|a| a == "record"));
    assert!(spec.args.iter().any(|a| a == "--exact"));
    assert!(spec.args.iter().any(|a| a == "tests::t"));
    assert!(!spec.args.iter().any(|a| a == "--chaos"));
    assert_eq!(
        spec.args,
        vec!["record", "-o", "/tmp/out", "--", "/tmp/bin", "--exact", "tests::t", "--nocapture"]
    );
}

#[test]
fn rr_spec_includes_chaos_when_enabled() {
    let spec = rr_record_spec("/usr/bin/rr", "/tmp/bin", "tests::t", "/tmp/out", true);
    assert!(spec.args.iter().any(|a| a == "--chaos"));
    assert_eq!(spec.args[1], "--chaos");
}

#[test]
fn rr_skip_message_unsupported_os() {
    let msg = rr_skip_message(&RecordOutcome::UnsupportedOs);
    assert!(msg.to_lowercase().contains("not supported"));
}

#[test]
fn rr_skip_message_unavailable() {
    let msg = rr_skip_message(&RecordOutcome::Unavailable);
    assert!(msg.to_lowercase().contains("install") || msg.contains("rr"));
}

#[test]
fn rr_skip_message_silent_when_nothing_to_say() {
    assert!(rr_skip_message(&RecordOutcome::SkippedNoRequest).is_empty());
    assert!(rr_skip_message(&RecordOutcome::FailedWithTrace { path: "/tmp/x".into() }).is_empty());
    assert!(rr_skip_message(&RecordOutcome::RecorderError).contains("valid trace"));
    assert!(rr_skip_message(&RecordOutcome::PassedNoFailure).contains("attempt budget"));
}

#[test]
fn recording_directories_are_sanitized() {
    assert_eq!(sanitize_segment("tests::a b/c-d_e"), "tests__a_b_c-d_e");
    let (pkg, leaf) = record_dir_segments(&case("my pkg", "bin", "mod::t"));
    assert_eq!(pkg, "my_pkg");
    assert_eq!(leaf, "bin__mod__t");
    assert_eq!(attempt_dir_name(7), "attempt_7");
    assert!(attempt_captured(false, true));
    assert!(!attempt_captured(true, true));
    assert!(!attempt_captured(false, false));
}

#[test]
fn recording_path_only_for_captured_trace() {
    let t = RecordOutcome::FailedWithTrace { path: "/tmp/trace".into() };
    assert_eq!(t.recording_path(), Some("/tmp/trace"));
    assert_eq!(RecordOutcome::Unavailable.recording_path(), None);
}

#[test]
fn parse_libtest_failures_extracts_names() {
    let stdout = "\
running 2 tests
test foo::bar ... FAILED
test foo::ok ... ok

failures:

---- foo::bar stdout ----
assertion failed

failures:
    foo::bar

test result: FAILED. 1 passed; 1 failed; 0 ignored; 0 measured; 0 filtered out
";
    let names = parse_libtest_failure_names(stdout);
    assert_eq!(names, vec!["foo::bar".to_string()]);
}

#[test]
fn parse_empty_output_no_failures() {
    assert!(parse_libtest_failure_names("").is_empty());
}

#[test]
fn parse_failed_lines_without_summary_section() {
    let stdout = "test b::two ... FAILED\ntest a::one ... FAILED\ntest c ... ok\n";
    let names = parse_libtest_failure_names(stdout);
    assert_eq!(names, vec!["a::one".to_string(), "b::two".to_string()]);
}

#[test]
fn stress_command_has_threads_not_exact() {
    let c = stress_command("/bin/t", 4);
    assert!(c.args.iter().any(|a| a == "--test-threads"));
    assert!(c.args.iter().any(|a| a == "4"));
    assert!(!c.args.iter().any(|a| a == "--exact"));
    assert_eq!(c.program, "/bin/t");
}

#[test]
fn apply_stress_ignores_non_selected_failure_names() {
    let selected = vec![case("pkg", "bin", "tests::a")];
    let iter = StressIteration {
        failure_names: vec!["tests::b".to_string()],
        timed_out: false,
        inconclusive: false,
    };
    let mut acc = PhaseCountsMap::new();
    apply_stress_iteration(&selected, &iter, &mut acc);
    let id = TestId::new("pkg", "bin", "tests::a");
    let counts = acc.get(&id).unwrap();
    assert_eq!(counts.stress_runs, 1);
    assert_eq!(counts.stress_failures, 0);
}

#[test]
fn apply_stress_two_binaries_same_short_name_are_distinct() {
    let a = case("pkg1", "bin1", "t");
    let b = case("pkg2", "bin2", "t");
    let iter = StressIteration {
        failure_names: vec!["t".to_string()],
        timed_out: false,
        inconclusive: false,
    };
    let mut acc = PhaseCountsMap::new();
    apply_stress_iteration(&vec![a], &iter, &mut acc);
    apply_stress_iteration(&vec![b], &iter, &mut acc);
    assert_eq!(acc.len(), 2);
    assert_eq!(acc.get(&TestId::new("pkg1", "bin1", "t")).unwrap().stress_failures, 1);
    assert_eq!(acc.get(&TestId::new("pkg2", "bin2", "t")).unwrap().stress_failures, 1);
}

#[test]
fn apply_stress_timeout_inconclusive_no_fabricated_failures() {
    let selected = vec![case("pkg", "bin", "tests::a")];
    let iter = StressIteration { failure_names: Vec::new(), timed_out: true, inconclusive: true };
    let mut acc = PhaseCountsMap::new();
    apply_stress_iteration(&selected, &iter, &mut acc);
    let counts = acc.get(&TestId::new("pkg", "bin", "tests::a")).unwrap();
    assert_eq!(counts.stress_runs, 1);
    assert_eq!(counts.stress_failures, 0);
}

#[test]
fn stress_iteration_from_process_outcome() {
    let timed = stress_iteration_from_outcome(true, false, "test a ... FAILED\n", "");
    assert!(timed.timed_out && timed.inconclusive && timed.failure_names.is_empty());
    let crashed = stress_iteration_from_outcome(false, false, "", "segfault");
    assert!(crashed.inconclusive);
    let failed = stress_iteration_from_outcome(false, false, "test a ... FAILED\n", "");
    assert!(!failed.inconclusive);
    assert_eq!(failed.failure_names, vec!["a".to_string()]);
    let clean = stress_iteration_from_outcome(false, true, "", "");
    assert!(!clean.inconclusive && clean.failure_names.is_empty());
}

#[test]
fn listing_lines_name_tests_and_benchmarks() {
    assert_eq!(parse_listing_line("mod::t: test"), Some(("mod::t".to_string(), TestKind::Test)));
    assert_eq!(parse_listing_line("b: benchmark"), Some(("b".to_string(), TestKind::Benchmark)));
    assert_eq!(parse_listing_line(": test"), None);
    assert_eq!(parse_listing_line("2 tests, 0 benchmarks"), None);
    let binary = TestBinary {
        path: "/tmp/bin".into(),
        package_name: "pkg".into(),
        binary_name: "bin".into(),
        kind: BinaryKind::Test,
    };
    let cases = parse_test_listing("a::one: test\n  b: benchmark  \nnoise\n\n", &binary);
    assert_eq!(cases.len(), 2);
    assert_eq!(cases[0].name.as_str(), "a::one");
    assert_eq!(cases[1].kind, TestKind::Benchmark);
    assert_eq!(cases[1].binary_path, "/tmp/bin");
}

#[test]
fn package_names_from_both_id_forms() {
    assert_eq!(package_name_from_id("foo 0.1.0 (path+file:///x/foo)"), "foo");
    assert_eq!(package_name_from_id("path+file:///x/bar#baz@0.2.0"), "baz");
    assert_eq!(package_name_from_id("path+file:///x/qux#0.3.0"), "qux");
    assert_eq!(package_name_from_id("plain"), "plain");
}

#[test]
fn artifact_kinds_classify_binaries() {
    assert_eq!(classify_artifact_kind(&vec![ArtifactKind::Other, ArtifactKind::Test]), BinaryKind::Test);
    assert_eq!(classify_artifact_kind(&vec![ArtifactKind::RLib, ArtifactKind::Bin]), BinaryKind::Lib);
    assert_eq!(classify_artifact_kind(&vec![]), BinaryKind::Lib);
    assert_eq!(artifact_kind_of("proc-macro"), ArtifactKind::ProcMacro);
    assert_eq!(artifact_kind_of("example"), ArtifactKind::Example);
    assert_eq!(artifact_kind_of("cdylib"), ArtifactKind::Other);
}

fn artifact(test: bool, exe: Option<&str>, kinds: &[&str]) -> CargoArtifact {
    CargoArtifact {
        test,
        executable: exe.map(|e| e.to_string()),
        kinds: kinds.iter().map(|k| k.to_string()).collect(),
        package_id: "path+file:///x/foo#0.1.0".to_string(),
        target_name: "it".to_string(),
    }
}

#[test]
fn binaries_from_cargo_messages() {
    let msgs = vec![
        Ok(None),
        Ok(Some(artifact(false, Some("/t/lib"), &["lib"]))),
        Ok(Some(artifact(true, None, &["lib"]))),
        Ok(Some(artifact(true, Some("/t/it"), &["test"]))),
    ];
    let bins = binaries_from_messages(msgs).unwrap();
    assert_eq!(bins.len(), 1);
    assert_eq!(bins[0].path, "/t/it");
    assert_eq!(bins[0].package_name, "foo");
    assert_eq!(bins[0].binary_name, "it");
    assert_eq!(bins[0].kind, BinaryKind::Test);

    let bad = vec![Ok(None), Err("stream did not contain valid UTF-8".to_string())];
    match binaries_from_messages(bad) {
        Err(NinetyNineError::BinaryDiscovery { message }) => {
            assert_eq!(message, "failed to parse cargo message: stream did not contain valid UTF-8");
        }
        other => panic!("unexpected {other:?}"),
    }
}

#[test]
fn parse_cargo_messages_reads_json_stream() {
    let line = r#"{"reason":"compiler-artifact","package_id":"path+file:///x/foo#0.1.0","manifest_path":"/x/foo/Cargo.toml","target":{"kind":["test"],"crate_types":["bin"],"name":"it","src_path":"/x/foo/tests/it.rs","edition":"2021","doc":false,"doctest":false,"test":true},"profile":{"opt_level":"0","debuginfo":2,"debug_assertions":true,"overflow_checks":true,"test":true},"features":[],"filenames":["/x/target/debug/deps/it-1"],"executable":"/x/target/debug/deps/it-1","fresh":true}"#;
    let text = format!("{line}\nnot json at all\n");
    let bins = parse_cargo_messages(text.as_bytes()).unwrap();
    assert_eq!(bins.len(), 1);
    assert_eq!(bins[0].path, "/x/target/debug/deps/it-1");
    assert_eq!(bins[0].package_name, "foo");
    assert_eq!(bins[0].kind, BinaryKind::Test);
    assert!(parse_cargo_messages(b"").unwrap().is_empty());
}

#[test]
fn outputs_classify_outcomes() {
    assert_eq!(classify_output(true, "test result: ok. 1 passed;", ""), TestOutcome::Passed);
    assert_eq!(classify_output(true, "test result: ok. 0 passed; 0 failed; 1 ignored", ""), TestOutcome::Ignored);
    assert_eq!(classify_output(false, "", "thread 'x' panicked at src/lib.rs"), TestOutcome::Panic);
    assert_eq!(classify_output(false, "error", ""), TestOutcome::Failed);
}

#[test]
fn error_messages_by_outcome() {
    assert_eq!(run_error_message(TestOutcome::Passed, "o", "e", "1s"), None);
    assert_eq!(run_error_message(TestOutcome::Timeout, "", "", "2s"), Some("test timed out after 2s".to_string()));
    assert_eq!(run_error_message(TestOutcome::Failed, "out", "err", "1s"), Some("err".to_string()));
    assert_eq!(run_error_message(TestOutcome::Panic, "out", "", "1s"), Some("out".to_string()));
    assert_eq!(run_error_message(TestOutcome::Failed, "", "", "1s"), None);
}

fn result(tc: &TestCase, outcome: TestOutcome) -> TestResult {
    TestResult {
        test_case: tc.clone(),
        outcome,
        duration_ms: 5,
        stdout: String::new(),
        stderr: String::new(),
        attempt: 0,
    }
}

#[test]
fn attempts_keep_failures_before_the_pass() {
    let tc = case("pkg", "bin", "t");
    let mut l = AttemptLoop::new(2, 50);
    assert_eq!(l.next_action(), AttemptAction::Run { delay_ms: 0 });
    l.record(result(&tc, TestOutcome::Failed));
    assert_eq!(l.next_action(), AttemptAction::Run { delay_ms: 50 });
    l.record(result(&tc, TestOutcome::Passed));
    assert_eq!(l.next_action(), AttemptAction::Finish);
    let attempts = l.into_attempts();
    assert_eq!(attempts.len(), 2);
    assert_eq!(attempts[0].attempt, 1);
    assert_eq!(attempts[1].attempt, 2);
    assert_eq!(attempts[0].outcome, TestOutcome::Failed);
}

#[test]
fn attempts_stop_after_retry_budget() {
    let tc = case("pkg", "bin", "t");
    let mut l = AttemptLoop::new(1, 0);
    l.record(result(&tc, TestOutcome::Failed));
    l.record(result(&tc, TestOutcome::Timeout));
    assert_eq!(l.next_action(), AttemptAction::Finish);
    assert_eq!(l.into_attempts().len(), 2);
}

#[test]
fn execution_config_follows_parallelism() {
    let c = ExecutionConfig::with_parallelism(Some(8));
    assert_eq!(c.concurrency, 8);
    assert_eq!(c.retries, 0);
    let runner = NativeRunner::new("/proj", ExecutionConfig::with_parallelism(None));
    assert_eq!(runner.root(), "/proj");
    let backend = RunnerBackend::native("/proj", ExecutionConfig::with_parallelism(Some(2)));
    assert_eq!(backend.execution_config().concurrency, 2);
}

#[test]
fn selecting_cases_by_name_substring() {
    let cases = vec![case("p", "b", "mod::alpha"), case("p", "b", "beta"), case("p", "b", "alphabet")];
    let kept = select_cases(cases, "alpha");
    let names: Vec<&str> = kept.iter().map(|c| c.name.as_str()).collect();
    assert_eq!(names, vec!["mod::alpha", "alphabet"]);
}

use ninety_nine::runner::listing::merge_listings;
use ninety_nine::runner::record::{AttemptReport, RecordLoop, RecordStep};

#[test]
fn recording_keeps_the_first_failing_trace() {
    let mut l = RecordLoop::new(3);
    assert_eq!(l.next_step(), RecordStep::Attempt { index: 0 });
    l.attempt_ended(AttemptReport::TimedOut);
    assert_eq!(l.next_step(), RecordStep::Attempt { index: 1 });
    l.attempt_ended(AttemptReport::Exited { success: false, trace_nonempty: true });
    assert_eq!(l.next_step(), RecordStep::KeepTrace { index: 1 });
    l.trace_kept(Some("/rec/record_1".to_string()), "/rec/attempt_1".to_string(), false);
    assert_eq!(l.next_step(), RecordStep::Done);
    assert_eq!(l.into_outcome(), RecordOutcome::FailedWithTrace { path: "/rec/record_1".into() });
}

#[test]
fn recording_without_capture_passes_after_the_budget() {
    let mut l = RecordLoop::new(2);
    l.attempt_ended(AttemptReport::Exited { success: true, trace_nonempty: true });
    l.attempt_ended(AttemptReport::NotStarted);
    assert_eq!(l.next_step(), RecordStep::Done);
    assert_eq!(l.into_outcome(), RecordOutcome::PassedNoFailure);

    let mut lost = RecordLoop::new(1);
    lost.attempt_ended(AttemptReport::Exited { success: false, trace_nonempty: true });
    lost.trace_kept(None, "/rec/attempt_0".to_string(), true);
    assert_eq!(lost.into_outcome(), RecordOutcome::FailedWithTrace { path: "/rec/attempt_0".into() });

    let mut gone = RecordLoop::new(1);
    gone.attempt_ended(AttemptReport::Exited { success: false, trace_nonempty: true });
    gone.trace_kept(None, "/rec/attempt_0".to_string(), false);
    assert_eq!(gone.into_outcome(), RecordOutcome::RecorderError);
    assert_eq!(RecordLoop::new(0).next_step(), RecordStep::Done);
    assert_eq!(RecordLoop::new(0).into_outcome(), RecordOutcome::PassedNoFailure);
}

#[test]
fn recording_reports_rr_failure_when_every_attempt_lacks_a_trace() {
    let mut l = RecordLoop::new(2);
    l.attempt_ended(AttemptReport::Exited { success: false, trace_nonempty: false });
    l.attempt_ended(AttemptReport::Exited { success: false, trace_nonempty: false });
    assert_eq!(l.next_step(), RecordStep::Done);
    assert_eq!(l.into_outcome(), RecordOutcome::RecorderError);

    let mut mixed = RecordLoop::new(2);
    mixed.attempt_ended(AttemptReport::Exited { success: false, trace_nonempty: false });
    mixed.attempt_ended(AttemptReport::Exited { success: true, trace_nonempty: false });
    assert_eq!(mixed.into_outcome(), RecordOutcome::PassedNoFailure);
}

#[test]
fn listings_skip_failed_binaries_and_stop_on_other_errors() {
    let ok = merge_listings(vec![
        Ok(vec![case("p", "a", "one")]),
        Err(NinetyNineError::TestListing { binary: "/tmp/b".into(), message: "boom".into() }),
        Ok(vec![case("p", "c", "two"), case("p", "c", "three")]),
    ])
    .unwrap();
    let names: Vec<&str> = ok.iter().map(|c| c.name.as_str()).collect();
    assert_eq!(names, vec!["one", "two", "three"]);
    let err = merge_listings(vec![
        Ok(vec![case("p", "a", "one")]),
        Err(NinetyNineError::RunnerExecution { message: "join".into() }),
        Err(NinetyNineError::NoRunnerAvailable),
    ]);
    assert!(matches!(err, Err(NinetyNineError::RunnerExecution { .. })));
}

#[test]
fn parse_cargo_messages_refuses_deep_nesting() {
    let deep = "[".repeat(200);
    match parse_cargo_messages(deep.as_bytes()) {
        Err(NinetyNineError::BinaryDiscovery { message }) => {
            assert_eq!(message, "cargo output nests too deeply to read");
        }
        other => panic!("unexpected: {other:?}"),
    }
    let quoted = format!("{{\"reason\":\"build-finished\",\"x\":\"{}\"}}", deep);
    assert!(check_nesting(quoted.as_bytes(), 128));
}

#[test]
fn nesting_is_counted_per_line_outside_strings() {
    assert!(check_nesting(b"[[\n[[", 2));
    assert!(!check_nesting(b"[[[", 2));
    assert!(check_nesting(b"[\"\\\"[[[\"]", 1));
    assert!(check_nesting(b"", 0));
}
