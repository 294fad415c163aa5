//! CI pipeline definitions that run flaky-test detection on a schedule.
use vstd::prelude::*;
use crate::text::{decimal, decimal_of, extend_chars, extend_str, string_of};

verus! {

/// The GitHub Actions workflow up to the detection command.
pub const GITHUB_HEAD: &'static str = "name: Flaky Test Detection\non:\n  schedule:\n    - cron: '0 3 * * 1'\n  workflow_dispatch:\n\njobs:\n  flaky-tests:\n    runs-on: ubuntu-latest\n    steps:\n      - uses: actions/checkout@v4\n\n      - name: Install Rust\n        uses: dtolnay/rust-toolchain@stable\n\n      - name: Install cargo-nextest\n        uses: taiki-e/install-action@nextest\n\n      - name: Install cargo-ninety-nine\n        run: cargo install cargo-ninety-nine\n\n      - name: Run flaky test detection\n        run: cargo ninety-nine test -n ";

/// The GitHub Actions workflow after the detection command.
pub const GITHUB_TAIL: &'static str = "\n        continue-on-error: true\n\n      - name: Export results\n        if: always()\n        run: cargo ninety-nine export junit flaky-results.xml\n\n      - name: Upload test results\n        if: always()\n        uses: actions/upload-artifact@v4\n        with:\n          name: flaky-test-results\n          path: flaky-results.xml\n";

/// The GitLab CI job up to the detection command.
pub const GITLAB_HEAD: &'static str = "flaky-test-detection:\n  stage: test\n  image: rust:latest\n  rules:\n    - if: $CI_PIPELINE_SOURCE == \"schedule\"\n    - if: $CI_PIPELINE_SOURCE == \"web\"\n  before_script:\n    - cargo install cargo-nextest cargo-ninety-nine\n  script:\n    - cargo ninety-nine test -n ";

/// The GitLab CI job after the detection command.
pub const GITLAB_TAIL: &'static str = "\n    - cargo ninety-nine export junit flaky-results.xml\n  allow_failure: true\n  artifacts:\n    when: always\n    reports:\n      junit: flaky-results.xml\n";

/// Between the run count and the confidence of the detection command.
pub const CONFIDENCE_FLAG: &'static str = " --confidence ";

/// A pipeline text: its fixed head, the run count, the confidence flag with
/// its value, and its fixed tail.
pub open spec fn pipeline_text(head: Seq<char>, min_runs: u32, confidence: Seq<char>, tail: Seq<
    char,
>) -> Seq<char> {
    head + decimal(min_runs as nat) + CONFIDENCE_FLAG@ + confidence + tail
}

fn pipeline(head: &str, min_runs: u32, confidence: &str, tail: &str) -> (r: String)
    ensures
        r@ == pipeline_text(head@, min_runs, confidence@, tail@),
{
    let mut out: Vec<char> = Vec::new();
    extend_str(&mut out, head);
    let digits = decimal_of(min_runs as u64);
    extend_chars(&mut out, &digits);
    extend_str(&mut out, CONFIDENCE_FLAG);
    extend_str(&mut out, confidence);
    extend_str(&mut out, tail);
    assert(out@ =~= pipeline_text(head@, min_runs, confidence@, tail@));
    string_of(&out)
}

/// The GitHub Actions workflow: weekly and on demand, install the tools,
/// run detection with the configured run count and confidence (the
/// confidence as the text the configuration prints), then export and
/// upload the JUnit report.
pub fn generate_github_actions(min_runs: u32, confidence: &str) -> (r: String)
    ensures
        r@ == pipeline_text(GITHUB_HEAD@, min_runs, confidence@, GITHUB_TAIL@),
{
    pipeline(GITHUB_HEAD, min_runs, confidence, GITHUB_TAIL)
}

/// The GitLab CI job: on schedules and manual runs, install the tools, run
/// detection with the configured run count and confidence, then export
/// the JUnit report as an artifact.
pub fn generate_gitlab_ci(min_runs: u32, confidence: &str) -> (r: String)
    ensures
        r@ == pipeline_text(GITLAB_HEAD@, min_runs, confidence@, GITLAB_TAIL@),
{
    pipeline(GITLAB_HEAD, min_runs, confidence, GITLAB_TAIL)
}

} // verus!
