use ninety_nine::ci::{generate_github_actions, generate_gitlab_ci};
use ninety_nine::report::{
    csv_escape, html_escape, result_counter, result_label, result_line, truncate_name, xml_escape,
};
use ninety_nine::suite::{passed_count, SuiteTally};
use ninety_nine::types::TestOutcome;

#[test]
fn truncates_correctly() {
    assert_eq!(truncate_name("short", 10), "short");
    assert_eq!(truncate_name("exactly_ten", 11), "exactly_ten");
    assert_eq!(truncate_name("this_is_a_very_long_test_name", 10), "this_is...");
}

#[test]
fn never_exceeds_max_length() {
    let long = "x".repeat(150);
    let names = ["", "a", "abcdefghij", "ünïcödé_tèst_nämé_with_many_chars", "日本語のテスト名前です", long.as_str()];
    for name in names {
        for max_len in [4usize, 5, 7, 10, 33, 99] {
            let result = truncate_name(name, max_len);
            assert!(result.len() <= max_len, "{name:?} {max_len} -> {result:?}");
        }
    }
}

#[test]
fn truncation_keeps_whole_characters() {
    assert_eq!(truncate_name("ééééé", 7), "éé...");
    assert_eq!(truncate_name("abcdef", 2), "...");
}

fn strip_entities(s: &str) -> String {
    s.replace("&amp;", "")
        .replace("&lt;", "")
        .replace("&gt;", "")
        .replace("&quot;", "")
        .replace("&apos;", "")
}

#[test]
fn xml_escape_never_contains_raw_special_chars() {
    for s in ["", "plain", "a<b>&c", "\"quoted\" 'single'", "&amp; already", "<<&&>>"] {
        let escaped = xml_escape(s);
        let without_entities = strip_entities(&escaped);
        assert!(!without_entities.contains('&'));
        assert!(!without_entities.contains('<'));
        assert!(!without_entities.contains('>'));
    }
    assert_eq!(xml_escape("a<b & 'c'"), "a&lt;b &amp; &apos;c&apos;");
}

#[test]
fn html_escape_keeps_apostrophes() {
    assert_eq!(html_escape("<i>\"x\" & 'y'</i>"), "&lt;i&gt;&quot;x&quot; &amp; 'y'&lt;/i&gt;");
}

#[test]
fn csv_escape_roundtrip_preserves_content() {
    for s in ["", "plain_name", "a,b", "say \"hi\"", "line\nbreak", "\"", "mod::t, \"x\"\n"] {
        let escaped = csv_escape(s);
        if escaped.starts_with('"') {
            let inner = &escaped[1..escaped.len() - 1];
            let unescaped = inner.replace("\"\"", "\"");
            assert_eq!(s, unescaped);
        } else {
            assert_eq!(s, escaped);
        }
    }
    assert_eq!(csv_escape("a,\"b\""), "\"a,\"\"b\"\"\"");
}

#[test]
fn result_labels() {
    assert_eq!(result_label(10, 10), "PASS");
    assert_eq!(result_label(0, 10), "FAIL");
    assert_eq!(result_label(3, 10), "FLAKY");
    assert_eq!(result_label(0, 0), "PASS");
}

#[test]
fn suite_tally_counts_each_test_once() {
    let mut t = SuiteTally::new();
    t.record(10, 10);
    t.record(0, 10);
    t.record(4, 10);
    t.record(10, 10);
    assert_eq!(t, SuiteTally { pass_count: 2, flaky_count: 1, fail_count: 1, completed: 4 });
    let outcomes = vec![TestOutcome::Passed, TestOutcome::Failed, TestOutcome::Passed, TestOutcome::Ignored];
    assert_eq!(passed_count(&outcomes), 2);
    assert_eq!(passed_count(&Vec::new()), 0);
}

#[test]
fn github_actions_default_config_contains() {
    let yaml = generate_github_actions(10, "0.95");
    for expected in [
        "name: Flaky Test Detection",
        "cargo install cargo-ninety-nine",
        "cargo ninety-nine test",
        "actions/upload-artifact",
        "continue-on-error: true",
    ] {
        assert!(yaml.contains(expected), "missing: {expected}");
    }
    assert!(yaml.contains("run: cargo ninety-nine test -n 10 --confidence 0.95\n"));
}

#[test]
fn gitlab_ci_uses_config_values() {
    let yaml = generate_gitlab_ci(25, "0.9");
    assert!(yaml.starts_with("flaky-test-detection:\n"));
    assert!(yaml.contains("    - cargo ninety-nine test -n 25 --confidence 0.9\n"));
    assert!(yaml.contains("junit: flaky-results.xml"));
    assert!(yaml.contains("allow_failure: true"));
}

use ninety_nine::export::{html_report, junit_report, HtmlRow, JunitRow};
use ninety_nine::types::FlakinessCategory;

#[test]
fn junit_report_flags_failures_and_escapes_names() {
    let rows = vec![
        JunitRow {
            test_name: "a<b".to_string(),
            flagged: true,
            p_flaky: "25.0".to_string(),
            pass_rate: "75.0".to_string(),
            total_runs: 20,
            consecutive_failures: 3,
            category: FlakinessCategory::Frequent,
        },
        JunitRow {
            test_name: "ok".to_string(),
            flagged: false,
            p_flaky: "0.1".to_string(),
            pass_rate: "100.0".to_string(),
            total_runs: 10,
            consecutive_failures: 0,
            category: FlakinessCategory::Stable,
        },
    ];
    let expected = "<?xml version=\"1.0\" encoding=\"UTF-8\"?>\n\
<testsuites name=\"flaky-test-detection\" tests=\"2\" failures=\"1\">\n  <testsuite name=\"flakiness\" tests=\"2\">\n    \
<testcase name=\"a&lt;b\" time=\"0\">\n      <failure message=\"flaky: 25.0% probability, category: Frequent\">\n\
pass_rate=75.0% total_runs=20 consecutive_failures=3\n      </failure>\n    </testcase>\n    \
<testcase name=\"ok\" time=\"0\" />\n  </testsuite>\n</testsuites>\n";
    assert_eq!(junit_report(&rows), expected);
    assert_eq!(
        junit_report(&Vec::new()),
        "<?xml version=\"1.0\" encoding=\"UTF-8\"?>\n<testsuites name=\"flaky-test-detection\" tests=\"0\" failures=\"0\">\n  <testsuite name=\"flakiness\" tests=\"0\">\n  </testsuite>\n</testsuites>\n"
    );
}

#[test]
fn html_report_lists_rows_with_category_classes() {
    let rows = vec![HtmlRow {
        test_name: "t&\"x\"".to_string(),
        p_flaky: "12.5".to_string(),
        pass_rate: "87.5".to_string(),
        total_runs: 8,
        consecutive_failures: 1,
        category: FlakinessCategory::Moderate,
    }];
    let html = html_report(&rows, 1);
    assert!(html.starts_with("<!DOCTYPE html>\n<html lang=\"en\"><head>\n"));
    assert!(html.contains("<p><strong>1</strong> tests analyzed, <strong>1</strong> flagged as flaky.</p>\n"));
    assert!(html.contains(
        "<tr>\n  <td><code>t&amp;&quot;x&quot;</code></td>\n  <td>12.5%</td>\n  <td>87.5%</td>\n  <td>8</td>\n  <td>1</td>\n  <td><span class=\"moderate\">Moderate</span></td>\n</tr>\n"
    ));
    assert!(html.ends_with("</tbody></table>\n<footer><p>Generated by <em>cargo ninety-nine</em></p></footer>\n</body></html>\n"));
}

#[test]
fn result_lines_align_their_brackets() {
    let counter = result_counter(3, 12);
    assert_eq!(counter, "[3/12]");
    assert_eq!(
        result_line(&counter, "PASS", 10, 10, "1.25", "tests::a"),
        "[3/12]  PASS [10/10] [1.25s] tests::a"
    );
    assert_eq!(
        result_line(&counter, "FAIL", 0, 10, "0.50", "tests::b"),
        "[3/12]  FAIL [0/10] [0.50s] tests::b"
    );
    assert_eq!(
        result_line(&counter, "FLAKY", 4, 10, "2.00", "tests::c"),
        "[3/12] FLAKY [4/10] [2.00s] tests::c"
    );
}
