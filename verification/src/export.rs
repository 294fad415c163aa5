//! The exported report documents: JUnit XML and HTML. Percentages come in
//! as the text they are shown with; names are escaped here.
use vstd::prelude::*;

use crate::report::{expand, html_char, html_escape, xml_char, xml_escape};
use crate::text::{decimal, decimal_of, extend_chars, extend_str, string_of};
use crate::types::{category_text, FlakinessCategory};

verus! {

/// The CSS class of a category: its label in lower case.
pub open spec fn category_class(c: FlakinessCategory) -> Seq<char> {
    match c {
        FlakinessCategory::Stable => seq!['s', 't', 'a', 'b', 'l', 'e'],
        FlakinessCategory::Occasional => seq!['o', 'c', 'c', 'a', 's', 'i', 'o', 'n', 'a', 'l'],
        FlakinessCategory::Moderate => seq!['m', 'o', 'd', 'e', 'r', 'a', 't', 'e'],
        FlakinessCategory::Frequent => seq!['f', 'r', 'e', 'q', 'u', 'e', 'n', 't'],
        FlakinessCategory::Critical => seq!['c', 'r', 'i', 't', 'i', 'c', 'a', 'l'],
    }
}

fn category_class_text(c: FlakinessCategory) -> (r: &'static str)
    ensures
        r@ == category_class(c),
{
    match c {
        FlakinessCategory::Stable => {
            proof {
                reveal_strlit("stable");
            }
            "stable"
        },
        FlakinessCategory::Occasional => {
            proof {
                reveal_strlit("occasional");
            }
            "occasional"
        },
        FlakinessCategory::Moderate => {
            proof {
                reveal_strlit("moderate");
            }
            "moderate"
        },
        FlakinessCategory::Frequent => {
            proof {
                reveal_strlit("frequent");
            }
            "frequent"
        },
        FlakinessCategory::Critical => {
            proof {
                reveal_strlit("critical");
            }
            "critical"
        },
    }
}

/// One test in the HTML report; the two percentages are the text shown
/// before the `%` sign.
pub struct HtmlRow {
    pub test_name: String,
    pub p_flaky: String,
    pub pass_rate: String,
    pub total_runs: u64,
    pub consecutive_failures: u32,
    pub category: FlakinessCategory,
}

/// The table row of one test: escaped name, percentages, counts, and the
/// category labelled and classed by its lower-case name.
pub open spec fn html_row_text(row: HtmlRow) -> Seq<char> {
    "<tr>\n  <td><code>"@ + expand(row.test_name@, |c: char| html_char(c)) + "</code></td>\n  <td>"@
        + row.p_flaky@ + "%</td>\n  <td>"@ + row.pass_rate@ + "%</td>\n  <td>"@ + decimal(
        row.total_runs as nat,
    ) + "</td>\n  <td>"@ + decimal(row.consecutive_failures as nat) + "</td>\n  <td><span class=\""@
        + category_class(row.category) + "\">"@ + category_text(row.category) + "</span></td>\n</tr>\n"@
}

/// The rows of the HTML table, in order.
pub open spec fn html_rows_text(rows: Seq<HtmlRow>) -> Seq<char>
    decreases rows.len(),
{
    if rows.len() == 0 {
        Seq::empty()
    } else {
        html_rows_text(rows.drop_last()) + html_row_text(rows.last())
    }
}

/// The fixed head of the HTML report: document, styles and title, up to
/// the summary's first number.
pub open spec fn html_head() -> Seq<char> {
    "<!DOCTYPE html>\n<html lang=\"en\"><head>\n<meta charset=\"UTF-8\">\n<title>Flaky Test Report — cargo ninety-nine</title>\n<style>\nbody { font-family: system-ui, sans-serif; margin: 2rem; background: #fafafa; }\nh1 { color: #333; } table { border-collapse: collapse; width: 100%; }\nth, td { border: 1px solid #ddd; padding: 8px; text-align: left; }\nth { background: #4a90d9; color: white; }\ntr:nth-child(even) { background: #f2f2f2; }\n.stable { color: #27ae60; } .occasional { color: #f39c12; }\n.moderate { color: #e74c3c; } .frequent { color: #c0392b; font-weight: bold; }\n.critical { color: white; background: #c0392b; padding: 2px 6px; border-radius: 3px; }\n</style></head><body>\n<h1>Flaky Test Detection Report</h1>\n<p><strong>"@
}

/// The HTML report: the head, the summary of how many tests were analysed
/// and how many flagged, the table with one row per test, and the footer.
pub open spec fn html_report_text(rows: Seq<HtmlRow>, flagged: usize) -> Seq<char> {
    html_head() + decimal(rows.len()) + "</strong> tests analyzed, <strong>"@ + decimal(flagged as nat)
        + "</strong> flagged as flaky.</p>\n<table><thead><tr>\n<th>Test</th><th>P(flaky)</th><th>Pass Rate</th><th>Runs</th><th>Consec. Fails</th><th>Category</th>\n</tr></thead><tbody>\n"@
        + html_rows_text(rows)
        + "</tbody></table>\n<footer><p>Generated by <em>cargo ninety-nine</em></p></footer>\n</body></html>\n"@
}

fn push_html_row(out: &mut Vec<char>, row: &HtmlRow)
    ensures
        final(out)@ == old(out)@ + html_row_text(*row),
{
    extend_str(out, "<tr>\n  <td><code>");
    let name = html_escape(row.test_name.as_str());
    extend_str(out, name.as_str());
    extend_str(out, "</code></td>\n  <td>");
    extend_str(out, row.p_flaky.as_str());
    extend_str(out, "%</td>\n  <td>");
    extend_str(out, row.pass_rate.as_str());
    extend_str(out, "%</td>\n  <td>");
    let runs = decimal_of(row.total_runs);
    extend_chars(out, &runs);
    extend_str(out, "</td>\n  <td>");
    let fails = decimal_of(row.consecutive_failures as u64);
    extend_chars(out, &fails);
    extend_str(out, "</td>\n  <td><span class=\"");
    extend_str(out, category_class_text(row.category));
    extend_str(out, "\">");
    extend_str(out, row.category.label());
    extend_str(out, "</span></td>\n</tr>\n");
    assert(final(out)@ =~= old(out)@ + html_row_text(*row));
}

/// The HTML report of the rows, `flagged` of which are reported as flaky.
pub fn html_report(rows: &Vec<HtmlRow>, flagged: usize) -> (r: String)
    ensures
        r@ == html_report_text(rows@, flagged),
{
    let mut out: Vec<char> = Vec::new();
    extend_str(&mut out, "<!DOCTYPE html>\n<html lang=\"en\"><head>\n<meta charset=\"UTF-8\">\n<title>Flaky Test Report — cargo ninety-nine</title>\n<style>\nbody { font-family: system-ui, sans-serif; margin: 2rem; background: #fafafa; }\nh1 { color: #333; } table { border-collapse: collapse; width: 100%; }\nth, td { border: 1px solid #ddd; padding: 8px; text-align: left; }\nth { background: #4a90d9; color: white; }\ntr:nth-child(even) { background: #f2f2f2; }\n.stable { color: #27ae60; } .occasional { color: #f39c12; }\n.moderate { color: #e74c3c; } .frequent { color: #c0392b; font-weight: bold; }\n.critical { color: white; background: #c0392b; padding: 2px 6px; border-radius: 3px; }\n</style></head><body>\n<h1>Flaky Test Detection Report</h1>\n<p><strong>");
    let total = decimal_of(rows.len() as u64);
    extend_chars(&mut out, &total);
    extend_str(&mut out, "</strong> tests analyzed, <strong>");
    let flagged_text = decimal_of(flagged as u64);
    extend_chars(&mut out, &flagged_text);
    extend_str(&mut out, "</strong> flagged as flaky.</p>\n<table><thead><tr>\n<th>Test</th><th>P(flaky)</th><th>Pass Rate</th><th>Runs</th><th>Consec. Fails</th><th>Category</th>\n</tr></thead><tbody>\n");
    let ghost head = out@;
    let mut i: usize = 0;
    while i < rows.len()
        invariant
            i <= rows@.len(),
            out@ == head + html_rows_text(rows@.take(i as int)),
        decreases rows@.len() - i,
    {
        push_html_row(&mut out, &rows[i]);
        proof {
            let t = rows@.take(i + 1);
            assert(t.drop_last() =~= rows@.take(i as int));
            assert(t.last() == rows@[i as int]);
            assert(out@ =~= head + html_rows_text(t));
        }
        i += 1;
    }
    assert(rows@.take(rows@.len() as int) =~= rows@);
    extend_str(&mut out, "</tbody></table>\n<footer><p>Generated by <em>cargo ninety-nine</em></p></footer>\n</body></html>\n");
    assert(out@ =~= html_report_text(rows@, flagged));
    string_of(&out)
}

/// One test in the JUnit report: whether it is reported as a failure, and
/// the percentages as the text shown before the `%` sign.
pub struct JunitRow {
    pub test_name: String,
    pub flagged: bool,
    pub p_flaky: String,
    pub pass_rate: String,
    pub total_runs: u64,
    pub consecutive_failures: u32,
    pub category: FlakinessCategory,
}

/// How many rows are reported as failures.
pub open spec fn flagged_count(rows: Seq<JunitRow>) -> nat
    decreases rows.len(),
{
    if rows.len() == 0 {
        0
    } else {
        flagged_count(rows.drop_last()) + if rows.last().flagged { 1nat } else { 0nat }
    }
}

/// The test case of one test: with a failure that gives the probability,
/// category, pass rate and counts when it is flagged; empty otherwise.
pub open spec fn junit_case_text(row: JunitRow) -> Seq<char> {
    if row.flagged {
        "    <testcase name=\""@ + expand(row.test_name@, |c: char| xml_char(c)) + "\" time=\"0\">\n      <failure message=\"flaky: "@
            + row.p_flaky@ + "% probability, category: "@ + category_text(row.category) + "\">\npass_rate="@
            + row.pass_rate@ + "% total_runs="@ + decimal(row.total_runs as nat) + " consecutive_failures="@
            + decimal(row.consecutive_failures as nat) + "\n      </failure>\n    </testcase>\n"@
    } else {
        "    <testcase name=\""@ + expand(row.test_name@, |c: char| xml_char(c)) + "\" time=\"0\" />\n"@
    }
}

/// The test cases, in order.
pub open spec fn junit_cases_text(rows: Seq<JunitRow>) -> Seq<char>
    decreases rows.len(),
{
    if rows.len() == 0 {
        Seq::empty()
    } else {
        junit_cases_text(rows.drop_last()) + junit_case_text(rows.last())
    }
}

/// The JUnit report: one suite holding every test, the flagged ones as
/// failures.
pub open spec fn junit_text(rows: Seq<JunitRow>) -> Seq<char> {
    "<?xml version=\"1.0\" encoding=\"UTF-8\"?>\n<testsuites name=\"flaky-test-detection\" tests=\""@
        + decimal(rows.len()) + "\" failures=\""@ + decimal(flagged_count(rows))
        + "\">\n  <testsuite name=\"flakiness\" tests=\""@ + decimal(rows.len()) + "\">\n"@
        + junit_cases_text(rows) + "  </testsuite>\n</testsuites>\n"@
}

fn push_junit_case(out: &mut Vec<char>, row: &JunitRow)
    ensures
        final(out)@ == old(out)@ + junit_case_text(*row),
{
    extend_str(out, "    <testcase name=\"");
    let name = xml_escape(row.test_name.as_str());
    extend_str(out, name.as_str());
    if row.flagged {
        extend_str(out, "\" time=\"0\">\n      <failure message=\"flaky: ");
        extend_str(out, row.p_flaky.as_str());
        extend_str(out, "% probability, category: ");
        extend_str(out, row.category.label());
        extend_str(out, "\">\npass_rate=");
        extend_str(out, row.pass_rate.as_str());
        extend_str(out, "% total_runs=");
        let runs = decimal_of(row.total_runs);
        extend_chars(out, &runs);
        extend_str(out, " consecutive_failures=");
        let fails = decimal_of(row.consecutive_failures as u64);
        extend_chars(out, &fails);
        extend_str(out, "\n      </failure>\n    </testcase>\n");
    } else {
        extend_str(out, "\" time=\"0\" />\n");
    }
    assert(final(out)@ =~= old(out)@ + junit_case_text(*row));
}

/// The JUnit XML report of the rows.
pub fn junit_report(rows: &Vec<JunitRow>) -> (r: String)
    ensures
        r@ == junit_text(rows@),
{
    let mut flagged: u64 = 0;
    let mut k: usize = 0;
    assert(rows@.take(0) =~= Seq::<JunitRow>::empty());
    while k < rows.len()
        invariant
            k <= rows@.len(),
            flagged == flagged_count(rows@.take(k as int)),
            flagged <= k,
        decreases rows@.len() - k,
    {
        proof {
            let t = rows@.take(k + 1);
            assert(t.drop_last() =~= rows@.take(k as int));
            assert(t.last() == rows@[k as int]);
        }
        if rows[k].flagged {
            flagged = flagged + 1;
        }
        k += 1;
    }
    assert(rows@.take(rows@.len() as int) =~= rows@);
    let mut out: Vec<char> = Vec::new();
    extend_str(&mut out, "<?xml version=\"1.0\" encoding=\"UTF-8\"?>\n<testsuites name=\"flaky-test-detection\" tests=\"");
    let total = decimal_of(rows.len() as u64);
    extend_chars(&mut out, &total);
    extend_str(&mut out, "\" failures=\"");
    let failures = decimal_of(flagged);
    extend_chars(&mut out, &failures);
    extend_str(&mut out, "\">\n  <testsuite name=\"flakiness\" tests=\"");
    extend_chars(&mut out, &total);
    extend_str(&mut out, "\">\n");
    let ghost head = out@;
    let mut i: usize = 0;
    while i < rows.len()
        invariant
            i <= rows@.len(),
            out@ == head + junit_cases_text(rows@.take(i as int)),
        decreases rows@.len() - i,
    {
        push_junit_case(&mut out, &rows[i]);
        proof {
            let t = rows@.take(i + 1);
            assert(t.drop_last() =~= rows@.take(i as int));
            assert(t.last() == rows@[i as int]);
            assert(out@ =~= head + junit_cases_text(t));
        }
        i += 1;
    }
    extend_str(&mut out, "  </testsuite>\n</testsuites>\n");
    assert(out@ =~= junit_text(rows@));
    string_of(&out)
}

} // verus!
