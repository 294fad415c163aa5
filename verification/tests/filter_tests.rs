use ninety_nine::discovery::{filter_tests, select_tests};
use ninety_nine::error::NinetyNineError;
use ninety_nine::filter::compile_filter;
use ninety_nine::filter::eval::{eval, EvalContext, TestMetadata};
use ninety_nine::runner::binary::BinaryKind;
use ninety_nine::runner::listing::{TestCase, TestKind};
use ninety_nine::types::TestName;

fn ctx() -> EvalContext {
    EvalContext {
        flaky_tests: vec!["mod::flaky".to_string()],
        quarantined_tests: vec!["mod::held".to_string()],
    }
}

fn holds(filter: &str, name: &str) -> bool {
    let expr = compile_filter(filter).unwrap();
    let kind = BinaryKind::Test;
    let meta = TestMetadata { name, package_name: "my-pkg", binary_name: "integration", kind: &kind };
    eval(&expr, &meta, &ctx())
}

#[test]
fn compile_filter_produces_expected_variant() {
    let expr = compile_filter("my_test").unwrap();
    assert!(format!("{expr:?}").starts_with("Predicate(Test"));
    let expr = compile_filter("flaky & !quarantined | test(foo)").unwrap();
    assert!(format!("{expr:?}").starts_with("Or("));
}

#[test]
fn filters_select_by_name_status_and_place() {
    assert!(holds("flaky", "mod::flaky"));
    assert!(!holds("flaky", "mod::other"));
    assert!(holds("!quarantined", "mod::flaky"));
    assert!(!holds("quarantined", "mod::flaky"));
    assert!(holds("test(fla)", "mod::flaky"));
    assert!(holds("package(pkg) & binary(integ)", "x"));
    assert!(!holds("package(other)", "x"));
    assert!(holds("kind(test)", "x"));
    assert!(holds("all", "x"));
    assert!(holds("!!flaky", "mod::flaky"));
}

#[test]
fn bad_filters_are_parse_errors() {
    for bad in ["", "(", "flaky &", "test(", "&&", "kind(nope)"] {
        match compile_filter(bad) {
            Err(NinetyNineError::FilterParse { .. }) => {}
            other => panic!("{bad:?} gave {other:?}"),
        }
    }
}

fn case(name: &str) -> TestCase {
    TestCase {
        name: TestName::from(name),
        binary_path: "/tmp/bin".into(),
        binary_name: "integration".into(),
        package_name: "my-pkg".into(),
        binary_kind: BinaryKind::Test,
        kind: TestKind::Test,
    }
}

#[test]
fn selecting_tests_with_a_filter() {
    let tests = vec![case("mod::flaky"), case("mod::held"), case("mod::ok")];
    let expr = compile_filter("!quarantined").unwrap();
    let kept = filter_tests(&tests, &expr, &ctx());
    let names: Vec<&str> = kept.iter().map(|t| t.name.as_str()).collect();
    assert_eq!(names, vec!["mod::flaky", "mod::ok"]);

    assert!(select_tests(Vec::new(), None, &ctx()).unwrap().is_none());
    assert_eq!(select_tests(tests.clone(), None, &ctx()).unwrap().unwrap().len(), 3);
    assert_eq!(select_tests(tests.clone(), Some("flaky"), &ctx()).unwrap().unwrap().len(), 1);
    assert!(select_tests(tests.clone(), Some("test(nothing)"), &ctx()).unwrap().is_none());
    assert!(matches!(select_tests(tests, Some("(("), &ctx()), Err(NinetyNineError::FilterParse { .. })));
}

#[test]
fn parses_expressions() {
    let cases = [
        ("test(foo)", true),
        ("flaky", true),
        ("quarantined", true),
        ("all", true),
        ("!flaky", true),
        ("!!flaky", true),
        ("flaky & quarantined", true),
        ("flaky | quarantined", true),
        ("(flaky)", true),
        ("test(x) & !quarantined", true),
        ("package(my_crate)", true),
        ("kind(test)", true),
        ("kind(lib)", true),
        ("my_test", true),
        ("", false),
        ("kind(invalid)", false),
        ("unknown_func(arg)", false),
        ("test([invalid)", false),
    ];
    for (input, expected_ok) in cases {
        assert_eq!(compile_filter(input).is_ok(), expected_ok, "input: {input}");
    }
}

fn parse_message(input: &str) -> String {
    match compile_filter(input) {
        Err(NinetyNineError::FilterParse { message }) => message,
        other => panic!("expected a parse error for {input:?}, got {other:?}"),
    }
}

#[test]
fn parse_errors_name_what_went_wrong() {
    assert_eq!(parse_message(""), "empty filter expression");
    assert_eq!(parse_message("a b"), "unexpected trailing tokens at position 1");
    assert_eq!(parse_message("(a"), "expected RParen, found end of input");
    assert_eq!(parse_message("(a b"), "expected RParen, found Ident(\"b\")");
    assert_eq!(parse_message("(a \"q\\"), "expected RParen, found Ident(\"\\\"q\\\\\")");
    assert_eq!(parse_message("test(a b"), "expected RParen, found Ident(\"b\")");
}
