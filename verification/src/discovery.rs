//! Choosing which of the discovered tests a command runs.
use vstd::prelude::*;
use crate::error::NinetyNineError;
use crate::filter::{compile_filter, compile_spec};
use crate::filter::ast::{shape, SpecExpr};
use crate::filter::eval::{eval, eval_spec, name_set, EvalContext, EvalEnv, TestMetadata};
use crate::runner::listing::TestCase;

verus! {

/// What a filter sees of a discovered test.
pub open spec fn case_env(tc: TestCase, ctx: EvalContext) -> EvalEnv {
    EvalEnv {
        name: tc.name@,
        package: tc.package_name@,
        binary: tc.binary_name@,
        kind: tc.binary_kind,
        flaky: name_set(ctx.flaky_tests@),
        quarantined: name_set(ctx.quarantined_tests@),
    }
}

/// The tests of `s` the expression holds for, in order.
pub open spec fn matching_cases(s: Seq<TestCase>, e: SpecExpr, ctx: EvalContext) -> Seq<TestCase>
    decreases s.len(),
{
    if s.len() == 0 {
        seq![]
    } else if eval_spec(e, case_env(s.last(), ctx)) {
        matching_cases(s.drop_last(), e, ctx).push(s.last())
    } else {
        matching_cases(s.drop_last(), e, ctx)
    }
}

/// The tests a compiled filter keeps, in discovery order.
pub fn filter_tests(
    tests: &Vec<TestCase>,
    expr: &crate::filter::ast::FilterExpr,
    ctx: &EvalContext,
) -> (r: Vec<TestCase>)
    ensures
        r@ == matching_cases(tests@, shape(*expr), *ctx),
{
    let mut out: Vec<TestCase> = Vec::new();
    let mut i: usize = 0;
    while i < tests.len()
        invariant
            i <= tests@.len(),
            out@ == matching_cases(tests@.take(i as int), shape(*expr), *ctx),
        decreases tests@.len() - i,
    {
        let tc = &tests[i];
        let meta = TestMetadata {
            name: tc.name.as_str(),
            package_name: tc.package_name.as_str(),
            binary_name: tc.binary_name.as_str(),
            kind: &tc.binary_kind,
        };
        let keep = eval(expr, &meta, ctx);
        proof {
            let t = tests@.take(i + 1);
            assert(t.drop_last() =~= tests@.take(i as int));
            assert(t.last() == tests@[i as int]);
        }
        if keep {
            out.push(tc.clone());
        }
        i += 1;
    }
    assert(tests@.take(tests@.len() as int) =~= tests@);
    out
}

/// The tests a command runs: none when nothing was discovered; with a
/// filter, the ones it keeps (a filter that does not compile is an
/// error); `None` when nothing is left.
pub fn select_tests(tests: Vec<TestCase>, filter_expr: Option<&str>, ctx: &EvalContext) -> (r:
    Result<Option<Vec<TestCase>>, NinetyNineError>)
    ensures
        tests@.len() == 0 ==> r == Ok::<Option<Vec<TestCase>>, NinetyNineError>(None),
        tests@.len() > 0 && filter_expr is None ==> r == Ok::<Option<Vec<TestCase>>, NinetyNineError>(Some(tests)),
        tests@.len() > 0 && filter_expr is Some ==> match compile_spec(filter_expr.unwrap()@) {
            None => r matches Err(e) && e is FilterParse,
            Some(e) => {
                let kept = matching_cases(tests@, e, *ctx);
                &&& r is Ok
                &&& (kept.len() == 0 <==> r.unwrap() is None)
                &&& r.unwrap() matches Some(v) ==> v@ == kept
            },
        },
{
    if tests.len() == 0 {
        return Ok(None);
    }
    match filter_expr {
        None => Ok(Some(tests)),
        Some(text) => {
            let expr = compile_filter(text)?;
            let kept = filter_tests(&tests, &expr, ctx);
            if kept.len() == 0 {
                Ok(None)
            } else {
                Ok(Some(kept))
            }
        },
    }
}

} // verus!
