//! Evaluation of filter expressions against test metadata.
use vstd::prelude::*;

use crate::filter::ast::{pattern_is_match, regex_is_match, shape, shapes, FilterExpr, Predicate,
    SpecExpr, SpecPredicate};
use crate::runner::binary::BinaryKind;
use crate::text::{chars_of, contains, contains_text};
use crate::types::str_equal;

verus! {

/// What a filter sees of one test.
pub struct TestMetadata<'a> {
    pub name: &'a str,
    pub package_name: &'a str,
    pub binary_name: &'a str,
    pub kind: &'a BinaryKind,
}

/// The names of flaky and of quarantined tests.
pub struct EvalContext {
    pub flaky_tests: Vec<String>,
    pub quarantined_tests: Vec<String>,
}

/// The set of texts held by a list of strings.
pub open spec fn name_set(v: Seq<String>) -> Set<Seq<char>> {
    Set::new(|n: Seq<char>| exists|i: int| 0 <= i < v.len() && #[trigger] v[i]@ == n)
}

/// Everything a filter expression is evaluated against.
pub struct EvalEnv {
    pub name: Seq<char>,
    pub package: Seq<char>,
    pub binary: Seq<char>,
    pub kind: BinaryKind,
    pub flaky: Set<Seq<char>>,
    pub quarantined: Set<Seq<char>>,
}

/// The environment of a test and a context.
pub open spec fn env_of(test: TestMetadata, ctx: EvalContext) -> EvalEnv {
    EvalEnv {
        name: test.name@,
        package: test.package_name@,
        binary: test.binary_name@,
        kind: *test.kind,
        flaky: name_set(ctx.flaky_tests@),
        quarantined: name_set(ctx.quarantined_tests@),
    }
}

/// Whether a predicate holds: a pattern matches somewhere in the name,
/// package and binary are substrings, kinds are equal, and flaky /
/// quarantined are membership in the context's sets.
pub open spec fn eval_pred(p: SpecPredicate, env: EvalEnv) -> bool {
    match p {
        SpecPredicate::Test(pat) => regex_is_match(pat, env.name),
        SpecPredicate::Package(s) => contains_text(env.package, s),
        SpecPredicate::Binary(s) => contains_text(env.binary, s),
        SpecPredicate::Kind(k) => env.kind == k,
        SpecPredicate::Flaky => env.flaky.contains(env.name),
        SpecPredicate::Quarantined => env.quarantined.contains(env.name),
        SpecPredicate::All => true,
    }
}

/// Whether an expression holds: `And` of all its items, `Or` of any.
pub open spec fn eval_spec(e: SpecExpr, env: EvalEnv) -> bool
    decreases e,
{
    match e {
        SpecExpr::And(v) => all_spec(v, env),
        SpecExpr::Or(v) => any_spec(v, env),
        SpecExpr::Not(b) => !eval_spec(*b, env),
        SpecExpr::Pred(p) => eval_pred(p, env),
    }
}

/// Every expression of `s` holds.
pub open spec fn all_spec(s: Seq<SpecExpr>, env: EvalEnv) -> bool
    decreases s,
{
    if s.len() == 0 {
        true
    } else {
        eval_spec(s[0], env) && all_spec(s.subrange(1, s.len() as int), env)
    }
}

/// Some expression of `s` holds.
pub open spec fn any_spec(s: Seq<SpecExpr>, env: EvalEnv) -> bool
    decreases s,
{
    if s.len() == 0 {
        false
    } else {
        eval_spec(s[0], env) || any_spec(s.subrange(1, s.len() as int), env)
    }
}

/// Whether `name` is one of the listed names.
pub(crate) fn listed(names: &Vec<String>, name: &str) -> (r: bool)
    ensures
        r == name_set(names@).contains(name@),
{
    let mut i: usize = 0;
    while i < names.len()
        invariant
            i <= names.len(),
            forall|j: int| 0 <= j < i ==> names@[j]@ != name@,
        decreases names.len() - i,
    {
        if str_equal(names[i].as_str(), name) {
            assert(names@[i as int]@ == name@);
            return true;
        }
        i += 1;
    }
    false
}

proof fn lemma_shapes_step(items: Seq<FilterExpr>, i: int)
    requires
        0 <= i < items.len(),
    ensures
        shapes(items.subrange(i, items.len() as int)).len() > 0,
        shapes(items.subrange(i, items.len() as int))[0] == shape(items[i]),
        shapes(items.subrange(i, items.len() as int)).subrange(
            1,
            shapes(items.subrange(i, items.len() as int)).len() as int,
        ) == shapes(items.subrange(i + 1, items.len() as int)),
{
    let x = items.subrange(i, items.len() as int);
    assert(x.subrange(1, x.len() as int) =~= items.subrange(i + 1, items.len() as int));
    let sx = shapes(x);
    assert(sx == seq![shape(x[0])] + shapes(x.subrange(1, x.len() as int)));
    assert(sx.subrange(1, sx.len() as int) =~= shapes(x.subrange(1, x.len() as int)));
}

proof fn lemma_shapes_empty(items: Seq<FilterExpr>)
    ensures
        shapes(items.subrange(items.len() as int, items.len() as int)) =~= Seq::<SpecExpr>::empty(),
{
    assert(items.subrange(items.len() as int, items.len() as int) =~= Seq::<FilterExpr>::empty());
}

/// Evaluates a filter expression against test metadata.
pub fn eval(expr: &FilterExpr, test: &TestMetadata, ctx: &EvalContext) -> (r: bool)
    ensures
        r == eval_spec(shape(*expr), env_of(*test, *ctx)),
    decreases expr,
{
    let ghost env = env_of(*test, *ctx);
    match expr {
        FilterExpr::And(items) => {
            let mut i: usize = 0;
            assert(items@.subrange(0, items@.len() as int) =~= items@);
            while i < items.len()
                invariant
                    i <= items.len(),
                    *expr == FilterExpr::And(*items),
                    env == env_of(*test, *ctx),
                    all_spec(shapes(items@), env) == all_spec(
                        shapes(items@.subrange(i as int, items@.len() as int)),
                        env,
                    ),
                decreases items.len() - i,
            {
                proof {
                    lemma_shapes_step(items@, i as int);
                    assert(decreases_to!(*expr => items@[i as int]));
                }
                if !eval(&items[i], test, ctx) {
                    return false;
                }
                i += 1;
            }
            proof {
                lemma_shapes_empty(items@);
            }
            true
        },
        FilterExpr::Or(items) => {
            let mut i: usize = 0;
            assert(items@.subrange(0, items@.len() as int) =~= items@);
            while i < items.len()
                invariant
                    i <= items.len(),
                    *expr == FilterExpr::Or(*items),
                    env == env_of(*test, *ctx),
                    any_spec(shapes(items@), env) == any_spec(
                        shapes(items@.subrange(i as int, items@.len() as int)),
                        env,
                    ),
                decreases items.len() - i,
            {
                proof {
                    lemma_shapes_step(items@, i as int);
                    assert(decreases_to!(*expr => items@[i as int]));
                }
                if eval(&items[i], test, ctx) {
                    return true;
                }
                i += 1;
            }
            proof {
                lemma_shapes_empty(items@);
            }
            false
        },
        FilterExpr::Not(inner) => !eval(inner, test, ctx),
        FilterExpr::Predicate(pred) => eval_predicate(pred, test, ctx),
    }
}

fn eval_predicate(pred: &Predicate, test: &TestMetadata, ctx: &EvalContext) -> (r: bool)
    ensures
        r == eval_pred(crate::filter::ast::pred_shape(*pred), env_of(*test, *ctx)),
{
    match pred {
        Predicate::Test(p) => pattern_is_match(p, test.name),
        Predicate::Package(name) => {
            let hay = chars_of(test.package_name);
            let pat = chars_of(name.as_str());
            contains(&hay, &pat)
        },
        Predicate::Binary(name) => {
            let hay = chars_of(test.binary_name);
            let pat = chars_of(name.as_str());
            contains(&hay, &pat)
        },
        Predicate::Kind(kind) => *test.kind == *kind,
        Predicate::Flaky => listed(&ctx.flaky_tests, test.name),
        Predicate::Quarantined => listed(&ctx.quarantined_tests, test.name),
        Predicate::All => true,
    }
}

} // verus!
