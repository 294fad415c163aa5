//! Properties of the filter language: parsing consumes input, does not
//! depend on what precedes a position, and a `!!` prefix changes nothing.
use vstd::prelude::*;

use crate::filter::ast::SpecExpr;
use crate::filter::eval::{all_spec, any_spec, eval_pred, eval_spec, EvalEnv};
use crate::filter::lexer::{lex, SpecToken};
use crate::filter::parser::{
    call_predicate, p_binary, p_expr, p_predicate, p_primary, p_unary, parse_tokens, word_bin, word_example,
    word_kind, word_lib, word_test,
};
use crate::runner::binary::BinaryKind;
use crate::filter::compile_spec;

verus! {

/// A parse result with its end position moved by `k`.
pub open spec fn shifted(r: Option<(SpecExpr, int)>, k: int) -> Option<(SpecExpr, int)> {
    match r {
        Some((e, p)) => Some((e, p + k)),
        None => None,
    }
}

proof fn lemma_index_shift(pre: Seq<SpecToken>, t: Seq<SpecToken>, pos: int)
    requires
        0 <= pos < t.len(),
    ensures
        (pre + t)[pos + pre.len()] == t[pos],
{
}

proof fn lemma_shift_predicate(pre: Seq<SpecToken>, t: Seq<SpecToken>, pos: int)
    requires
        0 <= pos,
    ensures
        p_predicate(pre + t, pos + pre.len()) == shifted(p_predicate(t, pos), pre.len() as int),
{
    let u = pre + t;
    let k = pre.len() as int;
    if pos < t.len() {
        lemma_index_shift(pre, t, pos);
    }
    if pos + 1 < t.len() {
        lemma_index_shift(pre, t, pos + 1);
    }
    if pos + 2 < t.len() {
        lemma_index_shift(pre, t, pos + 2);
    }
    if pos + 3 < t.len() {
        lemma_index_shift(pre, t, pos + 3);
    }
}

proof fn lemma_shift_expr(pre: Seq<SpecToken>, t: Seq<SpecToken>, pos: int)
    requires
        0 <= pos,
    ensures
        p_expr(pre + t, pos + pre.len()) == shifted(p_expr(t, pos), pre.len() as int),
    decreases t.len() - pos, 3int,
{
    let k = pre.len() as int;
    if pos <= t.len() {
        lemma_shift_unary(pre, t, pos);
        match p_unary(t, pos) {
            None => {},
            Some((left, p2)) => {
                if pos < p2 <= t.len() {
                    lemma_shift_binary(pre, t, left, p2);
                }
            },
        }
    }
}

proof fn lemma_shift_binary(pre: Seq<SpecToken>, t: Seq<SpecToken>, left: SpecExpr, pos: int)
    requires
        0 <= pos,
    ensures
        p_binary(pre + t, left, pos + pre.len()) == shifted(
            p_binary(t, left, pos),
            pre.len() as int,
        ),
    decreases t.len() - pos, 0int,
{
    let k = pre.len() as int;
    if pos < t.len() {
        lemma_index_shift(pre, t, pos);
        if t[pos] is And || t[pos] is Or {
            lemma_shift_unary(pre, t, pos + 1);
            match p_unary(t, pos + 1) {
                None => {},
                Some((right, p3)) => {
                    if pos + 1 < p3 <= t.len() {
                        let combined = if t[pos] is And {
                            SpecExpr::And(seq![left, right])
                        } else {
                            SpecExpr::Or(seq![left, right])
                        };
                        lemma_shift_binary(pre, t, combined, p3);
                    }
                },
            }
        }
    }
}

proof fn lemma_shift_unary(pre: Seq<SpecToken>, t: Seq<SpecToken>, pos: int)
    requires
        0 <= pos,
    ensures
        p_unary(pre + t, pos + pre.len()) == shifted(p_unary(t, pos), pre.len() as int),
    decreases t.len() - pos, 2int,
{
    if pos <= t.len() {
        if pos < t.len() {
            lemma_index_shift(pre, t, pos);
        }
        if pos < t.len() && t[pos] is Not {
            lemma_shift_unary(pre, t, pos + 1);
        } else {
            lemma_shift_primary(pre, t, pos);
        }
    }
}

proof fn lemma_shift_primary(pre: Seq<SpecToken>, t: Seq<SpecToken>, pos: int)
    requires
        0 <= pos,
    ensures
        p_primary(pre + t, pos + pre.len()) == shifted(p_primary(t, pos), pre.len() as int),
    decreases t.len() - pos, 1int,
{
    if pos < t.len() {
        lemma_index_shift(pre, t, pos);
        if t[pos] is LParen {
            lemma_shift_expr(pre, t, pos + 1);
            lemma_progress_expr(t, pos + 1);
            match p_expr(t, pos + 1) {
                None => {},
                Some((e, p)) => {
                    if 0 <= p < t.len() {
                        lemma_index_shift(pre, t, p);
                    }
                },
            }
        } else if t[pos] is Ident {
            lemma_shift_predicate(pre, t, pos);
        }
    }
}

/// Every successful parse step consumes input and stays within it.
pub proof fn lemma_progress_expr(t: Seq<SpecToken>, pos: int)
    ensures
        p_expr(t, pos) matches Some((e, p)) ==> pos < p <= t.len(),
    decreases t.len() - pos, 3int,
{
    if 0 <= pos <= t.len() {
        lemma_progress_unary(t, pos);
        match p_unary(t, pos) {
            None => {},
            Some((left, p2)) => {
                if pos < p2 <= t.len() {
                    lemma_progress_binary(t, left, p2);
                }
            },
        }
    }
}

pub proof fn lemma_progress_binary(t: Seq<SpecToken>, left: SpecExpr, pos: int)
    ensures
        p_binary(t, left, pos) matches Some((e, p)) ==> pos <= p <= t.len(),
    decreases t.len() - pos, 0int,
{
    if 0 <= pos <= t.len() && pos < t.len() && (t[pos] is And || t[pos] is Or) {
        match p_unary(t, pos + 1) {
            None => {},
            Some((right, p3)) => {
                if pos + 1 < p3 <= t.len() {
                    let combined = if t[pos] is And {
                        SpecExpr::And(seq![left, right])
                    } else {
                        SpecExpr::Or(seq![left, right])
                    };
                    lemma_progress_binary(t, combined, p3);
                }
            },
        }
    }
}

pub proof fn lemma_progress_unary(t: Seq<SpecToken>, pos: int)
    ensures
        p_unary(t, pos) matches Some((e, p)) ==> pos < p <= t.len(),
    decreases t.len() - pos, 2int,
{
    if 0 <= pos <= t.len() {
        if pos < t.len() && t[pos] is Not {
            lemma_progress_unary(t, pos + 1);
        } else {
            lemma_progress_primary(t, pos);
        }
    }
}

pub proof fn lemma_progress_primary(t: Seq<SpecToken>, pos: int)
    ensures
        p_primary(t, pos) matches Some((e, p)) ==> pos < p <= t.len(),
    decreases t.len() - pos, 1int,
{
    if 0 <= pos < t.len() && t[pos] is LParen {
        lemma_progress_expr(t, pos + 1);
    }
}

/// Two expressions select the same tests in every environment.
pub open spec fn equivalent(a: SpecExpr, b: SpecExpr) -> bool {
    forall|env: EvalEnv| #[trigger] eval_spec(a, env) == eval_spec(b, env)
}

/// `!!` in front of a token sequence.
pub open spec fn not_not() -> Seq<SpecToken> {
    seq![SpecToken::Not, SpecToken::Not]
}

proof fn lemma_pair_all_any(a: SpecExpr, b: SpecExpr, env: EvalEnv)
    ensures
        all_spec(seq![a, b], env) == (eval_spec(a, env) && eval_spec(b, env)),
        any_spec(seq![a, b], env) == (eval_spec(a, env) || eval_spec(b, env)),
{
    let s = seq![a, b];
    let s1 = seq![b];
    assert(s.subrange(1, 2) =~= s1);
    assert(s1.subrange(1, 1) =~= Seq::<SpecExpr>::empty());
    assert(all_spec(Seq::<SpecExpr>::empty(), env));
    assert(!any_spec(Seq::<SpecExpr>::empty(), env));
    assert(s[0] == a);
    assert(s1[0] == b);
    assert(all_spec(s1, env) == eval_spec(b, env));
    assert(any_spec(s1, env) == eval_spec(b, env));
}

proof fn lemma_binary_equiv(t: Seq<SpecToken>, l1: SpecExpr, l2: SpecExpr, q: int)
    requires
        0 <= q,
        equivalent(l1, l2),
    ensures
        p_binary(not_not() + t, l1, q + 2) is Some <==> p_binary(t, l2, q) is Some,
        p_binary(t, l2, q) matches Some((e2, p2)) ==> (p_binary(not_not() + t, l1, q + 2) matches Some(
            (e1, p1),
        ) && p1 == p2 + 2 && equivalent(e1, e2)),
    decreases t.len() - q,
{
    let u = not_not() + t;
    if q <= t.len() && q < t.len() {
        lemma_index_shift(not_not(), t, q);
        if t[q] is And || t[q] is Or {
            lemma_shift_unary(not_not(), t, q + 1);
            match p_unary(t, q + 1) {
                None => {},
                Some((right, p3)) => {
                    if q + 1 < p3 <= t.len() {
                        let c1 = if t[q] is And {
                            SpecExpr::And(seq![l1, right])
                        } else {
                            SpecExpr::Or(seq![l1, right])
                        };
                        let c2 = if t[q] is And {
                            SpecExpr::And(seq![l2, right])
                        } else {
                            SpecExpr::Or(seq![l2, right])
                        };
                        assert forall|env: EvalEnv| #[trigger]
                            eval_spec(c1, env) == eval_spec(c2, env) by {
                            lemma_pair_all_any(l1, right, env);
                            lemma_pair_all_any(l2, right, env);
                            assert(eval_spec(l1, env) == eval_spec(l2, env));
                        }
                        lemma_binary_equiv(t, c1, c2, p3);
                    }
                },
            }
        }
    }
}

/// The tokens of `!!` followed by `s` are two `Not` tokens followed by
/// the tokens of `s`.
pub proof fn lemma_lex_not_not(s: Seq<char>)
    ensures
        lex(seq!['!', '!'] + s) == (match lex(s) {
            Ok(t) => Ok(not_not() + t),
            Err(c) => Err(c),
        }),
{
    let a = seq!['!', '!'] + s;
    let b = seq!['!'] + s;
    assert(a.drop_first() =~= b);
    assert(b.drop_first() =~= s);
    assert(a[0] == '!');
    assert(b[0] == '!');
    assert(a.len() > 0);
    assert(b.len() > 0);
    assert(lex(b) == (match lex(s) {
        Ok(r) => Ok(seq![SpecToken::Not] + r),
        Err(e) => Err(e),
    }));
    assert(lex(a) == (match lex(b) {
        Ok(r) => Ok(seq![SpecToken::Not] + r),
        Err(e) => Err(e),
    }));
    match lex(s) {
        Ok(t) => {
            assert(seq![SpecToken::Not] + (seq![SpecToken::Not] + t) =~= not_not() + t);
        },
        Err(_) => {},
    }
}

/// A filter with `!!` in front compiles exactly when the filter does, and
/// then selects exactly the same tests.
pub proof fn law_double_negation(s: Seq<char>, env: EvalEnv)
    ensures
        compile_spec(seq!['!', '!'] + s) is Some <==> compile_spec(s) is Some,
        compile_spec(s) is Some ==> eval_spec(compile_spec(seq!['!', '!'] + s)->0, env)
            == eval_spec(compile_spec(s)->0, env),
{
    lemma_lex_not_not(s);
    match lex(s) {
        Err(_) => {},
        Ok(t) => {
            let u = not_not() + t;
            assert(u[0] == SpecToken::Not);
            assert(u[1] == SpecToken::Not);
            lemma_shift_unary(not_not(), t, 0);
            lemma_progress_unary(t, 0);
            match p_unary(t, 0) {
                None => {
                    assert(p_unary(u, 0) is None);
                },
                Some((e, p)) => {
                    let nn = SpecExpr::Not(Box::new(SpecExpr::Not(Box::new(e))));
                    assert(p_unary(u, 1) == Some((SpecExpr::Not(Box::new(e)), p + 2)));
                    assert(p_unary(u, 0) == Some((nn, p + 2)));
                    assert forall|env2: EvalEnv| #[trigger] eval_spec(nn, env2) == eval_spec(e, env2) by {
                        assert(eval_spec(nn, env2) == !eval_spec(SpecExpr::Not(Box::new(e)), env2));
                    }
                    lemma_binary_equiv(t, nn, e, p);
                    lemma_progress_binary(t, e, p);
                }
            }
        },
    }
}


/// A `kind(..)` filter compiles for exactly the four kind names, and the
/// predicate it compiles to holds of a test exactly when the test's
/// binary is of the kind the argument names: `lib` a library, `bin` a
/// binary, `test` an integration test, `example` an example.
pub proof fn law_kind_filter_selects_named_kind(arg: Seq<char>, env: EvalEnv)
    ensures
        call_predicate(seq!['k', 'i', 'n', 'd'], arg) is Some <==> (arg == seq!['l', 'i', 'b'] || arg == seq![
            'b',
            'i',
            'n',
        ] || arg == seq!['t', 'e', 's', 't'] || arg == seq!['e', 'x', 'a', 'm', 'p', 'l', 'e']),
        call_predicate(seq!['k', 'i', 'n', 'd'], arg) matches Some(p) ==> (eval_pred(p, env) <==> (
        (arg == seq!['l', 'i', 'b'] && env.kind == BinaryKind::Lib) || (arg == seq!['b', 'i', 'n']
            && env.kind == BinaryKind::Bin) || (arg == seq!['t', 'e', 's', 't'] && env.kind == BinaryKind::Test)
            || (arg == seq!['e', 'x', 'a', 'm', 'p', 'l', 'e'] && env.kind == BinaryKind::Example))),
{
    assert(seq!['k', 'i', 'n', 'd'] != seq!['t', 'e', 's', 't']) by {
        assert(seq!['k', 'i', 'n', 'd'][0] != seq!['t', 'e', 's', 't'][0]);
    }
    assert(seq!['k', 'i', 'n', 'd'] != seq!['p', 'a', 'c', 'k', 'a', 'g', 'e']);
    assert(seq!['k', 'i', 'n', 'd'] != seq!['b', 'i', 'n', 'a', 'r', 'y']);
    assert(seq!['k', 'i', 'n', 'd'] =~= word_kind());
    let lib = seq!['l', 'i', 'b'];
    let bin = seq!['b', 'i', 'n'];
    let tst = seq!['t', 'e', 's', 't'];
    let exa = seq!['e', 'x', 'a', 'm', 'p', 'l', 'e'];
    assert(lib != bin) by {
        assert(lib[0] != bin[0]);
    }
    assert(lib != tst && bin != tst && lib != exa && bin != exa && tst != exa);
    assert(lib =~= word_lib());
    assert(bin =~= word_bin());
    assert(tst =~= word_test());
    assert(exa =~= word_example());
}

} // verus!
