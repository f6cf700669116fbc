use vstd::prelude::*;

use crate::builtins::{apply_builtin, Builtin, Out};
use crate::evaluator::{index_value, sem_expr, sem_list, sem_pairs, sem_program, stops, ListOutcome};
use crate::ast::{ExprM, StmtM};
use crate::parser::{climb_stops, g_climb, g_expr, g_first, g_infix, g_program, g_statement, peek_at, semicolon_end, step};
use crate::token::ExpressionPrecedence;
use crate::hash::{hash_get, hash_put, hashable, keys_sorted, lemma_hash_put_sorted};
use crate::object::{truthy, Scope, Value};
use crate::operators::{fits, trunc_div};
use crate::token::Token;

verus! {

/// Integer arithmetic and comparison: evaluating `a op b` on two integer
/// literals gives the machine result of `op`, whenever that result fits and
/// no division by zero occurs; the scope is left as it was.
pub proof fn law_integer_operators(op: Token, a: isize, b: isize, s: Scope, o: Out, d: nat)
    ensures
        ({
            let e = ExprM::Infix {
                operator: op,
                right: Box::new(ExprM::Integer(b)),
                left: Box::new(ExprM::Integer(a)),
            };
            let (r, s1, o1) = sem_expr(e, s, o, d);
            let (x, y) = (a as int, b as int);
            &&& s1 == s
            &&& o1 == o
            &&& op == Token::PlusSign && fits(x + y) ==> r == Some(Value::Integer(x + y))
            &&& op == Token::MinusSign && fits(x - y) ==> r == Some(Value::Integer(x - y))
            &&& op == Token::Asterisk && fits(x * y) ==> r == Some(Value::Integer(x * y))
            &&& op == Token::Slash && y != 0 && fits(trunc_div(x, y)) ==> r == Some(
                Value::Integer(trunc_div(x, y)),
            )
            &&& op == Token::LessThan ==> r == Some(Value::Boolean(x < y))
            &&& op == Token::GreaterThan ==> r == Some(Value::Boolean(x > y))
            &&& op == Token::Equal ==> r == Some(Value::Boolean(x == y))
            &&& op == Token::NotEqual ==> r == Some(Value::Boolean(x != y))
        }),
{
    reveal_with_fuel(sem_expr, 2);
}

/// Truthiness: only `false` and null are falsy, so an `if` without `else`
/// runs its block for every other condition value, zero included, and is
/// null otherwise.
pub proof fn law_if_truthiness(
    condition: ExprM,
    consequence: Seq<StmtM>,
    s: Scope,
    o: Out,
    d: nat,
)
    ensures
        truthy(Value::Integer(0)),
        !truthy(Value::Boolean(false)),
        !truthy(Value::Null),
        forall|v: Value| #[trigger] truthy(v) <==> (v != Value::Boolean(false) && v != Value::Null),
        ({
            let (rc, s1, o1) = sem_expr(condition, s, o, d);
            let e = ExprM::If { condition: Box::new(condition), consequence, alternative: None };
            !stops(rc) && !truthy(rc.unwrap()) ==> sem_expr(e, s, o, d) == (Some(Value::Null), s1, o1)
        }),
{
}

/// An error from the left operand stops an infix expression before the
/// right operand is evaluated, and is its result.
pub proof fn law_left_error_stops(
    op: Token,
    left: ExprM,
    right: ExprM,
    s: Scope,
    o: Out,
    d: nat,
)
    ensures
        ({
            let (rl, s1, o1) = sem_expr(left, s, o, d);
            let e = ExprM::Infix { operator: op, right: Box::new(right), left: Box::new(left) };
            rl is Some && rl.unwrap() is Error ==> sem_expr(e, s, o, d) == (rl, s1, o1)
        }),
{
}

/// An error from the right operand is the result of an infix expression.
pub proof fn law_right_error_stops(
    op: Token,
    left: ExprM,
    right: ExprM,
    s: Scope,
    o: Out,
    d: nat,
)
    ensures
        ({
            let (rl, s1, o1) = sem_expr(left, s, o, d);
            let (rr, s2, o2) = sem_expr(right, s1, o1, d);
            let e = ExprM::Infix { operator: op, right: Box::new(right), left: Box::new(left) };
            !stops(rl) && rr is Some && rr.unwrap() is Error ==> sem_expr(e, s, o, d) == (rr, s2, o2)
        }),
{
}

/// Indexing an array outside its bounds, negative indices included, gives
/// null, as does looking up a key that a hash does not hold.
pub proof fn law_missing_index_is_null(a: Seq<Value>, k: int, h: Seq<(Value, Value)>, key: Value)
    ensures
        (k < 0 || k >= a.len()) ==> index_value(Value::Array(a), Value::Integer(k)) == Value::Null,
        hash_get(h, key) is None ==> index_value(Value::Hash(h), key) == Value::Null,
{
}

/// `rest` of a one-element array is the empty array, and of the empty
/// array is null; in general it drops the first element.
pub proof fn law_rest(a: Seq<Value>)
    ensures
        a.len() == 1 ==> apply_builtin(Builtin::Rest, seq![Value::Array(a)]) == Value::Array(
            Seq::<Value>::empty(),
        ),
        apply_builtin(Builtin::Rest, seq![Value::Array(Seq::empty())]) == Value::Null,
        a.len() > 0 ==> apply_builtin(Builtin::Rest, seq![Value::Array(a)]) == Value::Array(
            a.drop_first(),
        ),
{
    if a.len() == 1 {
        assert(a.drop_first() =~= Seq::<Value>::empty());
    }
}

/// Integer literals evaluate to the same values in every scope and leave it
/// unchanged.
proof fn lemma_literal_list(
    es: Seq<ExprM>,
    i: int,
    acc: Seq<Value>,
    s: Scope,
    t: Scope,
    o: Out,
    d: nat,
)
    requires
        0 <= i <= es.len(),
        forall|j: int| 0 <= j < es.len() ==> #[trigger] es[j] is Integer,
    ensures
        sem_list(es, i, acc, s, o, d).0 == sem_list(es, i, acc, t, o, d).0,
        sem_list(es, i, acc, s, o, d).1 == s,
        sem_list(es, i, acc, s, o, d).2 == o,
        sem_list(es, i, acc, t, o, d).2 == o,
    decreases es.len() - i,
{
    if i < es.len() {
        let v = Value::Integer(es[i]->Integer_0 as int);
        assert(sem_expr(es[i], s, o, d) == (Some(v), s, o));
        assert(sem_expr(es[i], t, o, d) == (Some(v), t, o));
        lemma_literal_list(es, i + 1, acc.push(v), s, t, o, d);
        assert(sem_list(es, i, acc, s, o, d) == sem_list(es, i + 1, acc.push(v), s, o, d));
        assert(sem_list(es, i, acc, t, o, d) == sem_list(es, i + 1, acc.push(v), t, o, d));
    }
}

/// Closures: calling a function value with literal arguments gives a
/// result that does not depend on the caller's bindings: binding or
/// rebinding any name in the calling scope leaves it unchanged.
pub proof fn law_call_ignores_caller_bindings(
    f: Value,
    args: Seq<ExprM>,
    s: Scope,
    name: Seq<char>,
    v: Value,
    o: Out,
    d: nat,
)
    requires
        f is Function,
        forall|j: int| 0 <= j < args.len() ==> #[trigger] args[j] is Integer,
    ensures
        ({
            let later = s.assign(name, v);
            crate::evaluator::sem_call(
                f->Function_parameters,
                f->Function_scope,
                f->Function_body,
                None,
                args,
                later,
                o,
                d,
            ) == crate::evaluator::sem_call(
                f->Function_parameters,
                f->Function_scope,
                f->Function_body,
                None,
                args,
                s,
                o,
                d,
            )
        }),
{
    lemma_literal_list(args, 0, Seq::empty(), s.assign(name, v), s, o, d);
}

/// The eight arithmetic and comparison operators.
pub open spec fn arithmetic_operator(op: Token) -> bool {
    op == Token::PlusSign || op == Token::MinusSign || op == Token::Asterisk || op == Token::Slash
        || op == Token::LessThan || op == Token::GreaterThan || op == Token::Equal
        || op == Token::NotEqual
}

proof fn lemma_parse_arithmetic(op: Token, a: isize, b: isize)
    requires
        arithmetic_operator(op),
    ensures
        ({
            let t = seq![Token::Integer(a), op, Token::Integer(b), Token::Eof];
            let e = ExprM::Infix {
                operator: op,
                right: Box::new(ExprM::Integer(b)),
                left: Box::new(ExprM::Integer(a)),
            };
            g_program(t, 0, Seq::empty(), Seq::empty()) == (
                seq![StmtM::Expression { value: e }],
                Seq::<Seq<char>>::empty(),
            )
        }),
{
    let t = seq![Token::Integer(a), op, Token::Integer(b), Token::Eof];
    let lo = ExpressionPrecedence::Lowest;
    let left = ExprM::Integer(a);
    let right = ExprM::Integer(b);
    let e = ExprM::Infix { operator: op, right: Box::new(right), left: Box::new(left) };
    let none = Seq::<Seq<char>>::empty();
    assert(none + none =~= none);
    assert(g_expr(t, 2, op.spec_precedence()) == (Some(right), 2int, none)) by {
        assert(g_first(t, 2) == (Some(right), 2int, none));
        assert(peek_at(t, 2) == Token::Eof);
        assert(climb_stops(t, 2, op.spec_precedence()));
    }
    assert(g_infix(t, 1, left) == (Ok::<ExprM, ExprM>(e), 2int, none));
    assert(g_expr(t, 0, lo) == (Some(e), 2int, none)) by {
        assert(g_first(t, 0) == (Some(left), 0int, none));
        assert(!climb_stops(t, 0, lo));
        assert(step(t, 0) == 1);
        assert(g_climb(t, 0, lo, e, 2, none) == (Some(e), 2int, none)) by {
            assert(climb_stops(t, 2, lo));
        }
        assert(g_climb(t, 0, lo, left, 0, none) == (Some(e), 2int, none));
    }
    assert(g_statement(t, 0) == (Some(StmtM::Expression { value: e }), 2int, none)) by {
        assert(semicolon_end(t, 2) == 2);
    }
    assert(seq![StmtM::Expression { value: e }] =~= Seq::<StmtM>::empty().push(
        StmtM::Expression { value: e },
    ));
    assert(g_program(t, 3, seq![StmtM::Expression { value: e }], none) == (
        seq![StmtM::Expression { value: e }],
        none,
    ));
}

/// Parsing the tokens `a op b` gives the one statement `(a op b)`, and
/// running it as a program gives the machine result of `op` whenever that
/// result fits and no division by zero occurs.
pub proof fn law_parse_and_evaluate_arithmetic(op: Token, a: isize, b: isize, s: Scope, o: Out, d: nat)
    requires
        arithmetic_operator(op),
    ensures
        ({
            let t = seq![Token::Integer(a), op, Token::Integer(b), Token::Eof];
            let e = ExprM::Infix {
                operator: op,
                right: Box::new(ExprM::Integer(b)),
                left: Box::new(ExprM::Integer(a)),
            };
            let (r, s1, o1) = sem_program(seq![StmtM::Expression { value: e }], 0, None, s, o, d);
            let (x, y) = (a as int, b as int);
            &&& g_program(t, 0, Seq::empty(), Seq::empty()) == (
                seq![StmtM::Expression { value: e }],
                Seq::<Seq<char>>::empty(),
            )
            &&& s1 == s
            &&& o1 == o
            &&& op == Token::PlusSign && fits(x + y) ==> r == Some(Value::Integer(x + y))
            &&& op == Token::MinusSign && fits(x - y) ==> r == Some(Value::Integer(x - y))
            &&& op == Token::Asterisk && fits(x * y) ==> r == Some(Value::Integer(x * y))
            &&& op == Token::Slash && y != 0 && fits(trunc_div(x, y)) ==> r == Some(
                Value::Integer(trunc_div(x, y)),
            )
            &&& op == Token::LessThan ==> r == Some(Value::Boolean(x < y))
            &&& op == Token::GreaterThan ==> r == Some(Value::Boolean(x > y))
            &&& op == Token::Equal ==> r == Some(Value::Boolean(x == y))
            &&& op == Token::NotEqual ==> r == Some(Value::Boolean(x != y))
        }),
{
    lemma_parse_arithmetic(op, a, b);
    law_integer_operators(op, a, b, s, o, d);
    let e = ExprM::Infix {
        operator: op,
        right: Box::new(ExprM::Integer(b)),
        left: Box::new(ExprM::Integer(a)),
    };
    let ss = seq![StmtM::Expression { value: e }];
    let (r, s1, o1) = sem_expr(e, s, o, d);
    assert(crate::evaluator::sem_statement(ss[0], s, o, d) == (r, s1, o1));
    assert(sem_program(ss, 1, r, s1, o1, d) == (r, s1, o1));
}

proof fn lemma_pairs_sorted(
    ps: Seq<(ExprM, ExprM)>,
    i: int,
    h: Seq<(Value, Value)>,
    s: Scope,
    o: Out,
    d: nat,
)
    requires
        keys_sorted(h),
    ensures
        ({
            let r = sem_pairs(ps, i, h, s, o, d).0;
            r is Some && r.unwrap() is Hash ==> keys_sorted(r.unwrap()->Hash_0)
        }),
    decreases ps.len() - i,
{
    if 0 <= i < ps.len() {
        let (rk, s1, o1) = sem_expr(ps[i].0, s, o, d);
        if !stops(rk) {
            let (rv, s2, o2) = sem_expr(ps[i].1, s1, o1, d);
            if !stops(rv) && hashable(rk.unwrap()) {
                lemma_hash_put_sorted(h, rk.unwrap(), rv.unwrap());
                lemma_pairs_sorted(ps, i + 1, hash_put(h, rk.unwrap(), rv.unwrap()), s2, o2, d);
            }
        }
    }
}

/// A hash literal's value holds each key once, in key order, whatever the
/// order and repetitions of the keys in the source.
pub proof fn law_hash_literal_keys_sorted(pairs: Seq<(ExprM, ExprM)>, s: Scope, o: Out, d: nat)
    ensures
        ({
            let r = sem_expr(ExprM::Hash(pairs), s, o, d).0;
            r is Some && r.unwrap() is Hash ==> keys_sorted(r.unwrap()->Hash_0)
        }),
{
    assert(keys_sorted(Seq::<(Value, Value)>::empty()));
    lemma_pairs_sorted(pairs, 0, Seq::empty(), s, o, d);
}

} // verus!
