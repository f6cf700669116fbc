use vstd::prelude::*;

use crate::ast::{
    exprs_model, lemma_block_model, lemma_hash_literal_model, lemma_list_models, names_of, pairs_of,
    share_block, stmts_model, BlockStatement, ExprM, Expression, Program, Statement, StmtM,
};
use crate::builtins::{apply_builtin, builtin_effects, builtin_named, Builtin, Out, Output};
use crate::environment::Environment;
use crate::hash::{keys_sorted, lemma_hash_put_sorted, hash_get, hash_insert, hash_lookup, hashable, hash_put, is_hashable, unusable_key_message};
use crate::object::{
    copy_names, kind_text, lemma_array_model, lemma_hash_model, objects_model,
    pairs_model, truthy, HashEntries, Object, Scope, Value,
};
use crate::operators::{eval_infix_expression, eval_prefix_expression, infix, prefix};

verus! {

/// The call depth for `eval_program` and `Evaluator::eval`: as large as the
/// counter allows, so that in practice only the host stack bounds recursion.
pub const DEFAULT_CALL_DEPTH: u64 = 0xffff_ffff_ffff_ffff;

/// The outcome of evaluating a list of expressions left to right: all the
/// values, or the first missing or error result, which stops the list.
pub enum ListOutcome {
    Done(Seq<Value>),
    Stopped(Option<Value>),
}

pub open spec fn opt_model(r: Option<Object>) -> Option<Value> {
    match r {
        Some(o) => Some(o.model()),
        None => None,
    }
}

/// Whether a result stops a list or an operand: a missing value or an error.
pub open spec fn stops(r: Option<Value>) -> bool {
    match r {
        Some(Value::Error(_)) => true,
        None => true,
        _ => false,
    }
}

/// A `Return` marker yields its inner value; anything else stays.
pub open spec fn unwrap_return(r: Option<Value>) -> Option<Value> {
    match r {
        Some(Value::Return(v)) => Some(*v),
        _ => r,
    }
}

/// The value of `left[index]`.
pub open spec fn index_value(l: Value, i: Value) -> Value {
    match (l, i) {
        (Value::Array(a), Value::Integer(k)) => if 0 <= k < a.len() {
            a[k]
        } else {
            Value::Null
        },
        (Value::Hash(h), _) => match hash_get(h, i) {
            Some(v) => v,
            None => Value::Null,
        },
        _ => Value::Error(
            "index operator not supported: "@ + kind_text(l) + " With index of: "@ + kind_text(i),
        ),
    }
}

/// Binds `params[j]` to `vals[j]`, in order, for each `j >= i` that both have.
pub open spec fn bind_from(s: Scope, params: Seq<Seq<char>>, vals: Seq<Value>, i: int) -> Scope
    decreases params.len() - i,
{
    if i < 0 || i >= params.len() || i >= vals.len() {
        s
    } else {
        bind_from(s.assign(params[i], vals[i]), params, vals, i + 1)
    }
}

/// Evaluates `es[i..]` left to right after the values `acc`, stopping at the
/// first missing or error result.
pub open spec fn sem_list(es: Seq<ExprM>, i: int, acc: Seq<Value>, s: Scope, o: Out, d: nat) -> (
    ListOutcome,
    Scope,
    Out,
)
    decreases d, es, 0int, es.len() - i,
{
    if i < 0 || i >= es.len() {
        (ListOutcome::Done(acc), s, o)
    } else {
        let (r, s1, o1) = sem_expr(es[i], s, o, d);
        if stops(r) {
            (ListOutcome::Stopped(r), s1, o1)
        } else {
            sem_list(es, i + 1, acc.push(r.unwrap()), s1, o1, d)
        }
    }
}

/// Evaluates hash literal entries `ps[i..]` into the hash `h`, key then value.
pub open spec fn sem_pairs(
    ps: Seq<(ExprM, ExprM)>,
    i: int,
    h: Seq<(Value, Value)>,
    s: Scope,
    o: Out,
    d: nat,
) -> (Option<Value>, Scope, Out)
    decreases d, ps, 0int, ps.len() - i,
{
    if i < 0 || i >= ps.len() {
        (Some(Value::Hash(h)), s, o)
    } else {
        let (rk, s1, o1) = sem_expr(ps[i].0, s, o, d);
        if stops(rk) {
            (rk, s1, o1)
        } else {
            let (rv, s2, o2) = sem_expr(ps[i].1, s1, o1, d);
            if stops(rv) {
                (rv, s2, o2)
            } else if !hashable(rk.unwrap()) {
                (Some(Value::Error(unusable_key_message(rk.unwrap()))), s2, o2)
            } else {
                sem_pairs(ps, i + 1, hash_put(h, rk.unwrap(), rv.unwrap()), s2, o2, d)
            }
        }
    }
}

/// Runs `ss[i..]` after the running result `acc`; a `Return` marker or an
/// error stops the sequence and is passed on as it is.
pub open spec fn sem_statements(ss: Seq<StmtM>, i: int, acc: Option<Value>, s: Scope, o: Out, d: nat) -> (
    Option<Value>,
    Scope,
    Out,
)
    decreases d, ss, 0int, ss.len() - i,
{
    if i < 0 || i >= ss.len() {
        (acc, s, o)
    } else {
        let (r, s1, o1) = sem_statement(ss[i], s, o, d);
        match r {
            Some(Value::Return(_)) => (r, s1, o1),
            Some(Value::Error(_)) => (r, s1, o1),
            _ => sem_statements(ss, i + 1, r, s1, o1, d),
        }
    }
}

/// A call of a user function: the arguments are evaluated in (a copy of) the
/// caller's scope, then bound in a fresh child of the captured scope, where
/// the body runs with one less level of call depth.
pub open spec fn sem_call(
    params: Seq<Seq<char>>,
    captured: Scope,
    body: Seq<StmtM>,
    binding: Option<(Seq<char>, Value)>,
    args: Seq<ExprM>,
    s: Scope,
    o: Out,
    d: nat,
) -> (Option<Value>, Out)
    decreases d, args, 1int, 0int,
{
    let (ra, _, o1) = sem_list(args, 0, Seq::empty(), s, o, d);
    match ra {
        ListOutcome::Stopped(x) => (x, o1),
        ListOutcome::Done(vals) => if d == 0 {
            (Some(Value::Error("maximum call depth exceeded"@)), o1)
        } else {
            let bound = bind_from(captured.child(), params, vals, 0);
            let inner = match binding {
                Some((n, f)) => bound.assign(n, f),
                None => bound,
            };
            let (r, _, o2) = sem_statements(body, 0, None, inner, o1, (d - 1) as nat);
            (unwrap_return(r), o2)
        },
    }
}

/// The result of a statement, the scope after it, and the output.
pub open spec fn sem_statement(st: StmtM, s: Scope, o: Out, d: nat) -> (Option<Value>, Scope, Out)
    decreases d, st, 2int, 0int,
{
    match st {
        StmtM::Expression { value } => sem_expr(value, s, o, d),
        StmtM::Return { value } => {
            let (r, s1, o1) = sem_expr(value, s, o, d);
            match r {
                Some(Value::Error(_)) => (r, s1, o1),
                Some(v) => (Some(Value::Return(Box::new(v))), s1, o1),
                None => (None, s1, o1),
            }
        },
        StmtM::Let { name, value } => {
            let (r, s1, o1) = sem_expr(value, s, o, d);
            match r {
                Some(Value::Error(_)) => (r, s1, o1),
                Some(v) => (None, s1.assign(name, v), o1),
                None => (None, s1, o1),
            }
        },
    }
}

/// The value of an expression, the scope after it, and the output.
pub open spec fn sem_expr(e: ExprM, s: Scope, o: Out, d: nat) -> (Option<Value>, Scope, Out)
    decreases d, e, 2int, 0int,
{
    match e {
        ExprM::Integer(i) => (Some(Value::Integer(i as int)), s, o),
        ExprM::Boolean(b) => (Some(Value::Boolean(b)), s, o),
        ExprM::Str(x) => (Some(Value::Str(x)), s, o),
        ExprM::Identifier(n) => match s.lookup(n) {
            Some(v) => (Some(v), s, o),
            None => (Some(Value::Error("identifier not found: "@ + n)), s, o),
        },
        ExprM::Prefix { operator, operand } => {
            let (r, s1, o1) = sem_expr(*operand, s, o, d);
            if stops(r) {
                (r, s1, o1)
            } else {
                (Some(prefix(operator, r.unwrap())), s1, o1)
            }
        },
        ExprM::Infix { operator, right, left } => {
            let (rl, s1, o1) = sem_expr(*left, s, o, d);
            if stops(rl) {
                (rl, s1, o1)
            } else {
                let (rr, s2, o2) = sem_expr(*right, s1, o1, d);
                if stops(rr) {
                    (rr, s2, o2)
                } else {
                    (Some(infix(operator, rl.unwrap(), rr.unwrap())), s2, o2)
                }
            }
        },
        ExprM::If { condition, consequence, alternative } => {
            let (rc, s1, o1) = sem_expr(*condition, s, o, d);
            if stops(rc) {
                (rc, s1, o1)
            } else if truthy(rc.unwrap()) {
                sem_statements(consequence, 0, None, s1, o1, d)
            } else {
                match alternative {
                    Some(alt) => sem_statements(alt, 0, None, s1, o1, d),
                    None => (Some(Value::Null), s1, o1),
                }
            }
        },
        ExprM::Function { parameters, body } => (
            Some(Value::Function { parameters, scope: s, body }),
            s,
            o,
        ),
        ExprM::Call { function, args } => match *function {
            ExprM::Identifier(n) => match s.lookup(n) {
                Some(Value::Function { parameters, scope, body }) => {
                    let (r, o1) = sem_call(
                        parameters,
                        scope,
                        body,
                        Some((n, Value::Function { parameters, scope, body })),
                        args,
                        s,
                        o,
                        d,
                    );
                    (r, s, o1)
                },
                Some(_) => (Some(Value::Error("function not found: "@ + n)), s, o),
                None => match builtin_named(n) {
                    Some(b) => {
                        let (ra, s1, o1) = sem_list(args, 0, Seq::empty(), s, o, d);
                        match ra {
                            ListOutcome::Stopped(x) => (x, s1, o1),
                            ListOutcome::Done(vals) => (
                                Some(apply_builtin(b, vals)),
                                s1,
                                builtin_effects(b, vals, o1),
                            ),
                        }
                    },
                    None => (Some(Value::Error("function not found: "@ + n)), s, o),
                },
            },
            ExprM::Function { parameters, body } => {
                let (r, o1) = sem_call(parameters, s, body, None, args, s, o, d);
                (r, s, o1)
            },
            _ => (None, s, o),
        },
        ExprM::Array(elements) => {
            let (ra, s1, o1) = sem_list(elements, 0, Seq::empty(), s, o, d);
            match ra {
                ListOutcome::Stopped(x) => (x, s1, o1),
                ListOutcome::Done(vals) => (Some(Value::Array(vals)), s1, o1),
            }
        },
        ExprM::Index { left, index } => {
            let (rl, s1, o1) = sem_expr(*left, s, o, d);
            if stops(rl) {
                (rl, s1, o1)
            } else {
                let (ri, s2, o2) = sem_expr(*index, s1, o1, d);
                if stops(ri) {
                    (ri, s2, o2)
                } else {
                    (Some(index_value(rl.unwrap(), ri.unwrap())), s2, o2)
                }
            }
        },
        ExprM::Hash(pairs) => sem_pairs(pairs, 0, Seq::empty(), s, o, d),
    }
}

/// The value of a program: its statements in order, where a `Return` marker
/// ends the program with its inner value and an error ends it as it is.
pub open spec fn sem_program(ss: Seq<StmtM>, i: int, acc: Option<Value>, s: Scope, o: Out, d: nat) -> (
    Option<Value>,
    Scope,
    Out,
)
    decreases ss.len() - i,
{
    if i < 0 || i >= ss.len() {
        (acc, s, o)
    } else {
        let (r, s1, o1) = sem_statement(ss[i], s, o, d);
        match r {
            Some(Value::Return(v)) => (Some(*v), s1, o1),
            Some(Value::Error(_)) => (r, s1, o1),
            _ => sem_program(ss, i + 1, r, s1, o1, d),
        }
    }
}

/// The executable counterpart of `ListOutcome`.
pub enum Evaluated {
    Done(Vec<Object>),
    Stopped(Option<Object>),
}

pub open spec fn outcome_model(r: Evaluated) -> ListOutcome {
    match r {
        Evaluated::Done(v) => ListOutcome::Done(objects_model(v@)),
        Evaluated::Stopped(x) => ListOutcome::Stopped(opt_model(x)),
    }
}

pub open spec fn binding_model(b: Option<(String, Object)>) -> Option<(Seq<char>, Value)> {
    match b {
        Some((n, f)) => Some((n@, f.model())),
        None => None,
    }
}

fn is_stop(r: &Option<Object>) -> (b: bool)
    ensures
        b == stops(opt_model(*r)),
{
    match r {
        Some(Object::Error(_)) => true,
        None => true,
        _ => false,
    }
}

fn error_with(prefix: &str, rest: &str) -> (r: Object)
    ensures
        r.model() == Value::Error(prefix@ + rest@),
{
    let mut m = String::from_str(prefix);
    m.append(rest);
    Object::Error(m)
}

/// The value of `left[index]` for evaluated operands.
pub fn eval_index_expression(left: Object, index: Object) -> (r: Object)
    ensures
        r.model() == index_value(left.model(), index.model()),
{
    match (&left, &index) {
        (Object::Array(a), Object::Integer(k)) => {
            proof {
                lemma_array_model(*a);
            }
            if *k >= 0 && (*k as usize) < a.len() {
                a[*k as usize].duplicate()
            } else {
                Object::Null
            }
        },
        (Object::Hash(h), _) => {
            proof {
                lemma_hash_model(*h);
            }
            match hash_lookup(h.entries(), &index) {
                Some(v) => v.duplicate(),
                None => Object::Null,
            }
        },
        _ => {
            let mut m = String::from_str("index operator not supported: ");
            m.append(left.kind());
            m.append(" With index of: ");
            m.append(index.kind());
            Object::Error(m)
        },
    }
}

/// Evaluates expressions left to right, stopping at the first missing or
/// error result.
pub fn eval_list(es: &Vec<Expression>, env: &mut Environment, depth: u64, out: &mut Output) -> (r:
    Evaluated)
    ensures
        (outcome_model(r), final(env).model(), final(out).model()) == sem_list(
            exprs_model(es@),
            0,
            Seq::empty(),
            old(env).model(),
            old(out).model(),
            depth as nat,
        ),
    decreases depth, es@, 0int, es@.len(),
{
    let mut vals: Vec<Object> = Vec::new();
    let mut i: usize = 0;
    assert(objects_model(vals@) =~= Seq::<Value>::empty());
    while i < es.len()
        invariant
            i <= es@.len(),
            sem_list(exprs_model(es@), 0, Seq::empty(), old(env).model(), old(out).model(), depth as nat) == sem_list(
                exprs_model(es@),
                i as int,
                objects_model(vals@),
                env.model(),
                out.model(),
                depth as nat,
            ),
        decreases es@.len() - i,
    {
        let r = eval_expression(&es[i], env, depth, out);
        if is_stop(&r) {
            return Evaluated::Stopped(r);
        }
        match r {
            Some(v) => {
                let ghost before = objects_model(vals@);
                vals.push(v);
                assert(objects_model(vals@) =~= before.push(v.model()));
            },
            None => {
                return Evaluated::Stopped(None);
            },
        }
        i = i + 1;
    }
    Evaluated::Done(vals)
}

/// Evaluates hash literal entries, key then value, into an ordered hash.
pub fn eval_pairs(ps: &Vec<(Expression, Expression)>, env: &mut Environment, depth: u64, out: &mut Output) -> (r:
    Option<Object>)
    ensures
        (opt_model(r), final(env).model(), final(out).model()) == sem_pairs(
            pairs_of(ps@),
            0,
            Seq::empty(),
            old(env).model(),
            old(out).model(),
            depth as nat,
        ),
    decreases depth, ps@, 0int, ps@.len(),
{
    let mut h: Vec<(Object, Object)> = Vec::new();
    let mut i: usize = 0;
    assert(pairs_model(h@) =~= Seq::<(Value, Value)>::empty());
    while i < ps.len()
        invariant
            i <= ps@.len(),
            sem_pairs(pairs_of(ps@), 0, Seq::empty(), old(env).model(), old(out).model(), depth as nat) == sem_pairs(
                pairs_of(ps@),
                i as int,
                pairs_model(h@),
                env.model(),
                out.model(),
                depth as nat,
            ),
            keys_sorted(pairs_model(h@)),
        decreases ps@.len() - i,
    {
        let rk = eval_expression(&ps[i].0, env, depth, out);
        if is_stop(&rk) {
            return rk;
        }
        let key = match rk {
            Some(k) => k,
            None => {
                return None;
            },
        };
        let rv = eval_expression(&ps[i].1, env, depth, out);
        if is_stop(&rv) {
            return rv;
        }
        let value = match rv {
            Some(v) => v,
            None => {
                return None;
            },
        };
        if !is_hashable(&key) {
            return Some(error_with("unusable as hash key: ", key.kind()));
        }
        proof {
            lemma_hash_put_sorted(pairs_model(h@), key.model(), value.model());
        }
        hash_insert(&mut h, key, value);
        i = i + 1;
    }
    let r = HashEntries::from_sorted(h);
    proof {
        lemma_hash_model(r);
    }
    Some(Object::Hash(r))
}

/// Runs statements in order; a `Return` marker or an error stops the
/// sequence and is passed on unchanged.
pub fn eval_statements(ss: &Vec<Statement>, env: &mut Environment, depth: u64, out: &mut Output) -> (r:
    Option<Object>)
    ensures
        (opt_model(r), final(env).model(), final(out).model()) == sem_statements(
            stmts_model(ss@),
            0,
            None,
            old(env).model(),
            old(out).model(),
            depth as nat,
        ),
    decreases depth, ss@, 0int, ss@.len(),
{
    let mut acc: Option<Object> = None;
    let mut i: usize = 0;
    while i < ss.len()
        invariant
            i <= ss@.len(),
            sem_statements(stmts_model(ss@), 0, None, old(env).model(), old(out).model(), depth as nat) == sem_statements(
                stmts_model(ss@),
                i as int,
                opt_model(acc),
                env.model(),
                out.model(),
                depth as nat,
            ),
        decreases ss@.len() - i,
    {
        let r = eval_statement(&ss[i], env, depth, out);
        match &r {
            Some(Object::Return(_)) => {
                return r;
            },
            Some(Object::Error(_)) => {
                return r;
            },
            _ => {},
        }
        acc = r;
        i = i + 1;
    }
    acc
}

/// Calls a user function: evaluates the arguments in a copy of the caller's
/// environment, binds them in a fresh child of the captured environment, and
/// runs the body one level deeper.
pub fn call_function(
    params: &Vec<String>,
    captured: &Environment,
    body: &BlockStatement,
    binding: Option<(String, Object)>,
    args: &Vec<Expression>,
    caller: &Environment,
    depth: u64,
    out: &mut Output,
) -> (r: Option<Object>)
    ensures
        (opt_model(r), final(out).model()) == sem_call(
            names_of(params@),
            captured.model(),
            body.model(),
            binding_model(binding),
            exprs_model(args@),
            caller.model(),
            old(out).model(),
            depth as nat,
        ),
    decreases depth, args@, 1int, 0int,
{
    let mut arg_env = caller.duplicate();
    let ra = eval_list(args, &mut arg_env, depth, out);
    let vals = match ra {
        Evaluated::Stopped(x) => {
            return x;
        },
        Evaluated::Done(vals) => vals,
    };
    if depth == 0 {
        return Some(Object::Error(String::from_str("maximum call depth exceeded")));
    }
    let ghost pm = names_of(params@);
    let ghost vm = objects_model(vals@);
    let mut child = captured.new_child();
    let ghost start = child.model();
    let mut i: usize = 0;
    while i < params.len() && i < vals.len()
        invariant
            pm == names_of(params@),
            vm == objects_model(vals@),
            i <= params@.len(),
            bind_from(start, pm, vm, 0) == bind_from(child.model(), pm, vm, i as int),
        decreases params@.len() - i,
    {
        let v = vals[i].duplicate();
        child.set(params[i].clone(), v);
        i = i + 1;
    }
    match binding {
        Some((n, f)) => child.set(n, f),
        None => {},
    }
    proof {
        lemma_block_model(*body);
    }
    let r = eval_statements(&body.statements, &mut child, depth - 1, out);
    match r {
        Some(Object::Return(v)) => Some(*v),
        other => other,
    }
}

/// Evaluates one statement.
pub fn eval_statement(st: &Statement, env: &mut Environment, depth: u64, out: &mut Output) -> (r:
    Option<Object>)
    ensures
        (opt_model(r), final(env).model(), final(out).model()) == sem_statement(st.model(), old(env).model(), old(out).model(), depth as nat),
    decreases depth, st, 2int, 0int,
{
    match st {
        Statement::Expression { value } => eval_expression(value, env, depth, out),
        Statement::Return { value } => {
            let r = eval_expression(value, env, depth, out);
            match r {
                Some(Object::Error(m)) => Some(Object::Error(m)),
                Some(v) => Some(Object::Return(Box::new(v))),
                None => None,
            }
        },
        Statement::Let { name, value } => {
            let r = eval_expression(value, env, depth, out);
            match r {
                Some(Object::Error(m)) => Some(Object::Error(m)),
                Some(v) => {
                    env.set(name.clone(), v);
                    None
                },
                None => None,
            }
        },
    }
}

/// Evaluates an expression, updating the environment as `let` statements in
/// nested blocks bind names.
pub fn eval_expression(e: &Expression, env: &mut Environment, depth: u64, out: &mut Output) -> (r:
    Option<Object>)
    ensures
        (opt_model(r), final(env).model(), final(out).model()) == sem_expr(e.model(), old(env).model(), old(out).model(), depth as nat),
    decreases depth, e, 2int, 0int,
{
    match e {
        Expression::Integer(i) => Some(Object::Integer(*i)),
        Expression::Boolean(b) => Some(Object::Boolean(*b)),
        Expression::String(s) => Some(Object::String(s.clone())),
        Expression::Identifier(n) => match env.get(n.as_str()) {
            Some(v) => Some(v.duplicate()),
            None => Some(error_with("identifier not found: ", n.as_str())),
        },
        Expression::PrefixOperator { operator, expression } => {
            let r = eval_expression(expression, env, depth, out);
            if is_stop(&r) {
                return r;
            }
            match r {
                Some(v) => Some(eval_prefix_expression(operator, v)),
                None => None,
            }
        },
        Expression::InfixOperator { operator, rh_expression, lh_expression } => {
            let rl = eval_expression(lh_expression, env, depth, out);
            if is_stop(&rl) {
                return rl;
            }
            let l = match rl {
                Some(v) => v,
                None => {
                    return None;
                },
            };
            let rr = eval_expression(rh_expression, env, depth, out);
            if is_stop(&rr) {
                return rr;
            }
            match rr {
                Some(v) => Some(eval_infix_expression(operator, l, v)),
                None => None,
            }
        },
        Expression::If { condition, consequence, alternative } => {
            proof {
                lemma_block_model(*consequence);
                if let Some(alt) = alternative {
                    lemma_block_model(*alt);
                }
            }
            let rc = eval_expression(condition, env, depth, out);
            if is_stop(&rc) {
                return rc;
            }
            let c = match rc {
                Some(v) => v,
                None => {
                    return None;
                },
            };
            if c.is_truthy() {
                eval_statements(&consequence.statements, env, depth, out)
            } else {
                match alternative {
                    Some(alt) => eval_statements(&alt.statements, env, depth, out),
                    None => Some(Object::Null),
                }
            }
        },
        Expression::Function { arguments, body } => Some(
            Object::Function {
                parameters: copy_names(arguments),
                environment: env.duplicate(),
                body: share_block(body),
            },
        ),
        Expression::FunctionCall { name, arguments } => {
            proof {
                lemma_list_models(*arguments, *name);
            }
            match &**name {
            Expression::Identifier(n) => {
                let callee = env.get(n.as_str());
                match callee {
                    Some(f) => {
                        match f {
                            Object::Function { parameters, environment, body } => {
                                let binding = Some((n.clone(), f.duplicate()));
                                return call_function(
                                    parameters,
                                    environment,
                                    body,
                                    binding,
                                    arguments,
                                    env,
                                    depth,
                                    out,
                                );
                            },
                            _ => {
                                return Some(error_with("function not found: ", n.as_str()));
                            },
                        }
                    },
                    None => {},
                }
                match Builtin::from_str(n.as_str()) {
                    Some(b) => {
                        let ra = eval_list(arguments, env, depth, out);
                        match ra {
                            Evaluated::Stopped(x) => x,
                            Evaluated::Done(vals) => Some(b.apply(&vals, out)),
                        }
                    },
                    None => Some(error_with("function not found: ", n.as_str())),
                }
            },
            Expression::Function { arguments: params, body } => {
                let captured = env.duplicate();
                call_function(params, &captured, body, None, arguments, env, depth, out)
            },
            _ => None,
        }
        },
        Expression::Array(elements) => {
            proof {
                lemma_list_models(*elements, Box::new(Expression::Boolean(false)));
            }
            let ra = eval_list(elements, env, depth, out);
            match ra {
                Evaluated::Stopped(x) => x,
                Evaluated::Done(vals) => {
                    proof {
                        lemma_array_model(vals);
                    }
                    Some(Object::Array(vals))
                },
            }
        },
        Expression::Index { left, index } => {
            let rl = eval_expression(left, env, depth, out);
            if is_stop(&rl) {
                return rl;
            }
            let l = match rl {
                Some(v) => v,
                None => {
                    return None;
                },
            };
            let ri = eval_expression(index, env, depth, out);
            if is_stop(&ri) {
                return ri;
            }
            match ri {
                Some(v) => Some(eval_index_expression(l, v)),
                None => None,
            }
        },
        Expression::HashLiteral(pairs) => {
            proof {
                lemma_hash_literal_model(*pairs);
            }
            eval_pairs(pairs, env, depth, out)
        },
    }
}

/// Runs a program with the given call depth; lines printed by builtins and
/// a requested exit go to `out`.
pub fn run_program(program: &Program, env: &mut Environment, depth: u64, out: &mut Output) -> (r:
    Option<Object>)
    ensures
        (opt_model(r), final(env).model(), final(out).model()) == sem_program(
            stmts_model(program.statements@),
            0,
            None,
            old(env).model(),
            old(out).model(),
            depth as nat,
        ),
{
    let ss = &program.statements;
    let mut acc: Option<Object> = None;
    let mut i: usize = 0;
    while i < ss.len()
        invariant
            ss == &program.statements,
            i <= ss@.len(),
            sem_program(stmts_model(ss@), 0, None, old(env).model(), old(out).model(), depth as nat) == sem_program(
                stmts_model(ss@),
                i as int,
                opt_model(acc),
                env.model(),
                out.model(),
                depth as nat,
            ),
        decreases ss@.len() - i,
    {
        let r = eval_statement(&ss[i], env, depth, out);
        match r {
            Some(Object::Return(v)) => {
                return Some(*v);
            },
            Some(Object::Error(m)) => {
                return Some(Object::Error(m));
            },
            other => {
                acc = other;
            },
        }
        i = i + 1;
    }
    acc
}

/// Evaluates a program in `environment`, which keeps the top-level bindings.
pub fn eval_program(program: &Program, environment: &mut Environment) -> (r: Option<Object>)
    ensures
        ({
            let (v, sc, _) = sem_program(
                stmts_model(program.statements@),
                0,
                None,
                old(environment).model(),
                no_output(),
                DEFAULT_CALL_DEPTH as nat,
            );
            opt_model(r) == v && final(environment).model() == sc
        }),
{
    let mut out = Output::new();
    run_program(program, environment, DEFAULT_CALL_DEPTH, &mut out)
}

/// No lines printed and no exit requested.
pub open spec fn no_output() -> Out {
    Out { lines: Seq::empty(), exit_code: None }
}

/// Evaluation of a syntax tree node in an environment; what builtins print
/// is dropped.
pub trait Evaluator {
    /// The result and the environment's model afterwards.
    spec fn eval_spec(&self, s: Scope) -> (Option<Value>, Scope);

    fn eval(&self, environment: &mut Environment) -> (r: Option<Object>)
        ensures
            (opt_model(r), final(environment).model()) == self.eval_spec(old(environment).model()),
    ;
}

impl Evaluator for Program {
    open spec fn eval_spec(&self, s: Scope) -> (Option<Value>, Scope) {
        {
        let (v, sc, _) = sem_program(stmts_model(self.statements@), 0, None, s, no_output(), DEFAULT_CALL_DEPTH as nat);
        (v, sc)
    }
    }

    fn eval(&self, environment: &mut Environment) -> (r: Option<Object>) {
        eval_program(self, environment)
    }
}

impl Evaluator for BlockStatement {
    open spec fn eval_spec(&self, s: Scope) -> (Option<Value>, Scope) {
        {
        let (v, sc, _) = sem_statements(self.model(), 0, None, s, no_output(), DEFAULT_CALL_DEPTH as nat);
        (v, sc)
    }
    }

    fn eval(&self, environment: &mut Environment) -> (r: Option<Object>) {
        let mut out = Output::new();
        proof {
            lemma_block_model(*self);
        }
        eval_statements(&self.statements, environment, DEFAULT_CALL_DEPTH, &mut out)
    }
}

impl Evaluator for Statement {
    open spec fn eval_spec(&self, s: Scope) -> (Option<Value>, Scope) {
        {
        let (v, sc, _) = sem_statement(self.model(), s, no_output(), DEFAULT_CALL_DEPTH as nat);
        (v, sc)
    }
    }

    fn eval(&self, environment: &mut Environment) -> (r: Option<Object>) {
        let mut out = Output::new();
        eval_statement(self, environment, DEFAULT_CALL_DEPTH, &mut out)
    }
}

impl Evaluator for Expression {
    open spec fn eval_spec(&self, s: Scope) -> (Option<Value>, Scope) {
        {
        let (v, sc, _) = sem_expr(self.model(), s, no_output(), DEFAULT_CALL_DEPTH as nat);
        (v, sc)
    }
    }

    fn eval(&self, environment: &mut Environment) -> (r: Option<Object>) {
        let mut out = Output::new();
        eval_expression(self, environment, DEFAULT_CALL_DEPTH, &mut out)
    }
}

} // verus!
