use vstd::prelude::*;

use crate::object::{kind_text, truthy, Object, Value};
use crate::token::Token;

verus! {

/// Division rounding toward zero, as machine integers divide.
pub open spec fn trunc_div(x: int, d: int) -> int {
    if x == 0 {
        0
    } else if x > 0 && d > 0 {
        x / d
    } else if x < 0 && d < 0 {
        (-x) / (-d)
    } else if x < 0 {
        -((-x) / d)
    } else {
        -(x / (-d))
    }
}

pub open spec fn fits(i: int) -> bool {
    isize::MIN <= i <= isize::MAX
}

/// An integer result, or an error when it does not fit a machine integer.
pub open spec fn int_result(i: int) -> Value {
    if fits(i) {
        Value::Integer(i)
    } else {
        Value::Error("integer overflow"@)
    }
}

pub open spec fn unknown_infix(kind: Seq<char>, op: Token) -> Value {
    Value::Error("unknown operator: "@ + kind + " "@ + op.spec_text() + " "@ + kind)
}

/// The value of `a op b` on integers.
pub open spec fn integer_infix(op: Token, a: int, b: int) -> Value {
    match op {
        Token::PlusSign => int_result(a + b),
        Token::MinusSign => int_result(a - b),
        Token::Asterisk => int_result(a * b),
        Token::Slash => if b == 0 {
            Value::Error("division by zero"@)
        } else {
            int_result(trunc_div(a, b))
        },
        Token::LessThan => Value::Boolean(a < b),
        Token::GreaterThan => Value::Boolean(a > b),
        Token::Equal => Value::Boolean(a == b),
        Token::NotEqual => Value::Boolean(a != b),
        _ => unknown_infix("INTEGER"@, op),
    }
}

/// The value of `l op r`, dispatched on the kinds of both operands.
pub open spec fn infix(op: Token, l: Value, r: Value) -> Value {
    match (l, r) {
        (Value::Integer(a), Value::Integer(b)) => integer_infix(op, a, b),
        (Value::Boolean(a), Value::Boolean(b)) => match op {
            Token::Equal => Value::Boolean(a == b),
            Token::NotEqual => Value::Boolean(a != b),
            _ => unknown_infix("BOOLEAN"@, op),
        },
        (Value::Str(a), Value::Str(b)) => match op {
            Token::PlusSign => Value::Str(a + b),
            _ => unknown_infix("STRING"@, op),
        },
        _ => Value::Error(
            "type mismatch: "@ + kind_text(l) + " "@ + op.spec_text() + " "@ + kind_text(r),
        ),
    }
}

/// The value of `op v` for a prefix operator.
pub open spec fn prefix(op: Token, v: Value) -> Value {
    match op {
        Token::ExclamationMark => Value::Boolean(!truthy(v)),
        Token::MinusSign => match v {
            Value::Integer(i) => int_result(-i),
            _ => Value::Error("unknown operator: -"@ + kind_text(v)),
        },
        _ => Value::Error("unknown operator: "@ + op.spec_text() + kind_text(v)),
    }
}

fn error_of(parts: &str) -> (r: Object)
    ensures
        r.model() == Value::Error(parts@),
{
    Object::Error(String::from_str(parts))
}

fn unknown_infix_error(kind: &str, op: &Token) -> (r: Object)
    ensures
        r.model() == unknown_infix(kind@, *op),
{
    let mut m = String::from_str("unknown operator: ");
    m.append(kind);
    m.append(" ");
    op.push_text(&mut m);
    m.append(" ");
    m.append(kind);
    Object::Error(m)
}

fn int_object(r: Option<isize>, exact: Ghost<int>) -> (o: Object)
    requires
        r == (if fits(exact@) { Some(exact@ as isize) } else { None::<isize> }),
    ensures
        o.model() == int_result(exact@),
{
    match r {
        Some(v) => Object::Integer(v),
        None => error_of("integer overflow"),
    }
}

/// Applies an operator to two integers.
pub fn eval_integer_infix_expression(operator: &Token, a: isize, b: isize) -> (r: Object)
    ensures
        r.model() == integer_infix(*operator, a as int, b as int),
{
    match operator {
        Token::PlusSign => int_object(a.checked_add(b), Ghost(a + b)),
        Token::MinusSign => int_object(a.checked_sub(b), Ghost(a - b)),
        Token::Asterisk => int_object(a.checked_mul(b), Ghost(a * b)),
        Token::Slash => {
            if b == 0 {
                error_of("division by zero")
            } else {
                int_object(a.checked_div(b), Ghost(trunc_div(a as int, b as int)))
            }
        },
        Token::LessThan => Object::Boolean(a < b),
        Token::GreaterThan => Object::Boolean(a > b),
        Token::Equal => Object::Boolean(a == b),
        Token::NotEqual => Object::Boolean(a != b),
        _ => unknown_infix_error("INTEGER", operator),
    }
}

/// Applies an infix operator to two evaluated operands.
pub fn eval_infix_expression(operator: &Token, lh_value: Object, rh_value: Object) -> (r: Object)
    ensures
        r.model() == infix(*operator, lh_value.model(), rh_value.model()),
{
    match (&lh_value, &rh_value) {
        (Object::Integer(a), Object::Integer(b)) => eval_integer_infix_expression(operator, *a, *b),
        (Object::Boolean(a), Object::Boolean(b)) => match operator {
            Token::Equal => Object::Boolean(*a == *b),
            Token::NotEqual => Object::Boolean(*a != *b),
            _ => unknown_infix_error("BOOLEAN", operator),
        },
        (Object::String(a), Object::String(b)) => match operator {
            Token::PlusSign => {
                let mut s = a.clone();
                s.append(b.as_str());
                Object::String(s)
            },
            _ => unknown_infix_error("STRING", operator),
        },
        _ => {
            let mut m = String::from_str("type mismatch: ");
            m.append(lh_value.kind());
            m.append(" ");
            operator.push_text(&mut m);
            m.append(" ");
            m.append(rh_value.kind());
            Object::Error(m)
        },
    }
}

/// Applies a prefix operator to an evaluated operand.
pub fn eval_prefix_expression(operator: &Token, value: Object) -> (r: Object)
    ensures
        r.model() == prefix(*operator, value.model()),
{
    match operator {
        Token::ExclamationMark => Object::Boolean(!value.is_truthy()),
        Token::MinusSign => match &value {
            Object::Integer(i) => {
                if *i == isize::MIN {
                    error_of("integer overflow")
                } else {
                    Object::Integer(-*i)
                }
            },
            _ => {
                let mut m = String::from_str("unknown operator: -");
                m.append(value.kind());
                Object::Error(m)
            },
        },
        _ => {
            let mut m = String::from_str("unknown operator: ");
            operator.push_text(&mut m);
            m.append(value.kind());
            Object::Error(m)
        },
    }
}

} // verus!
