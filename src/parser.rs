use std::rc::Rc;
use vstd::prelude::*;

use crate::ast::{
    exprs_model, lemma_block_model, lemma_hash_literal_model, lemma_list_models, names_of, pairs_of,
    stmts_model, BlockStatement, ExprM, Expression, Program, Statement, StmtM,
};
use crate::lexer::{digits_end, letters_end, lexes, quote_end, skip_space, Lexer};
use crate::token::{ExpressionPrecedence, Token};

verus! {

/// A token sequence that ends with the end marker.
pub open spec fn wf_tokens(t: Seq<Token>) -> bool {
    t.len() > 0 && t.last() == Token::Eof
}

/// `b` keeps every message of `a`, in place, and may add more after them.
pub open spec fn extends(a: Seq<String>, b: Seq<String>) -> bool {
    a.len() <= b.len() && forall|i: int| 0 <= i < a.len() ==> #[trigger] b[i] == a[i]
}

/// The position after `pos`, or `pos` itself at the end marker.
pub open spec fn step(t: Seq<Token>, pos: int) -> int {
    if t.len() - pos > 1 {
        pos + 1
    } else {
        pos
    }
}

/// The token after `pos`; the end marker past the end.
pub open spec fn peek_at(t: Seq<Token>, pos: int) -> Token {
    if t.len() - pos > 1 {
        t[pos + 1]
    } else {
        Token::Eof
    }
}

/// Tokens that can begin an expression.
pub open spec fn starts_expression(tok: Token) -> bool {
    match tok {
        Token::Integer(_) | Token::Identifier(_) | Token::String(_) | Token::True | Token::False
        | Token::LeftBracket | Token::LeftBrace | Token::MinusSign
        | Token::ExclamationMark | Token::LeftParen | Token::If | Token::Function => true,
        _ => false,
    }
}

/// Whether precedence climbing at `precedence` stops after the token at `pos`.
pub open spec fn climb_stops(t: Seq<Token>, pos: int, precedence: ExpressionPrecedence) -> bool {
    peek_at(t, pos) == Token::Semicolon || !(precedence.spec_rank()
        < peek_at(t, pos).spec_precedence().spec_rank())
}

/// The operator at the root of `e`, when `e` is an infix expression, binds
/// more strongly than `precedence`.
pub open spec fn root_binds_tighter(e: Expression, precedence: ExpressionPrecedence) -> bool {
    e is InfixOperator ==> precedence.spec_rank()
        < e->InfixOperator_operator.spec_precedence().spec_rank()
}

/// The texts of a list of diagnostics.
pub open spec fn texts(v: Seq<String>) -> Seq<Seq<char>> {
    Seq::new(v.len(), |i: int| v[i]@)
}

/// The diagnostic for a token other than the one expected.
pub open spec fn msg_expect(expected: Seq<char>, got: Token) -> Seq<char> {
    "expected next token to be "@ + expected + ", got "@ + got.spec_text()
}

/// The diagnostic for a token that cannot begin an expression.
pub open spec fn msg_no_parser(got: Token) -> Seq<char> {
    "no expression statement parser for "@ + got.spec_text()
}

pub open spec fn closes(tok: Token, closing: Closing) -> bool {
    match (tok, closing) {
        (Token::RightParen, Closing::Paren) => true,
        (Token::RightBracket, Closing::Bracket) => true,
        _ => false,
    }
}

pub open spec fn closing_name(closing: Closing) -> Seq<char> {
    match closing {
        Closing::Paren => "RightParen"@,
        Closing::Bracket => "RightBracket"@,
    }
}

pub open spec fn opt_expr_model(e: Option<Expression>) -> Option<ExprM> {
    match e {
        Some(x) => Some(x.model()),
        None => None,
    }
}

pub open spec fn res_expr_model(e: Result<Expression, Expression>) -> Result<ExprM, ExprM> {
    match e {
        Ok(x) => Ok(x.model()),
        Err(x) => Err(x.model()),
    }
}

pub open spec fn opt_stmt_model(s: Option<Statement>) -> Option<StmtM> {
    match s {
        Some(x) => Some(x.model()),
        None => None,
    }
}

/// The expression that the parser reads at `pos` at binding level
/// `precedence`: its model (none when malformed), the position of its last
/// token, and the diagnostics it reports, in order.
pub open spec fn g_expr(t: Seq<Token>, pos: int, precedence: ExpressionPrecedence) -> (
    Option<ExprM>,
    int,
    Seq<Seq<char>>,
)
    decreases t.len() - pos, 3int,
{
    if pos < 0 || pos >= t.len() {
        (None, pos, Seq::empty())
    } else {
        let (first, p0, d0) = g_first(t, pos);
        match first {
            None => (None, p0, d0),
            Some(left) => if p0 < pos || p0 >= t.len() {
                (None, p0, d0)
            } else {
                g_climb(t, pos, precedence, left, p0, d0)
            },
        }
    }
}

/// The leading form of an expression at `pos`: a literal, a name, or a
/// prefix, grouped, array, hash, `if` or `fn` form.
pub open spec fn g_first(t: Seq<Token>, pos: int) -> (Option<ExprM>, int, Seq<Seq<char>>)
    decreases t.len() - pos, 2int,
{
    if pos < 0 || pos >= t.len() {
        (None, pos, Seq::empty())
    } else {
        match t[pos] {
            Token::Integer(v) => (Some(ExprM::Integer(v)), pos, Seq::empty()),
            Token::Identifier(n) => (Some(ExprM::Identifier(n@)), pos, Seq::empty()),
            Token::String(x) => (Some(ExprM::Str(x@)), pos, Seq::empty()),
            Token::True => (Some(ExprM::Boolean(true)), pos, Seq::empty()),
            Token::False => (Some(ExprM::Boolean(false)), pos, Seq::empty()),
            Token::LeftBracket => g_array(t, pos),
            Token::LeftBrace => g_hash(t, pos),
            Token::MinusSign | Token::ExclamationMark => g_prefix(t, pos),
            Token::LeftParen => g_grouped(t, pos),
            Token::If => g_if(t, pos),
            Token::Function => g_fn(t, pos),
            other => (None, pos, seq![msg_no_parser(other)]),
        }
    }
}

/// A parse result of an expression matches its model, end and diagnostics.
pub open spec fn expr_outcome(
    r: (Option<Expression>, usize),
    g: (Option<ExprM>, int, Seq<Seq<char>>),
    before: Seq<String>,
    after: Seq<String>,
) -> bool {
    opt_expr_model(r.0) == g.0 && r.1 as int == g.1 && texts(after) == texts(before) + g.2
}

/// A folding step's result matches its model, end and diagnostics.
pub open spec fn fold_outcome(
    r: (Result<Expression, Expression>, usize),
    g: (Result<ExprM, ExprM>, int, Seq<Seq<char>>),
    before: Seq<String>,
    after: Seq<String>,
) -> bool {
    res_expr_model(r.0) == g.0 && r.1 as int == g.1 && texts(after) == texts(before) + g.2
}

/// A statement's parse result matches its model, end and diagnostics.
pub open spec fn stmt_outcome(
    r: (Option<Statement>, usize),
    g: (Option<StmtM>, int, Seq<Seq<char>>),
    before: Seq<String>,
    after: Seq<String>,
) -> bool {
    opt_stmt_model(r.0) == g.0 && r.1 as int == g.1 && texts(after) == texts(before) + g.2
}

/// Folds calls, indexing and infix operators that bind more strongly than
/// `precedence` into `left`, whose last token is at `p`; `d` holds the
/// diagnostics so far.
pub open spec fn g_climb(
    t: Seq<Token>,
    pos: int,
    precedence: ExpressionPrecedence,
    left: ExprM,
    p: int,
    d: Seq<Seq<char>>,
) -> (Option<ExprM>, int, Seq<Seq<char>>)
    decreases t.len() - p, 1int,
{
    if p < pos || p >= t.len() || climb_stops(t, p, precedence) {
        (Some(left), p, d)
    } else {
        let q = step(t, p);
        if q <= p {
            (Some(left), p, d)
        } else {
            let (res, q2, d2) = match peek_at(t, p) {
                Token::LeftParen => g_call(t, q, left),
                Token::LeftBracket => g_index(t, q, left),
                _ => g_infix(t, q, left),
            };
            match res {
                Ok(e) => if q2 <= p || q2 >= t.len() {
                    (Some(e), q2, d + d2)
                } else {
                    g_climb(t, pos, precedence, e, q2, d + d2)
                },
                Err(l) => (Some(l), q2, d + d2),
            }
        }
    }
}

/// The right operand of the infix operator at `pos`, folded with `left`.
pub open spec fn g_infix(t: Seq<Token>, pos: int, left: ExprM) -> (
    Result<ExprM, ExprM>,
    int,
    Seq<Seq<char>>,
)
    decreases t.len() - pos, 0int,
{
    if pos < 0 || pos >= t.len() || t.len() - pos <= 1 {
        (Err(left), pos, Seq::empty())
    } else {
        let operator = t[pos];
        let (r, q, d) = g_expr(t, pos + 1, operator.spec_precedence());
        match r {
            None => (Err(left), q, d),
            Some(right) => (
                Ok(ExprM::Infix { operator, right: Box::new(right), left: Box::new(left) }),
                q,
                d,
            ),
        }
    }
}

/// The index after the `[` at `pos`, applied to `left`.
pub open spec fn g_index(t: Seq<Token>, pos: int, left: ExprM) -> (
    Result<ExprM, ExprM>,
    int,
    Seq<Seq<char>>,
)
    decreases t.len() - pos, 0int,
{
    if pos < 0 || pos >= t.len() || t.len() - pos <= 1 {
        (Err(left), pos, Seq::empty())
    } else {
        let (r, q, d) = g_expr(t, pos + 1, ExpressionPrecedence::Lowest);
        match r {
            None => (Err(left), q, d),
            Some(i) => if peek_at(t, q) != Token::RightBracket {
                (Err(left), q, d)
            } else {
                (Ok(ExprM::Index { left: Box::new(left), index: Box::new(i) }), step(t, q), d)
            },
        }
    }
}

/// The arguments of a call whose `(` is at `pos`, applied to `function`.
pub open spec fn g_call(t: Seq<Token>, pos: int, function: ExprM) -> (
    Result<ExprM, ExprM>,
    int,
    Seq<Seq<char>>,
)
    decreases t.len() - pos, 1int,
{
    let (args, q, d) = g_list(t, pos, Closing::Paren);
    match args {
        Some(a) => (Ok(ExprM::Call { function: Box::new(function), args: a }), q, d),
        None => (Err(function), q, d),
    }
}

/// The prefix operator at `pos` applied to its operand.
pub open spec fn g_prefix(t: Seq<Token>, pos: int) -> (Option<ExprM>, int, Seq<Seq<char>>)
    decreases t.len() - pos, 1int,
{
    if pos < 0 || pos >= t.len() || step(t, pos) <= pos {
        (None, pos, Seq::empty())
    } else {
        let (r, q, d) = g_expr(t, step(t, pos), ExpressionPrecedence::Prefix);
        match r {
            None => (None, q, d),
            Some(e) => (Some(ExprM::Prefix { operator: t[pos], operand: Box::new(e) }), q, d),
        }
    }
}

/// The expression inside the `(` at `pos`, through the `)`.
pub open spec fn g_grouped(t: Seq<Token>, pos: int) -> (Option<ExprM>, int, Seq<Seq<char>>)
    decreases t.len() - pos, 1int,
{
    if pos < 0 || pos >= t.len() || step(t, pos) <= pos {
        (None, pos, Seq::empty())
    } else {
        let (r, q, d) = g_expr(t, step(t, pos), ExpressionPrecedence::Lowest);
        match r {
            None => (None, q, d),
            Some(e) => if peek_at(t, q) != Token::RightParen {
                (None, q, d)
            } else {
                (Some(e), step(t, q), d)
            },
        }
    }
}

/// An array literal whose `[` is at `pos`.
pub open spec fn g_array(t: Seq<Token>, pos: int) -> (Option<ExprM>, int, Seq<Seq<char>>)
    decreases t.len() - pos, 1int,
{
    let (items, q, d) = g_list(t, pos, Closing::Bracket);
    match items {
        Some(v) => (Some(ExprM::Array(v)), q, d),
        None => (None, q, d),
    }
}

/// A comma-separated list of expressions after the opening delimiter at
/// `pos`, through the closing one.
pub open spec fn g_list(t: Seq<Token>, pos: int, closing: Closing) -> (
    Option<Seq<ExprM>>,
    int,
    Seq<Seq<char>>,
)
    decreases t.len() - pos, 0int,
{
    if pos < 0 || pos >= t.len() {
        (None, pos, Seq::empty())
    } else if closes(peek_at(t, pos), closing) {
        (Some(Seq::empty()), step(t, pos), Seq::empty())
    } else if t.len() - pos <= 1 {
        (None, pos, Seq::empty())
    } else {
        let (first, p, d) = g_expr(t, pos + 1, ExpressionPrecedence::Lowest);
        match first {
            None => (None, p, d),
            Some(e) => if p <= pos || p >= t.len() {
                (None, p, d)
            } else {
                g_list_more(t, p, seq![e], d, closing)
            },
        }
    }
}

/// The rest of a list after the element ending at `p`.
pub open spec fn g_list_more(
    t: Seq<Token>,
    p: int,
    acc: Seq<ExprM>,
    d: Seq<Seq<char>>,
    closing: Closing,
) -> (Option<Seq<ExprM>>, int, Seq<Seq<char>>)
    decreases t.len() - p, 0int,
{
    if p < 0 || p >= t.len() {
        (None, p, d)
    } else if peek_at(t, p) == Token::Comma {
        let c = step(t, p);
        if t.len() - c <= 1 || c + 1 <= p {
            (None, c, d)
        } else {
            let (next, q, d2) = g_expr(t, c + 1, ExpressionPrecedence::Lowest);
            match next {
                None => (None, q, d + d2),
                Some(e) => if q <= p || q >= t.len() {
                    (None, q, d + d2)
                } else {
                    g_list_more(t, q, acc.push(e), d + d2, closing)
                },
            }
        }
    } else if closes(peek_at(t, p), closing) {
        (Some(acc), step(t, p), d)
    } else {
        (None, p, d.push(msg_expect(closing_name(closing), peek_at(t, p))))
    }
}

/// A hash literal whose `{` is at `pos`.
pub open spec fn g_hash(t: Seq<Token>, pos: int) -> (Option<ExprM>, int, Seq<Seq<char>>)
    decreases t.len() - pos, 1int,
{
    g_hash_more(t, pos, Seq::empty(), Seq::empty())
}

/// The entries of a hash literal after position `p`, following those in `acc`.
pub open spec fn g_hash_more(
    t: Seq<Token>,
    p: int,
    acc: Seq<(ExprM, ExprM)>,
    d: Seq<Seq<char>>,
) -> (Option<ExprM>, int, Seq<Seq<char>>)
    decreases t.len() - p, 0int,
{
    if p < 0 || p >= t.len() {
        (None, p, d)
    } else if peek_at(t, p) == Token::RightBrace {
        (Some(ExprM::Hash(acc)), step(t, p), d)
    } else if t.len() - p <= 1 {
        (None, p, d)
    } else {
        let (key, q, d1) = g_expr(t, p + 1, ExpressionPrecedence::Lowest);
        match key {
            None => (None, q, d + d1),
            Some(k) => if peek_at(t, q) != Token::Colon {
                (None, q, (d + d1).push(msg_expect("Colon"@, peek_at(t, q))))
            } else {
                let c = step(t, q);
                if t.len() - c <= 1 || c + 1 <= p {
                    (None, c, d + d1)
                } else {
                    let (value, q2, d2) = g_expr(t, c + 1, ExpressionPrecedence::Lowest);
                    match value {
                        None => (None, q2, d + d1 + d2),
                        Some(v) => {
                            let next = peek_at(t, q2);
                            if next == Token::Comma || next == Token::RightBrace {
                                let p2 = if next == Token::Comma {
                                    step(t, q2)
                                } else {
                                    q2
                                };
                                if p2 <= p || p2 >= t.len() {
                                    (None, p2, d + d1 + d2)
                                } else {
                                    g_hash_more(t, p2, acc.push((k, v)), d + d1 + d2)
                                }
                            } else {
                                (None, q2, (d + d1 + d2).push(msg_expect("RightBrace"@, next)))
                            }
                        },
                    }
                }
            },
        }
    }
}

/// The statements of a block whose `{` is at `pos`, up to the closing `}`
/// or the end of the input.
pub open spec fn g_block(t: Seq<Token>, pos: int) -> (Seq<StmtM>, int, Seq<Seq<char>>)
    decreases t.len() - pos, 3int,
{
    let p = step(t, pos);
    if pos < 0 || pos >= t.len() || p <= pos {
        (Seq::empty(), p, Seq::empty())
    } else {
        g_block_more(t, pos, p, Seq::empty(), Seq::empty())
    }
}

pub open spec fn g_block_more(
    t: Seq<Token>,
    pos: int,
    p: int,
    acc: Seq<StmtM>,
    d: Seq<Seq<char>>,
) -> (Seq<StmtM>, int, Seq<Seq<char>>)
    decreases t.len() - p, 5int,
{
    if p < 0 || p >= t.len() || t[p] == Token::RightBrace || t[p] == Token::Eof || p <= pos {
        (acc, p, d)
    } else {
        let (st, q, d1) = g_statement(t, p);
        let acc2 = match st {
            Some(s) => acc.push(s),
            None => acc,
        };
        let n = step(t, q);
        if n <= p || n >= t.len() {
            (acc2, n, d + d1)
        } else {
            g_block_more(t, pos, n, acc2, d + d1)
        }
    }
}

/// `if (` condition `) {` block `}`, with an optional `else {` block `}`.
pub open spec fn g_if(t: Seq<Token>, pos: int) -> (Option<ExprM>, int, Seq<Seq<char>>)
    decreases t.len() - pos, 1int,
{
    if pos < 0 || pos >= t.len() {
        (None, pos, Seq::empty())
    } else if peek_at(t, pos) != Token::LeftParen {
        (None, pos, seq![msg_expect("LeftParen"@, peek_at(t, pos))])
    } else {
        let p = step(t, pos);
        if t.len() - p <= 1 || p < pos {
            (None, p, Seq::empty())
        } else {
            let (cond, q, d1) = g_expr(t, p + 1, ExpressionPrecedence::Lowest);
            match cond {
                None => (None, q, d1),
                Some(c) => if peek_at(t, q) != Token::RightParen {
                    (None, q, d1.push(msg_expect("RightParen"@, peek_at(t, q))))
                } else {
                    let q1 = step(t, q);
                    if peek_at(t, q1) != Token::LeftBrace {
                        (None, q1, d1.push(msg_expect("LeftBrace"@, peek_at(t, q1))))
                    } else {
                        let q2 = step(t, q1);
                        if q2 <= pos || q2 >= t.len() {
                            (None, q2, d1)
                        } else {
                            let (cons, q3, d2) = g_block(t, q2);
                            if peek_at(t, q3) == Token::Else {
                                let q4 = step(t, q3);
                                if peek_at(t, q4) != Token::LeftBrace {
                                    (None, q4, (d1 + d2).push(msg_expect("LeftBrace"@, peek_at(t, q4))))
                                } else {
                                    let q5 = step(t, q4);
                                    if q5 <= pos || q5 >= t.len() {
                                        (None, q5, d1 + d2)
                                    } else {
                                        let (alt, q6, d3) = g_block(t, q5);
                                        (
                                            Some(
                                                ExprM::If {
                                                    condition: Box::new(c),
                                                    consequence: cons,
                                                    alternative: Some(alt),
                                                },
                                            ),
                                            q6,
                                            d1 + d2 + d3,
                                        )
                                    }
                                }
                            } else {
                                (
                                    Some(
                                        ExprM::If {
                                            condition: Box::new(c),
                                            consequence: cons,
                                            alternative: None,
                                        },
                                    ),
                                    q3,
                                    d1 + d2,
                                )
                            }
                        }
                    }
                },
            }
        }
    }
}

/// The parameter names after the first, read while a comma follows the name
/// at `p`, through the closing `)`.
pub open spec fn g_params_more(t: Seq<Token>, p: int, acc: Seq<Seq<char>>) -> (
    Option<Seq<Seq<char>>>,
    int,
    Seq<Seq<char>>,
)
    decreases t.len() - p,
{
    if peek_at(t, p) == Token::Comma {
        let q = step(t, step(t, p));
        if q <= p || q >= t.len() {
            (None, q, Seq::empty())
        } else if !(t[q] is Identifier) {
            (None, q, seq![msg_expect("Identifier"@, t[q])])
        } else {
            g_params_more(t, q, acc.push(t[q]->Identifier_0@))
        }
    } else if peek_at(t, p) == Token::RightParen {
        (Some(acc), step(t, p), Seq::empty())
    } else {
        (None, p, seq![msg_expect("RightParen"@, peek_at(t, p))])
    }
}

/// The names of a parameter list whose `(` is at `pos`, through its `)`.
pub open spec fn g_params(t: Seq<Token>, pos: int) -> (Option<Seq<Seq<char>>>, int, Seq<Seq<char>>) {
    if peek_at(t, pos) == Token::RightParen {
        (Some(Seq::empty()), step(t, pos), Seq::empty())
    } else {
        let p = step(t, pos);
        if !(0 <= p < t.len()) {
            (None, p, Seq::empty())
        } else if t[p] is Identifier {
            g_params_more(t, p, seq![t[p]->Identifier_0@])
        } else {
            (None, p, seq![msg_expect("Identifier"@, t[p])])
        }
    }
}

/// `fn (` parameters `) {` body `}` with `fn` at `pos`.
pub open spec fn g_fn(t: Seq<Token>, pos: int) -> (Option<ExprM>, int, Seq<Seq<char>>)
    decreases t.len() - pos, 1int,
{
    if pos < 0 || pos >= t.len() {
        (None, pos, Seq::empty())
    } else if peek_at(t, pos) != Token::LeftParen {
        (None, pos, seq![msg_expect("LeftParen"@, peek_at(t, pos))])
    } else {
        let (params, q, d1) = g_params(t, step(t, pos));
        match params {
            None => (None, q, d1),
            Some(names) => if peek_at(t, q) != Token::LeftBrace {
                (None, q, d1.push(msg_expect("LeftBrace"@, peek_at(t, q))))
            } else {
                let q1 = step(t, q);
                if q1 <= pos || q1 >= t.len() {
                    (None, q1, d1)
                } else {
                    let (body, q2, d2) = g_block(t, q1);
                    (Some(ExprM::Function { parameters: names, body }), q2, d1 + d2)
                }
            },
        }
    }
}

/// The position after an optional `;` that follows position `q`.
pub open spec fn semicolon_end(t: Seq<Token>, q: int) -> int {
    if peek_at(t, q) == Token::Semicolon {
        step(t, q)
    } else {
        q
    }
}

/// The statement that the parser reads at `pos`, the position of its last
/// token, and its diagnostics.
pub open spec fn g_statement(t: Seq<Token>, pos: int) -> (Option<StmtM>, int, Seq<Seq<char>>)
    decreases t.len() - pos, 4int,
{
    if pos < 0 || pos >= t.len() {
        (None, pos, Seq::empty())
    } else {
        match t[pos] {
            Token::Let => match peek_at(t, pos) {
                Token::Identifier(name) => {
                    let p = step(t, pos);
                    if peek_at(t, p) != Token::EqualSign {
                        (None, p, seq![msg_expect("EqualSign"@, peek_at(t, p))])
                    } else {
                        let p2 = step(t, p);
                        if t.len() - p2 <= 1 || p2 < pos {
                            (None, p2, Seq::empty())
                        } else {
                            let (v, q, d) = g_expr(t, p2 + 1, ExpressionPrecedence::Lowest);
                            match v {
                                None => (None, q, d),
                                Some(value) => (
                                    Some(StmtM::Let { name: name@, value }),
                                    semicolon_end(t, q),
                                    d,
                                ),
                            }
                        }
                    }
                },
                other => (None, pos, seq![msg_expect("Identifier"@, other)]),
            },
            Token::Return => {
                let (v, q, d) = g_expr(t, step(t, pos), ExpressionPrecedence::Lowest);
                match v {
                    None => (None, q, d),
                    Some(value) => (Some(StmtM::Return { value }), semicolon_end(t, q), d),
                }
            },
            _ => {
                let (v, q, d) = g_expr(t, pos, ExpressionPrecedence::Lowest);
                match v {
                    None => (None, q, d),
                    Some(value) => (Some(StmtM::Expression { value }), semicolon_end(t, q), d),
                }
            },
        }
    }
}

/// The statements of a program from `p` on, after those in `acc`, and all
/// diagnostics; a malformed statement is left out and parsing goes on.
pub open spec fn g_program(t: Seq<Token>, p: int, acc: Seq<StmtM>, d: Seq<Seq<char>>) -> (
    Seq<StmtM>,
    Seq<Seq<char>>,
)
    decreases t.len() - p,
{
    if p < 0 || p >= t.len() || t[p] == Token::Eof {
        (acc, d)
    } else {
        let (st, q, d1) = g_statement(t, p);
        let acc2 = match st {
            Some(s) => acc.push(s),
            None => acc,
        };
        let n = step(t, q);
        if n <= p || n >= t.len() {
            (acc2, d + d1)
        } else {
            g_program(t, n, acc2, d + d1)
        }
    }
}

pub proof fn lemma_no_diagnostics(e: Seq<String>)
    ensures
        texts(e) + Seq::<Seq<char>>::empty() == texts(e),
{
    assert(texts(e) + Seq::<Seq<char>>::empty() =~= texts(e));
}

fn advance(t: &Vec<Token>, pos: usize) -> (r: usize)
    requires
        wf_tokens(t@),
        pos < t@.len(),
    ensures
        r == step(t@, pos as int),
        r < t@.len(),
        t@[pos as int] != Token::Eof ==> r == pos + 1,
{
    if t.len() - pos > 1 {
        pos + 1
    } else {
        pos
    }
}

fn peek(t: &Vec<Token>, pos: usize) -> (r: &Token)
    requires
        wf_tokens(t@),
        pos < t@.len(),
    ensures
        *r == peek_at(t@, pos as int),
{
    if t.len() - pos > 1 {
        &t[pos + 1]
    } else {
        &t[t.len() - 1]
    }
}

fn report(errors: &mut Vec<String>, expected: &str, got: &Token)
    ensures
        extends(old(errors)@, final(errors)@),
        final(errors)@.len() == old(errors)@.len() + 1,
        texts(final(errors)@) == texts(old(errors)@).push(msg_expect(expected@, *got)),
        texts(final(errors)@) == texts(old(errors)@) + seq![msg_expect(expected@, *got)],
{
    let mut m = String::from_str("expected next token to be ");
    m.append(expected);
    m.append(", got ");
    got.push_text(&mut m);
    let ghost before = errors@;
    errors.push(m);
    assert(texts(errors@) =~= texts(before).push(msg_expect(expected@, *got)));
    assert(texts(errors@) =~= texts(before) + seq![msg_expect(expected@, *got)]);
}

fn report_token(errors: &mut Vec<String>, prefix: &str, got: &Token)
    ensures
        extends(old(errors)@, final(errors)@),
        final(errors)@.len() == old(errors)@.len() + 1,
        texts(final(errors)@) == texts(old(errors)@).push(prefix@ + got.spec_text()),
        texts(final(errors)@) == texts(old(errors)@) + seq![prefix@ + got.spec_text()],
{
    let mut m = String::from_str(prefix);
    got.push_text(&mut m);
    let ghost before = errors@;
    errors.push(m);
    assert(texts(errors@) =~= texts(before).push(prefix@ + got.spec_text()));
    assert(texts(errors@) =~= texts(before) + seq![prefix@ + got.spec_text()]);
}

/// Which delimiter closes a list of expressions.
pub enum Closing {
    Paren,
    Bracket,
}

fn is_closing(tok: &Token, closing: &Closing) -> (r: bool)
    ensures
        r ==> *tok != Token::Eof,
        r == closes(*tok, *closing),
{
    match (tok, closing) {
        (Token::RightParen, Closing::Paren) => true,
        (Token::RightBracket, Closing::Bracket) => true,
        _ => false,
    }
}

/// Parses an expression whose first token is at `pos`, folding in infix
/// operators that bind more strongly than `precedence`. Returns the
/// expression, if any, and the position of its last token.
pub fn parse_expression(
    t: &Vec<Token>,
    pos: usize,
    precedence: ExpressionPrecedence,
    errors: &mut Vec<String>,
) -> (r: (Option<Expression>, usize))
    requires
        wf_tokens(t@),
        pos < t@.len(),
    ensures
        pos <= r.1 < t@.len(),
        extends(old(errors)@, final(errors)@),
        expr_outcome(r, g_expr(t@, pos as int, precedence), old(errors)@, final(errors)@),
        r.0 is Some && t@[pos as int] != Token::LeftParen ==> root_binds_tighter(
            r.0.unwrap(),
            precedence,
        ),
        !starts_expression(t@[pos as int]) ==> r.0 is None && r.1 == pos
            && final(errors)@.len() == old(errors)@.len() + 1,
        t@[pos as int] is Integer && climb_stops(t@, pos as int, precedence) ==> r == (
            Some(Expression::Integer(t@[pos as int]->Integer_0)),
            pos,
        ),
    decreases t@.len() - pos, 2int,
{
    proof {
        lemma_no_diagnostics(old(errors)@);
    }
    let (first, p0) = match &t[pos] {
        Token::Integer(v) => (Some(Expression::Integer(*v)), pos),
        Token::Identifier(s) => (Some(Expression::Identifier(s.clone())), pos),
        Token::String(s) => (Some(Expression::String(s.clone())), pos),
        Token::True => (Some(Expression::Boolean(true)), pos),
        Token::False => (Some(Expression::Boolean(false)), pos),
        Token::LeftBracket => parse_array_literal(t, pos, errors),
        Token::LeftBrace => parse_hash_literal(t, pos, errors),
        Token::MinusSign | Token::ExclamationMark => parse_prefix_expression(
            t,
            pos,
            errors,
        ),
        Token::LeftParen => parse_grouped_expression(t, pos, errors),
        Token::If => parse_if_expression(t, pos, errors),
        Token::Function => parse_function_literal(t, pos, errors),
        other => {
            report_token(errors, "no expression statement parser for ", other);
            (None, pos)
        },
    };
    assert(texts(errors@) =~= texts(old(errors)@) + g_first(t@, pos as int).2);
    assert(opt_expr_model(first) == g_first(t@, pos as int).0 && p0 == g_first(t@, pos as int).1);
    let mut left = match first {
        Some(e) => e,
        None => {
            return (None, p0);
        },
    };
    let mut p = p0;
    let ghost mut dacc = g_first(t@, pos as int).2;
    assert(left is InfixOperator ==> t@[pos as int] == Token::LeftParen);
    loop
        invariant
            wf_tokens(t@),
            pos <= p < t@.len(),
            extends(old(errors)@, errors@),
            left is InfixOperator ==> (root_binds_tighter(left, precedence) || t@[pos as int]
                == Token::LeftParen),
            p == pos && t@[pos as int] is Integer ==> left == Expression::Integer(
                t@[pos as int]->Integer_0,
            ),
            p > pos ==> !(t@[pos as int] is Integer && climb_stops(t@, pos as int, precedence)),
            starts_expression(t@[pos as int]),
            g_expr(t@, pos as int, precedence) == g_climb(
                t@,
                pos as int,
                precedence,
                left.model(),
                p as int,
                dacc,
            ),
            texts(errors@) == texts(old(errors)@) + dacc,
        decreases t@.len() - p,
    {
        let next = peek(t, p);
        if matches!(next, Token::Semicolon) || !precedence.is_weaker_than(&next.precedence()) {
            return (Some(left), p);
        }
        let q = advance(t, p);
        if q <= p {
            return (Some(left), p);
        }
        let ghost gx = if *next == Token::LeftParen {
            g_call(t@, q as int, left.model())
        } else if *next == Token::LeftBracket {
            g_index(t@, q as int, left.model())
        } else {
            g_infix(t@, q as int, left.model())
        };
        let ghost before = errors@;
        let (res, q2) = match next {
            Token::LeftParen => parse_call_expression(t, q, left, errors),
            Token::LeftBracket => parse_index_expression(t, q, left, errors),
            _ => parse_infix_expression(t, q, left, errors),
        };
        assert(texts(errors@) =~= texts(old(errors)@) + (dacc + gx.2));
        match res {
            Ok(e) => {
                left = e;
                p = q2;
                proof {
                    dacc = dacc + gx.2;
                }
            },
            Err(l) => {
                return (Some(l), q2);
            },
        }
    }
}

/// Parses `op operand` with the operator at `pos`.
fn parse_prefix_expression(t: &Vec<Token>, pos: usize, errors: &mut Vec<String>) -> (r: (
    Option<Expression>,
    usize,
))
    requires
        wf_tokens(t@),
        pos < t@.len(),
        t@[pos as int] != Token::Eof,
    ensures
        pos <= r.1 < t@.len(),
        extends(old(errors)@, final(errors)@),
        expr_outcome(r, g_prefix(t@, pos as int), old(errors)@, final(errors)@),
        r.0 is Some ==> r.0.unwrap() is PrefixOperator
            && r.0.unwrap()->PrefixOperator_operator == t@[pos as int],
    decreases t@.len() - pos, 1int,
{
    proof {
        lemma_no_diagnostics(old(errors)@);
    }
    let operator = t[pos].clone();
    let p = advance(t, pos);
    let (operand, q) = parse_expression(t, p, ExpressionPrecedence::Prefix, errors);
    match operand {
        Some(e) => (Some(Expression::PrefixOperator { operator, expression: Box::new(e) }), q),
        None => (None, q),
    }
}

/// Parses the right operand of the infix operator at `pos`.
fn parse_infix_expression(
    t: &Vec<Token>,
    pos: usize,
    left: Expression,
    errors: &mut Vec<String>,
) -> (r: (Result<Expression, Expression>, usize))
    requires
        wf_tokens(t@),
        0 < pos < t@.len(),
    ensures
        pos <= r.1 < t@.len(),
        extends(old(errors)@, final(errors)@),
        fold_outcome(r, g_infix(t@, pos as int, left.model()), old(errors)@, final(errors)@),
        r.0 is Ok ==> r.0->Ok_0 is InfixOperator && r.0->Ok_0->InfixOperator_operator == t@[pos as int],
        r.0 is Err ==> r.0->Err_0 == left,
        r.0 is Ok ==> *r.0->Ok_0->InfixOperator_lh_expression == left,
        r.0 is Ok && t@[pos + 1] != Token::LeftParen ==> root_binds_tighter(
            *r.0->Ok_0->InfixOperator_rh_expression,
            t@[pos as int].spec_precedence(),
        ),
    decreases t@.len() - pos, 1int,
{
    proof {
        lemma_no_diagnostics(old(errors)@);
    }
    let operator = t[pos].clone();
    let precedence = operator.precedence();
    if t.len() - pos <= 1 {
        return (Err(left), pos);
    }
    let (right, q) = parse_expression(t, pos + 1, precedence, errors);
    match right {
        Some(r) => (
            Ok(
                Expression::InfixOperator {
                    operator,
                    rh_expression: Box::new(r),
                    lh_expression: Box::new(left),
                },
            ),
            q,
        ),
        None => (Err(left), q),
    }
}

/// Parses `(` expression `)` with the parenthesis at `pos`.
fn parse_grouped_expression(t: &Vec<Token>, pos: usize, errors: &mut Vec<String>) -> (r: (
    Option<Expression>,
    usize,
))
    requires
        wf_tokens(t@),
        pos < t@.len(),
        t@[pos as int] != Token::Eof,
    ensures
        pos <= r.1 < t@.len(),
        extends(old(errors)@, final(errors)@),
        expr_outcome(r, g_grouped(t@, pos as int), old(errors)@, final(errors)@),
    decreases t@.len() - pos, 1int,
{
    proof {
        lemma_no_diagnostics(old(errors)@);
    }
    let p = advance(t, pos);
    let (inner, q) = parse_expression(t, p, ExpressionPrecedence::Lowest, errors);
    let e = match inner {
        Some(e) => e,
        None => {
            return (None, q);
        },
    };
    if !matches!(peek(t, q), Token::RightParen) {
        return (None, q);
    }
    (Some(e), advance(t, q))
}

/// Parses `[` elements `]` with the bracket at `pos`.
fn parse_array_literal(t: &Vec<Token>, pos: usize, errors: &mut Vec<String>) -> (r: (
    Option<Expression>,
    usize,
))
    requires
        wf_tokens(t@),
        pos < t@.len(),
    ensures
        pos <= r.1 < t@.len(),
        extends(old(errors)@, final(errors)@),
        r.0 is Some ==> r.0.unwrap() is Array,
        expr_outcome(r, g_array(t@, pos as int), old(errors)@, final(errors)@),
    decreases t@.len() - pos, 1int,
{
    proof {
        lemma_no_diagnostics(old(errors)@);
    }
    let (items, q) = parse_expression_list(t, pos, Closing::Bracket, errors);
    match items {
        Some(v) => {
            proof {
                lemma_list_models(v, Box::new(Expression::Boolean(false)));
            }
            (Some(Expression::Array(v)), q)
        },
        None => (None, q),
    }
}

/// Parses a comma-separated list of expressions after the opening delimiter
/// at `pos`, up to the closing one.
fn parse_expression_list(
    t: &Vec<Token>,
    pos: usize,
    closing: Closing,
    errors: &mut Vec<String>,
) -> (r: (Option<Vec<Expression>>, usize))
    requires
        wf_tokens(t@),
        pos < t@.len(),
    ensures
        pos <= r.1 < t@.len(),
        extends(old(errors)@, final(errors)@),
        ({
            let g = g_list(t@, pos as int, closing);
            &&& match r.0 {
                Some(v) => g.0 == Some(exprs_model(v@)),
                None => g.0 is None,
            }
            &&& r.1 as int == g.1
            &&& texts(final(errors)@) == texts(old(errors)@) + g.2
        }),
    decreases t@.len() - pos, 0int,
{
    proof {
        lemma_no_diagnostics(old(errors)@);
    }
    let mut items: Vec<Expression> = Vec::new();
    assert(exprs_model(items@) =~= Seq::<ExprM>::empty());
    assert(texts(errors@) =~= texts(old(errors)@) + Seq::<Seq<char>>::empty());
    if is_closing(peek(t, pos), &closing) {
        return (Some(items), advance(t, pos));
    }
    if t.len() - pos <= 1 {
        return (None, pos);
    }
    let (first, mut p) = parse_expression(t, pos + 1, ExpressionPrecedence::Lowest, errors);
    let ghost mut dacc = g_expr(t@, pos + 1, ExpressionPrecedence::Lowest).2;
    match first {
        Some(e) => {
            items.push(e);
            assert(exprs_model(items@) =~= seq![e.model()]);
        },
        None => {
            return (None, p);
        },
    }
    while matches!(peek(t, p), Token::Comma)
        invariant
            wf_tokens(t@),
            pos < p < t@.len(),
            extends(old(errors)@, errors@),
            g_list(t@, pos as int, closing) == g_list_more(t@, p as int, exprs_model(items@), dacc, closing),
            texts(errors@) == texts(old(errors)@) + dacc,
        decreases t@.len() - p,
    {
        let c = advance(t, p);
        if t.len() - c <= 1 {
            return (None, c);
        }
        let ghost before = errors@;
        let (next, q) = parse_expression(t, c + 1, ExpressionPrecedence::Lowest, errors);
        let ghost gx = g_expr(t@, c + 1, ExpressionPrecedence::Lowest);
        assert(texts(errors@) =~= texts(old(errors)@) + (dacc + gx.2));
        match next {
            Some(e) => {
                let ghost m = exprs_model(items@);
                items.push(e);
                assert(exprs_model(items@) =~= m.push(e.model()));
            },
            None => {
                return (None, q);
            },
        }
        p = q;
        proof {
            dacc = dacc + gx.2;
        }
    }
    if !is_closing(peek(t, p), &closing) {
        match closing {
            Closing::Paren => report(errors, "RightParen", peek(t, p)),
            Closing::Bracket => report(errors, "RightBracket", peek(t, p)),
        }
        return (None, p);
    }
    (Some(items), advance(t, p))
}

/// Parses `{` key `:` value, ... `}` with the brace at `pos`.
fn parse_hash_literal(t: &Vec<Token>, pos: usize, errors: &mut Vec<String>) -> (r: (
    Option<Expression>,
    usize,
))
    requires
        wf_tokens(t@),
        pos < t@.len(),
    ensures
        pos <= r.1 < t@.len(),
        extends(old(errors)@, final(errors)@),
        r.0 is Some ==> r.0.unwrap() is HashLiteral,
        expr_outcome(r, g_hash(t@, pos as int), old(errors)@, final(errors)@),
    decreases t@.len() - pos, 1int,
{
    proof {
        lemma_no_diagnostics(old(errors)@);
    }
    let mut pairs: Vec<(Expression, Expression)> = Vec::new();
    let mut p = pos;
    let ghost mut dacc = Seq::<Seq<char>>::empty();
    assert(pairs_of(pairs@) =~= Seq::<(ExprM, ExprM)>::empty());
    assert(texts(errors@) =~= texts(old(errors)@) + dacc);
    while !matches!(peek(t, p), Token::RightBrace)
        invariant
            wf_tokens(t@),
            pos <= p < t@.len(),
            extends(old(errors)@, errors@),
            g_hash(t@, pos as int) == g_hash_more(t@, p as int, pairs_of(pairs@), dacc),
            texts(errors@) == texts(old(errors)@) + dacc,
        decreases t@.len() - p,
    {
        if t.len() - p <= 1 {
            return (None, p);
        }
        let (key, q) = parse_expression(t, p + 1, ExpressionPrecedence::Lowest, errors);
        let ghost g1 = g_expr(t@, p + 1, ExpressionPrecedence::Lowest);
        assert(texts(errors@) =~= texts(old(errors)@) + (dacc + g1.2));
        let k = match key {
            Some(k) => k,
            None => {
                return (None, q);
            },
        };
        if !matches!(peek(t, q), Token::Colon) {
            report(errors, "Colon", peek(t, q));
            return (None, q);
        }
        let c = advance(t, q);
        if t.len() - c <= 1 {
            return (None, c);
        }
        let (value, q2) = parse_expression(t, c + 1, ExpressionPrecedence::Lowest, errors);
        let ghost g2 = g_expr(t@, c + 1, ExpressionPrecedence::Lowest);
        assert(texts(errors@) =~= texts(old(errors)@) + (dacc + g1.2 + g2.2));
        let v = match value {
            Some(v) => v,
            None => {
                return (None, q2);
            },
        };
        let ghost m = pairs_of(pairs@);
        pairs.push((k, v));
        assert(pairs_of(pairs@) =~= m.push((k.model(), v.model())));
        proof {
            dacc = dacc + g1.2 + g2.2;
        }
        let next = peek(t, q2);
        if matches!(next, Token::Comma) {
            p = advance(t, q2);
        } else if matches!(next, Token::RightBrace) {
            p = q2;
        } else {
            report(errors, "RightBrace", next);
            return (None, q2);
        }
    }
    proof {
        lemma_hash_literal_model(pairs);
    }
    (Some(Expression::HashLiteral(pairs)), advance(t, p))
}

/// Parses `if (` condition `) {` block `}` with an optional `else {` block `}`.
#[verifier::rlimit(60)]
fn parse_if_expression(t: &Vec<Token>, pos: usize, errors: &mut Vec<String>) -> (r: (
    Option<Expression>,
    usize,
))
    requires
        wf_tokens(t@),
        pos < t@.len(),
        t@[pos as int] != Token::Eof,
    ensures
        pos <= r.1 < t@.len(),
        extends(old(errors)@, final(errors)@),
        r.0 is Some ==> r.0.unwrap() is If,
        expr_outcome(r, g_if(t@, pos as int), old(errors)@, final(errors)@),
        peek_at(t@, pos as int) != Token::LeftParen ==> r.0 is None
            && final(errors)@.len() == old(errors)@.len() + 1,
    decreases t@.len() - pos, 1int,
{
    proof {
        lemma_no_diagnostics(old(errors)@);
    }
    if !matches!(peek(t, pos), Token::LeftParen) {
        report(errors, "LeftParen", peek(t, pos));
        return (None, pos);
    }
    let p = advance(t, pos);
    if t.len() - p <= 1 {
        return (None, p);
    }
    let (cond, q) = parse_expression(t, p + 1, ExpressionPrecedence::Lowest, errors);
    let ghost g1 = g_expr(t@, p + 1, ExpressionPrecedence::Lowest);
    let condition = match cond {
        Some(c) => c,
        None => {
            return (None, q);
        },
    };
    if !matches!(peek(t, q), Token::RightParen) {
        report(errors, "RightParen", peek(t, q));
        return (None, q);
    }
    let q = advance(t, q);
    if !matches!(peek(t, q), Token::LeftBrace) {
        report(errors, "LeftBrace", peek(t, q));
        return (None, q);
    }
    let q = advance(t, q);
    let ghost e1 = errors@;
    let ghost g2 = g_block(t@, q as int);
    let (consequence, q) = parse_block_statement(t, q, errors);
    assert(texts(errors@) =~= texts(old(errors)@) + (g1.2 + g2.2));
    if matches!(peek(t, q), Token::Else) {
        let q = advance(t, q);
        if !matches!(peek(t, q), Token::LeftBrace) {
            report(errors, "LeftBrace", peek(t, q));
            return (None, q);
        }
        let q = advance(t, q);
        let ghost g3 = g_block(t@, q as int);
        let (alternative, q) = parse_block_statement(t, q, errors);
        assert(texts(errors@) =~= texts(old(errors)@) + (g1.2 + g2.2 + g3.2));
        (
            Some(
                Expression::If {
                    condition: Box::new(condition),
                    consequence,
                    alternative: Some(alternative),
                },
            ),
            q,
        )
    } else {
        (
            Some(
                Expression::If { condition: Box::new(condition), consequence, alternative: None },
            ),
            q,
        )
    }
}

/// Parses `fn (` parameters `) {` body `}` with `fn` at `pos`.
fn parse_function_literal(t: &Vec<Token>, pos: usize, errors: &mut Vec<String>) -> (r: (
    Option<Expression>,
    usize,
))
    requires
        wf_tokens(t@),
        pos < t@.len(),
        t@[pos as int] != Token::Eof,
    ensures
        pos <= r.1 < t@.len(),
        extends(old(errors)@, final(errors)@),
        r.0 is Some ==> r.0.unwrap() is Function,
        expr_outcome(r, g_fn(t@, pos as int), old(errors)@, final(errors)@),
        peek_at(t@, pos as int) != Token::LeftParen ==> r.0 is None
            && final(errors)@.len() == old(errors)@.len() + 1,
    decreases t@.len() - pos, 1int,
{
    proof {
        lemma_no_diagnostics(old(errors)@);
    }
    if !matches!(peek(t, pos), Token::LeftParen) {
        report(errors, "LeftParen", peek(t, pos));
        return (None, pos);
    }
    let p = advance(t, pos);
    let (params, q) = parse_function_parameters(t, p, errors);
    let ghost g1 = g_params(t@, p as int);
    let arguments = match params {
        Some(v) => v,
        None => {
            return (None, q);
        },
    };
    if !matches!(peek(t, q), Token::LeftBrace) {
        report(errors, "LeftBrace", peek(t, q));
        return (None, q);
    }
    let q = advance(t, q);
    if q <= pos {
        return (None, q);
    }
    let ghost g2 = g_block(t@, q as int);
    let (body, q) = parse_block_statement(t, q, errors);
    assert(texts(errors@) =~= texts(old(errors)@) + (g1.2 + g2.2));
    (Some(Expression::Function { arguments, body: Rc::new(body) }), q)
}

/// Parses a parameter list after the `(` at `pos`, through the `)`.
fn parse_function_parameters(t: &Vec<Token>, pos: usize, errors: &mut Vec<String>) -> (r: (
    Option<Vec<String>>,
    usize,
))
    requires
        wf_tokens(t@),
        pos < t@.len(),
    ensures
        pos <= r.1 < t@.len(),
        extends(old(errors)@, final(errors)@),
        ({
            let g = g_params(t@, pos as int);
            &&& match r.0 {
                Some(v) => g.0 == Some(names_of(v@)),
                None => g.0 is None,
            }
            &&& r.1 as int == g.1
            &&& texts(final(errors)@) == texts(old(errors)@) + g.2
        }),
{
    proof {
        lemma_no_diagnostics(old(errors)@);
    }
    let mut params: Vec<String> = Vec::new();
    assert(texts(errors@) =~= texts(old(errors)@) + Seq::<Seq<char>>::empty());
    assert(names_of(params@) =~= Seq::<Seq<char>>::empty());
    if matches!(peek(t, pos), Token::RightParen) {
        return (Some(params), advance(t, pos));
    }
    let mut p = advance(t, pos);
    match &t[p] {
        Token::Identifier(name) => {
            params.push(name.clone());
            assert(names_of(params@) =~= seq![name@]);
        },
        other => {
            report(errors, "Identifier", other);
            assert(texts(errors@) =~= texts(old(errors)@) + seq![msg_expect("Identifier"@, *other)]);
            return (None, p);
        },
    }
    while matches!(peek(t, p), Token::Comma)
        invariant
            wf_tokens(t@),
            pos <= p < t@.len(),
            extends(old(errors)@, errors@),
            g_params(t@, pos as int) == g_params_more(t@, p as int, names_of(params@)),
            errors@ == old(errors)@,
        decreases t@.len() - p,
    {
        let c = advance(t, p);
        let q = advance(t, c);
        if q <= p {
            return (None, q);
        }
        match &t[q] {
            Token::Identifier(name) => {
                let ghost m = names_of(params@);
                params.push(name.clone());
                assert(names_of(params@) =~= m.push(name@));
            },
            other => {
                report(errors, "Identifier", other);
                assert(texts(errors@) =~= texts(old(errors)@) + seq![msg_expect("Identifier"@, *other)]);
                return (None, q);
            },
        }
        p = q;
    }
    if !matches!(peek(t, p), Token::RightParen) {
        report(errors, "RightParen", peek(t, p));
        assert(texts(errors@) =~= texts(old(errors)@) + seq![msg_expect("RightParen"@, peek_at(t@, p as int))]);
        return (None, p);
    }
    (Some(params), advance(t, p))
}

/// Parses the arguments of a call whose `(` is at `pos`.
fn parse_call_expression(t: &Vec<Token>, pos: usize, function: Expression, errors: &mut Vec<String>) -> (r: (
    Result<Expression, Expression>,
    usize,
))
    requires
        wf_tokens(t@),
        0 < pos < t@.len(),
    ensures
        pos <= r.1 < t@.len(),
        extends(old(errors)@, final(errors)@),
        r.0 is Ok ==> r.0->Ok_0 is FunctionCall,
        fold_outcome(r, g_call(t@, pos as int, function.model()), old(errors)@, final(errors)@),
        r.0 is Err ==> r.0->Err_0 == function,
    decreases t@.len() - pos, 1int,
{
    proof {
        lemma_no_diagnostics(old(errors)@);
    }
    let (args, q) = parse_expression_list(t, pos, Closing::Paren, errors);
    match args {
        Some(arguments) => {
            proof {
                lemma_list_models(arguments, Box::new(function));
            }
            (Ok(Expression::FunctionCall { name: Box::new(function), arguments }), q)
        },
        None => (Err(function), q),
    }
}

/// Parses `[` index `]` with the bracket at `pos`.
fn parse_index_expression(t: &Vec<Token>, pos: usize, left: Expression, errors: &mut Vec<String>) -> (r: (
    Result<Expression, Expression>,
    usize,
))
    requires
        wf_tokens(t@),
        0 < pos < t@.len(),
    ensures
        pos <= r.1 < t@.len(),
        extends(old(errors)@, final(errors)@),
        fold_outcome(r, g_index(t@, pos as int, left.model()), old(errors)@, final(errors)@),
        r.0 is Ok ==> r.0->Ok_0 is Index,
        r.0 is Err ==> r.0->Err_0 == left,
    decreases t@.len() - pos, 1int,
{
    proof {
        lemma_no_diagnostics(old(errors)@);
    }
    if t.len() - pos <= 1 {
        return (Err(left), pos);
    }
    let (index, q) = parse_expression(t, pos + 1, ExpressionPrecedence::Lowest, errors);
    let i = match index {
        Some(i) => i,
        None => {
            return (Err(left), q);
        },
    };
    if !matches!(peek(t, q), Token::RightBracket) {
        return (Err(left), q);
    }
    (Ok(Expression::Index { left: Box::new(left), index: Box::new(i) }), advance(t, q))
}

/// Parses the statements of a block whose `{` is at `pos`, up to the closing
/// `}` or the end of the input.
fn parse_block_statement(t: &Vec<Token>, pos: usize, errors: &mut Vec<String>) -> (r: (
    BlockStatement,
    usize,
))
    requires
        wf_tokens(t@),
        pos < t@.len(),
    ensures
        pos <= r.1 < t@.len(),
        extends(old(errors)@, final(errors)@),
        t@[r.1 as int] == Token::RightBrace || t@[r.1 as int] == Token::Eof,
        ({
            let g = g_block(t@, pos as int);
            &&& r.0.model() == g.0
            &&& r.1 as int == g.1
            &&& texts(final(errors)@) == texts(old(errors)@) + g.2
        }),
    decreases t@.len() - pos, 3int,
{
    proof {
        lemma_no_diagnostics(old(errors)@);
    }
    let mut statements: Vec<Statement> = Vec::new();
    let mut p = advance(t, pos);
    let ghost mut dacc = Seq::<Seq<char>>::empty();
    assert(stmts_model(statements@) =~= Seq::<StmtM>::empty());
    assert(texts(errors@) =~= texts(old(errors)@) + dacc);
    while !matches!(&t[p], Token::RightBrace) && !matches!(&t[p], Token::Eof) && p > pos
        invariant
            wf_tokens(t@),
            pos <= p < t@.len(),
            p == pos ==> t@[p as int] == Token::Eof,
            extends(old(errors)@, errors@),
            g_block(t@, pos as int) == g_block_more(
                t@,
                pos as int,
                p as int,
                stmts_model(statements@),
                dacc,
            ),
            texts(errors@) == texts(old(errors)@) + dacc,
        decreases t@.len() - p,
    {
        let ghost gs = g_statement(t@, p as int);
        let (st, q) = parse_statement_at(t, p, errors);
        let ghost m = stmts_model(statements@);
        match st {
            Some(s) => {
                statements.push(s);
                assert(stmts_model(statements@) =~= m.push(s.model()));
            },
            None => {},
        }
        assert(texts(errors@) =~= texts(old(errors)@) + (dacc + gs.2));
        proof {
            dacc = dacc + gs.2;
        }
        let n = advance(t, q);
        if n <= p {
            proof {
                lemma_block_model(BlockStatement { statements });
            }
            return (BlockStatement { statements }, n);
        }
        p = n;
    }
    proof {
        lemma_block_model(BlockStatement { statements });
    }
    (BlockStatement { statements }, p)
}

/// Parses one statement starting at `pos`; returns it, if any, and the
/// position of its last token.
pub fn parse_statement_at(t: &Vec<Token>, pos: usize, errors: &mut Vec<String>) -> (r: (
    Option<Statement>,
    usize,
))
    requires
        wf_tokens(t@),
        pos < t@.len(),
    ensures
        pos <= r.1 < t@.len(),
        extends(old(errors)@, final(errors)@),
        stmt_outcome(r, g_statement(t@, pos as int), old(errors)@, final(errors)@),
        r.0 is Some ==> ((t@[pos as int] == Token::Let) == (r.0.unwrap() is Let)),
        r.0 is Some ==> ((t@[pos as int] == Token::Return) == (r.0.unwrap() is Return)),
    decreases t@.len() - pos, 4int,
{
    proof {
        lemma_no_diagnostics(old(errors)@);
    }
    match &t[pos] {
        Token::Let => parse_let_statement_at(t, pos, errors),
        Token::Return => {
            let p = advance(t, pos);
            let (value, q) = parse_expression(t, p, ExpressionPrecedence::Lowest, errors);
            match value {
                Some(v) => {
                    let q = if matches!(peek(t, q), Token::Semicolon) {
                        advance(t, q)
                    } else {
                        q
                    };
                    (Some(Statement::Return { value: v }), q)
                },
                None => (None, q),
            }
        },
        _ => {
            let (value, q) = parse_expression(t, pos, ExpressionPrecedence::Lowest, errors);
            match value {
                Some(v) => {
                    let q = if matches!(peek(t, q), Token::Semicolon) {
                        advance(t, q)
                    } else {
                        q
                    };
                    (Some(Statement::Expression { value: v }), q)
                },
                None => (None, q),
            }
        },
    }
}

/// Parses `let` name `=` value with `let` at `pos`.
pub fn parse_let_statement_at(t: &Vec<Token>, pos: usize, errors: &mut Vec<String>) -> (r: (
    Option<Statement>,
    usize,
))
    requires
        wf_tokens(t@),
        pos < t@.len(),
        t@[pos as int] != Token::Eof,
    ensures
        pos <= r.1 < t@.len(),
        extends(old(errors)@, final(errors)@),
        t@[pos as int] == Token::Let ==> stmt_outcome(
            r,
            g_statement(t@, pos as int),
            old(errors)@,
            final(errors)@,
        ),
        !(peek_at(t@, pos as int) is Identifier) ==> r.0 is None && r.1 == pos
            && final(errors)@.len() == old(errors)@.len() + 1,
        peek_at(t@, pos as int) is Identifier && peek_at(t@, step(t@, pos as int)) != Token::EqualSign
            ==> r.0 is None && final(errors)@.len() == old(errors)@.len() + 1,
        r.0 is Some ==> r.0.unwrap() is Let && peek_at(t@, pos as int) is Identifier
            && r.0.unwrap()->Let_name == peek_at(t@, pos as int)->Identifier_0
            && peek_at(t@, pos as int + 1) == Token::EqualSign,
    decreases t@.len() - pos, 3int,
{
    proof {
        lemma_no_diagnostics(old(errors)@);
    }
    let name = match peek(t, pos) {
        Token::Identifier(name) => name.clone(),
        other => {
            report(errors, "Identifier", other);
            return (None, pos);
        },
    };
    let p = advance(t, pos);
    if !matches!(peek(t, p), Token::EqualSign) {
        report(errors, "EqualSign", peek(t, p));
        return (None, p);
    }
    let p = advance(t, p);
    if t.len() - p <= 1 {
        return (None, p);
    }
    let (value, q) = parse_expression(t, p + 1, ExpressionPrecedence::Lowest, errors);
    match value {
        Some(v) => {
            let q = if matches!(peek(t, q), Token::Semicolon) {
                advance(t, q)
            } else {
                q
            };
            (Some(Statement::Let { name, value: v }), q)
        },
        None => (None, q),
    }
}

/// Each token was read where the previous one stopped: `ps[i]` is where
/// reading of `toks[i]` began, and the last token is the end marker.
pub open spec fn tokenization(cs: Seq<char>, toks: Seq<Token>, ps: Seq<int>) -> bool {
    &&& ps.len() == toks.len() + 1
    &&& toks.len() > 0
    &&& toks.last() == Token::Eof
    &&& forall|i: int| 0 <= i < toks.len() ==> lexes(cs, ps[i], #[trigger] toks[i], ps[i + 1])
}

pub proof fn lemma_lexes_progress(cs: Seq<char>, start: int, tok: Token, end: int)
    requires
        0 <= start <= cs.len(),
        lexes(cs, start, tok, end),
    ensures
        end <= cs.len(),
        tok != Token::Eof ==> start < end,
{
    lemma_skip_space_bounds(cs, start);
    let p = skip_space(cs, start);
    if p < cs.len() {
        let c = cs[p];
        if c == '"' {
            lemma_quote_end_bounds(cs, p + 1);
        } else if crate::lexer::is_letter(c) {
            lemma_letters_end_bounds(cs, p);
        } else if crate::lexer::is_digit(c) {
            lemma_digits_end_bounds(cs, p);
        }
    }
}

proof fn lemma_skip_space_bounds(cs: Seq<char>, i: int)
    requires
        0 <= i <= cs.len(),
    ensures
        i <= skip_space(cs, i) <= cs.len(),
    decreases cs.len() - i,
{
    if i < cs.len() && crate::lexer::is_space(cs[i]) {
        lemma_skip_space_bounds(cs, i + 1);
    }
}

proof fn lemma_quote_end_bounds(cs: Seq<char>, i: int)
    requires
        0 <= i <= cs.len(),
    ensures
        i <= quote_end(cs, i) <= cs.len(),
    decreases cs.len() - i,
{
    if i < cs.len() && cs[i] != '"' {
        lemma_quote_end_bounds(cs, i + 1);
    }
}

proof fn lemma_letters_end_bounds(cs: Seq<char>, i: int)
    requires
        0 <= i <= cs.len(),
    ensures
        i <= letters_end(cs, i) <= cs.len(),
        i < cs.len() && crate::lexer::is_letter(cs[i]) ==> i < letters_end(cs, i),
    decreases cs.len() - i,
{
    if i < cs.len() && crate::lexer::is_letter(cs[i]) {
        lemma_letters_end_bounds(cs, i + 1);
    }
}

proof fn lemma_digits_end_bounds(cs: Seq<char>, i: int)
    requires
        0 <= i <= cs.len(),
    ensures
        i <= digits_end(cs, i) <= cs.len(),
        i < cs.len() && crate::lexer::is_digit(cs[i]) ==> i < digits_end(cs, i),
    decreases cs.len() - i,
{
    if i < cs.len() && crate::lexer::is_digit(cs[i]) {
        lemma_digits_end_bounds(cs, i + 1);
    }
}

impl Lexer {
    /// Reads every remaining token, through the end marker.
    pub fn tokenize(&mut self) -> (r: Vec<Token>)
        requires
            old(self).wf(),
        ensures
            final(self).wf(),
            final(self).text() == old(self).text(),
            exists|ps: Seq<int>| ps[0] == old(self).pos() && #[trigger] tokenization(old(self).text(), r@, ps),
    {
        let mut toks: Vec<Token> = Vec::new();
        let ghost mut ps: Seq<int> = seq![self.pos()];
        proof {
            self.lemma_pos_bound();
        }
        loop
            invariant
                self.wf(),
                self.text() == old(self).text(),
                0 <= self.pos() <= self.text().len(),
                ps.len() == toks@.len() + 1,
                ps[0] == old(self).pos(),
                ps.last() == self.pos(),
                forall|i: int| 0 <= i < toks@.len() ==> lexes(self.text(), ps[i], #[trigger] toks@[i], ps[i + 1]),
            decreases self.text().len() - self.pos(),
        {
            let ghost before = self.pos();
            let tok = self.next_token();
            proof {
                lemma_lexes_progress(self.text(), before, tok, self.pos());
                self.lemma_pos_bound();
            }
            let done = matches!(tok, Token::Eof);
            toks.push(tok);
            proof {
                ps = ps.push(self.pos());
            }
            if done {
                assert(tokenization(old(self).text(), toks@, ps));
                return toks;
            }
        }
    }
}

/// Builds the syntax tree from a token stream, collecting diagnostics.
pub struct Parser {
    tokens: Vec<Token>,
    cursor: usize,
    pub errors: Vec<String>,
}

impl Parser {
    pub closed spec fn wf(&self) -> bool {
        wf_tokens(self.tokens@) && self.cursor < self.tokens@.len()
    }

    /// The diagnostics collected so far.
    pub closed spec fn diagnostics(&self) -> Seq<String> {
        self.errors@
    }

    /// The tokens being parsed.
    pub closed spec fn tokens(&self) -> Seq<Token> {
        self.tokens@
    }

    /// The position of the current token.
    pub closed spec fn cursor(&self) -> int {
        self.cursor as int
    }

    /// A parser over all the tokens of `lexer`, at the first one.
    pub fn new(lexer: Lexer) -> (r: Parser)
        requires
            lexer.wf(),
        ensures
            r.wf(),
            r.cursor() == 0,
            r.diagnostics().len() == 0,
            exists|ps: Seq<int>| ps[0] == lexer.pos() && #[trigger] tokenization(lexer.text(), r.tokens(), ps),
    {
        let mut source = lexer;
        let tokens = source.tokenize();
        let r = Parser { tokens, cursor: 0, errors: Vec::new() };
        assert(r.tokens() == tokens@);
        r
    }

    /// Moves to the next token; stays on the end marker.
    pub fn next_token(&mut self)
        requires
            old(self).wf(),
        ensures
            final(self).wf(),
            final(self).tokens() == old(self).tokens(),
            final(self).diagnostics() == old(self).diagnostics(),
            final(self).cursor() == step(old(self).tokens(), old(self).cursor()),
    {
        self.cursor = advance(&self.tokens, self.cursor);
    }

    /// Parses statements up to the end marker. A malformed statement adds
    /// diagnostics to `errors` and is left out; parsing goes on after it.
    pub fn parse_program(&mut self) -> (r: Option<Program>)
        requires
            old(self).wf(),
        ensures
            final(self).wf(),
            final(self).tokens() == old(self).tokens(),
            extends(old(self).diagnostics(), final(self).diagnostics()),
            r is Some,
            final(self).tokens()[final(self).cursor()] == Token::Eof,
            ({
                let g = g_program(old(self).tokens(), old(self).cursor(), Seq::empty(), Seq::empty());
                &&& stmts_model(r.unwrap().statements@) == g.0
                &&& texts(final(self).diagnostics()) == texts(old(self).diagnostics()) + g.1
            }),
    {
        let mut statements: Vec<Statement> = Vec::new();
        let mut p = self.cursor;
        let ghost mut dacc = Seq::<Seq<char>>::empty();
        assert(stmts_model(statements@) =~= Seq::<StmtM>::empty());
        assert(texts(self.errors@) =~= texts(old(self).errors@) + dacc);
        while !matches!(&self.tokens[p], Token::Eof)
            invariant
                self.wf(),
                self.tokens@ == old(self).tokens@,
                p < self.tokens@.len(),
                extends(old(self).errors@, self.errors@),
                g_program(self.tokens@, old(self).cursor as int, Seq::empty(), Seq::empty())
                    == g_program(self.tokens@, p as int, stmts_model(statements@), dacc),
                texts(self.errors@) == texts(old(self).errors@) + dacc,
            decreases self.tokens@.len() - p,
        {
            let ghost gs = g_statement(self.tokens@, p as int);
            let (st, q) = parse_statement_at(&self.tokens, p, &mut self.errors);
            let ghost m = stmts_model(statements@);
            match st {
                Some(s) => {
                    statements.push(s);
                    assert(stmts_model(statements@) =~= m.push(s.model()));
                },
                None => {},
            }
            assert(texts(self.errors@) =~= texts(old(self).errors@) + (dacc + gs.2));
            proof {
                dacc = dacc + gs.2;
            }
            let n = advance(&self.tokens, q);
            if n <= p {
                self.cursor = n;
                assert(self.tokens@[n as int] == Token::Eof);
                return Some(Program { statements });
            }
            p = n;
        }
        self.cursor = p;
        Some(Program { statements })
    }

    /// Parses the statement at the current token and moves to its last token.
    pub fn parse_statement(&mut self) -> (r: Option<Statement>)
        requires
            old(self).wf(),
        ensures
            final(self).wf(),
            final(self).tokens() == old(self).tokens(),
            extends(old(self).diagnostics(), final(self).diagnostics()),
            final(self).cursor() >= old(self).cursor(),
            ({
                let g = g_statement(old(self).tokens(), old(self).cursor());
                &&& opt_stmt_model(r) == g.0
                &&& final(self).cursor() == g.1
                &&& texts(final(self).diagnostics()) == texts(old(self).diagnostics()) + g.2
            }),
            r is Some ==> ((old(self).tokens()[old(self).cursor()] == Token::Let) == (r.unwrap() is Let)),
            r is Some ==> ((old(self).tokens()[old(self).cursor()] == Token::Return) == (
            r.unwrap() is Return)),
            old(self).tokens()[old(self).cursor()] == Token::Eof ==> r is None,
    {
        let (st, q) = parse_statement_at(&self.tokens, self.cursor, &mut self.errors);
        self.cursor = q;
        st
    }

    /// Parses a `let` statement at the current token.
    pub fn parse_let_statement(&mut self) -> (r: Option<Statement>)
        requires
            old(self).wf(),
        ensures
            final(self).wf(),
            final(self).tokens() == old(self).tokens(),
            extends(old(self).diagnostics(), final(self).diagnostics()),
            final(self).cursor() >= old(self).cursor(),
            old(self).tokens()[old(self).cursor()] == Token::Let ==> ({
                let g = g_statement(old(self).tokens(), old(self).cursor());
                &&& opt_stmt_model(r) == g.0
                &&& final(self).cursor() == g.1
                &&& texts(final(self).diagnostics()) == texts(old(self).diagnostics()) + g.2
            }),
            old(self).tokens()[old(self).cursor()] == Token::Let && !(peek_at(
                old(self).tokens(),
                old(self).cursor(),
            ) is Identifier) ==> r is None && final(self).diagnostics().len()
                == old(self).diagnostics().len() + 1,
            old(self).tokens()[old(self).cursor()] == Token::Let && peek_at(
                old(self).tokens(),
                old(self).cursor(),
            ) is Identifier && peek_at(old(self).tokens(), step(old(self).tokens(), old(self).cursor()))
                != Token::EqualSign ==> r is None && final(self).diagnostics().len()
                == old(self).diagnostics().len() + 1,
            r is Some ==> r.unwrap() is Let,
    {
        if matches!(&self.tokens[self.cursor], Token::Eof) {
            return None;
        }
        let (st, q) = parse_let_statement_at(&self.tokens, self.cursor, &mut self.errors);
        self.cursor = q;
        st
    }
}

} // verus!
