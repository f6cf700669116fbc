use std::rc::Rc;
use vstd::prelude::*;

use crate::text::{bool_text, int_text, push_bool_text, push_char, push_int_text};
use crate::token::Token;

verus! {

/// An expression node; each node owns its children.
#[derive(Debug, PartialEq, Eq)]
pub enum Expression {
    Integer(isize),
    Identifier(String),
    Boolean(bool),
    String(String),
    PrefixOperator { operator: Token, expression: Box<Expression> },
    InfixOperator { operator: Token, rh_expression: Box<Expression>, lh_expression: Box<Expression> },
    FunctionCall { name: Box<Expression>, arguments: Vec<Expression> },
    If {
        condition: Box<Expression>,
        consequence: BlockStatement,
        alternative: Option<BlockStatement>,
    },
    Function { arguments: Vec<String>, body: Rc<BlockStatement> },
    Array(Vec<Expression>),
    Index { left: Box<Expression>, index: Box<Expression> },
    /// Key and value expressions, in source order.
    HashLiteral(Vec<(Expression, Expression)>),
}

/// A statement.
#[derive(Debug, PartialEq, Eq)]
pub enum Statement {
    Let { name: String, value: Expression },
    Return { value: Expression },
    Expression { value: Expression },
}

/// A parsed program: its top-level statements in order.
#[derive(Debug, PartialEq, Eq)]
pub struct Program {
    pub statements: Vec<Statement>,
}

/// A sequence of statements evaluated in order.
#[derive(Debug, PartialEq, Eq)]
pub struct BlockStatement {
    pub statements: Vec<Statement>,
}

/// The mathematical model of an expression: lists as sequences, names and
/// strings as character sequences.
pub enum ExprM {
    Integer(isize),
    Identifier(Seq<char>),
    Boolean(bool),
    Str(Seq<char>),
    Prefix { operator: Token, operand: Box<ExprM> },
    Infix { operator: Token, right: Box<ExprM>, left: Box<ExprM> },
    Call { function: Box<ExprM>, args: Seq<ExprM> },
    If { condition: Box<ExprM>, consequence: Seq<StmtM>, alternative: Option<Seq<StmtM>> },
    Function { parameters: Seq<Seq<char>>, body: Seq<StmtM> },
    Array(Seq<ExprM>),
    Index { left: Box<ExprM>, index: Box<ExprM> },
    Hash(Seq<(ExprM, ExprM)>),
}

/// The mathematical model of a statement.
pub enum StmtM {
    Let { name: Seq<char>, value: ExprM },
    Return { value: ExprM },
    Expression { value: ExprM },
}

pub open spec fn names_of(v: Seq<String>) -> Seq<Seq<char>> {
    Seq::new(v.len(), |i: int| v[i]@)
}

pub open spec fn exprs_model(v: Seq<Expression>) -> Seq<ExprM> {
    Seq::new(v.len(), |i: int| v[i].model())
}

pub open spec fn pairs_of(v: Seq<(Expression, Expression)>) -> Seq<(ExprM, ExprM)> {
    Seq::new(v.len(), |i: int| (v[i].0.model(), v[i].1.model()))
}

pub open spec fn stmts_model(v: Seq<Statement>) -> Seq<StmtM> {
    Seq::new(v.len(), |i: int| v[i].model())
}

impl Expression {
    pub open spec fn model(self) -> ExprM
        decreases self,
    {
        match self {
            Expression::Integer(i) => ExprM::Integer(i),
            Expression::Identifier(s) => ExprM::Identifier(s@),
            Expression::Boolean(b) => ExprM::Boolean(b),
            Expression::String(s) => ExprM::Str(s@),
            Expression::PrefixOperator { operator, expression } => ExprM::Prefix {
                operator,
                operand: Box::new((*expression).model()),
            },
            Expression::InfixOperator { operator, rh_expression, lh_expression } => ExprM::Infix {
                operator,
                right: Box::new((*rh_expression).model()),
                left: Box::new((*lh_expression).model()),
            },
            Expression::FunctionCall { name, arguments } => ExprM::Call {
                function: Box::new((*name).model()),
                args: Seq::new(
                    arguments@.len(),
                    |i: int|
                        if 0 <= i < arguments@.len() {
                            arguments@[i].model()
                        } else {
                            ExprM::Boolean(false)
                        },
                ),
            },
            Expression::If { condition, consequence, alternative } => ExprM::If {
                condition: Box::new((*condition).model()),
                consequence: consequence.model(),
                alternative: match alternative {
                    Some(a) => Some(a.model()),
                    None => None,
                },
            },
            Expression::Function { arguments, body } => ExprM::Function {
                parameters: names_of(arguments@),
                body: (*body).model(),
            },
            Expression::Array(items) => ExprM::Array(
                Seq::new(
                    items@.len(),
                    |i: int|
                        if 0 <= i < items@.len() {
                            items@[i].model()
                        } else {
                            ExprM::Boolean(false)
                        },
                ),
            ),
            Expression::Index { left, index } => ExprM::Index {
                left: Box::new((*left).model()),
                index: Box::new((*index).model()),
            },
            Expression::HashLiteral(pairs) => ExprM::Hash(
                Seq::new(
                    pairs@.len(),
                    |i: int|
                        if 0 <= i < pairs@.len() {
                            (pairs@[i].0.model(), pairs@[i].1.model())
                        } else {
                            (ExprM::Boolean(false), ExprM::Boolean(false))
                        },
                ),
            ),
        }
    }
}

impl Statement {
    pub open spec fn model(self) -> StmtM
        decreases self,
    {
        match self {
            Statement::Let { name, value } => StmtM::Let { name: name@, value: value.model() },
            Statement::Return { value } => StmtM::Return { value: value.model() },
            Statement::Expression { value } => StmtM::Expression { value: value.model() },
        }
    }
}

impl BlockStatement {
    pub open spec fn model(self) -> Seq<StmtM>
        decreases self,
    {
        Seq::new(
            self.statements@.len(),
            |i: int|
                if 0 <= i < self.statements@.len() {
                    self.statements@[i].model()
                } else {
                    StmtM::Return { value: ExprM::Boolean(false) }
                },
        )
    }
}

pub proof fn lemma_list_models(items: Vec<Expression>, name: Box<Expression>)
    ensures
        Expression::Array(items).model() == ExprM::Array(exprs_model(items@)),
        (Expression::FunctionCall { name, arguments: items }).model() == (ExprM::Call {
            function: Box::new((*name).model()),
            args: exprs_model(items@),
        }),
{
    assert(exprs_model(items@) =~= Expression::Array(items).model()->Array_0);
    assert(exprs_model(items@) =~= (Expression::FunctionCall { name, arguments: items }).model()->Call_args);
}

pub proof fn lemma_hash_literal_model(pairs: Vec<(Expression, Expression)>)
    ensures
        Expression::HashLiteral(pairs).model() == ExprM::Hash(pairs_of(pairs@)),
{
    assert(pairs_of(pairs@) =~= Expression::HashLiteral(pairs).model()->Hash_0);
}

pub proof fn lemma_block_model(b: BlockStatement)
    ensures
        b.model() == stmts_model(b.statements@),
{
    assert(b.model() =~= stmts_model(b.statements@));
}


/// Canonical text of a list of expressions, separated by `, `.
pub open spec fn render_list(s: Seq<ExprM>) -> Seq<char>
    decreases s,
{
    if s.len() == 0 {
        Seq::empty()
    } else if s.len() == 1 {
        render_expression(s[0])
    } else {
        render_list(s.drop_last()) + ", "@ + render_expression(s.last())
    }
}

/// Canonical text of the entries of a hash literal, separated by `, `.
pub open spec fn render_pairs(s: Seq<(ExprM, ExprM)>) -> Seq<char>
    decreases s,
{
    if s.len() == 0 {
        Seq::empty()
    } else if s.len() == 1 {
        render_expression(s[0].0) + ": "@ + render_expression(s[0].1)
    } else {
        render_pairs(s.drop_last()) + ", "@ + render_expression(s.last().0) + ": "@
            + render_expression(s.last().1)
    }
}

/// Names separated by `, `.
pub open spec fn render_names(s: Seq<Seq<char>>) -> Seq<char>
    decreases s.len(),
{
    if s.len() == 0 {
        Seq::empty()
    } else if s.len() == 1 {
        s[0]
    } else {
        render_names(s.drop_last()) + ", "@ + s.last()
    }
}

/// Canonical, fully parenthesised text of an expression.
pub open spec fn render_expression(e: ExprM) -> Seq<char>
    decreases e,
{
    match e {
        ExprM::Integer(i) => int_text(i as int),
        ExprM::Identifier(s) => s,
        ExprM::Boolean(b) => bool_text(b),
        ExprM::Str(s) => seq!['"'] + s + seq!['"'],
        ExprM::Prefix { operator, operand } => "("@ + operator.spec_text() + render_expression(
            *operand,
        ) + ")"@,
        ExprM::Infix { operator, right, left } => "("@ + render_expression(*left) + " "@
            + operator.spec_text() + " "@ + render_expression(*right) + ")"@,
        ExprM::Call { function, args } => render_expression(*function) + "("@ + render_list(args)
            + ")"@,
        ExprM::If { condition, consequence, alternative } => {
            let head = "if ("@ + render_expression(*condition) + ") {"@ + render_statements(
                consequence,
            ) + "}"@;
            match alternative {
                Some(alt) => head + "else {"@ + render_statements(alt) + "}"@,
                None => head,
            }
        },
        ExprM::Function { parameters, body } => "fn("@ + render_names(parameters) + ") {"@
            + render_statements(body) + "}"@,
        ExprM::Array(elements) => "["@ + render_list(elements) + "]"@,
        ExprM::Index { left, index } => "("@ + render_expression(*left) + "["@ + render_expression(
            *index,
        ) + "])"@,
        ExprM::Hash(pairs) => "{"@ + render_pairs(pairs) + "}"@,
    }
}

/// Canonical text of a statement.
pub open spec fn render_statement(s: StmtM) -> Seq<char>
    decreases s,
{
    match s {
        StmtM::Let { name, value } => "let "@ + name + " = "@ + render_expression(value) + ";"@,
        StmtM::Return { value } => "return "@ + render_expression(value) + ";"@,
        StmtM::Expression { value } => render_expression(value),
    }
}

/// Canonical text of a statement sequence: the statements' texts, concatenated.
pub open spec fn render_statements(s: Seq<StmtM>) -> Seq<char>
    decreases s,
{
    if s.len() == 0 {
        Seq::empty()
    } else {
        render_statements(s.drop_last()) + render_statement(s.last())
    }
}

impl Expression {
    /// Appends the canonical text of the expression.
    pub fn push_text(&self, out: &mut String)
        ensures
            final(out)@ == old(out)@ + render_expression(self.model()),
        decreases self,
    {
        let ghost start = out@;
        match self {
            Expression::Integer(i) => push_int_text(out, *i),
            Expression::Identifier(s) => out.append(s.as_str()),
            Expression::Boolean(b) => push_bool_text(out, *b),
            Expression::String(s) => {
                push_char(out, '"');
                out.append(s.as_str());
                push_char(out, '"');
                assert(out@ =~= start + render_expression(self.model()));
            },
            Expression::PrefixOperator { operator, expression } => {
                out.append("(");
                operator.push_text(out);
                expression.push_text(out);
                out.append(")");
                assert(out@ =~= start + render_expression(self.model()));
            },
            Expression::InfixOperator { operator, rh_expression, lh_expression } => {
                out.append("(");
                lh_expression.push_text(out);
                out.append(" ");
                operator.push_text(out);
                out.append(" ");
                rh_expression.push_text(out);
                out.append(")");
                assert(out@ =~= start + render_expression(self.model()));
            },
            Expression::FunctionCall { name, arguments } => {
                proof {
                    lemma_list_models(*arguments, *name);
                }
                name.push_text(out);
                out.append("(");
                push_list_text(arguments, out);
                out.append(")");
                assert(out@ =~= start + render_expression(self.model()));
            },
            Expression::If { condition, consequence, alternative } => {
                out.append("if (");
                condition.push_text(out);
                out.append(") {");
                consequence.push_text(out);
                out.append("}");
                match alternative {
                    Some(alt) => {
                        out.append("else {");
                        alt.push_text(out);
                        out.append("}");
                    },
                    None => {},
                }
                assert(out@ =~= start + render_expression(self.model()));
            },
            Expression::Function { arguments, body } => {
                out.append("fn(");
                push_names_text(arguments, out);
                out.append(") {");
                body.push_text(out);
                out.append("}");
                assert(out@ =~= start + render_expression(self.model()));
            },
            Expression::Array(elements) => {
                proof {
                    lemma_list_models(*elements, Box::new(Expression::Boolean(false)));
                }
                out.append("[");
                push_list_text(elements, out);
                out.append("]");
                assert(out@ =~= start + render_expression(self.model()));
            },
            Expression::Index { left, index } => {
                out.append("(");
                left.push_text(out);
                out.append("[");
                index.push_text(out);
                out.append("])");
                assert(out@ =~= start + render_expression(self.model()));
            },
            Expression::HashLiteral(pairs) => {
                proof {
                    lemma_hash_literal_model(*pairs);
                }
                out.append("{");
                push_pairs_text(pairs, out);
                out.append("}");
                assert(out@ =~= start + render_expression(self.model()));
            },
        }
    }

    /// The canonical, fully parenthesised text of the expression.
    pub fn to_string(&self) -> (r: String)
        ensures
            r@ == render_expression(self.model()),
    {
        let mut out = String::new();
        self.push_text(&mut out);
        assert(out@ =~= render_expression(self.model()));
        out
    }
}

fn push_list_text(items: &Vec<Expression>, out: &mut String)
    ensures
        final(out)@ == old(out)@ + render_list(exprs_model(items@)),
    decreases items,
{
    let ghost start = out@;
    let mut i: usize = 0;
    while i < items.len()
        invariant
            i <= items@.len(),
            out@ == start + render_list(exprs_model(items@).subrange(0, i as int)),
        decreases items@.len() - i,
    {
        assert(exprs_model(items@).subrange(0, i as int + 1).drop_last() =~= exprs_model(items@).subrange(0, i as int));
        if i > 0 {
            out.append(", ");
        }
        items[i].push_text(out);
        i = i + 1;
        assert(out@ =~= start + render_list(exprs_model(items@).subrange(0, i as int)));
    }
    assert(exprs_model(items@).subrange(0, i as int) =~= exprs_model(items@));
}

fn push_pairs_text(items: &Vec<(Expression, Expression)>, out: &mut String)
    ensures
        final(out)@ == old(out)@ + render_pairs(pairs_of(items@)),
    decreases items,
{
    let ghost start = out@;
    let mut i: usize = 0;
    while i < items.len()
        invariant
            i <= items@.len(),
            out@ == start + render_pairs(pairs_of(items@).subrange(0, i as int)),
        decreases items@.len() - i,
    {
        assert(pairs_of(items@).subrange(0, i as int + 1).drop_last() =~= pairs_of(items@).subrange(0, i as int));
        if i > 0 {
            out.append(", ");
        }
        items[i].0.push_text(out);
        out.append(": ");
        items[i].1.push_text(out);
        i = i + 1;
        assert(out@ =~= start + render_pairs(pairs_of(items@).subrange(0, i as int)));
    }
    assert(pairs_of(items@).subrange(0, i as int) =~= pairs_of(items@));
}

fn push_names_text(names: &Vec<String>, out: &mut String)
    ensures
        final(out)@ == old(out)@ + render_names(names_of(names@)),
{
    let ghost start = out@;
    let ghost all = names_of(names@);
    let mut i: usize = 0;
    while i < names.len()
        invariant
            i <= names@.len(),
            all == names_of(names@),
            out@ == start + render_names(all.subrange(0, i as int)),
        decreases names@.len() - i,
    {
        assert(all.subrange(0, i as int + 1).drop_last() =~= all.subrange(0, i as int));
        if i > 0 {
            out.append(", ");
        }
        out.append(names[i].as_str());
        i = i + 1;
        assert(out@ =~= start + render_names(all.subrange(0, i as int)));
    }
    assert(all.subrange(0, i as int) =~= all);
}

impl Statement {
    /// Appends the canonical text of the statement.
    pub fn push_text(&self, out: &mut String)
        ensures
            final(out)@ == old(out)@ + render_statement(self.model()),
        decreases self,
    {
        let ghost start = out@;
        match self {
            Statement::Let { name, value } => {
                out.append("let ");
                out.append(name.as_str());
                out.append(" = ");
                value.push_text(out);
                out.append(";");
            },
            Statement::Return { value } => {
                out.append("return ");
                value.push_text(out);
                out.append(";");
            },
            Statement::Expression { value } => value.push_text(out),
        }
        assert(out@ =~= start + render_statement(self.model()));
    }

    /// The canonical text of the statement.
    pub fn to_string(&self) -> (r: String)
        ensures
            r@ == render_statement(self.model()),
    {
        let mut out = String::new();
        self.push_text(&mut out);
        assert(out@ =~= render_statement(self.model()));
        out
    }
}

/// Appends the texts of the statements, in order.
pub fn push_statements_text(statements: &Vec<Statement>, out: &mut String)
    ensures
        final(out)@ == old(out)@ + render_statements(stmts_model(statements@)),
    decreases statements,
{
    let ghost start = out@;
    let ghost all = stmts_model(statements@);
    let mut i: usize = 0;
    while i < statements.len()
        invariant
            i <= statements@.len(),
            all == stmts_model(statements@),
            out@ == start + render_statements(all.subrange(0, i as int)),
        decreases statements@.len() - i,
    {
        assert(all.subrange(0, i as int + 1).drop_last() =~= all.subrange(0, i as int));
        statements[i].push_text(out);
        i = i + 1;
        assert(out@ =~= start + render_statements(all.subrange(0, i as int)));
    }
    assert(all.subrange(0, i as int) =~= all);
}

impl Program {
    /// The canonical text of the program: its statements' texts, concatenated.
    pub fn to_string(&self) -> (r: String)
        ensures
            r@ == render_statements(stmts_model(self.statements@)),
    {
        let mut out = String::new();
        push_statements_text(&self.statements, &mut out);
        assert(out@ =~= render_statements(stmts_model(self.statements@)));
        out
    }
}

impl BlockStatement {
    /// Appends the texts of the block's statements.
    pub fn push_text(&self, out: &mut String)
        ensures
            final(out)@ == old(out)@ + render_statements(self.model()),
        decreases self,
    {
        proof {
            lemma_block_model(*self);
        }
        push_statements_text(&self.statements, out);
    }
}

impl From<isize> for Expression {
    fn from(value: isize) -> Self {
        Expression::Integer(value)
    }
}

impl vstd::std_specs::convert::FromSpecImpl<isize> for Expression {
    open spec fn obeys_from_spec() -> bool {
        true
    }

    open spec fn from_spec(v: isize) -> Self {
        Expression::Integer(v)
    }
}

impl From<bool> for Expression {
    fn from(value: bool) -> Self {
        Expression::Boolean(value)
    }
}

impl vstd::std_specs::convert::FromSpecImpl<bool> for Expression {
    open spec fn obeys_from_spec() -> bool {
        true
    }

    open spec fn from_spec(v: bool) -> Self {
        Expression::Boolean(v)
    }
}

impl From<String> for Expression {
    fn from(value: String) -> Self {
        Expression::String(value)
    }
}

impl vstd::std_specs::convert::FromSpecImpl<String> for Expression {
    open spec fn obeys_from_spec() -> bool {
        true
    }

    open spec fn from_spec(v: String) -> Self {
        Expression::String(v)
    }
}

impl Default for BlockStatement {
    fn default() -> (r: Self)
        ensures
            r.statements@.len() == 0,
    {
        BlockStatement { statements: Vec::new() }
    }
}

impl Default for Program {
    fn default() -> (r: Self)
        ensures
            r.statements@.len() == 0,
    {
        Program { statements: Vec::new() }
    }
}

/// Relies on `Rc::clone`: the new handle refers to the same block.
#[verifier::external_body]
pub(crate) fn share_block(b: &Rc<BlockStatement>) -> (r: Rc<BlockStatement>)
    ensures
        r == *b,
{
    Rc::clone(b)
}

} // verus!
