use vstd::prelude::*;

use crate::text::{int_text, push_char, push_int_text};

verus! {

/// A lexical token.
#[derive(Debug, PartialEq, Eq)]
pub enum Token {
    // Literals
    Integer(isize),
    String(String),
    // Identifiers
    Identifier(String),
    // Operators
    EqualSign,
    PlusSign,
    MinusSign,
    ExclamationMark,
    Asterisk,
    Slash,
    LessThan,
    GreaterThan,
    Equal,
    NotEqual,
    // Delimiters
    Comma,
    Semicolon,
    Colon,
    LeftParen,
    RightParen,
    LeftBrace,
    RightBrace,
    LeftBracket,
    RightBracket,
    // Keywords
    Function,
    True,
    False,
    If,
    Else,
    Let,
    Return,
    // Other
    Eof,
    Illegal(char),
}

/// Binding strength of an operator position, weakest first.
#[derive(Debug, PartialEq, Eq, Structural, Clone, Copy)]
pub enum ExpressionPrecedence {
    Lowest,
    Equals,
    LessGreater,
    Sum,
    Product,
    Prefix,
    Call,
    Index,
}

impl ExpressionPrecedence {
    pub open spec fn spec_rank(&self) -> u8 {
        match self {
            ExpressionPrecedence::Lowest => 0,
            ExpressionPrecedence::Equals => 1,
            ExpressionPrecedence::LessGreater => 2,
            ExpressionPrecedence::Sum => 3,
            ExpressionPrecedence::Product => 4,
            ExpressionPrecedence::Prefix => 5,
            ExpressionPrecedence::Call => 6,
            ExpressionPrecedence::Index => 7,
        }
    }

    /// The position of this level in the order from weakest to strongest.
    #[verifier::when_used_as_spec(spec_rank)]
    pub fn rank(&self) -> (r: u8)
        ensures
            r == self.spec_rank(),
    {
        match self {
            ExpressionPrecedence::Lowest => 0,
            ExpressionPrecedence::Equals => 1,
            ExpressionPrecedence::LessGreater => 2,
            ExpressionPrecedence::Sum => 3,
            ExpressionPrecedence::Product => 4,
            ExpressionPrecedence::Prefix => 5,
            ExpressionPrecedence::Call => 6,
            ExpressionPrecedence::Index => 7,
        }
    }

    /// Whether `self` binds strictly more weakly than `other`.
    pub fn is_weaker_than(&self, other: &ExpressionPrecedence) -> (r: bool)
        ensures
            r == (self.spec_rank() < other.spec_rank()),
    {
        self.rank() < other.rank()
    }
}

impl Token {
    pub open spec fn spec_precedence(&self) -> ExpressionPrecedence {
        match self {
            Token::PlusSign | Token::MinusSign => ExpressionPrecedence::Sum,
            Token::Asterisk | Token::Slash => ExpressionPrecedence::Product,
            Token::LessThan | Token::GreaterThan => ExpressionPrecedence::LessGreater,
            Token::Equal | Token::NotEqual => ExpressionPrecedence::Equals,
            Token::LeftParen => ExpressionPrecedence::Call,
            Token::LeftBracket => ExpressionPrecedence::Index,
            _ => ExpressionPrecedence::Lowest,
        }
    }

    /// The binding strength of this token in infix position.
    #[verifier::when_used_as_spec(spec_precedence)]
    pub fn precedence(&self) -> (r: ExpressionPrecedence)
        ensures
            r == self.spec_precedence(),
    {
        match self {
            Token::PlusSign | Token::MinusSign => ExpressionPrecedence::Sum,
            Token::Asterisk | Token::Slash => ExpressionPrecedence::Product,
            Token::LessThan | Token::GreaterThan => ExpressionPrecedence::LessGreater,
            Token::Equal | Token::NotEqual => ExpressionPrecedence::Equals,
            Token::LeftParen => ExpressionPrecedence::Call,
            Token::LeftBracket => ExpressionPrecedence::Index,
            _ => ExpressionPrecedence::Lowest,
        }
    }
}

impl Clone for Token {
    fn clone(&self) -> (r: Self)
        ensures
            r == *self,
    {
        match self {
            Token::Integer(i) => Token::Integer(*i),
            Token::String(s) => Token::String(s.clone()),
            Token::Identifier(s) => Token::Identifier(s.clone()),
            Token::EqualSign => Token::EqualSign,
            Token::PlusSign => Token::PlusSign,
            Token::MinusSign => Token::MinusSign,
            Token::ExclamationMark => Token::ExclamationMark,
            Token::Asterisk => Token::Asterisk,
            Token::Slash => Token::Slash,
            Token::LessThan => Token::LessThan,
            Token::GreaterThan => Token::GreaterThan,
            Token::Equal => Token::Equal,
            Token::NotEqual => Token::NotEqual,
            Token::Comma => Token::Comma,
            Token::Semicolon => Token::Semicolon,
            Token::Colon => Token::Colon,
            Token::LeftParen => Token::LeftParen,
            Token::RightParen => Token::RightParen,
            Token::LeftBrace => Token::LeftBrace,
            Token::RightBrace => Token::RightBrace,
            Token::LeftBracket => Token::LeftBracket,
            Token::RightBracket => Token::RightBracket,
            Token::Function => Token::Function,
            Token::True => Token::True,
            Token::False => Token::False,
            Token::If => Token::If,
            Token::Else => Token::Else,
            Token::Let => Token::Let,
            Token::Return => Token::Return,
            Token::Eof => Token::Eof,
            Token::Illegal(c) => Token::Illegal(*c),
        }
    }
}

impl Token {
    /// The source text of the token.
    pub open spec fn spec_text(&self) -> Seq<char> {
        match self {
            Token::Integer(i) => int_text(*i as int),
            Token::String(s) => seq!['"'] + s@ + seq!['"'],
            Token::Identifier(s) => s@,
            Token::EqualSign => "="@,
            Token::PlusSign => "+"@,
            Token::MinusSign => "-"@,
            Token::ExclamationMark => "!"@,
            Token::Asterisk => "*"@,
            Token::Slash => "/"@,
            Token::LessThan => "<"@,
            Token::GreaterThan => ">"@,
            Token::Equal => "=="@,
            Token::NotEqual => "!="@,
            Token::Comma => ","@,
            Token::Semicolon => ";"@,
            Token::Colon => ":"@,
            Token::LeftParen => "("@,
            Token::RightParen => ")"@,
            Token::LeftBrace => "{"@,
            Token::RightBrace => "}"@,
            Token::LeftBracket => "["@,
            Token::RightBracket => "]"@,
            Token::Function => "fn"@,
            Token::True => "true"@,
            Token::False => "false"@,
            Token::If => "if"@,
            Token::Else => "else"@,
            Token::Let => "let"@,
            Token::Return => "return"@,
            Token::Eof => ""@,
            Token::Illegal(c) => seq![*c],
        }
    }

    /// Appends the source text of the token.
    pub fn push_text(&self, out: &mut String)
        ensures
            final(out)@ == old(out)@ + self.spec_text(),
    {
        match self {
            Token::Integer(i) => push_int_text(out, *i),
            Token::String(s) => {
                push_char(out, '"');
                out.append(s.as_str());
                push_char(out, '"');
                assert(final(out)@ =~= old(out)@ + self.spec_text());
            },
            Token::Identifier(s) => out.append(s.as_str()),
            Token::EqualSign => out.append("="),
            Token::PlusSign => out.append("+"),
            Token::MinusSign => out.append("-"),
            Token::ExclamationMark => out.append("!"),
            Token::Asterisk => out.append("*"),
            Token::Slash => out.append("/"),
            Token::LessThan => out.append("<"),
            Token::GreaterThan => out.append(">"),
            Token::Equal => out.append("=="),
            Token::NotEqual => out.append("!="),
            Token::Comma => out.append(","),
            Token::Semicolon => out.append(";"),
            Token::Colon => out.append(":"),
            Token::LeftParen => out.append("("),
            Token::RightParen => out.append(")"),
            Token::LeftBrace => out.append("{"),
            Token::RightBrace => out.append("}"),
            Token::LeftBracket => out.append("["),
            Token::RightBracket => out.append("]"),
            Token::Function => out.append("fn"),
            Token::True => out.append("true"),
            Token::False => out.append("false"),
            Token::If => out.append("if"),
            Token::Else => out.append("else"),
            Token::Let => out.append("let"),
            Token::Return => out.append("return"),
            Token::Eof => out.append(""),
            Token::Illegal(c) => {
                push_char(out, *c);
                assert(final(out)@ =~= old(out)@ + self.spec_text());
            },
        }
    }

    /// The source text of the token.
    pub fn to_text(&self) -> (r: String)
        ensures
            r@ == self.spec_text(),
    {
        let mut out = String::new();
        self.push_text(&mut out);
        assert(out@ =~= self.spec_text());
        out
    }
}

} // verus!
