//! A tree-walking interpreter for a small expression-oriented language:
//! a lexer, a precedence-climbing parser, and an evaluator over a
//! lexically scoped environment, with contracts proved by Verus.

pub mod ast;
pub mod builtins;
pub mod environment;
pub mod evaluator;
pub mod hash;
pub mod laws;
pub mod lexer;
pub mod object;
pub mod operators;
pub mod parser;
pub mod text;
pub mod token;

pub use ast::{BlockStatement, Expression, Program, Statement};
pub use builtins::{Builtin, Output};
pub use environment::Environment;
pub use evaluator::{eval_program, run_program, Evaluator, DEFAULT_CALL_DEPTH};
pub use lexer::Lexer;
pub use object::Object;
pub use parser::Parser;
pub use token::{ExpressionPrecedence, Token};
