//! Front end of a compiler for a small, statically typed, indentation-scoped
//! language: token lines, a scope chain, a typed syntax tree and the
//! precedence-climbing expression parser that builds it.

pub mod compiler_error;
pub mod data_type;
pub mod tokenizer;
pub mod ast_node;
pub mod line;
pub mod expression;
pub mod function_node;
pub mod ast;
