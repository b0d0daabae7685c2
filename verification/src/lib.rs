//! A front-to-mid compiler pipeline for a minimal imperative language:
//! a lexer turning source text into tokens, a recursive-descent parser
//! building an abstract syntax tree, and a tree-walking code generator
//! emitting three-address quadruples with a scoped symbol table and
//! backpatched jump targets.

pub mod text;
pub mod token;
pub mod lexer;
pub mod ast;
pub mod errors;
pub mod symbol_table;
pub mod codegen;
pub mod parser;
