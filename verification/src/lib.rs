//! A tree-walking interpreter for the Lox language: scanner, parser,
//! resolver and interpreter, with their behaviour stated as contracts.

pub mod number;
pub mod text;
pub mod lox;
pub mod error;
pub mod token;
pub mod scanner;
pub mod expr;
pub mod stmt;
pub mod parser_spec;
pub mod parser;
pub mod scope;
pub mod resolver_spec;
pub mod resolver;
pub mod value;
pub mod tree_copy;
pub mod environment;
pub mod object;
pub mod ops;
pub mod clock;
pub mod interp_spec;
pub mod interpreter;
pub mod ast_printer;
pub mod ast_printer_ref;
pub mod commands;
pub mod repl;
