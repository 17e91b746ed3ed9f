//! A SysY front end: lexical analysis, recursive-descent parsing and
//! semantic analysis, each stated against a functional model and proved.

pub mod ast;
pub mod lexer;
pub mod parser;
pub mod semantic;
pub mod analyzer;
pub mod ir;
pub mod resolution;
pub mod precedence;
