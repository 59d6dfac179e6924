//! Compiler front end of the hana programming language: lexer, parser,
//! bytecode generator and the pure parts of its runtime library.

pub mod ast;
pub mod text;
pub mod vmbindings;
pub mod compiler;
pub mod hanayo;
pub mod modules;
pub mod report;
