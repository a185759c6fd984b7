//! A small templating language: indentation-significant source is parsed
//! into a statement tree, which is then evaluated into pages of output
//! instructions.

pub mod parser;
pub mod interpreter;
pub mod repl;
pub mod variable;
pub mod interpolation;
