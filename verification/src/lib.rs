//! Front-end scanning stage and back-end execution stage of a small dynamic
//! language toolchain: a lexical scanner that turns source text into a stream
//! of classified tokens, and a stack-based virtual machine that executes a
//! compact bytecode representation of numeric arithmetic.

pub mod bytecode;
pub mod lexer;
pub mod vm;
