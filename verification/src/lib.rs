//! A small expression language, from its syntax tree to a run: a generator
//! that lowers each function to instructions for a stack machine, a linker
//! that lays the functions out in one program and resolves its labels, and
//! the machine that runs the program.

pub mod ast;
pub mod balance;
pub mod bytecode;
pub mod codegen;
pub mod lexer;
pub mod machine;
pub mod number;
pub mod runtime;
