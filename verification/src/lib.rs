//! A small dynamically typed scripting language: a single-pass compiler that
//! emits bytecode, and a stack machine that runs it.
//!
//! The pipeline is [`scanner`] (source text to tokens), [`parser`] (tokens to
//! a [`chunk`] of bytecode, as [`grammar`] defines it) and [`vm`] (the
//! machine that runs a chunk).
//!
//! Numbers are IEEE-754 doubles carried as their 64-bit patterns. The library
//! compares, negates and classifies them itself ([`number`]); arithmetic
//! that rounds, and the conversion between digits and numbers, belong to the
//! host: the compiler is handed the values of the number literals that
//! [`scanner::numerals`] lists, and the machine asks for arithmetic through
//! [`vm::Signal::Needs`]. What a program prints is collected by the machine
//! for the host to show.
//!
//! Besides the contracts of the functions, the library proves what holds of
//! the compiler and the machine as a whole:
//! - [`scanner`]: every token lies where it says;
//! - [`growth`]: the compiler only adds, and the jumps of an `if` land where
//!   they should;
//! - [`scopes`]: local variables end with their block;
//! - [`numerals`]: each number literal gets the value that was meant for it;
//! - [`tidy`]: compiled code is a row of whole instructions;
//! - [`typing`] and [`safety`]: a program that compiles cannot fail at run
//!   time for a reason that lies in the code, and leaves the stack empty.
pub mod chunk;
pub mod function;
pub mod grammar;
pub mod growth;
pub mod number;
pub mod numerals;
pub mod opcode;
pub mod operator;
pub mod parse_rule;
pub mod parser;
pub mod precedence;
pub mod safety;
pub mod scanner;
pub mod scopes;
pub mod text;
pub mod tidy;
pub mod token;
pub mod typing;
pub mod value;
pub mod vm;

pub use chunk::Chunk;
pub use function::{Function, FunctionType};
pub use opcode::{from_u8, Opcode};
pub use operator::Operator;
pub use parse_rule::{Handler, ParseRule};
pub use parser::{Diagnostic, Parser};
pub use precedence::Precedence;
pub use scanner::Scanner;
pub use token::{Token, TokenType};
pub use value::Value;
pub use vm::{CallFrame, InterpretError, Signal, Vm};
