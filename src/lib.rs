//! A register machine over 15-bit words: operand resolution, instruction
//! decoding and execution, snapshots, and the decisions of an interactive
//! debugger.
pub mod util;
pub mod vm;
pub mod opcode;
pub mod exec;
pub mod snapshot;
pub mod laws;
pub mod debug;
pub mod lexer;
pub mod error;
pub mod config;
