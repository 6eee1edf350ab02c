//! A bytecode compiler and stack-based virtual machine for the Lox
//! scripting language: a scanner, a single-pass Pratt parser that emits
//! byte-coded instructions into chunks, a string interner that gives
//! textually equal strings one identity, and a dispatch loop that runs
//! the instruction stream against a fixed-size value stack.

pub mod chunk;
pub mod compiler;
pub mod instructions;
pub mod number;
pub mod scanner;
pub mod text;
pub mod value;
pub mod vm;
