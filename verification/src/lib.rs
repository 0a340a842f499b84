//! A bytecode engine for a small dynamically typed language: runtime values,
//! instruction chunks with a constant pool and a line table, a disassembler,
//! and a stack-based virtual machine.
//!
//! Numbers are IEEE 754 double-precision values. The engine carries each one as
//! its 64-bit encoding and never computes on it, with one exception: negation,
//! which only flips the sign bit. Arithmetic, comparison and the decimal text of
//! a number are supplied by the host as functions on encodings.

pub mod value;
pub mod chunk;
pub mod text;
pub mod disassembler;
pub mod execution;
pub mod virtual_machine;
