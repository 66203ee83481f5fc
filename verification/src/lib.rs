//! A small dynamically typed scripting language: a scanner, a single-pass
//! compiler to stack-machine bytecode, and the machine that runs it.
//!
//! Numbers are IEEE 754 binary64 values carried as their bit patterns. The
//! library compares and negates them itself; converting literals, arithmetic
//! and formatting are left to the host, which the machine asks through
//! [`vm::Action`].

pub mod token;
pub mod text;
pub mod scanner;
pub mod rescan;
pub mod value;
pub mod chunk;
pub mod globals;
pub mod report;
pub mod compiler;
pub mod expressions;
pub mod statements;
pub mod model;
pub mod debug;
pub mod vm;
