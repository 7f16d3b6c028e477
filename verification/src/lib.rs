//! A small expression-language interpreter: a semantic analyzer that checks
//! scope and arity rules, a code generator that flattens syntax trees into
//! bytecode, and a stack-based virtual machine with heap-allocated strings
//! and snapshot-captured closures.

pub mod assoc;
pub mod ast;
pub mod bytecode;
pub mod codegen;
pub mod float_bits;
pub mod laws;
pub mod parser;
pub mod runtime;
pub mod semantic_analysis;
pub mod vm;
