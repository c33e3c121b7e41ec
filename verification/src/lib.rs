//! A just-in-time compiler for integer arithmetic expressions.
//!
//! An expression such as `((a + 3) * -4!) / 2^3` is tokenized, converted to
//! postfix form, and lowered to x86-64 machine code through a small assembler.
//! A SHA-256 integrity digest is accumulated over the logic-bearing bytes of
//! the generated code, and a memory-region model tracks the page mappings and
//! protection transitions that the runtime harness performs.

pub mod writer;
pub mod x86;
pub mod tokenizer;
pub mod rpn_converter;
pub mod rpn_evaluator;
pub mod vars;
pub mod builtins;
pub mod compiler;
pub mod mmap;
pub mod executable;
