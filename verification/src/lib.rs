//! A minimal just-in-time compiler for a stack-based bytecode.
//!
//! [`Program`] holds an instruction sequence, [`Compiler`] lowers it to
//! self-contained x86-64 machine code, and [`Invoker`] (together with the
//! surrounding application) runs the generated bytes as a native function.
//! The generated byte sequence is specified exactly by
//! [`encoding::spec_compile`], and [`Compiler::compile`] is proved to
//! return it.

pub mod codegen;
pub mod encoding;
pub mod invoker;
pub mod program;

pub use codegen::Compiler;
pub use encoding::CodegenError;
pub use invoker::page_aligned_len;
pub use invoker::Invoker;
pub use program::Instruction;
pub use program::Program;
