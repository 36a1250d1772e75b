//! A small-language bytecode pipeline: a lexer, a single-pass Pratt-parsing
//! compiler that emits a byte-oriented instruction stream into a chunk, and a
//! stack-based virtual machine that executes that stream, together with a
//! read-only disassembler. A separate tree-walking token scanner for the same
//! toy language lives under `ast`.

pub mod ast;
pub mod bytecode;
