//! The bytecode core: lexer, chunk, Pratt compiler, virtual machine and
//! disassembler.

pub mod chunk;
pub mod compiler;
pub mod debug;
pub mod scanner;
pub mod value;
pub mod vm;
