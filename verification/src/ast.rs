//! The tree-walking front end's pieces: eagerly scanned tokens with their
//! lexemes, an error collector, and the keyword table.

pub mod error;
pub mod lang;
pub mod scanner;
pub mod tokens;
