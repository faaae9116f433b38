//! A lexical scanner for the Lox scripting language: from source text to
//! tokens, with every function proved against its contract.

pub mod grammar;
pub mod laws;
pub mod lox;
pub mod scanner;
pub mod text;
pub mod token;
