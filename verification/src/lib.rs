pub mod ast;
pub mod error;
pub mod grammar;
pub mod laws;
pub mod lexer;
pub mod number;
pub mod parser;
pub mod syntax;
pub mod text;
pub mod token;
