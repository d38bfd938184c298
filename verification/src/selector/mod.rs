pub mod ast;
pub mod error;
pub mod grammar;
pub mod lexer;
pub mod parser;
pub mod locator;
pub mod display;
pub mod roundtrip;
