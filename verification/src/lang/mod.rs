pub mod ast;
pub mod tree;
pub mod tokenizer;
pub mod parser;
pub mod syntax;
pub mod grammar;
pub mod linter;
pub mod registry;
pub mod config;
