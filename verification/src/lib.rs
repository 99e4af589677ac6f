//! A build engine for a block-structured markup: rule language and
//! interpreter, preprocessor, compiler, operation graph and scheduler.
pub mod ast;
pub mod cli;
pub mod compiler;
pub mod parser;
pub mod preprocessor;
pub mod strmap;
pub mod text;
pub mod types;
