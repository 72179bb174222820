pub mod ast;
pub mod codegen;
pub mod compiler;
pub mod diag;
pub mod lexer;
pub mod order;
pub mod parser;
pub mod text;
pub mod sema;
