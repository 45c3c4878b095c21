pub mod ast;
pub mod pass;
