pub mod ast;
pub mod typing;
pub mod ast_debug;
