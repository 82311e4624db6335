pub mod hir;
pub mod lir;
pub mod hir_to_lir;
pub mod lir_to_asm;
pub mod lir_parsing;
pub mod lir_printing;
pub mod hir_parsing;
pub mod ast_to_hir;
