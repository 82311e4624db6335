pub mod data;
pub mod func_signatures;
pub mod assign;
pub mod return_checks;
pub mod fill;
pub mod phase1;
pub mod typed_returns;
pub mod bindings;
pub mod main;
