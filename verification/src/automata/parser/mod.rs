pub mod types;
pub mod items;
pub mod builder;
pub mod pda;
pub mod api;
