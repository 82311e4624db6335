pub mod types;
pub mod sets;
pub mod building;
pub mod dfa;
