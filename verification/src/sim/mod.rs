pub mod netlist;
pub mod parsing;
pub mod frames;
pub mod types;
pub mod build_graph;
pub mod sort_graph;
pub mod runner;
pub mod testbench;
pub mod bounds;
