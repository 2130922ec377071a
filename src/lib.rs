//! Termination-safety checks and capability classification for generated
//! pipeline programs.
mod buffer;
pub mod model;
pub mod loops;
pub mod callgraph;
pub mod recursion;
pub mod registry;
pub mod laws;
pub mod samples;
pub mod pipe;
pub mod naming;
pub mod load;
