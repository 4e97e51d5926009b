//! Verified core of a Vertex Block Descent strand simulator: the spring
//! topology of a strand, the per-vertex spring lookup used by the solver, the
//! schedule of a simulation run and the naming of frame output files.

pub mod strand;
pub mod schedule;
pub mod output;
pub mod scene;
