//! Register allocation over the control-flow graph: liveness analysis, live
//! ranges, the interference graph, and its coloring.
pub mod ifr;
pub mod liveness;
