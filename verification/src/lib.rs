//! A compiler back end for a small SSA intermediate representation:
//! register allocation over a control-flow graph (liveness analysis,
//! live-range construction, interference graphs, DSATUR coloring) and
//! lowering to an x86-64 register transfer language with byte encoding.
pub mod amd64;
pub mod bb;
pub mod codegen;
pub mod compile;
pub mod ga;
pub mod galloc;
pub mod glir;
pub mod grtl;
pub mod il;
mod jit;
pub mod machine;
pub mod rtl;
pub mod ssa;
pub mod typing;
pub mod x86_64;

pub use jit::round_to_pow2;
