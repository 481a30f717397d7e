//! An early generation of the SSA layer: named, versioned variables and
//! two instruction forms.
use vstd::prelude::*;

pub mod bb;
pub mod ssa;
pub mod typing;

verus! {

/// An instruction: subtraction into a fresh variable, or initialisation.
#[derive(Debug)]
pub enum Ins {
    Sub(ssa::Variable, ssa::Operand, ssa::Operand),
    Init(ssa::Variable, ssa::Operand),
}

} // verus!
