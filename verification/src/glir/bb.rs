//! Basic blocks of this layer: an instruction list and a terminator.
use vstd::prelude::*;
use super::{ssa, Ins};

verus! {

#[derive(Debug)]
pub struct BasicBlock {
    pub ins_list: Vec<Ins>,
    pub terminator: Terminator,
}

/// How a block ends.
#[derive(Debug)]
pub enum Terminator {
    Ret(ssa::Variable),
    Jmp(Box<BasicBlock>),
    Void,
}

} // verus!
