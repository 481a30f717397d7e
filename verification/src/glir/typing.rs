//! The one data type of this layer and its size rule.
use vstd::prelude::*;

verus! {

#[derive(Hash, Debug, Clone, Copy, PartialEq, Eq, Structural)]
pub enum Type {
    I32,
}

impl Type {
    pub open spec fn spec_mem_size(self) -> usize {
        match self {
            Type::I32 => 4,
        }
    }

    pub fn mem_size(&self) -> (r: usize)
        ensures
            r == self.spec_mem_size(),
    {
        match self {
            Type::I32 => 4,
        }
    }
}

/// Anything with a type in this layer.
pub trait Typed {
    spec fn spec_typ(&self) -> Type;

    fn typ(&self) -> (r: Type)
        ensures
            r == self.spec_typ(),
    ;
}

} // verus!
