//! The data types of the SSA language and their sizes in bytes.
use vstd::prelude::*;

verus! {

#[derive(Hash, Debug, Clone, Copy, PartialEq, Eq, Structural)]
pub enum Type {
    I32,
    U32,
}

impl Type {
    /// The width of a value of the type, in bytes.
    pub open spec fn spec_mem_size(self) -> usize {
        match self {
            Type::I32 => 4,
            Type::U32 => 4,
        }
    }

    pub fn mem_size(&self) -> (r: usize)
        ensures
            r == self.spec_mem_size(),
    {
        match self {
            Type::I32 => 4,
            Type::U32 => 4,
        }
    }
}

/// Anything with a data type.
pub trait Typed {
    spec fn spec_data_ty(&self) -> Type;

    fn data_ty(&self) -> (r: Type)
        ensures
            r == self.spec_data_ty(),
    ;
}

} // verus!
