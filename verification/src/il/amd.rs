//! The x86-64 entries of the machine-register table. Each register names the
//! atomic sub-register units it covers; two registers overlap exactly when
//! they share a unit.
use vstd::prelude::*;
use super::{ILSize, ILSized};

verus! {

/// Atomic sub-register tags of the x86-64 general-purpose registers.
#[derive(Debug, Copy, Clone, PartialEq, Eq, Structural)]
pub enum AmdRegUnit {
    AL,
    CL,
    BL,
    DL,
    AH,
    CH,
    BH,
    DH,
}

/// One row of the static register table.
#[derive(Debug, Copy, Clone, PartialEq, Eq, Structural)]
pub enum AmdRegister {
    Rax,
    Eax,
    Ecx,
}

impl AmdRegister {
    /// The units the register covers.
    pub open spec fn units_seq(self) -> Seq<AmdRegUnit> {
        match self {
            AmdRegister::Rax => seq![AmdRegUnit::AL, AmdRegUnit::AH],
            AmdRegister::Eax => seq![AmdRegUnit::AL, AmdRegUnit::AH],
            AmdRegister::Ecx => seq![AmdRegUnit::CL, AmdRegUnit::CH],
        }
    }

    /// Two registers overlap when they share an atomic unit.
    pub open spec fn spec_overlaps(self, other: AmdRegister) -> bool {
        exists|u: AmdRegUnit| #[trigger]
            self.units_seq().contains(u) && other.units_seq().contains(u)
    }

    pub fn units(&self) -> (r: Vec<AmdRegUnit>)
        ensures
            r@ == self.units_seq(),
    {
        match self {
            AmdRegister::Rax => vec![AmdRegUnit::AL, AmdRegUnit::AH],
            AmdRegister::Eax => vec![AmdRegUnit::AL, AmdRegUnit::AH],
            AmdRegister::Ecx => vec![AmdRegUnit::CL, AmdRegUnit::CH],
        }
    }

    pub fn overlaps(&self, other: &AmdRegister) -> (r: bool)
        ensures
            r == self.spec_overlaps(*other),
    {
        let units_self = self.units();
        let units_other = other.units();
        let mut i: usize = 0;
        while i < units_self.len()
            invariant
                0 <= i <= units_self.len(),
                units_self@ == self.units_seq(),
                units_other@ == other.units_seq(),
                forall|k: int, j: int|
                    0 <= k < i && 0 <= j < units_other@.len() ==> units_self@[k]
                        != units_other@[j],
            decreases units_self.len() - i,
        {
            let mut j: usize = 0;
            while j < units_other.len()
                invariant
                    0 <= i < units_self.len(),
                    0 <= j <= units_other.len(),
                    units_self@ == self.units_seq(),
                    units_other@ == other.units_seq(),
                    forall|k: int| 0 <= k < j ==> units_self@[i as int] != units_other@[k],
                decreases units_other.len() - j,
            {
                if units_self[i] == units_other[j] {
                    assert(self.units_seq().contains(units_self@[i as int]));
                    assert(other.units_seq().contains(units_other@[j as int]));
                    return true;
                }
                j = j + 1;
            }
            i = i + 1;
        }
        proof {
            if self.spec_overlaps(*other) {
                let u = choose|u: AmdRegUnit|
                    self.units_seq().contains(u) && other.units_seq().contains(u);
                let k = choose|k: int| 0 <= k < self.units_seq().len() && self.units_seq()[k] == u;
                let j = choose|j: int|
                    0 <= j < other.units_seq().len() && other.units_seq()[j] == u;
                assert(units_self@[k] == units_other@[j]);
            }
        }
        false
    }

    /// The registers offered to the allocator, in the palette's tie-break
    /// order.
    pub fn gpr_registers() -> (r: Vec<AmdRegister>)
        ensures
            r@ == seq![AmdRegister::Rax, AmdRegister::Eax, AmdRegister::Ecx],
    {
        vec![AmdRegister::Rax, AmdRegister::Eax, AmdRegister::Ecx]
    }
}

impl ILSized for AmdRegister {
    open spec fn spec_il_size(&self) -> ILSize {
        match self {
            AmdRegister::Rax => ILSize::Integer { width_in_bytes: 8 },
            AmdRegister::Eax => ILSize::Integer { width_in_bytes: 4 },
            AmdRegister::Ecx => ILSize::Integer { width_in_bytes: 4 },
        }
    }

    fn il_size(&self) -> (r: ILSize) {
        match self {
            AmdRegister::Rax => ILSize::Integer { width_in_bytes: 8 },
            AmdRegister::Eax => ILSize::Integer { width_in_bytes: 4 },
            AmdRegister::Ecx => ILSize::Integer { width_in_bytes: 4 },
        }
    }
}

pub fn rax() -> (r: AmdRegister)
    ensures
        r == AmdRegister::Rax,
{
    AmdRegister::Rax
}

pub fn eax() -> (r: AmdRegister)
    ensures
        r == AmdRegister::Eax,
{
    AmdRegister::Eax
}

pub fn ecx() -> (r: AmdRegister)
    ensures
        r == AmdRegister::Ecx,
{
    AmdRegister::Ecx
}

} // verus!
