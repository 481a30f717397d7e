//! Registers of the intermediate language: machine registers drawn from the
//! static table, and numbered SSA registers that may be pinned to one.
use vstd::prelude::*;
use super::amd::AmdRegister;
use super::{ILSize, ILSized};

verus! {

/// A machine register, tagged by architecture.
#[derive(Debug, Copy, Clone, PartialEq, Eq, Structural)]
pub enum MachineReg {
    AMD64(AmdRegister),
}

/// The allocatable general-purpose registers, in tie-break order.
pub open spec fn spec_amd_gpr_registers() -> Seq<MachineReg> {
    seq![
        MachineReg::AMD64(AmdRegister::Rax),
        MachineReg::AMD64(AmdRegister::Eax),
        MachineReg::AMD64(AmdRegister::Ecx),
    ]
}

impl MachineReg {
    /// Overlap of the underlying registers' unit sets.
    pub open spec fn spec_overlaps(self, other: MachineReg) -> bool {
        match (self, other) {
            (MachineReg::AMD64(a), MachineReg::AMD64(b)) => a.spec_overlaps(b),
        }
    }

    pub fn overlaps(&self, other: &MachineReg) -> (r: bool)
        ensures
            r == self.spec_overlaps(*other),
    {
        match (self, other) {
            (MachineReg::AMD64(a), MachineReg::AMD64(b)) => a.overlaps(b),
        }
    }

    /// The machine's general-purpose palette, in tie-break order.
    pub fn amd_gpr_registers() -> (r: Vec<MachineReg>)
        ensures
            r@ == spec_amd_gpr_registers(),
    {
        vec![
            MachineReg::AMD64(AmdRegister::Rax),
            MachineReg::AMD64(AmdRegister::Eax),
            MachineReg::AMD64(AmdRegister::Ecx),
        ]
    }
}

impl ILSized for MachineReg {
    open spec fn spec_il_size(&self) -> ILSize {
        match self {
            MachineReg::AMD64(r) => r.spec_il_size(),
        }
    }

    fn il_size(&self) -> (r: ILSize) {
        match self {
            MachineReg::AMD64(r) => r.il_size(),
        }
    }
}

/// A numbered register of the SSA program. Registers compare equal by id
/// alone: an id names one abstract location whose width never changes.
#[derive(Debug, Copy, Clone)]
pub struct SSARegister {
    id: usize,
    size: ILSize,
    machine_reg: Option<MachineReg>,
}

impl SSARegister {
    pub closed spec fn spec_id(&self) -> int {
        self.id as int
    }

    pub closed spec fn spec_size(&self) -> ILSize {
        self.size
    }

    pub closed spec fn spec_mc_register(&self) -> Option<MachineReg> {
        self.machine_reg
    }

    pub fn new(id: usize, size: ILSize) -> (r: Self)
        ensures
            r.spec_id() == id as int,
            r.spec_size() == size,
            r.spec_mc_register() is None,
    {
        Self { id, size, machine_reg: None }
    }

    /// A register already pinned to a machine register of its own width.
    pub fn of_mc_register(id: usize, mc_register: MachineReg) -> (r: Self)
        ensures
            r.spec_id() == id as int,
            r.spec_size() == mc_register.spec_il_size(),
            r.spec_mc_register() == Some(mc_register),
    {
        Self { id, size: mc_register.il_size(), machine_reg: Some(mc_register) }
    }

    pub fn id(&self) -> (r: usize)
        ensures
            r as int == self.spec_id(),
    {
        self.id
    }

    pub fn size(&self) -> (r: ILSize)
        ensures
            r == self.spec_size(),
    {
        self.size
    }

    pub fn mc_register(&self) -> (r: Option<&MachineReg>)
        ensures
            match r {
                Some(m) => self.spec_mc_register() == Some(*m),
                None => self.spec_mc_register() is None,
            },
    {
        self.machine_reg.as_ref()
    }

    pub fn has_machine_reg(&self) -> (r: bool)
        ensures
            r == self.spec_mc_register() is Some,
    {
        self.machine_reg.is_some()
    }
}

impl PartialEq for SSARegister {
    fn eq(&self, other: &Self) -> (r: bool) {
        self.id == other.id
    }
}

impl Eq for SSARegister {

}

impl vstd::std_specs::cmp::PartialEqSpecImpl for SSARegister {
    open spec fn obeys_eq_spec() -> bool {
        true
    }

    open spec fn eq_spec(&self, other: &Self) -> bool {
        self.spec_id() == other.spec_id()
    }
}

impl ILSized for SSARegister {
    open spec fn spec_il_size(&self) -> ILSize {
        self.spec_size()
    }

    fn il_size(&self) -> (r: ILSize) {
        self.size
    }
}

/// A register stand-in that only carries a number and a width.
#[derive(Debug, Copy, Clone)]
pub struct PlaceholderReg {
    identifier: usize,
    size: ILSize,
}

impl PlaceholderReg {
    pub closed spec fn spec_identifier(&self) -> int {
        self.identifier as int
    }

    pub closed spec fn spec_size(&self) -> ILSize {
        self.size
    }

    pub fn new(identifier: usize, size: ILSize) -> (r: Self)
        ensures
            r.spec_identifier() == identifier as int,
            r.spec_size() == size,
    {
        Self { identifier, size }
    }

    pub fn identifier(&self) -> (r: usize)
        ensures
            r as int == self.spec_identifier(),
    {
        self.identifier
    }

    pub fn size(&self) -> (r: &ILSize)
        ensures
            *r == self.spec_size(),
    {
        &self.size
    }
}

} // verus!
