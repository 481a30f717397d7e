//! The register-transfer expressions the machine codegen consumes:
//! registers with optional machine assignments, immediates, destinations,
//! transfers, and whole functions over basic blocks.
#![allow(non_camel_case_types)]
use vstd::prelude::*;
use crate::bb;
use crate::x86_64;

verus! {

/// A machine register, tagged by architecture.
#[derive(Debug, Copy, Clone, PartialEq, Eq, Structural)]
pub enum MachineRegister {
    x86_64(x86_64::Register),
}

/// Access widths, named after their integer classes.
#[derive(Eq, PartialEq, Structural, Debug, Copy, Clone)]
pub enum AccessMode {
    /// Bit
    BI,
    /// Quarter Integer
    QI,
    /// Half Integer
    HI,
    /// Single Integer
    SI,
    /// Partial Single Integer
    PSI,
    /// Double Integer
    DI,
}

/// A numbered register, possibly pinned to a machine register.
#[derive(Debug, Copy, Clone, PartialEq, Eq, Structural)]
pub struct Register {
    number: usize,
    machine_register: Option<MachineRegister>,
    natural_mode: AccessMode,
}

impl Register {
    pub closed spec fn spec_number(&self) -> int {
        self.number as int
    }

    pub closed spec fn spec_machine_register(&self) -> Option<MachineRegister> {
        self.machine_register
    }

    pub closed spec fn spec_natural_mode(&self) -> AccessMode {
        self.natural_mode
    }

    /// A virtual register.
    pub fn vreg(number: usize, natural_mode: AccessMode) -> (r: Self)
        ensures
            r.spec_number() == number as int,
            r.spec_machine_register() is None,
            r.spec_natural_mode() == natural_mode,
    {
        Self { number, natural_mode, machine_register: None }
    }

    /// A register pinned to a machine register.
    pub fn preg(number: usize, machine_register: MachineRegister, natural_mode: AccessMode) -> (r:
        Self)
        ensures
            r.spec_number() == number as int,
            r.spec_machine_register() == Some(machine_register),
            r.spec_natural_mode() == natural_mode,
    {
        Self { number, machine_register: Some(machine_register), natural_mode }
    }

    pub fn number(&self) -> (r: usize)
        ensures
            r as int == self.spec_number(),
    {
        self.number
    }

    pub fn machine_register(&self) -> (r: Option<&MachineRegister>)
        ensures
            match r {
                Some(m) => self.spec_machine_register() == Some(*m),
                None => self.spec_machine_register() is None,
            },
    {
        self.machine_register.as_ref()
    }

    /// The pinned register, seen as an x86-64 register.
    pub fn x86_64_machine_register(&self) -> (r: Option<x86_64::Register>)
        ensures
            match r {
                Some(m) => self.spec_machine_register() == Some(MachineRegister::x86_64(m)),
                None => self.spec_machine_register() is None,
            },
    {
        match &self.machine_register {
            Some(MachineRegister::x86_64(m)) => Some(*m),
            None => None,
        }
    }

    pub fn natural_mode(&self) -> (r: AccessMode)
        ensures
            r == self.spec_natural_mode(),
    {
        self.natural_mode
    }
}

/// A placeholder in a pattern, identified by number.
#[derive(Debug, PartialEq, Eq, Structural, Copy, Clone)]
pub struct Template {
    pub id: u32,
}

#[derive(Debug, PartialEq, Eq, Structural, Copy, Clone)]
pub enum ImmediateExpr {
    Int32(i32),
    UInt32(u32),
    Template(Template),
}

impl ImmediateExpr {
    /// The width an immediate is accessed at; a template has none.
    pub fn as_access_mode(&self) -> (r: AccessMode)
        requires
            !(self is Template),
        ensures
            r == AccessMode::SI,
    {
        match self {
            ImmediateExpr::Int32(_) => AccessMode::SI,
            ImmediateExpr::UInt32(_) => AccessMode::SI,
            ImmediateExpr::Template(_) => unreached(),
        }
    }
}

#[derive(Debug)]
pub enum Rtx {
    Destination(DestinationExpr),
    Immediate(ImmediateExpr),
}

#[derive(Debug, Copy, Clone, PartialEq, Eq, Structural)]
pub struct RegisterExpr {
    reg: Register,
    mode: AccessMode,
}

impl RegisterExpr {
    pub closed spec fn spec_reg(&self) -> Register {
        self.reg
    }

    pub closed spec fn spec_mode(&self) -> AccessMode {
        self.mode
    }

    pub fn new(reg: Register, mode: AccessMode) -> (r: Self)
        ensures
            r.spec_reg() == reg,
            r.spec_mode() == mode,
    {
        Self { reg, mode }
    }

    pub fn reg(&self) -> (r: &Register)
        ensures
            *r == self.spec_reg(),
    {
        &self.reg
    }

    pub fn mode(&self) -> (r: AccessMode)
        ensures
            r == self.spec_mode(),
    {
        self.mode
    }
}

#[derive(Debug)]
pub struct MemoryExpr {
    pub deref: Box<Rtx>,
    pub mode: AccessMode,
}

#[derive(Debug)]
pub enum DestinationExpr {
    Memory(MemoryExpr),
    Register(RegisterExpr),
    Template(Template),
}

/// Moves `source` into `destination`.
#[derive(Debug)]
pub struct Transfer {
    destination: DestinationExpr,
    source: Rtx,
}

impl Transfer {
    pub closed spec fn spec_destination(&self) -> DestinationExpr {
        self.destination
    }

    pub closed spec fn spec_source(&self) -> Rtx {
        self.source
    }

    pub fn new(destination: DestinationExpr, source: Rtx) -> (r: Self)
        ensures
            r.spec_destination() == destination,
            r.spec_source() == source,
    {
        Transfer { destination, source }
    }

    pub fn destination(&self) -> (r: &DestinationExpr)
        ensures
            *r == self.spec_destination(),
    {
        &self.destination
    }

    pub fn source(&self) -> (r: &Rtx)
        ensures
            *r == self.spec_source(),
    {
        &self.source
    }
}

/// Returns from the function.
#[derive(Debug)]
pub struct Return;

#[derive(Debug)]
pub enum Instruction {
    Transfer(Transfer),
    Return(Return),
}

pub type BasicBlock = bb::BasicBlock<Instruction>;

/// A named function with its entry block.
pub struct Function {
    pub name: String,
    pub entry_block: BasicBlock,
}

} // verus!
