//! The intermediate language whose programs the register allocator works on:
//! sizes, registers, and the instruction forms the liveness analysis reads.
use vstd::prelude::*;

pub mod amd;
pub mod cfg;
pub mod reg;

use reg::SSARegister;

verus! {

/// Width classification of a value.
#[derive(PartialEq, Eq, Structural, Debug, Copy, Clone)]
pub enum ILSize {
    Pointer,
    Integer { width_in_bytes: usize },
    Structure { width_in_bytes: usize },
}

impl ILSize {
    /// Width in bytes. This back end emits code for 64-bit targets only, so a
    /// pointer is eight bytes.
    pub open spec fn spec_width(self) -> usize {
        match self {
            ILSize::Pointer => 8,
            ILSize::Integer { width_in_bytes } => width_in_bytes,
            ILSize::Structure { width_in_bytes } => width_in_bytes,
        }
    }

    pub fn width(&self) -> (r: usize)
        ensures
            r == self.spec_width(),
    {
        match self {
            ILSize::Pointer => 8,
            ILSize::Integer { width_in_bytes } => *width_in_bytes,
            ILSize::Structure { width_in_bytes } => *width_in_bytes,
        }
    }
}

/// Anything with a width in the intermediate language.
pub trait ILSized {
    spec fn spec_il_size(&self) -> ILSize;

    fn il_size(&self) -> (r: ILSize)
        ensures
            r == self.spec_il_size(),
    ;
}

/// Immediate (literal) value.
#[derive(Debug, Copy, Clone)]
pub enum Immediate {
    U32(u32),
}

impl ILSized for Immediate {
    open spec fn spec_il_size(&self) -> ILSize {
        ILSize::Integer { width_in_bytes: 4 }
    }

    fn il_size(&self) -> (r: ILSize) {
        match self {
            Immediate::U32(_) => ILSize::Integer { width_in_bytes: 4 },
        }
    }
}

/// A register or an immediate value.
#[derive(Debug, Copy, Clone)]
pub enum RValue {
    SSARegister(SSARegister),
    Immediate(Immediate),
}

/// Allocates memory on the stack and places the pointer in `out_pointer`.
#[derive(Debug, Copy, Clone)]
pub struct Reserve {
    pub size: ILSize,
    pub out_pointer: SSARegister,
}

/// Writes `value` to `destination`.
#[derive(Debug, Copy, Clone)]
pub struct Write {
    pub destination: SSARegister,
    pub value: RValue,
}

/// Reads the data pointed to by `target` into `out_data`.
#[derive(Debug, Copy, Clone)]
pub struct Read {
    pub target: SSARegister,
    pub out_data: SSARegister,
}

/// Returns the value found in `register`.
#[derive(Debug, Copy, Clone)]
pub struct Return {
    pub register: Option<SSARegister>,
}

/// Keeps `register` live up to this point without other effect.
#[derive(Debug, Copy, Clone)]
pub struct DummyUse {
    pub register: SSARegister,
}

/// An instruction of the intermediate language.
#[derive(Debug, Copy, Clone)]
pub enum Instruction {
    Reserve(Reserve),
    Write(Write),
    DummyUse(DummyUse),
    Read(Read),
    Return(Return),
}

impl Instruction {
    /// The registers the instruction reads.
    pub open spec fn spec_loaded_variables(self) -> Seq<SSARegister> {
        match self {
            Instruction::Write(_) => Seq::empty(),
            Instruction::DummyUse(DummyUse { register }) => seq![register],
            Instruction::Read(Read { target, out_data: _ }) => seq![target],
            Instruction::Reserve(_) => Seq::empty(),
            Instruction::Return(Return { register }) => match register {
                Some(register) => seq![register],
                None => Seq::empty(),
            },
        }
    }

    /// True when the instruction reads the register with id `id`.
    pub open spec fn spec_reads_id(self, id: int) -> bool {
        exists|k: int|
            0 <= k < self.spec_loaded_variables().len()
                && #[trigger] self.spec_loaded_variables()[k].spec_id() == id
    }

    /// All the variables that are explicitly read from during this
    /// instruction.
    pub fn loaded_variables(&self) -> (r: Vec<SSARegister>)
        ensures
            r@ == self.spec_loaded_variables(),
    {
        match self {
            Instruction::Write(Write { .. }) => Vec::new(),
            Instruction::DummyUse(DummyUse { register }) => vec![*register],
            Instruction::Read(Read { target, out_data: _ }) => vec![*target],
            Instruction::Reserve(Reserve { .. }) => Vec::new(),
            Instruction::Return(Return { register }) => match register {
                Some(register) => vec![*register],
                None => Vec::new(),
            },
        }
    }

    /// True when the instruction reads `var` (registers compare by id).
    pub fn reads(&self, var: &SSARegister) -> (r: bool)
        ensures
            r == self.spec_reads_id(var.spec_id()),
    {
        let loaded = self.loaded_variables();
        let mut i: usize = 0;
        while i < loaded.len()
            invariant
                0 <= i <= loaded.len(),
                loaded@ == self.spec_loaded_variables(),
                forall|k: int| 0 <= k < i ==> #[trigger] loaded@[k].spec_id() != var.spec_id(),
            decreases loaded.len() - i,
        {
            if loaded[i].id() == var.id() {
                return true;
            }
            i = i + 1;
        }
        false
    }
}

} // verus!
