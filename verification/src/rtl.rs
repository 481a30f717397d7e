//! The register transfer language: moves and arithmetic over virtual,
//! machine and stack registers, and the rewrite that replaces every virtual
//! register with its allocation.
use vstd::prelude::*;

pub mod amd64;

use amd64::Amd64Register;

verus! {

/// A machine register, tagged by architecture.
#[derive(PartialEq, Eq, Hash, Structural, Debug, Clone, Copy)]
pub enum RealRegister {
    Amd64(Amd64Register),
}

impl RealRegister {
    pub open spec fn spec_sz(self) -> usize {
        match self {
            RealRegister::Amd64(reg) => reg.spec_reg_size(),
        }
    }

    pub fn sz(&self) -> (r: usize)
        ensures
            r == self.spec_sz(),
    {
        match self {
            RealRegister::Amd64(reg) => reg.reg_size(),
        }
    }
}

/// A numbered virtual register of the given width in bytes.
#[derive(PartialEq, Eq, Hash, Structural, Debug, Copy, Clone)]
pub struct VirRegister {
    pub bytes: usize,
    pub n: usize,
}

/// A stack slot holding a spilled register.
#[derive(PartialEq, Eq, Hash, Structural, Debug, Copy, Clone)]
pub struct StackRegister {
    pub slot: usize,
    pub bytes: usize,
}

#[derive(PartialEq, Eq, Hash, Structural, Debug, Copy, Clone)]
pub enum Register {
    Vir(VirRegister),
    Real(RealRegister),
    Stack(StackRegister),
}

impl Register {
    pub open spec fn spec_sz(self) -> usize {
        match self {
            Register::Real(rr) => rr.spec_sz(),
            Register::Vir(pseudo) => pseudo.bytes,
            Register::Stack(stack) => stack.bytes,
        }
    }

    /// The register after allocation; only real registers remain then.
    #[inline]
    pub fn unwrap_real(&self) -> (r: &RealRegister)
        requires
            self is Real,
        ensures
            *self == Register::Real(*r),
    {
        match self {
            Register::Real(rr) => rr,
            _ => unreached(),
        }
    }

    pub fn sz(&self) -> (r: usize)
        ensures
            r == self.spec_sz(),
    {
        match self {
            Register::Real(rr) => rr.sz(),
            Register::Vir(pseudo) => pseudo.bytes,
            Register::Stack(stack) => stack.bytes,
        }
    }
}

/// A literal operand.
#[derive(PartialEq, Eq, Structural, Debug, Copy, Clone)]
pub enum Lit {
    LitU8(u8),
    LitU32(u32),
}

impl Lit {
    pub open spec fn spec_sz(self) -> usize {
        match self {
            Lit::LitU8(_) => 1,
            Lit::LitU32(_) => 4,
        }
    }

    pub fn sz(&self) -> (r: usize)
        ensures
            r == self.spec_sz(),
    {
        match self {
            Lit::LitU8(..) => 1,
            Lit::LitU32(..) => 4,
        }
    }
}

#[derive(PartialEq, Eq, Structural, Debug, Copy, Clone)]
pub enum RValue {
    Register(Register),
    Lit(Lit),
}

impl RValue {
    pub open spec fn spec_sz(self) -> usize {
        match self {
            RValue::Register(reg) => reg.spec_sz(),
            RValue::Lit(lit) => lit.spec_sz(),
        }
    }

    pub fn sz(&self) -> (r: usize)
        ensures
            r == self.spec_sz(),
    {
        match self {
            RValue::Register(reg) => reg.sz(),
            RValue::Lit(lit) => lit.sz(),
        }
    }
}

#[derive(PartialEq, Eq, Structural, Debug, Copy, Clone)]
pub struct OpCopy {
    pub to: Register,
    pub from: RValue,
}

#[derive(PartialEq, Eq, Structural, Debug, Copy, Clone)]
pub struct OpAdd {
    pub to: Register,
    pub val: RValue,
}

#[derive(PartialEq, Eq, Structural, Debug, Copy, Clone)]
pub struct OpSub {
    pub from: Register,
    pub val: RValue,
}

#[derive(PartialEq, Eq, Structural, Debug, Copy, Clone)]
pub struct OpMul {
    pub val: Register,
    pub with: RValue,
}

#[derive(PartialEq, Eq, Structural, Debug, Copy, Clone)]
pub struct OpDiv {
    pub val: Register,
    pub with: RValue,
}

#[derive(PartialEq, Eq, Structural, Debug, Copy, Clone)]
pub enum Op {
    Copy(OpCopy),
    Add(OpAdd),
    Sub(OpSub),
    Mul(OpMul),
    Div(OpDiv),
}

pub type Ops = Vec<Op>;

/// A named straight-line block of operations.
pub struct Block {
    pub name: Option<String>,
    pub ops: Ops,
    pub metadata: (),
}

/// Checks that an assignment's two sides have the same width; the encoder
/// relies on it.
pub fn check_lvalue_rvalue(lvalue: &Register, rvalue: &RValue)
    requires
        lvalue.spec_sz() == rvalue.spec_sz(),
{
}

/// The real register after allocation, or a fatal diagnostic; rewritten
/// code holds no virtual registers.
pub fn unwrap_phys_register<'a>(opt: Option<&'a RealRegister>, n_pseudo: usize) -> (r:
    &'a RealRegister)
    requires
        opt is Some,
    ensures
        opt == Some(r),
{
    match opt {
        Some(x) => x,
        None => unreached(),
    }
}

/// What one register becomes under the rewrite `m`: virtual registers are
/// replaced by their image, everything else stays.
pub open spec fn spec_promote_reg(reg: Register, m: Map<int, Register>) -> Register {
    match reg {
        Register::Vir(vir) => if m.dom().contains(vir.n as int) {
            m[vir.n as int]
        } else {
            reg
        },
        _ => reg,
    }
}

pub open spec fn spec_promote_rvalue(rv: RValue, m: Map<int, Register>) -> RValue {
    match rv {
        RValue::Register(reg) => RValue::Register(spec_promote_reg(reg, m)),
        RValue::Lit(_) => rv,
    }
}

/// One operation after the rewrite.
pub open spec fn spec_promote_op(op: Op, m: Map<int, Register>) -> Op {
    match op {
        Op::Copy(OpCopy { to, from }) => Op::Copy(
            OpCopy { to: spec_promote_reg(to, m), from: spec_promote_rvalue(from, m) },
        ),
        Op::Add(OpAdd { to, val }) => Op::Add(
            OpAdd { to: spec_promote_reg(to, m), val: spec_promote_rvalue(val, m) },
        ),
        Op::Sub(OpSub { from, val }) => Op::Sub(
            OpSub { from: spec_promote_reg(from, m), val: spec_promote_rvalue(val, m) },
        ),
        Op::Mul(OpMul { val, with }) => Op::Mul(
            OpMul { val: spec_promote_reg(val, m), with: spec_promote_rvalue(with, m) },
        ),
        Op::Div(OpDiv { val, with }) => Op::Div(
            OpDiv { val: spec_promote_reg(val, m), with: spec_promote_rvalue(with, m) },
        ),
    }
}


/// The rewrite a finished allocation map stands for: register number to
/// chosen register.
pub open spec fn spec_alloc_map(m: crate::compile::ralloc::VirRegisterMap<Register>) -> Map<
    int,
    Register,
> {
    Map::new(|n: int| m.spec_at(n) is Some, |n: int| (m.spec_at(n)->0).0)
}

fn promote_register(reg: &mut Register, alloc: &crate::compile::ralloc::VirRegisterMap<Register>)
    ensures
        *final(reg) == spec_promote_reg(*old(reg), spec_alloc_map(*alloc)),
{
    let cur = *reg;
    match cur {
        Register::Vir(vir) => {
            match alloc.get(&vir) {
                Some(repl) => {
                    *reg = *repl;
                },
                None => {},
            }
        },
        _ => {},
    }
}

fn promote_rvalue(rvalue: &mut RValue, alloc: &crate::compile::ralloc::VirRegisterMap<Register>)
    ensures
        *final(rvalue) == spec_promote_rvalue(*old(rvalue), spec_alloc_map(*alloc)),
{
    let cur = *rvalue;
    match cur {
        RValue::Register(mut reg) => {
            promote_register(&mut reg, alloc);
            *rvalue = RValue::Register(reg);
        },
        RValue::Lit(..) => {},
    }
}

/// Replaces every virtual register of the operation that the map decides.
pub fn promote_registers_in_op(
    op: &mut Op,
    alloc: &crate::compile::ralloc::VirRegisterMap<Register>,
)
    ensures
        *final(op) == spec_promote_op(*old(op), spec_alloc_map(*alloc)),
{
    let cur = *op;
    match cur {
        Op::Copy(OpCopy { mut to, mut from }) => {
            promote_register(&mut to, alloc);
            promote_rvalue(&mut from, alloc);
            *op = Op::Copy(OpCopy { to, from });
        },
        Op::Add(OpAdd { mut to, mut val }) => {
            promote_register(&mut to, alloc);
            promote_rvalue(&mut val, alloc);
            *op = Op::Add(OpAdd { to, val });
        },
        Op::Sub(OpSub { mut from, mut val }) => {
            promote_register(&mut from, alloc);
            promote_rvalue(&mut val, alloc);
            *op = Op::Sub(OpSub { from, val });
        },
        Op::Mul(OpMul { mut val, mut with }) => {
            promote_register(&mut val, alloc);
            promote_rvalue(&mut with, alloc);
            *op = Op::Mul(OpMul { val, with });
        },
        Op::Div(OpDiv { mut val, mut with }) => {
            promote_register(&mut val, alloc);
            promote_rvalue(&mut with, alloc);
            *op = Op::Div(OpDiv { val, with });
        },
    }
}

/// Replaces every decided virtual register across the whole operation
/// list.
#[verifier::loop_isolation(false)]
pub fn promote_registers_in_ops(
    ops: &mut Ops,
    alloc: &crate::compile::ralloc::VirRegisterMap<Register>,
)
    ensures
        final(ops)@.len() == old(ops)@.len(),
        forall|k: int|
            0 <= k < old(ops)@.len() ==> #[trigger] final(ops)@[k] == spec_promote_op(
                old(ops)@[k],
                spec_alloc_map(*alloc),
            ),
{
    let ghost ops0 = ops@;
    let mut k: usize = 0;
    while k < ops.len()
        invariant
            0 <= k <= ops@.len(),
            ops@.len() == ops0.len(),
            forall|t: int| k <= t < ops0.len() ==> #[trigger] ops@[t] == ops0[t],
            forall|t: int|
                0 <= t < k ==> #[trigger] ops@[t] == spec_promote_op(
                    ops0[t],
                    spec_alloc_map(*alloc),
                ),
        decreases ops@.len() - k,
    {
        let mut op = ops[k];
        promote_registers_in_op(&mut op, alloc);
        ops.set(k, op);
        k = k + 1;
    }
}

} // verus!
