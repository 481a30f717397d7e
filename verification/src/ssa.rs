//! The SSA input language: numbered variables handed out by a supervisor,
//! literals, and straight-line instructions.
use vstd::prelude::*;
use crate::rtl;
use crate::typing::{self, Typed};

verus! {

/// Hands out SSA variables with fresh ids.
#[derive(Default)]
pub struct GLIRSupervisor {
    variables: Vec<Variable>,
}

impl GLIRSupervisor {
    pub closed spec fn vars_view(&self) -> Seq<Variable> {
        self.variables@
    }

    pub fn new() -> (r: GLIRSupervisor)
        ensures
            r.vars_view() == Seq::<Variable>::empty(),
    {
        let r = GLIRSupervisor { variables: Vec::new() };
        proof {
            assert(r.vars_view() =~= Seq::<Variable>::empty());
        }
        r
    }

    /// A fresh variable of the given type; its id is the count of variables
    /// created before it.
    pub fn create_var(&mut self, ty: typing::Type) -> (v: Variable)
        ensures
            v.spec_id() == old(self).vars_view().len(),
            v.spec_ty() == ty,
            final(self).vars_view() == old(self).vars_view().push(v),
    {
        let v = Variable { id: self.variables.len(), ty };
        self.variables.push(v);
        v
    }

    /// A fresh variable of the same type as a known one.
    pub fn create_descendant(&mut self, v: Variable) -> (r: Variable)
        requires
            old(self).vars_view().contains(v),
        ensures
            final(self).vars_view() == old(self).vars_view(),
            r.spec_id() == old(self).vars_view().len(),
            r.spec_ty() == v.spec_ty(),
    {
        Variable { id: self.variables.len(), ty: v.data_ty() }
    }

    pub fn vars(&self) -> (r: &Vec<Variable>)
        ensures
            r@ == self.vars_view(),
    {
        &self.variables
    }
}

/// A numbered SSA variable of a fixed type.
#[derive(Debug, Copy, Clone, PartialEq, Eq, Structural)]
pub struct Variable {
    id: usize,
    ty: typing::Type,
}

impl Variable {
    pub closed spec fn spec_id(&self) -> int {
        self.id as int
    }

    pub closed spec fn spec_ty(&self) -> typing::Type {
        self.ty
    }

    /// The virtual register the variable lowers to: same number, the
    /// type's width in bytes.
    pub fn as_vir_reg(&self) -> (r: rtl::VirRegister)
        ensures
            r.n as int == self.spec_id(),
            r.bytes == self.spec_ty().spec_mem_size(),
    {
        rtl::VirRegister { bytes: self.data_ty().mem_size(), n: self.id }
    }

    pub fn id(&self) -> (r: usize)
        ensures
            r as int == self.spec_id(),
    {
        self.id
    }
}

impl typing::Typed for Variable {
    open spec fn spec_data_ty(&self) -> typing::Type {
        self.spec_ty()
    }

    fn data_ty(&self) -> (r: typing::Type) {
        self.ty
    }
}

#[derive(Debug, Copy, Clone, PartialEq, Eq, Structural)]
pub enum BinOpTy {
    Add,
    Sub,
    Mul,
    Div,
}

#[derive(Copy, Clone, Debug, PartialEq, Eq, Structural)]
pub enum Literal {
    I32(i32),
    U32(u32),
}

impl typing::Typed for Literal {
    open spec fn spec_data_ty(&self) -> typing::Type {
        match self {
            Literal::I32(..) => typing::Type::I32,
            Literal::U32(..) => typing::Type::U32,
        }
    }

    fn data_ty(&self) -> (r: typing::Type) {
        match self {
            Literal::I32(..) => typing::Type::I32,
            Literal::U32(..) => typing::Type::U32,
        }
    }
}

#[derive(Debug, Copy, Clone, PartialEq, Eq, Structural)]
pub enum RValue {
    Var(Variable),
    Lit(Literal),
}

impl typing::Typed for RValue {
    open spec fn spec_data_ty(&self) -> typing::Type {
        match self {
            RValue::Lit(lit) => lit.spec_data_ty(),
            RValue::Var(var) => var.spec_data_ty(),
        }
    }

    fn data_ty(&self) -> (r: typing::Type) {
        match self {
            RValue::Lit(lit) => lit.data_ty(),
            RValue::Var(var) => var.data_ty(),
        }
    }
}

/// One SSA instruction: a binary operation or a copy, each defining its
/// first variable.
#[derive(Debug, Copy, Clone, PartialEq, Eq, Structural)]
pub enum Ins {
    Add(Variable, RValue, RValue),
    Sub(Variable, RValue, RValue),
    Mul(Variable, RValue, RValue),
    Div(Variable, RValue, RValue),
    Cpy(Variable, RValue),
}

/// A straight-line block of SSA instructions.
#[derive(Default, Debug)]
pub struct BasicBlock {
    ins_list: Vec<Ins>,
}

impl BasicBlock {
    pub closed spec fn ins_view(&self) -> Seq<Ins> {
        self.ins_list@
    }

    /// A block over the given instruction list.
    pub fn from_instructions(ins_list: Vec<Ins>) -> (r: BasicBlock)
        ensures
            r.ins_view() == ins_list@,
    {
        BasicBlock { ins_list }
    }

    pub fn instructions(&self) -> (r: &Vec<Ins>)
        ensures
            r@ == self.ins_view(),
    {
        &self.ins_list
    }

    pub fn new() -> (r: BasicBlock)
        ensures
            r.ins_view() == Seq::<Ins>::empty(),
    {
        let r = BasicBlock { ins_list: Vec::new() };
        proof {
            assert(r.ins_view() =~= Seq::<Ins>::empty());
        }
        r
    }

    /// Appends a copy of `var` into a fresh variable and returns that
    /// variable.
    pub fn emit_cpy(&mut self, sv: &mut GLIRSupervisor, var: RValue) -> (copy: Variable)
        ensures
            copy.spec_id() == old(sv).vars_view().len(),
            copy.spec_ty() == var.spec_data_ty(),
            final(sv).vars_view() == old(sv).vars_view().push(copy),
            final(self).ins_view() == old(self).ins_view().push(Ins::Cpy(copy, var)),
    {
        let copy = sv.create_var(var.data_ty());
        self.ins_list.push(Ins::Cpy(copy, var));
        copy
    }

    /// Appends a binary operation over `a` and `b` into a fresh variable
    /// and returns that variable.
    pub fn emit_binop(&mut self, sv: &mut GLIRSupervisor, a: RValue, b: RValue, ty: BinOpTy) -> (res:
        Variable)
        requires
            a.spec_data_ty() == b.spec_data_ty(),
        ensures
            res.spec_id() == old(sv).vars_view().len(),
            res.spec_ty() == a.spec_data_ty(),
            final(sv).vars_view() == old(sv).vars_view().push(res),
            final(self).ins_view() == old(self).ins_view().push(
                match ty {
                    BinOpTy::Add => Ins::Add(res, a, b),
                    BinOpTy::Sub => Ins::Sub(res, a, b),
                    BinOpTy::Mul => Ins::Mul(res, a, b),
                    BinOpTy::Div => Ins::Div(res, a, b),
                },
            ),
    {
        let res = sv.create_var(a.data_ty());
        self.ins_list.push(
            match ty {
                BinOpTy::Add => Ins::Add(res, a, b),
                BinOpTy::Sub => Ins::Sub(res, a, b),
                BinOpTy::Mul => Ins::Mul(res, a, b),
                BinOpTy::Div => Ins::Div(res, a, b),
            },
        );
        res
    }
}

/// How a block ends.
#[derive(Debug)]
pub enum Terminator {
    Ret(Variable),
    Jmp(Box<BasicBlock>),
    Void,
}

} // verus!
