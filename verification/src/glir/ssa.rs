//! Named variables with SSA versions, and inline literal operands.
use vstd::prelude::*;
use super::typing::{self, Typed};

verus! {

/// A named variable at one SSA version.
#[derive(Hash, Debug, Copy, Clone, PartialEq, Eq)]
pub struct Variable {
    ver: usize,
    name: &'static str,
    typ: typing::Type,
}

impl Variable {
    pub closed spec fn spec_ver(&self) -> int {
        self.ver as int
    }

    pub closed spec fn spec_ty(&self) -> typing::Type {
        self.typ
    }

    pub closed spec fn spec_name(&self) -> Seq<char> {
        self.name@
    }

    pub fn new(name: &'static str, typ: typing::Type) -> (r: Variable)
        ensures
            r.spec_ver() == 0,
            r.spec_name() == name@,
            r.spec_typ() == typ,
    {
        Variable { name, ver: 0, typ }
    }

    /// The next SSA version of the same variable.
    pub fn ssa_bump(&self) -> (r: Variable)
        requires
            self.spec_ver() < usize::MAX,
        ensures
            r.spec_ver() == self.spec_ver() + 1,
            r.spec_name() == self.spec_name(),
            r.spec_typ() == self.spec_typ(),
    {
        Variable { name: self.name, ver: self.ver + 1, typ: self.typ }
    }
}

impl typing::Typed for Variable {
    open spec fn spec_typ(&self) -> typing::Type {
        self.spec_ty()
    }

    fn typ(&self) -> (r: typing::Type) {
        self.typ
    }
}

/// A literal value carried inline, tagged by its type.
#[derive(Debug, Copy, Clone, PartialEq, Eq, Structural)]
pub struct InlineValue {
    value_i32: i32,
    typ: typing::Type,
}

impl InlineValue {
    pub closed spec fn spec_value_i32(&self) -> i32 {
        self.value_i32
    }

    pub closed spec fn spec_ty(&self) -> typing::Type {
        self.typ
    }

    /// A 32-bit signed literal.
    #[allow(non_snake_case)]
    pub fn I32(val: i32) -> (r: InlineValue)
        ensures
            r.spec_value_i32() == val,
            r.spec_typ() == typing::Type::I32,
    {
        InlineValue { typ: typing::Type::I32, value_i32: val }
    }

    /// The carried value, valid because only 32-bit literals exist.
    pub fn value_i32(&self) -> (r: i32)
        ensures
            r == self.spec_value_i32(),
    {
        self.value_i32
    }
}

impl typing::Typed for InlineValue {
    open spec fn spec_typ(&self) -> typing::Type {
        self.spec_ty()
    }

    fn typ(&self) -> (r: typing::Type) {
        self.typ
    }
}

/// A literal or a variable.
#[derive(Debug, Copy, Clone, PartialEq, Eq)]
pub enum Operand {
    Inline(InlineValue),
    Variable(Variable),
}

impl typing::Typed for Operand {
    open spec fn spec_typ(&self) -> typing::Type {
        match self {
            Operand::Inline(inline) => inline.spec_typ(),
            Operand::Variable(var) => var.spec_typ(),
        }
    }

    #[inline]
    fn typ(&self) -> (r: typing::Type) {
        match self {
            Operand::Inline(inline) => inline.typ(),
            Operand::Variable(var) => var.typ(),
        }
    }
}

impl Operand {
    /// The operand's width in bytes.
    #[inline]
    pub fn mem_size(&self) -> (r: usize)
        ensures
            r == self.spec_typ().spec_mem_size(),
    {
        self.typ().mem_size()
    }
}

} // verus!
