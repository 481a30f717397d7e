//! Lowering of one SSA binary operation: a copy of the left operand into
//! the destination where needed, then the two-address operation.
use vstd::prelude::*;
use crate::rtl;
use crate::ssa;
use crate::typing::Typed;
use super::{spec_lower_ins, spec_rtl_rvalue, spec_vreg, wf_rvalue};

verus! {

pub fn compile(
    dest: &ssa::Variable,
    a: &ssa::RValue,
    b: &ssa::RValue,
    binop_ty: ssa::BinOpTy,
    ops: &mut rtl::Ops,
)
    requires
        a.spec_data_ty() == b.spec_data_ty(),
        dest.spec_data_ty() == a.spec_data_ty(),
        wf_rvalue(*a),
        wf_rvalue(*b),
    ensures
        final(ops)@ == old(ops)@ + spec_lower_ins(
            match binop_ty {
                ssa::BinOpTy::Add => ssa::Ins::Add(*dest, *a, *b),
                ssa::BinOpTy::Sub => ssa::Ins::Sub(*dest, *a, *b),
                ssa::BinOpTy::Mul => ssa::Ins::Mul(*dest, *a, *b),
                ssa::BinOpTy::Div => ssa::Ins::Div(*dest, *a, *b),
            },
        ),
{
    let ghost pre = ops@;
    let a_rv = super::rtl_rvalue_from_ssa(a);
    let b_rv = super::rtl_rvalue_from_ssa(b);
    let dest_reg = rtl::Register::Vir(dest.as_vir_reg());
    proof {
        assert(dest_reg == rtl::Register::Vir(spec_vreg(*dest)));
    }
    let elide = match a_rv {
        rtl::RValue::Register(reg) => dest_reg == reg,
        _ => false,
    };
    if !elide {
        ops.push(rtl::Op::Copy(rtl::OpCopy { to: dest_reg, from: a_rv }));
    }
    ops.push(
        match binop_ty {
            ssa::BinOpTy::Add => rtl::Op::Add(rtl::OpAdd { to: dest_reg, val: b_rv }),
            ssa::BinOpTy::Sub => rtl::Op::Sub(rtl::OpSub { from: dest_reg, val: b_rv }),
            ssa::BinOpTy::Mul => rtl::Op::Mul(rtl::OpMul { val: dest_reg, with: b_rv }),
            ssa::BinOpTy::Div => rtl::Op::Div(rtl::OpDiv { val: dest_reg, with: b_rv }),
        },
    );
    proof {
        let ins = match binop_ty {
            ssa::BinOpTy::Add => ssa::Ins::Add(*dest, *a, *b),
            ssa::BinOpTy::Sub => ssa::Ins::Sub(*dest, *a, *b),
            ssa::BinOpTy::Mul => ssa::Ins::Mul(*dest, *a, *b),
            ssa::BinOpTy::Div => ssa::Ins::Div(*dest, *a, *b),
        };
        assert(elide == (spec_rtl_rvalue(*a) == rtl::RValue::Register(
            rtl::Register::Vir(spec_vreg(*dest)),
        )));
        assert(ops@ =~= pre + spec_lower_ins(ins));
    }
}

} // verus!
