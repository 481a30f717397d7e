//! Lowering of an SSA copy: one RTL copy into the destination's virtual
//! register.
use vstd::prelude::*;
use crate::rtl;
use crate::ssa;
use crate::typing::Typed;
use super::{spec_lower_ins, spec_vreg, wf_rvalue};

verus! {

pub fn compile(dest: &ssa::Variable, rhs: &ssa::RValue, ops: &mut rtl::Ops)
    requires
        dest.spec_data_ty() == rhs.spec_data_ty(),
        wf_rvalue(*rhs),
    ensures
        final(ops)@ == old(ops)@ + spec_lower_ins(ssa::Ins::Cpy(*dest, *rhs)),
{
    let ghost pre = ops@;
    ops.push(
        rtl::Op::Copy(
            rtl::OpCopy {
                to: rtl::Register::Vir(dest.as_vir_reg()),
                from: super::rtl_rvalue_from_ssa(rhs),
            },
        ),
    );
    proof {
        assert(ops@ =~= pre + spec_lower_ins(ssa::Ins::Cpy(*dest, *rhs)));
    }
}

} // verus!
