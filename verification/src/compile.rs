//! Lowering from SSA to RTL: each SSA instruction becomes a copy and, for
//! binary operations, the matching two-address operation.
use vstd::prelude::*;

mod binop;
mod cpy;
pub mod ralloc;

use crate::rtl;
use crate::ssa;
use crate::typing::Typed;

verus! {

/// State threaded through lowering; nothing so far.
#[derive(Default)]
pub struct CompileContext;

pub trait CompileIntoBlock {
    /// When the whole unit lowers.
    spec fn block_lower_ok(&self) -> bool;

    /// The operations it lowers to.
    spec fn block_lowered(&self) -> Seq<rtl::Op>;

    fn compile_into_block(&self) -> (r: rtl::Block)
        requires
            self.block_lower_ok(),
        ensures
            r.ops@ == self.block_lowered(),
    ;
}

pub trait CompileIntoOps {
    /// When the item lowers.
    spec fn lower_ok(&self) -> bool;

    /// The operations it lowers to.
    spec fn lowered(&self) -> Seq<rtl::Op>;

    fn compile_into_ops(&self, ops: &mut rtl::Ops, context: &mut CompileContext)
        requires
            self.lower_ok(),
        ensures
            final(ops)@ == old(ops)@ + self.lowered(),
    ;
}

/// Lowering handles every variable and the unsigned literals; the signed
/// ones have no RTL literal yet.
pub open spec fn wf_rvalue(rv: ssa::RValue) -> bool {
    rv matches ssa::RValue::Lit(l) ==> l is U32
}

/// An instruction lowers when its operand types agree and its literals are
/// unsigned.
pub open spec fn wf_ins(ins: ssa::Ins) -> bool {
    match ins {
        ssa::Ins::Add(d, a, b) | ssa::Ins::Sub(d, a, b) | ssa::Ins::Mul(d, a, b) | ssa::Ins::Div(
            d,
            a,
            b,
        ) => a.spec_data_ty() == b.spec_data_ty() && d.spec_data_ty() == a.spec_data_ty()
            && wf_rvalue(a) && wf_rvalue(b),
        ssa::Ins::Cpy(d, rhs) => d.spec_data_ty() == rhs.spec_data_ty() && wf_rvalue(rhs),
    }
}

/// The virtual register an SSA variable lowers to.
pub open spec fn spec_vreg(v: ssa::Variable) -> rtl::VirRegister {
    rtl::VirRegister { bytes: v.spec_ty().spec_mem_size(), n: v.spec_id() as usize }
}

/// The RTL operand an SSA operand lowers to.
pub open spec fn spec_rtl_rvalue(rv: ssa::RValue) -> rtl::RValue {
    match rv {
        ssa::RValue::Lit(ssa::Literal::U32(val)) => rtl::RValue::Lit(rtl::Lit::LitU32(val)),
        ssa::RValue::Lit(ssa::Literal::I32(_)) => rtl::RValue::Lit(rtl::Lit::LitU32(0)),
        ssa::RValue::Var(var) => rtl::RValue::Register(rtl::Register::Vir(spec_vreg(var))),
    }
}

/// The operations one SSA instruction lowers to: for a binary operation, a
/// copy of the left operand into the destination unless it is the
/// destination already, then the two-address operation.
pub open spec fn spec_lower_ins(ins: ssa::Ins) -> Seq<rtl::Op> {
    match ins {
        ssa::Ins::Cpy(d, rhs) => seq![
            rtl::Op::Copy(
                rtl::OpCopy {
                    to: rtl::Register::Vir(spec_vreg(d)),
                    from: spec_rtl_rvalue(rhs),
                },
            ),
        ],
        ssa::Ins::Add(d, a, b) | ssa::Ins::Sub(d, a, b) | ssa::Ins::Mul(d, a, b) | ssa::Ins::Div(
            d,
            a,
            b,
        ) => {
            let dest = rtl::Register::Vir(spec_vreg(d));
            let a_rv = spec_rtl_rvalue(a);
            let b_rv = spec_rtl_rvalue(b);
            let main = match ins {
                ssa::Ins::Add(..) => rtl::Op::Add(rtl::OpAdd { to: dest, val: b_rv }),
                ssa::Ins::Sub(..) => rtl::Op::Sub(rtl::OpSub { from: dest, val: b_rv }),
                ssa::Ins::Mul(..) => rtl::Op::Mul(rtl::OpMul { val: dest, with: b_rv }),
                _ => rtl::Op::Div(rtl::OpDiv { val: dest, with: b_rv }),
            };
            if a_rv == rtl::RValue::Register(dest) {
                seq![main]
            } else {
                seq![rtl::Op::Copy(rtl::OpCopy { to: dest, from: a_rv }), main]
            }
        },
    }
}

/// The operations a whole instruction list lowers to, in order.
pub open spec fn spec_lower_block(ins: Seq<ssa::Ins>) -> Seq<rtl::Op>
    decreases ins.len(),
{
    if ins.len() == 0 {
        Seq::empty()
    } else {
        spec_lower_block(ins.drop_last()) + spec_lower_ins(ins.last())
    }
}

/// The RTL operand of an SSA operand.
#[inline]
pub fn rtl_rvalue_from_ssa(from_ssa: &ssa::RValue) -> (r: rtl::RValue)
    requires
        wf_rvalue(*from_ssa),
    ensures
        r == spec_rtl_rvalue(*from_ssa),
{
    match from_ssa {
        ssa::RValue::Lit(lit) => rtl::RValue::Lit(
            match lit {
                ssa::Literal::U32(val) => rtl::Lit::LitU32(*val),
                ssa::Literal::I32(_) => unreached(),
            },
        ),
        ssa::RValue::Var(var) => rtl::RValue::Register(rtl::Register::Vir(var.as_vir_reg())),
    }
}

impl CompileIntoOps for ssa::Ins {
    open spec fn lower_ok(&self) -> bool {
        wf_ins(*self)
    }

    open spec fn lowered(&self) -> Seq<rtl::Op> {
        spec_lower_ins(*self)
    }

    fn compile_into_ops(&self, ops: &mut rtl::Ops, context: &mut CompileContext) {
        match self {
            ssa::Ins::Add(dest, a, b) => binop::compile(dest, a, b, ssa::BinOpTy::Add, ops),
            ssa::Ins::Sub(dest, a, b) => binop::compile(dest, a, b, ssa::BinOpTy::Sub, ops),
            ssa::Ins::Mul(dest, a, b) => binop::compile(dest, a, b, ssa::BinOpTy::Mul, ops),
            ssa::Ins::Div(dest, a, b) => binop::compile(dest, a, b, ssa::BinOpTy::Div, ops),
            ssa::Ins::Cpy(dest, rhs) => cpy::compile(dest, rhs, ops),
        }
    }
}

impl CompileIntoBlock for ssa::BasicBlock {
    open spec fn block_lower_ok(&self) -> bool {
        forall|k: int| 0 <= k < self.ins_view().len() ==> wf_ins(#[trigger] self.ins_view()[k])
    }

    open spec fn block_lowered(&self) -> Seq<rtl::Op> {
        spec_lower_block(self.ins_view())
    }

    #[verifier::loop_isolation(false)]
    fn compile_into_block(&self) -> (r: rtl::Block)
        ensures
            r.name matches Some(n) && n@ == "LBB_0"@,
    {
        let mut context = CompileContext;
        let mut ops: rtl::Ops = Vec::new();
        let mut k: usize = 0;
        proof {
            assert(ops@ =~= spec_lower_block(self.ins_view().subrange(0, 0)));
        }
        while k < self.instructions().len()
            invariant
                0 <= k <= self.ins_view().len(),
                ops@ == spec_lower_block(self.ins_view().subrange(0, k as int)),
            decreases self.ins_view().len() - k,
        {
            let ghost prefix = self.ins_view().subrange(0, k as int);
            self.instructions()[k].compile_into_ops(&mut ops, &mut context);
            k = k + 1;
            proof {
                let next = self.ins_view().subrange(0, k as int);
                assert(next.drop_last() =~= prefix);
                assert(next.last() == self.ins_view()[k - 1]);
            }
        }
        proof {
            assert(self.ins_view().subrange(0, self.ins_view().len() as int) =~= self.ins_view());
        }
        rtl::Block { metadata: (), ops, name: Some("LBB_0".to_string()) }
    }
}

} // verus!
