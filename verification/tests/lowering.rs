use gcf::compile::{CompileIntoBlock, CompileIntoOps, CompileContext};
use gcf::compile::ralloc::{analyze_rtl, Allocator, AllocationKind, VirRegisterMap};
use gcf::rtl;
use gcf::ssa;
use gcf::typing::Type;

/// Copy elision: `x := 10; y := x; z := y - x` lowers to two copies, a
/// copy into the result register, and the subtraction; the copy of the
/// left operand is elided when it is already the destination.
#[test]
fn binop_lowering_with_copy() {
    let mut sv = ssa::GLIRSupervisor::new();
    let mut block = ssa::BasicBlock::new();
    let x = block.emit_cpy(&mut sv, ssa::RValue::Lit(ssa::Literal::U32(10)));
    let y = block.emit_cpy(&mut sv, ssa::RValue::Var(x));
    let _z = block.emit_binop(
        &mut sv,
        ssa::RValue::Var(y),
        ssa::RValue::Var(x),
        ssa::BinOpTy::Sub,
    );
    let lowered = block.compile_into_block();
    assert_eq!(lowered.name.as_deref(), Some("LBB_0"));
    let v = |n: usize| rtl::Register::Vir(rtl::VirRegister { bytes: 4, n });
    assert_eq!(
        lowered.ops,
        vec![
            rtl::Op::Copy(rtl::OpCopy {
                to: v(0),
                from: rtl::RValue::Lit(rtl::Lit::LitU32(10)),
            }),
            rtl::Op::Copy(rtl::OpCopy {
                to: v(1),
                from: rtl::RValue::Register(v(0)),
            }),
            rtl::Op::Copy(rtl::OpCopy {
                to: v(2),
                from: rtl::RValue::Register(v(1)),
            }),
            rtl::Op::Sub(rtl::OpSub {
                from: v(2),
                val: rtl::RValue::Register(v(0)),
            }),
        ]
    );
}

/// The left-operand copy is elided when source and destination coincide.
#[test]
fn binop_lowering_elides_self_copy() {
    let mut sv = ssa::GLIRSupervisor::new();
    let x = sv.create_var(Type::U32);
    let mut ops: rtl::Ops = Vec::new();
    let mut context = CompileContext::default();
    // x := x + 1 keeps the destination in place
    let ins = ssa::Ins::Add(
        x,
        ssa::RValue::Var(x),
        ssa::RValue::Lit(ssa::Literal::U32(1)),
    );
    ins.compile_into_ops(&mut ops, &mut context);
    let v = |n: usize| rtl::Register::Vir(rtl::VirRegister { bytes: 4, n });
    assert_eq!(
        ops,
        vec![rtl::Op::Add(rtl::OpAdd {
            to: v(0),
            val: rtl::RValue::Lit(rtl::Lit::LitU32(1)),
        })]
    );
}

/// Lifetimes reported by the usage analysis: first and last touch.
#[test]
fn analysis_finds_lifetimes() {
    let v = |n: usize| rtl::Register::Vir(rtl::VirRegister { bytes: 4, n });
    let ops: rtl::Ops = vec![
        rtl::Op::Copy(rtl::OpCopy {
            to: v(0),
            from: rtl::RValue::Lit(rtl::Lit::LitU32(10)),
        }),
        rtl::Op::Copy(rtl::OpCopy {
            to: v(1),
            from: rtl::RValue::Register(v(0)),
        }),
        rtl::Op::Sub(rtl::OpSub {
            from: v(1),
            val: rtl::RValue::Register(v(0)),
        }),
    ];
    let (map, occupied) = analyze_rtl(&ops);
    assert!(occupied.is_empty());
    let info0 = map.get(&rtl::VirRegister { bytes: 4, n: 0 }).copied().unwrap();
    let info1 = map.get(&rtl::VirRegister { bytes: 4, n: 1 }).copied().unwrap();
    assert_eq!(info0.lifetime_begin, 0);
    assert_eq!(info0.lifetime_end, 2);
    assert_eq!(info1.lifetime_begin, 1);
    assert_eq!(info1.lifetime_end, 2);
    assert!(map.get(&rtl::VirRegister { bytes: 4, n: 2 }).is_none());
}

/// Every listed register receives a decision, and the rewrite pass
/// replaces the virtual registers with the chosen ones.
#[test]
fn allocator_decides_and_rewrite_applies() {
    let v0 = rtl::VirRegister { bytes: 4, n: 0 };
    let v1 = rtl::VirRegister { bytes: 4, n: 1 };
    let info = gcf::compile::ralloc::VirRegisterInfo {
        lifetime_begin: 0,
        lifetime_end: 2,
    };
    let mut allocator = Allocator::new(vec![(v0, info), (v1, info)], Vec::new());
    allocator.create_allocations();
    let a0 = *allocator.map().get(&v0).unwrap();
    let a1 = *allocator.map().get(&v1).unwrap();
    // overlapping lifetimes: two different double-word registers
    assert_eq!(
        a0.kind,
        AllocationKind::Reg(rtl::RealRegister::Amd64(rtl::amd64::Amd64Register::Eax))
    );
    assert_eq!(
        a1.kind,
        AllocationKind::Reg(rtl::RealRegister::Amd64(rtl::amd64::Amd64Register::Ebx))
    );

    // apply the decisions to a copy between the two registers
    let mut chosen: VirRegisterMap<rtl::Register> = VirRegisterMap::new();
    chosen.insert(
        &v0,
        match a0.kind {
            AllocationKind::Reg(r) => rtl::Register::Real(r),
            AllocationKind::Stack(s) => rtl::Register::Stack(s),
        },
    );
    chosen.insert(
        &v1,
        match a1.kind {
            AllocationKind::Reg(r) => rtl::Register::Real(r),
            AllocationKind::Stack(s) => rtl::Register::Stack(s),
        },
    );
    let mut ops: rtl::Ops = vec![rtl::Op::Copy(rtl::OpCopy {
        to: rtl::Register::Vir(v1),
        from: rtl::RValue::Register(rtl::Register::Vir(v0)),
    })];
    rtl::promote_registers_in_ops(&mut ops, &chosen);
    assert_eq!(
        ops,
        vec![rtl::Op::Copy(rtl::OpCopy {
            to: rtl::Register::Real(rtl::RealRegister::Amd64(rtl::amd64::Amd64Register::Ebx)),
            from: rtl::RValue::Register(rtl::Register::Real(rtl::RealRegister::Amd64(
                rtl::amd64::Amd64Register::Eax
            ))),
        })]
    );
}

#[test]
fn round_to_pow2_rounds_up() {
    assert_eq!(gcf::round_to_pow2(1), 1);
    assert_eq!(gcf::round_to_pow2(3), 4);
    assert_eq!(gcf::round_to_pow2(4), 4);
    assert_eq!(gcf::round_to_pow2(5), 8);
    assert_eq!(gcf::round_to_pow2(4096), 4096);
}
