use gcf::ga::live::{LiveSet, VrReg};
use gcf::ga::{GAInstrNo, GAOperandNo};
use gcf::glir;
use gcf::glir::typing::Typed;
use gcf::il::{ILSize, ILSized};
use gcf::typing::Type;

#[test]
fn live_set_tracks_membership() {
    let mut set = LiveSet::new();
    assert!(!set.contains(VrReg(3)));
    set.set(VrReg(3), true);
    set.set(VrReg(5), true);
    assert!(set.contains(VrReg(3)));
    assert!(set.contains(VrReg(5)));
    set.set(VrReg(3), false);
    assert!(!set.contains(VrReg(3)));
    assert!(set.contains(VrReg(5)));

    let mut other = LiveSet::new();
    other.set(VrReg(3), true);
    other.set(VrReg(7), true);
    set.union_add(&other);
    assert!(set.contains(VrReg(3)));
    assert!(set.contains(VrReg(5)));
    assert!(set.contains(VrReg(7)));
    assert_eq!(set.iter().len(), 3);
}

#[test]
fn ga_numbers_round_trip() {
    assert_eq!(GAOperandNo(4).opr_no(), 4);
    assert_eq!(GAInstrNo(9).instr_no(), 9);
}

#[test]
fn widths_in_bytes() {
    assert_eq!(Type::I32.mem_size(), 4);
    assert_eq!(Type::U32.mem_size(), 4);
    assert_eq!(ILSize::Pointer.width(), 8);
    assert_eq!(ILSize::Integer { width_in_bytes: 2 }.width(), 2);
    assert_eq!(ILSize::Structure { width_in_bytes: 24 }.width(), 24);
    let r = gcf::il::reg::SSARegister::new(0, ILSize::Integer { width_in_bytes: 4 });
    assert_eq!(r.il_size(), ILSize::Integer { width_in_bytes: 4 });
}

#[test]
fn ssa_versions_bump() {
    let v0 = glir::ssa::Variable::new("x", glir::typing::Type::I32);
    let v1 = v0.ssa_bump();
    assert_ne!(v0, v1);
    assert_eq!(v1.typ(), glir::typing::Type::I32);
    let lit = glir::ssa::InlineValue::I32(42);
    assert_eq!(lit.value_i32(), 42);
    let op = glir::ssa::Operand::Inline(lit);
    assert_eq!(op.mem_size(), 4);
}

#[test]
fn supervisor_hands_out_fresh_ids() {
    let mut sv = gcf::ssa::GLIRSupervisor::new();
    let a = sv.create_var(Type::U32);
    let b = sv.create_var(Type::I32);
    assert_eq!(a.id(), 0);
    assert_eq!(b.id(), 1);
    let c = sv.create_descendant(a);
    assert_eq!(c.id(), 2);
    assert_eq!(sv.vars().len(), 2);
    let v = a.as_vir_reg();
    assert_eq!(v.n, 0);
    assert_eq!(v.bytes, 4);
}
