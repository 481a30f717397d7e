use gcf::codegen::RTLPattern;
use gcf::grtl::MachineRegister;
use gcf::x86_64;
use gcf::grtl::{
    AccessMode, DestinationExpr, ImmediateExpr, Instruction, Register, RegisterExpr, Rtx, Template,
    Transfer,
};

#[test]
fn pattern_matching() {
    let pattern = RTLPattern::new_insn(Instruction::Transfer(Transfer::new(
        DestinationExpr::Template(Template { id: 0 }),
        Rtx::Immediate(ImmediateExpr::UInt32(10)),
    )));
    let r0 = Register::vreg(0, AccessMode::SI);
    let r1 = Register::vreg(1, AccessMode::SI);

    let code = vec![Instruction::Transfer(Transfer::new(
        DestinationExpr::Register(RegisterExpr::new(r0.clone(), AccessMode::SI)),
        Rtx::Immediate(ImmediateExpr::UInt32(10)),
    ))];
    assert_eq!(pattern.try_match(&code), 1);

    let pattern = RTLPattern::new_insn(Instruction::Transfer(Transfer::new(
        DestinationExpr::Template(Template { id: 0 }),
        Rtx::Destination(DestinationExpr::Template(Template { id: 0 })),
    )));
    assert_eq!(pattern.try_match(&code), 0);

    let code = vec![Instruction::Transfer(Transfer::new(
        DestinationExpr::Register(RegisterExpr::new(r0.clone(), AccessMode::SI)),
        Rtx::Destination(DestinationExpr::Register(RegisterExpr::new(
            r1.clone(),
            AccessMode::SI,
        ))),
    ))];
    assert_eq!(pattern.try_match(&code), 0);

    // Same as before but different template variables.
    let pattern = RTLPattern::new_insn(Instruction::Transfer(Transfer::new(
        DestinationExpr::Template(Template { id: 0 }),
        Rtx::Destination(DestinationExpr::Template(Template { id: 1 })),
    )));
    assert_eq!(pattern.try_match(&code), 1);
}

#[test]
fn codegen_emits_ten_loader() {
    // a register pinned to the accumulator, loaded with ten, then a return
    let reg = Register::preg(
        0,
        MachineRegister::x86_64(x86_64::Register::al),
        AccessMode::DI,
    );
    let code = vec![
        Instruction::Transfer(Transfer::new(
            DestinationExpr::Register(RegisterExpr::new(reg, AccessMode::SI)),
            Rtx::Immediate(ImmediateExpr::UInt32(10)),
        )),
        Instruction::Return(gcf::grtl::Return),
    ];
    let mut machine = Vec::new();
    for ins in code {
        gcf::codegen::codegen_instruction(&mut machine, ins);
    }
    let mut bytes: Vec<u8> = Vec::new();
    for ins in &machine {
        ins.encode_into(&mut bytes);
    }
    assert_eq!(bytes, vec![0xb8, 10, 0, 0, 0, 0xc3]);
}

#[test]
fn codegen_drivers_emit_the_same_ten_loader() {
    // the whole-list driver and the byte emitter agree with the per-
    // instruction path
    let reg = Register::preg(
        0,
        MachineRegister::x86_64(x86_64::Register::al),
        AccessMode::DI,
    );
    let code = vec![
        Instruction::Transfer(Transfer::new(
            DestinationExpr::Register(RegisterExpr::new(reg, AccessMode::SI)),
            Rtx::Immediate(ImmediateExpr::UInt32(10)),
        )),
        Instruction::Return(gcf::grtl::Return),
    ];
    let mut machine = Vec::new();
    gcf::codegen::codegen_instructions(&mut machine, code);
    assert_eq!(machine.len(), 2);
    let bytes = gcf::codegen::emit_program(&machine);
    assert_eq!(bytes, vec![0xb8, 10, 0, 0, 0, 0xc3]);
}
