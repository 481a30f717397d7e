use gcf::amd64;
use gcf::machine::{
    CallingConvention, CompileRtlError, ContainsDataType, Immediate, Move, PhysicalReg,
    RegDataType, Register, RegisterAllocator, Return, RtlOp, RValue, StackAllocator, VirtualReg,
};

fn vir(id: u32) -> Register {
    Register::Virtual(VirtualReg {
        id,
        data_ty: RegDataType::Int32,
    })
}

/// A function that loads ten and returns it: after allocation no virtual
/// register remains, and the bytes are the immediate move into the chosen
/// register, the move into the return register, and the near return.
#[test]
fn returns_ten_through_allocation() {
    let mut code = vec![
        RtlOp::Move(Move {
            dest: vir(0),
            value: RValue::Immediate(Immediate::I32(10)),
        }),
        RtlOp::Return(Return {
            value: Some(vir(0)),
            cc: CallingConvention::C,
        }),
    ];
    let mut stack = StackAllocator::default();
    let _allocator: RegisterAllocator =
        RegisterAllocator::perform_allocations_and_modify(&mut code, &mut stack);
    // the double-word accumulator is the first fitting palette entry
    assert_eq!(
        code[0],
        RtlOp::Move(Move {
            dest: Register::Phys(PhysicalReg::Amd64(amd64::eax())),
            value: RValue::Immediate(Immediate::I32(10)),
        })
    );
    let mut bytes: Vec<u8> = Vec::new();
    for op in &code {
        bytes.extend(op.compile_amd64().unwrap());
    }
    assert_eq!(
        bytes,
        vec![
            0xc7, 0xc0, 10, 0, 0, 0, // mov eax, 10
            0x89, 0xc0, // mov eax, eax
            0xc3, // ret
        ]
    );
}

/// An unresolved virtual register is a reported error, not a silent byte.
#[test]
fn unresolved_virtual_register_is_an_error() {
    let mov = Move {
        dest: vir(3),
        value: RValue::Immediate(Immediate::I32(1)),
    };
    assert_eq!(
        mov.compile_amd64(),
        Err(CompileRtlError::VirtualRegister)
    );
    let mov2 = Move {
        dest: Register::Phys(PhysicalReg::Amd64(amd64::eax())),
        value: RValue::Register(vir(3)),
    };
    assert_eq!(
        mov2.compile_amd64(),
        Err(CompileRtlError::VirtualRegister)
    );
}

#[test]
fn bare_return_is_one_byte() {
    let ret = Return {
        value: None,
        cc: CallingConvention::C,
    };
    assert_eq!(ret.compile_amd64(), vec![0xc3]);
}

#[test]
fn wide_return_moves_into_wide_accumulator() {
    let ret = Return {
        value: Some(Register::Phys(PhysicalReg::Amd64(amd64::rcx()))),
        cc: CallingConvention::C,
    };
    // mov rax, rcx under a REX.W prefix, then ret
    assert_eq!(ret.compile_amd64(), vec![0x48, 0x89, 0xc8, 0xc3]);
}

#[test]
fn stack_allocator_hands_out_aligned_slots() {
    let mut stack = StackAllocator::default();
    let first = stack.allocate(RegDataType::Int32);
    assert_eq!(stack.top(), 8);
    let second = stack.allocate(RegDataType::Int64);
    assert_eq!(stack.top(), 16);
    assert_ne!(first, second);
    assert_eq!(first.data_ty(), RegDataType::Int32);
    assert_eq!(second.data_ty(), RegDataType::Int64);
}

#[test]
fn register_widths_follow_modes() {
    assert_eq!(amd64::rax().data_ty(), RegDataType::Int64);
    assert_eq!(amd64::eax().data_ty(), RegDataType::Int32);
    assert_eq!(amd64::ax().data_ty(), RegDataType::Int16);
    assert_eq!(amd64::a().data_ty(), RegDataType::Int8);
    assert!(!amd64::rax().has_ex_bit());
    assert_eq!(amd64::rcx().without_ex_bit().compile_amd64(), 1);
}
