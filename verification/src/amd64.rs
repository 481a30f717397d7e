//! Byte encoding of the handful of x86-64 forms the machine-level RTL
//! needs: register-to-register moves, a 32-bit immediate move, and the near
//! return, with their ModRM and REX bytes.
use vstd::prelude::*;
use crate::machine::{ContainsDataType, RegDataType};
use crate::x86_64::le32;

verus! {

/// Operand widths.
#[derive(Debug, PartialEq, Eq, Structural, Copy, Clone, Hash)]
pub enum OpMode {
    Bit64,
    Bit32,
    Bit16,
    Bit8,
}

/// A machine register: three-plus-one encoding bits and a width.
#[derive(PartialEq, Eq, Structural, Copy, Clone, Debug, Hash)]
pub struct Reg {
    id: u8,
    mode: OpMode,
}

/// The register with the given bits and width, as a specification value.
pub closed spec fn spec_reg(id: u8, mode: OpMode) -> Reg {
    Reg { id, mode }
}

impl Reg {
    pub closed spec fn spec_id(&self) -> u8 {
        self.id
    }

    pub closed spec fn spec_mode(&self) -> OpMode {
        self.mode
    }

    /// The raw encoding bits.
    pub fn compile_amd64(&self) -> (r: u8)
        ensures
            r == self.spec_id(),
    {
        self.id
    }

    pub open spec fn spec_ex_bit(self) -> u8 {
        self.spec_id() & 0b1000
    }

    pub fn has_ex_bit(&self) -> (r: bool)
        ensures
            r == (self.spec_ex_bit() == 1),
    {
        self.ex_bit() == 1
    }

    pub fn without_ex_bit(&self) -> (r: Reg)
        ensures
            r.spec_id() == (self.spec_id() & 0b0111),
            r.spec_mode() == self.spec_mode(),
            r.spec_ex_bit() != 1,
    {
        proof {
            let id = self.spec_id();
            assert(((id & 0b0111) & 0b1000) == 0) by (bit_vector);
        }
        Reg { id: self.id & 0b111, mode: self.mode }
    }

    pub fn ex_bit(&self) -> (r: u8)
        ensures
            r == self.spec_ex_bit(),
    {
        self.id & 0b1000
    }
}

impl ContainsDataType for Reg {
    open spec fn spec_data_ty(&self) -> RegDataType {
        match self.spec_mode() {
            OpMode::Bit64 => RegDataType::Int64,
            OpMode::Bit32 => RegDataType::Int32,
            OpMode::Bit16 => RegDataType::Int16,
            OpMode::Bit8 => RegDataType::Int8,
        }
    }

    fn data_ty(&self) -> (r: RegDataType) {
        match self.mode {
            OpMode::Bit64 => RegDataType::Int64,
            OpMode::Bit32 => RegDataType::Int32,
            OpMode::Bit16 => RegDataType::Int16,
            OpMode::Bit8 => RegDataType::Int8,
        }
    }
}

pub fn rax() -> (r: Reg)
    ensures
        r == spec_reg(0, OpMode::Bit64),
{
    Reg { id: 0, mode: OpMode::Bit64 }
}

pub fn eax() -> (r: Reg)
    ensures
        r == spec_reg(0, OpMode::Bit32),
{
    Reg { id: 0, mode: OpMode::Bit32 }
}

pub fn ax() -> (r: Reg)
    ensures
        r == spec_reg(0, OpMode::Bit16),
{
    Reg { id: 0, mode: OpMode::Bit16 }
}

/// The byte-wide accumulator.
pub fn a() -> (r: Reg)
    ensures
        r == spec_reg(0, OpMode::Bit8),
{
    Reg { id: 0, mode: OpMode::Bit8 }
}

pub fn rcx() -> (r: Reg)
    ensures
        r == spec_reg(1, OpMode::Bit64),
{
    Reg { id: 1, mode: OpMode::Bit64 }
}

pub fn ecx() -> (r: Reg)
    ensures
        r == spec_reg(1, OpMode::Bit32),
{
    Reg { id: 1, mode: OpMode::Bit32 }
}

pub fn cx() -> (r: Reg)
    ensures
        r == spec_reg(1, OpMode::Bit16),
{
    Reg { id: 1, mode: OpMode::Bit16 }
}

pub fn c() -> (r: Reg)
    ensures
        r == spec_reg(1, OpMode::Bit8),
{
    Reg { id: 1, mode: OpMode::Bit8 }
}

/// The fixed palette, widest forms first.
pub open spec fn spec_registers() -> Seq<Reg> {
    seq![
        spec_reg(0, OpMode::Bit64),
        spec_reg(1, OpMode::Bit64),
        spec_reg(0, OpMode::Bit32),
        spec_reg(1, OpMode::Bit32),
        spec_reg(0, OpMode::Bit16),
        spec_reg(1, OpMode::Bit16),
        spec_reg(0, OpMode::Bit8),
        spec_reg(1, OpMode::Bit8),
    ]
}

/// The deterministic order in which the allocator tries machine registers.
pub fn registers() -> (r: Vec<Reg>)
    ensures
        r@ == spec_registers(),
{
    let mut v: Vec<Reg> = Vec::new();
    v.push(rax());
    v.push(rcx());
    v.push(eax());
    v.push(ecx());
    v.push(ax());
    v.push(cx());
    v.push(a());
    v.push(c());
    proof {
        assert(v@ =~= spec_registers());
    }
    v
}

/// The accumulator of the width that carries a returned value of this
/// type.
pub open spec fn spec_return_reg_for(ty: RegDataType) -> Reg {
    match ty {
        RegDataType::Int32 => spec_reg(0, OpMode::Bit32),
        RegDataType::Int64 => spec_reg(0, OpMode::Bit64),
        RegDataType::Custom(sz) => if sz * 8 > 8 {
            if sz * 8 > 16 {
                if sz * 8 > 32 {
                    spec_reg(0, OpMode::Bit64)
                } else {
                    spec_reg(0, OpMode::Bit32)
                }
            } else {
                spec_reg(0, OpMode::Bit16)
            }
        } else {
            spec_reg(0, OpMode::Bit8)
        },
        _ => spec_reg(0, OpMode::Bit8),
    }
}

/// A 32-bit immediate.
#[derive(Copy, Clone, Debug, PartialEq, Eq, Structural)]
pub struct Imm32 {
    pub int32: i32,
}

#[derive(Debug, Copy, Clone, PartialEq, Eq, Structural)]
pub enum Immediate {
    Imm32(Imm32),
}

#[derive(Debug, Copy, Clone, PartialEq, Eq, Structural)]
pub enum RegImm {
    Reg(Reg),
    Imm(Immediate),
}

#[derive(Debug, Copy, Clone, PartialEq, Eq, Structural)]
pub enum RegMem {
    Reg(Reg),
}

/// The ModRM addressing-mode field.
#[derive(Debug, Copy, Clone, PartialEq, Eq, Structural)]
pub enum FieldMod {
    Direct,
}

/// The G field: a register or an opcode extension.
#[derive(Debug, Copy, Clone, PartialEq, Eq, Structural)]
pub enum FieldReg {
    Reg(Reg),
    OpCodeExt(u8),
}

impl FieldReg {
    pub open spec fn spec_bits(self) -> u8 {
        match self {
            FieldReg::Reg(reg) => reg.spec_id(),
            FieldReg::OpCodeExt(v) => v,
        }
    }

    pub fn compile_amd64(&self) -> (r: u8)
        ensures
            r == self.spec_bits(),
    {
        match self {
            FieldReg::Reg(reg) => reg.compile_amd64(),
            FieldReg::OpCodeExt(v) => *v,
        }
    }
}

#[derive(Debug, Copy, Clone, PartialEq, Eq, Structural)]
pub struct ModRM {
    pub mode: FieldMod,
    pub reg: FieldReg,
    pub rm: Reg,
}

impl ModRM {
    pub open spec fn spec_byte(self) -> u8 {
        (0b1100_0000u8 | (self.reg.spec_bits() << 3)) | self.rm.spec_id()
    }

    /// Packs the three fields into the ModRM byte; extension bits must have
    /// been stripped first.
    pub fn compile_amd64(&self) -> (r: u8)
        requires
            self.rm.spec_ex_bit() != 1,
            (self.reg matches FieldReg::Reg(reg) ==> reg.spec_ex_bit() != 1),
        ensures
            r == self.spec_byte(),
    {
        let mut modrm: u8 = match self.mode {
            FieldMod::Direct => 0b1100_0000,
        };
        modrm = modrm | (self.reg.compile_amd64() << 3);
        modrm = modrm | self.rm.compile_amd64();
        modrm
    }
}

#[derive(Debug, Copy, Clone, PartialEq, Eq, Structural)]
pub struct Rex {
    pub opr_64bit: bool,
    pub modrm_reg_ext: u8,
    pub sib_index_ext: u8,
    pub sib_base_modrm_rm_ext: u8,
}

impl Rex {
    pub open spec fn spec_byte(self) -> u8 {
        (((0b0100_0000u8 | ((if self.opr_64bit {
            1u8
        } else {
            0u8
        }) << 3)) | (self.modrm_reg_ext << 2)) | (self.sib_index_ext << 1))
            | self.sib_base_modrm_rm_ext
    }

    pub fn compile_amd64(&self) -> (r: u8)
        ensures
            r == self.spec_byte(),
    {
        let w: u8 = if self.opr_64bit {
            1
        } else {
            0
        };
        (((0b0100_0000u8 | (w << 3)) | (self.modrm_reg_ext << 2)) | (self.sib_index_ext << 1))
            | self.sib_base_modrm_rm_ext
    }
}

/// The bytes of `mov r, imm32`: an optional REX, the C7 opcode, the direct
/// ModRM byte, and the little-endian immediate.
pub open spec fn spec_mov_reg_imm32_bytes(reg: Reg, imm: i32) -> Seq<u8> {
    let modrm = (ModRM {
        mode: FieldMod::Direct,
        reg: FieldReg::OpCodeExt(0),
        rm: spec_reg(reg.spec_id() & 0b0111, reg.spec_mode()),
    }).spec_byte();
    (if reg.spec_mode() == OpMode::Bit64 {
        seq![
            (Rex {
                opr_64bit: true,
                modrm_reg_ext: reg.spec_ex_bit(),
                sib_index_ext: 0,
                sib_base_modrm_rm_ext: 0,
            }).spec_byte(),
        ]
    } else {
        Seq::empty()
    }) + seq![0xc7u8, modrm] + le32(imm as u32)
}

/// The bytes of `mov r, r`: an optional REX, the 89 opcode and the direct
/// ModRM byte naming the two registers.
pub open spec fn spec_mov_reg_reg_bytes(dest: Reg, value: Reg) -> Seq<u8> {
    let modrm = (ModRM {
        mode: FieldMod::Direct,
        reg: FieldReg::Reg(spec_reg(value.spec_id() & 0b0111, value.spec_mode())),
        rm: spec_reg(dest.spec_id() & 0b0111, dest.spec_mode()),
    }).spec_byte();
    (if dest.spec_mode() == OpMode::Bit64 || value.spec_mode() == OpMode::Bit64 {
        seq![
            (Rex {
                opr_64bit: true,
                modrm_reg_ext: value.spec_ex_bit(),
                sib_index_ext: 0,
                sib_base_modrm_rm_ext: dest.spec_ex_bit(),
            }).spec_byte(),
        ]
    } else {
        Seq::empty()
    }) + seq![0x89u8, modrm]
}

/// Moves a 32-bit immediate into a register.
#[derive(Debug, Copy, Clone, PartialEq, Eq, Structural)]
pub struct MovRegImm32 {
    pub reg: Reg,
    pub imm: Imm32,
}

impl MovRegImm32 {
    pub fn compile_amd64(&self) -> (r: Vec<u8>)
        ensures
            r@ == spec_mov_reg_imm32_bytes(self.reg, self.imm.int32),
    {
        let mut base: Vec<u8> = Vec::new();
        base.push(0xc7);
        base.push(
            ModRM {
                mode: FieldMod::Direct,
                reg: FieldReg::OpCodeExt(0),
                rm: self.reg.without_ex_bit(),
            }.compile_amd64(),
        );
        match self.reg.mode {
            OpMode::Bit64 => {
                let rex = Rex {
                    opr_64bit: true,
                    modrm_reg_ext: self.reg.ex_bit(),
                    sib_index_ext: 0,
                    sib_base_modrm_rm_ext: 0,
                }.compile_amd64();
                base.insert(0, rex);
            },
            OpMode::Bit32 | OpMode::Bit16 | OpMode::Bit8 => {},
        }
        let v = self.imm.int32 as u32;
        base.push((v & 0xff) as u8);
        base.push(((v >> 8) & 0xff) as u8);
        base.push(((v >> 16) & 0xff) as u8);
        base.push(((v >> 24) & 0xff) as u8);
        proof {
            assert(base@ =~= spec_mov_reg_imm32_bytes(self.reg, self.imm.int32));
        }
        base
    }
}

/// Moves one register into another of the same width.
#[derive(Debug, Copy, Clone, PartialEq, Eq, Structural)]
pub struct MovRegReg {
    pub dest: Reg,
    pub value: Reg,
}

impl MovRegReg {
    pub fn compile_amd64(&self) -> (r: Vec<u8>)
        ensures
            r@ == spec_mov_reg_reg_bytes(self.dest, self.value),
    {
        let dest_64bit = self.dest.mode == OpMode::Bit64;
        let value_64bit = self.value.mode == OpMode::Bit64;
        let mut buf: Vec<u8> = Vec::new();
        if dest_64bit || value_64bit {
            let rex = Rex {
                opr_64bit: true,
                modrm_reg_ext: self.value.ex_bit(),
                sib_index_ext: 0,
                sib_base_modrm_rm_ext: self.dest.ex_bit(),
            }.compile_amd64();
            buf.push(rex);
        }
        buf.push(0x89);
        let modrm = ModRM {
            mode: FieldMod::Direct,
            reg: FieldReg::Reg(self.value.without_ex_bit()),
            rm: self.dest.without_ex_bit(),
        }.compile_amd64();
        buf.push(modrm);
        proof {
            assert(buf@ =~= spec_mov_reg_reg_bytes(self.dest, self.value));
        }
        buf
    }
}

/// The near return.
#[derive(Debug, Copy, Clone, PartialEq, Eq, Structural)]
pub struct RetNear;

impl RetNear {
    pub fn compile_amd64(&self) -> (r: u8)
        ensures
            r == 0xc3u8,
    {
        0xc3
    }
}

/// One encodable operation.
#[derive(Debug, Copy, Clone, PartialEq, Eq, Structural)]
pub enum OpCode {
    MovRegImm32(MovRegImm32),
    MovRegReg(MovRegReg),
    RetNear(RetNear),
}

impl OpCode {
    pub fn compile_amd64(&self) -> (r: Vec<u8>)
        ensures
            match self {
                OpCode::MovRegImm32(mov) => r@ == spec_mov_reg_imm32_bytes(mov.reg, mov.imm.int32),
                OpCode::MovRegReg(mov) => r@ == spec_mov_reg_reg_bytes(mov.dest, mov.value),
                OpCode::RetNear(_) => r@ == seq![0xc3u8],
            },
    {
        match self {
            OpCode::MovRegImm32(mov) => mov.compile_amd64(),
            OpCode::MovRegReg(mov) => mov.compile_amd64(),
            OpCode::RetNear(ret) => {
                let mut v: Vec<u8> = Vec::new();
                v.push(ret.compile_amd64());
                proof {
                    assert(v@ =~= seq![0xc3u8]);
                }
                v
            },
        }
    }
}

} // verus!
