//! x86-64 instruction encoding: register encodings packed into one byte,
//! the REX / ModRM / SIB prefixes and fields, and the byte layout of the
//! instructions the back end emits. Every encoder states the exact bytes it
//! appends.
#![allow(non_camel_case_types)]
use vstd::prelude::*;

verus! {

/// Atomic sub-register tags.
#[derive(Debug, Copy, Clone, PartialEq, Eq, Structural)]
pub enum Unit {
    al,
    ah,
    cl,
    ch,
    dl,
    dh,
    bl,
    bh,
}

/// How many of the eight flag bits are set.
pub open spec fn count_ones_u8(b: u8) -> int {
    (b & 1) + ((b >> 1) & 1) + ((b >> 2) & 1) + ((b >> 3) & 1) + ((b >> 4) & 1) + ((b >> 5) & 1) + (
    (b >> 6) & 1) + ((b >> 7) & 1)
}

/// Flags qualifying a register encoding.
#[derive(Debug, PartialEq, Eq, Structural, Copy, Clone)]
pub struct EncodingFlags {
    bits: u8,
}

impl EncodingFlags {
    pub closed spec fn spec_bits(&self) -> u8 {
        self.bits
    }

    /// The flag of the byte registers that can only be addressed under a
    /// REX prefix.
    #[inline]
    pub fn flag_exceptional_rex() -> (r: Self)
        ensures
            r.spec_bits() == 1u8,
    {
        EncodingFlags { bits: 0b0000_0001 }
    }

    #[inline]
    pub fn none() -> (r: Self)
        ensures
            r.spec_bits() == 0u8,
    {
        EncodingFlags { bits: 0 }
    }

    #[inline]
    pub fn max() -> (r: Self)
        ensures
            r.spec_bits() == u8::MAX,
    {
        EncodingFlags { bits: u8::MAX }
    }

    #[inline]
    pub fn flag_count(&self) -> (r: usize)
        ensures
            r as int == count_ones_u8(self.spec_bits()),
    {
        let b = self.bits;
        proof {
            assert((b & 1) <= 1 && ((b >> 1) & 1) <= 1 && ((b >> 2) & 1) <= 1 && ((b >> 3) & 1)
                <= 1 && ((b >> 4) & 1) <= 1 && ((b >> 5) & 1) <= 1 && ((b >> 6) & 1) <= 1 && ((b
                >> 7) & 1) <= 1) by (bit_vector);
        }
        ((b & 1) + ((b >> 1) & 1) + ((b >> 2) & 1) + ((b >> 3) & 1) + ((b >> 4) & 1) + ((b >> 5)
            & 1) + ((b >> 6) & 1) + ((b >> 7) & 1)) as usize
    }

    #[inline]
    pub fn from_bits(bits: u8) -> (r: Self)
        ensures
            r.spec_bits() == bits,
    {
        EncodingFlags { bits }
    }

    /// True when every bit of `other` is set in `self` too.
    #[inline]
    pub fn has(self, other: EncodingFlags) -> (r: bool)
        ensures
            r == ((self.spec_bits() & other.spec_bits()) == other.spec_bits()),
    {
        (self.bits & other.bits) == other.bits
    }

    /// The union of the two flag sets.
    #[inline]
    pub fn or(self, rhs: EncodingFlags) -> (r: Self)
        ensures
            r.spec_bits() == (self.spec_bits() | rhs.spec_bits()),
    {
        EncodingFlags { bits: self.bits | rhs.bits }
    }
}

/// A register encoding packed into one byte: three main bits, one extension
/// bit, four flag bits.
#[derive(Copy, Clone, Debug, PartialEq, Eq, Structural)]
pub struct Encoding {
    bits: u8,
}

impl Encoding {
    pub closed spec fn spec_bits(&self) -> u8 {
        self.bits
    }

    pub open spec fn spec_main(&self) -> u8 {
        self.spec_bits() & 0b0000_0111
    }

    pub open spec fn spec_ex(&self) -> u8 {
        (self.spec_bits() & 0b0000_1000) >> 3
    }

    pub open spec fn spec_flags(&self) -> u8 {
        (self.spec_bits() & 0b1111_0000) >> 3 >> 1
    }

    #[inline]
    pub fn new(enc: u8, ex: u8, flags: EncodingFlags) -> (r: Self)
        requires
            enc <= 7,
            ex <= 1,
            flags.spec_bits() <= 15,
        ensures
            r.spec_main() == enc,
            r.spec_ex() == ex,
            r.spec_flags() == flags.spec_bits(),
    {
        let fbits = flags.bits();
        let bits: u8 = enc | (ex << 3) | ((fbits << 3) << 1);
        proof {
            assert(enc <= 7 && ex <= 1 && fbits <= 15 ==> ((bits & 0b0000_0111) == enc && ((bits
                & 0b0000_1000) >> 3) == ex && (((bits & 0b1111_0000) >> 3) >> 1) == fbits))
                by (bit_vector)
                requires
                    bits == (enc | (ex << 3)) | ((fbits << 3) << 1),
            ;
        }
        Encoding { bits }
    }

    #[inline]
    pub fn main(self) -> (r: u8)
        ensures
            r == self.spec_main(),
    {
        self.bits & 0b0000_0111
    }

    #[inline]
    pub fn ex(self) -> (r: u8)
        ensures
            r == self.spec_ex(),
    {
        (self.bits & 0b0000_1000) >> 3
    }

    #[inline]
    pub fn flags(self) -> (r: EncodingFlags)
        ensures
            r.spec_bits() == self.spec_flags(),
    {
        EncodingFlags::from_bits((self.bits & 0b1111_0000) >> 3 >> 1)
    }
}

impl EncodingFlags {
    /// The raw flag byte.
    #[inline]
    pub fn bits(&self) -> (r: u8)
        ensures
            r == self.spec_bits(),
    {
        self.bits
    }
}

/// The byte registers.
#[derive(PartialEq, Eq, Structural, Debug, Copy, Clone)]
pub enum Register {
    al,
    ah,
    cl,
    ch,
    dl,
    dh,
    bl,
    bh,
}

impl Register {
    /// The static encoding table: the three main bits of each register.
    pub open spec fn spec_main_bits(self) -> u8 {
        match self {
            Register::al => 0,
            Register::ah => 4,
            Register::cl => 1,
            Register::ch => 5,
            Register::dl => 2,
            Register::dh => 6,
            Register::bl => 3,
            Register::bh => 7,
        }
    }

    #[inline]
    pub fn encoding(self) -> (r: Encoding)
        ensures
            r.spec_main() == self.spec_main_bits(),
            r.spec_ex() == 0,
            r.spec_flags() == 0,
    {
        match self {
            Register::al => Encoding::new(0, 0, EncodingFlags::none()),
            Register::ah => Encoding::new(4, 0, EncodingFlags::none()),
            Register::cl => Encoding::new(1, 0, EncodingFlags::none()),
            Register::ch => Encoding::new(5, 0, EncodingFlags::none()),
            Register::dl => Encoding::new(2, 0, EncodingFlags::none()),
            Register::dh => Encoding::new(6, 0, EncodingFlags::none()),
            Register::bl => Encoding::new(3, 0, EncodingFlags::none()),
            Register::bh => Encoding::new(7, 0, EncodingFlags::none()),
        }
    }
}

/// The two bits of the ModRM addressing mode field.
#[derive(Debug, Copy, Clone, PartialEq, Eq, Structural)]
pub enum AddressingMode {
    Direct,
    IndirectGeneric,
    IndirectDisp8,
    IndirectDisp32,
}

impl AddressingMode {
    pub open spec fn spec_mode_bits(self) -> u8 {
        match self {
            AddressingMode::Direct => 0b11,
            AddressingMode::IndirectGeneric => 0b00,
            AddressingMode::IndirectDisp8 => 0b01,
            AddressingMode::IndirectDisp32 => 0b10,
        }
    }

    pub fn mode_bits(self) -> (r: u8)
        ensures
            r == self.spec_mode_bits(),
    {
        match self {
            AddressingMode::Direct => 0b11,
            AddressingMode::IndirectGeneric => 0b00,
            AddressingMode::IndirectDisp8 => 0b01,
            AddressingMode::IndirectDisp32 => 0b10,
        }
    }
}

#[derive(Debug, Copy, Clone, PartialEq, Eq, Structural)]
pub struct ModRM {
    /// u2
    pub addrmode: u8,
    /// G operand: u3
    pub reg: u8,
    /// E operand: u3
    pub rm: u8,
}

impl ModRM {
    pub open spec fn spec_byte(self) -> u8 {
        ((self.addrmode << 6) | (self.reg << 3)) | self.rm
    }

    pub fn encode_into(&self, buf: &mut Vec<u8>)
        ensures
            final(buf)@ == old(buf)@ + seq![self.spec_byte()],
    {
        let modrm = ((self.addrmode << 6) | (self.reg << 3)) | self.rm;
        buf.push(modrm);
        proof {
            assert(buf@ =~= old(buf)@ + seq![self.spec_byte()]);
        }
    }
}

#[derive(Debug, Copy, Clone, PartialEq, Eq, Structural)]
pub struct Rex {
    /// W operand: u1
    pub operand_64bit: bool,
    /// R operand - extension of the G operand: u1
    pub modrm_reg_extension: u8,
    /// X operand: u1
    pub sib_index_extension: u8,
    /// B operand - extension of the E operand or the SIB base: u1
    pub modrm_rm_sib_base_extension: u8,
}

impl Rex {
    pub open spec fn spec_byte(self) -> u8 {
        (((0b0100_0000u8 | ((if self.operand_64bit {
            1u8
        } else {
            0u8
        }) << 3)) | (self.modrm_reg_extension << 2)) | (self.sib_index_extension << 1))
            | self.modrm_rm_sib_base_extension
    }

    pub fn encode_into(&self, buf: &mut Vec<u8>)
        ensures
            final(buf)@ == old(buf)@ + seq![self.spec_byte()],
    {
        let w: u8 = if self.operand_64bit {
            1
        } else {
            0
        };
        let rex = (((0b0100_0000u8 | (w << 3)) | (self.modrm_reg_extension << 2)) | (
        self.sib_index_extension << 1)) | self.modrm_rm_sib_base_extension;
        buf.push(rex);
        proof {
            assert(buf@ =~= old(buf)@ + seq![self.spec_byte()]);
        }
    }
}

#[derive(Debug, Copy, Clone, PartialEq, Eq, Structural)]
pub struct Sib {
    /// u2
    pub scale_mode: u8,
    /// u3
    pub index: u8,
    /// u3
    pub base: u8,
}

impl Sib {
    pub open spec fn spec_byte(self) -> u8 {
        (self.scale_mode | (self.index << 6)) | self.base
    }

    pub fn encode_into(&self, buf: &mut Vec<u8>)
        ensures
            final(buf)@ == old(buf)@ + seq![self.spec_byte()],
    {
        let sib = (self.scale_mode | (self.index << 6)) | self.base;
        buf.push(sib);
        proof {
            assert(buf@ =~= old(buf)@ + seq![self.spec_byte()]);
        }
    }
}

/// The little-endian bytes of a 16-bit value.
pub open spec fn le16(x: u16) -> Seq<u8> {
    seq![(x & 0xff) as u8, ((x >> 8) & 0xff) as u8]
}

/// The little-endian bytes of a 32-bit value.
pub open spec fn le32(x: u32) -> Seq<u8> {
    seq![
        (x & 0xff) as u8,
        ((x >> 8) & 0xff) as u8,
        ((x >> 16) & 0xff) as u8,
        ((x >> 24) & 0xff) as u8,
    ]
}

/// The little-endian bytes of a 64-bit value.
pub open spec fn le64(x: u64) -> Seq<u8> {
    seq![
        (x & 0xff) as u8,
        ((x >> 8) & 0xff) as u8,
        ((x >> 16) & 0xff) as u8,
        ((x >> 24) & 0xff) as u8,
        ((x >> 32) & 0xff) as u8,
        ((x >> 40) & 0xff) as u8,
        ((x >> 48) & 0xff) as u8,
        ((x >> 56) & 0xff) as u8,
    ]
}

#[derive(Debug, Copy, Clone, PartialEq, Eq, Structural)]
pub enum Displacement {
    Int8(u8),
    Int16(u16),
    Int32(u32),
}

impl Displacement {
    pub open spec fn spec_bytes(self) -> Seq<u8> {
        match self {
            Displacement::Int8(v) => seq![v],
            Displacement::Int16(v) => le16(v),
            Displacement::Int32(v) => le32(v),
        }
    }

    pub fn encode_into(&self, buf: &mut Vec<u8>)
        ensures
            final(buf)@ == old(buf)@ + self.spec_bytes(),
    {
        match self {
            Displacement::Int8(v) => {
                buf.push(*v);
            },
            Displacement::Int16(v) => {
                buf.push((*v & 0xff) as u8);
                buf.push(((*v >> 8) & 0xff) as u8);
            },
            Displacement::Int32(v) => {
                buf.push((*v & 0xff) as u8);
                buf.push(((*v >> 8) & 0xff) as u8);
                buf.push(((*v >> 16) & 0xff) as u8);
                buf.push(((*v >> 24) & 0xff) as u8);
            },
        }
        proof {
            assert(buf@ =~= old(buf)@ + self.spec_bytes());
        }
    }
}

#[derive(Debug, Copy, Clone, PartialEq, Eq, Structural)]
pub enum Immediate {
    Int8(u8),
    Int16(u16),
    Int32(u32),
    Int64(u64),
}

impl Immediate {
    pub open spec fn spec_bitmode(self) -> BitMode {
        match self {
            Immediate::Int8(_) => BitMode::Bit8,
            Immediate::Int16(_) => BitMode::Bit16,
            Immediate::Int32(_) => BitMode::Bit32,
            Immediate::Int64(_) => BitMode::Bit64,
        }
    }

    pub fn bitmode(&self) -> (r: BitMode)
        ensures
            r == self.spec_bitmode(),
    {
        match self {
            Immediate::Int8(_) => BitMode::Bit8,
            Immediate::Int16(_) => BitMode::Bit16,
            Immediate::Int32(_) => BitMode::Bit32,
            Immediate::Int64(_) => BitMode::Bit64,
        }
    }

    pub open spec fn spec_bytes(self) -> Seq<u8> {
        match self {
            Immediate::Int8(v) => seq![v],
            Immediate::Int16(v) => le16(v),
            Immediate::Int32(v) => le32(v),
            Immediate::Int64(v) => le64(v),
        }
    }

    pub fn encode_into(&self, buf: &mut Vec<u8>)
        ensures
            final(buf)@ == old(buf)@ + self.spec_bytes(),
    {
        match self {
            Immediate::Int8(v) => {
                buf.push(*v);
            },
            Immediate::Int16(v) => {
                buf.push((*v & 0xff) as u8);
                buf.push(((*v >> 8) & 0xff) as u8);
            },
            Immediate::Int32(v) => {
                buf.push((*v & 0xff) as u8);
                buf.push(((*v >> 8) & 0xff) as u8);
                buf.push(((*v >> 16) & 0xff) as u8);
                buf.push(((*v >> 24) & 0xff) as u8);
            },
            Immediate::Int64(v) => {
                buf.push((*v & 0xff) as u8);
                buf.push(((*v >> 8) & 0xff) as u8);
                buf.push(((*v >> 16) & 0xff) as u8);
                buf.push(((*v >> 24) & 0xff) as u8);
                buf.push(((*v >> 32) & 0xff) as u8);
                buf.push(((*v >> 40) & 0xff) as u8);
                buf.push(((*v >> 48) & 0xff) as u8);
                buf.push(((*v >> 56) & 0xff) as u8);
            },
        }
        proof {
            assert(buf@ =~= old(buf)@ + self.spec_bytes());
        }
    }
}

#[derive(Debug, Copy, Clone, PartialEq, Eq, Structural)]
pub enum BitMode {
    Bit64,
    Bit32,
    Bit16,
    Bit8,
    NA,
}

/// Flags describing which parts an instruction form carries.
#[derive(Copy, Clone, Debug, PartialEq, Eq, Structural)]
pub struct OpFlags {
    bits: u8,
}

impl OpFlags {
    pub closed spec fn spec_bits(&self) -> u8 {
        self.bits
    }

    pub fn modrm_flag() -> (r: OpFlags)
        ensures
            r.spec_bits() == 0b0000_0001u8,
    {
        OpFlags { bits: 0b0000_0001 }
    }

    pub fn rex_flag() -> (r: OpFlags)
        ensures
            r.spec_bits() == 0b0000_0010u8,
    {
        OpFlags { bits: 0b0000_0010 }
    }

    #[inline]
    pub fn has(self, other: OpFlags) -> (r: bool)
        ensures
            r == ((self.spec_bits() & other.spec_bits()) == other.spec_bits()),
    {
        (self.bits & other.bits) == other.bits
    }
}

/// The opcodes the back end emits. Register-carrying forms fold the
/// register's main bits into the opcode byte.
#[derive(Clone, Copy, Debug, PartialEq, Eq, Structural)]
pub enum OpCode {
    mov_r8m8_imm8,
    mov_r16m16_imm16,
    mov_r32m32_imm32,
    mov_r64m64_simm32,
    mov_r64_imm64(Register),
    mov_r32_imm32(Register),
    mov_r16_imm16(Register),
    mov_r8_imm8(Register),
    mov_r64m64_r64,
    mov_r32m32_r32,
    mov_r16m16_r16,
    mov_r8m8_r8,
    retn,
    retn_imm16,
    nop,
}

impl OpCode {
    /// The opcode byte and its extension.
    pub open spec fn spec_encoding(self) -> (u8, u8) {
        match self {
            OpCode::mov_r8m8_imm8 => (0xc6, 0),
            OpCode::mov_r16m16_imm16 => (0xc7, 0),
            OpCode::mov_r32m32_imm32 => (0xc7, 0),
            OpCode::mov_r64m64_simm32 => (0xc7, 0),
            OpCode::mov_r64_imm64(r) => ((0xb8 + r.spec_main_bits()) as u8, 0),
            OpCode::mov_r32_imm32(r) => ((0xb8 + r.spec_main_bits()) as u8, 0),
            OpCode::mov_r16_imm16(r) => ((0xb8 + r.spec_main_bits()) as u8, 0),
            OpCode::mov_r8_imm8(r) => ((0xb0 + r.spec_main_bits()) as u8, 0),
            OpCode::mov_r64m64_r64 => (0x89, 0),
            OpCode::mov_r32m32_r32 => (0x89, 0),
            OpCode::mov_r16m16_r16 => (0x89, 0),
            OpCode::mov_r8m8_r8 => (0x88, 0),
            OpCode::retn => (0xc3, 0),
            OpCode::retn_imm16 => (0xc2, 0),
            OpCode::nop => (0x90, 0),
        }
    }

    pub fn encoding(&self) -> (r: (u8, u8))
        ensures
            r == self.spec_encoding(),
    {
        match self {
            OpCode::mov_r8m8_imm8 => (0xc6, 0),
            OpCode::mov_r16m16_imm16 => (0xc7, 0),
            OpCode::mov_r32m32_imm32 => (0xc7, 0),
            OpCode::mov_r64m64_simm32 => (0xc7, 0),
            OpCode::mov_r64_imm64(r) | OpCode::mov_r32_imm32(r) | OpCode::mov_r16_imm16(r) => {
                (0xb8 + r.encoding().main(), 0)
            },
            OpCode::mov_r8_imm8(r) => (0xb0 + r.encoding().main(), 0),
            OpCode::mov_r64m64_r64 | OpCode::mov_r32m32_r32 | OpCode::mov_r16m16_r16 => (0x89, 0),
            OpCode::mov_r8m8_r8 => (0x88, 0),
            OpCode::retn => (0xc3, 0),
            OpCode::retn_imm16 => (0xc2, 0),
            OpCode::nop => (0x90, 0),
        }
    }
}

/// One encoded instruction, part by part.
#[derive(Debug, Copy, Clone, PartialEq, Eq, Structural)]
pub struct Instruction {
    pub legacy_66h: bool,
    pub modrm: Option<ModRM>,
    pub rex: Option<Rex>,
    pub sib: Option<Sib>,
    pub displacement: Option<Displacement>,
    pub opcode: u8,
    pub immediate: Option<Immediate>,
}

/// The bytes of one instruction: optional REX prefix, the opcode, then the
/// optional ModRM, SIB, displacement and immediate parts.
pub open spec fn spec_instruction_bytes(i: Instruction) -> Seq<u8> {
    (match i.rex {
        Some(rex) => seq![rex.spec_byte()],
        None => Seq::empty(),
    }) + seq![i.opcode] + (match i.modrm {
        Some(m) => seq![m.spec_byte()],
        None => Seq::empty(),
    }) + (match i.sib {
        Some(s) => seq![s.spec_byte()],
        None => Seq::empty(),
    }) + (match i.displacement {
        Some(d) => d.spec_bytes(),
        None => Seq::empty(),
    }) + (match i.immediate {
        Some(m) => m.spec_bytes(),
        None => Seq::empty(),
    })
}

impl Instruction {
    pub fn encode_into(&self, buf: &mut Vec<u8>)
        ensures
            final(buf)@ == old(buf)@ + spec_instruction_bytes(*self),
    {
        match &self.rex {
            Some(rex) => {
                rex.encode_into(buf);
            },
            None => {},
        }
        buf.push(self.opcode);
        match &self.modrm {
            Some(modrm) => {
                modrm.encode_into(buf);
            },
            None => {},
        }
        match &self.sib {
            Some(sib) => {
                sib.encode_into(buf);
            },
            None => {},
        }
        match &self.displacement {
            Some(displacement) => {
                displacement.encode_into(buf);
            },
            None => {},
        }
        match &self.immediate {
            Some(immediate) => {
                immediate.encode_into(buf);
            },
            None => {},
        }
        proof {
            assert(buf@ =~= old(buf)@ + spec_instruction_bytes(*self));
        }
    }
}

/// Whether an instruction in this mode with these registers needs a REX
/// prefix.
pub open spec fn spec_use_rex(mode: BitMode, registers: Seq<Register>) -> bool {
    mode == BitMode::Bit64 || exists|k: int|
        0 <= k < registers.len() && (((#[trigger] registers[k]).encoding_flags_spec() & 1) == 1
            || registers[k].encoding_ex_spec() != 0)
}

impl Register {
    /// The flag bits of the register's table entry.
    pub open spec fn encoding_flags_spec(self) -> u8 {
        0
    }

    /// The extension bit of the register's table entry.
    pub open spec fn encoding_ex_spec(self) -> u8 {
        0
    }
}

#[inline(always)]
fn use_rex_p(mode: BitMode, registers: &Vec<Register>) -> (r: bool)
    ensures
        r == spec_use_rex(mode, registers@),
{
    if mode == BitMode::Bit64 {
        return true;
    }
    let mut k: usize = 0;
    while k < registers.len()
        invariant
            0 <= k <= registers@.len(),
            forall|t: int|
                0 <= t < k ==> (((#[trigger] registers@[t]).encoding_flags_spec() & 1) != 1
                    && registers@[t].encoding_ex_spec() == 0),
        decreases registers@.len() - k,
    {
        let r = registers[k];
        let exceptional = r.encoding().flags().has(EncodingFlags::flag_exceptional_rex());
        let extended = r.encoding().ex() != 0;
        if exceptional || extended {
            proof {
                assert((registers@[k as int].encoding_flags_spec() & 1) == 1
                    || registers@[k as int].encoding_ex_spec() != 0) by {
                    assert(registers@[k as int].spec_main_bits() <= 7);
                    assert((0u8 & 1u8) == 0u8) by (bit_vector);
                }
            }
            return true;
        }
        k = k + 1;
    }
    proof {
        assert((0u8 & 1u8) == 0u8) by (bit_vector);
    }
    false
}

/// Whether the mode has an operand-size override prefix.
pub open spec fn spec_exists_override_prefix(mode: BitMode) -> bool {
    match mode {
        BitMode::Bit64 => true,
        BitMode::Bit32 => false,
        BitMode::Bit16 => true,
        BitMode::Bit8 => false,
        BitMode::NA => false,
    }
}

pub fn exists_override_prefix(mode: BitMode) -> (r: bool)
    ensures
        r == spec_exists_override_prefix(mode),
{
    match mode {
        BitMode::Bit64 => true,
        BitMode::Bit32 => false,
        BitMode::Bit16 => true,
        BitMode::Bit8 => false,
        BitMode::NA => false,
    }
}

/// The finished register-to-register move, as a specification value.
pub open spec fn spec_mov_reg_reg(mode: BitMode, to: Register, from: Register) -> Instruction {
    Instruction {
        legacy_66h: mode == BitMode::Bit16,
        modrm: Some(ModRM { addrmode: 0b11, reg: to.spec_main_bits(), rm: from.spec_main_bits() }),
        rex: if spec_use_rex(mode, seq![to, from]) {
            Some(
                Rex {
                    operand_64bit: mode == BitMode::Bit64,
                    modrm_reg_extension: 0,
                    sib_index_extension: 0,
                    modrm_rm_sib_base_extension: 0,
                },
            )
        } else {
            None
        },
        sib: None,
        displacement: None,
        opcode: (match mode {
            BitMode::Bit64 => OpCode::mov_r64m64_r64,
            BitMode::Bit32 => OpCode::mov_r32m32_r32,
            BitMode::Bit16 => OpCode::mov_r16m16_r16,
            BitMode::Bit8 => OpCode::mov_r8m8_r8,
            BitMode::NA => OpCode::nop,
        }).spec_encoding().0,
        immediate: None,
    }
}

/// The finished immediate move, as a specification value.
pub open spec fn spec_mov_reg_imm(mode: BitMode, to: Register, from: Immediate) -> Instruction {
    Instruction {
        legacy_66h: mode == BitMode::Bit16,
        modrm: None,
        rex: if spec_use_rex(mode, seq![to]) {
            Some(
                Rex {
                    operand_64bit: mode == BitMode::Bit64,
                    modrm_reg_extension: 0,
                    sib_index_extension: 0,
                    modrm_rm_sib_base_extension: 0,
                },
            )
        } else {
            None
        },
        sib: None,
        displacement: None,
        opcode: (match mode {
            BitMode::Bit8 => OpCode::mov_r8_imm8(to),
            BitMode::Bit16 => OpCode::mov_r16_imm16(to),
            BitMode::Bit32 => OpCode::mov_r32_imm32(to),
            BitMode::Bit64 => OpCode::mov_r64_imm64(to),
            BitMode::NA => OpCode::nop,
        }).spec_encoding().0,
        immediate: Some(from),
    }
}

/// The near return, as a specification value.
pub open spec fn spec_retn(mode: BitMode) -> Instruction {
    Instruction {
        legacy_66h: mode == BitMode::Bit16,
        modrm: None,
        rex: None,
        sib: None,
        displacement: None,
        opcode: 0xc3,
        immediate: None,
    }
}

/// The register-to-register move in the given mode.
pub fn mov_reg_reg(mode: BitMode, to: Register, from: Register) -> (r: Instruction)
    requires
        mode != BitMode::NA,
    ensures
        r == spec_mov_reg_reg(mode, to, from),
{
    let mut regs: Vec<Register> = Vec::new();
    regs.push(to);
    regs.push(from);
    proof {
        assert(regs@ =~= seq![to, from]);
    }
    let needs_rex = use_rex_p(mode, &regs);
    let opcode = match mode {
        BitMode::Bit64 => OpCode::mov_r64m64_r64,
        BitMode::Bit32 => OpCode::mov_r32m32_r32,
        BitMode::Bit16 => OpCode::mov_r16m16_r16,
        BitMode::Bit8 => OpCode::mov_r8m8_r8,
        BitMode::NA => OpCode::nop,
    };
    Instruction {
        legacy_66h: mode == BitMode::Bit16,
        modrm: Some(
            ModRM {
                addrmode: AddressingMode::Direct.mode_bits(),
                reg: to.encoding().main(),
                rm: from.encoding().main(),
            },
        ),
        rex: if needs_rex {
            Some(
                Rex {
                    operand_64bit: mode == BitMode::Bit64,
                    modrm_reg_extension: to.encoding().ex(),
                    sib_index_extension: 0,
                    modrm_rm_sib_base_extension: from.encoding().ex(),
                },
            )
        } else {
            None
        },
        sib: None,
        displacement: None,
        opcode: opcode.encoding().0,
        immediate: None,
    }
}

/// The move of an immediate into a register; the register's main bits are
/// folded into the opcode byte.
pub fn mov_reg_imm(mode: BitMode, to: Register, from: Immediate) -> (r: Instruction)
    requires
        mode != BitMode::NA,
        mode == from.spec_bitmode(),
    ensures
        r == spec_mov_reg_imm(mode, to, from),
{
    let mut regs: Vec<Register> = Vec::new();
    regs.push(to);
    proof {
        assert(regs@ =~= seq![to]);
    }
    let needs_rex = use_rex_p(mode, &regs);
    let opcode = match mode {
        BitMode::Bit8 => OpCode::mov_r8_imm8(to),
        BitMode::Bit16 => OpCode::mov_r16_imm16(to),
        BitMode::Bit32 => OpCode::mov_r32_imm32(to),
        BitMode::Bit64 => OpCode::mov_r64_imm64(to),
        BitMode::NA => OpCode::nop,
    };
    Instruction {
        legacy_66h: mode == BitMode::Bit16,
        modrm: None,
        rex: if needs_rex {
            Some(
                Rex {
                    operand_64bit: mode == BitMode::Bit64,
                    modrm_reg_extension: 0,
                    sib_index_extension: 0,
                    modrm_rm_sib_base_extension: to.encoding().ex(),
                },
            )
        } else {
            None
        },
        sib: None,
        displacement: None,
        opcode: opcode.encoding().0,
        immediate: Some(from),
    }
}

/// The near return.
pub fn retn(mode: BitMode) -> (r: Instruction)
    requires
        spec_exists_override_prefix(mode),
    ensures
        r == spec_retn(mode),
{
    Instruction {
        legacy_66h: mode == BitMode::Bit16,
        modrm: None,
        rex: None,
        sib: None,
        displacement: None,
        opcode: OpCode::retn.encoding().0,
        immediate: None,
    }
}

/// The one-byte no-operation.
pub fn nop() -> (r: Instruction)
    ensures
        r == (Instruction {
            legacy_66h: false,
            modrm: None,
            rex: None,
            sib: None,
            displacement: None,
            opcode: 0x90,
            immediate: None,
        }),
{
    Instruction {
        legacy_66h: false,
        modrm: None,
        rex: None,
        sib: None,
        displacement: None,
        opcode: OpCode::nop.encoding().0,
        immediate: None,
    }
}

} // verus!
