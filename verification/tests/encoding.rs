use gcf::x86_64::{
    exists_override_prefix, mov_reg_imm, mov_reg_reg, nop, retn, BitMode, Encoding, EncodingFlags,
    Immediate, Register,
};

#[test]
fn encoding_pack() {
    let encoding = Encoding::new(1, 0, EncodingFlags::flag_exceptional_rex());
    assert_eq!(encoding.main(), 1);
    assert_eq!(encoding.ex(), 0);
    assert_eq!(encoding.flags(), EncodingFlags::flag_exceptional_rex());

    let encoding = Encoding::new(1, 1, EncodingFlags::flag_exceptional_rex());
    assert_eq!(encoding.main(), 1);
    assert_eq!(encoding.ex(), 1);
    assert_eq!(encoding.flags(), EncodingFlags::flag_exceptional_rex());

    let encoding = Encoding::new(0, 0, EncodingFlags::flag_exceptional_rex());
    assert_eq!(encoding.main(), 0);
    assert_eq!(encoding.ex(), 0);
    assert_eq!(encoding.flags(), EncodingFlags::flag_exceptional_rex());

    let encoding = Encoding::new(0, 0, EncodingFlags::none());
    assert_eq!(encoding.main(), 0);
    assert_eq!(encoding.ex(), 0);
    assert_eq!(encoding.flags(), EncodingFlags::none());
}

#[test]
fn flag_sets_combine_and_count() {
    let both = EncodingFlags::flag_exceptional_rex().or(EncodingFlags::from_bits(0b10));
    assert!(both.has(EncodingFlags::flag_exceptional_rex()));
    assert!(both.has(EncodingFlags::from_bits(0b10)));
    assert!(!EncodingFlags::none().has(both));
    assert_eq!(both.flag_count(), 2);
    assert_eq!(EncodingFlags::none().flag_count(), 0);
    assert_eq!(EncodingFlags::max().flag_count(), 8);
}

#[test]
fn override_prefix_table() {
    assert!(exists_override_prefix(BitMode::Bit64));
    assert!(!exists_override_prefix(BitMode::Bit32));
    assert!(exists_override_prefix(BitMode::Bit16));
    assert!(!exists_override_prefix(BitMode::Bit8));
    assert!(!exists_override_prefix(BitMode::NA));
}

/// A function that loads ten and returns: the immediate move into the
/// accumulator, then the near return.
#[test]
fn returns_ten_bytes() {
    let mut buf: Vec<u8> = Vec::new();
    mov_reg_imm(BitMode::Bit32, Register::al, Immediate::Int32(10)).encode_into(&mut buf);
    retn(BitMode::Bit64).encode_into(&mut buf);
    assert_eq!(buf, vec![0xb8, 10, 0, 0, 0, 0xc3]);
}

#[test]
fn mov_between_registers_bytes() {
    let mut buf: Vec<u8> = Vec::new();
    mov_reg_reg(BitMode::Bit32, Register::cl, Register::al).encode_into(&mut buf);
    // opcode 89, then a direct ModRM: mode 11, reg = cl, rm = al
    assert_eq!(buf, vec![0x89, 0b11_001_000]);

    let mut buf64: Vec<u8> = Vec::new();
    mov_reg_reg(BitMode::Bit64, Register::al, Register::cl).encode_into(&mut buf64);
    // the 64-bit form carries a REX.W prefix
    assert_eq!(buf64, vec![0x48, 0x89, 0b11_000_001]);
}

#[test]
fn immediates_encode_little_endian() {
    let mut buf: Vec<u8> = Vec::new();
    Immediate::Int16(0x1234).encode_into(&mut buf);
    Immediate::Int32(0x0102_0304).encode_into(&mut buf);
    Immediate::Int64(0x0807_0605_0403_0201).encode_into(&mut buf);
    assert_eq!(
        buf,
        vec![0x34, 0x12, 0x04, 0x03, 0x02, 0x01, 1, 2, 3, 4, 5, 6, 7, 8]
    );
}

#[test]
fn nop_is_one_byte() {
    let mut buf: Vec<u8> = Vec::new();
    nop().encode_into(&mut buf);
    assert_eq!(buf, vec![0x90]);
}
