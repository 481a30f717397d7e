//! Machine-level RTL: moves and returns over virtual and physical
//! registers, a stack allocator for spilled values, the usage analysis, and
//! the allocator that rewrites every virtual register to a physical one.
use vstd::prelude::*;
use crate::amd64;

verus! {

/// The architectures this back end knows.
#[derive(Debug, Clone, Copy, Eq, PartialEq, Structural)]
pub enum Arch {
    Amd64,
}

#[derive(Debug, Clone, Copy, Eq, PartialEq, Structural, Hash)]
pub enum RegDataType {
    Int8,
    Int16,
    Int32,
    Int64,
    Custom(usize),
}

/// Anything that carries a register data type.
pub trait ContainsDataType {
    spec fn spec_data_ty(&self) -> RegDataType;

    fn data_ty(&self) -> (r: RegDataType)
        ensures
            r == self.spec_data_ty(),
    ;
}

#[derive(Debug, Clone, Copy, Eq, PartialEq, Structural, Hash)]
pub struct VirtualReg {
    pub id: u32,
    pub data_ty: RegDataType,
}

#[derive(Eq, PartialEq, Structural, Hash, Debug, Clone, Copy)]
pub struct StackRegister {
    scope_slot: usize,
    data_ty: RegDataType,
}

impl StackRegister {
    pub closed spec fn spec_slot(&self) -> int {
        self.scope_slot as int
    }

    pub closed spec fn spec_ty(&self) -> RegDataType {
        self.data_ty
    }
}

#[derive(Eq, PartialEq, Structural, Hash, Debug, Clone, Copy)]
pub enum PhysicalReg {
    Amd64(amd64::Reg),
    Stack(StackRegister),
}

impl ContainsDataType for PhysicalReg {
    open spec fn spec_data_ty(&self) -> RegDataType {
        match self {
            PhysicalReg::Amd64(r) => r.spec_data_ty(),
            PhysicalReg::Stack(stack) => stack.spec_ty(),
        }
    }

    fn data_ty(&self) -> (r: RegDataType) {
        match self {
            PhysicalReg::Amd64(r) => r.data_ty(),
            PhysicalReg::Stack(stack) => stack.data_ty,
        }
    }
}

#[derive(Debug, Clone, Copy, PartialEq, Eq, Structural)]
pub enum Register {
    Virtual(VirtualReg),
    Phys(PhysicalReg),
}

impl ContainsDataType for Register {
    open spec fn spec_data_ty(&self) -> RegDataType {
        match self {
            Register::Virtual(vir) => vir.data_ty,
            Register::Phys(phys) => phys.spec_data_ty(),
        }
    }

    fn data_ty(&self) -> (r: RegDataType) {
        match self {
            Register::Virtual(vir) => vir.data_ty,
            Register::Phys(phys) => phys.data_ty(),
        }
    }
}

#[derive(Debug, Clone, Copy, PartialEq, Eq, Structural)]
pub enum Immediate {
    I32(i32),
}

#[derive(Debug, Clone, Copy, PartialEq, Eq, Structural)]
pub enum RValue {
    Immediate(Immediate),
    Register(Register),
}

/// Moves `value` into `dest`.
#[derive(Debug, Clone, Copy, PartialEq, Eq, Structural)]
pub struct Move {
    pub dest: Register,
    pub value: RValue,
}

/// Why an operation cannot be encoded.
#[derive(Debug, Clone, Copy, PartialEq, Eq, Structural)]
pub enum CompileRtlError {
    VirtualRegister,
    WrongRegisterConversion { expected: Arch, found: Arch },
}

#[derive(Debug, PartialEq, Eq, Structural, Clone, Copy)]
pub enum CallingConvention {
    C,
}

/// Returns the value found in `value`, if any.
#[derive(Debug, Clone, Copy, PartialEq, Eq, Structural)]
pub struct Return {
    pub value: Option<Register>,
    pub cc: CallingConvention,
}

/// Marks a spot whose stack alignment the emitter must mend.
#[derive(Debug, Clone, Copy, PartialEq, Eq, Structural)]
pub struct FixAlignment;

/// What one compiled procedure occupies.
pub struct FunctionFootprint {
    pub stack_size: usize,
}

/// What the encoder knows about the procedure being compiled.
pub struct Context {
    current_function: Option<FunctionFootprint>,
}

impl Context {
    pub fn new(current_function: Option<FunctionFootprint>) -> Context {
        Context { current_function }
    }
}

/// The stack frame must stay 16-byte aligned and non-empty.
pub fn validate_alignment_amd64(size: usize)
    requires
        size % 16 == 0,
        size != 0,
{
}

/// Hands out stack homes for spilled registers, growing downward from the
/// frame base.
#[derive(Default)]
pub struct StackAllocator {
    offset: usize,
}

impl StackAllocator {
    pub closed spec fn spec_offset(&self) -> int {
        self.offset as int
    }

    /// Reserves a slot for a value of the given type. Every integer slot is
    /// eight bytes wide so the frame stays aligned.
    pub fn allocate(&mut self, data_ty: RegDataType) -> (v: PhysicalReg)
        requires
            (data_ty matches RegDataType::Custom(sz) ==> sz % 16 == 0 && sz != 0),
            old(self).spec_offset() + (match data_ty {
                RegDataType::Custom(sz) => sz as int,
                _ => 8int,
            }) <= usize::MAX,
        ensures
            final(self).spec_offset() == old(self).spec_offset() + (match data_ty {
                RegDataType::Custom(sz) => sz as int,
                _ => 8int,
            }),
            v matches PhysicalReg::Stack(s) && s.spec_slot() == final(self).spec_offset()
                && s.spec_ty() == data_ty,
    {
        let size_in_bytes: usize = match data_ty {
            RegDataType::Custom(sz) => {
                validate_alignment_amd64(sz);
                sz
            },
            RegDataType::Int8 => 8,
            RegDataType::Int16 => 8,
            RegDataType::Int32 => 8,
            RegDataType::Int64 => 8,
        };
        self.offset = self.offset + size_in_bytes;
        PhysicalReg::Stack(StackRegister { scope_slot: self.offset, data_ty })
    }

    /// The frame offset reached so far.
    pub fn top(&self) -> (r: usize)
        ensures
            r as int == self.spec_offset(),
    {
        self.offset
    }

    /// The current offset as a slot number.
    pub fn offset_val(&self) -> (r: usize)
        ensures
            r as int == self.spec_offset(),
    {
        self.offset
    }
}

impl Move {
    /// The machine register behind an allocated operand; a virtual register
    /// here means allocation never resolved it.
    fn register_to_amd64_native(reg: Register) -> (r: Result<amd64::Reg, CompileRtlError>)
        requires
            !(reg matches Register::Phys(PhysicalReg::Stack(_))),
        ensures
            match reg {
                Register::Virtual(_) => r == Err::<amd64::Reg, CompileRtlError>(
                    CompileRtlError::VirtualRegister,
                ),
                Register::Phys(PhysicalReg::Amd64(a)) => r == Ok::<amd64::Reg, CompileRtlError>(a),
                _ => true,
            },
    {
        match reg {
            Register::Virtual(_) => Err(CompileRtlError::VirtualRegister),
            Register::Phys(PhysicalReg::Stack(_)) => unreached(),
            Register::Phys(PhysicalReg::Amd64(dest)) => Ok(dest),
        }
    }

    /// The bytes of the move, or the error naming the unresolved register.
    pub fn compile_amd64(&self) -> (r: Result<Vec<u8>, CompileRtlError>)
        requires
            !(self.dest matches Register::Phys(PhysicalReg::Stack(_))),
            !(self.value matches RValue::Register(Register::Phys(PhysicalReg::Stack(_)))),
        ensures
            match (self.dest, self.value) {
                (Register::Virtual(_), _) => r == Err::<Vec<u8>, CompileRtlError>(
                    CompileRtlError::VirtualRegister,
                ),
                (Register::Phys(PhysicalReg::Amd64(d)), RValue::Immediate(Immediate::I32(k))) => (
                r matches Ok(bytes) && bytes@ == amd64::spec_mov_reg_imm32_bytes(d, k)),
                (
                    Register::Phys(PhysicalReg::Amd64(d)),
                    RValue::Register(Register::Phys(PhysicalReg::Amd64(v))),
                ) => (r matches Ok(bytes) && bytes@ == amd64::spec_mov_reg_reg_bytes(d, v)),
                (Register::Phys(PhysicalReg::Amd64(_)), RValue::Register(Register::Virtual(_))) => r
                    == Err::<Vec<u8>, CompileRtlError>(CompileRtlError::VirtualRegister),
                _ => true,
            },
    {
        match &self.value {
            RValue::Immediate(imm) => match imm {
                Immediate::I32(v) => {
                    let dest = match Self::register_to_amd64_native(self.dest) {
                        Ok(d) => d,
                        Err(e) => {
                            return Err(e);
                        },
                    };
                    Ok(amd64::MovRegImm32 { reg: dest, imm: amd64::Imm32 { int32: *v } }.compile_amd64())
                },
            },
            RValue::Register(reg) => {
                let dest = match Self::register_to_amd64_native(self.dest) {
                    Ok(d) => d,
                    Err(e) => {
                        return Err(e);
                    },
                };
                let value = match Self::register_to_amd64_native(*reg) {
                    Ok(v) => v,
                    Err(e) => {
                        return Err(e);
                    },
                };
                Ok(amd64::MovRegReg { dest, value }.compile_amd64())
            },
        }
    }
}

impl Return {
    /// The bytes that place the returned value in the architectural return
    /// register and return: a move into the accumulator of the right width,
    /// then the near return.
    pub fn compile_amd64(&self) -> (r: Vec<u8>)
        requires
            self.cc == CallingConvention::C,
            match self.value {
                Some(reg) => match reg {
                    Register::Phys(PhysicalReg::Amd64(v)) => match v.spec_data_ty() {
                        RegDataType::Int8 | RegDataType::Int16 => false,
                        RegDataType::Custom(sz) => sz == 1 || sz == 2 || sz == 4 || sz == 8,
                        _ => true,
                    },
                    _ => false,
                },
                None => true,
            },
        ensures
            match self.value {
                Some(Register::Phys(PhysicalReg::Amd64(v))) => r@ == amd64::spec_mov_reg_reg_bytes(
                    amd64::spec_return_reg_for(v.spec_data_ty()),
                    v,
                ).push(0xc3),
                _ => r@ == seq![0xc3u8],
            },
    {
        match self.value {
            Some(Register::Phys(PhysicalReg::Amd64(ret_v))) => {
                let mut buf: Vec<u8> = Vec::new();
                let ret_t = ret_v.data_ty();
                match ret_t {
                    RegDataType::Int32 => {
                        // place into eax
                        let mut bytes = amd64::MovRegReg { dest: amd64::eax(), value: ret_v }.compile_amd64();
                        buf.append(&mut bytes);
                    },
                    RegDataType::Int64 => {
                        // place into rax
                        let mut bytes = amd64::MovRegReg { dest: amd64::rax(), value: ret_v }.compile_amd64();
                        buf.append(&mut bytes);
                    },
                    RegDataType::Custom(custom_sz) => {
                        let bits = if custom_sz <= 8 {
                            custom_sz * 8
                        } else {
                            64
                        };
                        let reg = if bits > 8 {
                            if bits > 16 {
                                if bits > 32 {
                                    amd64::rax()
                                } else {
                                    amd64::eax()
                                }
                            } else {
                                amd64::ax()
                            }
                        } else {
                            amd64::a()
                        };
                        let mut bytes = amd64::MovRegReg { dest: reg, value: ret_v }.compile_amd64();
                        buf.append(&mut bytes);
                    },
                    _ => {
                        proof {
                            assert(false);
                        }
                    },
                }
                buf.push(amd64::RetNear.compile_amd64());
                proof {
                    assert(buf@ =~= amd64::spec_mov_reg_reg_bytes(
                        amd64::spec_return_reg_for(ret_v.spec_data_ty()),
                        ret_v,
                    ).push(0xc3));
                }
                buf
            },
            None => {
                let mut buf: Vec<u8> = Vec::new();
                buf.push(amd64::RetNear.compile_amd64());
                proof {
                    assert(buf@ =~= seq![0xc3u8]);
                }
                buf
            },
            _ => unreached(),
        }
    }
}

/// One machine-level operation.
#[derive(Debug, Clone, Copy, PartialEq, Eq, Structural)]
pub enum RtlOp {
    Move(Move),
    Return(Return),
}

impl RtlOp {
    /// The conditions under which the operation encodes without a fatal
    /// diagnostic.
    pub open spec fn spec_encodable(self) -> bool {
        match self {
            RtlOp::Move(mov) => !(mov.dest matches Register::Phys(PhysicalReg::Stack(_))) && !(
            mov.value matches RValue::Register(Register::Phys(PhysicalReg::Stack(_)))),
            RtlOp::Return(ret) => ret.cc == CallingConvention::C && match ret.value {
                Some(reg) => match reg {
                    Register::Phys(PhysicalReg::Amd64(v)) => match v.spec_data_ty() {
                        // only the widths with a register of their own; the
                        // in-between byte counts name no machine register
                        RegDataType::Custom(sz) => sz == 1 || sz == 2 || sz == 4 || sz == 8,
                        RegDataType::Int8 | RegDataType::Int16 => false,
                        _ => true,
                    },
                    _ => false,
                },
                None => true,
            },
        }
    }

    pub fn compile_amd64(&self) -> (r: Result<Vec<u8>, CompileRtlError>)
        requires
            self.spec_encodable(),
        ensures
            match self {
                RtlOp::Move(mov) => match (mov.dest, mov.value) {
                    (Register::Virtual(_), _) => r == Err::<Vec<u8>, CompileRtlError>(
                        CompileRtlError::VirtualRegister,
                    ),
                    (
                        Register::Phys(PhysicalReg::Amd64(_)),
                        RValue::Register(Register::Virtual(_)),
                    ) => r == Err::<Vec<u8>, CompileRtlError>(CompileRtlError::VirtualRegister),
                    (
                        Register::Phys(PhysicalReg::Amd64(d)),
                        RValue::Immediate(Immediate::I32(k)),
                    ) => (r matches Ok(bytes) && bytes@ == amd64::spec_mov_reg_imm32_bytes(d, k)),
                    (
                        Register::Phys(PhysicalReg::Amd64(d)),
                        RValue::Register(Register::Phys(PhysicalReg::Amd64(v))),
                    ) => (r matches Ok(bytes) && bytes@ == amd64::spec_mov_reg_reg_bytes(d, v)),
                    _ => r is Ok,
                },
                RtlOp::Return(ret) => (r matches Ok(bytes) && bytes@ == (match ret.value {
                    Some(Register::Phys(PhysicalReg::Amd64(v))) => amd64::spec_mov_reg_reg_bytes(
                        amd64::spec_return_reg_for(v.spec_data_ty()),
                        v,
                    ).push(0xc3),
                    _ => seq![0xc3u8],
                })),
            },
    {
        match self {
            RtlOp::Move(mov) => mov.compile_amd64(),
            RtlOp::Return(ret) => Ok(ret.compile_amd64()),
        }
    }
}

/// The registers one operation touches.
pub open spec fn op_regs(op: RtlOp) -> Seq<Register> {
    match op {
        RtlOp::Move(Move { dest, value }) => seq![dest] + (match value {
            RValue::Register(r) => seq![r],
            RValue::Immediate(_) => Seq::empty(),
        }),
        RtlOp::Return(Return { value, .. }) => match value {
            Some(r) => seq![r],
            None => Seq::empty(),
        },
    }
}

/// True when the operation touches the virtual register numbered `id`.
pub open spec fn op_uses_vir(op: RtlOp, id: int) -> bool {
    exists|k: int|
        0 <= k < op_regs(op).len() && ((#[trigger] op_regs(op)[k]) matches Register::Virtual(v)
            && v.id == id)
}

/// True when some operation of the code touches virtual register `id`.
pub open spec fn code_uses_vir(code: Seq<RtlOp>, id: int) -> bool {
    exists|k: int| 0 <= k < code.len() && op_uses_vir(#[trigger] code[k], id)
}

/// True when some operation of the code touches exactly this virtual
/// register, width and all.
pub open spec fn code_has_virreg(code: Seq<RtlOp>, v: VirtualReg) -> bool {
    exists|k: int, t: int|
        0 <= k < code.len() && 0 <= t < op_regs(code[k]).len() && (#[trigger] op_regs(code[k])[t])
            == Register::Virtual(v)
}

/// One when the register is the virtual register numbered `id`, else zero.
pub open spec fn reg_vir_flag(r: Register, id: int) -> int {
    match r {
        Register::Virtual(v) => if v.id == id {
            1int
        } else {
            0int
        },
        Register::Phys(_) => 0int,
    }
}

/// How many of the registers name virtual register `id`.
pub open spec fn count_vir_in(regs: Seq<Register>, id: int) -> int
    decreases regs.len(),
{
    if regs.len() == 0 {
        0
    } else {
        count_vir_in(regs.drop_last(), id) + reg_vir_flag(regs.last(), id)
    }
}

/// How many register slots of the whole code name virtual register `id`.
pub open spec fn code_vir_uses(code: Seq<RtlOp>, id: int) -> int
    decreases code.len(),
{
    if code.len() == 0 {
        0
    } else {
        code_vir_uses(code.drop_last(), id) + count_vir_in(op_regs(code.last()), id)
    }
}

/// A use count as the scanner stores it: it sticks at the machine's largest
/// integer rather than wrapping.
pub open spec fn spec_sat(n: int) -> int {
    if n < usize::MAX as int {
        n
    } else {
        usize::MAX as int
    }
}

proof fn lemma_count_vir_nonneg(regs: Seq<Register>, id: int)
    ensures
        count_vir_in(regs, id) >= 0,
    decreases regs.len(),
{
    if regs.len() > 0 {
        lemma_count_vir_nonneg(regs.drop_last(), id);
    }
}

proof fn lemma_code_vir_uses_nonneg(code: Seq<RtlOp>, id: int)
    ensures
        code_vir_uses(code, id) >= 0,
    decreases code.len(),
{
    if code.len() > 0 {
        lemma_code_vir_uses_nonneg(code.drop_last(), id);
        lemma_count_vir_nonneg(op_regs(code.last()), id);
    }
}

proof fn lemma_count_vir_one(a: Register, id: int)
    ensures
        count_vir_in(seq![a], id) == reg_vir_flag(a, id),
{
    assert(seq![a].drop_last() =~= Seq::<Register>::empty());
    assert(seq![a].last() == a);
    assert(count_vir_in(Seq::<Register>::empty(), id) == 0);
}

proof fn lemma_count_vir_two(a: Register, b: Register, id: int)
    ensures
        count_vir_in(seq![a, b], id) == reg_vir_flag(a, id) + reg_vir_flag(b, id),
{
    assert(seq![a, b].drop_last() =~= seq![a]);
    lemma_count_vir_one(a, id);
}

/// One more operation adds exactly its own occurrences.
proof fn lemma_code_vir_uses_step(code: Seq<RtlOp>, k: int, id: int)
    requires
        0 <= k < code.len(),
    ensures
        code_vir_uses(code.subrange(0, k + 1), id) == code_vir_uses(code.subrange(0, k), id)
            + count_vir_in(op_regs(code[k]), id),
{
    assert(code.subrange(0, k + 1).drop_last() =~= code.subrange(0, k));
    assert(code.subrange(0, k + 1).last() == code[k]);
}

proof fn lemma_count_vir_zero(regs: Seq<Register>, id: int)
    requires
        forall|s: int|
            0 <= s < regs.len() ==> !((#[trigger] regs[s]) matches Register::Virtual(v) && v.id
                == id),
    ensures
        count_vir_in(regs, id) == 0,
    decreases regs.len(),
{
    if regs.len() > 0 {
        lemma_count_vir_zero(regs.drop_last(), id);
        assert(regs.drop_last().len() == regs.len() - 1);
        assert(regs[regs.len() - 1] == regs.last());
    }
}

/// What one scan of a register slot does to the running counts.
spec fn scan_step_ok(
    reg_opt: Option<Register>,
    pre: Seq<(VirtualReg, usize)>,
    post: Seq<(VirtualReg, usize)>,
) -> bool {
    match reg_opt {
        None => post == pre,
        Some(reg) => match reg {
            Register::Phys(_) => post == pre,
            Register::Virtual(v) => {
                &&& post.len() >= pre.len()
                &&& (forall|j: int| 0 <= j < pre.len() ==> (#[trigger] post[j]).0 == pre[j].0)
                &&& (forall|j: int|
                    0 <= j < pre.len() && (#[trigger] pre[j]).0.id != v.id ==> post[j] == pre[j])
                &&& (forall|j: int|
                    0 <= j < pre.len() && (#[trigger] pre[j]).0.id == v.id ==> post.len()
                        == pre.len() && (post[j].1 as int) == spec_sat(pre[j].1 as int + 1))
                &&& ((exists|j: int|
                    0 <= j < pre.len() && (#[trigger] pre[j]).0.id == v.id) || post == pre.push(
                    (v, 1usize),
                ))
                &&& (exists|i: int| 0 <= i < post.len() && (#[trigger] post[i]).0.id == v.id)
            },
        },
    }
}

/// After both slots of one operation are scanned, every stored count equals
/// the saturated number of occurrences over the longer prefix.
proof fn lemma_counts_after_scan(
    code: Seq<RtlOp>,
    kk: int,
    op: RtlOp,
    target: Option<Register>,
    operand: Option<Register>,
    stats0: Seq<(VirtualReg, usize)>,
    stats1: Seq<(VirtualReg, usize)>,
    stats2: Seq<(VirtualReg, usize)>,
)
    requires
        0 <= kk < code.len(),
        code[kk] == op,
        (match op {
            RtlOp::Move(m) => target == Some(m.dest) && (match m.value {
                RValue::Register(r2) => operand == Some(r2),
                RValue::Immediate(_) => operand == None::<Register>,
            }),
            RtlOp::Return(ret2) => target == ret2.value && operand == None::<Register>,
        }),
        forall|i: int|
            0 <= i < stats0.len() ==> ((#[trigger] stats0[i]).1 as int) == spec_sat(
                code_vir_uses(code.subrange(0, kk), stats0[i].0.id as int),
            ),
        forall|id: int|
            code_uses_vir(code.subrange(0, kk), id) ==> exists|i: int|
                0 <= i < stats0.len() && (#[trigger] stats0[i]).0.id == id,
        scan_step_ok(target, stats0, stats1),
        scan_step_ok(operand, stats1, stats2),
    ensures
        forall|i: int|
            0 <= i < stats2.len() ==> ((#[trigger] stats2[i]).1 as int) == spec_sat(
                code_vir_uses(code.subrange(0, kk + 1), stats2[i].0.id as int),
            ),
{
    let sub_prev = code.subrange(0, kk);
    assert forall|i: int|
        0 <= i < stats2.len() implies ((#[trigger] stats2[i]).1 as int) == spec_sat(
        code_vir_uses(code.subrange(0, kk + 1), stats2[i].0.id as int),
    ) by {
        let id = stats2[i].0.id as int;
        lemma_code_vir_uses_step(code, kk, id);
        lemma_code_vir_uses_nonneg(sub_prev, id);
        let c0 = code_vir_uses(sub_prev, id);
        let ft: int = match target {
            Some(Register::Virtual(vt)) => if vt.id == id {
                1int
            } else {
                0int
            },
            _ => 0int,
        };
        let fo: int = match operand {
            Some(Register::Virtual(vo)) => if vo.id == id {
                1int
            } else {
                0int
            },
            _ => 0int,
        };
        match op {
            RtlOp::Move(m) => {
                match m.value {
                    RValue::Register(r2) => {
                        assert(op_regs(op) =~= seq![m.dest, r2]);
                        lemma_count_vir_two(m.dest, r2, id);
                    },
                    RValue::Immediate(_) => {
                        assert(op_regs(op) =~= seq![m.dest]);
                        lemma_count_vir_one(m.dest, id);
                    },
                }
            },
            RtlOp::Return(ret2) => {
                match ret2.value {
                    Some(r2) => {
                        assert(op_regs(op) =~= seq![r2]);
                        lemma_count_vir_one(r2, id);
                    },
                    None => {
                        assert(op_regs(op) =~= Seq::<Register>::empty());
                    },
                }
            },
        }
        assert(count_vir_in(op_regs(op), id) == ft + fo);
        // the state between the two scans, at this entry
        let midlen = stats1.len() as int;
        if i < midlen {
            // the entry existed already; relate it to the loop entry first
            if i < stats0.len() {
                assert(stats1[i].0 == stats0[i].0);
                assert((stats0[i].1 as int) == spec_sat(c0));
                match target {
                    Some(Register::Virtual(vt)) => {
                        if vt.id == id {
                            assert((stats1[i].1 as int) == spec_sat(stats0[i].1 as int + 1));
                        } else {
                            assert(stats1[i] == stats0[i]);
                        }
                    },
                    _ => {
                        assert(stats1[i] == stats0[i]);
                    },
                }
                assert((stats1[i].1 as int) == spec_sat(c0 + ft));
            } else {
                // the first scan pushed it
                match target {
                    Some(Register::Virtual(vt)) => {
                        if exists|j: int|
                            0 <= j < stats0.len() && (#[trigger] stats0[j]).0.id == vt.id {
                            let j = choose|j: int|
                                0 <= j < stats0.len() && (#[trigger] stats0[j]).0.id == vt.id;
                            assert(stats1.len() == stats0.len());
                            assert(false);
                        }
                        assert(stats1 == stats0.push((vt, 1usize)));
                        assert(i == stats0.len() && vt.id == id);
                        if code_uses_vir(sub_prev, id) {
                            let j = choose|j: int|
                                0 <= j < stats0.len() && (#[trigger] stats0[j]).0.id == id;
                            assert(false);
                        }
                        lemma_code_vir_uses_absent(sub_prev, id);
                        assert((stats1[i].1 as int) == spec_sat(c0 + ft));
                    },
                    _ => {
                        assert(false);
                    },
                }
            }
            // then through the second scan
            assert(stats2[i].0 == stats1[i].0);
            match operand {
                Some(Register::Virtual(vo)) => {
                    if vo.id == id {
                        assert((stats2[i].1 as int) == spec_sat(stats1[i].1 as int + 1));
                    } else {
                        assert(stats2[i] == stats1[i]);
                    }
                },
                _ => {
                    assert(stats2[i] == stats1[i]);
                },
            }
            assert((stats2[i].1 as int) == spec_sat(c0 + ft + fo));
        } else {
            // the second scan pushed it
            match operand {
                Some(Register::Virtual(vo)) => {
                    if exists|j: int|
                        0 <= j < stats1.len() && (#[trigger] stats1[j]).0.id == vo.id {
                        let j = choose|j: int|
                            0 <= j < stats1.len() && (#[trigger] stats1[j]).0.id == vo.id;
                        assert(stats2.len() == stats1.len());
                        assert(false);
                    }
                    assert(stats2 == stats1.push((vo, 1usize)));
                    assert(i == midlen && vo.id == id);
                    assert(forall|j: int|
                        0 <= j < stats1.len() ==> (#[trigger] stats1[j]).0.id != id);
                    assert forall|j: int|
                        0 <= j < stats0.len() implies (#[trigger] stats0[j]).0.id != id by {
                        assert(stats1[j].0 == stats0[j].0);
                    }
                    if code_uses_vir(sub_prev, id) {
                        let j = choose|j: int|
                            0 <= j < stats0.len() && (#[trigger] stats0[j]).0.id == id;
                        assert(false);
                    }
                    lemma_code_vir_uses_absent(sub_prev, id);
                    match target {
                        Some(Register::Virtual(vt)) => {
                            if vt.id == id {
                                let j = choose|j: int|
                                    0 <= j < stats1.len() && (#[trigger] stats1[j]).0.id
                                        == vt.id;
                                assert(false);
                            }
                        },
                        _ => {},
                    }
                    assert(ft == 0);
                    assert((stats2[i].1 as int) == spec_sat(c0 + ft + fo));
                },
                _ => {
                    assert(false);
                },
            }
        }
    }
}

/// A register nobody names is used zero times.
proof fn lemma_code_vir_uses_absent(code: Seq<RtlOp>, id: int)
    requires
        !code_uses_vir(code, id),
    ensures
        code_vir_uses(code, id) == 0,
    decreases code.len(),
{
    if code.len() > 0 {
        assert forall|t: int| 0 <= t < code.drop_last().len() implies !op_uses_vir(
            #[trigger] code.drop_last()[t],
            id,
        ) by {
            if op_uses_vir(code.drop_last()[t], id) {
                assert(code[t] == code.drop_last()[t]);
                assert(code_uses_vir(code, id));
            }
        }
        lemma_code_vir_uses_absent(code.drop_last(), id);
        if op_uses_vir(code.last(), id) {
            assert(code[code.len() - 1] == code.last());
            assert(code_uses_vir(code, id));
        }
        assert forall|s: int| 0 <= s < op_regs(code.last()).len() implies !((#[trigger] op_regs(
            code.last(),
        )[s]) matches Register::Virtual(v) && v.id == id) by {
            if op_regs(code.last())[s] matches Register::Virtual(v) && v.id == id {
                assert(op_uses_vir(code.last(), id));
            }
        }
        lemma_count_vir_zero(op_regs(code.last()), id);
    }
}

/// True when some operation of the code touches the physical register.
pub open spec fn code_uses_phys(code: Seq<RtlOp>, p: PhysicalReg) -> bool {
    exists|k: int, t: int|
        0 <= k < code.len() && 0 <= t < op_regs(code[k]).len() && (#[trigger] op_regs(
            code[k],
        )[t]) == Register::Phys(p)
}


/// The first mapping for id `id`, scanning from the front.
pub open spec fn spec_lookup(ms: Seq<(VirtualReg, PhysicalReg)>, id: int) -> Option<PhysicalReg>
    decreases ms.len(),
{
    if ms.len() == 0 {
        None
    } else if ms.first().0.id == id {
        Some(ms.first().1)
    } else {
        spec_lookup(ms.drop_first(), id)
    }
}

/// One register after the rewrite: a virtual register becomes its mapped
/// physical register, everything else stays.
pub open spec fn spec_rewrite_reg(reg: Register, ms: Seq<(VirtualReg, PhysicalReg)>) -> Register {
    match reg {
        Register::Virtual(vir) => match spec_lookup(ms, vir.id as int) {
            Some(p) => Register::Phys(p),
            None => reg,
        },
        Register::Phys(_) => reg,
    }
}

pub open spec fn spec_rewrite_rvalue(rv: RValue, ms: Seq<(VirtualReg, PhysicalReg)>) -> RValue {
    match rv {
        RValue::Register(reg) => RValue::Register(spec_rewrite_reg(reg, ms)),
        RValue::Immediate(_) => rv,
    }
}

/// One operation after the rewrite.
pub open spec fn spec_rewrite_rtlop(op: RtlOp, ms: Seq<(VirtualReg, PhysicalReg)>) -> RtlOp {
    match op {
        RtlOp::Move(Move { dest, value }) => RtlOp::Move(
            Move { dest: spec_rewrite_reg(dest, ms), value: spec_rewrite_rvalue(value, ms) },
        ),
        RtlOp::Return(Return { value, cc }) => RtlOp::Return(
            Return {
                value: match value {
                    Some(reg) => Some(spec_rewrite_reg(reg, ms)),
                    None => None,
                },
                cc,
            },
        ),
    }
}

/// Scans the code and reports every virtual register with its use count, in
/// first-use order, and every pre-assigned physical register.
#[verifier::loop_isolation(false)]
#[verifier::rlimit(100)]
pub fn analyze(code: &Vec<RtlOp>) -> (r: (Vec<(VirtualReg, usize)>, Vec<PhysicalReg>))
    ensures
        r.0@.len() <= 2 * code@.len(),
        forall|a: int, b: int|
            0 <= a < b < r.0@.len() ==> (#[trigger] r.0@[a]).0.id != (#[trigger] r.0@[b]).0.id,
        forall|i: int| 0 <= i < r.0@.len() ==> code_has_virreg(code@, (#[trigger] r.0@[i]).0),
        forall|id: int|
            code_uses_vir(code@, id) ==> exists|i: int|
                0 <= i < r.0@.len() && (#[trigger] r.0@[i]).0.id == id,
        forall|p: PhysicalReg| r.1@.contains(p) <==> code_uses_phys(code@, p),
        // each count is exact: the number of register slots naming the
        // register, held at the machine's largest integer
        forall|i: int|
            0 <= i < r.0@.len() ==> ((#[trigger] r.0@[i]).1 as int) == spec_sat(
                code_vir_uses(code@, r.0@[i].0.id as int),
            ),
{
    let mut stats: Vec<(VirtualReg, usize)> = Vec::new();
    let mut preoccupied: Vec<PhysicalReg> = Vec::new();
    let mut k: usize = 0;
    while k < code.len()
        invariant
            0 <= k <= code@.len(),
            stats@.len() <= 2 * k,
            forall|a: int, b: int|
                0 <= a < b < stats@.len() ==> (#[trigger] stats@[a]).0.id != (
                #[trigger] stats@[b]).0.id,
            forall|i: int|
                0 <= i < stats@.len() ==> code_has_virreg(code@, (#[trigger] stats@[i]).0),
            forall|id: int|
                code_uses_vir(code@.subrange(0, k as int), id) ==> exists|i: int|
                    0 <= i < stats@.len() && (#[trigger] stats@[i]).0.id == id,
            forall|p: PhysicalReg|
                preoccupied@.contains(p) <==> code_uses_phys(code@.subrange(0, k as int), p),
            forall|i: int|
                0 <= i < stats@.len() ==> ((#[trigger] stats@[i]).1 as int) == spec_sat(
                    code_vir_uses(code@.subrange(0, k as int), stats@[i].0.id as int),
                ),
        decreases code@.len() - k,
    {
        let op = code[k];
        let (target, operand) = match op {
            RtlOp::Move(m) => (Some(m.dest), match m.value {
                RValue::Register(r2) => Some(r2),
                RValue::Immediate(_) => None,
            }),
            RtlOp::Return(ret) => (ret.value, None),
        };
        proof {
            match op {
                RtlOp::Move(m) => {
                    assert(op_regs(op)[0] == m.dest);
                    match m.value {
                        RValue::Register(r2) => {
                            assert(op_regs(op)[1] == r2);
                        },
                        RValue::Immediate(_) => {},
                    }
                },
                RtlOp::Return(ret) => {
                    match ret.value {
                        Some(r2) => {
                            assert(op_regs(op)[0] == r2);
                        },
                        None => {},
                    }
                },
            }
        }
        let ghost stats0 = stats@;
        match target {
            Some(reg) => {
                note_usage(&mut stats, &mut preoccupied, reg, Ghost(code@), Ghost(k as int), Ghost(0));
            },
            None => {},
        }
        let ghost stats1 = stats@;
        match operand {
            Some(reg) => {
                note_usage(&mut stats, &mut preoccupied, reg, Ghost(code@), Ghost(k as int), Ghost(1));
            },
            None => {},
        }
        k = k + 1;
        proof {
            assert forall|id: int|
                code_uses_vir(code@.subrange(0, k as int), id) implies exists|i: int|
                0 <= i < stats@.len() && (#[trigger] stats@[i]).0.id == id by {
                let sub = code@.subrange(0, k as int);
                let t = choose|t: int| 0 <= t < sub.len() && op_uses_vir(#[trigger] sub[t], id);
                assert(sub[t] == code@[t]);
                if t < k - 1 {
                    assert(code@.subrange(0, k as int - 1)[t] == code@[t]);
                    assert(code_uses_vir(code@.subrange(0, k as int - 1), id));
                } else {
                    let s = choose|s: int|
                        0 <= s < op_regs(op).len() && ((#[trigger] op_regs(op)[s]) matches
                            Register::Virtual(v) && v.id == id);
                }
            }
            let ghost sub_prev = code@.subrange(0, k as int - 1);
            let ghost sub_now = code@.subrange(0, k as int);
            assert forall|p: PhysicalReg|
                preoccupied@.contains(p) <==> code_uses_phys(sub_now, p) by {
                if preoccupied@.contains(p) {
                    if code_uses_phys(sub_prev, p) {
                        let (t, s): (int, int) = choose|t: int, s: int|
                            0 <= t < sub_prev.len() && 0 <= s < op_regs(sub_prev[t]).len() && (
                            #[trigger] op_regs(sub_prev[t])[s]) == Register::Phys(p);
                        assert(sub_now[t] == sub_prev[t]);
                        assert(code_uses_phys(sub_now, p));
                    } else {
                        // it was noted while scanning this operation
                        let s = choose|s: int|
                            0 <= s < op_regs(op).len() && (#[trigger] op_regs(op)[s])
                                == Register::Phys(p);
                        assert(sub_now[k - 1] == op);
                        assert(code_uses_phys(sub_now, p));
                    }
                }
                if code_uses_phys(sub_now, p) {
                    let (t, s): (int, int) = choose|t: int, s: int|
                        0 <= t < sub_now.len() && 0 <= s < op_regs(sub_now[t]).len() && (
                        #[trigger] op_regs(sub_now[t])[s]) == Register::Phys(p);
                    assert(sub_now[t] == code@[t]);
                    if t < k - 1 {
                        assert(sub_prev[t] == code@[t]);
                        assert(code_uses_phys(sub_prev, p));
                    }
                }
            }
            // each count grew by exactly this operation's occurrences
            assert(scan_step_ok(target, stats0, stats1));
            assert(scan_step_ok(operand, stats1, stats@));
            lemma_counts_after_scan(code@, k as int - 1, op, target, operand, stats0, stats1, stats@);
            assert forall|i: int|
                0 <= i < stats@.len() implies ((#[trigger] stats@[i]).1 as int) == spec_sat(
                code_vir_uses(sub_now, stats@[i].0.id as int),
            ) by {}
        }
    }
    proof {
        assert(code@.subrange(0, code@.len() as int) =~= code@);
        assert forall|id: int|
            code_uses_vir(code@, id) implies exists|i: int|
            0 <= i < stats@.len() && (#[trigger] stats@[i]).0.id == id by {
            assert(code_uses_vir(code@.subrange(0, code@.len() as int), id));
        }
        assert forall|p: PhysicalReg| preoccupied@.contains(p) <==> code_uses_phys(
            code@,
            p,
        ) by {
            assert(preoccupied@.contains(p) <==> code_uses_phys(
                code@.subrange(0, code@.len() as int),
                p,
            ));
        }
    }
    (stats, preoccupied)
}

/// Notes one touched register: a fresh virtual register opens an entry, a
/// seen one bumps its count, a physical one joins the pre-assigned set.
#[verifier::loop_isolation(false)]
fn note_usage(
    stats: &mut Vec<(VirtualReg, usize)>,
    preoccupied: &mut Vec<PhysicalReg>,
    reg: Register,
    Ghost(code): Ghost<Seq<RtlOp>>,
    Ghost(at): Ghost<int>,
    Ghost(slot): Ghost<int>,
)
    requires
        0 <= at < code.len(),
        0 <= slot < op_regs(code[at]).len(),
        op_regs(code[at])[slot] == reg,
        forall|a: int, b: int|
            0 <= a < b < old(stats)@.len() ==> (#[trigger] old(stats)@[a]).0.id != (#[trigger] old(
                stats,
            )@[b]).0.id,
        forall|i: int|
            0 <= i < old(stats)@.len() ==> code_has_virreg(code, (#[trigger] old(stats)@[i]).0),
    ensures
        final(stats)@.len() <= old(stats)@.len() + 1,
        forall|a: int, b: int|
            0 <= a < b < final(stats)@.len() ==> (#[trigger] final(stats)@[a]).0.id != (
            #[trigger] final(stats)@[b]).0.id,
        forall|i: int|
            0 <= i < final(stats)@.len() ==> code_has_virreg(code, (#[trigger] final(stats)@[i]).0),
        forall|i: int|
            0 <= i < old(stats)@.len() ==> exists|j: int|
                0 <= j < final(stats)@.len() && (#[trigger] final(stats)@[j]).0.id == (
                #[trigger] old(stats)@[i]).0.id,
        (match reg {
            Register::Virtual(v) => exists|i: int|
                0 <= i < final(stats)@.len() && (#[trigger] final(stats)@[i]).0.id == v.id,
            Register::Phys(_) => final(stats)@ == old(stats)@,
        }),
        // the exact effect on the counts: a virtual register bumps its own
        // entry, saturating, or starts a fresh entry at one
        (match reg {
            Register::Virtual(v) => {
                &&& final(stats)@.len() >= old(stats)@.len()
                &&& (forall|j: int|
                    0 <= j < old(stats)@.len() ==> (#[trigger] final(stats)@[j]).0 == old(
                        stats,
                    )@[j].0)
                &&& (forall|j: int|
                    0 <= j < old(stats)@.len() && (#[trigger] old(stats)@[j]).0.id != v.id
                        ==> final(stats)@[j] == old(stats)@[j])
                &&& (forall|j: int|
                    0 <= j < old(stats)@.len() && (#[trigger] old(stats)@[j]).0.id == v.id
                        ==> final(stats)@.len() == old(stats)@.len() && (final(stats)@[j].1
                        as int) == spec_sat(old(stats)@[j].1 as int + 1))
                &&& ((exists|j: int|
                    0 <= j < old(stats)@.len() && (#[trigger] old(stats)@[j]).0.id == v.id)
                    || final(stats)@ == old(stats)@.push((v, 1usize)))
            },
            Register::Phys(_) => true,
        }),
        forall|p: PhysicalReg|
            final(preoccupied)@.contains(p) <==> (old(preoccupied)@.contains(p) || (match reg {
                Register::Phys(q) => q == p,
                _ => false,
            })),
{
    let ghost pre_occ = preoccupied@;
    let ghost pre_stats = stats@;
    match reg {
        Register::Phys(q) => {
            preoccupied.push(q);
            proof {
                assert(pre_occ == old(preoccupied)@);
                assert forall|p: PhysicalReg|
                    preoccupied@.contains(p) <==> (old(preoccupied)@.contains(p) || (match reg {
                        Register::Phys(q2) => q2 == p,
                        _ => false,
                    })) by {
                    assert((match reg {
                        Register::Phys(q2) => q2 == p,
                        _ => false,
                    }) == (q == p));
                    if preoccupied@.contains(p) {
                        let i = choose|i: int|
                            0 <= i < preoccupied@.len() && preoccupied@[i] == p;
                        if i < pre_occ.len() {
                            assert(pre_occ[i] == p);
                            assert(old(preoccupied)@.contains(p));
                        }
                    }
                    if pre_occ.contains(p) {
                        let i = choose|i: int| 0 <= i < pre_occ.len() && pre_occ[i] == p;
                        assert(preoccupied@[i] == p);
                        assert(preoccupied@.contains(p));
                    }
                    if q == p {
                        assert(preoccupied@[preoccupied@.len() - 1] == p);
                        assert(preoccupied@.contains(p));
                    }
                }
            }
        },
        Register::Virtual(vir) => {
            proof {
                assert(op_uses_vir(code[at], vir.id as int));
                assert(code_uses_vir(code, vir.id as int));
                assert(code_has_virreg(code, vir));
            }
            let mut i: usize = 0;
            let mut found = false;
            let mut at_pos: usize = 0;
            while i < stats.len()
                invariant
                    0 <= i <= stats@.len(),
                    stats@ == pre_stats,
                    !found ==> forall|t: int|
                        0 <= t < i ==> (#[trigger] stats@[t]).0.id != vir.id,
                    found ==> 0 <= at_pos < stats@.len() && stats@[at_pos as int].0.id == vir.id,
                decreases stats@.len() - i,
            {
                if !found && stats[i].0.id == vir.id {
                    found = true;
                    at_pos = i;
                }
                i = i + 1;
            }
            let i = at_pos;
            if found {
                let (v0, count) = stats[i];
                let bumped = if count < usize::MAX {
                    count + 1
                } else {
                    count
                };
                stats.set(i, (v0, bumped));
                proof {
                    assert(stats@[i as int].0.id == vir.id);
                    assert forall|a: int, b: int|
                        0 <= a < b < stats@.len() implies (#[trigger] stats@[a]).0.id != (
                    #[trigger] stats@[b]).0.id by {
                        assert(stats@[a].0 == pre_stats[a].0);
                        assert(stats@[b].0 == pre_stats[b].0);
                    }
                }
            } else {
                stats.push((vir, 1));
                proof {
                    assert(stats@[stats@.len() - 1].0.id == vir.id);
                    assert forall|a: int, b: int|
                        0 <= a < b < stats@.len() implies (#[trigger] stats@[a]).0.id != (
                    #[trigger] stats@[b]).0.id by {
                        if b < stats@.len() - 1 {
                            assert(stats@[a].0 == pre_stats[a].0);
                            assert(stats@[b].0 == pre_stats[b].0);
                        } else {
                            assert(stats@[a].0 == pre_stats[a].0);
                        }
                    }
                }
            }
            proof {
                assert forall|t: int|
                    0 <= t < pre_stats.len() implies exists|j: int|
                    0 <= j < stats@.len() && (#[trigger] stats@[j]).0.id == (
                    #[trigger] pre_stats[t]).0.id by {
                    assert(stats@[t].0.id == pre_stats[t].0.id);
                }
            }
        },
    }
}

/// True when `p` is a machine register whose encoding id is `id`, at any
/// width.
pub open spec fn phys_id_is(p: PhysicalReg, id: u8) -> bool {
    match p {
        PhysicalReg::Amd64(u) => u.spec_id() == id,
        PhysicalReg::Stack(_) => false,
    }
}

/// True when the list holds a machine register of this encoding id, at any
/// width.
pub open spec fn seq_id_clash(s: Seq<PhysicalReg>, reg: amd64::Reg) -> bool {
    exists|t: int| 0 <= t < s.len() && #[trigger] phys_id_is(s[t], reg.spec_id())
}

/// The physical registers of the mappings, in order.
pub open spec fn spec_phys_of(ms: Seq<(VirtualReg, PhysicalReg)>) -> Seq<PhysicalReg> {
    ms.map_values(|m: (VirtualReg, PhysicalReg)| m.1)
}

/// At step `i` of an allocation the encoding id of `reg` is already spoken
/// for: some register of the same id, at any width, is pre-assigned in the
/// code or was chosen by an earlier mapping.
pub open spec fn reg_id_taken(
    code: Seq<RtlOp>,
    ms: Seq<(VirtualReg, PhysicalReg)>,
    i: int,
    reg: amd64::Reg,
) -> bool {
    (exists|w: amd64::Reg|
        w.spec_id() == reg.spec_id() && #[trigger] code_uses_phys(code, PhysicalReg::Amd64(w)))
        || (exists|j: int| 0 <= j < i && #[trigger] phys_id_is(ms[j].1, reg.spec_id()))
}

/// Register `reg` can serve mapping `i`: its width is the register's and its
/// encoding id is still free at that step.
pub open spec fn reg_fits(
    code: Seq<RtlOp>,
    ms: Seq<(VirtualReg, PhysicalReg)>,
    i: int,
    reg: amd64::Reg,
) -> bool {
    reg.spec_data_ty() == ms[i].0.data_ty && !reg_id_taken(code, ms, i, reg)
}

/// Register `reg` would do for `vir` against an exclusion list: same width,
/// and no listed register shares its encoding id.
pub open spec fn spec_palette_ok(unav: Seq<PhysicalReg>, vir: VirtualReg, reg: amd64::Reg) -> bool {
    reg.spec_data_ty() == vir.data_ty && !seq_id_clash(unav, reg)
}

/// Whether an id is taken at step `i` depends only on the first `i` mappings.
proof fn lemma_taken_stable(
    code: Seq<RtlOp>,
    ms1: Seq<(VirtualReg, PhysicalReg)>,
    ms2: Seq<(VirtualReg, PhysicalReg)>,
    i: int,
    reg: amd64::Reg,
)
    requires
        0 <= i <= ms1.len(),
        i <= ms2.len(),
        forall|j: int| 0 <= j < i ==> ms1[j] == ms2[j],
    ensures
        reg_id_taken(code, ms1, i, reg) == reg_id_taken(code, ms2, i, reg),
{
    if exists|j: int| 0 <= j < i && #[trigger] phys_id_is(ms1[j].1, reg.spec_id()) {
        let j = choose|j: int| 0 <= j < i && #[trigger] phys_id_is(ms1[j].1, reg.spec_id());
        assert(phys_id_is(ms2[j].1, reg.spec_id()));
    }
    if exists|j: int| 0 <= j < i && #[trigger] phys_id_is(ms2[j].1, reg.spec_id()) {
        let j = choose|j: int| 0 <= j < i && #[trigger] phys_id_is(ms2[j].1, reg.spec_id());
        assert(phys_id_is(ms1[j].1, reg.spec_id()));
    }
}

/// With the pre-assigned registers listed exactly, an id is taken at the end
/// of the mappings exactly when the combined exclusion list clashes with it.
proof fn lemma_taken_is_clash(
    code: Seq<RtlOp>,
    preocc: Seq<PhysicalReg>,
    ms: Seq<(VirtualReg, PhysicalReg)>,
    reg: amd64::Reg,
)
    requires
        forall|p: PhysicalReg| preocc.contains(p) <==> code_uses_phys(code, p),
    ensures
        reg_id_taken(code, ms, ms.len() as int, reg) == seq_id_clash(
            preocc + spec_phys_of(ms),
            reg,
        ),
{
    let all = preocc + spec_phys_of(ms);
    if reg_id_taken(code, ms, ms.len() as int, reg) {
        if exists|w: amd64::Reg|
            w.spec_id() == reg.spec_id() && #[trigger] code_uses_phys(
                code,
                PhysicalReg::Amd64(w),
            ) {
            let w = choose|w: amd64::Reg|
                w.spec_id() == reg.spec_id() && #[trigger] code_uses_phys(
                    code,
                    PhysicalReg::Amd64(w),
                );
            assert(preocc.contains(PhysicalReg::Amd64(w)));
            let t = choose|t: int|
                0 <= t < preocc.len() && preocc[t] == PhysicalReg::Amd64(w);
            assert(all[t] == preocc[t]);
            assert(phys_id_is(all[t], reg.spec_id()));
        } else {
            let j = choose|j: int|
                0 <= j < ms.len() && #[trigger] phys_id_is(ms[j].1, reg.spec_id());
            assert(all[preocc.len() + j] == spec_phys_of(ms)[j]);
            assert(spec_phys_of(ms)[j] == ms[j].1);
            assert(phys_id_is(all[preocc.len() + j], reg.spec_id()));
        }
        assert(seq_id_clash(all, reg));
    }
    if seq_id_clash(all, reg) {
        let t = choose|t: int| 0 <= t < all.len() && #[trigger] phys_id_is(all[t], reg.spec_id());
        if t < preocc.len() {
            assert(all[t] == preocc[t]);
            match preocc[t] {
                PhysicalReg::Amd64(w) => {
                    assert(preocc.contains(PhysicalReg::Amd64(w)));
                    assert(code_uses_phys(code, PhysicalReg::Amd64(w)));
                    assert(w.spec_id() == reg.spec_id());
                },
                PhysicalReg::Stack(_) => {
                    assert(false);
                },
            }
        } else {
            let j = t - preocc.len();
            assert(all[t] == spec_phys_of(ms)[j]);
            assert(spec_phys_of(ms)[j] == ms[j].1);
            assert(phys_id_is(ms[j].1, reg.spec_id()));
        }
        assert(reg_id_taken(code, ms, ms.len() as int, reg));
    }
}
/// The finished mappings from virtual to physical registers.
pub struct RegisterAllocator {
    mappings: Vec<(VirtualReg, PhysicalReg)>,
}

impl RegisterAllocator {
    pub closed spec fn spec_mappings(&self) -> Seq<(VirtualReg, PhysicalReg)> {
        self.mappings@
    }

    /// Chooses a physical register or stack slot for every virtual register
    /// of the code, in first-use order, then rewrites the code in place; no
    /// virtual register survives the rewrite.
    #[verifier::loop_isolation(false)]
    pub fn perform_allocations_and_modify(
        code: &mut Vec<RtlOp>,
        stack: &mut StackAllocator,
    ) -> (r: RegisterAllocator)
        requires
            forall|k: int, t: int|
                0 <= k < old(code)@.len() && 0 <= t < op_regs(old(code)@[k]).len() ==> (match (
                #[trigger] op_regs(old(code)@[k])[t]) {
                    Register::Virtual(v) => !(v.data_ty is Custom),
                    _ => true,
                }),
            old(stack).spec_offset() + 8 * (2 * old(code)@.len() + 1) <= usize::MAX,
        ensures
            // the rewrite itself, operation by operation
            final(code)@.len() == old(code)@.len(),
            forall|k: int|
                0 <= k < old(code)@.len() ==> #[trigger] final(code)@[k] == spec_rewrite_rtlop(
                    old(code)@[k],
                    r.spec_mappings(),
                ),
            // totality: every virtual register of the old code is mapped
            forall|id: int|
                code_uses_vir(old(code)@, id) ==> spec_lookup(r.spec_mappings(), id) is Some,
            // so none survives
            forall|k: int, t: int|
                0 <= k < final(code)@.len() && 0 <= t < op_regs(final(code)@[k]).len() ==> !((
                #[trigger] op_regs(final(code)@[k])[t]) is Virtual),
            // a chosen machine register fits its register's width; a stack
            // slot keeps the register's type
            forall|i: int|
                0 <= i < r.spec_mappings().len() ==> (match (#[trigger] r.spec_mappings()[i]).1 {
                    PhysicalReg::Amd64(reg) => reg.spec_data_ty()
                        == r.spec_mappings()[i].0.data_ty,
                    PhysicalReg::Stack(s) => s.spec_ty() == r.spec_mappings()[i].0.data_ty,
                }),
            // a chosen machine register's encoding id is free of the code:
            // no pre-assigned register of any width shares it
            forall|i: int|
                0 <= i < r.spec_mappings().len() ==> (match (#[trigger] r.spec_mappings()[i]).1 {
                    PhysicalReg::Amd64(reg) => forall|w: amd64::Reg|
                        w.spec_id() == reg.spec_id() ==> !(#[trigger] code_uses_phys(
                            old(code)@,
                            PhysicalReg::Amd64(w),
                        )),
                    PhysicalReg::Stack(_) => true,
                }),
            // no two mappings share an encoding id, whatever the widths
            forall|i: int, j: int|
                0 <= i < j < r.spec_mappings().len() ==> (match (
                    (#[trigger] r.spec_mappings()[i]).1,
                    (#[trigger] r.spec_mappings()[j]).1,
                ) {
                    (PhysicalReg::Amd64(a), PhysicalReg::Amd64(b)) => a.spec_id() != b.spec_id(),
                    _ => true,
                }),
            // first fit: each mapping takes the earliest register of the
            // fixed register file that fits at its step, and falls back to a
            // stack slot only when none fits
            forall|i: int|
                0 <= i < r.spec_mappings().len() ==> (match (#[trigger] r.spec_mappings()[i]).1 {
                    PhysicalReg::Amd64(reg) => reg_fits(old(code)@, r.spec_mappings(), i, reg)
                        && (exists|p0: int|
                        #![trigger amd64::spec_registers()[p0]]
                        0 <= p0 < amd64::spec_registers().len() && amd64::spec_registers()[p0]
                            == reg && (forall|q: int|
                            0 <= q < p0 ==> !reg_fits(
                                old(code)@,
                                r.spec_mappings(),
                                i,
                                #[trigger] amd64::spec_registers()[q],
                            ))),
                    PhysicalReg::Stack(_) => forall|q: int|
                        0 <= q < amd64::spec_registers().len() ==> !reg_fits(
                            old(code)@,
                            r.spec_mappings(),
                            i,
                            #[trigger] amd64::spec_registers()[q],
                        ),
                }),
    {
        let (usage, preoccupied) = analyze(code);
        let ghost code0 = code@;
        let ghost preocc = preoccupied@;
        // decide each register in turn
        let mut mappings: Vec<(VirtualReg, PhysicalReg)> = Vec::new();
        let mut unavailable: Vec<PhysicalReg> = preoccupied;
        let mut u: usize = 0;
        proof {
            assert(unavailable@ =~= preocc + spec_phys_of(mappings@));
        }
        while u < usage.len()
            invariant
                0 <= u <= usage@.len(),
                mappings@.len() == u as int,
                forall|i: int| 0 <= i < u ==> (#[trigger] mappings@[i]).0 == usage@[i].0,
                stack.spec_offset() <= old(stack).spec_offset() + 8 * u,
                unavailable@ == preocc + spec_phys_of(mappings@),
                forall|i: int|
                    0 <= i < u ==> (match (#[trigger] mappings@[i]).1 {
                        PhysicalReg::Amd64(reg) => reg.spec_data_ty() == mappings@[i].0.data_ty
                            && !reg_id_taken(code0, mappings@, i, reg),
                        PhysicalReg::Stack(s) => s.spec_ty() == mappings@[i].0.data_ty,
                    }),
                forall|i: int|
                    0 <= i < u ==> (match (#[trigger] mappings@[i]).1 {
                        PhysicalReg::Amd64(reg) => exists|p0: int|
                            #![trigger amd64::spec_registers()[p0]]
                            0 <= p0 < amd64::spec_registers().len() && amd64::spec_registers()[p0]
                                == reg && (forall|q: int|
                                0 <= q < p0 ==> !reg_fits(
                                    code0,
                                    mappings@,
                                    i,
                                    #[trigger] amd64::spec_registers()[q],
                                )),
                        PhysicalReg::Stack(_) => forall|q: int|
                            0 <= q < amd64::spec_registers().len() ==> !reg_fits(
                                code0,
                                mappings@,
                                i,
                                #[trigger] amd64::spec_registers()[q],
                            ),
                    }),
            decreases usage@.len() - u,
        {
            let vir = usage[u].0;
            proof {
                assert(code_has_virreg(code0, vir));
                let (kk, tt): (int, int) = choose|kk: int, tt: int|
                    0 <= kk < code0.len() && 0 <= tt < op_regs(code0[kk]).len() && (
                    #[trigger] op_regs(code0[kk])[tt]) == Register::Virtual(vir);
                assert(!(vir.data_ty is Custom));
            }
            let palette = amd64::registers();
            let mut chosen: Option<amd64::Reg> = None;
            let mut p: usize = 0;
            while p < palette.len()
                invariant
                    0 <= p <= palette@.len(),
                    match chosen {
                        Some(creg) => exists|p0: int|
                            #![trigger palette@[p0]]
                            0 <= p0 < p as int && palette@[p0] == creg && creg.spec_data_ty()
                                == vir.data_ty && !seq_id_clash(unavailable@, creg) && (forall|
                                q: int,
                            |
                                0 <= q < p0 ==> !spec_palette_ok(
                                    unavailable@,
                                    vir,
                                    #[trigger] palette@[q],
                                )),
                        None => forall|q: int|
                            0 <= q < p ==> !spec_palette_ok(
                                unavailable@,
                                vir,
                                #[trigger] palette@[q],
                            ),
                    },
                decreases palette@.len() - p,
            {
                let reg = palette[p];
                if chosen.is_none() && reg.data_ty() == vir.data_ty {
                    let mut taken = false;
                    let mut e: usize = 0;
                    while e < unavailable.len()
                        invariant
                            0 <= e <= unavailable@.len(),
                            taken ==> seq_id_clash(unavailable@, reg),
                            !taken ==> forall|t: int|
                                0 <= t < e ==> !(#[trigger] phys_id_is(
                                    unavailable@[t],
                                    reg.spec_id(),
                                )),
                        decreases unavailable@.len() - e,
                    {
                        match unavailable[e] {
                            PhysicalReg::Amd64(w) => {
                                if w.compile_amd64() == reg.compile_amd64() {
                                    proof {
                                        assert(phys_id_is(
                                            unavailable@[e as int],
                                            reg.spec_id(),
                                        ));
                                    }
                                    taken = true;
                                }
                            },
                            PhysicalReg::Stack(_) => {},
                        }
                        e = e + 1;
                    }
                    if !taken {
                        proof {
                            if seq_id_clash(unavailable@, reg) {
                                let t = choose|t: int|
                                    0 <= t < unavailable@.len() && #[trigger] phys_id_is(
                                        unavailable@[t],
                                        reg.spec_id(),
                                    );
                                assert(false);
                            }
                            assert((p as int) < palette@.len() && palette@[p as int] == reg
                                && reg.spec_data_ty() == vir.data_ty && !seq_id_clash(
                                unavailable@,
                                reg,
                            ) && (forall|q: int|
                                0 <= q < p as int ==> !spec_palette_ok(
                                    unavailable@,
                                    vir,
                                    #[trigger] palette@[q],
                                )));
                        }
                        chosen = Some(reg);
                    } else {
                        proof {
                            assert(seq_id_clash(unavailable@, reg));
                            assert(!spec_palette_ok(unavailable@, vir, reg));
                        }
                    }
                } else {
                    proof {
                        if chosen is None {
                            assert(!spec_palette_ok(unavailable@, vir, reg));
                        }
                    }
                }
                p = p + 1;
            }
            let phys = match chosen {
                Some(reg) => PhysicalReg::Amd64(reg),
                None => {
                    // register pressure: a stack home of the standard width
                    proof {
                        assert(stack.spec_offset() + 8 <= usize::MAX);
                    }
                    stack.allocate(vir.data_ty)
                },
            };
            let ghost ms_old = mappings@;
            let ghost unavailable_pre = unavailable@;
            unavailable.push(phys);
            mappings.push((vir, phys));
            u = u + 1;
            proof {
                let ms_new = mappings@;
                assert(spec_phys_of(ms_new) =~= spec_phys_of(ms_old).push(phys));
                assert(unavailable@ =~= preocc + spec_phys_of(ms_new));
                assert(palette@ == amd64::spec_registers());
                // what fits at the new step is what the palette loop tested
                assert forall|q: int|
                    0 <= q < amd64::spec_registers().len() implies reg_fits(
                    code0,
                    ms_new,
                    u - 1,
                    #[trigger] amd64::spec_registers()[q],
                ) == spec_palette_ok(
                    unavailable_pre,
                    vir,
                    amd64::spec_registers()[q],
                ) by {
                    let w = amd64::spec_registers()[q];
                    lemma_taken_is_clash(code0, preocc, ms_old, w);
                    lemma_taken_stable(code0, ms_old, ms_new, ms_old.len() as int, w);
                    assert(ms_new[u - 1].0.data_ty == vir.data_ty);
                }
                // the decision just made, against the state it was made in
                match chosen {
                    Some(creg) => {
                        assert(phys == PhysicalReg::Amd64(creg));
                        lemma_taken_is_clash(code0, preocc, ms_old, creg);
                        lemma_taken_stable(code0, ms_old, ms_new, ms_old.len() as int, creg);
                        assert(!reg_id_taken(code0, ms_new, u - 1, creg));
                    },
                    None => {},
                }
                // the records of the earlier rounds carry over unchanged
                assert forall|i: int| 0 <= i < u implies (match (#[trigger] ms_new[i]).1 {
                    PhysicalReg::Amd64(reg) => reg.spec_data_ty() == ms_new[i].0.data_ty
                        && !reg_id_taken(code0, ms_new, i, reg),
                    PhysicalReg::Stack(s) => s.spec_ty() == ms_new[i].0.data_ty,
                }) by {
                    if i < u - 1 {
                        assert(ms_new[i] == ms_old[i]);
                        match ms_old[i].1 {
                            PhysicalReg::Amd64(reg) => {
                                lemma_taken_stable(code0, ms_old, ms_new, i, reg);
                            },
                            PhysicalReg::Stack(_) => {},
                        }
                    }
                }
                assert forall|i: int| 0 <= i < u implies (match (#[trigger] ms_new[i]).1 {
                    PhysicalReg::Amd64(reg) => exists|p0: int|
                        #![trigger amd64::spec_registers()[p0]]
                        0 <= p0 < amd64::spec_registers().len() && amd64::spec_registers()[p0]
                            == reg && (forall|q: int|
                            0 <= q < p0 ==> !reg_fits(
                                code0,
                                ms_new,
                                i,
                                #[trigger] amd64::spec_registers()[q],
                            )),
                    PhysicalReg::Stack(_) => forall|q: int|
                        0 <= q < amd64::spec_registers().len() ==> !reg_fits(
                            code0,
                            ms_new,
                            i,
                            #[trigger] amd64::spec_registers()[q],
                        ),
                }) by {
                    if i < u - 1 {
                        assert(ms_new[i] == ms_old[i]);
                        assert forall|q: int|
                            0 <= q < amd64::spec_registers().len() implies reg_fits(
                            code0,
                            ms_new,
                            i,
                            #[trigger] amd64::spec_registers()[q],
                        ) == reg_fits(code0, ms_old, i, amd64::spec_registers()[q]) by {
                            lemma_taken_stable(
                                code0,
                                ms_old,
                                ms_new,
                                i,
                                amd64::spec_registers()[q],
                            );
                        }
                        match ms_old[i].1 {
                            PhysicalReg::Amd64(reg) => {
                                let p0 = choose|p0: int|
                                    #![trigger amd64::spec_registers()[p0]]
                                    0 <= p0 < amd64::spec_registers().len()
                                        && amd64::spec_registers()[p0] == reg && (forall|q: int|
                                        0 <= q < p0 ==> !reg_fits(
                                            code0,
                                            ms_old,
                                            i,
                                            #[trigger] amd64::spec_registers()[q],
                                        ));
                                assert(0 <= p0 < amd64::spec_registers().len()
                                    && amd64::spec_registers()[p0] == reg && (forall|q: int|
                                    0 <= q < p0 ==> !reg_fits(
                                        code0,
                                        ms_new,
                                        i,
                                        #[trigger] amd64::spec_registers()[q],
                                    )));
                            },
                            PhysicalReg::Stack(_) => {},
                        }
                    } else {
                        match chosen {
                            Some(creg) => {
                                let p0 = choose|p0: int|
                                    #![trigger palette@[p0]]
                                    0 <= p0 < palette@.len() && palette@[p0] == creg
                                        && creg.spec_data_ty() == vir.data_ty && !seq_id_clash(
                                        unavailable_pre,
                                        creg,
                                    ) && (forall|q: int|
                                        0 <= q < p0 ==> !spec_palette_ok(
                                            unavailable_pre,
                                            vir,
                                            #[trigger] palette@[q],
                                        ));
                                assert(0 <= p0 < amd64::spec_registers().len()
                                    && amd64::spec_registers()[p0] == creg && (forall|q: int|
                                    0 <= q < p0 ==> !reg_fits(
                                        code0,
                                        ms_new,
                                        i,
                                        #[trigger] amd64::spec_registers()[q],
                                    )));
                            },
                            None => {
                                assert(forall|q: int|
                                    0 <= q < amd64::spec_registers().len()
                                        ==> !spec_palette_ok(
                                        unavailable_pre,
                                        vir,
                                        #[trigger] amd64::spec_registers()[q],
                                    ));
                            },
                        }
                    }
                }
            }
        }
        proof {
            // every encoding id that a mapping took was free of the code
            assert forall|i: int|
                0 <= i < mappings@.len() implies (match (#[trigger] mappings@[i]).1 {
                PhysicalReg::Amd64(reg) => forall|w: amd64::Reg|
                    w.spec_id() == reg.spec_id() ==> !(#[trigger] code_uses_phys(
                        code0,
                        PhysicalReg::Amd64(w),
                    )),
                PhysicalReg::Stack(_) => true,
            }) by {
                match mappings@[i].1 {
                    PhysicalReg::Amd64(reg) => {
                        assert forall|w: amd64::Reg|
                            w.spec_id() == reg.spec_id() implies !(#[trigger] code_uses_phys(
                            code0,
                            PhysicalReg::Amd64(w),
                        )) by {
                            if code_uses_phys(code0, PhysicalReg::Amd64(w)) {
                                assert(reg_id_taken(code0, mappings@, i, reg));
                            }
                        }
                    },
                    PhysicalReg::Stack(_) => {},
                }
            }
            // and no two mappings share one
            assert forall|i: int, j: int|
                0 <= i < j < mappings@.len() implies (match ((#[trigger] mappings@[i]).1, (
            #[trigger] mappings@[j]).1) {
                (PhysicalReg::Amd64(a), PhysicalReg::Amd64(b)) => a.spec_id() != b.spec_id(),
                _ => true,
            }) by {
                match (mappings@[i].1, mappings@[j].1) {
                    (PhysicalReg::Amd64(a), PhysicalReg::Amd64(b)) => {
                        if a.spec_id() == b.spec_id() {
                            assert(phys_id_is(mappings@[i].1, b.spec_id()));
                            assert(reg_id_taken(code0, mappings@, j, b));
                        }
                    },
                    _ => {},
                }
            }
            assert forall|id: int|
                code_uses_vir(code0, id) implies spec_lookup(mappings@, id) is Some by {
                let i = choose|i: int| 0 <= i < usage@.len() && (#[trigger] usage@[i]).0.id == id;
                assert(mappings@[i].0.id == id);
                lemma_lookup_finds(mappings@, id, i);
            }
        }
        // rewrite every operation against the finished mappings
        let mut k: usize = 0;
        while k < code.len()
            invariant
                0 <= k <= code@.len(),
                code@.len() == code0.len(),
                forall|t: int| k <= t < code0.len() ==> #[trigger] code@[t] == code0[t],
                forall|t: int|
                    0 <= t < k ==> #[trigger] code@[t] == spec_rewrite_rtlop(
                        code0[t],
                        mappings@,
                    ),
            decreases code@.len() - k,
        {
            let op = code[k];
            let rewritten = rewrite_op(op, &mappings);
            code.set(k, rewritten);
            k = k + 1;
        }
        proof {
            assert forall|k2: int, t: int|
                0 <= k2 < code@.len() && 0 <= t < op_regs(code@[k2]).len() implies !((
            #[trigger] op_regs(code@[k2])[t]) is Virtual) by {
                let former = code0[k2];
                assert(code@[k2] == spec_rewrite_rtlop(former, mappings@));
                lemma_rewrite_kills_virtuals(former, mappings@, t);
                if op_regs(code@[k2])[t] is Virtual {
                    let v = (op_regs(former)[t])->Virtual_0;
                    assert(op_uses_vir(former, v.id as int));
                    assert(code_uses_vir(code0, v.id as int));
                    assert(spec_lookup(mappings@, v.id as int) is Some);
                    assert(false);
                }
            }
        }
        RegisterAllocator { mappings }
    }
}

/// A mapping whose position `i` carries `id` makes the lookup succeed.
proof fn lemma_lookup_finds(ms: Seq<(VirtualReg, PhysicalReg)>, id: int, i: int)
    requires
        0 <= i < ms.len(),
        ms[i].0.id == id,
    ensures
        spec_lookup(ms, id) is Some,
    decreases ms.len(),
{
    if ms.first().0.id == id {
    } else {
        assert(i != 0);
        assert(ms.drop_first()[i - 1] == ms[i]);
        lemma_lookup_finds(ms.drop_first(), id, i - 1);
    }
}

/// After the rewrite, a slot holds a virtual register only if its id had no
/// mapping.
proof fn lemma_rewrite_kills_virtuals(op: RtlOp, ms: Seq<(VirtualReg, PhysicalReg)>, t: int)
    requires
        0 <= t < op_regs(spec_rewrite_rtlop(op, ms)).len(),
    ensures
        op_regs(spec_rewrite_rtlop(op, ms)).len() == op_regs(op).len(),
        (op_regs(spec_rewrite_rtlop(op, ms))[t] is Virtual) ==> op_regs(op)[t] is Virtual
            && spec_lookup(ms, (op_regs(op)[t])->Virtual_0.id as int) is None,
        (op_regs(op)[t] is Virtual) ==> op_uses_vir(op, (op_regs(op)[t])->Virtual_0.id as int),
{
    let rew = spec_rewrite_rtlop(op, ms);
    match op {
        RtlOp::Move(Move { dest, value }) => {
            assert(op_regs(rew)[0] == spec_rewrite_reg(dest, ms));
            match value {
                RValue::Register(r2) => {
                    assert(op_regs(rew)[1] == spec_rewrite_reg(r2, ms));
                    assert(op_regs(op)[1] == r2);
                },
                RValue::Immediate(_) => {},
            }
            assert(op_regs(op)[0] == dest);
        },
        RtlOp::Return(Return { value, .. }) => {
            match value {
                Some(r2) => {
                    assert(op_regs(rew)[0] == spec_rewrite_reg(r2, ms));
                    assert(op_regs(op)[0] == r2);
                },
                None => {},
            }
        },
    }
    if op_regs(op)[t] is Virtual {
        let v = (op_regs(op)[t])->Virtual_0;
        assert(op_uses_vir(op, v.id as int));
    }
}

/// Looks up the mapping for one register and rewrites it.
#[verifier::loop_isolation(false)]
fn rewrite_reg(reg: Register, mappings: &Vec<(VirtualReg, PhysicalReg)>) -> (r: Register)
    ensures
        r == spec_rewrite_reg(reg, mappings@),
{
    match reg {
        Register::Virtual(vir) => {
            let mut i: usize = 0;
            while i < mappings.len()
                invariant
                    0 <= i <= mappings@.len(),
                    forall|t: int| 0 <= t < i ==> (#[trigger] mappings@[t]).0.id != vir.id,
                decreases mappings@.len() - i,
            {
                if mappings[i].0.id == vir.id {
                    proof {
                        lemma_lookup_at(mappings@, vir.id as int, i as int);
                    }
                    return Register::Phys(mappings[i].1);
                }
                i = i + 1;
            }
            proof {
                lemma_lookup_misses(mappings@, vir.id as int);
            }
            reg
        },
        Register::Phys(_) => reg,
    }
}

/// The lookup returns the first matching position's value.
proof fn lemma_lookup_at(ms: Seq<(VirtualReg, PhysicalReg)>, id: int, i: int)
    requires
        0 <= i < ms.len(),
        ms[i].0.id == id,
        forall|t: int| 0 <= t < i ==> (#[trigger] ms[t]).0.id != id,
    ensures
        spec_lookup(ms, id) == Some(ms[i].1),
    decreases ms.len(),
{
    if ms.first().0.id == id {
        assert(i == 0);
    } else {
        assert(ms.drop_first()[i - 1] == ms[i]);
        assert forall|t: int| 0 <= t < i - 1 implies (#[trigger] ms.drop_first()[t]).0.id != id by {
            assert(ms.drop_first()[t] == ms[t + 1]);
        }
        lemma_lookup_at(ms.drop_first(), id, i - 1);
    }
}

/// The lookup fails when no position matches.
proof fn lemma_lookup_misses(ms: Seq<(VirtualReg, PhysicalReg)>, id: int)
    requires
        forall|t: int| 0 <= t < ms.len() ==> (#[trigger] ms[t]).0.id != id,
    ensures
        spec_lookup(ms, id) is None,
    decreases ms.len(),
{
    if ms.len() > 0 {
        assert forall|t: int| 0 <= t < ms.drop_first().len() implies (
        #[trigger] ms.drop_first()[t]).0.id != id by {
            assert(ms.drop_first()[t] == ms[t + 1]);
        }
        lemma_lookup_misses(ms.drop_first(), id);
    }
}

/// Rewrites one operation against the finished mappings.
fn rewrite_op(op: RtlOp, mappings: &Vec<(VirtualReg, PhysicalReg)>) -> (r: RtlOp)
    ensures
        r == spec_rewrite_rtlop(op, mappings@),
{
    match op {
        RtlOp::Move(Move { dest, value }) => RtlOp::Move(
            Move {
                dest: rewrite_reg(dest, mappings),
                value: match value {
                    RValue::Register(r2) => RValue::Register(rewrite_reg(r2, mappings)),
                    RValue::Immediate(imm) => RValue::Immediate(imm),
                },
            },
        ),
        RtlOp::Return(Return { value, cc }) => RtlOp::Return(
            Return {
                value: match value {
                    Some(r2) => Some(rewrite_reg(r2, mappings)),
                    None => None,
                },
                cc,
            },
        ),
    }
}

} // verus!
