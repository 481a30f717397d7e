//! Machine code generation for the register-transfer expressions, and the
//! pattern matcher that recognises instruction shapes with template
//! placeholders.
use vstd::prelude::*;
use crate::grtl::{
    AccessMode, DestinationExpr, ImmediateExpr, Instruction, MemoryExpr, RegisterExpr, Return,
    Rtx, Template, Transfer,
};
use crate::x86_64;
use crate::x86_64::BitMode;

verus! {

/// An operand already expressed in machine terms.
#[derive(Debug, Copy, Clone, PartialEq, Eq, Structural)]
pub enum MachineExpr {
    Immediate(x86_64::Immediate, BitMode),
    Register(x86_64::Register, BitMode),
}

/// The machine width of an access mode; single bits have none.
pub open spec fn spec_bitmode(accsmode: AccessMode) -> BitMode {
    match accsmode {
        AccessMode::BI => BitMode::NA,
        AccessMode::QI => BitMode::Bit8,
        AccessMode::HI => BitMode::Bit16,
        AccessMode::SI => BitMode::Bit32,
        AccessMode::PSI => BitMode::Bit32,
        AccessMode::DI => BitMode::Bit64,
    }
}

pub fn bitmode_from_accsmode(accsmode: AccessMode) -> (r: BitMode)
    requires
        accsmode != AccessMode::BI,
    ensures
        r == spec_bitmode(accsmode),
{
    match accsmode {
        AccessMode::BI => unreached(),
        AccessMode::QI => BitMode::Bit8,
        AccessMode::HI => BitMode::Bit16,
        AccessMode::SI => BitMode::Bit32,
        AccessMode::PSI => BitMode::Bit32,
        AccessMode::DI => BitMode::Bit64,
    }
}

pub fn mcexpr_from_regexpr(regexpr: &RegisterExpr) -> (r: MachineExpr)
    requires
        regexpr.spec_reg().spec_machine_register() is Some,
        regexpr.spec_mode() != AccessMode::BI,
    ensures
        (match regexpr.spec_reg().spec_machine_register() {
            Some(crate::grtl::MachineRegister::x86_64(m)) => r == MachineExpr::Register(
                m,
                spec_bitmode(regexpr.spec_mode()),
            ),
            None => false,
        }),
{
    let m = match regexpr.reg().x86_64_machine_register() {
        Some(m) => m,
        None => unreached(),
    };
    MachineExpr::Register(m, bitmode_from_accsmode(regexpr.mode()))
}

pub fn mcexpr_from_immexpr(immexpr: &ImmediateExpr) -> (r: MachineExpr)
    requires
        !(immexpr is Template),
    ensures
        (match *immexpr {
            ImmediateExpr::Int32(v) => r == MachineExpr::Immediate(
                x86_64::Immediate::Int32(v as u32),
                BitMode::Bit32,
            ),
            ImmediateExpr::UInt32(v) => r == MachineExpr::Immediate(
                x86_64::Immediate::Int32(v),
                BitMode::Bit32,
            ),
            ImmediateExpr::Template(_) => false,
        }),
{
    let imm = match immexpr {
        ImmediateExpr::Int32(val) => x86_64::Immediate::Int32(*val as u32),
        ImmediateExpr::UInt32(val) => x86_64::Immediate::Int32(*val),
        ImmediateExpr::Template(_) => unreached(),
    };
    MachineExpr::Immediate(imm, bitmode_from_accsmode(immexpr.as_access_mode()))
}

pub fn mcexpr_from_destination(destexpr: &DestinationExpr) -> (r: MachineExpr)
    requires
        destexpr matches DestinationExpr::Register(reg) && reg.spec_reg().spec_machine_register()
            is Some && reg.spec_mode() != AccessMode::BI,
    ensures
        (match *destexpr {
            DestinationExpr::Register(reg) => (match reg.spec_reg().spec_machine_register() {
                Some(crate::grtl::MachineRegister::x86_64(m)) => r == MachineExpr::Register(
                    m,
                    spec_bitmode(reg.spec_mode()),
                ),
                None => false,
            }),
            _ => false,
        }),
{
    match destexpr {
        DestinationExpr::Register(reg) => mcexpr_from_regexpr(reg),
        _ => unreached(),
    }
}

/// When a transfer can be turned into one machine instruction: its
/// destination is a machine register, its source is a machine register or a
/// plain immediate, and the widths agree.
pub open spec fn transfer_codegen_ok(destination: DestinationExpr, source: Rtx) -> bool {
    &&& destination matches DestinationExpr::Register(dr)
        && dr.spec_reg().spec_machine_register() is Some && dr.spec_mode() != AccessMode::BI
    &&& match source {
        Rtx::Destination(sd) => sd matches DestinationExpr::Register(sr)
            && sr.spec_reg().spec_machine_register() is Some && sr.spec_mode() != AccessMode::BI
            && (destination matches DestinationExpr::Register(dr2) ==> spec_bitmode(
            dr2.spec_mode(),
        ) == spec_bitmode(sr.spec_mode())),
        Rtx::Immediate(si) => !(si is Template) && (destination matches DestinationExpr::Register(
            dr2,
        ) ==> spec_bitmode(dr2.spec_mode()) == BitMode::Bit32),
    }
}

/// The machine instruction one transfer becomes.
pub open spec fn spec_codegen_transfer(destination: DestinationExpr, source: Rtx) -> x86_64::Instruction {
    match destination {
        DestinationExpr::Register(dr) => {
            let dm = spec_bitmode(dr.spec_mode());
            let dreg = match dr.spec_reg().spec_machine_register() {
                Some(crate::grtl::MachineRegister::x86_64(m)) => m,
                None => x86_64::Register::al,
            };
            match source {
                Rtx::Destination(DestinationExpr::Register(sr)) => {
                    let sreg = match sr.spec_reg().spec_machine_register() {
                        Some(crate::grtl::MachineRegister::x86_64(m)) => m,
                        None => x86_64::Register::al,
                    };
                    x86_64::spec_mov_reg_reg(dm, dreg, sreg)
                },
                Rtx::Immediate(ImmediateExpr::Int32(v)) => x86_64::spec_mov_reg_imm(
                    dm,
                    dreg,
                    x86_64::Immediate::Int32(v as u32),
                ),
                Rtx::Immediate(ImmediateExpr::UInt32(v)) => x86_64::spec_mov_reg_imm(
                    dm,
                    dreg,
                    x86_64::Immediate::Int32(v),
                ),
                _ => x86_64::spec_retn(BitMode::Bit64),
            }
        },
        _ => x86_64::spec_retn(BitMode::Bit64),
    }
}

/// Emits the one machine instruction of a transfer.
pub fn codegen_instruction_transfer(out: &mut Vec<x86_64::Instruction>, ins: Transfer)
    requires
        transfer_codegen_ok(ins.spec_destination(), ins.spec_source()),
    ensures
        final(out)@ == old(out)@.push(
            spec_codegen_transfer(ins.spec_destination(), ins.spec_source()),
        ),
{
    let mcexpr_destination = mcexpr_from_destination(ins.destination());
    let mcexpr_source = match ins.source() {
        Rtx::Destination(source) => mcexpr_from_destination(source),
        Rtx::Immediate(imm) => mcexpr_from_immexpr(imm),
    };
    let x86_64_ins = match (mcexpr_destination, mcexpr_source) {
        (MachineExpr::Register(dest_reg, dest_mode), MachineExpr::Immediate(source_imm, _)) => {
            x86_64::mov_reg_imm(dest_mode, dest_reg, source_imm)
        },
        (MachineExpr::Register(dest_reg, dest_mode), MachineExpr::Register(source_reg, _)) => {
            x86_64::mov_reg_reg(dest_mode, dest_reg, source_reg)
        },
        (MachineExpr::Immediate(..), _) => unreached(),
    };
    out.push(x86_64_ins);
}

/// Emits the near return of a function.
pub fn codegen_instruction_return(out: &mut Vec<x86_64::Instruction>, _ret: Return)
    ensures
        final(out)@ == old(out)@.push(x86_64::spec_retn(BitMode::Bit64)),
{
    out.push(x86_64::retn(BitMode::Bit64));
}

/// When an instruction can be generated.
pub open spec fn instruction_codegen_ok(ins: Instruction) -> bool {
    match ins {
        Instruction::Transfer(t) => transfer_codegen_ok(t.spec_destination(), t.spec_source()),
        Instruction::Return(_) => true,
    }
}

/// The machine instruction one instruction becomes.
pub open spec fn spec_codegen_instruction(ins: Instruction) -> x86_64::Instruction {
    match ins {
        Instruction::Transfer(t) => spec_codegen_transfer(t.spec_destination(), t.spec_source()),
        Instruction::Return(_) => x86_64::spec_retn(BitMode::Bit64),
    }
}

pub fn codegen_instruction(out: &mut Vec<x86_64::Instruction>, ins: Instruction)
    requires
        instruction_codegen_ok(ins),
    ensures
        final(out)@ == old(out)@.push(spec_codegen_instruction(ins)),
{
    match ins {
        Instruction::Transfer(transfer) => codegen_instruction_transfer(out, transfer),
        Instruction::Return(ret) => codegen_instruction_return(out, ret),
    }
}

/// The machine instructions of a list, element by element, in order.
pub open spec fn spec_codegen_instructions(code: Seq<Instruction>) -> Seq<x86_64::Instruction> {
    code.map_values(|i: Instruction| spec_codegen_instruction(i))
}

/// Lowers a whole instruction list: appends to `out` the machine
/// instruction of each element, in order.
pub fn codegen_instructions(out: &mut Vec<x86_64::Instruction>, code: Vec<Instruction>)
    requires
        forall|k: int| 0 <= k < code@.len() ==> instruction_codegen_ok(#[trigger] code@[k]),
    ensures
        final(out)@ == old(out)@ + spec_codegen_instructions(code@),
{
    let ghost code_v = code@;
    let mut rest = code;
    let total = rest.len();
    let mut k: usize = 0;
    while rest.len() > 0
        invariant
            0 <= k as int,
            code_v.len() == total as int,
            k as int + rest@.len() == code_v.len(),
            rest@ == code_v.subrange(k as int, code_v.len() as int),
            forall|t: int| 0 <= t < code_v.len() ==> instruction_codegen_ok(#[trigger] code_v[t]),
            out@ == old(out)@ + spec_codegen_instructions(code_v.take(k as int)),
        decreases rest@.len(),
    {
        let ins = rest.remove(0);
        proof {
            assert(ins == code_v[k as int]);
            assert(rest@ =~= code_v.subrange(k as int + 1, code_v.len() as int));
        }
        codegen_instruction(out, ins);
        k = k + 1;
        proof {
            assert(spec_codegen_instructions(code_v.take(k as int))
                =~= spec_codegen_instructions(code_v.take(k as int - 1)).push(
                spec_codegen_instruction(code_v[k as int - 1]),
            ));
            assert(out@ =~= old(out)@ + spec_codegen_instructions(code_v.take(k as int)));
        }
    }
    proof {
        assert(code_v.take(code_v.len() as int) =~= code_v);
    }
}

/// Encodes a finished machine instruction sequence into its bytes.
pub fn emit_program(instructions: &Vec<x86_64::Instruction>) -> (r: Vec<u8>)
    ensures
        r@ == spec_program_bytes(instructions@),
{
    let mut buf: Vec<u8> = Vec::new();
    let mut k: usize = 0;
    while k < instructions.len()
        invariant
            0 <= k <= instructions@.len(),
            buf@ == spec_program_bytes(instructions@.take(k as int)),
        decreases instructions@.len() - k,
    {
        instructions[k].encode_into(&mut buf);
        k = k + 1;
        proof {
            assert(instructions@.take(k as int).drop_last() =~= instructions@.take(k as int - 1));
            assert(instructions@.take(k as int).last() == instructions@[k as int - 1]);
        }
    }
    proof {
        assert(instructions@.take(instructions@.len() as int) =~= instructions@);
    }
    buf
}

/// The bytes of a finished machine instruction sequence, in order.
pub open spec fn spec_program_bytes(instructions: Seq<x86_64::Instruction>) -> Seq<u8>
    decreases instructions.len(),
{
    if instructions.len() == 0 {
        Seq::empty()
    } else {
        spec_program_bytes(instructions.drop_last()) + x86_64::spec_instruction_bytes(
            instructions.last(),
        )
    }
}

/// Determinism of the back end's output: every stage's contract equates its
/// result with a specification function of its input alone, so two runs on
/// the same instructions emit byte-identical machine code. This states the
/// fact for the byte emission itself.
pub proof fn lemma_output_deterministic(a: Seq<x86_64::Instruction>, b: Seq<x86_64::Instruction>)
    requires
        a == b,
    ensures
        spec_program_bytes(a) == spec_program_bytes(b),
{
}


/// What a template placeholder has been bound to during a match.
#[derive(Debug)]
pub enum TemplateBinding {
    Destination(DestinationExpr),
    Immediate(ImmediateExpr),
}

/// The first binding for template `id`, scanning from the front.
pub open spec fn spec_binding_lookup(bs: Seq<(u32, TemplateBinding)>, id: u32) -> Option<
    TemplateBinding,
>
    decreases bs.len(),
{
    if bs.len() == 0 {
        None
    } else if bs.first().0 == id {
        Some(bs.first().1)
    } else {
        spec_binding_lookup(bs.drop_first(), id)
    }
}

/// Matching an immediate pattern: a template binds or compares against its
/// earlier binding; anything else must be equal.
pub open spec fn spec_match_imm(
    p: ImmediateExpr,
    o: ImmediateExpr,
    bs: Seq<(u32, TemplateBinding)>,
) -> (bool, Seq<(u32, TemplateBinding)>) {
    match p {
        ImmediateExpr::Template(t) => match spec_binding_lookup(bs, t.id) {
            Some(b) => (b == TemplateBinding::Immediate(o), bs),
            None => (true, bs.push((t.id, TemplateBinding::Immediate(o)))),
        },
        _ => (p == o, bs),
    }
}

/// Matching a destination pattern: memory recurses through the dereferenced
/// expression, registers compare, templates bind.
pub open spec fn spec_match_dest(
    p: DestinationExpr,
    o: DestinationExpr,
    bs: Seq<(u32, TemplateBinding)>,
) -> (bool, Seq<(u32, TemplateBinding)>)
    decreases p,
{
    match p {
        DestinationExpr::Memory(pm) => match o {
            DestinationExpr::Memory(om) => if pm.mode == om.mode {
                spec_match_rtx(*pm.deref, *om.deref, bs)
            } else {
                (false, bs)
            },
            _ => (false, bs),
        },
        DestinationExpr::Register(ra) => match o {
            DestinationExpr::Register(rb) => (ra == rb, bs),
            _ => (false, bs),
        },
        DestinationExpr::Template(t) => match spec_binding_lookup(bs, t.id) {
            Some(b) => (b == TemplateBinding::Destination(o), bs),
            None => (true, bs.push((t.id, TemplateBinding::Destination(o)))),
        },
    }
}

pub open spec fn spec_match_rtx(p: Rtx, o: Rtx, bs: Seq<(u32, TemplateBinding)>) -> (
    bool,
    Seq<(u32, TemplateBinding)>,
)
    decreases p,
{
    match p {
        Rtx::Destination(pd) => match o {
            Rtx::Destination(od) => spec_match_dest(pd, od, bs),
            _ => (false, bs),
        },
        Rtx::Immediate(pi) => match o {
            Rtx::Immediate(oi) => spec_match_imm(pi, oi, bs),
            _ => (false, bs),
        },
    }
}

/// Matching a transfer matches the destination, then the source under the
/// bindings the destination produced.
pub open spec fn spec_match_transfer(
    pd: DestinationExpr,
    ps: Rtx,
    od: DestinationExpr,
    os: Rtx,
    bs: Seq<(u32, TemplateBinding)>,
) -> (bool, Seq<(u32, TemplateBinding)>) {
    let (ok1, bs1) = spec_match_dest(pd, od, bs);
    if ok1 {
        spec_match_rtx(ps, os, bs1)
    } else {
        (false, bs1)
    }
}

/// Matching an instruction; only transfers carry patterns.
pub open spec fn spec_match_ins(p: Instruction, o: Instruction, bs: Seq<(u32, TemplateBinding)>) -> (
    bool,
    Seq<(u32, TemplateBinding)>,
) {
    match p {
        Instruction::Transfer(pt) => match o {
            Instruction::Transfer(ot) => spec_match_transfer(
                pt.spec_destination(),
                pt.spec_source(),
                ot.spec_destination(),
                ot.spec_source(),
                bs,
            ),
            _ => (false, bs),
        },
        Instruction::Return(_) => (false, bs),
    }
}

/// How many leading instructions of `code` the pattern matches, carrying
/// bindings across the pairs.
pub open spec fn spec_match_count(
    pat: Seq<Instruction>,
    code: Seq<Instruction>,
    bs: Seq<(u32, TemplateBinding)>,
    i: int,
) -> int
    decreases pat.len() - i,
{
    if i < 0 || i >= pat.len() || i >= code.len() {
        i
    } else {
        let (ok, bs2) = spec_match_ins(pat[i], code[i], bs);
        if ok {
            spec_match_count(pat, code, bs2, i + 1)
        } else {
            i
        }
    }
}

/// A deep copy of a destination expression.
fn copy_dest(d: &DestinationExpr) -> (r: DestinationExpr)
    ensures
        r == *d,
    decreases *d,
{
    match d {
        DestinationExpr::Memory(m) => DestinationExpr::Memory(
            MemoryExpr { deref: Box::new(copy_rtx(&*m.deref)), mode: m.mode },
        ),
        DestinationExpr::Register(r2) => DestinationExpr::Register(*r2),
        DestinationExpr::Template(t) => DestinationExpr::Template(*t),
    }
}

/// A deep copy of a register-transfer expression.
fn copy_rtx(x: &Rtx) -> (r: Rtx)
    ensures
        r == *x,
    decreases *x,
{
    match x {
        Rtx::Destination(d) => Rtx::Destination(copy_dest(d)),
        Rtx::Immediate(i) => Rtx::Immediate(*i),
    }
}

/// Structural equality of destination expressions.
fn eq_dest(a: &DestinationExpr, b: &DestinationExpr) -> (r: bool)
    ensures
        r == (*a == *b),
    decreases *a,
{
    match (a, b) {
        (DestinationExpr::Memory(ma), DestinationExpr::Memory(mb)) => ma.mode == mb.mode && eq_rtx(
            &*ma.deref,
            &*mb.deref,
        ),
        (DestinationExpr::Register(ra), DestinationExpr::Register(rb)) => ra == rb,
        (DestinationExpr::Template(ta), DestinationExpr::Template(tb)) => ta == tb,
        _ => false,
    }
}

/// Structural equality of register-transfer expressions.
fn eq_rtx(a: &Rtx, b: &Rtx) -> (r: bool)
    ensures
        r == (*a == *b),
    decreases *a,
{
    match (a, b) {
        (Rtx::Destination(da), Rtx::Destination(db)) => eq_dest(da, db),
        (Rtx::Immediate(ia), Rtx::Immediate(ib)) => ia == ib,
        _ => false,
    }
}

/// The position of template `id` in the bindings, if bound.
fn binding_find(bs: &Vec<(u32, TemplateBinding)>, id: u32) -> (r: Option<usize>)
    ensures
        match r {
            Some(i) => 0 <= i < bs@.len() && bs@[i as int].0 == id && spec_binding_lookup(
                bs@,
                id,
            ) == Some(bs@[i as int].1),
            None => spec_binding_lookup(bs@, id) is None,
        },
{
    let mut i: usize = 0;
    while i < bs.len()
        invariant
            0 <= i <= bs@.len(),
            forall|t: int| 0 <= t < i ==> (#[trigger] bs@[t]).0 != id,
        decreases bs@.len() - i,
    {
        if bs[i].0 == id {
            proof {
                lemma_binding_lookup_at(bs@, id, i as int);
            }
            return Some(i);
        }
        i = i + 1;
    }
    proof {
        lemma_binding_lookup_misses(bs@, id);
    }
    None
}

proof fn lemma_binding_lookup_at(bs: Seq<(u32, TemplateBinding)>, id: u32, i: int)
    requires
        0 <= i < bs.len(),
        bs[i].0 == id,
        forall|t: int| 0 <= t < i ==> (#[trigger] bs[t]).0 != id,
    ensures
        spec_binding_lookup(bs, id) == Some(bs[i].1),
    decreases bs.len(),
{
    if bs.first().0 == id {
        assert(i == 0);
    } else {
        assert(bs.drop_first()[i - 1] == bs[i]);
        assert forall|t: int| 0 <= t < i - 1 implies (#[trigger] bs.drop_first()[t]).0 != id by {
            assert(bs.drop_first()[t] == bs[t + 1]);
        }
        lemma_binding_lookup_at(bs.drop_first(), id, i - 1);
    }
}

proof fn lemma_binding_lookup_misses(bs: Seq<(u32, TemplateBinding)>, id: u32)
    requires
        forall|t: int| 0 <= t < bs.len() ==> (#[trigger] bs[t]).0 != id,
    ensures
        spec_binding_lookup(bs, id) is None,
    decreases bs.len(),
{
    if bs.len() > 0 {
        assert forall|t: int| 0 <= t < bs.drop_first().len() implies (
        #[trigger] bs.drop_first()[t]).0 != id by {
            assert(bs.drop_first()[t] == bs[t + 1]);
        }
        lemma_binding_lookup_misses(bs.drop_first(), id);
    }
}

/// Matches an immediate pattern against an immediate, binding templates.
fn try_match_imm(p: &ImmediateExpr, o: &ImmediateExpr, m: &mut Vec<(u32, TemplateBinding)>) -> (r:
    bool)
    ensures
        (r, final(m)@) == spec_match_imm(*p, *o, old(m)@),
{
    match p {
        ImmediateExpr::Template(t) => {
            match binding_find(m, t.id) {
                Some(i) => {
                    match &m[i].1 {
                        TemplateBinding::Immediate(b) => *b == *o,
                        TemplateBinding::Destination(_) => false,
                    }
                },
                None => {
                    m.push((t.id, TemplateBinding::Immediate(*o)));
                    true
                },
            }
        },
        _ => *p == *o,
    }
}

/// Matches a destination pattern against a destination, binding templates.
fn try_match_dest(p: &DestinationExpr, o: &DestinationExpr, m: &mut Vec<(u32, TemplateBinding)>) -> (
    r: bool)
    ensures
        (r, final(m)@) == spec_match_dest(*p, *o, old(m)@),
    decreases *p,
{
    match (p, o) {
        (DestinationExpr::Memory(pm), DestinationExpr::Memory(om)) => {
            if pm.mode == om.mode {
                try_match_rtx(&*pm.deref, &*om.deref, m)
            } else {
                false
            }
        },
        (DestinationExpr::Register(ra), DestinationExpr::Register(rb)) => ra == rb,
        (DestinationExpr::Template(t), _) => {
            match binding_find(m, t.id) {
                Some(i) => {
                    match &m[i].1 {
                        TemplateBinding::Destination(b) => eq_dest(b, o),
                        TemplateBinding::Immediate(_) => false,
                    }
                },
                None => {
                    m.push((t.id, TemplateBinding::Destination(copy_dest(o))));
                    true
                },
            }
        },
        _ => false,
    }
}

/// Matches an expression pattern against an expression, binding templates.
fn try_match_rtx(p: &Rtx, o: &Rtx, m: &mut Vec<(u32, TemplateBinding)>) -> (r: bool)
    ensures
        (r, final(m)@) == spec_match_rtx(*p, *o, old(m)@),
    decreases *p,
{
    match (p, o) {
        (Rtx::Destination(pd), Rtx::Destination(od)) => try_match_dest(pd, od, m),
        (Rtx::Immediate(pi), Rtx::Immediate(oi)) => try_match_imm(pi, oi, m),
        _ => false,
    }
}

/// Matches one instruction pattern against one instruction.
fn try_match_ins(p: &Instruction, o: &Instruction, m: &mut Vec<(u32, TemplateBinding)>) -> (r: bool)
    requires
        p is Transfer,
    ensures
        (r, final(m)@) == spec_match_ins(*p, *o, old(m)@),
{
    match (p, o) {
        (Instruction::Transfer(pt), Instruction::Transfer(ot)) => {
            let ok1 = try_match_dest(pt.destination(), ot.destination(), m);
            if ok1 {
                try_match_rtx(pt.source(), ot.source(), m)
            } else {
                false
            }
        },
        (Instruction::Transfer(_), _) => false,
        _ => unreached(),
    }
}

/// A shape of consecutive instructions with template placeholders.
pub struct RTLPattern {
    rtl_code: Vec<Instruction>,
}

impl RTLPattern {
    pub closed spec fn spec_code(&self) -> Seq<Instruction> {
        self.rtl_code@
    }

    /// A one-instruction pattern.
    pub fn new_insn(insn: Instruction) -> (r: Self)
        ensures
            r.spec_code() == seq![insn],
    {
        let mut rtl_code: Vec<Instruction> = Vec::new();
        rtl_code.push(insn);
        proof {
            assert(rtl_code@ =~= seq![insn]);
        }
        Self { rtl_code }
    }

    pub fn new(insns: Vec<Instruction>) -> (r: Self)
        ensures
            r.spec_code() == insns@,
    {
        Self { rtl_code: insns }
    }

    /// How many leading instructions of `code` this pattern matches, with
    /// template bindings carried across the sequence.
    #[verifier::loop_isolation(false)]
    pub fn try_match(&self, code: &Vec<Instruction>) -> (r: usize)
        requires
            forall|k: int| 0 <= k < self.spec_code().len() ==> (#[trigger] self.spec_code()[k]) is Transfer,
        ensures
            r as int == spec_match_count(self.spec_code(), code@, Seq::empty(), 0),
    {
        let mut count: usize = 0;
        let mut m: Vec<(u32, TemplateBinding)> = Vec::new();
        proof {
            assert(m@ =~= Seq::<(u32, TemplateBinding)>::empty());
        }
        while count < self.rtl_code.len() && count < code.len()
            invariant
                0 <= count,
                count <= self.spec_code().len(),
                count <= code@.len(),
                spec_match_count(self.spec_code(), code@, Seq::empty(), 0) == spec_match_count(
                    self.spec_code(),
                    code@,
                    m@,
                    count as int,
                ),
            decreases self.spec_code().len() - count,
        {
            let ghost m_pre = m@;
            let ok = try_match_ins(&self.rtl_code[count], &code[count], &mut m);
            if !ok {
                proof {
                    assert(spec_match_count(self.spec_code(), code@, m_pre, count as int)
                        == count as int);
                }
                return count;
            }
            count = count + 1;
        }
        count
    }
}

} // verus!
