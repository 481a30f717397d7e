//! Register allocation for lowered RTL: a map from virtual-register numbers
//! to values, the usage analysis that finds each register's lifetime, and
//! the allocator that gives every virtual register a machine register or a
//! stack slot.
use vstd::prelude::*;
use crate::rtl::{
    spec_promote_op, Op, Ops, RValue, RealRegister, Register, StackRegister, VirRegister,
};
use crate::rtl::amd64::Amd64Register;

verus! {

/// A map keyed by virtual-register number, stored as a vector indexed by
/// the number.
pub struct VirRegisterMap<T> {
    arr: Vec<Option<(T, usize)>>,
}

impl<T> VirRegisterMap<T> {
    /// The entry stored for register number `n`: the value and the
    /// register's width.
    pub closed spec fn spec_at(&self, n: int) -> Option<(T, usize)> {
        if 0 <= n < self.arr@.len() {
            self.arr@[n]
        } else {
            None
        }
    }

    pub fn new() -> (r: VirRegisterMap<T>)
        ensures
            forall|n: int| r.spec_at(n) is None,
    {
        VirRegisterMap { arr: Vec::new() }
    }

    /// Grows the backing vector so position `n - 1` exists.
    fn expand_to(&mut self, n: usize)
        ensures
            forall|k: int| #[trigger] final(self).spec_at(k) == old(self).spec_at(k),
            final(self).arr_len() >= n,
            final(self).arr_len() == if old(self).arr_len() >= n {
                old(self).arr_len()
            } else {
                n as int
            },
    {
        let ghost pre = *self;
        while self.arr.len() < n
            invariant
                forall|k: int| #[trigger] self.spec_at(k) == pre.spec_at(k),
                self.arr@.len() >= pre.arr@.len(),
                pre.arr@.len() >= n ==> self.arr@.len() == pre.arr@.len(),
                pre.arr@.len() < n ==> self.arr@.len() <= n,
                forall|k: int|
                    pre.arr@.len() <= k < self.arr@.len() ==> #[trigger] self.arr@[k] is None,
            decreases n - self.arr@.len(),
        {
            let ghost before = *self;
            self.arr.push(None);
            proof {
                assert forall|k: int| #[trigger] self.spec_at(k) == pre.spec_at(k) by {
                    if 0 <= k < self.arr@.len() - 1 {
                        assert(self.spec_at(k) == before.spec_at(k));
                        assert(before.spec_at(k) == pre.spec_at(k));
                    } else if k == self.arr@.len() - 1 {
                        assert(self.spec_at(k) is None);
                        assert(pre.spec_at(k) is None);
                    } else {
                        assert(self.spec_at(k) is None);
                        assert(pre.spec_at(k) is None);
                    }
                }
            }
        }
    }

    /// The backing vector's length.
    pub closed spec fn arr_len(&self) -> int {
        self.arr@.len() as int
    }

    /// Stores `val` for the register, remembering its width.
    pub fn insert(&mut self, vir: &VirRegister, val: T)
        requires
            vir.n < usize::MAX,
        ensures
            final(self).spec_at(vir.n as int) == Some((val, vir.bytes)),
            forall|k: int|
                k != vir.n as int ==> #[trigger] final(self).spec_at(k) == old(self).spec_at(k),
    {
        self.expand_to(vir.n + 1);
        let ghost mid = *self;
        self.arr.set(vir.n, Some((val, vir.bytes)));
        proof {
            assert forall|k: int|
                k != vir.n as int implies #[trigger] self.spec_at(k) == old(self).spec_at(k) by {
                assert(mid.spec_at(k) == old(self).spec_at(k));
                if 0 <= k < self.arr@.len() {
                    assert(self.arr@[k] == mid.arr@[k]);
                }
            }
        }
    }

    /// The value stored for the register, if any.
    pub fn get(&self, vir: &VirRegister) -> (r: Option<&T>)
        ensures
            match r {
                Some(v) => self.spec_at(vir.n as int) matches Some(p) && p.0 == *v,
                None => self.spec_at(vir.n as int) is None,
            },
    {
        if vir.n >= self.arr.len() {
            None
        } else {
            match &self.arr[vir.n] {
                Some((val, _bytes)) => Some(val),
                None => None,
            }
        }
    }
}

impl<T: Copy> VirRegisterMap<T> {
    /// The stored values, in register-number order.
    pub fn keys(&self) -> (r: Vec<T>)
        ensures
            forall|n: int|
                (match #[trigger] self.spec_at(n) {
                    Some(p) => r@.contains(p.0),
                    None => true,
                }),
    {
        let ghost me = *self;
        let mut r: Vec<T> = Vec::new();
        let mut n: usize = 0;
        while n < self.arr.len()
            invariant
                *self == me,
                0 <= n <= self.arr@.len(),
                forall|k: int|
                    0 <= k < n ==> (match #[trigger] me.spec_at(k) {
                        Some(p) => r@.contains(p.0),
                        None => true,
                    }),
            decreases self.arr@.len() - n,
        {
            let ghost r_pre = r@;
            match &self.arr[n] {
                Some((t, _bytes)) => {
                    r.push(*t);
                    proof {
                        assert(me.spec_at(n as int) is Some);
                        assert forall|k: int|
                            0 <= k < n + 1 && #[trigger] me.spec_at(k) is Some implies r@.contains(
                            (me.spec_at(k)->0).0,
                        ) by {
                            let pv = me.spec_at(k)->0;
                            if k < n {
                                let i = choose|i: int| 0 <= i < r_pre.len() && r_pre[i] == pv.0;
                                assert(r@[i] == pv.0);
                            } else {
                                assert(r@[r@.len() - 1] == pv.0);
                            }
                        }
                    }
                },
                None => {},
            }
            n = n + 1;
        }
        r
    }

    /// The stored pairs of register and value, in register-number order.
    pub fn entries(&self) -> (r: Vec<(VirRegister, T)>)
        ensures
            forall|i: int|
                0 <= i < r@.len() ==> (match #[trigger] self.spec_at((r@[i]).0.n as int) {
                    Some(p) => p.0 == (r@[i]).1 && p.1 == (r@[i]).0.bytes,
                    None => false,
                }),
    {
        let mut r: Vec<(VirRegister, T)> = Vec::new();
        let mut n: usize = 0;
        while n < self.arr.len()
            invariant
                0 <= n <= self.arr@.len(),
                forall|i: int|
                    0 <= i < r@.len() ==> (match #[trigger] self.spec_at((r@[i]).0.n as int) {
                        Some(p) => p.0 == (r@[i]).1 && p.1 == (r@[i]).0.bytes,
                        None => false,
                    }),
            decreases self.arr@.len() - n,
        {
            match &self.arr[n] {
                Some((t, bytes)) => {
                    r.push((VirRegister { n, bytes: *bytes }, *t));
                },
                None => {},
            }
            n = n + 1;
        }
        r
    }
}

/// Where one virtual register's lifetime starts and ends, as operation
/// indices.
#[derive(Copy, Clone, Debug, PartialEq, Eq, Structural)]
pub struct VirRegisterInfo {
    pub lifetime_begin: usize,
    pub lifetime_end: usize,
}

/// A finished decision for one virtual register.
#[derive(Debug, Copy, Clone, PartialEq, Eq, Structural)]
pub struct Allocation {
    pub info: VirRegisterInfo,
    pub vir: VirRegister,
    pub kind: AllocationKind,
}

#[derive(Debug, Copy, Clone, PartialEq, Eq, Structural)]
pub enum AllocationKind {
    Reg(RealRegister),
    Stack(StackRegister),
}

/// The registers one operation touches: the target first, then the operand.
pub open spec fn rtl_op_regs(op: Op) -> Seq<Register> {
    let (target, operand) = match op {
        Op::Copy(c) => (c.to, c.from),
        Op::Add(a) => (a.to, a.val),
        Op::Sub(s) => (s.from, s.val),
        Op::Mul(m) => (m.val, m.with),
        Op::Div(d) => (d.val, d.with),
    };
    seq![target] + (match operand {
        RValue::Register(r) => seq![r],
        RValue::Lit(_) => Seq::empty(),
    })
}

/// True when the operation touches virtual register number `n`.
pub open spec fn op_touches_vir(op: Op, n: int) -> bool {
    exists|k: int|
        0 <= k < rtl_op_regs(op).len() && ((#[trigger] rtl_op_regs(op)[k]) matches Register::Vir(v)
            && v.n == n)
}

/// True when the operation touches the real register `rr`.
pub open spec fn op_touches_real(op: Op, rr: RealRegister) -> bool {
    exists|k: int|
        0 <= k < rtl_op_regs(op).len() && (#[trigger] rtl_op_regs(op)[k]) == Register::Real(rr)
}

/// Scans the operations and reports, for each virtual register, the indices
/// of its first and last use, and separately every real register that
/// appears pre-assigned.
#[verifier::loop_isolation(false)]
pub fn analyze_rtl(ops: &Ops) -> (r: (VirRegisterMap<VirRegisterInfo>, Vec<RealRegister>))
    requires
        forall|k: int, t: int|
            0 <= k < ops@.len() && 0 <= t < rtl_op_regs(ops@[k]).len() ==> (match (
            #[trigger] rtl_op_regs(ops@[k])[t]) {
                Register::Vir(v) => v.n < usize::MAX,
                _ => true,
            }),
    ensures
        forall|n: int|
            (#[trigger] r.0.spec_at(n)) is Some <==> exists|k: int|
                0 <= k < ops@.len() && op_touches_vir(#[trigger] ops@[k], n),
        forall|n: int|
            (#[trigger] r.0.spec_at(n)) matches Some(p) ==> {
                &&& 0 <= p.0.lifetime_begin <= p.0.lifetime_end < ops@.len()
                &&& op_touches_vir(ops@[p.0.lifetime_begin as int], n)
                &&& op_touches_vir(ops@[p.0.lifetime_end as int], n)
                &&& forall|k: int|
                    0 <= k < ops@.len() && op_touches_vir(#[trigger] ops@[k], n)
                        ==> p.0.lifetime_begin <= k <= p.0.lifetime_end
            },
        forall|rr: RealRegister|
            r.1@.contains(rr) <==> exists|k: int|
                0 <= k < ops@.len() && op_touches_real(#[trigger] ops@[k], rr),
{
    let mut map: VirRegisterMap<VirRegisterInfo> = VirRegisterMap::new();
    let mut already_occupied: Vec<RealRegister> = Vec::new();
    let mut i: usize = 0;
    while i < ops.len()
        invariant
            0 <= i <= ops@.len(),
            forall|n: int|
                (#[trigger] map.spec_at(n)) is Some <==> exists|k: int|
                    0 <= k < i && op_touches_vir(#[trigger] ops@[k], n),
            forall|n: int|
                (#[trigger] map.spec_at(n)) matches Some(p) ==> {
                    &&& 0 <= p.0.lifetime_begin <= p.0.lifetime_end < i
                    &&& op_touches_vir(ops@[p.0.lifetime_begin as int], n)
                    &&& op_touches_vir(ops@[p.0.lifetime_end as int], n)
                    &&& forall|k: int|
                        0 <= k < i && op_touches_vir(#[trigger] ops@[k], n)
                            ==> p.0.lifetime_begin <= k <= p.0.lifetime_end
                },
            forall|rr: RealRegister|
                already_occupied@.contains(rr) <==> exists|k: int|
                    0 <= k < i && op_touches_real(#[trigger] ops@[k], rr),
        decreases ops@.len() - i,
    {
        let op = ops[i];
        let (target, operand) = match op {
            Op::Copy(c) => (c.to, c.from),
            Op::Add(a) => (a.to, a.val),
            Op::Sub(s) => (s.from, s.val),
            Op::Mul(m) => (m.val, m.with),
            Op::Div(d) => (d.val, d.with),
        };
        proof {
            assert(rtl_op_regs(op)[0] == target);
            match operand {
                RValue::Register(r2) => {
                    assert(rtl_op_regs(op)[1] == r2);
                },
                RValue::Lit(..) => {},
            }
        }
        notice_reg(&mut map, &mut already_occupied, &target, i, Ghost(ops@), Ghost(0));
        match operand {
            RValue::Register(reg) => {
                notice_reg(&mut map, &mut already_occupied, &reg, i, Ghost(ops@), Ghost(1));
            },
            RValue::Lit(..) => {},
        }
        i = i + 1;
        proof {
            assert forall|n: int|
                (#[trigger] map.spec_at(n)) is Some implies exists|k: int|
                0 <= k < i && op_touches_vir(#[trigger] ops@[k], n) by {}
            assert forall|n: int|
                (exists|k: int| 0 <= k < i && op_touches_vir(#[trigger] ops@[k], n)) implies (
            #[trigger] map.spec_at(n)) is Some by {
                let k = choose|k: int| 0 <= k < i && op_touches_vir(#[trigger] ops@[k], n);
                if k < i - 1 {
                } else {
                    let t = choose|t: int|
                        0 <= t < rtl_op_regs(op).len() && ((#[trigger] rtl_op_regs(op)[t]) matches
                            Register::Vir(v) && v.n == n);
                }
            }
        }
    }
    (map, already_occupied)
}

/// Notes one touched register: a virtual register widens its lifetime, a
/// real one joins the pre-assigned set.
#[verifier::loop_isolation(false)]
fn notice_reg(
    map: &mut VirRegisterMap<VirRegisterInfo>,
    already_occupied: &mut Vec<RealRegister>,
    reg: &Register,
    idx: usize,
    Ghost(ops): Ghost<Seq<Op>>,
    Ghost(slot): Ghost<int>,
)
    requires
        0 <= idx < ops.len(),
        0 <= slot < rtl_op_regs(ops[idx as int]).len(),
        rtl_op_regs(ops[idx as int])[slot] == *reg,
        (match *reg {
            Register::Vir(v) => v.n < usize::MAX,
            _ => true,
        }),
        forall|n: int|
            (#[trigger] old(map).spec_at(n)) matches Some(p) ==> {
                &&& 0 <= p.0.lifetime_begin <= p.0.lifetime_end <= idx
                &&& op_touches_vir(ops[p.0.lifetime_begin as int], n)
                &&& op_touches_vir(ops[p.0.lifetime_end as int], n)
            },
    ensures
        forall|n: int|
            (#[trigger] final(map).spec_at(n)) is Some <==> ((#[trigger] old(map).spec_at(n))
                is Some || (match *reg {
                Register::Vir(v) => v.n == n,
                _ => false,
            })),
        forall|n: int|
            (#[trigger] final(map).spec_at(n)) matches Some(p) ==> {
                &&& 0 <= p.0.lifetime_begin <= p.0.lifetime_end <= idx
                &&& op_touches_vir(ops[p.0.lifetime_begin as int], n)
                &&& op_touches_vir(ops[p.0.lifetime_end as int], n)
            },
        forall|n: int|
            (match *reg {
                Register::Vir(v) => v.n == n,
                _ => false,
            }) ==> (match (#[trigger] final(map).spec_at(n)) {
                Some(p) => p.0.lifetime_end == idx && (match old(map).spec_at(n) {
                    Some(q) => p.0.lifetime_begin == q.0.lifetime_begin,
                    None => p.0.lifetime_begin == idx,
                }),
                None => false,
            }),
        forall|n: int|
            !(*reg matches Register::Vir(v) && v.n == n) ==> #[trigger] final(map).spec_at(n) == old(map).spec_at(n),
        forall|rr: RealRegister|
            final(already_occupied)@.contains(rr) <==> (old(already_occupied)@.contains(rr) || (
            match *reg {
                Register::Real(r2) => r2 == rr,
                _ => false,
            })),
{
    let ghost pre_occ = already_occupied@;
    match *reg {
        Register::Real(rr) => {
            already_occupied.push(rr);
            proof {
                assert(op_touches_real(ops[idx as int], rr));
                assert(pre_occ == old(already_occupied)@);
                assert(*reg == Register::Real(rr));
                assert forall|rr2: RealRegister|
                    already_occupied@.contains(rr2) <==> (old(already_occupied)@.contains(rr2) || (
                    match *reg {
                        Register::Real(r3) => r3 == rr2,
                        _ => false,
                    })) by {
                    if already_occupied@.contains(rr2) {
                        let i = choose|i: int|
                            0 <= i < already_occupied@.len() && already_occupied@[i] == rr2;
                        if i < pre_occ.len() {
                            assert(pre_occ[i] == rr2);
                            assert(old(already_occupied)@.contains(rr2));
                        } else {
                            assert(rr2 == rr);
                        }
                    }
                    if old(already_occupied)@.contains(rr2) {
                        let i = choose|i: int| 0 <= i < pre_occ.len() && pre_occ[i] == rr2;
                        assert(already_occupied@[i] == rr2);
                        assert(already_occupied@.contains(rr2));
                    }
                    if (match *reg {
                        Register::Real(r3) => r3 == rr2,
                        _ => false,
                    }) {
                        assert(rr2 == rr);
                        assert(already_occupied@[already_occupied@.len() - 1] == rr2);
                        assert(already_occupied@.contains(rr2));
                    }
                }
            }
        },
        Register::Stack(_ss) => {},
        Register::Vir(vir) => {
            proof {
                assert(op_touches_vir(ops[idx as int], vir.n as int));
            }
            let info = match map.get(&vir) {
                None => VirRegisterInfo { lifetime_begin: idx, lifetime_end: idx },
                Some(old_info) => VirRegisterInfo {
                    lifetime_begin: old_info.lifetime_begin,
                    lifetime_end: idx,
                },
            };
            map.insert(&vir, info);
        },
    }
}

/// Two lifetimes that overlap cannot share a register.
pub open spec fn lifetimes_overlap(a: VirRegisterInfo, b: VirRegisterInfo) -> bool {
    (a.lifetime_begin >= b.lifetime_begin && a.lifetime_begin <= b.lifetime_end) || (a.lifetime_end
        <= b.lifetime_end && a.lifetime_end >= b.lifetime_begin)
}

/// Assigns each virtual register a double-word machine register whose
/// earlier assignments' lifetimes do not overlap, or a fresh stack slot
/// when none is free.
pub struct Allocator {
    allocations: VirRegisterMap<Allocation>,
    virtuals: Vec<(VirRegister, VirRegisterInfo)>,
    manually_excluded: Vec<RealRegister>,
    stack_alloc_offset: usize,
}

/// The double-word registers the allocator may hand out, in tie-break
/// order.
pub open spec fn spec_dword_palette() -> Seq<Amd64Register> {
    seq![Amd64Register::Eax, Amd64Register::Ebx, Amd64Register::Ecx, Amd64Register::Edx]
}

fn amd64_alloc_dword_reg() -> (r: Vec<Amd64Register>)
    ensures
        r@ == spec_dword_palette(),
{
    let mut v: Vec<Amd64Register> = Vec::new();
    v.push(Amd64Register::Eax);
    v.push(Amd64Register::Ebx);
    v.push(Amd64Register::Ecx);
    v.push(Amd64Register::Edx);
    proof {
        assert(v@ =~= spec_dword_palette());
    }
    v
}

impl Allocator {
    pub closed spec fn spec_virtuals(&self) -> Seq<(VirRegister, VirRegisterInfo)> {
        self.virtuals@
    }

    pub closed spec fn spec_excluded(&self) -> Seq<RealRegister> {
        self.manually_excluded@
    }

    pub closed spec fn spec_allocation_at(&self, n: int) -> Option<(Allocation, usize)> {
        self.allocations.spec_at(n)
    }

    pub closed spec fn spec_stack_offset(&self) -> int {
        self.stack_alloc_offset as int
    }

    /// Palette register `reg` was still free when entry `k` of the list was
    /// decided: it is not excluded, and no earlier entry whose lifetime
    /// overlaps entry `k`'s holds it.
    pub open spec fn spec_reg_free_for(&self, k: int, reg: Amd64Register) -> bool {
        &&& !self.spec_excluded().contains(RealRegister::Amd64(reg))
        &&& forall|tp: int|
            0 <= tp < k ==> (match #[trigger] self.spec_allocation_at(
                self.spec_virtuals()[tp].0.n as int,
            ) {
                Some(pp) => (match pp.0.kind {
                    AllocationKind::Reg(RealRegister::Amd64(pr)) => !(pr == reg
                        && lifetimes_overlap(self.spec_virtuals()[k].1, pp.0.info)),
                    _ => true,
                }),
                None => true,
            })
    }

    pub fn new(virtuals: Vec<(VirRegister, VirRegisterInfo)>, occupied: Vec<RealRegister>) -> (r:
        Allocator)
        ensures
            r.spec_virtuals() == virtuals@,
            r.spec_excluded() == occupied@,
            r.spec_stack_offset() == 0,
            forall|n: int| r.spec_allocation_at(n) is None,
    {
        Allocator {
            virtuals,
            manually_excluded: occupied,
            allocations: VirRegisterMap::new(),
            stack_alloc_offset: 0,
        }
    }

    /// The finished decisions.
    #[inline]
    pub fn map(&self) -> (r: &VirRegisterMap<Allocation>)
        ensures
            forall|n: int| #[trigger] r.spec_at(n) == self.spec_allocation_at(n),
    {
        &self.allocations
    }

    /// Decides every virtual register in turn: the first palette register
    /// not excluded and not already given to a live-at-the-same-time
    /// register, else a fresh stack slot of the register's width.
    #[verifier::rlimit(100)]
    pub fn create_allocations(&mut self)
        requires
            forall|k: int|
                0 <= k < old(self).spec_virtuals().len() ==> (#[trigger] old(self).spec_virtuals()[k]).0.bytes
                    == 4,
            forall|a: int, b: int|
                0 <= a < b < old(self).spec_virtuals().len() ==> (#[trigger] old(self).spec_virtuals()[a]).0.n != (#[trigger] old(self).spec_virtuals()[b]).0.n,
            forall|k: int|
                0 <= k < old(self).spec_virtuals().len() ==> (#[trigger] old(self).spec_virtuals()[k]).0.n
                    < usize::MAX,
            old(self).spec_virtuals().len() * 4 <= usize::MAX,
            old(self).spec_stack_offset() == 0,
            forall|n: int| old(self).spec_allocation_at(n) is None,
        ensures
            final(self).spec_virtuals() == old(self).spec_virtuals(),
            // spill totality: every listed register has a decision
            forall|k: int|
                0 <= k < old(self).spec_virtuals().len() ==> (match (#[trigger] final(self).spec_allocation_at(
                    old(self).spec_virtuals()[k].0.n as int,
                )) {
                    Some(p) => p.0.vir == old(self).spec_virtuals()[k].0 && p.0.info == old(self).spec_virtuals()[k].1 && (match p.0.kind {
                        AllocationKind::Reg(RealRegister::Amd64(reg)) => spec_dword_palette().contains(reg) && !final(self).spec_excluded().contains(
                            RealRegister::Amd64(reg),
                        ),
                        _ => true,
                    }),
                    None => false,
                }),
            // two registers whose lifetimes overlap never share a machine
            // register
            forall|a: int, b: int|
                0 <= a < b < old(self).spec_virtuals().len() && lifetimes_overlap(
                    old(self).spec_virtuals()[b].1,
                    old(self).spec_virtuals()[a].1,
                ) ==> (match (
                    final(self).spec_allocation_at(old(self).spec_virtuals()[a].0.n as int),
                    final(self).spec_allocation_at(old(self).spec_virtuals()[b].0.n as int),
                ) {
                    (Some(pa), Some(pb)) => (match (pa.0.kind, pb.0.kind) {
                        (AllocationKind::Reg(ra), AllocationKind::Reg(rb)) => ra != rb,
                        _ => true,
                    }),
                    _ => true,
                }),
            // a spilled register's slot has the register's width, and slots
            // grow strictly down the list, so no two spills collide
            forall|k: int|
                0 <= k < old(self).spec_virtuals().len() ==> (match (
                #[trigger] final(self).spec_allocation_at(
                    old(self).spec_virtuals()[k].0.n as int,
                )) {
                    Some(p) => (match p.0.kind {
                        AllocationKind::Stack(ss) => ss.bytes == old(self).spec_virtuals()[k].0.bytes
                            && 0 < ss.slot,
                        _ => true,
                    }),
                    None => false,
                }),
            forall|k1: int, k2: int|
                0 <= k1 < k2 < old(self).spec_virtuals().len() ==> (match (
                    #[trigger] final(self).spec_allocation_at(
                        old(self).spec_virtuals()[k1].0.n as int,
                    ),
                    #[trigger] final(self).spec_allocation_at(
                        old(self).spec_virtuals()[k2].0.n as int,
                    ),
                ) {
                    (Some(pa), Some(pb)) => (match (pa.0.kind, pb.0.kind) {
                        (AllocationKind::Stack(sa), AllocationKind::Stack(sb)) => sa.slot
                            < sb.slot,
                        _ => true,
                    }),
                    _ => true,
                }),
            // first fit: each entry takes the earliest palette register that
            // is free at its step, and spills only when none is
            forall|k: int|
                0 <= k < old(self).spec_virtuals().len() ==> (match (
                #[trigger] final(self).spec_allocation_at(
                    old(self).spec_virtuals()[k].0.n as int,
                )) {
                    Some(p) => (match p.0.kind {
                        AllocationKind::Reg(RealRegister::Amd64(reg)) => exists|pi: int|
                            #![trigger spec_dword_palette()[pi]]
                            0 <= pi < spec_dword_palette().len() && spec_dword_palette()[pi]
                                == reg && final(self).spec_reg_free_for(
                                k,
                                spec_dword_palette()[pi],
                            ) && (forall|q: int|
                                0 <= q < pi ==> !final(self).spec_reg_free_for(
                                    k,
                                    #[trigger] spec_dword_palette()[q],
                                )),
                        AllocationKind::Stack(_) => forall|q: int|
                            0 <= q < spec_dword_palette().len() ==> !final(self).spec_reg_free_for(
                                k,
                                #[trigger] spec_dword_palette()[q],
                            ),
                    }),
                    None => false,
                }),
    {
        let ghost virtuals_v = self.virtuals@;
        let total = self.virtuals.len();
        let mut k: usize = 0;
        while k < total
            invariant
                0 <= k <= total,
                self.virtuals@ == virtuals_v,
                self.manually_excluded@ == old(self).spec_excluded(),
                total as int == virtuals_v.len(),
                self.stack_alloc_offset as int <= k as int * 4,
                forall|t: int|
                    0 <= t < virtuals_v.len() ==> (#[trigger] virtuals_v[t]).0.bytes == 4,
                forall|t: int|
                    0 <= t < virtuals_v.len() ==> (#[trigger] virtuals_v[t]).0.n < usize::MAX,
                forall|a: int, b: int|
                    0 <= a < b < virtuals_v.len() ==> (#[trigger] virtuals_v[a]).0.n != (
                    #[trigger] virtuals_v[b]).0.n,
                virtuals_v.len() * 4 <= usize::MAX,
                forall|t: int|
                    0 <= t < k ==> (match (#[trigger] self.allocations.spec_at(
                        virtuals_v[t].0.n as int,
                    )) {
                        Some(p) => p.0.vir == virtuals_v[t].0 && p.0.info == virtuals_v[t].1 && (
                        match p.0.kind {
                            AllocationKind::Reg(RealRegister::Amd64(reg)) => spec_dword_palette().contains(reg)
                                && !self.manually_excluded@.contains(RealRegister::Amd64(reg)),
                            _ => true,
                        }),
                        None => false,
                    }),
                forall|t1: int, t2: int|
                    0 <= t1 < t2 < k && lifetimes_overlap(virtuals_v[t2].1, virtuals_v[t1].1)
                        ==> (match (
                        #[trigger] self.allocations.spec_at(virtuals_v[t1].0.n as int),
                        #[trigger] self.allocations.spec_at(virtuals_v[t2].0.n as int),
                    ) {
                        (Some(pa), Some(pb)) => (match (pa.0.kind, pb.0.kind) {
                            (AllocationKind::Reg(ra), AllocationKind::Reg(rb)) => ra != rb,
                            _ => true,
                        }),
                        _ => true,
                    }),
                forall|t: int|
                    0 <= t < k ==> (match (#[trigger] self.allocations.spec_at(
                        virtuals_v[t].0.n as int,
                    )) {
                        Some(p) => (match p.0.kind {
                            AllocationKind::Stack(ss) => ss.bytes == virtuals_v[t].0.bytes && 0
                                < ss.slot && ss.slot as int <= self.stack_alloc_offset as int,
                            _ => true,
                        }),
                        None => false,
                    }),
                forall|t1: int, t2: int|
                    0 <= t1 < t2 < k ==> (match (
                        #[trigger] self.allocations.spec_at(virtuals_v[t1].0.n as int),
                        #[trigger] self.allocations.spec_at(virtuals_v[t2].0.n as int),
                    ) {
                        (Some(pa), Some(pb)) => (match (pa.0.kind, pb.0.kind) {
                            (AllocationKind::Stack(sa), AllocationKind::Stack(sb)) => sa.slot
                                < sb.slot,
                            _ => true,
                        }),
                        _ => true,
                    }),
                forall|t: int|
                    0 <= t < k ==> (match (#[trigger] self.allocations.spec_at(
                        virtuals_v[t].0.n as int,
                    )) {
                        Some(p) => (match p.0.kind {
                            AllocationKind::Reg(RealRegister::Amd64(reg)) => exists|pi: int|
                                #![trigger spec_dword_palette()[pi]]
                                0 <= pi < spec_dword_palette().len() && spec_dword_palette()[pi]
                                    == reg && self.spec_reg_free_for(
                                    t,
                                    spec_dword_palette()[pi],
                                ) && (forall|q: int|
                                    0 <= q < pi ==> !self.spec_reg_free_for(
                                        t,
                                        #[trigger] spec_dword_palette()[q],
                                    )),
                            AllocationKind::Stack(_) => forall|q: int|
                                0 <= q < spec_dword_palette().len() ==> !self.spec_reg_free_for(
                                    t,
                                    #[trigger] spec_dword_palette()[q],
                                ),
                        }),
                        None => false,
                    }),
            decreases total - k,
        {
            let vir = self.virtuals[k].0;
            let info = self.virtuals[k].1;
            // try the palette in order, skipping excluded registers and
            // registers already given to a lifetime that overlaps this one
            let palette = amd64_alloc_dword_reg();
            let mut chosen: Option<Amd64Register> = None;
            let mut p: usize = 0;
            while p < palette.len()
                invariant_except_break
                    0 <= p <= palette@.len(),
                    palette@ == spec_dword_palette(),
                    chosen is None,
                    0 <= k < total,
                    total as int == virtuals_v.len(),
                    self.virtuals@ == virtuals_v,
                    info == virtuals_v[k as int].1,
                    vir == virtuals_v[k as int].0,
                    forall|q: int|
                        0 <= q < p ==> !self.spec_reg_free_for(
                            k as int,
                            #[trigger] spec_dword_palette()[q],
                        ),
                ensures
                    match chosen {
                        Some(reg) => spec_dword_palette().contains(reg)
                            && !self.manually_excluded@.contains(RealRegister::Amd64(reg)) && (
                        forall|tp: int|
                            0 <= tp < k ==> (match #[trigger] self.allocations.spec_at(
                                virtuals_v[tp].0.n as int,
                            ) {
                                Some(pp) => (match pp.0.kind {
                                    AllocationKind::Reg(RealRegister::Amd64(pr)) => !(pr == reg
                                        && lifetimes_overlap(info, pp.0.info)),
                                    _ => true,
                                }),
                                None => true,
                            })) && (exists|pi: int|
                            #![trigger spec_dword_palette()[pi]]
                            0 <= pi < spec_dword_palette().len() && spec_dword_palette()[pi]
                                == reg && self.spec_reg_free_for(
                                k as int,
                                spec_dword_palette()[pi],
                            ) && (forall|q: int|
                                0 <= q < pi ==> !self.spec_reg_free_for(
                                    k as int,
                                    #[trigger] spec_dword_palette()[q],
                                ))),
                        None => forall|q: int|
                            0 <= q < spec_dword_palette().len() ==> !self.spec_reg_free_for(
                                k as int,
                                #[trigger] spec_dword_palette()[q],
                            ),
                    },
                decreases palette@.len() - p,
            {
                let reg = palette[p];
                let mut excluded = false;
                let mut e: usize = 0;
                while e < self.manually_excluded.len()
                    invariant
                        0 <= e <= self.manually_excluded@.len(),
                        excluded ==> self.manually_excluded@.contains(RealRegister::Amd64(reg)),
                        !excluded ==> forall|t: int|
                            0 <= t < e ==> #[trigger] self.manually_excluded@[t]
                                != RealRegister::Amd64(reg),
                    decreases self.manually_excluded@.len() - e,
                {
                    if self.manually_excluded[e] == RealRegister::Amd64(reg) {
                        excluded = true;
                    }
                    e = e + 1;
                }
                let mut clash = false;
                let mut t: usize = 0;
                while t < k
                    invariant
                        0 <= t <= k <= total,
                        total as int == virtuals_v.len(),
                        self.virtuals@ == virtuals_v,
                        !clash ==> forall|tp: int|
                            0 <= tp < t ==> (match #[trigger] self.allocations.spec_at(
                                virtuals_v[tp].0.n as int,
                            ) {
                                Some(pp) => (match pp.0.kind {
                                    AllocationKind::Reg(RealRegister::Amd64(pr)) => !(pr == reg
                                        && lifetimes_overlap(info, pp.0.info)),
                                    _ => true,
                                }),
                                None => true,
                            }),
                        clash ==> exists|tp: int|
                            0 <= tp < k && (match #[trigger] self.allocations.spec_at(
                                virtuals_v[tp].0.n as int,
                            ) {
                                Some(pp) => (match pp.0.kind {
                                    AllocationKind::Reg(RealRegister::Amd64(pr)) => pr == reg
                                        && lifetimes_overlap(info, pp.0.info),
                                    _ => false,
                                }),
                                None => false,
                            }),
                    decreases k - t,
                {
                    let prior = self.virtuals[t].0;
                    match self.allocations.get(&prior) {
                        Some(alloc) => {
                            match alloc.kind {
                                AllocationKind::Reg(RealRegister::Amd64(prior_reg)) => {
                                    let overlap = {
                                        let a = info;
                                        let b = alloc.info;
                                        (a.lifetime_begin >= b.lifetime_begin && a.lifetime_begin
                                            <= b.lifetime_end) || (a.lifetime_end <= b.lifetime_end
                                            && a.lifetime_end >= b.lifetime_begin)
                                    };
                                    if prior_reg == reg && overlap {
                                        clash = true;
                                        proof {
                                            assert(match self.allocations.spec_at(
                                                virtuals_v[t as int].0.n as int,
                                            ) {
                                                Some(pp) => (match pp.0.kind {
                                                    AllocationKind::Reg(
                                                        RealRegister::Amd64(pr),
                                                    ) => pr == reg && lifetimes_overlap(
                                                        info,
                                                        pp.0.info,
                                                    ),
                                                    _ => false,
                                                }),
                                                None => false,
                                            });
                                        }
                                    }
                                },
                                _ => {},
                            }
                        },
                        None => {},
                    }
                    t = t + 1;
                    proof {
                        if !clash {
                            assert forall|tp: int|
                                0 <= tp < t implies (match #[trigger] self.allocations.spec_at(
                                virtuals_v[tp].0.n as int,
                            ) {
                                Some(pp) => (match pp.0.kind {
                                    AllocationKind::Reg(RealRegister::Amd64(pr)) => !(pr == reg
                                        && lifetimes_overlap(info, pp.0.info)),
                                    _ => true,
                                }),
                                None => true,
                            }) by {}
                        }
                    }
                }
                if !excluded && !clash {
                    proof {
                        assert(spec_dword_palette().contains(palette@[p as int]));
                        if self.manually_excluded@.contains(RealRegister::Amd64(reg)) {
                            let w = choose|w: int|
                                0 <= w < self.manually_excluded@.len()
                                    && self.manually_excluded@[w] == RealRegister::Amd64(reg);
                        }
                        assert(!self.spec_excluded().contains(RealRegister::Amd64(reg)));
                        assert forall|tp: int|
                            0 <= tp < k implies (match (#[trigger] self.spec_allocation_at(
                            self.spec_virtuals()[tp].0.n as int,
                        )) {
                            Some(pp) => (match pp.0.kind {
                                AllocationKind::Reg(RealRegister::Amd64(pr)) => !(pr == reg
                                    && lifetimes_overlap(
                                    self.spec_virtuals()[k as int].1,
                                    pp.0.info,
                                )),
                                _ => true,
                            }),
                            None => true,
                        }) by {
                            assert(self.spec_allocation_at(self.spec_virtuals()[tp].0.n as int)
                                == self.allocations.spec_at(virtuals_v[tp].0.n as int));
                            assert(self.spec_virtuals()[k as int].1 == info);
                        }
                        assert(self.spec_reg_free_for(k as int, reg));
                        assert((p as int) < spec_dword_palette().len()
                            && spec_dword_palette()[p as int] == reg && self.spec_reg_free_for(
                            k as int,
                            spec_dword_palette()[p as int],
                        ) && (forall|q: int|
                            0 <= q < p as int ==> !self.spec_reg_free_for(
                                k as int,
                                #[trigger] spec_dword_palette()[q],
                            )));
                    }
                    chosen = Some(reg);
                    break ;
                }
                proof {
                    if excluded {
                        assert(!self.spec_reg_free_for(k as int, reg));
                    } else {
                        let tp = choose|tp: int|
                            0 <= tp < k && (match #[trigger] self.allocations.spec_at(
                                virtuals_v[tp].0.n as int,
                            ) {
                                Some(pp) => (match pp.0.kind {
                                    AllocationKind::Reg(RealRegister::Amd64(pr)) => pr == reg
                                        && lifetimes_overlap(info, pp.0.info),
                                    _ => false,
                                }),
                                None => false,
                            });
                        if self.spec_reg_free_for(k as int, reg) {
                            assert(self.spec_allocation_at(self.spec_virtuals()[tp].0.n as int)
                                == self.allocations.spec_at(virtuals_v[tp].0.n as int));
                            assert(self.spec_virtuals()[k as int].1 == info);
                            assert(false);
                        }
                        assert(!self.spec_reg_free_for(k as int, reg));
                    }
                    assert(spec_dword_palette()[p as int] == reg);
                }
                p = p + 1;
            }
            let ghost self_pre = *self;
            let kind = match chosen {
                Some(reg) => AllocationKind::Reg(RealRegister::Amd64(reg)),
                None => {
                    // register pressure: a fresh stack slot of the
                    // register's width
                    proof {
                        assert(k as int * 4 + 4 <= virtuals_v.len() * 4) by (nonlinear_arith)
                            requires
                                k as int + 1 <= virtuals_v.len(),
                        ;
                    }
                    self.stack_alloc_offset = self.stack_alloc_offset + vir.bytes;
                    AllocationKind::Stack(
                        StackRegister { slot: self.stack_alloc_offset, bytes: vir.bytes },
                    )
                },
            };
            let ghost allocs_pre = self.allocations;
            self.allocations.insert(&vir, Allocation { info, vir, kind });
            k = k + 1;
            proof {
                assert forall|t1: int, t2: int|
                    0 <= t1 < t2 < k && lifetimes_overlap(virtuals_v[t2].1, virtuals_v[t1].1)
                        implies (match (
                    #[trigger] self.allocations.spec_at(virtuals_v[t1].0.n as int),
                    #[trigger] self.allocations.spec_at(virtuals_v[t2].0.n as int),
                ) {
                    (Some(pa), Some(pb)) => (match (pa.0.kind, pb.0.kind) {
                        (AllocationKind::Reg(ra), AllocationKind::Reg(rb)) => ra != rb,
                        _ => true,
                    }),
                    _ => true,
                }) by {
                    if t2 < k - 1 {
                        assert(virtuals_v[t1].0.n != virtuals_v[k - 1].0.n);
                        assert(virtuals_v[t2].0.n != virtuals_v[k - 1].0.n);
                        assert(self.allocations.spec_at(virtuals_v[t1].0.n as int)
                            == allocs_pre.spec_at(virtuals_v[t1].0.n as int));
                        assert(self.allocations.spec_at(virtuals_v[t2].0.n as int)
                            == allocs_pre.spec_at(virtuals_v[t2].0.n as int));
                        assert(match (
                            allocs_pre.spec_at(virtuals_v[t1].0.n as int),
                            allocs_pre.spec_at(virtuals_v[t2].0.n as int),
                        ) {
                            (Some(pa), Some(pb)) => (match (pa.0.kind, pb.0.kind) {
                                (AllocationKind::Reg(ra), AllocationKind::Reg(rb)) => ra != rb,
                                _ => true,
                            }),
                            _ => true,
                        });
                    } else {
                        assert(virtuals_v[t1].0.n != virtuals_v[k - 1].0.n);
                        assert(self.allocations.spec_at(virtuals_v[t1].0.n as int)
                            == allocs_pre.spec_at(virtuals_v[t1].0.n as int));
                        assert(self.allocations.spec_at(virtuals_v[t2].0.n as int) == Some(
                            (Allocation { info, vir, kind }, vir.bytes),
                        ));
                        assert(info == virtuals_v[t2].1);
                        assert(lifetimes_overlap(info, virtuals_v[t1].1));
                        match chosen {
                            Some(creg) => {
                                assert(kind == AllocationKind::Reg(RealRegister::Amd64(creg)));
                                assert(match allocs_pre.spec_at(virtuals_v[t1].0.n as int) {
                                    Some(pp) => (match pp.0.kind {
                                        AllocationKind::Reg(RealRegister::Amd64(pr)) => !(pr
                                            == creg && lifetimes_overlap(info, pp.0.info)),
                                        _ => true,
                                    }),
                                    None => true,
                                });
                                assert(match allocs_pre.spec_at(virtuals_v[t1].0.n as int) {
                                    Some(pp) => pp.0.info == virtuals_v[t1].1,
                                    None => false,
                                });
                            },
                            None => {},
                        }
                    }
                }
                assert forall|t: int|
                    0 <= t < k implies (match (#[trigger] self.allocations.spec_at(
                    virtuals_v[t].0.n as int,
                )) {
                    Some(pr) => pr.0.vir == virtuals_v[t].0 && pr.0.info == virtuals_v[t].1 && (
                    match pr.0.kind {
                        AllocationKind::Reg(RealRegister::Amd64(reg)) => spec_dword_palette().contains(reg)
                            && !self.manually_excluded@.contains(RealRegister::Amd64(reg)),
                        _ => true,
                    }),
                    None => false,
                }) by {
                    if t < k - 1 {
                        assert(virtuals_v[t].0.n != virtuals_v[k - 1].0.n);
                        assert(self.allocations.spec_at(virtuals_v[t].0.n as int)
                            == allocs_pre.spec_at(virtuals_v[t].0.n as int));
                    }
                }
                // slot width and bounds
                assert forall|t: int|
                    0 <= t < k implies (match (#[trigger] self.allocations.spec_at(
                    virtuals_v[t].0.n as int,
                )) {
                    Some(p2) => (match p2.0.kind {
                        AllocationKind::Stack(ss) => ss.bytes == virtuals_v[t].0.bytes && 0
                            < ss.slot && ss.slot as int <= self.stack_alloc_offset as int,
                        _ => true,
                    }),
                    None => false,
                }) by {
                    if t < k - 1 {
                        assert(virtuals_v[t].0.n != virtuals_v[k - 1].0.n);
                        assert(self.allocations.spec_at(virtuals_v[t].0.n as int)
                            == allocs_pre.spec_at(virtuals_v[t].0.n as int));
                    }
                }
                // slots grow strictly down the list
                assert forall|t1: int, t2: int|
                    0 <= t1 < t2 < k implies (match (
                    #[trigger] self.allocations.spec_at(virtuals_v[t1].0.n as int),
                    #[trigger] self.allocations.spec_at(virtuals_v[t2].0.n as int),
                ) {
                    (Some(pa), Some(pb)) => (match (pa.0.kind, pb.0.kind) {
                        (AllocationKind::Stack(sa), AllocationKind::Stack(sb)) => sa.slot
                            < sb.slot,
                        _ => true,
                    }),
                    _ => true,
                }) by {
                    assert(virtuals_v[t1].0.n != virtuals_v[k - 1].0.n || t1 == k - 1);
                    if t2 < k - 1 {
                        assert(self.allocations.spec_at(virtuals_v[t1].0.n as int)
                            == allocs_pre.spec_at(virtuals_v[t1].0.n as int));
                        assert(self.allocations.spec_at(virtuals_v[t2].0.n as int)
                            == allocs_pre.spec_at(virtuals_v[t2].0.n as int));
                    } else {
                        assert(virtuals_v[t1].0.n != virtuals_v[k - 1].0.n);
                        assert(self.allocations.spec_at(virtuals_v[t1].0.n as int)
                            == allocs_pre.spec_at(virtuals_v[t1].0.n as int));
                        assert(self.allocations.spec_at(virtuals_v[t2].0.n as int) == Some(
                            (Allocation { info, vir, kind }, vir.bytes),
                        ));
                    }
                }
                // free-ness at earlier steps is untouched by the insert
                assert forall|t: int, q: int|
                    0 <= t < k && 0 <= q < spec_dword_palette().len() implies (
                #[trigger] self.spec_reg_free_for(t, spec_dword_palette()[q]))
                    == self_pre.spec_reg_free_for(t, spec_dword_palette()[q]) by {
                    let reg2 = spec_dword_palette()[q];
                    assert(self.spec_excluded() == self_pre.spec_excluded());
                    assert(self.spec_virtuals() == self_pre.spec_virtuals());
                    assert forall|tp: int|
                        0 <= tp < t implies #[trigger] self.spec_allocation_at(
                        virtuals_v[tp].0.n as int,
                    ) == self_pre.spec_allocation_at(virtuals_v[tp].0.n as int) by {
                        assert(virtuals_v[tp].0.n != virtuals_v[k - 1].0.n);
                        assert(self.allocations.spec_at(virtuals_v[tp].0.n as int)
                            == allocs_pre.spec_at(virtuals_v[tp].0.n as int));
                    }
                    if self.spec_reg_free_for(t, reg2) {
                        assert forall|tp: int|
                            0 <= tp < t implies (match (
                        #[trigger] self_pre.spec_allocation_at(virtuals_v[tp].0.n as int)) {
                            Some(pp) => (match pp.0.kind {
                                AllocationKind::Reg(RealRegister::Amd64(pr)) => !(pr == reg2
                                    && lifetimes_overlap(virtuals_v[t].1, pp.0.info)),
                                _ => true,
                            }),
                            None => true,
                        }) by {
                            assert(self.spec_allocation_at(virtuals_v[tp].0.n as int)
                                == self_pre.spec_allocation_at(virtuals_v[tp].0.n as int));
                        }
                        assert(self_pre.spec_reg_free_for(t, reg2));
                    }
                    if self_pre.spec_reg_free_for(t, reg2) {
                        assert forall|tp: int|
                            0 <= tp < t implies (match (#[trigger] self.spec_allocation_at(
                            virtuals_v[tp].0.n as int,
                        )) {
                            Some(pp) => (match pp.0.kind {
                                AllocationKind::Reg(RealRegister::Amd64(pr)) => !(pr == reg2
                                    && lifetimes_overlap(virtuals_v[t].1, pp.0.info)),
                                _ => true,
                            }),
                            None => true,
                        }) by {
                            assert(self.spec_allocation_at(virtuals_v[tp].0.n as int)
                                == self_pre.spec_allocation_at(virtuals_v[tp].0.n as int));
                        }
                        assert(self.spec_reg_free_for(t, reg2));
                    }
                }
                // every decision so far was first fit
                assert forall|t: int|
                    0 <= t < k implies (match (#[trigger] self.allocations.spec_at(
                    virtuals_v[t].0.n as int,
                )) {
                    Some(p2) => (match p2.0.kind {
                        AllocationKind::Reg(RealRegister::Amd64(reg2)) => exists|pi: int|
                            #![trigger spec_dword_palette()[pi]]
                            0 <= pi < spec_dword_palette().len() && spec_dword_palette()[pi]
                                == reg2 && self.spec_reg_free_for(t, spec_dword_palette()[pi])
                                && (forall|q: int|
                                0 <= q < pi ==> !self.spec_reg_free_for(
                                    t,
                                    #[trigger] spec_dword_palette()[q],
                                )),
                        AllocationKind::Stack(_) => forall|q: int|
                            0 <= q < spec_dword_palette().len() ==> !self.spec_reg_free_for(
                                t,
                                #[trigger] spec_dword_palette()[q],
                            ),
                    }),
                    None => false,
                }) by {
                    if t < k - 1 {
                        assert(virtuals_v[t].0.n != virtuals_v[k - 1].0.n);
                        assert(self.allocations.spec_at(virtuals_v[t].0.n as int)
                            == allocs_pre.spec_at(virtuals_v[t].0.n as int));
                        match allocs_pre.spec_at(virtuals_v[t].0.n as int) {
                            Some(p2) => {
                                match p2.0.kind {
                                    AllocationKind::Reg(RealRegister::Amd64(reg2)) => {
                                        let pi = choose|pi: int|
                                            #![trigger spec_dword_palette()[pi]]
                                            0 <= pi < spec_dword_palette().len()
                                                && spec_dword_palette()[pi] == reg2
                                                && self_pre.spec_reg_free_for(
                                                t,
                                                spec_dword_palette()[pi],
                                            ) && (forall|q: int|
                                                0 <= q < pi ==> !self_pre.spec_reg_free_for(
                                                    t,
                                                    #[trigger] spec_dword_palette()[q],
                                                ));
                                        assert(self.spec_reg_free_for(
                                            t,
                                            spec_dword_palette()[pi],
                                        ));
                                        assert forall|q: int|
                                            0 <= q < pi implies !self.spec_reg_free_for(
                                            t,
                                            #[trigger] spec_dword_palette()[q],
                                        ) by {
                                            assert(self.spec_reg_free_for(
                                                t,
                                                spec_dword_palette()[q],
                                            ) == self_pre.spec_reg_free_for(
                                                t,
                                                spec_dword_palette()[q],
                                            ));
                                        }
                                        assert(0 <= pi < spec_dword_palette().len()
                                            && spec_dword_palette()[pi] == reg2
                                            && self.spec_reg_free_for(
                                            t,
                                            spec_dword_palette()[pi],
                                        ) && (forall|q: int|
                                            0 <= q < pi ==> !self.spec_reg_free_for(
                                                t,
                                                #[trigger] spec_dword_palette()[q],
                                            )));
                                    },
                                    AllocationKind::Stack(_) => {
                                        assert forall|q: int|
                                            0 <= q < spec_dword_palette().len()
                                                implies !self.spec_reg_free_for(
                                            t,
                                            #[trigger] spec_dword_palette()[q],
                                        ) by {
                                            assert(self.spec_reg_free_for(
                                                t,
                                                spec_dword_palette()[q],
                                            ) == self_pre.spec_reg_free_for(
                                                t,
                                                spec_dword_palette()[q],
                                            ));
                                        }
                                    },
                                }
                            },
                            None => {},
                        }
                    } else {
                        assert(self.allocations.spec_at(virtuals_v[t].0.n as int) == Some(
                            (Allocation { info, vir, kind }, vir.bytes),
                        ));
                        match chosen {
                            Some(creg) => {
                                let pi = choose|pi: int|
                                    #![trigger spec_dword_palette()[pi]]
                                    0 <= pi < spec_dword_palette().len()
                                        && spec_dword_palette()[pi] == creg
                                        && self_pre.spec_reg_free_for(
                                        t,
                                        spec_dword_palette()[pi],
                                    ) && (forall|q: int|
                                        0 <= q < pi ==> !self_pre.spec_reg_free_for(
                                            t,
                                            #[trigger] spec_dword_palette()[q],
                                        ));
                                assert(self.spec_reg_free_for(t, spec_dword_palette()[pi]));
                                assert forall|q: int|
                                    0 <= q < pi implies !self.spec_reg_free_for(
                                    t,
                                    #[trigger] spec_dword_palette()[q],
                                ) by {
                                    assert(self.spec_reg_free_for(t, spec_dword_palette()[q])
                                        == self_pre.spec_reg_free_for(
                                        t,
                                        spec_dword_palette()[q],
                                    ));
                                }
                                assert(0 <= pi < spec_dword_palette().len()
                                    && spec_dword_palette()[pi] == creg
                                    && self.spec_reg_free_for(t, spec_dword_palette()[pi]) && (
                                forall|q: int|
                                    0 <= q < pi ==> !self.spec_reg_free_for(
                                        t,
                                        #[trigger] spec_dword_palette()[q],
                                    )));
                            },
                            None => {
                                assert forall|q: int|
                                    0 <= q < spec_dword_palette().len()
                                        implies !self.spec_reg_free_for(
                                    t,
                                    #[trigger] spec_dword_palette()[q],
                                ) by {
                                    assert(self.spec_reg_free_for(t, spec_dword_palette()[q])
                                        == self_pre.spec_reg_free_for(
                                        t,
                                        spec_dword_palette()[q],
                                    ));
                                    assert(!self_pre.spec_reg_free_for(
                                        t,
                                        spec_dword_palette()[q],
                                    ));
                                }
                            },
                        }
                    }
                }
            }
        }
    }
}

} // verus!
