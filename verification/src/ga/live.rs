//! Live locations at instruction granularity, and the set of variables
//! alive at one point.
use vstd::prelude::*;

verus! {

/// A numbered virtual register of this allocator.
#[derive(Hash, Debug, Copy, Clone, PartialEq, Eq, Structural)]
pub struct VrReg(pub u32);

/// Index of an instruction.
pub type InstructionId = u32;

#[derive(Hash, Debug, Copy, Clone, PartialEq, Eq, Structural)]
pub enum LiveLocationMode {
    Pre,
    Post,
}

/// An instruction index qualified by a before/after position.
#[derive(Hash, Debug, Copy, Clone, PartialEq, Eq, Structural)]
pub struct LiveLocation {
    pub mode: LiveLocationMode,
    pub index: InstructionId,
}

/// A run of live locations within one block.
#[derive(Hash, Debug, Copy, Clone, PartialEq, Eq, Structural)]
pub struct LocalLiveRange {
    pub from: LiveLocation,
    pub to: LiveLocation,
}

/// A register's whole live range.
#[derive(Debug)]
pub struct LiveRange {
    pub ranges: Vec<LocalLiveRange>,
    pub reg: VrReg,
}

/// True when one of the first `n` entries carries number `id`.
pub open spec fn among(vars: Seq<VrReg>, n: int, id: int) -> bool {
    exists|t: int| 0 <= t < n && (#[trigger] vars[t]).0 == id
}

/// The set of registers alive at one point, each listed once.
pub struct LiveSet {
    vars: Vec<VrReg>,
}

impl LiveSet {
    /// True when the register with number `id` is in the set.
    pub closed spec fn spec_contains(&self, id: int) -> bool {
        exists|i: int| 0 <= i < self.vars@.len() && (#[trigger] self.vars@[i]).0 == id
    }

    /// No register is listed twice.
    pub closed spec fn wf(&self) -> bool {
        forall|a: int, b: int|
            0 <= a < b < self.vars@.len() ==> (#[trigger] self.vars@[a]).0 != (
            #[trigger] self.vars@[b]).0
    }

    pub fn new() -> (r: Self)
        ensures
            r.wf(),
            forall|id: int| !r.spec_contains(id),
    {
        LiveSet { vars: Vec::new() }
    }

    pub fn contains(&self, reg: VrReg) -> (r: bool)
        ensures
            r == self.spec_contains(reg.0 as int),
    {
        let mut i: usize = 0;
        while i < self.vars.len()
            invariant
                0 <= i <= self.vars@.len(),
                forall|t: int| 0 <= t < i ==> (#[trigger] self.vars@[t]).0 != reg.0,
            decreases self.vars@.len() - i,
        {
            if self.vars[i].0 == reg.0 {
                proof {
                    assert(self.vars@[i as int].0 == reg.0);
                }
                return true;
            }
            i = i + 1;
        }
        false
    }

    /// Puts the register in or takes it out, by the flag.
    #[verifier::loop_isolation(false)]
    pub fn set(&mut self, reg: VrReg, b: bool)
        requires
            old(self).wf(),
        ensures
            final(self).wf(),
            forall|id: int|
                final(self).spec_contains(id) == if id == reg.0 as int {
                    b
                } else {
                    old(self).spec_contains(id)
                },
    {
        let ghost pre = self.vars@;
        let mut i: usize = 0;
        let mut found = false;
        let mut at_pos: usize = 0;
        while i < self.vars.len()
            invariant
                0 <= i <= self.vars@.len(),
                self.vars@ == pre,
                !found ==> forall|t: int| 0 <= t < i ==> (#[trigger] self.vars@[t]).0 != reg.0,
                found ==> 0 <= at_pos < self.vars@.len() && self.vars@[at_pos as int].0 == reg.0,
            decreases self.vars@.len() - i,
        {
            if !found && self.vars[i].0 == reg.0 {
                found = true;
                at_pos = i;
            }
            i = i + 1;
        }
        if b {
            if !found {
                self.vars.push(reg);
                proof {
                    assert forall|id: int|
                        final(self).spec_contains(id) == if id == reg.0 as int {
                            true
                        } else {
                            old(self).spec_contains(id)
                        } by {
                        if id == reg.0 as int {
                            assert(self.vars@[self.vars@.len() - 1].0 == id);
                            assert(self.spec_contains(id));
                        } else {
                            if self.spec_contains(id) {
                                let t = choose|t: int|
                                    0 <= t < self.vars@.len() && (#[trigger] self.vars@[t]).0 == id;
                                assert(pre[t].0 == id);
                            }
                            if old(self).spec_contains(id) {
                                let t = choose|t: int|
                                    0 <= t < pre.len() && (#[trigger] pre[t]).0 == id;
                                assert(self.vars@[t].0 == id);
                            }
                        }
                    }
                }
            } else {
                proof {
                    assert(self.spec_contains(reg.0 as int));
                }
            }
        } else {
            if found {
                self.vars.remove(at_pos);
                proof {
                    assert forall|id: int|
                        final(self).spec_contains(id) == if id == reg.0 as int {
                            false
                        } else {
                            old(self).spec_contains(id)
                        } by {
                        if self.spec_contains(id) {
                            let t = choose|t: int|
                                0 <= t < self.vars@.len() && (#[trigger] self.vars@[t]).0 == id;
                            if t < at_pos {
                                assert(pre[t].0 == id);
                            } else {
                                assert(pre[t + 1].0 == id);
                            }
                        }
                        if id != reg.0 as int && old(self).spec_contains(id) {
                            let t = choose|t: int|
                                0 <= t < pre.len() && (#[trigger] pre[t]).0 == id;
                            assert(t != at_pos);
                            if t < at_pos {
                                assert(self.vars@[t].0 == id);
                            } else {
                                assert(self.vars@[t - 1].0 == id);
                            }
                        }
                        if id == reg.0 as int && self.spec_contains(id) {
                            let t = choose|t: int|
                                0 <= t < self.vars@.len() && (#[trigger] self.vars@[t]).0 == id;
                            if t < at_pos {
                                assert(pre[t].0 == id);
                            } else {
                                assert(pre[t + 1].0 == id);
                            }
                            assert(false);
                        }
                    }
                    assert forall|a: int, b2: int|
                        0 <= a < b2 < self.vars@.len() implies (#[trigger] self.vars@[a]).0 != (
                    #[trigger] self.vars@[b2]).0 by {
                        let pa = if a < at_pos {
                            a
                        } else {
                            a + 1
                        };
                        let pb = if b2 < at_pos {
                            b2
                        } else {
                            b2 + 1
                        };
                        assert(self.vars@[a] == pre[pa]);
                        assert(self.vars@[b2] == pre[pb]);
                    }
                }
            }
        }
    }

    /// Adds every register of `other`.
    #[verifier::loop_isolation(false)]
    pub fn union_add(&mut self, other: &LiveSet)
        requires
            old(self).wf(),
            other.wf(),
        ensures
            final(self).wf(),
            forall|id: int|
                final(self).spec_contains(id) == (old(self).spec_contains(id)
                    || other.spec_contains(id)),
    {
        let ghost pre = *self;
        let mut i: usize = 0;
        while i < other.vars.len()
            invariant
                0 <= i <= other.vars@.len(),
                self.wf(),
                forall|t: int|
                    0 <= t < i ==> self.spec_contains((#[trigger] other.vars@[t]).0 as int),
                forall|id: int|
                    #[trigger] self.spec_contains(id) ==> (pre.spec_contains(id)
                        || other.spec_contains(id)),
                forall|id: int| pre.spec_contains(id) ==> #[trigger] self.spec_contains(id),
            decreases other.vars@.len() - i,
        {
            let v = other.vars[i];
            let ghost i0 = i as int;
            self.set(v, true);
            i = i + 1;
            proof {
                assert(self.spec_contains(v.0 as int));
                assert(other.vars@[i0].0 == v.0);
                assert forall|id: int|
                    #[trigger] self.spec_contains(id) implies (pre.spec_contains(id)
                        || other.spec_contains(id)) by {
                    if id == v.0 as int {
                        assert(other.spec_contains(id));
                    }
                }
            }
        }
        proof {
            assert forall|id: int|
                final(self).spec_contains(id) == (old(self).spec_contains(id)
                    || other.spec_contains(id)) by {
                if other.spec_contains(id) {
                    let t = choose|t: int|
                        0 <= t < other.vars@.len() && (#[trigger] other.vars@[t]).0 == id;
                    assert(self.spec_contains(other.vars@[t].0 as int));
                }
            }
        }
    }

    /// The registers of the set, in insertion order.
    pub fn iter(&self) -> (r: Vec<VrReg>)
        ensures
            forall|id: int|
                self.spec_contains(id) == exists|i: int|
                    0 <= i < r@.len() && (#[trigger] r@[i]).0 == id,
    {
        let mut r: Vec<VrReg> = Vec::new();
        let mut i: usize = 0;
        while i < self.vars.len()
            invariant
                0 <= i <= self.vars@.len(),
                r@ == self.vars@.subrange(0, i as int),
            decreases self.vars@.len() - i,
        {
            r.push(self.vars[i]);
            i = i + 1;
            proof {
                assert(r@ =~= self.vars@.subrange(0, i as int));
            }
        }
        proof {
            assert(r@ =~= self.vars@);
        }
        r
    }
}

} // verus!
