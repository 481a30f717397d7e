//! A generic allocator's data model: numbered operands, variables,
//! registers and instructions, live-range slices with before/after
//! positions, and a postorder walk over the control-flow graph.
use vstd::prelude::*;
use crate::bb;

pub mod ifr;
pub mod live;

verus! {

#[derive(Debug, Copy, Clone, PartialEq, Eq, Structural)]
pub struct GAOperandNo(pub u32);

#[derive(Debug, Copy, Clone, PartialEq, Eq, Structural)]
pub struct GAVarNo(pub u32);

#[derive(Debug, Copy, Clone, PartialEq, Eq, Structural)]
pub struct GARegNo(pub u32);

#[derive(Debug, Copy, Clone, PartialEq, Eq, Structural)]
pub struct GAInstrNo(pub u32);

impl GAOperandNo {
    pub fn opr_no(&self) -> (r: u32)
        ensures
            r == self.0,
    {
        self.0
    }
}

impl GAInstrNo {
    pub fn instr_no(&self) -> (r: u32)
        ensures
            r == self.0,
    {
        self.0
    }
}

/// Whether a location sits just before or just after its instruction.
#[derive(Debug, Copy, Clone, PartialEq, Eq, Structural)]
pub enum GALiveWhen {
    Pre,
    Post,
}

/// An instruction qualified by a before/after position.
#[derive(Debug, Copy, Clone, PartialEq, Eq, Structural)]
pub struct GALocation {
    pub instr: GAInstrNo,
    pub when: GALiveWhen,
}

/// A contiguous piece of a live range.
#[derive(Debug, Copy, Clone, PartialEq, Eq, Structural)]
pub struct LRSlice {
    pub from: GALocation,
    pub to: GALocation,
}

/// A variable's whole live range, slice by slice.
#[derive(Debug)]
pub struct LiveRange {
    pub slices: Vec<LRSlice>,
}

/// A constraint on where an operand may live.
#[derive(Debug, Copy, Clone, PartialEq, Eq, Structural)]
pub enum GAConstraint {
    Reuse(GAOperandNo),
    Fix(GARegNo),
}

/// A value to allocate: its constraints and its range.
pub struct Allocno {
    pub constraints: Vec<GAConstraint>,
    pub slice: LRSlice,
}

/// One operand of an instruction.
#[derive(Debug)]
pub struct GAOperand {
    pub oprno: GAOperandNo,
    pub varno: GAVarNo,
    pub constraints: Vec<GAConstraint>,
    pub when: GALiveWhen,
}

/// One numbered instruction with its operands.
#[derive(Debug)]
pub struct GAInstr {
    pub operands: Vec<GAOperand>,
    pub instrno: GAInstrNo,
}

/// Walks the graph depth-first from `entry` and returns the blocks in
/// postorder: each block is listed at most once, after every successor the
/// walk entered through it.
#[verifier::loop_isolation(false)]
pub fn compute_postorder<I>(
    entry: bb::BasicBlockId,
    cfg: &bb::ControlFlow<I>,
) -> (ret: Vec<bb::BasicBlockId>)
    requires
        0 <= entry.bid() < cfg.block_seq().len(),
    ensures
        ret@.len() <= cfg.block_seq().len(),
        forall|i: int| 0 <= i < ret@.len() ==> 0 <= (#[trigger] ret@[i]).bid() < cfg.block_seq().len(),
        forall|i: int, j: int| 0 <= i < j < ret@.len() ==> (#[trigger] ret@[i]).bid() != (#[trigger] ret@[j]).bid(),
        // the entry block closes the order
        ret@.len() > 0,
        ret@[ret@.len() - 1] == entry,
        // only the entry and blocks it reaches are listed
        forall|i: int|
            0 <= i < ret@.len() ==> ((#[trigger] ret@[i]).bid() == entry.bid()
                || crate::il::cfg::reachable(cfg.edge_seq(), entry.bid(), ret@[i].bid())),
        // and on a graph whose edges stay in range, all of them, each once
        cfg.wf() ==> (forall|b: int|
            0 <= b < cfg.block_seq().len() && (b == entry.bid() || crate::il::cfg::reachable(
                cfg.edge_seq(),
                entry.bid(),
                b,
            )) ==> #[trigger] ret_holds(ret@, b)),
{
    let num_blocks = cfg.block_count();
    let mut ret: Vec<bb::BasicBlockId> = Vec::new();
    let mut visited: Vec<bool> = Vec::new();
    let mut i: usize = 0;
    while i < num_blocks
        invariant
            0 <= i <= num_blocks,
            visited@.len() == i as int,
            forall|j: int| 0 <= j < i ==> !visited@[j],
        decreases num_blocks - i,
    {
        visited.push(false);
        i = i + 1;
    }
    // explicit DFS stack: a block and how many of its successors are done
    let mut stack_blocks: Vec<bb::BasicBlockId> = Vec::new();
    let mut stack_succs: Vec<Vec<bb::BasicBlockId>> = Vec::new();
    let mut stack_next: Vec<usize> = Vec::new();
    visited.set(entry.as_usize(), true);
    stack_blocks.push(entry);
    stack_succs.push(cfg.descendants(entry));
    stack_next.push(0);
    proof {
        crate::il::cfg::lemma_count_unvisited_nonneg(visited@);
        assert(stack_blocks@[0] == entry);
        assert(on_stack(stack_blocks@, entry.bid()));
        assert forall|j: int| 0 <= j < num_blocks implies !visited@.update(
            entry.bid(),
            false,
        )[j] by {}
        crate::il::cfg::lemma_count_unvisited_all_false(visited@.update(entry.bid(), false));
        crate::il::cfg::lemma_count_unvisited_update(visited@.update(entry.bid(), false), entry.bid());
        assert(visited@.update(entry.bid(), false).update(entry.bid(), true) =~= visited@);
    }
    while stack_blocks.len() > 0
        invariant
            visited@.len() == num_blocks as int,
            num_blocks as int == cfg.block_seq().len(),
            stack_blocks@.len() == stack_succs@.len(),
            stack_blocks@.len() == stack_next@.len(),
            forall|t: int|
                0 <= t < stack_blocks@.len() ==> 0 <= (#[trigger] stack_blocks@[t]).bid()
                    < num_blocks && visited@[stack_blocks@[t].bid()],
            forall|t: int|
                0 <= t < stack_blocks@.len() ==> !ret_holds(ret@, (#[trigger] stack_blocks@[t]).bid()),
            forall|t1: int, t2: int|
                0 <= t1 < t2 < stack_blocks@.len() ==> (#[trigger] stack_blocks@[t1]).bid() != (
                #[trigger] stack_blocks@[t2]).bid(),
            forall|i2: int|
                0 <= i2 < ret@.len() ==> 0 <= (#[trigger] ret@[i2]).bid() < num_blocks
                    && visited@[ret@[i2].bid()],
            forall|i2: int, j2: int|
                0 <= i2 < j2 < ret@.len() ==> (#[trigger] ret@[i2]).bid() != (#[trigger] ret@[j2]).bid(),
            ret@.len() + stack_blocks@.len() + crate::il::cfg::count_unvisited(visited@)
                == num_blocks as int,
            crate::il::cfg::count_unvisited(visited@) >= 0,
            forall|t: int|
                0 <= t < stack_next@.len() ==> #[trigger] stack_next@[t] <= stack_succs@[t]@.len(),
            0 <= entry.bid() < num_blocks as int,
            visited@[entry.bid()],
            stack_blocks@.len() > 0 ==> stack_blocks@[0] == entry,
            stack_blocks@.len() == 0 ==> ret@.len() > 0 && ret@[ret@.len() - 1] == entry,
            forall|t: int|
                0 <= t < stack_blocks@.len() ==> ((#[trigger] stack_succs@[t])@.map_values(
                    |b2: bb::BasicBlockId| b2.bid(),
                ) == bb::descs_of(cfg.edge_seq(), stack_blocks@[t].bid())),
            forall|j: int|
                0 <= j < num_blocks && #[trigger] visited@[j] ==> (j == entry.bid()
                    || crate::il::cfg::reachable(cfg.edge_seq(), entry.bid(), j)),
            forall|t: int, s: int|
                0 <= t < stack_blocks@.len() && 0 <= s < stack_next@[t] && 0 <= (
                #[trigger] stack_succs@[t]@[s]).bid() < num_blocks as int ==> visited@[stack_succs@[t]@[s].bid()],
            forall|j: int|
                0 <= j < num_blocks && visited@[j] && !on_stack(stack_blocks@, j)
                    ==> #[trigger] ret_holds(ret@, j),
            cfg.wf() ==> (forall|j: int, t: int|
                0 <= j < num_blocks && visited@[j] && !on_stack(stack_blocks@, j) && (
                #[trigger] crate::il::cfg::edge_in(cfg.edge_seq(), j, t)) ==> 0 <= t
                < num_blocks as int && visited@[t]),
        decreases crate::il::cfg::count_unvisited(visited@), stack_blocks@.len(), (if stack_next@.len() > 0 {
            stack_succs@.last()@.len() - stack_next@.last()
        } else {
            0int
        }),
    {
        let ghost old_stack = stack_blocks@;
        let ghost old_succs = stack_succs@;
        let ghost old_next = stack_next@;
        let ghost old_visited = visited@;
        let ghost old_ret = ret@;
        let top = stack_blocks.len() - 1;
        let next_succ = stack_next[top];
        if next_succ < stack_succs[top].len() {
            stack_next.set(top, next_succ + 1);
            let succ = stack_succs[top][next_succ];
            proof {
                let ti = top as int;
                let tb = old_stack[ti];
                assert(old_succs[ti]@.map_values(|b2: bb::BasicBlockId| b2.bid())[next_succ as int]
                    == old_succs[ti]@[next_succ as int].bid());
                assert(bb::descs_of(cfg.edge_seq(), tb.bid())[next_succ as int] == succ.bid());
                assert(bb::descs_of(cfg.edge_seq(), tb.bid()).contains(succ.bid()));
                bb::lemma_descs_are_exactly_the_edges(cfg.edge_seq(), tb.bid(), succ.bid());
                assert(crate::il::cfg::edge_in(cfg.edge_seq(), tb.bid(), succ.bid()));
            }
            if succ.as_usize() < num_blocks && !visited[succ.as_usize()] {
                proof {
                    crate::il::cfg::lemma_count_unvisited_update(visited@, succ.bid());
                }
                visited.set(succ.as_usize(), true);
                stack_blocks.push(succ);
                stack_succs.push(cfg.descendants(succ));
                stack_next.push(0);
                proof {
                    crate::il::cfg::lemma_count_unvisited_nonneg(visited@);
                    // the new block is reachable through the edge just taken
                    let ti = top as int;
                    let tb = old_stack[ti];
                    assert(old_visited[tb.bid()]);
                    if tb.bid() == entry.bid() {
                        crate::il::cfg::lemma_edge_gives_reach(
                            cfg.edge_seq(),
                            tb.bid(),
                            succ.bid(),
                        );
                    } else {
                        assert(crate::il::cfg::reachable(cfg.edge_seq(), entry.bid(), tb.bid()));
                        crate::il::cfg::lemma_reach_extend(
                            cfg.edge_seq(),
                            entry.bid(),
                            tb.bid(),
                            succ.bid(),
                        );
                    }
                    assert(crate::il::cfg::reachable(cfg.edge_seq(), entry.bid(), succ.bid()));
                    // what was on the stack is still on it
                    assert forall|j: int|
                        on_stack(old_stack, j) implies on_stack(stack_blocks@, j) by {
                        let t = choose|t: int|
                            0 <= t < old_stack.len() && (#[trigger] old_stack[t]).bid() == j;
                        assert(stack_blocks@[t].bid() == j);
                    }
                    assert(stack_blocks@[stack_blocks@.len() - 1].bid() == succ.bid());
                    assert(on_stack(stack_blocks@, succ.bid()));
                }
            } else {
                proof {
                    crate::il::cfg::lemma_count_unvisited_nonneg(visited@);
                    // the passed-over successor is out of range or visited
                    assert(old_succs[top as int]@[next_succ as int] == succ);
                }
            }
        } else {
            let block = match stack_blocks.pop() {
                Some(b) => b,
                None => {
                    break ;
                },
            };
            stack_succs.pop();
            stack_next.pop();
            ret.push(block);
            proof {
                crate::il::cfg::lemma_count_unvisited_nonneg(visited@);
                assert(block == old_stack[old_stack.len() - 1]);
                assert(stack_blocks@ =~= old_stack.drop_last());
                // an output element keeps every membership it had
                assert forall|j: int| ret_holds(old_ret, j) implies ret_holds(ret@, j) by {
                    let i2 = choose|i2: int|
                        0 <= i2 < old_ret.len() && (#[trigger] old_ret[i2]).bid() == j;
                    assert(ret@[i2].bid() == j);
                }
                assert(ret@[ret@.len() - 1] == block);
                assert(ret_holds(ret@, block.bid()));
                // leaving the stack means entering the list
                assert forall|j: int|
                    0 <= j < num_blocks as int && visited@[j] && !on_stack(
                    stack_blocks@,
                    j,
                ) implies ret_holds(ret@, j) by {
                    if on_stack(old_stack, j) {
                        let t = choose|t: int|
                            0 <= t < old_stack.len() && (#[trigger] old_stack[t]).bid() == j;
                        if t < old_stack.len() - 1 {
                            assert(stack_blocks@[t].bid() == j);
                            assert(on_stack(stack_blocks@, j));
                        } else {
                            assert(j == block.bid());
                        }
                    } else {
                        assert(ret_holds(old_ret, j));
                    }
                }
                // the finished block's successors were all taken
                if cfg.wf() {
                    assert forall|t: int|
                        #[trigger] crate::il::cfg::edge_in(
                        cfg.edge_seq(),
                        block.bid(),
                        t,
                    ) implies 0 <= t < num_blocks as int && visited@[t] by {
                        let k = choose|k: int|
                            0 <= k < cfg.edge_seq().len() && cfg.edge_seq()[k] == (block.bid(), t);
                        assert(0 <= t < num_blocks as int);
                        bb::lemma_descs_are_exactly_the_edges(cfg.edge_seq(), block.bid(), t);
                        assert(bb::descs_of(cfg.edge_seq(), block.bid()).contains(t));
                        let s = choose|s: int|
                            0 <= s < bb::descs_of(cfg.edge_seq(), block.bid()).len()
                                && bb::descs_of(cfg.edge_seq(), block.bid())[s] == t;
                        let ti = old_stack.len() - 1;
                        assert(old_succs[ti]@.map_values(|b2: bb::BasicBlockId| b2.bid())[s]
                            == old_succs[ti]@[s].bid());
                        assert(old_succs[ti]@[s].bid() == t);
                        assert(old_next[ti] == old_succs[ti]@.len());
                        assert(visited@[t]);
                    }
                    assert forall|j: int, t: int|
                        0 <= j < num_blocks as int && visited@[j] && !on_stack(stack_blocks@, j)
                            && #[trigger] crate::il::cfg::edge_in(
                            cfg.edge_seq(),
                            j,
                            t,
                        ) implies 0 <= t < num_blocks as int && visited@[t] by {
                        if on_stack(old_stack, j) {
                            let t2 = choose|t2: int|
                                0 <= t2 < old_stack.len() && (#[trigger] old_stack[t2]).bid() == j;
                            if t2 < old_stack.len() - 1 {
                                assert(stack_blocks@[t2].bid() == j);
                                assert(on_stack(stack_blocks@, j));
                            } else {
                                assert(j == block.bid());
                            }
                        }
                    }
                }
                // when the stack empties, the entry block has just left it
                if stack_blocks@.len() == 0 {
                    assert(block == entry);
                }
            }
        }
    }
    proof {
        if cfg.wf() {
            assert forall|b: int|
                0 <= b < cfg.block_seq().len() && (b == entry.bid() || crate::il::cfg::reachable(
                    cfg.edge_seq(),
                    entry.bid(),
                    b,
                )) implies ret_holds(ret@, b) by {
                assert(!on_stack(stack_blocks@, entry.bid()));
                if b == entry.bid() {
                    assert(visited@[b]);
                } else {
                    let p = choose|p: Seq<int>|
                        crate::il::cfg::is_path(cfg.edge_seq(), p, entry.bid(), b);
                    assert forall|t: int|
                        #[trigger] crate::il::cfg::edge_in(
                        cfg.edge_seq(),
                        entry.bid(),
                        t,
                    ) implies 0 <= t < visited@.len() && visited@[t] by {
                        assert(!on_stack(stack_blocks@, entry.bid()));
                    }
                    assert forall|j: int, t: int|
                        0 <= j < visited@.len() && visited@[j]
                            && #[trigger] crate::il::cfg::edge_in(
                            cfg.edge_seq(),
                            j,
                            t,
                        ) implies 0 <= t < visited@.len() && visited@[t] by {
                        assert(!on_stack(stack_blocks@, j));
                    }
                    crate::il::cfg::lemma_closed_covers_path(
                        cfg.edge_seq(),
                        visited@,
                        p,
                        entry.bid(),
                        b,
                    );
                }
                assert(!on_stack(stack_blocks@, b));
            }
        }
    }
    ret
}

/// True when the id sits somewhere on the DFS stack.
pub open spec fn on_stack(stack: Seq<bb::BasicBlockId>, b: int) -> bool {
    exists|t: int| 0 <= t < stack.len() && (#[trigger] stack[t]).bid() == b
}

/// True when the id already sits in the output list.
pub open spec fn ret_holds(ret: Seq<bb::BasicBlockId>, b: int) -> bool {
    exists|i: int| 0 <= i < ret.len() && (#[trigger] ret[i]).bid() == b
}

} // verus!
