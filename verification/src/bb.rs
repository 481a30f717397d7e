//! Control-flow graph over basic blocks, stored as two arenas: one vector of
//! blocks and one vector of directed edges. Handles are indices into the
//! arenas. Duplicate edges are allowed; they stand for distinct control
//! transfers.
use vstd::prelude::*;

verus! {

/// A straight-line sequence of instructions.
pub struct BasicBlock<I> {
    instructions: Vec<I>,
}

impl<I> View for BasicBlock<I> {
    type V = Seq<I>;

    closed spec fn view(&self) -> Seq<I> {
        self.instructions@
    }
}

impl<I> BasicBlock<I> {
    pub fn new(instructions: Vec<I>) -> (r: Self)
        ensures
            r@ == instructions@,
    {
        Self { instructions }
    }

    pub fn instructions(&self) -> (r: &Vec<I>)
        ensures
            r@ == self@,
    {
        &self.instructions
    }
}

/// Index of an edge in the edge arena.
#[derive(Copy, Clone, Eq, PartialEq, Structural, Debug)]
pub struct ControlFlowEdgeId(usize);

impl ControlFlowEdgeId {
    pub closed spec fn eid(&self) -> int {
        self.0 as int
    }

    #[allow(dead_code)]
    fn _internal_none() -> (r: Self)
        ensures
            r.eid() == usize::MAX as int,
    {
        ControlFlowEdgeId(usize::MAX)
    }
}

/// Index of a block in the block arena.
#[derive(Copy, Clone, Eq, PartialEq, Structural, Debug)]
pub struct BasicBlockId(usize);

impl BasicBlockId {
    pub closed spec fn bid(&self) -> int {
        self.0 as int
    }

    #[allow(dead_code)]
    fn _internal_none() -> (r: Self)
        ensures
            r.bid() == usize::MAX as int,
    {
        BasicBlockId(usize::MAX)
    }

    pub fn as_usize(&self) -> (r: usize)
        ensures
            r as int == self.bid(),
    {
        self.0
    }
}

struct Edge {
    from: BasicBlockId,
    to: BasicBlockId,
}

pub trait Config {
    type EdgeRemoveMode;
}

/// Block ids of the sources of the edges of `edges` that end in `b`, in
/// edge-arena order.
pub open spec fn preds_of(edges: Seq<(int, int)>, b: int) -> Seq<int>
    decreases edges.len(),
{
    if edges.len() == 0 {
        Seq::empty()
    } else {
        preds_of(edges.drop_last(), b) + if edges.last().1 == b {
            seq![edges.last().0]
        } else {
            Seq::empty()
        }
    }
}

/// Block ids of the targets of the edges of `edges` that start in `b`, in
/// edge-arena order.
pub open spec fn descs_of(edges: Seq<(int, int)>, b: int) -> Seq<int>
    decreases edges.len(),
{
    if edges.len() == 0 {
        Seq::empty()
    } else {
        descs_of(edges.drop_last(), b) + if edges.last().0 == b {
            seq![edges.last().1]
        } else {
            Seq::empty()
        }
    }
}

/// For every edge of `edges` that touches `b`, the opposite endpoint, in
/// edge-arena order.
pub open spec fn neighbours_of(edges: Seq<(int, int)>, b: int) -> Seq<int>
    decreases edges.len(),
{
    if edges.len() == 0 {
        Seq::empty()
    } else {
        neighbours_of(edges.drop_last(), b) + if edges.last().0 == b {
            seq![edges.last().1]
        } else if edges.last().1 == b {
            seq![edges.last().0]
        } else {
            Seq::empty()
        }
    }
}

/// The edges left after removing block `b` when the block numbered `last`
/// is swapped into `b`'s place: edges touching `b` fall away, and the rest
/// have `last` renamed to `b` at either endpoint.
pub open spec fn edges_surviving(edges: Seq<(int, int)>, b: int, last: int) -> Seq<(int, int)>
    decreases edges.len(),
{
    if edges.len() == 0 {
        Seq::empty()
    } else {
        edges_surviving(edges.drop_last(), b, last) + (if edges.last().0 == b || edges.last().1
            == b {
            Seq::empty()
        } else {
            seq![
                (
                    (if edges.last().0 == last {
                        b
                    } else {
                        edges.last().0
                    }),
                    (if edges.last().1 == last {
                        b
                    } else {
                        edges.last().1
                    }),
                ),
            ]
        })
    }
}

/// A block `a` is listed among the predecessors of `b` exactly when some edge
/// `(a, b)` is in the edge arena, however the arena was built.
pub proof fn lemma_preds_are_exactly_the_edges(edges: Seq<(int, int)>, b: int, a: int)
    ensures
        preds_of(edges, b).contains(a) <==> exists|k: int|
            0 <= k < edges.len() && edges[k] == (a, b),
    decreases edges.len(),
{
    if edges.len() > 0 {
        lemma_preds_are_exactly_the_edges(edges.drop_last(), b, a);
        if preds_of(edges, b).contains(a) {
            if preds_of(edges.drop_last(), b).contains(a) {
                let k = choose|k: int|
                    0 <= k < edges.drop_last().len() && edges.drop_last()[k] == (a, b);
                assert(edges[k] == (a, b));
            } else {
                assert(edges.last() == (a, b));
                assert(edges[edges.len() - 1] == (a, b));
            }
        }
        if exists|k: int| 0 <= k < edges.len() && edges[k] == (a, b) {
            let k = choose|k: int| 0 <= k < edges.len() && edges[k] == (a, b);
            if k < edges.len() - 1 {
                assert(edges.drop_last()[k] == (a, b));
                let s = preds_of(edges.drop_last(), b);
                let j = choose|j: int| 0 <= j < s.len() && s[j] == a;
                assert(preds_of(edges, b)[j] == a);
            } else {
                let s = preds_of(edges, b);
                assert(s[s.len() - 1] == a);
            }
        }
    }
}

/// A block `c` is listed among the descendants of `b` exactly when some edge
/// `(b, c)` is in the edge arena, however the arena was built.
pub proof fn lemma_descs_are_exactly_the_edges(edges: Seq<(int, int)>, b: int, c: int)
    ensures
        descs_of(edges, b).contains(c) <==> exists|k: int|
            0 <= k < edges.len() && edges[k] == (b, c),
    decreases edges.len(),
{
    if edges.len() > 0 {
        lemma_descs_are_exactly_the_edges(edges.drop_last(), b, c);
        if descs_of(edges, b).contains(c) {
            if descs_of(edges.drop_last(), b).contains(c) {
                let k = choose|k: int|
                    0 <= k < edges.drop_last().len() && edges.drop_last()[k] == (b, c);
                assert(edges[k] == (b, c));
            } else {
                assert(edges[edges.len() - 1] == (b, c));
            }
        }
        if exists|k: int| 0 <= k < edges.len() && edges[k] == (b, c) {
            let k = choose|k: int| 0 <= k < edges.len() && edges[k] == (b, c);
            if k < edges.len() - 1 {
                assert(edges.drop_last()[k] == (b, c));
                let s = descs_of(edges.drop_last(), b);
                let j = choose|j: int| 0 <= j < s.len() && s[j] == c;
                assert(descs_of(edges, b)[j] == c);
            } else {
                let s = descs_of(edges, b);
                assert(s[s.len() - 1] == c);
            }
        }
    }
}

pub struct ControlFlow<I> {
    edges: Vec<Edge>,
    blocks: Vec<BasicBlock<I>>,
}

impl<I> ControlFlow<I> {
    /// The instruction lists of the blocks, indexed by block id.
    pub closed spec fn block_seq(&self) -> Seq<Seq<I>> {
        self.blocks@.map_values(|b: BasicBlock<I>| b@)
    }

    /// The directed edges as pairs of block ids, in insertion order.
    pub closed spec fn edge_seq(&self) -> Seq<(int, int)> {
        self.edges@.map_values(|e: Edge| (e.from.0 as int, e.to.0 as int))
    }

    /// Every edge endpoint names a block of the arena, so handles held by
    /// a caller stay valid across the graph operations.
    pub open spec fn wf(&self) -> bool {
        forall|k: int|
            0 <= k < self.edge_seq().len() ==> 0 <= (#[trigger] self.edge_seq()[k]).0
                < self.block_seq().len() && 0 <= self.edge_seq()[k].1 < self.block_seq().len()
    }

    pub fn new() -> (r: Self)
        ensures
            r.block_seq() == Seq::<Seq<I>>::empty(),
            r.edge_seq() == Seq::<(int, int)>::empty(),
            r.wf(),
    {
        let r = ControlFlow { edges: Vec::new(), blocks: Vec::new() };
        proof {
            assert(r.block_seq() =~= Seq::<Seq<I>>::empty());
            assert(r.edge_seq() =~= Seq::<(int, int)>::empty());
        }
        r
    }

    /// How many blocks the arena holds.
    pub fn block_count(&self) -> (r: usize)
        ensures
            r as int == self.block_seq().len(),
    {
        self.blocks.len()
    }

    pub fn basic_block(&self, block_id: BasicBlockId) -> (r: &BasicBlock<I>)
        requires
            0 <= block_id.bid() < self.block_seq().len(),
        ensures
            r@ == self.block_seq()[block_id.bid()],
    {
        &self.blocks[block_id.0]
    }

    pub fn basic_block_mut(&mut self, block_id: BasicBlockId) -> (r: &mut BasicBlock<I>)
        requires
            0 <= block_id.bid() < old(self).block_seq().len(),
        ensures
            (*r)@ == old(self).block_seq()[block_id.bid()],
            final(self).block_seq() == old(self).block_seq().update(
                block_id.bid(),
                (*final(r))@,
            ),
            final(self).edge_seq() == old(self).edge_seq(),
    {
        &mut self.blocks[block_id.0]
    }

    pub fn add_basic_block(&mut self, block: BasicBlock<I>) -> (r: BasicBlockId)
        ensures
            final(self).block_seq() == old(self).block_seq().push(block@),
            final(self).edge_seq() == old(self).edge_seq(),
            r.bid() == old(self).block_seq().len(),
            old(self).wf() ==> final(self).wf(),
    {
        let ghost pre = *self;
        let index = BasicBlockId(self.blocks.len());
        self.blocks.push(block);
        proof {
            assert(self.block_seq() =~= pre.block_seq().push(block@));
            assert(self.edge_seq() =~= pre.edge_seq());
        }
        index
    }

    pub fn add_edge(&mut self, from: BasicBlockId, to: BasicBlockId) -> (r: ControlFlowEdgeId)
        requires
            0 <= from.bid() < old(self).block_seq().len(),
            0 <= to.bid() < old(self).block_seq().len(),
        ensures
            final(self).edge_seq() == old(self).edge_seq().push((from.bid(), to.bid())),
            final(self).block_seq() == old(self).block_seq(),
            r.eid() == old(self).edge_seq().len(),
            old(self).wf() ==> final(self).wf(),
    {
        let ghost pre = *self;
        let edge_index = ControlFlowEdgeId(self.edges.len());
        self.edges.push(Edge { from, to });
        proof {
            assert(self.edge_seq() =~= pre.edge_seq().push((from.bid(), to.bid())));
            assert(self.block_seq() =~= pre.block_seq());
        }
        edge_index
    }

    /// The blocks with an edge into `block_id`, one entry per such edge.
    pub fn predecessors(&self, block_id: BasicBlockId) -> (r: Vec<BasicBlockId>)
        ensures
            r@.map_values(|b: BasicBlockId| b.bid()) == preds_of(self.edge_seq(), block_id.bid()),
    {
        let mut r: Vec<BasicBlockId> = Vec::new();
        let mut i: usize = 0;
        while i < self.edges.len()
            invariant
                0 <= i <= self.edges.len(),
                r@.map_values(|b: BasicBlockId| b.bid()) == preds_of(
                    self.edge_seq().subrange(0, i as int),
                    block_id.bid(),
                ),
            decreases self.edges.len() - i,
        {
            let ghost prefix = self.edge_seq().subrange(0, i as int);
            if self.edges[i].to == block_id {
                r.push(self.edges[i].from);
            }
            i = i + 1;
            proof {
                let next = self.edge_seq().subrange(0, i as int);
                assert(next.drop_last() =~= prefix);
                assert(r@.map_values(|b: BasicBlockId| b.bid()) =~= preds_of(
                    next,
                    block_id.bid(),
                ));
            }
        }
        proof {
            assert(self.edge_seq().subrange(0, self.edge_seq().len() as int) =~= self.edge_seq());
        }
        r
    }

    /// The blocks that `block_id` has an edge to, one entry per such edge.
    pub fn descendants(&self, block_id: BasicBlockId) -> (r: Vec<BasicBlockId>)
        ensures
            r@.map_values(|b: BasicBlockId| b.bid()) == descs_of(self.edge_seq(), block_id.bid()),
    {
        let mut r: Vec<BasicBlockId> = Vec::new();
        let mut i: usize = 0;
        while i < self.edges.len()
            invariant
                0 <= i <= self.edges.len(),
                r@.map_values(|b: BasicBlockId| b.bid()) == descs_of(
                    self.edge_seq().subrange(0, i as int),
                    block_id.bid(),
                ),
            decreases self.edges.len() - i,
        {
            let ghost prefix = self.edge_seq().subrange(0, i as int);
            if self.edges[i].from == block_id {
                r.push(self.edges[i].to);
            }
            i = i + 1;
            proof {
                let next = self.edge_seq().subrange(0, i as int);
                assert(next.drop_last() =~= prefix);
                assert(r@.map_values(|b: BasicBlockId| b.bid()) =~= descs_of(
                    next,
                    block_id.bid(),
                ));
            }
        }
        proof {
            assert(self.edge_seq().subrange(0, self.edge_seq().len() as int) =~= self.edge_seq());
        }
        r
    }

    /// Every neighbour of `block_id`, one entry per incident edge.
    pub fn edges(&self, block_id: BasicBlockId) -> (r: Vec<BasicBlockId>)
        ensures
            r@.map_values(|b: BasicBlockId| b.bid()) == neighbours_of(
                self.edge_seq(),
                block_id.bid(),
            ),
    {
        let mut r: Vec<BasicBlockId> = Vec::new();
        let mut i: usize = 0;
        while i < self.edges.len()
            invariant
                0 <= i <= self.edges.len(),
                r@.map_values(|b: BasicBlockId| b.bid()) == neighbours_of(
                    self.edge_seq().subrange(0, i as int),
                    block_id.bid(),
                ),
            decreases self.edges.len() - i,
        {
            let ghost prefix = self.edge_seq().subrange(0, i as int);
            if self.edges[i].from == block_id {
                r.push(self.edges[i].to);
            } else if self.edges[i].to == block_id {
                r.push(self.edges[i].from);
            }
            i = i + 1;
            proof {
                let next = self.edge_seq().subrange(0, i as int);
                assert(next.drop_last() =~= prefix);
                assert(r@.map_values(|b: BasicBlockId| b.bid()) =~= neighbours_of(
                    next,
                    block_id.bid(),
                ));
            }
        }
        proof {
            assert(self.edge_seq().subrange(0, self.edge_seq().len() as int) =~= self.edge_seq());
        }
        r
    }

    /// Removes the block and every edge incident to it. The last block is
    /// swapped into the freed handle, so every other handle stays valid;
    /// surviving edges that named the last block are renumbered to the
    /// freed handle.
    pub fn remove_block(&mut self, id: BasicBlockId) -> (r: BasicBlock<I>)
        requires
            0 <= id.bid() < old(self).block_seq().len(),
            old(self).wf(),
        ensures
            r@ == old(self).block_seq()[id.bid()],
            final(self).block_seq() == old(self).block_seq().update(
                id.bid(),
                old(self).block_seq().last(),
            ).drop_last(),
            final(self).edge_seq() == edges_surviving(
                old(self).edge_seq(),
                id.bid(),
                old(self).block_seq().len() - 1,
            ),
            final(self).wf(),
    {
        let ghost pre = *self;
        let last = self.blocks.len() - 1;
        let removed_block = self.blocks.swap_remove(id.0);
        proof {
            assert(self.block_seq() =~= pre.block_seq().update(
                id.bid(),
                pre.block_seq().last(),
            ).drop_last());
        }
        let last_id = BasicBlockId(last);
        let mut kept: Vec<Edge> = Vec::new();
        let mut i: usize = 0;
        while i < self.edges.len()
            invariant
                0 <= i <= self.edges.len(),
                self.edges@ == pre.edges@,
                pre.wf(),
                0 <= id.bid() < pre.block_seq().len(),
                last as int == pre.block_seq().len() - 1,
                last_id.bid() == last as int,
                kept@.map_values(|e: Edge| (e.from.0 as int, e.to.0 as int)) == edges_surviving(
                    pre.edge_seq().subrange(0, i as int),
                    id.bid(),
                    last as int,
                ),
                forall|k: int|
                    0 <= k < kept@.len() ==> 0 <= (#[trigger] kept@[k]).from.bid() < last as int
                        && 0 <= kept@[k].to.bid() < last as int,
            decreases self.edges.len() - i,
        {
            let ghost prefix = pre.edge_seq().subrange(0, i as int);
            let e = &self.edges[i];
            proof {
                let ek = pre.edge_seq()[i as int];
                assert(ek == (pre.edges@[i as int].from.0 as int, pre.edges@[i as int].to.0
                    as int));
                assert(0 <= ek.0 < pre.block_seq().len());
                assert(0 <= ek.1 < pre.block_seq().len());
            }
            if !(e.from == id || e.to == id) {
                let from = if e.from == last_id {
                    id
                } else {
                    e.from
                };
                let to = if e.to == last_id {
                    id
                } else {
                    e.to
                };
                kept.push(Edge { from, to });
            }
            i = i + 1;
            proof {
                let next = pre.edge_seq().subrange(0, i as int);
                assert(next.drop_last() =~= prefix);
                assert(kept@.map_values(|e2: Edge| (e2.from.0 as int, e2.to.0 as int))
                    =~= edges_surviving(next, id.bid(), last as int));
            }
        }
        proof {
            assert(pre.edge_seq().subrange(0, pre.edge_seq().len() as int) =~= pre.edge_seq());
        }
        self.edges = kept;
        removed_block
    }

    /// Removes the edge by swapping the last edge into its place, so the last
    /// edge takes over the removed id. An out-of-range id removes nothing.
    pub fn remove_edge(&mut self, id: ControlFlowEdgeId) -> (r: Option<(BasicBlockId, BasicBlockId)>)
        ensures
            final(self).block_seq() == old(self).block_seq(),
            id.eid() < 0 || id.eid() >= old(self).edge_seq().len() ==> {
                &&& r is None
                &&& final(self).edge_seq() == old(self).edge_seq()
            },
            0 <= id.eid() < old(self).edge_seq().len() ==> {
                &&& r matches Some((from, to)) && (from.bid(), to.bid()) == old(self).edge_seq()[id.eid()]
                &&& final(self).edge_seq() == old(self).edge_seq().update(
                    id.eid(),
                    old(self).edge_seq().last(),
                ).drop_last()
            },
    {
        let ghost pre = *self;
        if id.0 >= self.edges.len() {
            return None;
        }
        let removed_edge = self.edges.swap_remove(id.0);
        proof {
            assert(self.edge_seq() =~= pre.edge_seq().update(
                id.eid(),
                pre.edge_seq().last(),
            ).drop_last());
            assert(self.block_seq() =~= pre.block_seq());
        }
        Some((removed_edge.from, removed_edge.to))
    }
}

} // verus!
