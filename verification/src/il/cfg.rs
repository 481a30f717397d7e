//! Control flow for the intermediate language: blocks, locations, and
//! reachability. A location is a block handle plus an instruction offset;
//! location order across blocks is decided by graph reachability.
use vstd::prelude::*;
use super::Instruction;
use crate::bb::{descs_of, preds_of};

verus! {

/// True when the directed edge `(a, b)` is in the edge arena.
pub open spec fn edge_in(edges: Seq<(int, int)>, a: int, b: int) -> bool {
    exists|k: int| 0 <= k < edges.len() && edges[k] == (a, b)
}

/// True when `p` walks from `from` to `to` along edges of `edges`, taking at
/// least one step.
pub open spec fn is_path(edges: Seq<(int, int)>, p: Seq<int>, from: int, to: int) -> bool
    decreases p.len(),
{
    &&& p.len() >= 2
    &&& p[0] == from
    &&& if p.len() == 2 {
        p[1] == to && edge_in(edges, from, to)
    } else {
        edge_in(edges, p[0], p[1]) && is_path(edges, p.drop_first(), p[1], to)
    }
}

/// True when some path of one or more edges leads from `from` to `to`.
pub open spec fn reachable(edges: Seq<(int, int)>, from: int, to: int) -> bool {
    exists|p: Seq<int>| is_path(edges, p, from, to)
}

pub proof fn lemma_edge_gives_reach(edges: Seq<(int, int)>, a: int, b: int)
    requires
        edge_in(edges, a, b),
    ensures
        reachable(edges, a, b),
{
    let p = seq![a, b];
    assert(is_path(edges, p, a, b));
}

proof fn lemma_path_push(edges: Seq<(int, int)>, p: Seq<int>, a: int, b: int, c: int)
    requires
        is_path(edges, p, a, b),
        edge_in(edges, b, c),
    ensures
        is_path(edges, p.push(c), a, c),
    decreases p.len(),
{
    let q = p.push(c);
    if p.len() == 2 {
        assert(q.drop_first() =~= seq![b, c]);
        assert(is_path(edges, seq![b, c], b, c));
    } else {
        lemma_path_push(edges, p.drop_first(), p[1], b, c);
        assert(q.drop_first() =~= p.drop_first().push(c));
    }
}

pub proof fn lemma_reach_extend(edges: Seq<(int, int)>, a: int, b: int, c: int)
    requires
        reachable(edges, a, b),
        edge_in(edges, b, c),
    ensures
        reachable(edges, a, c),
{
    let p = choose|p: Seq<int>| is_path(edges, p, a, b);
    lemma_path_push(edges, p, a, b, c);
}

pub proof fn lemma_reach_extend_front(edges: Seq<(int, int)>, a: int, b: int, c: int)
    requires
        edge_in(edges, a, b),
        reachable(edges, b, c),
    ensures
        reachable(edges, a, c),
{
    let p = choose|p: Seq<int>| is_path(edges, p, b, c);
    let q = seq![a] + p;
    assert(q.drop_first() =~= p);
    assert(q[0] == a);
    assert(q[1] == p[0]);
    assert(is_path(edges, q, a, c));
}

/// A path starts at its `from` and ends at its `to`.
pub proof fn lemma_path_last(edges: Seq<(int, int)>, p: Seq<int>, a: int, b: int)
    requires
        is_path(edges, p, a, b),
    ensures
        p[0] == a,
        p[p.len() - 1] == b,
    decreases p.len(),
{
    if p.len() > 2 {
        lemma_path_last(edges, p.drop_first(), p[1], b);
        assert(p.drop_first()[p.len() - 2] == p[p.len() - 1]);
    }
}

/// Every inner block of a path is reached from the path's start and reaches
/// its end.
pub proof fn lemma_path_node_reach(edges: Seq<(int, int)>, p: Seq<int>, a: int, b: int, i: int)
    requires
        is_path(edges, p, a, b),
        0 <= i < p.len(),
    ensures
        i == p.len() - 1 || reachable(edges, p[i], b),
        i == 0 || reachable(edges, a, p[i]),
    decreases p.len(),
{
    if p.len() == 2 {
        if i == 0 {
            assert(reachable(edges, p[0], b)) by {
                assert(is_path(edges, p, a, b));
            }
        } else {
            lemma_edge_gives_reach(edges, a, b);
        }
    } else {
        let q = p.drop_first();
        assert(edge_in(edges, a, p[1]));
        if i == 0 {
            lemma_path_node_reach(edges, q, p[1], b, 0);
            assert(q[0] == p[1]);
            lemma_edge_gives_reach(edges, a, p[1]);
            lemma_reach_extend_front(edges, a, p[1], b);
        } else {
            lemma_path_node_reach(edges, q, p[1], b, i - 1);
            assert(q[i - 1] == p[i]);
            if i == 1 {
                lemma_edge_gives_reach(edges, a, p[1]);
            } else {
                lemma_edge_gives_reach(edges, a, p[1]);
                lemma_reach_extend_front(edges, a, p[1], p[i]);
            }
        }
    }
}

/// A set of blocks that contains every successor of `from` and is closed
/// under successors contains the end of every path that leaves `from`.
pub proof fn lemma_closed_covers_path(
    edges: Seq<(int, int)>,
    visited: Seq<bool>,
    p: Seq<int>,
    from: int,
    to: int,
)
    requires
        is_path(edges, p, from, to),
        forall|t: int| #[trigger] edge_in(edges, from, t) ==> 0 <= t < visited.len() && visited[t],
        forall|j: int, t: int|
            0 <= j < visited.len() && visited[j] && #[trigger] edge_in(edges, j, t) ==> 0 <= t
                < visited.len() && visited[t],
    ensures
        0 <= to < visited.len() && visited[to],
    decreases p.len(),
{
    if p.len() == 2 {
        assert(edge_in(edges, from, to));
    } else {
        assert(edge_in(edges, from, p[1]));
        assert(visited[p[1]]);
        let q = p.drop_first();
        assert forall|t: int| edge_in(edges, p[1], t) implies 0 <= t < visited.len()
            && visited[t] by {}
        lemma_closed_covers_path(edges, visited, q, p[1], to);
    }
}

/// The mirror image: a set that contains every predecessor of `to` and is
/// closed under predecessors contains the start of every path into `to`.
pub proof fn lemma_back_closed_covers_path(
    edges: Seq<(int, int)>,
    visited: Seq<bool>,
    p: Seq<int>,
    from: int,
    to: int,
)
    requires
        is_path(edges, p, from, to),
        forall|t: int| #[trigger] edge_in(edges, t, to) ==> 0 <= t < visited.len() && visited[t],
        forall|j: int, t: int|
            0 <= j < visited.len() && visited[j] && #[trigger] edge_in(edges, t, j) ==> 0 <= t
                < visited.len() && visited[t],
    ensures
        0 <= from < visited.len() && visited[from],
    decreases p.len(),
{
    if p.len() == 2 {
        assert(edge_in(edges, from, to));
    } else {
        let q = p.drop_first();
        lemma_back_closed_covers_path(edges, visited, q, p[1], to);
        assert(edge_in(edges, from, p[1]));
        assert(visited[p[1]]);
    }
}

/// How many entries of `s` are still false.
pub open spec fn count_unvisited(s: Seq<bool>) -> int
    decreases s.len(),
{
    if s.len() == 0 {
        0
    } else {
        count_unvisited(s.drop_last()) + if s.last() {
            0int
        } else {
            1int
        }
    }
}

pub proof fn lemma_count_unvisited_nonneg(s: Seq<bool>)
    ensures
        count_unvisited(s) >= 0,
    decreases s.len(),
{
    if s.len() > 0 {
        lemma_count_unvisited_nonneg(s.drop_last());
    }
}

pub proof fn lemma_count_unvisited_update(s: Seq<bool>, j: int)
    requires
        0 <= j < s.len(),
        !s[j],
    ensures
        count_unvisited(s.update(j, true)) == count_unvisited(s) - 1,
    decreases s.len(),
{
    let t = s.update(j, true);
    if j == s.len() - 1 {
        assert(t.drop_last() =~= s.drop_last());
        assert(t.last());
        assert(!s.last());
    } else {
        assert(t.drop_last() =~= s.drop_last().update(j, true));
        assert(t.last() == s.last());
        lemma_count_unvisited_update(s.drop_last(), j);
    }
}

/// A vector of only-false entries counts its whole length.
pub proof fn lemma_count_unvisited_all_false(s: Seq<bool>)
    requires
        forall|j: int| 0 <= j < s.len() ==> !s[j],
    ensures
        count_unvisited(s) == s.len(),
    decreases s.len(),
{
    if s.len() > 0 {
        lemma_count_unvisited_all_false(s.drop_last());
    }
}

/// Marking entries true never increases the count of false entries.
pub proof fn lemma_count_unvisited_monotone(s: Seq<bool>, t: Seq<bool>)
    requires
        s.len() == t.len(),
        forall|j: int| 0 <= j < s.len() && s[j] ==> t[j],
    ensures
        count_unvisited(t) <= count_unvisited(s),
    decreases s.len(),
{
    if s.len() > 0 {
        lemma_count_unvisited_monotone(s.drop_last(), t.drop_last());
    }
}

/// True when `j` is one of the entries of `stack`.
spec fn in_stack(stack: Seq<usize>, j: int) -> bool {
    exists|i: int| 0 <= i < stack.len() && stack[i] as int == j
}

/// A spot in the program: an instruction offset within a block.
#[derive(Copy, Clone, Debug, PartialEq, Eq, Structural, Hash)]
pub struct Location {
    offset: usize,
    block: BlockHandle,
}

/// Index of a block in the graph's block arena.
#[derive(Hash, Debug, PartialEq, Eq, Structural, Copy, Clone)]
pub struct BlockHandle {
    index: usize,
}

impl BlockHandle {
    pub closed spec fn spec_index(&self) -> int {
        self.index as int
    }

    pub fn as_usize(&self) -> (r: usize)
        ensures
            r as int == self.spec_index(),
    {
        self.index
    }

    pub fn realise<'a>(&self, graph: &'a CtrlFlow) -> (r: &'a Block)
        requires
            0 <= self.spec_index() < graph.block_ins().len(),
        ensures
            r@ == graph.block_ins()[self.spec_index()],
    {
        graph.realise_handle(*self)
    }

    pub fn descendants(&self, graph: &CtrlFlow) -> (r: Vec<BlockHandle>)
        ensures
            r@.map_values(|b: BlockHandle| b.spec_index()) == descs_of(
                graph.edge_list(),
                self.spec_index(),
            ),
    {
        graph.descendants(*self)
    }

    pub fn predecessors(&self, graph: &CtrlFlow) -> (r: Vec<BlockHandle>)
        ensures
            r@.map_values(|b: BlockHandle| b.spec_index()) == preds_of(
                graph.edge_list(),
                self.spec_index(),
            ),
    {
        graph.predecessors(*self)
    }
}

/// Two handles are the same exactly when they carry the same index.
pub proof fn lemma_block_handle_eq(a: BlockHandle, b: BlockHandle)
    ensures
        (a == b) <==> (a.spec_index() == b.spec_index()),
{
}

/// Two locations are the same exactly when block and offset agree.
pub proof fn lemma_location_eq(a: Location, b: Location)
    ensures
        (a == b) <==> (a.spec_block() == b.spec_block() && a.spec_offset() == b.spec_offset()),
{
}

struct CtrlFlowEdge {
    from: BlockHandle,
    to: BlockHandle,
}

/// A block of the intermediate language.
pub struct Block {
    pub(crate) ins: Vec<Instruction>,
}

impl View for Block {
    type V = Seq<Instruction>;

    closed spec fn view(&self) -> Seq<Instruction> {
        self.ins@
    }
}

impl Block {
    pub fn new(ins: Vec<Instruction>) -> (r: Self)
        ensures
            r@ == ins@,
    {
        Block { ins }
    }

    pub fn instructions(&self) -> (r: &Vec<Instruction>)
        ensures
            r@ == self@,
    {
        &self.ins
    }
}

pub struct CtrlFlow {
    nodes: Vec<Block>,
    edges: Vec<CtrlFlowEdge>,
}

impl Location {
    pub closed spec fn spec_offset(&self) -> int {
        self.offset as int
    }

    pub closed spec fn spec_block(&self) -> BlockHandle {
        self.block
    }

    pub fn new(block: BlockHandle, offset: usize) -> (r: Self)
        ensures
            r.spec_block() == block,
            r.spec_offset() == offset as int,
    {
        Location { offset, block }
    }

    pub fn offset(&self) -> (r: usize)
        ensures
            r as int == self.spec_offset(),
    {
        self.offset
    }

    pub fn block_handle(&self) -> (r: BlockHandle)
        ensures
            r == self.spec_block(),
    {
        self.block
    }

    pub fn touches_min_in_block(&self) -> (r: bool)
        ensures
            r == (self.spec_offset() == 0),
    {
        self.offset == 0
    }

    #[inline]
    pub fn touches_max_in_block(&self, cfg: &CtrlFlow) -> (r: bool)
        requires
            0 <= self.spec_block().spec_index() < cfg.block_ins().len(),
            cfg.block_ins()[self.spec_block().spec_index()].len() >= 1,
        ensures
            r == (self.spec_offset() >= cfg.block_ins()[self.spec_block().spec_index()].len()
                - 1),
    {
        let ins_len = cfg.realise_handle(self.block).instructions().len();
        self.offset >= ins_len - 1
    }

    /// The locations one step forward: the next offset of the block, or at
    /// its end the first location of every descendant.
    #[verifier::loop_isolation(false)]
    pub fn expanded_right(&self, cfg: &CtrlFlow) -> (r: Vec<Location>)
        requires
            cfg.wf(),
            0 <= self.spec_block().spec_index() < cfg.block_ins().len(),
            0 <= self.spec_offset() < cfg.block_ins()[self.spec_block().spec_index()].len(),
        ensures
            self.spec_offset() + 1 < cfg.block_ins()[self.spec_block().spec_index()].len() ==> {
                &&& r@.len() == 1
                &&& r@[0].spec_block() == self.spec_block()
                &&& r@[0].spec_offset() == self.spec_offset() + 1
            },
            self.spec_offset() + 1 >= cfg.block_ins()[self.spec_block().spec_index()].len() ==> {
                &&& r@.len() == descs_of(cfg.edge_list(), self.spec_block().spec_index()).len()
                &&& forall|i: int|
                    0 <= i < r@.len() ==> (#[trigger] r@[i]).spec_block().spec_index() == descs_of(
                        cfg.edge_list(),
                        self.spec_block().spec_index(),
                    )[i] && r@[i].spec_offset() == 0
            },
    {
        let blk_len = cfg.realise_handle(self.block).instructions().len();
        if !self.touches_max_in_block(cfg) {
            proof {
                assert(self.spec_offset() + 1 < blk_len as int);
            }
            let mut r: Vec<Location> = Vec::new();
            r.push(Location::new(self.block, self.offset + 1));
            r
        } else {
            let descendants = cfg.descendants(self.block);
            let ghost dv = descendants@.map_values(|b: BlockHandle| b.spec_index());
            let mut r: Vec<Location> = Vec::new();
            let mut d: usize = 0;
            while d < descendants.len()
                invariant
                    0 <= d <= descendants@.len(),
                    r@.len() == d as int,
                    forall|i: int|
                        0 <= i < d ==> (#[trigger] r@[i]).spec_block().spec_index() == dv[i]
                            && r@[i].spec_offset() == 0,
                decreases descendants@.len() - d,
            {
                r.push(Location::new(descendants[d], 0));
                proof {
                    assert(dv[d as int] == descendants@[d as int].spec_index());
                }
                d = d + 1;
            }
            r
        }
    }

    /// The locations one step backward: the previous offset of the block,
    /// or at its start the last location of every predecessor.
    #[verifier::loop_isolation(false)]
    pub fn expanded_left(&self, cfg: &CtrlFlow) -> (r: Vec<Location>)
        requires
            cfg.wf(),
            0 <= self.spec_block().spec_index() < cfg.block_ins().len(),
            forall|b: int|
                0 <= b < cfg.block_ins().len() ==> (#[trigger] cfg.block_ins()[b]).len() >= 1,
        ensures
            self.spec_offset() > 0 ==> {
                &&& r@.len() == 1
                &&& r@[0].spec_block() == self.spec_block()
                &&& r@[0].spec_offset() == self.spec_offset() - 1
            },
            self.spec_offset() == 0 ==> {
                &&& r@.len() == preds_of(cfg.edge_list(), self.spec_block().spec_index()).len()
                &&& forall|i: int|
                    0 <= i < r@.len() ==> {
                        let p = preds_of(cfg.edge_list(), self.spec_block().spec_index())[i];
                        (#[trigger] r@[i]).spec_block().spec_index() == p && (0 <= p
                            < cfg.block_ins().len() ==> r@[i].spec_offset() == cfg.block_ins()[p].len()
                            - 1)
                    }
            },
    {
        if !self.touches_min_in_block() {
            let mut r: Vec<Location> = Vec::new();
            r.push(Location::new(self.block, self.offset - 1));
            r
        } else {
            let predecessors = cfg.predecessors(self.block);
            let ghost pv = predecessors@.map_values(|b: BlockHandle| b.spec_index());
            let mut r: Vec<Location> = Vec::new();
            let mut d: usize = 0;
            while d < predecessors.len()
                invariant
                    0 <= d <= predecessors@.len(),
                    r@.len() == d as int,
                    forall|i: int|
                        0 <= i < d ==> {
                            let p = pv[i];
                            (#[trigger] r@[i]).spec_block().spec_index() == p && (0 <= p
                                < cfg.block_ins().len() ==> r@[i].spec_offset()
                                == cfg.block_ins()[p].len() - 1)
                        },
                decreases predecessors@.len() - d,
            {
                let pred = predecessors[d];
                proof {
                    assert(pv[d as int] == predecessors@[d as int].spec_index());
                }
                let offset = if pred.as_usize() < cfg.block_count() {
                    cfg.realise_handle(pred).instructions().len() - 1
                } else {
                    0
                };
                r.push(Location::new(pred, offset));
                d = d + 1;
            }
            r
        }
    }

    /// Ordering of locations: within a block by offset, across blocks by
    /// reachability. `self` comes after `other` when `other`'s block reaches
    /// `self`'s block going forward.
    pub open spec fn spec_is_after(self, edges: Seq<(int, int)>, other: Location) -> bool {
        if self.spec_block() == other.spec_block() {
            self.spec_offset() > other.spec_offset()
        } else {
            reachable(edges, other.spec_block().spec_index(), self.spec_block().spec_index())
        }
    }

    /// The mirror of `spec_is_after`: `self` comes before `other` when
    /// `self`'s block reaches `other`'s block going forward, so the two
    /// orders are dual across blocks as they are within one.
    pub open spec fn spec_is_before(self, edges: Seq<(int, int)>, other: Location) -> bool {
        if self.spec_block() == other.spec_block() {
            self.spec_offset() < other.spec_offset()
        } else {
            reachable(edges, self.spec_block().spec_index(), other.spec_block().spec_index())
        }
    }

    /// Duality of the two orders: one location is after another exactly
    /// when the other is before it.
    pub proof fn lemma_order_duality(a: Location, b: Location, edges: Seq<(int, int)>)
        ensures
            a.spec_is_after(edges, b) == b.spec_is_before(edges, a),
    {
    }

    pub fn is_after(&self, graph: &CtrlFlow, other: &Location) -> (r: bool)
        requires
            graph.wf(),
            0 <= self.spec_block().spec_index() < graph.block_ins().len(),
            0 <= other.spec_block().spec_index() < graph.block_ins().len(),
        ensures
            r == self.spec_is_after(graph.edge_list(), *other),
    {
        if self.block == other.block {
            self.offset > other.offset
        } else {
            graph.has_forward_path(other.block, self.block)
        }
    }

    pub fn is_before(&self, graph: &CtrlFlow, other: &Location) -> (r: bool)
        requires
            graph.wf(),
            0 <= self.spec_block().spec_index() < graph.block_ins().len(),
            0 <= other.spec_block().spec_index() < graph.block_ins().len(),
        ensures
            r == self.spec_is_before(graph.edge_list(), *other),
    {
        if self.block == other.block {
            self.offset < other.offset
        } else {
            graph.has_backwards_path(other.block, self.block)
        }
    }
}

impl CtrlFlow {
    /// The instruction lists of the blocks, indexed by block handle.
    pub closed spec fn block_ins(&self) -> Seq<Seq<Instruction>> {
        self.nodes@.map_values(|b: Block| b@)
    }

    /// The directed edges as pairs of block indices, in insertion order.
    pub closed spec fn edge_list(&self) -> Seq<(int, int)> {
        self.edges@.map_values(|e: CtrlFlowEdge| (e.from.index as int, e.to.index as int))
    }

    /// Every edge endpoint names a block of the arena.
    pub open spec fn wf(&self) -> bool {
        forall|k: int|
            0 <= k < self.edge_list().len() ==> 0 <= (#[trigger] self.edge_list()[k]).0
                < self.block_ins().len() && 0 <= self.edge_list()[k].1 < self.block_ins().len()
    }

    pub fn new() -> (r: Self)
        ensures
            r.block_ins() == Seq::<Seq<Instruction>>::empty(),
            r.edge_list() == Seq::<(int, int)>::empty(),
            r.wf(),
    {
        let r = CtrlFlow { nodes: Vec::new(), edges: Vec::new() };
        proof {
            assert(r.block_ins() =~= Seq::<Seq<Instruction>>::empty());
            assert(r.edge_list() =~= Seq::<(int, int)>::empty());
        }
        r
    }

    pub fn insert_block(&mut self, block: Block) -> (r: BlockHandle)
        ensures
            final(self).block_ins() == old(self).block_ins().push(block@),
            final(self).edge_list() == old(self).edge_list(),
            r.spec_index() == old(self).block_ins().len(),
            old(self).wf() ==> final(self).wf(),
    {
        let ghost pre = *self;
        self.nodes.push(block);
        proof {
            assert(self.block_ins() =~= pre.block_ins().push(block@));
            assert(self.edge_list() =~= pre.edge_list());
        }
        BlockHandle { index: self.nodes.len() - 1 }
    }

    pub fn add_directed_edge(&mut self, from: BlockHandle, to: BlockHandle)
        requires
            0 <= from.spec_index() < old(self).block_ins().len(),
            0 <= to.spec_index() < old(self).block_ins().len(),
        ensures
            final(self).edge_list() == old(self).edge_list().push(
                (from.spec_index(), to.spec_index()),
            ),
            final(self).block_ins() == old(self).block_ins(),
            old(self).wf() ==> final(self).wf(),
    {
        let ghost pre = *self;
        self.edges.push(CtrlFlowEdge { from, to });
        proof {
            assert(self.edge_list() =~= pre.edge_list().push(
                (from.spec_index(), to.spec_index()),
            ));
            assert(self.block_ins() =~= pre.block_ins());
        }
    }

    pub fn block_count(&self) -> (r: usize)
        ensures
            r as int == self.block_ins().len(),
    {
        self.nodes.len()
    }

    pub fn realise_handle(&self, handle: BlockHandle) -> (r: &Block)
        requires
            0 <= handle.spec_index() < self.block_ins().len(),
        ensures
            r@ == self.block_ins()[handle.spec_index()],
    {
        &self.nodes[handle.index]
    }

    pub fn realise_handle_mut(&mut self, handle: BlockHandle) -> (r: &mut Block)
        requires
            0 <= handle.spec_index() < old(self).block_ins().len(),
        ensures
            (*r)@ == old(self).block_ins()[handle.spec_index()],
            final(self).block_ins() == old(self).block_ins().update(
                handle.spec_index(),
                (*final(r))@,
            ),
            final(self).edge_list() == old(self).edge_list(),
    {
        &mut self.nodes[handle.index]
    }

    /// The blocks with an edge into `handle`, one entry per such edge.
    pub fn predecessors(&self, handle: BlockHandle) -> (r: Vec<BlockHandle>)
        ensures
            r@.map_values(|b: BlockHandle| b.spec_index()) == preds_of(
                self.edge_list(),
                handle.spec_index(),
            ),
    {
        let mut r: Vec<BlockHandle> = Vec::new();
        let mut i: usize = 0;
        while i < self.edges.len()
            invariant
                0 <= i <= self.edges.len(),
                r@.map_values(|b: BlockHandle| b.spec_index()) == preds_of(
                    self.edge_list().subrange(0, i as int),
                    handle.spec_index(),
                ),
            decreases self.edges.len() - i,
        {
            let ghost prefix = self.edge_list().subrange(0, i as int);
            if self.edges[i].to == handle {
                r.push(self.edges[i].from);
            }
            i = i + 1;
            proof {
                let next = self.edge_list().subrange(0, i as int);
                assert(next.drop_last() =~= prefix);
                assert(r@.map_values(|b: BlockHandle| b.spec_index()) =~= preds_of(
                    next,
                    handle.spec_index(),
                ));
            }
        }
        proof {
            assert(self.edge_list().subrange(0, self.edge_list().len() as int) =~= self.edge_list());
        }
        r
    }

    /// The blocks that `handle` has an edge to, one entry per such edge.
    pub fn descendants(&self, handle: BlockHandle) -> (r: Vec<BlockHandle>)
        ensures
            r@.map_values(|b: BlockHandle| b.spec_index()) == descs_of(
                self.edge_list(),
                handle.spec_index(),
            ),
    {
        let mut r: Vec<BlockHandle> = Vec::new();
        let mut i: usize = 0;
        while i < self.edges.len()
            invariant
                0 <= i <= self.edges.len(),
                r@.map_values(|b: BlockHandle| b.spec_index()) == descs_of(
                    self.edge_list().subrange(0, i as int),
                    handle.spec_index(),
                ),
            decreases self.edges.len() - i,
        {
            let ghost prefix = self.edge_list().subrange(0, i as int);
            if self.edges[i].from == handle {
                r.push(self.edges[i].to);
            }
            i = i + 1;
            proof {
                let next = self.edge_list().subrange(0, i as int);
                assert(next.drop_last() =~= prefix);
                assert(r@.map_values(|b: BlockHandle| b.spec_index()) =~= descs_of(
                    next,
                    handle.spec_index(),
                ));
            }
        }
        proof {
            assert(self.edge_list().subrange(0, self.edge_list().len() as int) =~= self.edge_list());
        }
        r
    }

    /// Depth-first search forward along edges: true exactly when a path of
    /// one or more edges leads from `from` to `to`.
    #[verifier::loop_isolation(false)]
    pub fn has_forward_path(&self, from: BlockHandle, to: BlockHandle) -> (r: bool)
        requires
            self.wf(),
            0 <= from.spec_index() < self.block_ins().len(),
            0 <= to.spec_index() < self.block_ins().len(),
        ensures
            r == reachable(self.edge_list(), from.spec_index(), to.spec_index()),
    {
        let ghost e = self.edge_list();
        let ghost ff = from.spec_index();
        let ghost tt = to.spec_index();
        let n = self.nodes.len();
        let mut visited: Vec<bool> = Vec::new();
        let mut i: usize = 0;
        while i < n
            invariant
                0 <= i <= n,
                visited@.len() == i as int,
                forall|j: int| 0 <= j < i ==> !visited@[j],
            decreases n - i,
        {
            visited.push(false);
            i = i + 1;
        }
        let mut stack: Vec<usize> = Vec::new();
        // Seed with the direct successors of `from`.
        let mut k: usize = 0;
        while k < self.edges.len()
            invariant
                0 <= k <= self.edges.len(),
                self.wf(),
                e == self.edge_list(),
                0 <= ff < self.block_ins().len(),
                n == self.block_ins().len(),
                visited@.len() == n as int,
                forall|idx: int|
                    0 <= idx < stack@.len() ==> (stack@[idx] as int) < n && visited@[stack@[idx] as int],
                forall|j: int| 0 <= j < n && visited@[j] ==> reachable(e, ff, j),
                forall|j: int| 0 <= j < n && visited@[j] ==> in_stack(stack@, j),
                forall|t: int, kk: int|
                    0 <= kk < k && e[kk] == (ff, t) ==> 0 <= t < n && visited@[t],
            decreases self.edges.len() - k,
        {
            proof {
                let ek = self.edge_list()[k as int];
                assert(ek == (
                    self.edges@[k as int].from.index as int,
                    self.edges@[k as int].to.index as int,
                ));
                assert(0 <= ek.0 < n);
                assert(0 <= ek.1 < n);
            }
            if self.edges[k].from == from && !visited[self.edges[k].to.index] {
                let t = self.edges[k].to.index;
                proof {
                    assert(e[k as int] == (ff, t as int));
                    assert(edge_in(e, ff, t as int));
                    lemma_edge_gives_reach(e, ff, t as int);
                }
                let ghost stack_pre = stack@;
                let ghost visited_pre = visited@;
                visited.set(t, true);
                stack.push(t);
                proof {
                    assert(stack@[stack@.len() - 1] as int == t as int);
                    assert(in_stack(stack@, t as int));
                    assert forall|j: int| 0 <= j < n && visited@[j] implies in_stack(
                        stack@,
                        j,
                    ) by {
                        if j != t as int {
                            assert(visited_pre[j]);
                            assert(in_stack(stack_pre, j));
                            let idx = choose|idx: int|
                                0 <= idx < stack_pre.len() && stack_pre[idx] as int == j;
                            assert(stack@[idx] as int == j);
                        }
                    }
                }
            }
            k = k + 1;
        }
        proof {
            assert forall|t: int| edge_in(e, ff, t) implies 0 <= t < n && visited@[t] by {
                let kk = choose|kk: int| 0 <= kk < e.len() && e[kk] == (ff, t);
            }
        }
        proof {
            lemma_count_unvisited_nonneg(visited@);
        }
        // Walk until the worklist runs dry.
        while stack.len() > 0
            invariant
                self.wf(),
                e == self.edge_list(),
                0 <= ff < n,
                0 <= tt < n,
                n == self.block_ins().len(),
                visited@.len() == n as int,
                forall|idx: int|
                    0 <= idx < stack@.len() ==> (stack@[idx] as int) < n && visited@[stack@[idx] as int],
                forall|j: int| 0 <= j < n && visited@[j] ==> reachable(e, ff, j),
                forall|t: int| #[trigger] edge_in(e, ff, t) ==> 0 <= t < n && visited@[t],
                forall|j: int, t: int|
                    0 <= j < n && visited@[j] && !in_stack(stack@, j) && #[trigger] edge_in(
                        e,
                        j,
                        t,
                    ) ==> 0 <= t < n && visited@[t],
                visited@[tt] ==> in_stack(stack@, tt),
                count_unvisited(visited@) >= 0,
            decreases count_unvisited(visited@), stack@.len(),
        {
            proof {
                lemma_count_unvisited_nonneg(visited@);
            }
            let ghost stack_head = stack@;
            let ghost visited_head = visited@;
            let h = match stack.pop() {
                Some(h) => h,
                None => {
                    return false;
                },
            };
            assert(stack_head[stack_head.len() - 1] == h);
            assert(visited@[h as int]);
            if h == to.index {
                proof {
                    assert(h as int == tt);
                }
                return true;
            }
            let ghost stack0 = stack@;
            // `to` stays pending: it was not the popped entry.
            proof {
                if visited@[tt] {
                    let idx = choose|idx: int|
                        0 <= idx < stack_head.len() && stack_head[idx] as int == tt;
                    assert(idx < stack_head.len() - 1);
                    assert(stack0[idx] as int == tt);
                }
                // every closed node other than h stays closed after the pop
                assert forall|j: int, t: int|
                    0 <= j < n && j != h as int && visited@[j] && !in_stack(stack0, j) && edge_in(
                        e,
                        j,
                        t,
                    ) implies 0 <= t < n && visited@[t] by {
                    if in_stack(stack_head, j) {
                        let idx = choose|idx: int|
                            0 <= idx < stack_head.len() && stack_head[idx] as int == j;
                        assert(idx < stack_head.len() - 1);
                        assert(stack0[idx] as int == j);
                        assert(false);
                    }
                }
            }
            // Push every unvisited successor of h.
            let mut k: usize = 0;
            while k < self.edges.len()
                invariant
                    0 <= k <= self.edges.len(),
                    self.wf(),
                    e == self.edge_list(),
                    0 <= ff < n,
                    0 <= tt < n,
                    (h as int) < n,
                    n == self.block_ins().len(),
                    visited@.len() == n as int,
                    visited@[h as int],
                    forall|idx: int|
                        0 <= idx < stack@.len() ==> (stack@[idx] as int) < n && visited@[stack@[idx] as int],
                    forall|j: int| 0 <= j < n && visited@[j] ==> reachable(e, ff, j),
                    forall|t: int| #[trigger] edge_in(e, ff, t) ==> 0 <= t < n && visited@[t],
                    forall|j: int, t: int|
                        0 <= j < n && j != h as int && visited@[j] && !in_stack(stack@, j)
                            && #[trigger] edge_in(e, j, t) ==> 0 <= t < n && visited@[t],
                    forall|t: int, kk: int|
                        0 <= kk < k && e[kk] == (h as int, t) ==> 0 <= t < n && visited@[t],
                    visited@[tt] ==> in_stack(stack@, tt),
                    count_unvisited(visited@) < count_unvisited(visited_head) || (visited@
                        == visited_head && stack@ == stack0),
                    forall|j: int| 0 <= j < n && visited_head[j] ==> visited@[j],
                decreases self.edges.len() - k,
            {
                proof {
                    let ek = self.edge_list()[k as int];
                    assert(ek == (
                        self.edges@[k as int].from.index as int,
                        self.edges@[k as int].to.index as int,
                    ));
                    assert(0 <= ek.0 < n);
                    assert(0 <= ek.1 < n);
                }
                if self.edges[k].from.index == h && !visited[self.edges[k].to.index] {
                    let t = self.edges[k].to.index;
                    let ghost stack_pre = stack@;
                    let ghost visited_pre = visited@;
                    proof {
                        assert(e[k as int] == (h as int, t as int));
                        assert(edge_in(e, h as int, t as int));
                        assert(reachable(e, ff, h as int));
                        lemma_reach_extend(e, ff, h as int, t as int);
                        lemma_count_unvisited_update(visited@, t as int);
                    }
                    visited.set(t, true);
                    stack.push(t);
                    proof {
                        assert(stack@[stack@.len() - 1] as int == t as int);
                        assert(count_unvisited(visited@) == count_unvisited(visited_pre) - 1);
                        if count_unvisited(visited_pre) < count_unvisited(visited_head) {
                        } else {
                            assert(visited_pre == visited_head);
                        }
                        // stays-in-stack facts survive a push
                        assert forall|j: int| in_stack(stack_pre, j) implies in_stack(
                            stack@,
                            j,
                        ) by {
                            let idx = choose|idx: int|
                                0 <= idx < stack_pre.len() && stack_pre[idx] as int == j;
                            assert(stack@[idx] as int == j);
                        }
                        assert(in_stack(stack@, t as int));
                    }
                }
                k = k + 1;
            }
            proof {
                // h is now closed: every successor of h is visited.
                assert forall|t: int| edge_in(e, h as int, t) implies 0 <= t < n
                    && visited@[t] by {
                    let kk = choose|kk: int| 0 <= kk < e.len() && e[kk] == (h as int, t);
                }
                lemma_count_unvisited_nonneg(visited@);
            }
        }
        // The worklist is empty: the visited set contains every successor of
        // `from` and is closed under successors, so no path reaches `to`.
        proof {
            if reachable(e, ff, tt) {
                let p = choose|p: Seq<int>| is_path(e, p, ff, tt);
                lemma_closed_covers_path(e, visited@, p, ff, tt);
                assert(in_stack(stack@, tt));
            }
        }
        false
    }

    /// Depth-first search backward along edges: true exactly when a path of
    /// one or more edges leads from `to` to `from`.
    #[verifier::loop_isolation(false)]
    pub fn has_backwards_path(&self, from: BlockHandle, to: BlockHandle) -> (r: bool)
        requires
            self.wf(),
            0 <= from.spec_index() < self.block_ins().len(),
            0 <= to.spec_index() < self.block_ins().len(),
        ensures
            r == reachable(self.edge_list(), to.spec_index(), from.spec_index()),
    {
        let ghost e = self.edge_list();
        let ghost ff = from.spec_index();
        let ghost tt = to.spec_index();
        let n = self.nodes.len();
        let mut visited: Vec<bool> = Vec::new();
        let mut i: usize = 0;
        while i < n
            invariant
                0 <= i <= n,
                visited@.len() == i as int,
                forall|j: int| 0 <= j < i ==> !visited@[j],
            decreases n - i,
        {
            visited.push(false);
            i = i + 1;
        }
        let mut stack: Vec<usize> = Vec::new();
        // Seed with the direct predecessors of `from`.
        let mut k: usize = 0;
        while k < self.edges.len()
            invariant
                0 <= k <= self.edges.len(),
                self.wf(),
                e == self.edge_list(),
                0 <= ff < self.block_ins().len(),
                n == self.block_ins().len(),
                visited@.len() == n as int,
                forall|idx: int|
                    0 <= idx < stack@.len() ==> (stack@[idx] as int) < n && visited@[stack@[idx] as int],
                forall|j: int| 0 <= j < n && visited@[j] ==> reachable(e, j, ff),
                forall|j: int| 0 <= j < n && visited@[j] ==> in_stack(stack@, j),
                forall|t: int, kk: int|
                    0 <= kk < k && e[kk] == (t, ff) ==> 0 <= t < n && visited@[t],
            decreases self.edges.len() - k,
        {
            proof {
                let ek = self.edge_list()[k as int];
                assert(ek == (
                    self.edges@[k as int].from.index as int,
                    self.edges@[k as int].to.index as int,
                ));
                assert(0 <= ek.0 < n);
                assert(0 <= ek.1 < n);
            }
            if self.edges[k].to == from && !visited[self.edges[k].from.index] {
                let t = self.edges[k].from.index;
                proof {
                    assert(e[k as int] == (t as int, ff));
                    assert(edge_in(e, t as int, ff));
                    lemma_edge_gives_reach(e, t as int, ff);
                }
                let ghost stack_pre = stack@;
                let ghost visited_pre = visited@;
                visited.set(t, true);
                stack.push(t);
                proof {
                    assert(stack@[stack@.len() - 1] as int == t as int);
                    assert(in_stack(stack@, t as int));
                    assert forall|j: int| 0 <= j < n && visited@[j] implies in_stack(
                        stack@,
                        j,
                    ) by {
                        if j != t as int {
                            assert(visited_pre[j]);
                            assert(in_stack(stack_pre, j));
                            let idx = choose|idx: int|
                                0 <= idx < stack_pre.len() && stack_pre[idx] as int == j;
                            assert(stack@[idx] as int == j);
                        }
                    }
                }
            }
            k = k + 1;
        }
        proof {
            assert forall|t: int| edge_in(e, t, ff) implies 0 <= t < n && visited@[t] by {
                let kk = choose|kk: int| 0 <= kk < e.len() && e[kk] == (t, ff);
            }
        }
        proof {
            lemma_count_unvisited_nonneg(visited@);
        }
        while stack.len() > 0
            invariant
                self.wf(),
                e == self.edge_list(),
                0 <= ff < n,
                0 <= tt < n,
                n == self.block_ins().len(),
                visited@.len() == n as int,
                forall|idx: int|
                    0 <= idx < stack@.len() ==> (stack@[idx] as int) < n && visited@[stack@[idx] as int],
                forall|j: int| 0 <= j < n && visited@[j] ==> reachable(e, j, ff),
                forall|t: int| #[trigger] edge_in(e, t, ff) ==> 0 <= t < n && visited@[t],
                forall|j: int, t: int|
                    0 <= j < n && visited@[j] && !in_stack(stack@, j) && #[trigger] edge_in(
                        e,
                        t,
                        j,
                    ) ==> 0 <= t < n && visited@[t],
                visited@[tt] ==> in_stack(stack@, tt),
                count_unvisited(visited@) >= 0,
            decreases count_unvisited(visited@), stack@.len(),
        {
            proof {
                lemma_count_unvisited_nonneg(visited@);
            }
            let ghost stack_head = stack@;
            let ghost visited_head = visited@;
            let h = match stack.pop() {
                Some(h) => h,
                None => {
                    return false;
                },
            };
            assert(stack_head[stack_head.len() - 1] == h);
            assert(visited@[h as int]);
            if h == to.index {
                proof {
                    assert(h as int == tt);
                }
                return true;
            }
            let ghost stack0 = stack@;
            proof {
                if visited@[tt] {
                    let idx = choose|idx: int|
                        0 <= idx < stack_head.len() && stack_head[idx] as int == tt;
                    assert(idx < stack_head.len() - 1);
                    assert(stack0[idx] as int == tt);
                }
                // every closed node other than h stays closed after the pop
                assert forall|j: int, t: int|
                    0 <= j < n && j != h as int && visited@[j] && !in_stack(stack0, j) && edge_in(
                        e,
                        t,
                        j,
                    ) implies 0 <= t < n && visited@[t] by {
                    if in_stack(stack_head, j) {
                        let idx = choose|idx: int|
                            0 <= idx < stack_head.len() && stack_head[idx] as int == j;
                        assert(idx < stack_head.len() - 1);
                        assert(stack0[idx] as int == j);
                        assert(false);
                    }
                }
            }
            // Push every unvisited predecessor of h.
            let mut k: usize = 0;
            while k < self.edges.len()
                invariant
                    0 <= k <= self.edges.len(),
                    self.wf(),
                    e == self.edge_list(),
                    0 <= ff < n,
                    0 <= tt < n,
                    (h as int) < n,
                    n == self.block_ins().len(),
                    visited@.len() == n as int,
                    visited@[h as int],
                    forall|idx: int|
                        0 <= idx < stack@.len() ==> (stack@[idx] as int) < n && visited@[stack@[idx] as int],
                    forall|j: int| 0 <= j < n && visited@[j] ==> reachable(e, j, ff),
                    forall|t: int| #[trigger] edge_in(e, t, ff) ==> 0 <= t < n && visited@[t],
                    forall|j: int, t: int|
                        0 <= j < n && j != h as int && visited@[j] && !in_stack(stack@, j)
                            && #[trigger] edge_in(e, t, j) ==> 0 <= t < n && visited@[t],
                    forall|t: int, kk: int|
                        0 <= kk < k && e[kk] == (t, h as int) ==> 0 <= t < n && visited@[t],
                    visited@[tt] ==> in_stack(stack@, tt),
                    count_unvisited(visited@) < count_unvisited(visited_head) || (visited@
                        == visited_head && stack@ == stack0),
                    forall|j: int| 0 <= j < n && visited_head[j] ==> visited@[j],
                decreases self.edges.len() - k,
            {
                proof {
                    let ek = self.edge_list()[k as int];
                    assert(ek == (
                        self.edges@[k as int].from.index as int,
                        self.edges@[k as int].to.index as int,
                    ));
                    assert(0 <= ek.0 < n);
                    assert(0 <= ek.1 < n);
                }
                if self.edges[k].to.index == h && !visited[self.edges[k].from.index] {
                    let t = self.edges[k].from.index;
                    let ghost stack_pre = stack@;
                    let ghost visited_pre = visited@;
                    proof {
                        assert(e[k as int] == (t as int, h as int));
                        assert(edge_in(e, t as int, h as int));
                        assert(reachable(e, h as int, ff));
                        lemma_reach_extend_front(e, t as int, h as int, ff);
                        lemma_count_unvisited_update(visited@, t as int);
                    }
                    visited.set(t, true);
                    stack.push(t);
                    proof {
                        assert(stack@[stack@.len() - 1] as int == t as int);
                        assert(count_unvisited(visited@) == count_unvisited(visited_pre) - 1);
                        if count_unvisited(visited_pre) < count_unvisited(visited_head) {
                        } else {
                            assert(visited_pre == visited_head);
                        }
                        assert forall|j: int| in_stack(stack_pre, j) implies in_stack(
                            stack@,
                            j,
                        ) by {
                            let idx = choose|idx: int|
                                0 <= idx < stack_pre.len() && stack_pre[idx] as int == j;
                            assert(stack@[idx] as int == j);
                        }
                        assert(in_stack(stack@, t as int));
                    }
                }
                k = k + 1;
            }
            proof {
                assert forall|t: int| edge_in(e, t, h as int) implies 0 <= t < n
                    && visited@[t] by {
                    let kk = choose|kk: int| 0 <= kk < e.len() && e[kk] == (t, h as int);
                }
                lemma_count_unvisited_nonneg(visited@);
            }
        }
        proof {
            if reachable(e, tt, ff) {
                let p = choose|p: Seq<int>| is_path(e, p, tt, ff);
                lemma_back_closed_covers_path(e, visited@, p, tt, ff);
                assert(in_stack(stack@, tt));
            }
        }
        false
    }
}

} // verus!
