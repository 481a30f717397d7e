//! The interference graph and its coloring: nodes carry live ranges, edges
//! join ranges that are live at the same time, and DSATUR assigns every node
//! a machine register or, when none is compatible, a fresh stack slot.
use vstd::prelude::*;
use super::liveness::LiveRange;
use crate::il::reg::MachineReg;
use crate::il::{ILSize, ILSized};

verus! {

/// Index of a node in the node arena; `none()` is the sentinel.
#[derive(PartialEq, Eq, Structural, Copy, Clone, Debug)]
pub struct NodeIndex(usize);

impl NodeIndex {
    pub closed spec fn spec_idx(&self) -> int {
        self.0 as int
    }

    /// The index of the node added in position `n`.
    pub fn at(n: usize) -> (r: Self)
        ensures
            r.spec_idx() == n as int,
    {
        NodeIndex(n)
    }

    #[inline]
    pub fn none() -> (r: Self)
        ensures
            r.spec_idx() == usize::MAX as int,
    {
        NodeIndex(usize::MAX)
    }

    #[inline]
    pub fn is_none(&self) -> (r: bool)
        ensures
            r == (self.spec_idx() == usize::MAX as int),
    {
        *self == Self::none()
    }

    #[inline]
    pub fn is_some(&self) -> (r: bool)
        ensures
            r == (self.spec_idx() != usize::MAX as int),
    {
        !self.is_none()
    }
}

/// Index of an edge in the edge arena; `none()` is the sentinel.
#[derive(PartialEq, Eq, Structural, Copy, Clone, Debug)]
pub struct EdgeIndex(usize);

impl EdgeIndex {
    pub closed spec fn spec_idx(&self) -> int {
        self.0 as int
    }

    #[inline]
    pub fn none() -> (r: Self)
        ensures
            r.spec_idx() == usize::MAX as int,
    {
        EdgeIndex(usize::MAX)
    }

    #[inline]
    pub fn is_none(&self) -> (r: bool)
        ensures
            r == (self.spec_idx() == usize::MAX as int),
    {
        *self == Self::none()
    }

    #[inline]
    pub fn is_some(&self) -> (r: bool)
        ensures
            r == (self.spec_idx() != usize::MAX as int),
    {
        !self.is_none()
    }
}

/// A spilled register's home: a fresh slot in the frame.
#[derive(PartialEq, Eq, Structural, Copy, Clone, Debug)]
pub struct StackSlot {
    pub offset: usize,
    pub width: usize,
}

/// A color chosen for a node: a machine register, or a stack slot when the
/// registers ran out.
#[derive(PartialEq, Eq, Structural, Copy, Clone, Debug)]
pub enum RegColor {
    Machine(MachineReg),
    Slot(StackSlot),
}

impl RegColor {
    /// Two colors clash only when both are machine registers that share a
    /// unit; a stack slot never clashes.
    pub open spec fn spec_color_overlaps(self, other: RegColor) -> bool {
        match (self, other) {
            (RegColor::Machine(a), RegColor::Machine(b)) => a.spec_overlaps(b),
            _ => false,
        }
    }

    pub fn overlaps(&self, other: &RegColor) -> (r: bool)
        ensures
            r == self.spec_color_overlaps(*other),
    {
        match (self, other) {
            (RegColor::Machine(a), RegColor::Machine(b)) => a.overlaps(b),
            _ => false,
        }
    }
}

/// Two node indices are the same exactly when they carry the same number.
pub proof fn lemma_node_index_eq(a: NodeIndex, b: NodeIndex)
    ensures
        (a == b) <==> (a.spec_idx() == b.spec_idx()),
{
}

struct Edge {
    a: NodeIndex,
    b: NodeIndex,
}

/// A node of the interference graph.
pub struct Node<T> {
    data: T,
    dsatur_saturation: usize,
    color: Option<RegColor>,
}

impl<T> Node<T> {
    pub closed spec fn spec_data(&self) -> T {
        self.data
    }

    pub closed spec fn spec_saturation(&self) -> int {
        self.dsatur_saturation as int
    }

    pub closed spec fn spec_color(&self) -> Option<RegColor> {
        self.color
    }

    #[inline]
    pub fn data(&self) -> (r: &T)
        ensures
            *r == self.spec_data(),
    {
        &self.data
    }

    pub fn color(&self) -> (r: Option<RegColor>)
        ensures
            r == self.spec_color(),
    {
        self.color
    }

    pub fn dsatur_saturation(&self) -> (r: usize)
        ensures
            r as int == self.spec_saturation(),
    {
        self.dsatur_saturation
    }

    /// The same node, now carrying this color.
    pub closed spec fn spec_with_color(self, c: RegColor) -> Node<T> {
        Node { data: self.data, dsatur_saturation: self.dsatur_saturation, color: Some(c) }
    }

    /// The same node with its saturation one higher, capped at the
    /// counter's top.
    pub closed spec fn spec_bumped(self) -> Node<T> {
        Node {
            data: self.data,
            dsatur_saturation: if self.dsatur_saturation < usize::MAX {
                (self.dsatur_saturation + 1) as usize
            } else {
                self.dsatur_saturation
            },
            color: self.color,
        }
    }
}

/// True when the arena holds the undirected edge `{a, b}`.
pub open spec fn spec_has_edge(edges: Seq<(int, int)>, a: int, b: int) -> bool {
    exists|k: int| 0 <= k < edges.len() && (edges[k] == (a, b) || edges[k] == (b, a))
}

/// The neighbours of `b` contributed by the edges from position `i` up,
/// most recent edge first — the order the intrusive adjacency walk yields.
pub open spec fn neighbours_from(edges: Seq<(int, int)>, b: int, i: int) -> Seq<int>
    decreases edges.len() - i,
{
    if i < 0 || i >= edges.len() {
        Seq::empty()
    } else {
        neighbours_from(edges, b, i + 1) + (if edges[i].0 == b {
            seq![edges[i].1]
        } else if edges[i].1 == b {
            seq![edges[i].0]
        } else {
            Seq::empty()
        })
    }
}

/// All neighbours of `b`, most recently added edge first.
pub open spec fn spec_neighbours(edges: Seq<(int, int)>, b: int) -> Seq<int> {
    neighbours_from(edges, b, 0)
}

/// A node is listed among the neighbours of `b` exactly when some edge
/// joins the two.
pub proof fn lemma_neighbours_are_exactly_the_edges(
    edges: Seq<(int, int)>,
    b: int,
    x: int,
    i: int,
)
    requires
        0 <= i <= edges.len(),
    ensures
        neighbours_from(edges, b, i).contains(x) <==> exists|k: int|
            i <= k < edges.len() && (edges[k] == (b, x) || edges[k] == (x, b)),
    decreases edges.len() - i,
{
    if i < edges.len() {
        lemma_neighbours_are_exactly_the_edges(edges, b, x, i + 1);
        let rest = neighbours_from(edges, b, i + 1);
        let own = if edges[i].0 == b {
            seq![edges[i].1]
        } else if edges[i].1 == b {
            seq![edges[i].0]
        } else {
            Seq::<int>::empty()
        };
        assert(neighbours_from(edges, b, i) == rest + own);
        if neighbours_from(edges, b, i).contains(x) {
            let n = choose|n: int|
                0 <= n < neighbours_from(edges, b, i).len() && neighbours_from(edges, b, i)[n]
                    == x;
            if n < rest.len() {
                assert(rest[n] == x);
                assert(rest.contains(x));
            } else {
                assert(own[n - rest.len()] == x);
                assert(edges[i] == (b, x) || edges[i] == (x, b));
            }
        }
        if exists|k: int| i <= k < edges.len() && (edges[k] == (b, x) || edges[k] == (x, b)) {
            let k = choose|k: int|
                i <= k < edges.len() && (edges[k] == (b, x) || edges[k] == (x, b));
            if k == i {
                assert(own.len() == 1 && own[0] == x);
                assert((rest + own)[rest.len() as int] == x);
            } else {
                assert(rest.contains(x));
                let n = choose|n: int| 0 <= n < rest.len() && rest[n] == x;
                assert((rest + own)[n] == x);
            }
        }
    }
}

/// A saturation or offset count as the pass stores it: it sticks at the
/// machine's largest integer rather than wrapping.
pub open spec fn spec_cap(n: int) -> int {
    if n < usize::MAX as int {
        n
    } else {
        usize::MAX as int
    }
}

/// Total width of the data of the still-uncolored nodes.
pub open spec fn spec_uncolored_width<T: ILSized>(nodes: Seq<Node<T>>) -> int
    decreases nodes.len(),
{
    if nodes.len() == 0 {
        0
    } else {
        spec_uncolored_width(nodes.drop_last()) + (if nodes.last().spec_color() is None {
            nodes.last().spec_data().spec_il_size().spec_width() as int
        } else {
            0
        })
    }
}

proof fn lemma_uncolored_width_nonneg<T: ILSized>(nodes: Seq<Node<T>>)
    ensures
        spec_uncolored_width(nodes) >= 0,
    decreases nodes.len(),
{
    if nodes.len() > 0 {
        lemma_uncolored_width_nonneg(nodes.drop_last());
    }
}

/// An uncolored node's width is within the total.
proof fn lemma_uncolored_width_member<T: ILSized>(nodes: Seq<Node<T>>, i: int)
    requires
        0 <= i < nodes.len(),
        nodes[i].spec_color() is None,
    ensures
        nodes[i].spec_data().spec_il_size().spec_width() as int <= spec_uncolored_width(nodes),
    decreases nodes.len(),
{
    lemma_uncolored_width_nonneg(nodes.drop_last());
    if i < nodes.len() - 1 {
        lemma_uncolored_width_member(nodes.drop_last(), i);
    }
}

/// Two colorings that agree node for node have the same uncolored width.
proof fn lemma_uncolored_width_congruent<T: ILSized>(a: Seq<Node<T>>, b: Seq<Node<T>>)
    requires
        a.len() == b.len(),
        forall|j: int|
            0 <= j < a.len() ==> (#[trigger] a[j]).spec_color() == b[j].spec_color() && a[j].spec_data()
                == b[j].spec_data(),
    ensures
        spec_uncolored_width(a) == spec_uncolored_width(b),
    decreases a.len(),
{
    if a.len() > 0 {
        assert(a[a.len() - 1].spec_color() == b[a.len() - 1].spec_color());
        lemma_uncolored_width_congruent(a.drop_last(), b.drop_last());
    }
}

/// Coloring one uncolored node removes exactly its width from the total.
proof fn lemma_uncolored_width_update<T: ILSized>(nodes: Seq<Node<T>>, i: int, n2: Node<T>)
    requires
        0 <= i < nodes.len(),
        nodes[i].spec_color() is None,
        n2.spec_color() is Some,
        n2.spec_data() == nodes[i].spec_data(),
    ensures
        spec_uncolored_width(nodes.update(i, n2)) == spec_uncolored_width(nodes)
            - nodes[i].spec_data().spec_il_size().spec_width() as int,
    decreases nodes.len(),
{
    let upd = nodes.update(i, n2);
    if i == nodes.len() - 1 {
        assert(upd.drop_last() =~= nodes.drop_last());
    } else {
        assert(upd.drop_last() =~= nodes.drop_last().update(i, n2));
        assert(upd.last() == nodes.last());
        lemma_uncolored_width_update(nodes.drop_last(), i, n2);
    }
}

/// How often `x` occurs in the list.
pub open spec fn count_occ(s: Seq<int>, x: int) -> int
    decreases s.len(),
{
    if s.len() == 0 {
        0
    } else {
        count_occ(s.drop_last(), x) + (if s.last() == x {
            1int
        } else {
            0int
        })
    }
}

proof fn lemma_count_occ_nonneg(s: Seq<int>, x: int)
    ensures
        count_occ(s, x) >= 0,
    decreases s.len(),
{
    if s.len() > 0 {
        lemma_count_occ_nonneg(s.drop_last(), x);
    }
}

/// How often this edge will still bump node `j`: once per direction whose
/// deciding endpoint is yet uncolored.
pub open spec fn edge_bump<T>(ed: (int, int), nodes: Seq<Node<T>>, j: int) -> int {
    (if ed.1 == j && 0 <= ed.0 < nodes.len() && nodes[ed.0].spec_color() is None {
        1int
    } else {
        0int
    }) + (if ed.0 == j && ed.0 != ed.1 && 0 <= ed.1 < nodes.len() && nodes[ed.1].spec_color()
        is None {
        1int
    } else {
        0int
    })
}

/// The saturation bumps node `j` still has coming from the edges at
/// position `i` on, under the given coloring.
pub open spec fn pending_bumps_from<T>(
    edges: Seq<(int, int)>,
    i: int,
    nodes: Seq<Node<T>>,
    j: int,
) -> int
    decreases edges.len() - i,
{
    if i < 0 || i >= edges.len() {
        0
    } else {
        edge_bump(edges[i], nodes, j) + pending_bumps_from(edges, i + 1, nodes, j)
    }
}

/// All the saturation bumps node `j` has coming: one per connecting edge
/// whose deciding endpoint is yet uncolored.
pub open spec fn pending_bumps<T>(edges: Seq<(int, int)>, nodes: Seq<Node<T>>, j: int) -> int {
    pending_bumps_from(edges, 0, nodes, j)
}

proof fn lemma_pending_bumps_nonneg<T>(edges: Seq<(int, int)>, i: int, nodes: Seq<Node<T>>, j: int)
    ensures
        pending_bumps_from(edges, i, nodes, j) >= 0,
    decreases edges.len() - i,
{
    if 0 <= i < edges.len() {
        lemma_pending_bumps_nonneg(edges, i + 1, nodes, j);
    }
}

/// Colorings that agree node for node owe the same bumps.
proof fn lemma_pending_bumps_congruent<T>(
    edges: Seq<(int, int)>,
    i: int,
    a: Seq<Node<T>>,
    b: Seq<Node<T>>,
    j: int,
)
    requires
        a.len() == b.len(),
        forall|x: int| 0 <= x < a.len() ==> (#[trigger] a[x]).spec_color() == b[x].spec_color(),
    ensures
        pending_bumps_from(edges, i, a, j) == pending_bumps_from(edges, i, b, j),
    decreases edges.len() - i,
{
    if 0 <= i < edges.len() {
        lemma_pending_bumps_congruent(edges, i + 1, a, b, j);
    }
}

/// Once every node is colored, no bump is owed.
proof fn lemma_pending_bumps_zero<T>(edges: Seq<(int, int)>, i: int, nodes: Seq<Node<T>>, j: int)
    requires
        forall|x: int| 0 <= x < nodes.len() ==> (#[trigger] nodes[x]).spec_color() is Some,
    ensures
        pending_bumps_from(edges, i, nodes, j) == 0,
    decreases edges.len() - i,
{
    if 0 <= i < edges.len() {
        lemma_pending_bumps_zero(edges, i + 1, nodes, j);
    }
}

/// Coloring one node pays out exactly its listed bumps: the pending count
/// drops by the node's occurrences among `j`'s bumpers, which is `j`'s
/// occurrences among the colored node's neighbours.
proof fn lemma_pending_bumps_delta<T>(
    edges: Seq<(int, int)>,
    i: int,
    a: Seq<Node<T>>,
    b: Seq<Node<T>>,
    ni: int,
    j: int,
)
    requires
        0 <= i <= edges.len(),
        a.len() == b.len(),
        0 <= ni < a.len(),
        a[ni].spec_color() is None,
        b[ni].spec_color() is Some,
        forall|x: int|
            0 <= x < a.len() && x != ni ==> (#[trigger] a[x]).spec_color() == b[x].spec_color(),
    ensures
        pending_bumps_from(edges, i, a, j) == pending_bumps_from(edges, i, b, j) + count_occ(
            neighbours_from(edges, ni, i),
            j,
        ),
    decreases edges.len() - i,
{
    if i < edges.len() {
        lemma_pending_bumps_delta(edges, i + 1, a, b, ni, j);
        let rest = neighbours_from(edges, ni, i + 1);
        let own = if edges[i].0 == ni {
            seq![edges[i].1]
        } else if edges[i].1 == ni {
            seq![edges[i].0]
        } else {
            Seq::<int>::empty()
        };
        assert(neighbours_from(edges, ni, i) == rest + own);
        if own.len() == 0 {
            assert(rest + own =~= rest);
        } else {
            assert((rest + own).drop_last() =~= rest);
            assert((rest + own).last() == own[0]);
        }
    }
}

/// The node DSATUR decides next: uncolored, of maximal saturation, the
/// earliest index among ties.
pub open spec fn is_pick<T>(nodes: Seq<Node<T>>, i: int) -> bool {
    &&& 0 <= i < nodes.len()
    &&& nodes[i].spec_color() is None
    &&& (forall|j: int|
        0 <= j < nodes.len() && (#[trigger] nodes[j]).spec_color() is None ==> nodes[j].spec_saturation()
            <= nodes[i].spec_saturation())
    &&& (forall|j: int|
        0 <= j < i && (#[trigger] nodes[j]).spec_color() is None ==> nodes[j].spec_saturation()
            < nodes[i].spec_saturation())
}

/// At most one node satisfies the selection rule.
pub proof fn lemma_pick_unique<T>(nodes: Seq<Node<T>>, i1: int, i2: int)
    requires
        is_pick(nodes, i1),
        is_pick(nodes, i2),
    ensures
        i1 == i2,
{
    if i1 < i2 {
        assert(nodes[i1].spec_saturation() < nodes[i2].spec_saturation());
        assert(nodes[i2].spec_saturation() <= nodes[i1].spec_saturation());
    }
    if i2 < i1 {
        assert(nodes[i2].spec_saturation() < nodes[i1].spec_saturation());
        assert(nodes[i1].spec_saturation() <= nodes[i2].spec_saturation());
    }
}

/// The selection itself, as a function of the nodes.
pub open spec fn spec_pick<T>(nodes: Seq<Node<T>>) -> Option<int> {
    if exists|i: int| is_pick(nodes, i) {
        Some(choose|i: int| is_pick(nodes, i))
    } else {
        None
    }
}

/// The colors of the listed nodes, in listing order, skipping the
/// uncolored.
pub open spec fn spec_colors_of<T>(nodes: Seq<Node<T>>, nbrs: Seq<int>) -> Seq<RegColor>
    decreases nbrs.len(),
{
    if nbrs.len() == 0 {
        Seq::empty()
    } else {
        spec_colors_of(nodes, nbrs.drop_last()) + (match nodes[nbrs.last()].spec_color() {
            Some(c) => seq![c],
            None => Seq::<RegColor>::empty(),
        })
    }
}

/// The first register of the file, from position `q` on, that clears the
/// scanned colors at the wanted width.
pub open spec fn spec_first_fit(colors: Seq<RegColor>, sz: ILSize, q: int) -> Option<MachineReg>
    decreases crate::il::reg::spec_amd_gpr_registers().len() - q,
{
    let gprs = crate::il::reg::spec_amd_gpr_registers();
    if q < 0 || q >= gprs.len() {
        None
    } else if palette_reg_ok(colors, sz, gprs[q]) {
        Some(gprs[q])
    } else {
        spec_first_fit(colors, sz, q + 1)
    }
}

/// Bumps the listed nodes in order.
pub open spec fn spec_bump_seq<T>(nodes: Seq<Node<T>>, nbrs: Seq<int>) -> Seq<Node<T>>
    decreases nbrs.len(),
{
    if nbrs.len() == 0 {
        nodes
    } else {
        let prev = spec_bump_seq(nodes, nbrs.drop_last());
        let x = nbrs.last();
        if 0 <= x < prev.len() {
            prev.update(x, prev[x].spec_bumped())
        } else {
            prev
        }
    }
}

/// One DSATUR decision on the whole state: select the node, give it the
/// first fitting register or a fresh slot, and saturate its neighbours.
pub open spec fn spec_dsatur_step<T: ILSized>(
    nodes: Seq<Node<T>>,
    edges: Seq<(int, int)>,
    offset: usize,
) -> (Seq<Node<T>>, usize) {
    match spec_pick(nodes) {
        None => (nodes, offset),
        Some(ni) => {
            let nbrs = spec_neighbours(edges, ni);
            let colors = spec_colors_of(nodes, nbrs);
            let sz = nodes[ni].spec_data().spec_il_size();
            let decision = match spec_first_fit(colors, sz, 0) {
                Some(m) => (RegColor::Machine(m), offset),
                None => (
                    RegColor::Slot(StackSlot { offset, width: sz.spec_width() }),
                    if offset <= usize::MAX - sz.spec_width() {
                        (offset + sz.spec_width()) as usize
                    } else {
                        offset
                    },
                ),
            };
            let colored = nodes.update(ni, nodes[ni].spec_with_color(decision.0));
            (spec_bump_seq(colored, nbrs), decision.1)
        },
    }
}

/// The whole pass as a function of the graph: decisions until every node
/// is colored, the fuel being the number still uncolored.
pub open spec fn spec_dsatur<T: ILSized>(
    nodes: Seq<Node<T>>,
    edges: Seq<(int, int)>,
    offset: usize,
    fuel: nat,
) -> (Seq<Node<T>>, usize)
    decreases fuel,
{
    if fuel == 0 || spec_pick(nodes) is None {
        (nodes, offset)
    } else {
        let stepped = spec_dsatur_step(nodes, edges, offset);
        spec_dsatur(stepped.0, edges, stepped.1, (fuel - 1) as nat)
    }
}

/// Determinism of the coloring pass: the result equals a function of the
/// nodes and edges alone, so two runs on equal graphs color every node the
/// same way.
pub proof fn lemma_dsatur_deterministic<T: ILSized>(
    n1: Seq<Node<T>>,
    e1: Seq<(int, int)>,
    n2: Seq<Node<T>>,
    e2: Seq<(int, int)>,
)
    requires
        n1 == n2,
        e1 == e2,
    ensures
        spec_dsatur(n1, e1, 0, count_uncolored(n1) as nat) == spec_dsatur(
            n2,
            e2,
            0,
            count_uncolored(n2) as nat,
        ),
{
}

/// How many nodes still have no color.
pub open spec fn count_uncolored<T>(nodes: Seq<Node<T>>) -> int
    decreases nodes.len(),
{
    if nodes.len() == 0 {
        0
    } else {
        count_uncolored(nodes.drop_last()) + if nodes.last().spec_color() is Some {
            0int
        } else {
            1int
        }
    }
}

proof fn lemma_count_uncolored_nonneg<T>(nodes: Seq<Node<T>>)
    ensures
        count_uncolored(nodes) >= 0,
    decreases nodes.len(),
{
    if nodes.len() > 0 {
        lemma_count_uncolored_nonneg(nodes.drop_last());
    }
}

proof fn lemma_count_uncolored_pos<T>(nodes: Seq<Node<T>>, i: int)
    requires
        0 <= i < nodes.len(),
        nodes[i].spec_color() is None,
    ensures
        count_uncolored(nodes) >= 1,
    decreases nodes.len(),
{
    lemma_count_uncolored_nonneg(nodes.drop_last());
    if i < nodes.len() - 1 {
        lemma_count_uncolored_pos(nodes.drop_last(), i);
    }
}

proof fn lemma_bump_seq_len<T>(nodes: Seq<Node<T>>, nbrs: Seq<int>)
    ensures
        spec_bump_seq(nodes, nbrs).len() == nodes.len(),
    decreases nbrs.len(),
{
    if nbrs.len() > 0 {
        lemma_bump_seq_len(nodes, nbrs.drop_last());
    }
}

proof fn lemma_count_uncolored_update<T>(nodes: Seq<Node<T>>, k: int, node: Node<T>)
    requires
        0 <= k < nodes.len(),
        nodes[k].spec_color() is None,
        node.spec_color() is Some,
    ensures
        count_uncolored(nodes.update(k, node)) == count_uncolored(nodes) - 1,
    decreases nodes.len(),
{
    let t = nodes.update(k, node);
    if k == nodes.len() - 1 {
        assert(t.drop_last() =~= nodes.drop_last());
    } else {
        assert(t.drop_last() =~= nodes.drop_last().update(k, node));
        assert(t.last() == nodes.last());
        lemma_count_uncolored_update(nodes.drop_last(), k, node);
    }
}

proof fn lemma_count_uncolored_congruent<T>(s: Seq<Node<T>>, t: Seq<Node<T>>)
    requires
        s.len() == t.len(),
        forall|k: int|
            0 <= k < s.len() ==> ((#[trigger] s[k]).spec_color() is Some <==> (
            #[trigger] t[k]).spec_color() is Some),
    ensures
        count_uncolored(s) == count_uncolored(t),
    decreases s.len(),
{
    if s.len() > 0 {
        lemma_count_uncolored_congruent(s.drop_last(), t.drop_last());
    }
}

pub struct InterferenceGraph<T> {
    nodes: Vec<Node<T>>,
    edges: Vec<Edge>,
}

impl<T> InterferenceGraph<T> {
    pub closed spec fn node_seq(&self) -> Seq<Node<T>> {
        self.nodes@
    }

    pub closed spec fn edge_seq(&self) -> Seq<(int, int)> {
        self.edges@.map_values(|e: Edge| (e.a.0 as int, e.b.0 as int))
    }

    /// Every edge joins two distinct valid nodes.
    pub open spec fn wf(&self) -> bool {
        forall|k: int|
            0 <= k < self.edge_seq().len() ==> 0 <= (#[trigger] self.edge_seq()[k]).0
                < self.node_seq().len() && 0 <= self.edge_seq()[k].1 < self.node_seq().len()
                && self.edge_seq()[k].0 != self.edge_seq()[k].1
    }

    #[inline]
    pub fn new() -> (r: Self)
        ensures
            r.node_seq() == Seq::<Node<T>>::empty(),
            r.edge_seq() == Seq::<(int, int)>::empty(),
            r.wf(),
    {
        let r = InterferenceGraph { nodes: Vec::new(), edges: Vec::new() };
        proof {
            assert(r.node_seq() =~= Seq::<Node<T>>::empty());
            assert(r.edge_seq() =~= Seq::<(int, int)>::empty());
        }
        r
    }

    /// Add a node to the interference graph.
    #[inline]
    pub fn add_node(&mut self, data: T) -> (r: NodeIndex)
        ensures
            final(self).node_seq().len() == old(self).node_seq().len() + 1,
            final(self).node_seq().subrange(0, old(self).node_seq().len() as int) == old(self).node_seq(),
            final(self).node_seq().last().spec_data() == data,
            final(self).node_seq().last().spec_color() is None,
            final(self).node_seq().last().spec_saturation() == 0,
            final(self).edge_seq() == old(self).edge_seq(),
            r.spec_idx() == old(self).node_seq().len(),
            old(self).wf() ==> final(self).wf(),
    {
        let ghost pre = *self;
        let index = self.nodes.len();
        let node = Node { data, dsatur_saturation: 0, color: None };
        self.nodes.push(node);
        proof {
            assert(self.node_seq().subrange(0, pre.node_seq().len() as int) =~= pre.node_seq());
            assert(self.edge_seq() =~= pre.edge_seq());
        }
        NodeIndex(index)
    }

    #[inline]
    pub fn add_edge(&mut self, a: NodeIndex, b: NodeIndex) -> (r: EdgeIndex)
        requires
            0 <= a.spec_idx() < old(self).node_seq().len(),
            0 <= b.spec_idx() < old(self).node_seq().len(),
        ensures
            final(self).edge_seq() == old(self).edge_seq().push((a.spec_idx(), b.spec_idx())),
            final(self).node_seq() == old(self).node_seq(),
            r.spec_idx() == old(self).edge_seq().len(),
            old(self).wf() && a.spec_idx() != b.spec_idx() ==> final(self).wf(),
    {
        let ghost pre = *self;
        let index = self.edges.len();
        self.edges.push(Edge { a, b });
        proof {
            assert(self.edge_seq() =~= pre.edge_seq().push((a.spec_idx(), b.spec_idx())));
        }
        EdgeIndex(index)
    }

    /// Get the data for the node with `index` as its index.
    #[inline]
    pub fn get_node(&self, index: NodeIndex) -> (r: &Node<T>)
        requires
            0 <= index.spec_idx() < self.node_seq().len(),
        ensures
            *r == self.node_seq()[index.spec_idx()],
    {
        &self.nodes[index.0]
    }

    /// Mutable access to the node with `index` as its index.
    #[inline]
    pub fn get_node_mut(&mut self, index: NodeIndex) -> (r: &mut Node<T>)
        requires
            0 <= index.spec_idx() < old(self).node_seq().len(),
        ensures
            *r == old(self).node_seq()[index.spec_idx()],
            final(self).node_seq() == old(self).node_seq().update(
                index.spec_idx(),
                *final(r),
            ),
            final(self).edge_seq() == old(self).edge_seq(),
    {
        &mut self.nodes[index.0]
    }

    /// The neighbours of `base_node`, most recently added edge first.
    #[inline]
    #[verifier::loop_isolation(false)]
    pub fn neighbors_vec(&self, base_node: NodeIndex) -> (r: Vec<NodeIndex>)
        ensures
            r@.map_values(|n: NodeIndex| n.spec_idx()) == spec_neighbours(
                self.edge_seq(),
                base_node.spec_idx(),
            ),
    {
        let ghost e = self.edge_seq();
        let ghost bidx = base_node.spec_idx();
        let mut r: Vec<NodeIndex> = Vec::new();
        let mut i: usize = self.edges.len();
        while i > 0
            invariant
                0 <= i <= self.edges@.len(),
                e == self.edge_seq(),
                r@.map_values(|n: NodeIndex| n.spec_idx()) == neighbours_from(
                    e,
                    bidx,
                    i as int,
                ),
            decreases i,
        {
            i = i - 1;
            let ghost r_pre = r@;
            proof {
                assert(e[i as int] == (self.edges@[i as int].a.0 as int, self.edges@[i as int].b.0
                    as int));
                lemma_node_index_eq(self.edges@[i as int].a, base_node);
                lemma_node_index_eq(self.edges@[i as int].b, base_node);
                assert(r_pre.map_values(|n: NodeIndex| n.spec_idx()) == neighbours_from(
                    e,
                    bidx,
                    i as int + 1,
                ));
            }
            if self.edges[i].a == base_node {
                r.push(self.edges[i].b);
                proof {
                    assert(r@ == r_pre.push(self.edges@[i as int].b));
                    assert(e[i as int].0 == bidx);
                    assert(neighbours_from(e, bidx, i as int) == neighbours_from(
                        e,
                        bidx,
                        i as int + 1,
                    ) + seq![e[i as int].1]);
                    assert(r@.map_values(|n: NodeIndex| n.spec_idx()) =~= neighbours_from(
                        e,
                        bidx,
                        i as int,
                    ));
                }
            } else if self.edges[i].b == base_node {
                r.push(self.edges[i].a);
                proof {
                    assert(r@ == r_pre.push(self.edges@[i as int].a));
                    assert(e[i as int].0 != bidx);
                    assert(e[i as int].1 == bidx);
                    assert(neighbours_from(e, bidx, i as int) == neighbours_from(
                        e,
                        bidx,
                        i as int + 1,
                    ) + seq![e[i as int].0]);
                    assert(r@.map_values(|n: NodeIndex| n.spec_idx()) =~= neighbours_from(
                        e,
                        bidx,
                        i as int,
                    ));
                }
            } else {
                proof {
                    assert(neighbours_from(e, bidx, i as int) == neighbours_from(
                        e,
                        bidx,
                        i as int + 1,
                    ) + Seq::<int>::empty());
                    assert(neighbours_from(e, bidx, i as int) =~= neighbours_from(
                        e,
                        bidx,
                        i as int + 1,
                    ));
                }
            }
        }
        r
    }

    /// True when an edge joins the two nodes.
    #[inline]
    #[verifier::loop_isolation(false)]
    pub fn has_edge(&self, a: NodeIndex, b: NodeIndex) -> (r: bool)
        ensures
            r == spec_has_edge(self.edge_seq(), a.spec_idx(), b.spec_idx()),
    {
        let neighbors = self.neighbors_vec(a);
        let ghost e = self.edge_seq();
        let mut i: usize = 0;
        while i < neighbors.len()
            invariant
                0 <= i <= neighbors@.len(),
                neighbors@.map_values(|n: NodeIndex| n.spec_idx()) == spec_neighbours(
                    e,
                    a.spec_idx(),
                ),
                e == self.edge_seq(),
                forall|k: int| 0 <= k < i ==> (#[trigger] neighbors@[k]).spec_idx() != b.spec_idx(),
            decreases neighbors@.len() - i,
        {
            if neighbors[i] == b {
                proof {
                    assert(spec_neighbours(e, a.spec_idx())[i as int] == b.spec_idx());
                    assert(spec_neighbours(e, a.spec_idx()).contains(b.spec_idx()));
                    lemma_neighbours_are_exactly_the_edges(e, a.spec_idx(), b.spec_idx(), 0);
                }
                return true;
            }
            i = i + 1;
        }
        proof {
            lemma_neighbours_are_exactly_the_edges(e, a.spec_idx(), b.spec_idx(), 0);
            if spec_has_edge(e, a.spec_idx(), b.spec_idx()) {
                assert(spec_neighbours(e, a.spec_idx()).contains(b.spec_idx()));
                let n = choose|n: int|
                    0 <= n < spec_neighbours(e, a.spec_idx()).len() && spec_neighbours(
                        e,
                        a.spec_idx(),
                    )[n] == b.spec_idx();
                assert(neighbors@[n].spec_idx() == b.spec_idx());
            }
        }
        false
    }

    /// Colors node `k`, leaving everything else in place.
    fn set_color(&mut self, k: NodeIndex, color: RegColor)
        requires
            0 <= k.spec_idx() < old(self).node_seq().len(),
        ensures
            final(self).edge_seq() == old(self).edge_seq(),
            final(self).node_seq().len() == old(self).node_seq().len(),
            forall|j: int|
                0 <= j < old(self).node_seq().len() && j != k.spec_idx() ==> final(self).node_seq()[j] == old(self).node_seq()[j],
            final(self).node_seq()[k.spec_idx()].spec_data() == old(self).node_seq()[k.spec_idx()].spec_data(),
            final(self).node_seq()[k.spec_idx()].spec_saturation() == old(self).node_seq()[k.spec_idx()].spec_saturation(),
            final(self).node_seq()[k.spec_idx()].spec_color() == Some(color),
            final(self).node_seq()[k.spec_idx()] == old(self).node_seq()[k.spec_idx()].spec_with_color(color),
    {
        let ghost pre = *self;
        let mut node = self.nodes.remove(k.0);
        node.color = Some(color);
        self.nodes.insert(k.0, node);
        proof {
            assert(self.nodes@ =~= pre.nodes@.update(k.spec_idx(), self.nodes@[k.spec_idx()]));
            assert(self.edge_seq() =~= pre.edge_seq());
        }
    }

    /// Raises node `k`'s saturation by one; it saturates at the top of the
    /// counter's range.
    fn bump_saturation(&mut self, k: NodeIndex)
        requires
            0 <= k.spec_idx() < old(self).node_seq().len(),
        ensures
            final(self).edge_seq() == old(self).edge_seq(),
            final(self).node_seq().len() == old(self).node_seq().len(),
            forall|j: int|
                0 <= j < old(self).node_seq().len() && j != k.spec_idx() ==> final(self).node_seq()[j] == old(self).node_seq()[j],
            final(self).node_seq()[k.spec_idx()].spec_data() == old(self).node_seq()[k.spec_idx()].spec_data(),
            final(self).node_seq()[k.spec_idx()].spec_color() == old(self).node_seq()[k.spec_idx()].spec_color(),
            final(self).node_seq()[k.spec_idx()].spec_saturation() == spec_cap(
                old(self).node_seq()[k.spec_idx()].spec_saturation() + 1,
            ),
            final(self).node_seq()[k.spec_idx()] == old(self).node_seq()[k.spec_idx()].spec_bumped(),
    {
        let ghost pre = *self;
        let mut node = self.nodes.remove(k.0);
        if node.dsatur_saturation < usize::MAX {
            node.dsatur_saturation = node.dsatur_saturation + 1;
        }
        self.nodes.insert(k.0, node);
        proof {
            assert(self.nodes@ =~= pre.nodes@.update(k.spec_idx(), self.nodes@[k.spec_idx()]));
            assert(self.edge_seq() =~= pre.edge_seq());
        }
    }
}

/// Picks the uncolored node with the highest saturation; the earliest such
/// node wins ties, so the choice is deterministic.
#[verifier::loop_isolation(false)]
pub fn dsatur_choose_uncolored_node<T>(ifr_graph: &mut InterferenceGraph<T>) -> (r: Option<
    NodeIndex,
>)
    ensures
        *final(ifr_graph) == *old(ifr_graph),
        match r {
            None => forall|j: int|
                0 <= j < old(ifr_graph).node_seq().len() ==> (#[trigger] old(ifr_graph).node_seq()[j]).spec_color() is Some,
            Some(i) => {
                &&& 0 <= i.spec_idx() < old(ifr_graph).node_seq().len()
                &&& old(ifr_graph).node_seq()[i.spec_idx()].spec_color() is None
                &&& forall|j: int|
                    0 <= j < old(ifr_graph).node_seq().len() && (#[trigger] old(ifr_graph).node_seq()[j]).spec_color() is None ==> old(ifr_graph).node_seq()[j].spec_saturation() <= old(ifr_graph).node_seq()[i.spec_idx()].spec_saturation()
                &&& forall|j: int|
                    0 <= j < i.spec_idx() && (#[trigger] old(ifr_graph).node_seq()[j]).spec_color()
                        is None ==> old(ifr_graph).node_seq()[j].spec_saturation() < old(ifr_graph).node_seq()[i.spec_idx()].spec_saturation()
            },
        },
{
    let mut max_node: Option<NodeIndex> = None;
    let mut i: usize = 0;
    while i < ifr_graph.nodes.len()
        invariant
            0 <= i <= ifr_graph.node_seq().len(),
            *ifr_graph == *old(ifr_graph),
            match max_node {
                None => forall|j: int|
                    0 <= j < i ==> (#[trigger] ifr_graph.node_seq()[j]).spec_color() is Some,
                Some(m) => {
                    &&& 0 <= m.spec_idx() < i as int
                    &&& ifr_graph.node_seq()[m.spec_idx()].spec_color() is None
                    &&& forall|j: int|
                        0 <= j < i && (#[trigger] ifr_graph.node_seq()[j]).spec_color() is None
                            ==> ifr_graph.node_seq()[j].spec_saturation()
                            <= ifr_graph.node_seq()[m.spec_idx()].spec_saturation()
                    &&& forall|j: int|
                        0 <= j < m.spec_idx() && (#[trigger] ifr_graph.node_seq()[j]).spec_color()
                            is None ==> ifr_graph.node_seq()[j].spec_saturation()
                            < ifr_graph.node_seq()[m.spec_idx()].spec_saturation()
                },
            },
        decreases ifr_graph.node_seq().len() - i,
    {
        if ifr_graph.nodes[i].color.is_none() {
            match max_node {
                Some(max_node_index) => {
                    if ifr_graph.nodes[i].dsatur_saturation
                        > ifr_graph.nodes[max_node_index.0].dsatur_saturation {
                        max_node = Some(NodeIndex(i));
                    }
                },
                None => {
                    max_node = Some(NodeIndex(i));
                },
            }
        }
        i = i + 1;
    }
    max_node
}

/// True when a color on a neighbour would block machine register `m`.
pub open spec fn color_blocks(m: MachineReg, c: Option<RegColor>) -> bool {
    match c {
        Some(cc) => RegColor::Machine(m).spec_color_overlaps(cc),
        None => false,
    }
}

/// Machine register `m` suits node `j` under the given coloring: the width
/// is the node's, and no edge joins `j` to a node whose color blocks `m`.
pub open spec fn reg_suits<T: ILSized>(
    nodes: Seq<Node<T>>,
    edges: Seq<(int, int)>,
    j: int,
    m: MachineReg,
) -> bool {
    &&& m.spec_il_size() == nodes[j].spec_data().spec_il_size()
    &&& (forall|k: int|
        0 <= k < edges.len() ==> {
            let u = (#[trigger] edges[k]).0;
            let v = edges[k].1;
            &&& (u == j && 0 <= v < nodes.len() ==> !color_blocks(m, nodes[v].spec_color()))
            &&& (v == j && 0 <= u < nodes.len() ==> !color_blocks(m, nodes[u].spec_color()))
        })
}

/// A palette register clears the scanned neighbour colors at the wanted
/// width.
pub open spec fn palette_reg_ok(colors: Seq<RegColor>, sz: ILSize, m: MachineReg) -> bool {
    &&& m.spec_il_size() == sz
    &&& (forall|c2: int|
        0 <= c2 < colors.len() ==> !RegColor::Machine(m).spec_color_overlaps(
            #[trigger] colors[c2],
        ))
}

/// Two adjacent colored nodes never clash: a clash needs two machine
/// registers with a shared unit, and the coloring never produces one.
pub open spec fn coloring_ok<T>(nodes: Seq<Node<T>>, edges: Seq<(int, int)>) -> bool {
    forall|k: int|
        0 <= k < edges.len() ==> {
            let u = (#[trigger] edges[k]).0;
            let v = edges[k].1;
            match (nodes[u].spec_color(), nodes[v].spec_color()) {
                (Some(cu), Some(cv)) => !cu.spec_color_overlaps(cv),
                _ => true,
            }
        }
}

/// DSATUR coloring. Every node ends with a color; a node that could not
/// take any compatible machine register of its width is spilled to a fresh
/// stack slot, no two of which collide. No two adjacent nodes end with
/// overlapping machine registers. The whole pass equals `spec_dsatur`, a
/// function of the nodes and edges alone, which pins each decision: the
/// uncolored node of highest saturation and lowest index takes the first
/// register of the file that clears the colors its neighbours hold at that
/// moment, and each decision raises a neighbour's saturation by one per
/// connecting edge.
#[verifier::rlimit(100)]
pub fn dsatur<T: ILSized>(ifr_graph: &mut InterferenceGraph<T>)
    requires
        old(ifr_graph).wf(),
        coloring_ok(old(ifr_graph).node_seq(), old(ifr_graph).edge_seq()),
        forall|j: int|
            0 <= j < old(ifr_graph).node_seq().len() ==> match (#[trigger] old(
                ifr_graph,
            ).node_seq()[j]).spec_color() {
                Some(RegColor::Machine(m)) => m.spec_il_size() == old(
                    ifr_graph,
                ).node_seq()[j].spec_data().spec_il_size(),
                Some(RegColor::Slot(s)) => s.width == old(
                    ifr_graph,
                ).node_seq()[j].spec_data().spec_il_size().spec_width(),
                _ => true,
            },
        // the frame the spills can need fits the machine
        spec_uncolored_width(old(ifr_graph).node_seq()) <= usize::MAX,
    ensures
        final(ifr_graph).wf(),
        final(ifr_graph).edge_seq() == old(ifr_graph).edge_seq(),
        final(ifr_graph).node_seq().len() == old(ifr_graph).node_seq().len(),
        forall|j: int|
            0 <= j < old(ifr_graph).node_seq().len() ==> (#[trigger] final(ifr_graph).node_seq()[j]).spec_data() == old(ifr_graph).node_seq()[j].spec_data(),
        // spill totality: every node holds a color
        forall|j: int|
            0 <= j < final(ifr_graph).node_seq().len() ==> (#[trigger] final(ifr_graph).node_seq()[j]).spec_color() is Some,
        // coloring legality: no edge joins overlapping machine registers
        coloring_ok(final(ifr_graph).node_seq(), final(ifr_graph).edge_seq()),
        // a color always has the width of the node's data: a machine
        // register by its table entry, a stack slot by construction
        forall|j: int|
            0 <= j < final(ifr_graph).node_seq().len() ==> match (#[trigger] final(ifr_graph).node_seq()[j]).spec_color() {
                Some(RegColor::Machine(m)) => m.spec_il_size() == final(ifr_graph).node_seq()[j].spec_data().spec_il_size(),
                Some(RegColor::Slot(s)) => s.width == final(ifr_graph).node_seq()[j].spec_data().spec_il_size().spec_width(),
                _ => true,
            },
        // a node that came in colored keeps its color: only uncolored nodes
        // are decided
        forall|j: int|
            0 <= j < old(ifr_graph).node_seq().len() && (#[trigger] old(ifr_graph).node_seq()[j]).spec_color() is Some
                ==> final(ifr_graph).node_seq()[j].spec_color() == old(ifr_graph).node_seq()[j].spec_color(),
        // a node decided here took the first register of the file that
        // suited it, and a stack slot only when none did; later decisions
        // only narrow what suits, so the verdict reads on the final coloring
        forall|j: int|
            0 <= j < final(ifr_graph).node_seq().len() && (#[trigger] old(ifr_graph).node_seq()[j]).spec_color() is None
                ==> (match final(ifr_graph).node_seq()[j].spec_color() {
                Some(RegColor::Machine(m)) => exists|pi: int|
                    #![trigger crate::il::reg::spec_amd_gpr_registers()[pi]]
                    0 <= pi < crate::il::reg::spec_amd_gpr_registers().len()
                        && crate::il::reg::spec_amd_gpr_registers()[pi] == m && (forall|q: int|
                        0 <= q < pi ==> !reg_suits(
                            final(ifr_graph).node_seq(),
                            final(ifr_graph).edge_seq(),
                            j,
                            #[trigger] crate::il::reg::spec_amd_gpr_registers()[q],
                        )),
                Some(RegColor::Slot(_)) => forall|q: int|
                    0 <= q < crate::il::reg::spec_amd_gpr_registers().len() ==> !reg_suits(
                        final(ifr_graph).node_seq(),
                        final(ifr_graph).edge_seq(),
                        j,
                        #[trigger] crate::il::reg::spec_amd_gpr_registers()[q],
                    ),
                None => true,
            }),
        // saturation bookkeeping: each node's counter rose by one per
        // connecting edge whose other side was decided here, sticking at
        // the counter's top
        forall|j: int|
            0 <= j < final(ifr_graph).node_seq().len() ==> (#[trigger] final(ifr_graph).node_seq()[j]).spec_saturation() == spec_cap(
                old(ifr_graph).node_seq()[j].spec_saturation() + pending_bumps(
                    old(ifr_graph).edge_seq(),
                    old(ifr_graph).node_seq(),
                    j,
                ),
            ),
        // the pass equals a function of the nodes and edges alone: two
        // runs on the same graph color every node identically
        final(ifr_graph).node_seq() == spec_dsatur(
            old(ifr_graph).node_seq(),
            old(ifr_graph).edge_seq(),
            0,
            count_uncolored(old(ifr_graph).node_seq()) as nat,
        ).0,
        // spill freshness: the slots handed out here never collide
        forall|j1: int, j2: int|
            0 <= j1 < old(ifr_graph).node_seq().len() && 0 <= j2 < old(ifr_graph).node_seq().len()
                && j1 != j2 && (#[trigger] old(ifr_graph).node_seq()[j1]).spec_color() is None && (
            #[trigger] old(ifr_graph).node_seq()[j2]).spec_color() is None ==> (match (
                final(ifr_graph).node_seq()[j1].spec_color(),
                final(ifr_graph).node_seq()[j2].spec_color(),
            ) {
                (Some(RegColor::Slot(s1)), Some(RegColor::Slot(s2))) => (s1.offset + s1.width
                    <= s2.offset || s2.offset + s2.width <= s1.offset) && (s1.width >= 1
                    && s2.width >= 1 ==> s1.offset != s2.offset),
                _ => true,
            }),
{
    let ghost e = ifr_graph.edge_seq();
    let mut stack_offset: usize = 0;
    proof {
        lemma_count_uncolored_nonneg(ifr_graph.node_seq());
        assert forall|j: int|
            0 <= j < ifr_graph.node_seq().len() implies 0 <= #[trigger] pending_bumps(
            e,
            ifr_graph.node_seq(),
            j,
        ) <= pending_bumps(e, old(ifr_graph).node_seq(), j) by {
            lemma_pending_bumps_nonneg(e, 0, ifr_graph.node_seq(), j);
        }
    }
    loop
        invariant
            ifr_graph.wf(),
            ifr_graph.edge_seq() == e,
            e == old(ifr_graph).edge_seq(),
            ifr_graph.node_seq().len() == old(ifr_graph).node_seq().len(),
            forall|j: int|
                0 <= j < old(ifr_graph).node_seq().len() ==> (
                #[trigger] ifr_graph.node_seq()[j]).spec_data() == old(ifr_graph).node_seq()[j].spec_data(),
            coloring_ok(ifr_graph.node_seq(), e),
            forall|j: int|
                0 <= j < ifr_graph.node_seq().len() ==> match (
                #[trigger] ifr_graph.node_seq()[j]).spec_color() {
                    Some(RegColor::Machine(m)) => m.spec_il_size()
                        == ifr_graph.node_seq()[j].spec_data().spec_il_size(),
                    Some(RegColor::Slot(s)) => s.width
                        == ifr_graph.node_seq()[j].spec_data().spec_il_size().spec_width(),
                    _ => true,
                },
            count_uncolored(ifr_graph.node_seq()) >= 0,
            stack_offset as int + spec_uncolored_width(ifr_graph.node_seq()) <= usize::MAX,
            spec_dsatur(
                ifr_graph.node_seq(),
                e,
                stack_offset,
                count_uncolored(ifr_graph.node_seq()) as nat,
            ) == spec_dsatur(
                old(ifr_graph).node_seq(),
                e,
                0,
                count_uncolored(old(ifr_graph).node_seq()) as nat,
            ),
            forall|j: int|
                0 <= j < ifr_graph.node_seq().len() ==> 0 <= #[trigger] pending_bumps(
                    e,
                    ifr_graph.node_seq(),
                    j,
                ) <= pending_bumps(e, old(ifr_graph).node_seq(), j),
            forall|j: int|
                0 <= j < ifr_graph.node_seq().len() ==> (
                #[trigger] ifr_graph.node_seq()[j]).spec_saturation() == spec_cap(
                    old(ifr_graph).node_seq()[j].spec_saturation() + pending_bumps(
                        e,
                        old(ifr_graph).node_seq(),
                        j,
                    ) - pending_bumps(e, ifr_graph.node_seq(), j),
                ),
            forall|j: int|
                0 <= j < ifr_graph.node_seq().len() && (#[trigger] old(ifr_graph).node_seq()[j]).spec_color() is None
                    ==> (match ifr_graph.node_seq()[j].spec_color() {
                    Some(RegColor::Slot(s)) => s.offset + s.width <= stack_offset,
                    _ => true,
                }),
            forall|j1: int, j2: int|
                0 <= j1 < ifr_graph.node_seq().len() && 0 <= j2 < ifr_graph.node_seq().len()
                    && j1 != j2 && (#[trigger] old(ifr_graph).node_seq()[j1]).spec_color() is None
                    && (#[trigger] old(ifr_graph).node_seq()[j2]).spec_color() is None ==> (match (
                    ifr_graph.node_seq()[j1].spec_color(),
                    ifr_graph.node_seq()[j2].spec_color(),
                ) {
                    (Some(RegColor::Slot(s1)), Some(RegColor::Slot(s2))) => (s1.offset + s1.width
                        <= s2.offset || s2.offset + s2.width <= s1.offset) && (s1.width >= 1
                        && s2.width >= 1 ==> s1.offset != s2.offset),
                    _ => true,
                }),
            forall|j: int|
                0 <= j < old(ifr_graph).node_seq().len() && (#[trigger] old(ifr_graph).node_seq()[j]).spec_color() is Some
                    ==> ifr_graph.node_seq()[j].spec_color() == old(ifr_graph).node_seq()[j].spec_color(),
            forall|j: int|
                0 <= j < ifr_graph.node_seq().len() && (#[trigger] old(ifr_graph).node_seq()[j]).spec_color() is None
                    ==> (match ifr_graph.node_seq()[j].spec_color() {
                    Some(RegColor::Machine(m)) => exists|pi: int|
                        #![trigger crate::il::reg::spec_amd_gpr_registers()[pi]]
                        0 <= pi < crate::il::reg::spec_amd_gpr_registers().len()
                            && crate::il::reg::spec_amd_gpr_registers()[pi] == m && (forall|
                            q: int,
                        |
                            0 <= q < pi ==> !reg_suits(
                                ifr_graph.node_seq(),
                                e,
                                j,
                                #[trigger] crate::il::reg::spec_amd_gpr_registers()[q],
                            )),
                    Some(RegColor::Slot(_)) => forall|q: int|
                        0 <= q < crate::il::reg::spec_amd_gpr_registers().len() ==> !reg_suits(
                            ifr_graph.node_seq(),
                            e,
                            j,
                            #[trigger] crate::il::reg::spec_amd_gpr_registers()[q],
                        ),
                    None => true,
                }),
        ensures
            forall|j: int|
                0 <= j < ifr_graph.node_seq().len() ==> (
                #[trigger] ifr_graph.node_seq()[j]).spec_color() is Some,
        decreases count_uncolored(ifr_graph.node_seq()),
    {
        let node_index = match dsatur_choose_uncolored_node(ifr_graph) {
            Some(i) => i,
            None => {
                proof {
                    if exists|i2: int| is_pick(ifr_graph.node_seq(), i2) {
                        let i2 = choose|i2: int| is_pick(ifr_graph.node_seq(), i2);
                    }
                    assert(spec_pick(ifr_graph.node_seq()) is None);
                }
                break ;
            },
        };
        let ghost at_pick = *ifr_graph;
        let ghost off0 = stack_offset;
        proof {
            assert(is_pick(at_pick.node_seq(), node_index.spec_idx()));
            let ip = choose|i: int| is_pick(at_pick.node_seq(), i);
            lemma_pick_unique(at_pick.node_seq(), ip, node_index.spec_idx());
            assert(spec_pick(at_pick.node_seq()) == Some(node_index.spec_idx()));
        }
        // Collect the colors already taken by the neighbours.
        let neighbors = ifr_graph.neighbors_vec(node_index);
        let ghost nbv = neighbors@.map_values(|n: NodeIndex| n.spec_idx());
        proof {
            assert forall|t: int|
                0 <= t < nbv.len() implies 0 <= #[trigger] nbv[t]
                < ifr_graph.node_seq().len() by {
                lemma_neighbours_are_exactly_the_edges(e, node_index.spec_idx(), nbv[t], 0);
                assert(spec_neighbours(e, node_index.spec_idx()).contains(nbv[t]));
                let k = choose|k: int|
                    0 <= k < e.len() && (e[k] == (node_index.spec_idx(), nbv[t]) || e[k] == (
                        nbv[t],
                        node_index.spec_idx(),
                    ));
            }
        }
        let mut neighbor_colors: Vec<RegColor> = Vec::new();
        let mut d: usize = 0;
        while d < neighbors.len()
            invariant
                0 <= d <= neighbors@.len(),
                *ifr_graph == at_pick,
                ifr_graph.wf(),
                nbv == spec_neighbours(e, node_index.spec_idx()),
                nbv == neighbors@.map_values(|n: NodeIndex| n.spec_idx()),
                e == ifr_graph.edge_seq(),
                forall|t: int|
                    0 <= t < nbv.len() ==> 0 <= #[trigger] nbv[t] < ifr_graph.node_seq().len(),
                forall|c: int|
                    0 <= c < neighbor_colors@.len() ==> exists|t: int|
                        0 <= t < nbv.len() && ifr_graph.node_seq()[nbv[t]].spec_color() == Some(
                            #[trigger] neighbor_colors@[c],
                        ),
                forall|t: int|
                    0 <= t < d && (#[trigger] ifr_graph.node_seq()[nbv[t]]).spec_color() is Some
                        ==> neighbor_colors@.contains(
                        ifr_graph.node_seq()[nbv[t]].spec_color()->0,
                    ),
                neighbor_colors@ == spec_colors_of(at_pick.node_seq(), nbv.take(d as int)),
            decreases neighbors@.len() - d,
        {
            proof {
                assert(nbv[d as int] == neighbors@[d as int].spec_idx());
                lemma_neighbours_are_exactly_the_edges(e, node_index.spec_idx(), nbv[d as int], 0);
                assert(spec_neighbours(e, node_index.spec_idx())[d as int] == nbv[d as int]);
                assert(spec_neighbours(e, node_index.spec_idx()).contains(nbv[d as int]));
                let k = choose|k: int|
                    0 <= k < e.len() && (e[k] == (node_index.spec_idx(), nbv[d as int]) || e[k] == (
                        nbv[d as int],
                        node_index.spec_idx(),
                    ));
            }
            let ghost colors_pre = neighbor_colors@;
            match ifr_graph.get_node(neighbors[d]).color() {
                Some(c) => {
                    neighbor_colors.push(c);
                    proof {
                        assert(neighbor_colors@[colors_pre.len() as int] == c);
                        assert forall|t: int|
                            0 <= t < d + 1 && (
                            #[trigger] ifr_graph.node_seq()[nbv[t]]).spec_color()
                                is Some implies neighbor_colors@.contains(
                            ifr_graph.node_seq()[nbv[t]].spec_color()->0,
                        ) by {
                            if t < d {
                                assert(colors_pre.contains(
                                    ifr_graph.node_seq()[nbv[t]].spec_color()->0,
                                ));
                                let c2 = choose|c2: int|
                                    0 <= c2 < colors_pre.len() && colors_pre[c2]
                                        == ifr_graph.node_seq()[nbv[t]].spec_color()->0;
                                assert(neighbor_colors@[c2]
                                    == ifr_graph.node_seq()[nbv[t]].spec_color()->0);
                            } else {
                                assert(neighbor_colors@[colors_pre.len() as int]
                                    == ifr_graph.node_seq()[nbv[t]].spec_color()->0);
                            }
                        }
                        assert(nbv.take(d as int + 1).drop_last() =~= nbv.take(d as int));
                        assert(nbv.take(d as int + 1).last() == nbv[d as int]);
                        assert(at_pick.node_seq()[nbv[d as int]].spec_color() == Some(c));
                        assert(neighbor_colors@ =~= spec_colors_of(
                            at_pick.node_seq(),
                            nbv.take(d as int + 1),
                        ));
                    }
                },
                None => {
                    proof {
                        assert(nbv.take(d as int + 1).drop_last() =~= nbv.take(d as int));
                        assert(nbv.take(d as int + 1).last() == nbv[d as int]);
                        assert(at_pick.node_seq()[nbv[d as int]].spec_color() is None);
                        assert(neighbor_colors@ =~= spec_colors_of(
                            at_pick.node_seq(),
                            nbv.take(d as int + 1),
                        ));
                    }
                },
            }
            d = d + 1;
        }
        // Pick the first machine register of the right width that clashes
        // with no neighbour's color.
        let palette = crate::il::reg::MachineReg::amd_gpr_registers();
        let node_size = ifr_graph.get_node(node_index).data().il_size();
        let mut chosen: Option<MachineReg> = None;
        let mut p: usize = 0;
        while p < palette.len()
            invariant_except_break
                0 <= p <= palette@.len(),
                chosen is None,
                palette@ == crate::il::reg::spec_amd_gpr_registers(),
                forall|q: int|
                    0 <= q < p ==> !palette_reg_ok(
                        neighbor_colors@,
                        node_size,
                        #[trigger] palette@[q],
                    ),
                spec_first_fit(neighbor_colors@, node_size, 0) == spec_first_fit(
                    neighbor_colors@,
                    node_size,
                    p as int,
                ),
            ensures
                palette@ == crate::il::reg::spec_amd_gpr_registers(),
                chosen == spec_first_fit(neighbor_colors@, node_size, 0),
                match chosen {
                    Some(reg) => reg.spec_il_size() == node_size && (forall|c2: int|
                        0 <= c2 < neighbor_colors@.len() ==> !RegColor::Machine(
                            reg,
                        ).spec_color_overlaps(#[trigger] neighbor_colors@[c2])) && (exists|
                        pi: int,
                    |
                        #![trigger palette@[pi]]
                        0 <= pi < palette@.len() && palette@[pi] == reg && (forall|q: int|
                            0 <= q < pi ==> !palette_reg_ok(
                                neighbor_colors@,
                                node_size,
                                #[trigger] palette@[q],
                            ))),
                    None => forall|q: int|
                        0 <= q < palette@.len() ==> !palette_reg_ok(
                            neighbor_colors@,
                            node_size,
                            #[trigger] palette@[q],
                        ),
                },
            decreases palette@.len() - p,
        {
            let reg = palette[p];
            let mut ok = reg.il_size() == node_size;
            let mut c: usize = 0;
            while c < neighbor_colors.len()
                invariant
                    0 <= c <= neighbor_colors@.len(),
                    ok ==> reg.spec_il_size() == node_size && forall|c2: int|
                        0 <= c2 < c ==> !RegColor::Machine(reg).spec_color_overlaps(
                            #[trigger] neighbor_colors@[c2],
                        ),
                    !ok ==> (reg.spec_il_size() != node_size || (exists|c2: int|
                        0 <= c2 < c && RegColor::Machine(reg).spec_color_overlaps(
                            #[trigger] neighbor_colors@[c2],
                        ))),
                decreases neighbor_colors@.len() - c,
            {
                let nc = neighbor_colors[c];
                let clash = match nc {
                    RegColor::Machine(m) => m.overlaps(&reg),
                    RegColor::Slot(_) => false,
                };
                if clash {
                    proof {
                        match nc {
                            RegColor::Machine(m) => {
                                lemma_overlap_symmetric(m, reg);
                                assert(RegColor::Machine(reg).spec_color_overlaps(
                                    neighbor_colors@[c as int],
                                ));
                            },
                            RegColor::Slot(_) => {},
                        }
                    }
                    ok = false;
                }
                proof {
                    if ok {
                        assert forall|c2: int|
                            0 <= c2 < c + 1 implies !RegColor::Machine(reg).spec_color_overlaps(
                            #[trigger] neighbor_colors@[c2],
                        ) by {
                            if c2 == c as int {
                                match neighbor_colors@[c2] {
                                    RegColor::Machine(m) => {
                                        assert(!m.spec_overlaps(reg));
                                        if RegColor::Machine(reg).spec_color_overlaps(
                                            neighbor_colors@[c2],
                                        ) {
                                            assert(reg.spec_overlaps(m));
                                            lemma_overlap_symmetric(reg, m);
                                        }
                                    },
                                    RegColor::Slot(_) => {},
                                }
                            }
                        }
                    }
                }
                c = c + 1;
            }
            if ok {
                proof {
                    assert(palette_reg_ok(neighbor_colors@, node_size, palette@[p as int]));
                    assert((p as int) < palette@.len() && palette@[p as int] == reg && (forall|
                        q: int,
                    |
                        0 <= q < p as int ==> !palette_reg_ok(
                            neighbor_colors@,
                            node_size,
                            #[trigger] palette@[q],
                        )));
                    assert(spec_first_fit(neighbor_colors@, node_size, p as int) == Some(reg));
                }
                chosen = Some(reg);
                break ;
            }
            proof {
                assert(!palette_reg_ok(neighbor_colors@, node_size, palette@[p as int]));
                assert(spec_first_fit(neighbor_colors@, node_size, p as int) == spec_first_fit(
                    neighbor_colors@,
                    node_size,
                    p as int + 1,
                ));
            }
            p = p + 1;
        }
        let ghost pre_color = *ifr_graph;
        match chosen {
            Some(reg) => {
                ifr_graph.set_color(node_index, RegColor::Machine(reg));
            },
            None => {
                // Register pressure: spill to a fresh stack slot of the
                // node's width, which the frame bound proves still fits
                proof {
                    lemma_uncolored_width_member(at_pick.node_seq(), node_index.spec_idx());
                }
                let width = node_size.width();
                let slot = StackSlot { offset: stack_offset, width };
                if stack_offset <= usize::MAX - width {
                    stack_offset = stack_offset + width;
                }
                ifr_graph.set_color(node_index, RegColor::Slot(slot));
            },
        }
        proof {
            lemma_count_uncolored_update(
                pre_color.node_seq(),
                node_index.spec_idx(),
                ifr_graph.node_seq()[node_index.spec_idx()],
            );
            assert(ifr_graph.node_seq() =~= pre_color.node_seq().update(
                node_index.spec_idx(),
                ifr_graph.node_seq()[node_index.spec_idx()],
            ));
            lemma_count_uncolored_nonneg(ifr_graph.node_seq());
            // legality is kept: the new color clashes with no neighbour
            assert forall|k: int| 0 <= k < e.len() implies {
                let u = (#[trigger] e[k]).0;
                let v = e[k].1;
                match (ifr_graph.node_seq()[u].spec_color(), ifr_graph.node_seq()[v].spec_color()) {
                    (Some(cu), Some(cv)) => !cu.spec_color_overlaps(cv),
                    _ => true,
                }
            } by {
                let u = e[k].0;
                let v = e[k].1;
                let ni = node_index.spec_idx();
                if u == ni || v == ni {
                    let other = if u == ni {
                        v
                    } else {
                        u
                    };
                    assert(other != ni);
                    lemma_neighbours_are_exactly_the_edges(e, ni, other, 0);
                    assert(spec_neighbours(e, ni).contains(other));
                    let t = choose|t: int| 0 <= t < nbv.len() && nbv[t] == other;
                    if pre_color.node_seq()[other].spec_color() is Some {
                        let oc = pre_color.node_seq()[other].spec_color()->0;
                        assert(neighbor_colors@.contains(oc));
                        let c2 = choose|c2: int|
                            0 <= c2 < neighbor_colors@.len() && neighbor_colors@[c2] == oc;
                        match ifr_graph.node_seq()[ni].spec_color()->0 {
                            RegColor::Machine(reg) => {
                                assert(!RegColor::Machine(reg).spec_color_overlaps(oc));
                                match oc {
                                    RegColor::Machine(m) => {
                                        lemma_overlap_symmetric(m, reg);
                                    },
                                    RegColor::Slot(_) => {},
                                }
                            },
                            RegColor::Slot(_) => {},
                        }
                    }
                }
            }
        }
        // Every neighbour of the newly colored node saturates further.
        let saturation_affected_nodes = ifr_graph.neighbors_vec(node_index);
        let ghost post_color = *ifr_graph;
        let mut s: usize = 0;
        while s < saturation_affected_nodes.len()
            invariant
                0 <= s <= saturation_affected_nodes@.len(),
                saturation_affected_nodes@.map_values(|n: NodeIndex| n.spec_idx())
                    == spec_neighbours(e, node_index.spec_idx()),
                ifr_graph.wf(),
                e == ifr_graph.edge_seq(),
                ifr_graph.node_seq().len() == post_color.node_seq().len(),
                forall|j: int|
                    0 <= j < post_color.node_seq().len() ==> {
                        &&& (#[trigger] ifr_graph.node_seq()[j]).spec_data()
                            == post_color.node_seq()[j].spec_data()
                        &&& ifr_graph.node_seq()[j].spec_color()
                            == post_color.node_seq()[j].spec_color()
                    },
                nbv == spec_neighbours(e, node_index.spec_idx()),
                ifr_graph.node_seq() == spec_bump_seq(post_color.node_seq(), nbv.take(s as int)),
                forall|j: int|
                    0 <= j < post_color.node_seq().len() ==> (
                    #[trigger] ifr_graph.node_seq()[j]).spec_saturation() == spec_cap(
                        post_color.node_seq()[j].spec_saturation() + count_occ(
                            nbv.take(s as int),
                            j,
                        ),
                    ),
            decreases saturation_affected_nodes@.len() - s,
        {
            proof {
                let t = s as int;
                assert(saturation_affected_nodes@.map_values(|n: NodeIndex| n.spec_idx())[t]
                    == saturation_affected_nodes@[t].spec_idx());
                lemma_neighbours_are_exactly_the_edges(
                    e,
                    node_index.spec_idx(),
                    saturation_affected_nodes@[t].spec_idx(),
                    0,
                );
                assert(spec_neighbours(e, node_index.spec_idx()).contains(
                    saturation_affected_nodes@[t].spec_idx(),
                ));
                let k = choose|k: int|
                    0 <= k < e.len() && (e[k] == (
                        node_index.spec_idx(),
                        saturation_affected_nodes@[t].spec_idx(),
                    ) || e[k] == (
                        saturation_affected_nodes@[t].spec_idx(),
                        node_index.spec_idx(),
                    ));
            }
            let ghost before_bump = ifr_graph.node_seq();
            ifr_graph.bump_saturation(saturation_affected_nodes[s]);
            s = s + 1;
            proof {
                let t = s as int - 1;
                assert(nbv.take(t + 1).drop_last() =~= nbv.take(t));
                assert(nbv.take(t + 1).last() == nbv[t]);
                assert(nbv[t] == saturation_affected_nodes@[t].spec_idx());
                lemma_bump_seq_len(post_color.node_seq(), nbv.take(t));
                assert(ifr_graph.node_seq() =~= before_bump.update(
                    nbv[t],
                    before_bump[nbv[t]].spec_bumped(),
                ));
                assert(ifr_graph.node_seq() =~= spec_bump_seq(
                    post_color.node_seq(),
                    nbv.take(t + 1),
                ));
                assert forall|j: int|
                    0 <= j < post_color.node_seq().len() implies (
                #[trigger] ifr_graph.node_seq()[j]).spec_saturation() == spec_cap(
                    post_color.node_seq()[j].spec_saturation() + count_occ(nbv.take(t + 1), j),
                ) by {
                    lemma_count_occ_nonneg(nbv.take(t), j);
                    if j == nbv[t] {
                        assert(ifr_graph.node_seq()[j].spec_saturation() == spec_cap(
                            before_bump[j].spec_saturation() + 1,
                        ));
                        assert(count_occ(nbv.take(t + 1), j) == count_occ(nbv.take(t), j) + 1);
                    } else {
                        assert(ifr_graph.node_seq()[j].spec_saturation()
                            == before_bump[j].spec_saturation());
                        assert(count_occ(nbv.take(t + 1), j) == count_occ(nbv.take(t), j));
                    }
                }
            }
        }
        proof {
            lemma_count_uncolored_congruent(post_color.node_seq(), ifr_graph.node_seq());
            lemma_count_uncolored_nonneg(ifr_graph.node_seq());
            let ni = node_index.spec_idx();
            let gprs = crate::il::reg::spec_amd_gpr_registers();
            assert(pre_color == at_pick);
            // the decided node's width leaves the uncolored total
            assert(post_color.node_seq() =~= at_pick.node_seq().update(
                ni,
                post_color.node_seq()[ni],
            ));
            lemma_uncolored_width_update(at_pick.node_seq(), ni, post_color.node_seq()[ni]);
            lemma_uncolored_width_congruent(ifr_graph.node_seq(), post_color.node_seq());
            lemma_uncolored_width_member(at_pick.node_seq(), ni);
            lemma_uncolored_width_nonneg(ifr_graph.node_seq());
            // this round changed no color but the one it set
            assert forall|x: int|
                0 <= x < ifr_graph.node_seq().len() && x != ni implies (
            #[trigger] ifr_graph.node_seq()[x]).spec_color()
                == at_pick.node_seq()[x].spec_color() by {
                assert(ifr_graph.node_seq()[x].spec_color()
                    == post_color.node_seq()[x].spec_color());
                assert(post_color.node_seq()[x] == pre_color.node_seq()[x]);
            }
            assert forall|x: int|
                0 <= x < ifr_graph.node_seq().len() implies (
            #[trigger] ifr_graph.node_seq()[x]).spec_data()
                == at_pick.node_seq()[x].spec_data() by {
                assert(ifr_graph.node_seq()[x].spec_data()
                    == post_color.node_seq()[x].spec_data());
            }
            // a verdict against the colors of pick time still stands
            assert forall|j: int, q: int|
                0 <= j < ifr_graph.node_seq().len() && 0 <= q < gprs.len() && !reg_suits(
                    at_pick.node_seq(),
                    e,
                    j,
                    gprs[q],
                ) implies !(#[trigger] reg_suits(ifr_graph.node_seq(), e, j, gprs[q])) by {
                let w = gprs[q];
                if reg_suits(ifr_graph.node_seq(), e, j, w) {
                    assert forall|k: int| 0 <= k < e.len() implies {
                        let u = (#[trigger] e[k]).0;
                        let v = e[k].1;
                        &&& (u == j && 0 <= v < at_pick.node_seq().len() ==> !color_blocks(
                            w,
                            at_pick.node_seq()[v].spec_color(),
                        ))
                        &&& (v == j && 0 <= u < at_pick.node_seq().len() ==> !color_blocks(
                            w,
                            at_pick.node_seq()[u].spec_color(),
                        ))
                    } by {
                        let u = e[k].0;
                        let v = e[k].1;
                        if u == j && 0 <= v < at_pick.node_seq().len() && color_blocks(
                            w,
                            at_pick.node_seq()[v].spec_color(),
                        ) {
                            assert(at_pick.node_seq()[ni].spec_color() is None);
                            assert(v != ni);
                            assert(ifr_graph.node_seq()[v].spec_color()
                                == at_pick.node_seq()[v].spec_color());
                        }
                        if v == j && 0 <= u < at_pick.node_seq().len() && color_blocks(
                            w,
                            at_pick.node_seq()[u].spec_color(),
                        ) {
                            assert(at_pick.node_seq()[ni].spec_color() is None);
                            assert(u != ni);
                            assert(ifr_graph.node_seq()[u].spec_color()
                                == at_pick.node_seq()[u].spec_color());
                        }
                    }
                    assert(reg_suits(at_pick.node_seq(), e, j, w));
                }
            }
            // the decision just made, and the earlier ones carried over
            assert forall|j: int|
                0 <= j < ifr_graph.node_seq().len() && (
            #[trigger] old(ifr_graph).node_seq()[j]).spec_color() is None implies (match ifr_graph.node_seq()[j].spec_color() {
                Some(RegColor::Machine(m)) => exists|pi: int|
                    #![trigger gprs[pi]]
                    0 <= pi < gprs.len() && gprs[pi] == m && (forall|q: int|
                        0 <= q < pi ==> !reg_suits(
                            ifr_graph.node_seq(),
                            e,
                            j,
                            #[trigger] gprs[q],
                        )),
                Some(RegColor::Slot(_)) => forall|q: int|
                    0 <= q < gprs.len() ==> !reg_suits(
                        ifr_graph.node_seq(),
                        e,
                        j,
                        #[trigger] gprs[q],
                    ),
                None => true,
            }) by {
                if j == ni {
                    assert(at_pick.node_seq()[ni].spec_color() is None);
                    assert(node_size == at_pick.node_seq()[ni].spec_data().spec_il_size());
                    // what the palette scan turned down did not suit then
                    assert forall|q: int|
                        0 <= q < gprs.len() && !palette_reg_ok(
                            neighbor_colors@,
                            node_size,
                            gprs[q],
                        ) implies !reg_suits(at_pick.node_seq(), e, ni, #[trigger] gprs[q]) by {
                        let w = gprs[q];
                        if reg_suits(at_pick.node_seq(), e, ni, w) {
                            assert(w.spec_il_size() == node_size);
                            let c2 = choose|c2: int|
                                0 <= c2 < neighbor_colors@.len() && RegColor::Machine(
                                    w,
                                ).spec_color_overlaps(#[trigger] neighbor_colors@[c2]);
                            let t = choose|t: int|
                                0 <= t < nbv.len() && at_pick.node_seq()[nbv[t]].spec_color()
                                    == Some(neighbor_colors@[c2]);
                            assert(0 <= nbv[t] < at_pick.node_seq().len());
                            lemma_neighbours_are_exactly_the_edges(e, ni, nbv[t], 0);
                            assert(spec_neighbours(e, ni)[t] == nbv[t]);
                            assert(spec_neighbours(e, ni).contains(nbv[t]));
                            let k = choose|k: int|
                                0 <= k < e.len() && (e[k] == (ni, nbv[t]) || e[k] == (
                                    nbv[t],
                                    ni,
                                ));
                            assert(color_blocks(w, at_pick.node_seq()[nbv[t]].spec_color()));
                            assert(false);
                        }
                    }
                    match chosen {
                        Some(reg) => {
                            assert(ifr_graph.node_seq()[ni].spec_color() == Some(
                                RegColor::Machine(reg),
                            ));
                            let pi = choose|pi: int|
                                #![trigger palette@[pi]]
                                0 <= pi < palette@.len() && palette@[pi] == reg && (forall|
                                    q: int,
                                |
                                    0 <= q < pi ==> !palette_reg_ok(
                                        neighbor_colors@,
                                        node_size,
                                        #[trigger] palette@[q],
                                    ));
                            assert(gprs[pi] == reg);
                            assert forall|q: int|
                                0 <= q < pi implies !reg_suits(
                                ifr_graph.node_seq(),
                                e,
                                ni,
                                #[trigger] gprs[q],
                            ) by {
                                assert(!palette_reg_ok(neighbor_colors@, node_size, gprs[q]));
                                assert(!reg_suits(at_pick.node_seq(), e, ni, gprs[q]));
                            }
                            assert(0 <= pi < gprs.len() && gprs[pi] == reg && (forall|q: int|
                                0 <= q < pi ==> !reg_suits(
                                    ifr_graph.node_seq(),
                                    e,
                                    ni,
                                    #[trigger] gprs[q],
                                )));
                        },
                        None => {
                            assert(ifr_graph.node_seq()[ni].spec_color() matches Some(
                                RegColor::Slot(_),
                            ));
                            assert forall|q: int|
                                0 <= q < gprs.len() implies !reg_suits(
                                ifr_graph.node_seq(),
                                e,
                                ni,
                                #[trigger] gprs[q],
                            ) by {
                                assert(!palette_reg_ok(neighbor_colors@, node_size, gprs[q]));
                                assert(!reg_suits(at_pick.node_seq(), e, ni, gprs[q]));
                            }
                        },
                    }
                } else {
                    assert(ifr_graph.node_seq()[j].spec_color()
                        == at_pick.node_seq()[j].spec_color());
                    match at_pick.node_seq()[j].spec_color() {
                        Some(RegColor::Machine(m)) => {
                            let pi = choose|pi: int|
                                #![trigger gprs[pi]]
                                0 <= pi < gprs.len() && gprs[pi] == m && (forall|q: int|
                                    0 <= q < pi ==> !reg_suits(
                                        at_pick.node_seq(),
                                        e,
                                        j,
                                        #[trigger] gprs[q],
                                    ));
                            assert forall|q: int|
                                0 <= q < pi implies !reg_suits(
                                ifr_graph.node_seq(),
                                e,
                                j,
                                #[trigger] gprs[q],
                            ) by {
                                assert(!reg_suits(at_pick.node_seq(), e, j, gprs[q]));
                            }
                            assert(0 <= pi < gprs.len() && gprs[pi] == m && (forall|q: int|
                                0 <= q < pi ==> !reg_suits(
                                    ifr_graph.node_seq(),
                                    e,
                                    j,
                                    #[trigger] gprs[q],
                                )));
                        },
                        Some(RegColor::Slot(_)) => {
                            assert forall|q: int|
                                0 <= q < gprs.len() implies !reg_suits(
                                ifr_graph.node_seq(),
                                e,
                                j,
                                #[trigger] gprs[q],
                            ) by {
                                assert(!reg_suits(at_pick.node_seq(), e, j, gprs[q]));
                            }
                        },
                        None => {},
                    }
                }
            }
            // the iteration performed exactly one specification step
            assert(nbv.take(nbv.len() as int) =~= nbv);
            assert(neighbor_colors@ == spec_colors_of(at_pick.node_seq(), nbv));
            assert(ifr_graph.node_seq() == spec_bump_seq(post_color.node_seq(), nbv));
            let cd = match chosen {
                Some(reg) => RegColor::Machine(reg),
                None => RegColor::Slot(
                    StackSlot {
                        offset: off0,
                        width: at_pick.node_seq()[ni].spec_data().spec_il_size().spec_width(),
                    },
                ),
            };
            assert(post_color.node_seq()[ni] == at_pick.node_seq()[ni].spec_with_color(cd));
            assert(post_color.node_seq() =~= at_pick.node_seq().update(
                ni,
                at_pick.node_seq()[ni].spec_with_color(cd),
            ));
            assert(spec_pick(at_pick.node_seq()) == Some(ni));
            assert(spec_first_fit(neighbor_colors@, node_size, 0) == chosen);
            assert(spec_dsatur_step(at_pick.node_seq(), e, off0).0 == ifr_graph.node_seq());
            assert(spec_dsatur_step(at_pick.node_seq(), e, off0).1 == stack_offset);
            // one unit of fuel was spent on it
            lemma_count_uncolored_pos(at_pick.node_seq(), ni);
            assert(count_uncolored(ifr_graph.node_seq()) == count_uncolored(at_pick.node_seq())
                - 1);
            assert(spec_dsatur(
                at_pick.node_seq(),
                e,
                off0,
                count_uncolored(at_pick.node_seq()) as nat,
            ) == spec_dsatur(
                ifr_graph.node_seq(),
                e,
                stack_offset,
                count_uncolored(ifr_graph.node_seq()) as nat,
            ));
            // the bumps owed fell by exactly what this round paid out
            assert forall|j: int|
                0 <= j < ifr_graph.node_seq().len() implies 0 <= #[trigger] pending_bumps(
                e,
                ifr_graph.node_seq(),
                j,
            ) <= pending_bumps(e, old(ifr_graph).node_seq(), j) by {
                lemma_pending_bumps_delta(
                    e,
                    0,
                    at_pick.node_seq(),
                    post_color.node_seq(),
                    ni,
                    j,
                );
                lemma_pending_bumps_congruent(
                    e,
                    0,
                    ifr_graph.node_seq(),
                    post_color.node_seq(),
                    j,
                );
                lemma_pending_bumps_nonneg(e, 0, ifr_graph.node_seq(), j);
                lemma_count_occ_nonneg(nbv, j);
                assert(pending_bumps(e, ifr_graph.node_seq(), j) == pending_bumps(
                    e,
                    at_pick.node_seq(),
                    j,
                ) - count_occ(nbv, j));
                assert(pending_bumps(e, at_pick.node_seq(), j) <= pending_bumps(
                    e,
                    old(ifr_graph).node_seq(),
                    j,
                ));
            }
            assert forall|j: int|
                0 <= j < ifr_graph.node_seq().len() implies {
                &&& (#[trigger] ifr_graph.node_seq()[j]).spec_saturation() == spec_cap(
                    old(ifr_graph).node_seq()[j].spec_saturation() + pending_bumps(
                        e,
                        old(ifr_graph).node_seq(),
                        j,
                    ) - pending_bumps(e, ifr_graph.node_seq(), j),
                )
            } by {
                lemma_pending_bumps_delta(
                    e,
                    0,
                    at_pick.node_seq(),
                    post_color.node_seq(),
                    ni,
                    j,
                );
                lemma_pending_bumps_congruent(
                    e,
                    0,
                    ifr_graph.node_seq(),
                    post_color.node_seq(),
                    j,
                );
                lemma_pending_bumps_nonneg(e, 0, ifr_graph.node_seq(), j);
                lemma_count_occ_nonneg(nbv, j);
                assert(ifr_graph.node_seq()[j].spec_saturation() == spec_cap(
                    post_color.node_seq()[j].spec_saturation() + count_occ(nbv, j),
                ));
                assert(post_color.node_seq()[j].spec_saturation()
                    == at_pick.node_seq()[j].spec_saturation());
                assert(at_pick.node_seq()[j].spec_saturation() == spec_cap(
                    old(ifr_graph).node_seq()[j].spec_saturation() + pending_bumps(
                        e,
                        old(ifr_graph).node_seq(),
                        j,
                    ) - pending_bumps(e, at_pick.node_seq(), j),
                ));
            }
        }
    }
    proof {
        if exists|i2: int| is_pick(ifr_graph.node_seq(), i2) {
            let i2 = choose|i2: int| is_pick(ifr_graph.node_seq(), i2);
        }
        assert(spec_pick(ifr_graph.node_seq()) is None);
        assert(spec_dsatur(
            ifr_graph.node_seq(),
            e,
            stack_offset,
            count_uncolored(ifr_graph.node_seq()) as nat,
        ) == (ifr_graph.node_seq(), stack_offset));
        assert forall|j: int|
            0 <= j < ifr_graph.node_seq().len() implies (
        #[trigger] ifr_graph.node_seq()[j]).spec_saturation() == spec_cap(
            old(ifr_graph).node_seq()[j].spec_saturation() + pending_bumps(
                e,
                old(ifr_graph).node_seq(),
                j,
            ),
        ) by {
            lemma_pending_bumps_zero(e, 0, ifr_graph.node_seq(), j);
        }
    }
}

/// Unit overlap is symmetric.
pub proof fn lemma_overlap_symmetric(a: MachineReg, b: MachineReg)
    ensures
        a.spec_overlaps(b) == b.spec_overlaps(a),
{
    match (a, b) {
        (MachineReg::AMD64(x), MachineReg::AMD64(y)) => {
            if x.spec_overlaps(y) {
                let u = choose|u: crate::il::amd::AmdRegUnit|
                    x.units_seq().contains(u) && y.units_seq().contains(u);
                assert(y.units_seq().contains(u) && x.units_seq().contains(u));
            }
            if y.spec_overlaps(x) {
                let u = choose|u: crate::il::amd::AmdRegUnit|
                    y.units_seq().contains(u) && x.units_seq().contains(u);
                assert(x.units_seq().contains(u) && y.units_seq().contains(u));
            }
        },
    }
}

/// Builds the interference graph of the given live ranges: one node per
/// range, and an edge exactly between each pair of distinct ranges that
/// overlap.
#[verifier::loop_isolation(false)]
pub fn construct(ranges: Vec<LiveRange>) -> (graph: InterferenceGraph<LiveRange>)
    ensures
        graph.wf(),
        graph.node_seq().len() == ranges@.len(),
        forall|k: int|
            0 <= k < ranges@.len() ==> {
                &&& (#[trigger] graph.node_seq()[k]).spec_data() == ranges@[k]
                &&& graph.node_seq()[k].spec_color() is None
            },
        // interference soundness and exactness: an edge joins two ranges
        // exactly when they overlap
        forall|i: int, j: int|
            0 <= i < j < ranges@.len() ==> (spec_has_edge(graph.edge_seq(), i, j) <==> (
            #[trigger] ranges@[i]).spec_range_overlaps(#[trigger] ranges@[j])),
        // each edge is stored once, ordered low to high: no duplicate and no
        // reversed copy of a pair
        forall|kk: int|
            0 <= kk < graph.edge_seq().len() ==> 0 <= (#[trigger] graph.edge_seq()[kk]).0
                < graph.edge_seq()[kk].1 < ranges@.len(),
        forall|k1: int, k2: int|
            0 <= k1 < k2 < graph.edge_seq().len() ==> #[trigger] graph.edge_seq()[k1]
                != #[trigger] graph.edge_seq()[k2],
{
    let mut graph: InterferenceGraph<LiveRange> = InterferenceGraph::new();
    let total = ranges.len();
    let ghost rv = ranges@;
    let mut rest = ranges;
    let mut k: usize = 0;
    while rest.len() > 0
        invariant
            0 <= k <= rv.len(),
            total as int == rv.len(),
            k as int + rest@.len() == rv.len(),
            rest@ == rv.subrange(k as int, rv.len() as int),
            graph.wf(),
            graph.node_seq().len() == k as int,
            graph.edge_seq().len() == 0,
            forall|t: int|
                0 <= t < k ==> {
                    &&& (#[trigger] graph.node_seq()[t]).spec_data() == rv[t]
                    &&& graph.node_seq()[t].spec_color() is None
                },
        decreases rest@.len(),
    {
        let range = rest.remove(0);
        proof {
            assert(range == rv[k as int]);
            assert(rest@ =~= rv.subrange(k as int + 1, rv.len() as int));
        }
        let ghost graph_pre = graph;
        graph.add_node(range);
        k = k + 1;
        proof {
            assert forall|t: int|
                0 <= t < k implies {
                &&& (#[trigger] graph.node_seq()[t]).spec_data() == rv[t]
                &&& graph.node_seq()[t].spec_color() is None
            } by {
                if t < k - 1 {
                    assert(graph.node_seq().subrange(0, graph_pre.node_seq().len() as int)[t]
                        == graph.node_seq()[t]);
                    assert(graph.node_seq()[t] == graph_pre.node_seq()[t]);
                } else {
                    assert(graph.node_seq()[t] == graph.node_seq().last());
                }
            }
            assert(graph.edge_seq() =~= Seq::<(int, int)>::empty());
        }
    }
    let ghost e0 = graph.edge_seq();
    // For each unordered pair of overlapping ranges, add one edge.
    let mut i: usize = 0;
    while i < total
        invariant
            0 <= i <= total,
            total as int == rv.len(),
            graph.wf(),
            graph.node_seq().len() == rv.len(),
            forall|t: int|
                0 <= t < rv.len() ==> {
                    &&& (#[trigger] graph.node_seq()[t]).spec_data() == rv[t]
                    &&& graph.node_seq()[t].spec_color() is None
                },
            forall|kk: int|
                0 <= kk < graph.edge_seq().len() ==> 0 <= (#[trigger] graph.edge_seq()[kk]).0
                    < graph.edge_seq()[kk].1 < rv.len(),
            forall|k1: int, k2: int|
                0 <= k1 < k2 < graph.edge_seq().len() ==> #[trigger] graph.edge_seq()[k1]
                    != #[trigger] graph.edge_seq()[k2],
            forall|a: int, b: int| #![trigger spec_has_edge(graph.edge_seq(), a, b)]
                0 <= a < b < rv.len() ==> (spec_has_edge(graph.edge_seq(), a, b) <==> (
                rv[a].spec_range_overlaps(rv[b]) && a < i as int)),
        decreases total - i,
    {
        let mut j: usize = i + 1;
        while j < total
            invariant
                0 <= i < total,
                i < j <= total,
                total as int == rv.len(),
                graph.wf(),
                graph.node_seq().len() == rv.len(),
                forall|t: int|
                    0 <= t < rv.len() ==> {
                        &&& (#[trigger] graph.node_seq()[t]).spec_data() == rv[t]
                        &&& graph.node_seq()[t].spec_color() is None
                    },
                forall|kk: int|
                    0 <= kk < graph.edge_seq().len() ==> 0 <= (#[trigger] graph.edge_seq()[kk]).0
                        < graph.edge_seq()[kk].1 < rv.len(),
                forall|k1: int, k2: int|
                    0 <= k1 < k2 < graph.edge_seq().len() ==> #[trigger] graph.edge_seq()[k1]
                        != #[trigger] graph.edge_seq()[k2],
                forall|a: int, b: int| #![trigger spec_has_edge(graph.edge_seq(), a, b)]
                    0 <= a < b < rv.len() ==> (spec_has_edge(graph.edge_seq(), a, b) <==> (
                    rv[a].spec_range_overlaps(rv[b]) && (a < i as int || (a == i as int && b
                        < j as int)))),
            decreases total - j,
        {
            let ghost e_pre = graph.edge_seq();
            let already = graph.has_edge(NodeIndex(i), NodeIndex(j));
            let node_a = graph.get_node(NodeIndex(i));
            let node_b = graph.get_node(NodeIndex(j));
            let ov = node_a.data().overlaps(node_b.data());
            if !already && ov {
                graph.add_edge(NodeIndex(i), NodeIndex(j));
                proof {
                    let e_now = graph.edge_seq();
                    assert(e_now == e_pre.push((i as int, j as int)));
                    assert forall|k1: int, k2: int|
                        0 <= k1 < k2 < e_now.len() implies #[trigger] e_now[k1]
                        != #[trigger] e_now[k2] by {
                        if k2 == e_pre.len() {
                            assert(e_now[k2] == (i as int, j as int));
                            assert(e_now[k1] == e_pre[k1]);
                            if e_pre[k1] == (i as int, j as int) {
                                assert(spec_has_edge(e_pre, i as int, j as int));
                            }
                        } else {
                            assert(e_now[k1] == e_pre[k1]);
                            assert(e_now[k2] == e_pre[k2]);
                        }
                    }
                    assert forall|a: int, b: int| #![trigger spec_has_edge(e_now, a, b)]
                        0 <= a < b < rv.len() implies (spec_has_edge(e_now, a, b) <==> (
                    rv[a].spec_range_overlaps(rv[b]) && (a < i as int || (a == i as int && b
                        < j as int + 1)))) by {
                        assert(spec_has_edge(e_pre, a, b) <==> (rv[a].spec_range_overlaps(rv[b])
                            && (a < i as int || (a == i as int && b < j as int))));
                        if spec_has_edge(e_now, a, b) {
                            let kk = choose|kk: int|
                                0 <= kk < e_now.len() && (e_now[kk] == (a, b) || e_now[kk] == (
                                    b,
                                    a,
                                ));
                            if kk < e_pre.len() {
                                assert(spec_has_edge(e_pre, a, b));
                            } else {
                                assert(e_now[kk] == (i as int, j as int));
                            }
                        }
                        if rv[a].spec_range_overlaps(rv[b]) && (a < i as int || (a == i as int && b
                            < j as int + 1)) {
                            if a == i as int && b == j as int {
                                assert(e_now[e_pre.len() as int] == (a, b));
                                assert(spec_has_edge(e_now, a, b));
                            } else {
                                assert(spec_has_edge(e_pre, a, b));
                                let kk = choose|kk: int|
                                    0 <= kk < e_pre.len() && (e_pre[kk] == (a, b) || e_pre[kk] == (
                                        b,
                                        a,
                                    ));
                                assert(e_now[kk] == e_pre[kk]);
                                assert(spec_has_edge(e_now, a, b));
                            }
                        }
                    }
                }
            } else {
                proof {
                    assert forall|a: int, b: int| #![trigger spec_has_edge(graph.edge_seq(), a, b)]
                        0 <= a < b < rv.len() implies (spec_has_edge(graph.edge_seq(), a, b) <==> (
                    rv[a].spec_range_overlaps(rv[b]) && (a < i as int || (a == i as int && b
                        < j as int + 1)))) by {
                        assert(spec_has_edge(e_pre, a, b) <==> (rv[a].spec_range_overlaps(rv[b])
                            && (a < i as int || (a == i as int && b < j as int))));
                        if a == i as int && b == j as int {
                            assert(!spec_has_edge(e_pre, a, b));
                            assert(!(rv[a].spec_range_overlaps(rv[b]) && a < i as int));
                            if rv[a].spec_range_overlaps(rv[b]) {
                                assert(ov);
                                assert(already);
                                assert(false);
                            }
                        }
                    }
                }
            }
            j = j + 1;
        }
        i = i + 1;
    }
    graph
}

} // verus!
