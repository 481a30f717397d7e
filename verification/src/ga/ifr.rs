//! An interference graph skeleton with intrusive adjacency fields: nodes
//! carry a first-edge index, edges carry one next-edge index per endpoint.
use vstd::prelude::*;
use super::GAVarNo;

verus! {

/// Index of a node; `none()` is the sentinel.
#[derive(PartialEq, Eq, Structural, Copy, Clone, Debug)]
pub struct NodeNo(u32);

/// Index of an edge; `none()` is the sentinel.
#[derive(PartialEq, Eq, Structural, Copy, Clone, Debug)]
pub struct EdgeNo(u32);

impl NodeNo {
    pub closed spec fn spec_no(&self) -> u32 {
        self.0
    }

    pub fn none() -> (r: NodeNo)
        ensures
            r.spec_no() == u32::MAX,
    {
        NodeNo(u32::MAX)
    }
}

impl EdgeNo {
    pub closed spec fn spec_no(&self) -> u32 {
        self.0
    }

    pub fn none() -> (r: EdgeNo)
        ensures
            r.spec_no() == u32::MAX,
    {
        EdgeNo(u32::MAX)
    }
}

/// A node: its variable and the head of its edge list.
pub struct Node {
    pub var: GAVarNo,
    pub next_edge: EdgeNo,
}

/// An edge between two nodes, threaded into both endpoints' lists.
pub struct Edge {
    pub node_a: NodeNo,
    pub node_b: NodeNo,
    pub next_a: EdgeNo,
    pub next_b: EdgeNo,
}

impl Edge {
    /// The next edge to follow when walking the list of `node`.
    pub fn edge_for_node(&self, node: NodeNo) -> (r: EdgeNo)
        ensures
            r == if self.node_a == node {
                self.next_a
            } else {
                self.next_b
            },
    {
        if self.node_a == node {
            self.next_a
        } else {
            self.next_b
        }
    }
}

pub struct IFG {
    edges: Vec<Edge>,
    nodes: Vec<Node>,
}

impl IFG {
    pub closed spec fn spec_node_count(&self) -> int {
        self.nodes@.len() as int
    }

    pub closed spec fn spec_edge_count(&self) -> int {
        self.edges@.len() as int
    }

    pub fn new() -> (r: IFG)
        ensures
            r.spec_node_count() == 0,
            r.spec_edge_count() == 0,
    {
        IFG { edges: Vec::new(), nodes: Vec::new() }
    }

    /// Opens a node for the variable, with an empty edge list.
    pub fn insert_var(&mut self, var: GAVarNo) -> (r: NodeNo)
        requires
            old(self).spec_node_count() < u32::MAX,
        ensures
            final(self).spec_node_count() == old(self).spec_node_count() + 1,
            final(self).spec_edge_count() == old(self).spec_edge_count(),
            r.spec_no() == old(self).spec_node_count(),
    {
        let index = NodeNo(self.nodes.len() as u32);
        self.nodes.push(Node { var, next_edge: EdgeNo::none() });
        index
    }
}

} // verus!
