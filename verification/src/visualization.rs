//! The topology model the dashboard draws: positioned nodes, weighted edges,
//! node groups and layer names.

use vstd::prelude::*;

use crate::models::{pairs, strs};

verus! {

/// A node of the drawn topology. Positions are in layout units on an integer
/// grid; `layer` is the horizontal band the node sits in.
#[derive(Clone, Debug)]
pub struct TopologyNode {
    pub id: String,
    pub label: String,
    pub node_type: String,
    pub group: String,
    pub layer: usize,
    pub x: i64,
    pub y: i64,
    pub metadata: Vec<(String, String)>,
}

/// The abstract value of a [`TopologyNode`].
pub struct TopologyNodeView {
    pub id: Seq<char>,
    pub label: Seq<char>,
    pub node_type: Seq<char>,
    pub group: Seq<char>,
    pub layer: nat,
    pub x: int,
    pub y: int,
    pub metadata: Seq<(Seq<char>, Seq<char>)>,
}

impl View for TopologyNode {
    type V = TopologyNodeView;

    open spec fn view(&self) -> TopologyNodeView {
        TopologyNodeView {
            id: self.id@,
            label: self.label@,
            node_type: self.node_type@,
            group: self.group@,
            layer: self.layer as nat,
            x: self.x as int,
            y: self.y as int,
            metadata: pairs(self.metadata@),
        }
    }
}

/// A drawn edge; `width_tenths` is the stroke width in tenths of a unit.
#[derive(Clone, Debug)]
pub struct TopologyEdge {
    pub id: String,
    pub source: String,
    pub target: String,
    pub label: String,
    pub edge_type: String,
    pub width_tenths: u32,
}

/// The abstract value of a [`TopologyEdge`].
pub struct TopologyEdgeView {
    pub id: Seq<char>,
    pub source: Seq<char>,
    pub target: Seq<char>,
    pub label: Seq<char>,
    pub edge_type: Seq<char>,
    pub width_tenths: u32,
}

impl View for TopologyEdge {
    type V = TopologyEdgeView;

    open spec fn view(&self) -> TopologyEdgeView {
        TopologyEdgeView {
            id: self.id@,
            source: self.source@,
            target: self.target@,
            label: self.label@,
            edge_type: self.edge_type@,
            width_tenths: self.width_tenths,
        }
    }
}

/// A named set of nodes drawn together.
#[derive(Clone, Debug)]
pub struct NodeGroup {
    pub id: String,
    pub label: String,
    pub node_ids: Vec<String>,
    pub group_type: String,
}

/// The abstract value of a [`NodeGroup`].
pub struct NodeGroupView {
    pub id: Seq<char>,
    pub label: Seq<char>,
    pub node_ids: Seq<Seq<char>>,
    pub group_type: Seq<char>,
}

impl View for NodeGroup {
    type V = NodeGroupView;

    open spec fn view(&self) -> NodeGroupView {
        NodeGroupView {
            id: self.id@,
            label: self.label@,
            node_ids: strs(self.node_ids@),
            group_type: self.group_type@,
        }
    }
}

/// A complete drawing: nodes, edges, groups and the names of the layers.
#[derive(Clone, Debug)]
pub struct TopologyGraph {
    pub nodes: Vec<TopologyNode>,
    pub edges: Vec<TopologyEdge>,
    pub groups: Vec<NodeGroup>,
    pub layers: Vec<String>,
}

/// The abstract value of each node in a sequence.
pub open spec fn tnodes(v: Seq<TopologyNode>) -> Seq<TopologyNodeView> {
    v.map_values(|n: TopologyNode| n@)
}

/// The abstract value of each edge in a sequence.
pub open spec fn tedges(v: Seq<TopologyEdge>) -> Seq<TopologyEdgeView> {
    v.map_values(|e: TopologyEdge| e@)
}

/// The abstract value of each group in a sequence.
pub open spec fn tgroups(v: Seq<NodeGroup>) -> Seq<NodeGroupView> {
    v.map_values(|g: NodeGroup| g@)
}

/// A copy of a drawn node.
pub fn clone_node(n: &TopologyNode) -> (r: TopologyNode)
    ensures
        r@ == n@,
{
    TopologyNode {
        id: n.id.clone(),
        label: n.label.clone(),
        node_type: n.node_type.clone(),
        group: n.group.clone(),
        layer: n.layer,
        x: n.x,
        y: n.y,
        metadata: crate::models::clone_pairs(&n.metadata),
    }
}

/// A copy of a drawn edge.
pub fn clone_edge(e: &TopologyEdge) -> (r: TopologyEdge)
    ensures
        r@ == e@,
{
    TopologyEdge {
        id: e.id.clone(),
        source: e.source.clone(),
        target: e.target.clone(),
        label: e.label.clone(),
        edge_type: e.edge_type.clone(),
        width_tenths: e.width_tenths,
    }
}

/// A copy of a list of drawn edges.
pub fn clone_edges(v: &Vec<TopologyEdge>) -> (r: Vec<TopologyEdge>)
    ensures
        tedges(r@) == tedges(v@),
{
    let mut r: Vec<TopologyEdge> = Vec::new();
    let mut i: usize = 0;
    while i < v.len()
        invariant
            i <= v@.len(),
            r@.len() == i,
            forall|k: int| 0 <= k < i ==> r@[k]@ == v@[k]@,
        decreases v@.len() - i,
    {
        r.push(clone_edge(&v[i]));
        i = i + 1;
    }
    assert(tedges(r@) =~= tedges(v@));
    r
}

/// The engine that renders topology drawings. Only construction exists;
/// rendering as a whole has no implementation yet.
pub struct VisualizationEngine;

impl VisualizationEngine {
    /// An engine.
    pub fn new() -> Self {
        VisualizationEngine
    }
}

} // verus!
