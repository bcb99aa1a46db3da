//! Clean-up passes over a topology drawing: duplicate edges, isolated nodes
//! and edge weights.

use vstd::prelude::*;

use crate::models::{clone_strings, strs};
use crate::text::str_eq;
use crate::visualization::{
    clone_edge, clone_edges, clone_node, tedges, tgroups, tnodes, NodeGroup, NodeGroupView,
    TopologyEdge, TopologyEdgeView, TopologyGraph, TopologyNode, TopologyNodeView,
};

verus! {

/// Two edges are duplicates when source, target and type agree.
pub open spec fn same_edge(a: TopologyEdgeView, b: TopologyEdgeView) -> bool {
    a.source == b.source && a.target == b.target && a.edge_type == b.edge_type
}

/// The edges in order, keeping only the first of each duplicate set.
pub open spec fn dedup_edges_spec(es: Seq<TopologyEdgeView>) -> Seq<TopologyEdgeView>
    decreases es.len(),
{
    if es.len() == 0 {
        Seq::empty()
    } else {
        let prev = dedup_edges_spec(es.drop_last());
        if exists|j: int| 0 <= j < es.len() - 1 && same_edge(es[j], es.last()) {
            prev
        } else {
            prev.push(es.last())
        }
    }
}

/// Some edge starts or ends at `id`.
pub open spec fn touches(es: Seq<TopologyEdgeView>, id: Seq<char>) -> bool {
    exists|k: int| 0 <= k < es.len() && (es[k].source == id || es[k].target == id)
}

/// The nodes that some edge touches, in order.
pub open spec fn connected_nodes(ns: Seq<TopologyNodeView>, es: Seq<TopologyEdgeView>) -> Seq<
    TopologyNodeView,
>
    decreases ns.len(),
{
    if ns.len() == 0 {
        Seq::empty()
    } else {
        let prev = connected_nodes(ns.drop_last(), es);
        if touches(es, ns.last().id) {
            prev.push(ns.last())
        } else {
            prev
        }
    }
}

/// Some node has the id.
pub open spec fn has_node(ns: Seq<TopologyNodeView>, id: Seq<char>) -> bool {
    exists|k: int| 0 <= k < ns.len() && ns[k].id == id
}

/// The ids, in order, that name some of the nodes.
pub open spec fn ids_present(ids: Seq<Seq<char>>, ns: Seq<TopologyNodeView>) -> Seq<Seq<char>>
    decreases ids.len(),
{
    if ids.len() == 0 {
        Seq::empty()
    } else {
        let prev = ids_present(ids.drop_last(), ns);
        if has_node(ns, ids.last()) {
            prev.push(ids.last())
        } else {
            prev
        }
    }
}

/// The groups restricted to the given nodes; groups left empty are dropped.
pub open spec fn groups_present(gs: Seq<NodeGroupView>, ns: Seq<TopologyNodeView>) -> Seq<
    NodeGroupView,
>
    decreases gs.len(),
{
    if gs.len() == 0 {
        Seq::empty()
    } else {
        let prev = groups_present(gs.drop_last(), ns);
        let g = gs.last();
        let kept = ids_present(g.node_ids, ns);
        if kept.len() > 0 {
            prev.push(NodeGroupView { node_ids: kept, ..g })
        } else {
            prev
        }
    }
}

/// Stroke width, in tenths, for an edge type.
pub open spec fn width_for(edge_type: Seq<char>) -> u32 {
    if edge_type == "Exposes"@ {
        30
    } else if edge_type == "ConnectsTo"@ {
        20
    } else if edge_type == "DependsOn"@ {
        25
    } else {
        10
    }
}

/// The edge with the stroke width of its type.
pub open spec fn weighed(e: TopologyEdgeView) -> TopologyEdgeView {
    TopologyEdgeView { width_tenths: width_for(e.edge_type), ..e }
}

/// No two edges are duplicates of each other.
pub open spec fn no_duplicate_edges(es: Seq<TopologyEdgeView>) -> bool {
    forall|i: int, j: int| 0 <= i < j < es.len() ==> !same_edge(es[i], es[j])
}

proof fn lemma_dedup_members(es: Seq<TopologyEdgeView>)
    ensures
        forall|i: int|
            0 <= i < dedup_edges_spec(es).len() ==> exists|j: int|
                0 <= j < es.len() && es[j] == #[trigger] dedup_edges_spec(es)[i],
        dedup_edges_spec(es).len() <= es.len(),
    decreases es.len(),
{
    if es.len() > 0 {
        let prev = dedup_edges_spec(es.drop_last());
        lemma_dedup_members(es.drop_last());
        assert forall|i: int| 0 <= i < prev.len() implies exists|j: int|
            0 <= j < es.len() && es[j] == #[trigger] prev[i] by {
            let j = choose|j: int| 0 <= j < es.drop_last().len() && es.drop_last()[j] == prev[i];
            assert(es[j] == prev[i]);
        }
        let d = dedup_edges_spec(es);
        assert forall|i: int| 0 <= i < d.len() implies exists|j: int|
            0 <= j < es.len() && es[j] == #[trigger] d[i] by {
            if i < prev.len() {
                assert(d[i] == prev[i]);
            } else {
                assert(es[es.len() - 1] == d[i]);
            }
        }
    }
}

/// Of edges with the same source, target and type, de-duplication keeps
/// exactly one: what it returns has no duplicates, holds only edges of the
/// input, and every input edge has a duplicate in it.
pub proof fn law_dedup_keeps_one_of_each(es: Seq<TopologyEdgeView>)
    ensures
        no_duplicate_edges(dedup_edges_spec(es)),
        forall|i: int|
            0 <= i < dedup_edges_spec(es).len() ==> exists|j: int|
                0 <= j < es.len() && es[j] == #[trigger] dedup_edges_spec(es)[i],
        forall|j: int|
            #![trigger es[j]]
            0 <= j < es.len() ==> exists|i: int|
                0 <= i < dedup_edges_spec(es).len() && same_edge(
                    #[trigger] dedup_edges_spec(es)[i],
                    es[j],
                ),
    decreases es.len(),
{
    lemma_dedup_members(es);
    if es.len() > 0 {
        let init = es.drop_last();
        let prev = dedup_edges_spec(init);
        law_dedup_keeps_one_of_each(init);
        let d = dedup_edges_spec(es);
        let last = es.last();
        if exists|j: int| 0 <= j < es.len() - 1 && same_edge(es[j], last) {
            assert(d == prev);
            let k = choose|j: int| 0 <= j < es.len() - 1 && same_edge(es[j], last);
            assert(init[k] == es[k]);
            let i0 = choose|i: int| 0 <= i < prev.len() && same_edge(#[trigger] prev[i], init[k]);
            assert forall|j: int| #![trigger es[j]] 0 <= j < es.len() implies exists|i: int|
                0 <= i < d.len() && same_edge(#[trigger] d[i], es[j]) by {
                if j < es.len() - 1 {
                    assert(init[j] == es[j]);
                } else {
                    assert(same_edge(d[i0], es[j]));
                }
            }
        } else {
            assert(d == prev.push(last));
            assert forall|i: int, j: int| 0 <= i < j < d.len() implies !same_edge(d[i], d[j]) by {
                if j == d.len() - 1 {
                    assert(d[i] == prev[i]);
                    let x = choose|x: int| 0 <= x < init.len() && init[x] == #[trigger] prev[i];
                    assert(es[x] == init[x]);
                } else {
                    assert(d[i] == prev[i] && d[j] == prev[j]);
                }
            }
            assert forall|j: int| #![trigger es[j]] 0 <= j < es.len() implies exists|i: int|
                0 <= i < d.len() && same_edge(#[trigger] d[i], es[j]) by {
                if j < es.len() - 1 {
                    assert(init[j] == es[j]);
                    let i1 = choose|i: int| 0 <= i < prev.len() && same_edge(#[trigger] prev[i], init[j]);
                    assert(d[i1] == prev[i1]);
                } else {
                    assert(d[d.len() - 1] == last);
                }
            }
        }
    }
}

proof fn lemma_dedup_of_distinct(es: Seq<TopologyEdgeView>)
    requires
        no_duplicate_edges(es),
    ensures
        dedup_edges_spec(es) == es,
    decreases es.len(),
{
    if es.len() > 0 {
        let init = es.drop_last();
        assert(no_duplicate_edges(init)) by {
            assert forall|i: int, j: int| 0 <= i < j < init.len() implies !same_edge(init[i], init[j]) by {
                assert(init[i] == es[i] && init[j] == es[j]);
            }
        }
        lemma_dedup_of_distinct(init);
        assert(!exists|j: int| 0 <= j < es.len() - 1 && same_edge(es[j], es.last())) by {
            assert forall|j: int| 0 <= j < es.len() - 1 implies !same_edge(es[j], es.last()) by {}
        }
        assert(init.push(es.last()) =~= es);
    }
}

/// De-duplicating twice is de-duplicating once.
pub proof fn law_dedup_idempotent(es: Seq<TopologyEdgeView>)
    ensures
        dedup_edges_spec(dedup_edges_spec(es)) == dedup_edges_spec(es),
{
    law_dedup_keeps_one_of_each(es);
    lemma_dedup_of_distinct(dedup_edges_spec(es));
}

/// Every node left after removing isolated nodes is touched by an edge,
/// and no touched node is removed: removing them again changes nothing.
pub proof fn law_no_isolated_nodes_left(ns: Seq<TopologyNodeView>, es: Seq<TopologyEdgeView>)
    ensures
        forall|k: int|
            0 <= k < connected_nodes(ns, es).len() ==> touches(es, #[trigger] connected_nodes(ns, es)[k].id),
        connected_nodes(connected_nodes(ns, es), es) == connected_nodes(ns, es),
    decreases ns.len(),
{
    if ns.len() > 0 {
        let init = ns.drop_last();
        law_no_isolated_nodes_left(init, es);
        let prev = connected_nodes(init, es);
        let c = connected_nodes(ns, es);
        if touches(es, ns.last().id) {
            assert(c == prev.push(ns.last()));
            assert forall|k: int| 0 <= k < c.len() implies touches(es, #[trigger] c[k].id) by {
                if k < prev.len() {
                    assert(c[k] == prev[k]);
                }
            }
            assert(c.drop_last() =~= prev);
        } else {
            assert(c == prev);
        }
    }
}

/// No node that an edge starts or ends at is removed as isolated: every
/// node whose id is the source or the target of some edge is kept.
pub proof fn law_endpoints_are_kept(ns: Seq<TopologyNodeView>, es: Seq<TopologyEdgeView>)
    ensures
        forall|k: int, j: int|
            #![trigger ns[k], es[j]]
            0 <= k < ns.len() && 0 <= j < es.len() && (es[j].source == ns[k].id || es[j].target
                == ns[k].id) ==> connected_nodes(ns, es).contains(ns[k]),
    decreases ns.len(),
{
    if ns.len() > 0 {
        let init = ns.drop_last();
        law_endpoints_are_kept(init, es);
        let prev = connected_nodes(init, es);
        let c = connected_nodes(ns, es);
        assert forall|k: int, j: int|
            #![trigger ns[k], es[j]]
            0 <= k < ns.len() && 0 <= j < es.len() && (es[j].source == ns[k].id || es[j].target
                == ns[k].id) implies c.contains(ns[k]) by {
            if k < init.len() {
                assert(init[k] == ns[k]);
                assert(prev.contains(init[k]));
                let x = choose|x: int| 0 <= x < prev.len() && prev[x] == init[k];
                if touches(es, ns.last().id) {
                    assert(c[x] == prev[x]);
                }
            } else {
                assert(touches(es, ns.last().id));
                assert(c == prev.push(ns.last()));
                assert(c[c.len() - 1] == ns[k]);
            }
        }
    }
}

pub fn has_node_exec(nodes: &Vec<TopologyNode>, id: &String) -> (b: bool)
    ensures
        b == has_node(tnodes(nodes@), id@),
{
    let mut k: usize = 0;
    while k < nodes.len()
        invariant
            k <= nodes@.len(),
            forall|x: int| 0 <= x < k ==> nodes@[x].id@ != id@,
        decreases nodes@.len() - k,
    {
        if nodes[k].id == *id {
            assert(tnodes(nodes@)[k as int].id == id@);
            return true;
        }
        k = k + 1;
    }
    assert forall|x: int| 0 <= x < nodes@.len() implies tnodes(nodes@)[x].id != id@ by {
        assert(tnodes(nodes@)[x].id == nodes@[x].id@);
    }
    false
}

fn touches_exec(edges: &Vec<TopologyEdge>, id: &String) -> (b: bool)
    ensures
        b == touches(tedges(edges@), id@),
{
    let mut k: usize = 0;
    while k < edges.len()
        invariant
            k <= edges@.len(),
            forall|x: int| 0 <= x < k ==> edges@[x].source@ != id@ && edges@[x].target@ != id@,
        decreases edges@.len() - k,
    {
        if edges[k].source == *id || edges[k].target == *id {
            assert(tedges(edges@)[k as int].source == edges@[k as int].source@);
            return true;
        }
        k = k + 1;
    }
    assert forall|x: int| 0 <= x < edges@.len() implies !(tedges(edges@)[x].source == id@
        || tedges(edges@)[x].target == id@) by {
        assert(tedges(edges@)[x].source == edges@[x].source@);
    }
    false
}

fn filter_ids(ids: &Vec<String>, nodes: &Vec<TopologyNode>) -> (r: Vec<String>)
    ensures
        strs(r@) == ids_present(strs(ids@), tnodes(nodes@)),
{
    let mut r: Vec<String> = Vec::new();
    let mut i: usize = 0;
    while i < ids.len()
        invariant
            i <= ids@.len(),
            strs(r@) == ids_present(strs(ids@.subrange(0, i as int)), tnodes(nodes@)),
        decreases ids@.len() - i,
    {
        let ghost sub = strs(ids@.subrange(0, i + 1));
        assert(sub.drop_last() =~= strs(ids@.subrange(0, i as int)));
        if has_node_exec(nodes, &ids[i]) {
            let ghost before = r@;
            r.push(ids[i].clone());
            assert(strs(r@) =~= strs(before).push(ids@[i as int]@));
        }
        i = i + 1;
    }
    assert(ids@.subrange(0, ids@.len() as int) =~= ids@);
    r
}

/// Clean-up passes over a topology drawing.
pub struct GraphOptimizer;

impl GraphOptimizer {
    /// An optimizer.
    pub fn new() -> Self {
        GraphOptimizer
    }

    /// The edges without duplicates: of edges with the same source, target
    /// and type, only the first is kept; order is kept.
    pub fn deduplicate_edges(&self, graph: &TopologyGraph) -> (r: Vec<TopologyEdge>)
        ensures
            tedges(r@) == dedup_edges_spec(tedges(graph.edges@)),
    {
        let es = &graph.edges;
        let ghost all = tedges(es@);
        let mut r: Vec<TopologyEdge> = Vec::new();
        let mut i: usize = 0;
        while i < es.len()
            invariant
                i <= es@.len(),
                all == tedges(es@),
                tedges(r@) == dedup_edges_spec(all.subrange(0, i as int)),
            decreases es@.len() - i,
        {
            let ghost pre = all.subrange(0, i + 1);
            assert(pre.drop_last() =~= all.subrange(0, i as int));
            let e = &es[i];
            let mut dup = false;
            let mut j: usize = 0;
            while j < i
                invariant
                    j <= i < es@.len(),
                    all == tedges(es@),
                    dup == exists|x: int| 0 <= x < j && same_edge(all[x], all[i as int]),
                decreases i - j,
            {
                proof {
                    assert(all[j as int] == es@[j as int]@);
                    assert(all[i as int] == es@[i as int]@);
                }
                let m = es[j].source == es[i].source && es[j].target == es[i].target
                    && es[j].edge_type == es[i].edge_type;
                proof {
                    assert(m == same_edge(all[j as int], all[i as int]));
                    if m {
                        assert(0 <= j < j + 1 && same_edge(all[j as int], all[i as int]));
                    }
                }
                dup = dup || m;
                j = j + 1;
            }
            proof {
                assert forall|x: int| 0 <= x < i implies pre[x] == all[x] by {}
                if dup {
                    let x = choose|x: int| 0 <= x < i && same_edge(all[x], all[i as int]);
                    assert(same_edge(pre[x], pre.last()));
                }
            }
            if !dup {
                let ghost before = r@;
                let c = clone_edge(e);
                r.push(c);
                assert(tedges(r@) =~= tedges(before).push(c@));
            }
            i = i + 1;
        }
        assert(all.subrange(0, es@.len() as int) =~= all);
        r
    }

    /// The drawing without nodes that no edge touches; groups keep only the
    /// remaining nodes and groups left empty are dropped; edges and layers
    /// are unchanged.
    pub fn remove_isolated(&self, graph: &TopologyGraph) -> (r: TopologyGraph)
        ensures
            tnodes(r.nodes@) == connected_nodes(tnodes(graph.nodes@), tedges(graph.edges@)),
            tedges(r.edges@) == tedges(graph.edges@),
            tgroups(r.groups@) == groups_present(
                tgroups(graph.groups@),
                connected_nodes(tnodes(graph.nodes@), tedges(graph.edges@)),
            ),
            strs(r.layers@) == strs(graph.layers@),
    {
        let ghost ns = tnodes(graph.nodes@);
        let ghost es = tedges(graph.edges@);
        let mut nodes: Vec<TopologyNode> = Vec::new();
        let mut i: usize = 0;
        while i < graph.nodes.len()
            invariant
                i <= graph.nodes@.len(),
                ns == tnodes(graph.nodes@),
                es == tedges(graph.edges@),
                tnodes(nodes@) == connected_nodes(ns.subrange(0, i as int), es),
            decreases graph.nodes@.len() - i,
        {
            let ghost pre = ns.subrange(0, i + 1);
            assert(pre.drop_last() =~= ns.subrange(0, i as int));
            let n = &graph.nodes[i];
            if touches_exec(&graph.edges, &n.id) {
                let ghost before = nodes@;
                let c = clone_node(n);
                nodes.push(c);
                assert(tnodes(nodes@) =~= tnodes(before).push(c@));
            }
            i = i + 1;
        }
        assert(ns.subrange(0, graph.nodes@.len() as int) =~= ns);
        let ghost kept = tnodes(nodes@);
        let ghost gs = tgroups(graph.groups@);
        let mut groups: Vec<NodeGroup> = Vec::new();
        let mut g: usize = 0;
        while g < graph.groups.len()
            invariant
                g <= graph.groups@.len(),
                gs == tgroups(graph.groups@),
                kept == tnodes(nodes@),
                tgroups(groups@) == groups_present(gs.subrange(0, g as int), kept),
            decreases graph.groups@.len() - g,
        {
            let ghost pre = gs.subrange(0, g + 1);
            assert(pre.drop_last() =~= gs.subrange(0, g as int));
            let grp = &graph.groups[g];
            let ids = filter_ids(&grp.node_ids, &nodes);
            if ids.len() > 0 {
                let ng = NodeGroup {
                    id: grp.id.clone(),
                    label: grp.label.clone(),
                    node_ids: ids,
                    group_type: grp.group_type.clone(),
                };
                let ghost before = groups@;
                groups.push(ng);
                assert(tgroups(groups@) =~= tgroups(before).push(ng@));
            }
            g = g + 1;
        }
        assert(gs.subrange(0, graph.groups@.len() as int) =~= gs);
        TopologyGraph {
            nodes,
            edges: clone_edges(&graph.edges),
            groups,
            layers: clone_strings(&graph.layers),
        }
    }

    /// The edges with the stroke width of their type: `Exposes` 3.0,
    /// `ConnectsTo` 2.0, `DependsOn` 2.5, any other 1.0.
    pub fn weigh_edges(&self, graph: &TopologyGraph) -> (r: Vec<TopologyEdge>)
        ensures
            tedges(r@) == tedges(graph.edges@).map_values(|e: TopologyEdgeView| weighed(e)),
    {
        let mut r: Vec<TopologyEdge> = Vec::new();
        let mut i: usize = 0;
        while i < graph.edges.len()
            invariant
                i <= graph.edges@.len(),
                r@.len() == i,
                forall|k: int| 0 <= k < i ==> r@[k]@ == weighed(graph.edges@[k]@),
            decreases graph.edges@.len() - i,
        {
            let e = &graph.edges[i];
            let width: u32 = if str_eq(e.edge_type.as_str(), "Exposes") {
                30
            } else if str_eq(e.edge_type.as_str(), "ConnectsTo") {
                20
            } else if str_eq(e.edge_type.as_str(), "DependsOn") {
                25
            } else {
                10
            };
            let c = TopologyEdge {
                id: e.id.clone(),
                source: e.source.clone(),
                target: e.target.clone(),
                label: e.label.clone(),
                edge_type: e.edge_type.clone(),
                width_tenths: width,
            };
            r.push(c);
            i = i + 1;
        }
        assert(tedges(r@) =~= tedges(graph.edges@).map_values(|e: TopologyEdgeView| weighed(e)));
        r
    }

    /// The full pass: edges de-duplicated then weighed, nodes that no edge
    /// touches removed. Groups and layers are left as they were.
    pub fn optimize(&self, graph: &mut TopologyGraph)
        ensures
            tedges(final(graph).edges@) == dedup_edges_spec(tedges(old(graph).edges@)).map_values(
                |e: TopologyEdgeView| weighed(e),
            ),
            tnodes(final(graph).nodes@) == connected_nodes(
                tnodes(old(graph).nodes@),
                tedges(final(graph).edges@),
            ),
            tgroups(final(graph).groups@) == tgroups(old(graph).groups@),
            strs(final(graph).layers@) == strs(old(graph).layers@),
    {
        let deduped = self.deduplicate_edges(graph);
        graph.edges = deduped;
        let weighed = self.weigh_edges(graph);
        graph.edges = weighed;
        let cleaned = self.remove_isolated(graph);
        graph.nodes = cleaned.nodes;
        graph.edges = cleaned.edges;
    }
}

} // verus!
