//! Layered layout of the infrastructure graph for drawing.

use vstd::prelude::*;

use crate::graph::{has_node, has_node_exec};
use crate::models::{
    class_name, class_name_spec, edges_view, exposure_name, exposure_name_spec, health_name,
    health_name_spec, node_kind_name, node_kind_name_spec, nodes_view, pairs, relation_name,
    relation_name_spec, services_view, strs, EdgeView, InfraGraph, NetworkNodeView,
    Service, ServiceClass, ServiceView,
};
use crate::text::{decimal, owned, u64_to_decimal};
use crate::visualization::{
    tedges, tgroups, tnodes, NodeGroup, NodeGroupView, TopologyEdge, TopologyEdgeView,
    TopologyGraph, TopologyNode, TopologyNodeView,
};

verus! {

/// The layer a service class is drawn in: reverse proxies 1, web apps 2,
/// workers and brokers 3, data stores 4, everything else 5. Layer 6 holds
/// network nodes and layer 0 (the internet) holds nothing.
pub open spec fn layer_of(class: ServiceClass) -> nat {
    match class {
        ServiceClass::ReverseProxy => 1,
        ServiceClass::WebApp => 2,
        ServiceClass::Worker | ServiceClass::Messaging => 3,
        ServiceClass::Database | ServiceClass::Cache => 4,
        _ => 5,
    }
}

/// The layer a service class is drawn in.
pub fn classify_layer(class: &ServiceClass) -> (l: usize)
    ensures
        l == layer_of(*class),
{
    match class {
        ServiceClass::ReverseProxy => 1,
        ServiceClass::WebApp => 2,
        ServiceClass::Worker | ServiceClass::Messaging => 3,
        ServiceClass::Database | ServiceClass::Cache => 4,
        _ => 5,
    }
}

/// The names of the layers, from the internet down to infrastructure.
pub open spec fn layer_names() -> Seq<Seq<char>> {
    seq!["Internet"@, "Reverse Proxy"@, "Web App"@, "Worker / API"@, "Data Store"@, "Infrastructure"@]
}

/// The label of a layer group: its name, or `Unknown` past the last name.
pub open spec fn layer_label(l: nat) -> Seq<char> {
    if l < 6 {
        layer_names()[l as int]
    } else {
        "Unknown"@
    }
}

/// Number of services drawn in layer `l`.
pub open spec fn count_in_layer(ss: Seq<ServiceView>, l: nat) -> nat
    decreases ss.len(),
{
    if ss.len() == 0 {
        0
    } else {
        count_in_layer(ss.drop_last(), l) + if layer_of(ss.last().class) == l {
            1nat
        } else {
            0nat
        }
    }
}

/// The group name of a layer.
pub open spec fn layer_group(l: nat) -> Seq<char> {
    "layer_"@ + decimal(l)
}

/// The metadata shown for a service: status, health, exposure, and the
/// image when known.
pub open spec fn service_metadata(s: ServiceView) -> Seq<(Seq<char>, Seq<char>)> {
    let base = seq![
        ("status"@, s.status),
        ("health"@, health_name_spec(s.health)),
        ("exposure"@, exposure_name_spec(s.exposure_state)),
    ];
    match s.image {
        Some(img) => base.push(("image"@, img)),
        None => base,
    }
}

/// The drawn node of the `i`-th service: centred in its layer's row, rows
/// 150 units apart starting at 50, neighbours 200 units apart.
pub open spec fn service_node(ss: Seq<ServiceView>, i: int) -> TopologyNodeView {
    let s = ss[i];
    let l = layer_of(s.class);
    let index = count_in_layer(ss.subrange(0, i), l);
    let count = count_in_layer(ss, l);
    TopologyNodeView {
        id: s.id,
        label: s.name,
        node_type: class_name_spec(s.class),
        group: layer_group(l),
        layer: l,
        x: (2 * index - count + 1) * 100,
        y: (l * 150 + 50) as int,
        metadata: service_metadata(s),
    }
}

/// The drawn node of the `j`-th network node, in the bottom row.
pub open spec fn network_node(ns: Seq<NetworkNodeView>, j: int) -> TopologyNodeView {
    TopologyNodeView {
        id: ns[j].id,
        label: ns[j].id,
        node_type: node_kind_name_spec(ns[j].kind),
        group: "layer_6"@,
        layer: 6,
        x: j * 200 - 200,
        y: 950,
        metadata: Seq::empty(),
    }
}

/// All drawn nodes: services, then network nodes.
pub open spec fn layout_nodes(ss: Seq<ServiceView>, ns: Seq<NetworkNodeView>) -> Seq<TopologyNodeView> {
    Seq::new(ss.len(), |i: int| service_node(ss, i)) + Seq::new(ns.len(), |j: int| network_node(ns, j))
}

/// The drawn edge for a graph edge.
pub open spec fn drawn_edge(e: EdgeView) -> TopologyEdgeView {
    TopologyEdgeView {
        id: "e_"@ + e.source_id + "_"@ + e.target_id,
        source: e.source_id,
        target: e.target_id,
        label: relation_name_spec(e.relation),
        edge_type: relation_name_spec(e.relation),
        width_tenths: 15,
    }
}

/// The drawn edges: only edges whose both ends are drawn nodes, in order.
pub open spec fn layout_edges(es: Seq<EdgeView>, nodes: Seq<TopologyNodeView>) -> Seq<TopologyEdgeView>
    decreases es.len(),
{
    if es.len() == 0 {
        Seq::empty()
    } else {
        let prev = layout_edges(es.drop_last(), nodes);
        let e = es.last();
        if has_node(nodes, e.source_id) && has_node(nodes, e.target_id) {
            prev.push(drawn_edge(e))
        } else {
            prev
        }
    }
}

/// The distinct layers of the nodes, in order of first appearance.
pub open spec fn layers_seen(nodes: Seq<TopologyNodeView>) -> Seq<nat>
    decreases nodes.len(),
{
    if nodes.len() == 0 {
        Seq::empty()
    } else {
        let prev = layers_seen(nodes.drop_last());
        if prev.contains(nodes.last().layer) {
            prev
        } else {
            prev.push(nodes.last().layer)
        }
    }
}

/// The ids of the nodes in layer `l`, in order.
pub open spec fn ids_in_layer(nodes: Seq<TopologyNodeView>, l: nat) -> Seq<Seq<char>>
    decreases nodes.len(),
{
    if nodes.len() == 0 {
        Seq::empty()
    } else {
        let prev = ids_in_layer(nodes.drop_last(), l);
        if nodes.last().layer == l {
            prev.push(nodes.last().id)
        } else {
            prev
        }
    }
}

/// The group of layer `l`.
pub open spec fn layer_group_view(nodes: Seq<TopologyNodeView>, l: nat) -> NodeGroupView {
    NodeGroupView {
        id: layer_group(l),
        label: layer_label(l),
        node_ids: ids_in_layer(nodes, l),
        group_type: "layer"@,
    }
}

/// One group per layer that holds nodes, in order of first appearance.
pub open spec fn layout_groups(nodes: Seq<TopologyNodeView>) -> Seq<NodeGroupView> {
    layers_seen(nodes).map_values(|l: nat| layer_group_view(nodes, l))
}

/// Every drawn edge joins two drawn nodes.
pub proof fn law_edges_join_drawn_nodes(es: Seq<EdgeView>, nodes: Seq<TopologyNodeView>)
    ensures
        forall|k: int|
            0 <= k < layout_edges(es, nodes).len() ==> has_node(nodes, (#[trigger] layout_edges(es, nodes)[k]).source)
                && has_node(nodes, layout_edges(es, nodes)[k].target),
    decreases es.len(),
{
    if es.len() > 0 {
        law_edges_join_drawn_nodes(es.drop_last(), nodes);
        let prev = layout_edges(es.drop_last(), nodes);
        let r = layout_edges(es, nodes);
        assert forall|k: int| 0 <= k < r.len() implies has_node(nodes, (#[trigger] r[k]).source)
            && has_node(nodes, r[k].target) by {
            if k < prev.len() {
                assert(r[k] == prev[k]);
            }
        }
    }
}

proof fn lemma_layers_seen(nodes: Seq<TopologyNodeView>)
    ensures
        forall|k: int| 0 <= k < nodes.len() ==> layers_seen(nodes).contains(#[trigger] nodes[k].layer),
        forall|i: int, j: int|
            0 <= i < j < layers_seen(nodes).len() ==> layers_seen(nodes)[i] != layers_seen(nodes)[j],
    decreases nodes.len(),
{
    if nodes.len() > 0 {
        let init = nodes.drop_last();
        lemma_layers_seen(init);
        let prev = layers_seen(init);
        let r = layers_seen(nodes);
        assert forall|k: int| 0 <= k < nodes.len() implies r.contains(#[trigger] nodes[k].layer) by {
            if k < init.len() {
                assert(init[k] == nodes[k]);
                let x = choose|x: int| 0 <= x < prev.len() && prev[x] == init[k].layer;
                if !prev.contains(nodes.last().layer) {
                    assert(r[x] == prev[x]);
                }
            } else if prev.contains(nodes.last().layer) {
            } else {
                assert(r[r.len() - 1] == nodes.last().layer);
            }
        }
    }
}

/// Some node of layer `l` has the id.
pub open spec fn node_in_layer(nodes: Seq<TopologyNodeView>, l: nat, id: Seq<char>) -> bool {
    exists|k: int| 0 <= k < nodes.len() && nodes[k].layer == l && nodes[k].id == id
}

/// Some node whose layer has the group name `group` has the id.
pub open spec fn node_in_group(nodes: Seq<TopologyNodeView>, group: Seq<char>, id: Seq<char>) -> bool {
    exists|k: int| 0 <= k < nodes.len() && layer_group(nodes[k].layer) == group && nodes[k].id == id
}

proof fn lemma_ids_in_layer(nodes: Seq<TopologyNodeView>, l: nat)
    ensures
        forall|k: int|
            0 <= k < nodes.len() && nodes[k].layer == l ==> ids_in_layer(nodes, l).contains(#[trigger] nodes[k].id),
        forall|i: int|
            0 <= i < ids_in_layer(nodes, l).len() ==> node_in_layer(nodes, l, #[trigger] ids_in_layer(nodes, l)[i]),
    decreases nodes.len(),
{
    if nodes.len() > 0 {
        let init = nodes.drop_last();
        lemma_ids_in_layer(init, l);
        let prev = ids_in_layer(init, l);
        let r = ids_in_layer(nodes, l);
        assert forall|k: int| 0 <= k < nodes.len() && nodes[k].layer == l implies r.contains(
            #[trigger] nodes[k].id,
        ) by {
            if k < init.len() {
                assert(init[k] == nodes[k]);
                assert(init[k].layer == l);
                assert(prev.contains(init[k].id));
                let x = choose|x: int| 0 <= x < prev.len() && prev[x] == init[k].id;
                if nodes.last().layer == l {
                    assert(r == prev.push(nodes.last().id));
                    assert(r[x] == prev[x]);
                } else {
                    assert(r == prev);
                }
                assert(r.contains(nodes[k].id));
            } else {
                assert(r == prev.push(nodes.last().id));
                assert(r[r.len() - 1] == nodes.last().id);
            }
        }
        assert forall|i: int| 0 <= i < ids_in_layer(nodes, l).len() implies node_in_layer(nodes, l, #[trigger] ids_in_layer(nodes, l)[i]) by {
            if i < prev.len() {
                assert(r[i] == prev[i]);
                assert(node_in_layer(init, l, prev[i]));
                let k = choose|k: int| 0 <= k < init.len() && init[k].layer == l && init[k].id == prev[i];
                assert(nodes[k] == init[k]);
                assert(0 <= k < nodes.len() && nodes[k].layer == l && nodes[k].id == r[i]);
            } else {
                assert(r == prev.push(nodes.last().id));
                let k = nodes.len() - 1;
                assert(0 <= k < nodes.len() && nodes[k].layer == l && nodes[k].id == r[i]);
            }
        }
    }
}

/// The layer groups cover the drawing: there is one group per layer, every
/// node is listed in the group of its layer, and a group lists only nodes
/// of its layer.
pub proof fn law_layer_groups_cover_nodes(nodes: Seq<TopologyNodeView>)
    ensures
        forall|i: int, j: int|
            0 <= i < j < layout_groups(nodes).len() ==> layout_groups(nodes)[i].id != layout_groups(nodes)[j].id,
        forall|k: int|
            #![trigger nodes[k]]
            0 <= k < nodes.len() ==> exists|g: int|
                0 <= g < layout_groups(nodes).len() && (#[trigger] layout_groups(nodes)[g]).id == layer_group(
                    nodes[k].layer,
                ) && layout_groups(nodes)[g].node_ids.contains(nodes[k].id),
        forall|g: int, i: int|
            0 <= g < layout_groups(nodes).len() && 0 <= i < layout_groups(nodes)[g].node_ids.len()
                ==> node_in_group(nodes, layout_groups(nodes)[g].id, #[trigger] layout_groups(nodes)[g].node_ids[i]),
{
    lemma_layers_seen(nodes);
    let seen = layers_seen(nodes);
    let gs = layout_groups(nodes);
    assert forall|i: int, j: int| 0 <= i < j < gs.len() implies gs[i].id != gs[j].id by {
        lemma_layer_group_injective(seen[i], seen[j]);
    }
    assert forall|k: int| #![trigger nodes[k]] 0 <= k < nodes.len() implies exists|g: int|
        0 <= g < gs.len() && (#[trigger] gs[g]).id == layer_group(nodes[k].layer)
            && gs[g].node_ids.contains(nodes[k].id) by {
        let l = nodes[k].layer;
        assert(seen.contains(l));
        let g = choose|g: int| 0 <= g < seen.len() && seen[g] == l;
        lemma_ids_in_layer(nodes, l);
        assert(gs[g] == layer_group_view(nodes, l));
    }
    assert forall|g: int, i: int| 0 <= g < layout_groups(nodes).len() && 0 <= i < layout_groups(nodes)[g].node_ids.len() implies node_in_group(nodes, layout_groups(nodes)[g].id, #[trigger] layout_groups(nodes)[g].node_ids[i]) by {
        let l = seen[g];
        assert(gs[g] == layer_group_view(nodes, l));
        lemma_ids_in_layer(nodes, l);
        let ids = ids_in_layer(nodes, l);
        assert(gs[g].node_ids == ids);
        assert(0 <= i < ids.len());
        assert(node_in_layer(nodes, l, ids[i]));
        let k = choose|k: int| 0 <= k < nodes.len() && nodes[k].layer == l && nodes[k].id == ids[i];
        assert(nodes[k].id == gs[g].node_ids[i]);
        assert(layer_group(nodes[k].layer) == gs[g].id);
    }
}

proof fn lemma_layer_group_injective(a: nat, b: nat)
    requires
        a != b,
    ensures
        layer_group(a) != layer_group(b),
{
    crate::text::lemma_decimal_injective(a, b);
    let pa = "layer_"@;
    assert(layer_group(a).subrange(0, pa.len() as int) =~= pa);
    assert(layer_group(b).subrange(0, pa.len() as int) =~= pa);
    if layer_group(a) == layer_group(b) {
        assert(decimal(a) =~= layer_group(a).subrange(pa.len() as int, layer_group(a).len() as int));
        assert(decimal(b) =~= layer_group(b).subrange(pa.len() as int, layer_group(b).len() as int));
    }
}

/// Each service is drawn in the row of its class: reverse proxies in layer
/// 1, web apps in 2, workers and message brokers in 3 (the "Worker / API"
/// row), databases and caches in 4, every other class in 5; rows are 150
/// units apart starting at 50, and the node belongs to its layer's group.
pub proof fn law_services_drawn_in_class_rows(ss: Seq<ServiceView>, ns: Seq<NetworkNodeView>)
    ensures
        layer_label(3) == "Worker / API"@,
        forall|i: int|
            #![trigger layout_nodes(ss, ns)[i]]
            0 <= i < ss.len() ==> {
                let n = layout_nodes(ss, ns)[i];
                let c = ss[i].class;
                &&& n.id == ss[i].id
                &&& (c == ServiceClass::ReverseProxy <==> n.layer == 1)
                &&& (c == ServiceClass::WebApp <==> n.layer == 2)
                &&& (c == ServiceClass::Worker || c == ServiceClass::Messaging <==> n.layer == 3)
                &&& (c == ServiceClass::Database || c == ServiceClass::Cache <==> n.layer == 4)
                &&& (c == ServiceClass::Monitoring || c == ServiceClass::Security || c
                    == ServiceClass::Utility || c == ServiceClass::Unknown <==> n.layer == 5)
                &&& n.y == 150 * n.layer + 50
                &&& n.group == layer_group(n.layer)
            },
{
    assert(layer_names()[3] == "Worker / API"@);
    assert forall|i: int| #![trigger layout_nodes(ss, ns)[i]] 0 <= i < ss.len() implies {
        let n = layout_nodes(ss, ns)[i];
        let c = ss[i].class;
        &&& n.id == ss[i].id
        &&& (c == ServiceClass::ReverseProxy <==> n.layer == 1)
        &&& (c == ServiceClass::WebApp <==> n.layer == 2)
        &&& (c == ServiceClass::Worker || c == ServiceClass::Messaging <==> n.layer == 3)
        &&& (c == ServiceClass::Database || c == ServiceClass::Cache <==> n.layer == 4)
        &&& (c == ServiceClass::Monitoring || c == ServiceClass::Security || c
            == ServiceClass::Utility || c == ServiceClass::Unknown <==> n.layer == 5)
        &&& n.y == 150 * n.layer + 50
        &&& n.group == layer_group(n.layer)
    } by {
        assert(layout_nodes(ss, ns)[i] == service_node(ss, i));
    }
}

/// Bound on list lengths under which layout coordinates fit in 64 bits.
pub open spec fn layout_bound() -> nat {
    0x100_0000_0000
}

proof fn lemma_count_bound(ss: Seq<ServiceView>, l: nat)
    ensures
        count_in_layer(ss, l) <= ss.len(),
    decreases ss.len(),
{
    if ss.len() > 0 {
        lemma_count_bound(ss.drop_last(), l);
    }
}

fn layer_counts(services: &Vec<Service>) -> (c: Vec<usize>)
    ensures
        c@.len() == 7,
        forall|l: int| 0 <= l < 7 ==> c@[l] == count_in_layer(services_view(services@), l as nat),
{
    let ghost ss = services_view(services@);
    let mut c: Vec<usize> = vec![0, 0, 0, 0, 0, 0, 0];
    let mut i: usize = 0;
    while i < services.len()
        invariant
            i <= services@.len(),
            ss == services_view(services@),
            c@.len() == 7,
            forall|l: int| 0 <= l < 7 ==> c@[l] == count_in_layer(ss.subrange(0, i as int), l as nat),
            forall|l: int| 0 <= l < 7 ==> c@[l] <= i,
        decreases services@.len() - i,
    {
        let ghost pre = ss.subrange(0, i + 1);
        assert(pre.drop_last() =~= ss.subrange(0, i as int));
        assert(pre.last() == services@[i as int]@);
        let l = classify_layer(&services[i].class);
        c.set(l, c[l] + 1);
        i = i + 1;
    }
    assert(ss.subrange(0, services@.len() as int) =~= ss);
    c
}

fn metadata_for(s: &Service) -> (m: Vec<(String, String)>)
    ensures
        pairs(m@) == service_metadata(s@),
{
    let mut m: Vec<(String, String)> = Vec::new();
    m.push((owned("status"), s.status.clone()));
    m.push((owned("health"), health_name(s.health)));
    m.push((owned("exposure"), exposure_name(s.exposure_state)));
    match &s.image {
        Some(img) => {
            m.push((owned("image"), img.clone()));
        },
        None => {},
    }
    assert(pairs(m@) =~= service_metadata(s@));
    m
}

fn layer_group_name(l: usize) -> (r: String)
    ensures
        r@ == layer_group(l as nat),
{
    let mut r = owned("layer_");
    let d = u64_to_decimal(l as u64);
    r.append(d.as_str());
    r
}

fn service_nodes(services: &Vec<Service>) -> (r: Vec<TopologyNode>)
    requires
        services@.len() < layout_bound(),
    ensures
        r@.len() == services@.len(),
        forall|k: int|
            0 <= k < services@.len() ==> #[trigger] r@[k]@ == service_node(services_view(services@), k),
{
    let ghost ss = services_view(services@);
    let counts = layer_counts(services);
    let mut pos: Vec<usize> = vec![0, 0, 0, 0, 0, 0, 0];
    let mut r: Vec<TopologyNode> = Vec::new();
    let mut i: usize = 0;
    while i < services.len()
        invariant
            i <= services@.len() < layout_bound(),
            ss == services_view(services@),
            counts@.len() == 7,
            forall|l: int| 0 <= l < 7 ==> counts@[l] == count_in_layer(ss, l as nat),
            pos@.len() == 7,
            forall|l: int| 0 <= l < 7 ==> pos@[l] == count_in_layer(ss.subrange(0, i as int), l as nat),
            r@.len() == i,
            forall|k: int| 0 <= k < i ==> #[trigger] r@[k]@ == service_node(ss, k),
        decreases services@.len() - i,
    {
        let s = &services[i];
        let ghost pre = ss.subrange(0, i + 1);
        assert(pre.drop_last() =~= ss.subrange(0, i as int));
        assert(pre.last() == s@);
        assert(ss[i as int] == s@);
        let l = classify_layer(&s.class);
        let index = pos[l];
        let count = counts[l];
        proof {
            lemma_count_bound(ss.subrange(0, i as int), l as nat);
            lemma_count_bound(ss, l as nat);
            lemma_count_prefix(ss, (i + 1) as int, l as nat);
            assert(count_in_layer(pre, l as nat) == index + 1);
        }
        assert(index < count);
        assert(count <= ss.len());
        let a: i64 = 2 * (index as i64) + 1;
        let b: i64 = count as i64;
        let x: i64 = (a - b) * 100;
        let y: i64 = (l as i64) * 150 + 50;
        let node = TopologyNode {
            id: s.id.clone(),
            label: s.name.clone(),
            node_type: class_name(s.class),
            group: layer_group_name(l),
            layer: l,
            x,
            y,
            metadata: metadata_for(s),
        };
        r.push(node);
        pos.set(l, index + 1);
        i = i + 1;
    }
    r
}

proof fn lemma_count_prefix(ss: Seq<ServiceView>, n: int, l: nat)
    requires
        0 <= n <= ss.len(),
    ensures
        count_in_layer(ss.subrange(0, n), l) <= count_in_layer(ss, l),
    decreases ss.len() - n,
{
    if n < ss.len() {
        lemma_count_prefix(ss, n + 1, l);
        let a = ss.subrange(0, n + 1);
        assert(a.drop_last() =~= ss.subrange(0, n));
    } else {
        assert(ss.subrange(0, n) =~= ss);
    }
}

fn append_network_nodes(nodes: &mut Vec<TopologyNode>, network: &Vec<crate::models::NetworkNode>)
    requires
        network@.len() < layout_bound(),
    ensures
        final(nodes)@.len() == old(nodes)@.len() + network@.len(),
        forall|k: int| 0 <= k < old(nodes)@.len() ==> #[trigger] final(nodes)@[k] == old(nodes)@[k],
        forall|j: int|
            0 <= j < network@.len() ==> #[trigger] final(nodes)@[old(nodes)@.len() + j]@
                == network_node(nodes_view(network@), j),
{
    let ghost ns = nodes_view(network@);
    let ghost base = nodes@.len();
    let ghost orig = nodes@;
    let mut j: usize = 0;
    while j < network.len()
        invariant
            j <= network@.len() < layout_bound(),
            ns == nodes_view(network@),
            nodes@.len() == base + j,
            forall|k: int| 0 <= k < base ==> #[trigger] nodes@[k] == orig[k],
            forall|k: int| 0 <= k < j ==> #[trigger] nodes@[base + k]@ == network_node(ns, k),
        decreases network@.len() - j,
    {
        let n = &network[j];
        assert(ns[j as int] == n@);
        let x: i64 = (j as i64) * 200 - 200;
        let node = TopologyNode {
            id: n.id.clone(),
            label: n.id.clone(),
            node_type: node_kind_name(n.kind),
            group: owned("layer_6"),
            layer: 6,
            x,
            y: 950,
            metadata: Vec::new(),
        };
        assert(node@.metadata =~= Seq::<(Seq<char>, Seq<char>)>::empty());
        nodes.push(node);
        j = j + 1;
    }
}

fn edge_id(source: &String, target: &String) -> (r: String)
    ensures
        r@ == "e_"@ + source@ + "_"@ + target@,
{
    let mut r = owned("e_");
    r.append(source.as_str());
    r.append("_");
    r.append(target.as_str());
    r
}

fn drawn_edges(edges: &Vec<crate::models::Edge>, nodes: &Vec<TopologyNode>) -> (r: Vec<TopologyEdge>)
    ensures
        tedges(r@) == layout_edges(edges_view(edges@), tnodes(nodes@)),
{
    let ghost es = edges_view(edges@);
    let mut r: Vec<TopologyEdge> = Vec::new();
    let mut i: usize = 0;
    while i < edges.len()
        invariant
            i <= edges@.len(),
            es == edges_view(edges@),
            tedges(r@) == layout_edges(es.subrange(0, i as int), tnodes(nodes@)),
        decreases edges@.len() - i,
    {
        let e = &edges[i];
        let ghost pre = es.subrange(0, i + 1);
        assert(pre.drop_last() =~= es.subrange(0, i as int));
        assert(pre.last() == e@);
        if has_node_exec(nodes, &e.source_id) && has_node_exec(nodes, &e.target_id) {
            let d = TopologyEdge {
                id: edge_id(&e.source_id, &e.target_id),
                source: e.source_id.clone(),
                target: e.target_id.clone(),
                label: relation_name(e.relation),
                edge_type: relation_name(e.relation),
                width_tenths: 15,
            };
            let ghost before = r@;
            r.push(d);
            assert(tedges(r@) =~= tedges(before).push(d@));
        }
        i = i + 1;
    }
    assert(es.subrange(0, edges@.len() as int) =~= es);
    r
}

fn seen_layers(nodes: &Vec<TopologyNode>) -> (r: Vec<usize>)
    ensures
        r@.map_values(|l: usize| l as nat) == layers_seen(tnodes(nodes@)),
{
    let ghost ns = tnodes(nodes@);
    let mut r: Vec<usize> = Vec::new();
    let mut i: usize = 0;
    while i < nodes.len()
        invariant
            i <= nodes@.len(),
            ns == tnodes(nodes@),
            r@.map_values(|l: usize| l as nat) == layers_seen(ns.subrange(0, i as int)),
        decreases nodes@.len() - i,
    {
        let ghost pre = ns.subrange(0, i + 1);
        assert(pre.drop_last() =~= ns.subrange(0, i as int));
        let l = nodes[i].layer;
        assert(pre.last().layer == l as nat);
        let ghost rv = r@.map_values(|l: usize| l as nat);
        let mut found = false;
        let mut k: usize = 0;
        while k < r.len()
            invariant
                k <= r@.len(),
                rv == r@.map_values(|l: usize| l as nat),
                found == exists|x: int| 0 <= x < k && rv[x] == l as nat,
            decreases r@.len() - k,
        {
            let m = r[k] == l;
            proof {
                if m {
                    assert(rv[k as int] == l as nat);
                }
            }
            found = found || m;
            k = k + 1;
        }
        proof {
            if found {
                let x = choose|x: int| 0 <= x < r@.len() && rv[x] == l as nat;
                assert(rv.contains(l as nat));
            } else {
                assert(!rv.contains(l as nat));
            }
        }
        if !found {
            r.push(l);
            assert(r@.map_values(|l: usize| l as nat) =~= rv.push(l as nat));
        }
        i = i + 1;
    }
    assert(ns.subrange(0, nodes@.len() as int) =~= ns);
    r
}

fn layer_members(nodes: &Vec<TopologyNode>, l: usize) -> (r: Vec<String>)
    ensures
        strs(r@) == ids_in_layer(tnodes(nodes@), l as nat),
{
    let ghost ns = tnodes(nodes@);
    let mut r: Vec<String> = Vec::new();
    let mut i: usize = 0;
    while i < nodes.len()
        invariant
            i <= nodes@.len(),
            ns == tnodes(nodes@),
            strs(r@) == ids_in_layer(ns.subrange(0, i as int), l as nat),
        decreases nodes@.len() - i,
    {
        let ghost pre = ns.subrange(0, i + 1);
        assert(pre.drop_last() =~= ns.subrange(0, i as int));
        assert(pre.last() == nodes@[i as int]@);
        if nodes[i].layer == l {
            let ghost before = r@;
            r.push(nodes[i].id.clone());
            assert(strs(r@) =~= strs(before).push(nodes@[i as int].id@));
        }
        i = i + 1;
    }
    assert(ns.subrange(0, nodes@.len() as int) =~= ns);
    r
}

fn layer_label_exec(l: usize) -> (r: String)
    ensures
        r@ == layer_label(l as nat),
{
    owned(
        if l == 0 {
            "Internet"
        } else if l == 1 {
            "Reverse Proxy"
        } else if l == 2 {
            "Web App"
        } else if l == 3 {
            "Worker / API"
        } else if l == 4 {
            "Data Store"
        } else if l == 5 {
            "Infrastructure"
        } else {
            "Unknown"
        },
    )
}

fn layer_groups(nodes: &Vec<TopologyNode>) -> (r: Vec<NodeGroup>)
    ensures
        tgroups(r@) == layout_groups(tnodes(nodes@)),
{
    let seen = seen_layers(nodes);
    let ghost sv = seen@.map_values(|l: usize| l as nat);
    let mut r: Vec<NodeGroup> = Vec::new();
    let mut i: usize = 0;
    while i < seen.len()
        invariant
            i <= seen@.len(),
            sv == seen@.map_values(|l: usize| l as nat),
            sv == layers_seen(tnodes(nodes@)),
            r@.len() == i,
            forall|k: int| 0 <= k < i ==> #[trigger] r@[k]@ == layer_group_view(tnodes(nodes@), sv[k]),
        decreases seen@.len() - i,
    {
        let l = seen[i];
        let g = NodeGroup {
            id: layer_group_name(l),
            label: layer_label_exec(l),
            node_ids: layer_members(nodes, l),
            group_type: owned("layer"),
        };
        r.push(g);
        i = i + 1;
    }
    assert(tgroups(r@) =~= layout_groups(tnodes(nodes@)));
    r
}

fn layer_name_list() -> (r: Vec<String>)
    ensures
        strs(r@) == layer_names(),
{
    let mut r: Vec<String> = Vec::new();
    r.push(owned("Internet"));
    r.push(owned("Reverse Proxy"));
    r.push(owned("Web App"));
    r.push(owned("Worker / API"));
    r.push(owned("Data Store"));
    r.push(owned("Infrastructure"));
    assert(strs(r@) =~= layer_names());
    r
}

/// Lays the infrastructure graph out in layers.
pub struct TopologyGenerator;

impl TopologyGenerator {
    /// A generator.
    pub fn new() -> Self {
        TopologyGenerator
    }

    /// The drawing of a graph: a node per service in the row of its class,
    /// centred within the row, then a node per network node in the bottom
    /// row; the edges whose ends are both drawn; a group per populated
    /// layer; and the layer names. The length bound keeps coordinates in
    /// 64 bits.
    pub fn generate(&self, graph: &InfraGraph) -> (r: TopologyGraph)
        requires
            graph.services@.len() < layout_bound(),
            graph.network_nodes@.len() < layout_bound(),
        ensures
            tnodes(r.nodes@) == layout_nodes(services_view(graph.services@), nodes_view(graph.network_nodes@)),
            tedges(r.edges@) == layout_edges(edges_view(graph.edges@), tnodes(r.nodes@)),
            tgroups(r.groups@) == layout_groups(tnodes(r.nodes@)),
            strs(r.layers@) == layer_names(),
    {
        let mut nodes = service_nodes(&graph.services);
        let ghost first = nodes@;
        append_network_nodes(&mut nodes, &graph.network_nodes);
        let ghost ss = services_view(graph.services@);
        let ghost ns = nodes_view(graph.network_nodes@);
        let ghost want = layout_nodes(ss, ns);
        assert(want.len() == nodes@.len());
        assert forall|k: int| 0 <= k < nodes@.len() implies tnodes(nodes@)[k] == want[k] by {
            if k < first.len() {
                assert(nodes@[k] == first[k]);
                assert(first[k]@ == service_node(ss, k));
            } else {
                let j = k - first.len();
                assert(nodes@[first.len() + j]@ == network_node(ns, j));
            }
        }
        assert(tnodes(nodes@) =~= want);
        let edges = drawn_edges(&graph.edges, &nodes);
        let groups = layer_groups(&nodes);
        let layers = layer_name_list();
        TopologyGraph { nodes, edges, groups, layers }
    }
}

} // verus!
