use monitaur::graph::GraphOptimizer;
use monitaur::visualization::{NodeGroup, TopologyEdge, TopologyGraph, TopologyNode};

fn node(id: &str) -> TopologyNode {
    TopologyNode {
        id: id.to_string(),
        label: id.to_uppercase(),
        node_type: "Service".to_string(),
        group: "layer_1".to_string(),
        layer: 1,
        x: 0,
        y: 0,
        metadata: vec![],
    }
}

fn edge(id: &str, s: &str, t: &str, ty: &str) -> TopologyEdge {
    TopologyEdge {
        id: id.to_string(),
        source: s.to_string(),
        target: t.to_string(),
        label: ty.to_string(),
        edge_type: ty.to_string(),
        width_tenths: 10,
    }
}

#[test]
fn remove_isolated_also_prunes_group_membership() {
    let optimizer = GraphOptimizer::new();
    let graph = TopologyGraph {
        nodes: vec![
            TopologyNode {
                id: "a".to_string(),
                label: "A".to_string(),
                node_type: "Service".to_string(),
                group: "layer_1".to_string(),
                layer: 1,
                x: 0,
                y: 0,
                metadata: vec![],
            },
            TopologyNode {
                id: "isolated".to_string(),
                label: "Isolated".to_string(),
                node_type: "Service".to_string(),
                group: "layer_1".to_string(),
                layer: 1,
                x: 0,
                y: 0,
                metadata: vec![],
            },
        ],
        edges: vec![TopologyEdge {
            id: "e1".to_string(),
            source: "a".to_string(),
            target: "a".to_string(),
            label: "ConnectsTo".to_string(),
            edge_type: "ConnectsTo".to_string(),
            width_tenths: 10,
        }],
        groups: vec![NodeGroup {
            id: "layer_1".to_string(),
            label: "Layer".to_string(),
            node_ids: vec!["a".to_string(), "isolated".to_string()],
            group_type: "layer".to_string(),
        }],
        layers: vec!["Layer".to_string()],
    };

    let cleaned = optimizer.remove_isolated(&graph);

    assert_eq!(cleaned.nodes.len(), 1);
    assert_eq!(cleaned.groups.len(), 1);
    assert_eq!(cleaned.groups[0].node_ids, vec!["a".to_string()]);
}

// ---------------------------------------------------------------------------

fn sample() -> TopologyGraph {
    TopologyGraph {
        nodes: vec![node("a"), node("b"), node("c")],
        edges: vec![
            edge("e1", "a", "b", "Exposes"),
            edge("e2", "a", "b", "Exposes"),
            edge("e3", "a", "b", "DependsOn"),
            edge("e4", "b", "a", "Other"),
        ],
        groups: vec![NodeGroup {
            id: "g".to_string(),
            label: "G".to_string(),
            node_ids: vec!["c".to_string()],
            group_type: "layer".to_string(),
        }],
        layers: vec![],
    }
}

#[test]
fn deduplicate_keeps_first_of_each_triple() {
    let o = GraphOptimizer::new();
    let d = o.deduplicate_edges(&sample());
    let ids: Vec<&str> = d.iter().map(|e| e.id.as_str()).collect();
    assert_eq!(ids, vec!["e1", "e3", "e4"]);
    // Deduplicating twice changes nothing more.
    let mut g = sample();
    g.edges = d.clone();
    assert_eq!(o.deduplicate_edges(&g).len(), d.len());
}

#[test]
fn weigh_edges_by_type() {
    let o = GraphOptimizer::new();
    let w = o.weigh_edges(&sample());
    let widths: Vec<u32> = w.iter().map(|e| e.width_tenths).collect();
    assert_eq!(widths, vec![30, 30, 25, 10]);
}

#[test]
fn remove_isolated_drops_emptied_groups() {
    let o = GraphOptimizer::new();
    let cleaned = o.remove_isolated(&sample());
    assert_eq!(cleaned.nodes.len(), 2);
    assert!(cleaned.groups.is_empty());
    assert_eq!(cleaned.edges.len(), 4);
}

#[test]
fn optimize_runs_all_passes_but_keeps_groups() {
    let o = GraphOptimizer::new();
    let mut g = sample();
    o.optimize(&mut g);
    assert_eq!(g.edges.len(), 3);
    assert_eq!(g.edges[0].width_tenths, 30);
    assert_eq!(g.nodes.len(), 2);
    assert_eq!(g.groups.len(), 1);
}
