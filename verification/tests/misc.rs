use monitaur::error::EngineError;
use monitaur::graph::GraphOptimizer;
use monitaur::monitoring::{network_io, MonitoringEngine};
use monitaur::procnet::read_proc_net;
use monitaur::network::ConnectionState;
use monitaur::text::{trim, u64_to_decimal};
use monitaur::visualization::{TopologyEdge, TopologyGraph};

#[test]
fn error_messages_name_the_engine() {
    assert_eq!(EngineError::Network("boom".to_string()).message(), "Network error: boom");
    assert_eq!(EngineError::Io("gone".to_string()).message(), "I/O error: gone");
    assert_eq!(EngineError::Persistence("x".to_string()).message(), "Persistence error: x");
}

#[test]
fn network_io_sums_with_saturation() {
    assert_eq!(network_io(&vec![(1, 2), (3, 4)]), (4, 6));
    assert_eq!(network_io(&vec![]), (0, 0));
    assert_eq!(network_io(&vec![(u64::MAX, 1), (5, 1)]), (u64::MAX, 2));
}

#[test]
fn monitoring_poll_interval() {
    assert_eq!(MonitoringEngine::new().poll_interval(), 5);
    assert_eq!(MonitoringEngine::new().with_poll_interval(12).poll_interval(), 12);
}

#[test]
fn text_helpers() {
    assert_eq!(trim("  hello world \t\n"), "hello world");
    assert_eq!(trim("   "), "");
    assert_eq!(u64_to_decimal(0), "0");
    assert_eq!(u64_to_decimal(1234567890), "1234567890");
}

fn edge(source: &str, target: &str, kind: &str) -> TopologyEdge {
    TopologyEdge {
        id: format!("{source}-{target}"),
        source: source.to_string(),
        target: target.to_string(),
        label: kind.to_string(),
        edge_type: kind.to_string(),
        width_tenths: 15,
    }
}

#[test]
fn deduplicating_twice_changes_nothing() {
    let g = TopologyGraph {
        nodes: vec![],
        edges: vec![
            edge("a", "b", "ConnectsTo"),
            edge("a", "b", "ConnectsTo"),
            edge("a", "b", "Exposes"),
            edge("b", "a", "ConnectsTo"),
            edge("a", "b", "Exposes"),
        ],
        groups: vec![],
        layers: vec![],
    };
    let opt = GraphOptimizer::new();
    let once = opt.deduplicate_edges(&g);
    assert_eq!(once.len(), 3);
    let g2 = TopologyGraph { nodes: vec![], edges: once.clone(), groups: vec![], layers: vec![] };
    let twice = opt.deduplicate_edges(&g2);
    let ids1: Vec<&str> = once.iter().map(|e| e.id.as_str()).collect();
    let ids2: Vec<&str> = twice.iter().map(|e| e.id.as_str()).collect();
    assert_eq!(ids1, ids2);
}

#[test]
fn socket_tables_yield_only_live_connections() {
    let content = "header\n 0: 0100007F:1F90 00000000:0000 01 a b c d e 1\n 1: 0100007F:1F90 0200000A:0050 0A a b c d e 2\n 2: 0100007F:1F90 0200000A:0050 01 a b c d e 3\n";
    let entries = read_proc_net(content, false).unwrap();
    assert_eq!(entries.len(), 1);
    assert!(entries.iter().all(|e| e.state == ConnectionState::Established && e.remote_port != 0));
    assert_eq!(entries[0].inode, 3);
}
