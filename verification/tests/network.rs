use monitaur::network::{
    build_traffic_flows, classify_port, resolve_container_connections, tcp_state, Connection,
    ConnectionState, NetworkIntelligenceEngine, TrafficClass,
};

fn make_conn(remote_port: u16) -> Connection {
    Connection {
        local_addr: "127.0.0.1".to_string(),
        local_port: 40000,
        remote_addr: "10.0.0.1".to_string(),
        remote_port,
        state: ConnectionState::Established,
        inode: 0,
        pid: None,
        container_id: None,
    }
}

#[test]
fn test_classify_http() {
    assert_eq!(classify_port(80), TrafficClass::Http);
}

#[test]
fn test_classify_https() {
    assert_eq!(classify_port(443), TrafficClass::Https);
}

#[test]
fn test_classify_database() {
    assert_eq!(classify_port(5432), TrafficClass::Database);
    assert_eq!(classify_port(3306), TrafficClass::Database);
    assert_eq!(classify_port(6379), TrafficClass::Cache);
}

#[test]
fn test_classify_unknown() {
    assert_eq!(classify_port(9999), TrafficClass::Unknown);
}

#[test]
fn test_build_flows_groups_by_destination() {
    let conns = vec![make_conn(443), make_conn(443), make_conn(80)];
    let flows = build_traffic_flows(&conns);
    assert_eq!(flows.len(), 2);
    let https = flows.iter().find(|f| f.port == 443).unwrap();
    assert_eq!(https.connection_count, 2);
}

// ---------------------------------------------------------------------------

#[test]
fn classify_port_covers_each_class() {
    assert_eq!(classify_port(8443), TrafficClass::Https);
    assert_eq!(classify_port(22), TrafficClass::Ssh);
    assert_eq!(classify_port(587), TrafficClass::Smtp);
    assert_eq!(classify_port(53), TrafficClass::Dns);
    assert_eq!(classify_port(11211), TrafficClass::Cache);
    assert_eq!(classify_port(1883), TrafficClass::MessageQueue);
    assert_eq!(classify_port(6443), TrafficClass::ContainerOrchestration);
    assert_eq!(classify_port(4317), TrafficClass::Monitoring);
}

#[test]
fn flows_count_each_destination_and_keep_first_order() {
    let mut a = make_conn(443);
    a.remote_addr = "10.0.0.2".to_string();
    let conns = vec![make_conn(443), a.clone(), make_conn(443), a, make_conn(53)];
    let flows = build_traffic_flows(&conns);
    assert_eq!(flows.len(), 3);
    assert_eq!(flows[0].destination, "10.0.0.1");
    assert_eq!(flows[0].connection_count, 2);
    assert_eq!(flows[1].destination, "10.0.0.2");
    assert_eq!(flows[1].connection_count, 2);
    assert_eq!(flows[2].class, TrafficClass::Dns);
    assert_eq!(flows[2].source, "localhost");
    let total: usize = flows.iter().map(|f| f.connection_count).sum();
    assert_eq!(total, conns.len());
}

#[test]
fn tcp_state_maps_numbers() {
    assert_eq!(tcp_state(0x01), ConnectionState::Established);
    assert_eq!(tcp_state(0x0A), ConnectionState::Listen);
    assert_eq!(tcp_state(0x07), ConnectionState::Closed);
    assert_eq!(tcp_state(0xFF), ConnectionState::Closed);
}

#[test]
fn connections_are_attributed_to_first_owning_container() {
    let mut c1 = make_conn(80);
    c1.pid = Some(42);
    let mut c2 = make_conn(81);
    c2.pid = Some(7);
    let c3 = make_conn(82);
    let mut conns = vec![c1, c2, c3];
    let owners = vec![
        ("aaa".to_string(), vec![1, 42]),
        ("bbb".to_string(), vec![42]),
    ];
    resolve_container_connections(&mut conns, &owners);
    assert_eq!(conns[0].container_id.as_deref(), Some("aaa"));
    assert_eq!(conns[1].container_id, None);
    assert_eq!(conns[2].container_id, None);
    assert_eq!(conns[0].remote_port, 80);
}

#[test]
fn analyze_attributes_then_groups() {
    let engine = NetworkIntelligenceEngine::new();
    let mut c1 = make_conn(443);
    c1.pid = Some(5);
    let owners = vec![("web".to_string(), vec![5])];
    let analysis = engine.analyze(vec![c1, make_conn(443)], &owners, vec![]);
    assert_eq!(analysis.connections[0].container_id.as_deref(), Some("web"));
    assert_eq!(analysis.flows.len(), 1);
    assert_eq!(analysis.flows[0].connection_count, 2);
    assert_eq!(engine.classify_flows(&analysis.connections).len(), 1);
}
