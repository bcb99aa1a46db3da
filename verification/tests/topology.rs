use monitaur::discovery::classify_image;
use monitaur::clustering::NodeClusterer;
use monitaur::models::{
    Edge, ExposureState, Health, InfraGraph, NetworkNode, NetworkNodeKind, RelationType, Service,
    ServiceClass, ServiceType,
};
use monitaur::topology::{classify_layer, TopologyGenerator};

fn svc(id: &str, class: ServiceClass, exposure: ExposureState, networks: &[&str]) -> Service {
    Service {
        id: id.to_string(),
        name: format!("{id}-name"),
        image: Some(format!("{id}:latest")),
        service_type: ServiceType::Container,
        class,
        ports: vec![],
        networks: networks.iter().map(|n| n.to_string()).collect(),
        health: Health::Healthy,
        status: "running".to_string(),
        labels: vec![],
        exposure_state: exposure,
    }
}

fn graph() -> InfraGraph {
    InfraGraph {
        services: vec![
            svc("proxy", ServiceClass::ReverseProxy, ExposureState::Exposed, &["front"]),
            svc("pg", ServiceClass::Database, ExposureState::Internal, &["back"]),
            svc("redis", ServiceClass::Cache, ExposureState::Internal, &["back", "front"]),
        ],
        network_nodes: vec![NetworkNode {
            id: "docker-net:back".to_string(),
            kind: NetworkNodeKind::InternalService,
            addresses: vec![],
        }],
        edges: vec![
            Edge {
                source_id: "proxy".to_string(),
                target_id: "pg".to_string(),
                relation: RelationType::ConnectsTo,
            },
            Edge {
                source_id: "proxy".to_string(),
                target_id: "nowhere".to_string(),
                relation: RelationType::DependsOn,
            },
        ],
    }
}

#[test]
fn layers_by_class() {
    assert_eq!(classify_layer(&ServiceClass::ReverseProxy), 1);
    assert_eq!(classify_layer(&ServiceClass::WebApp), 2);
    assert_eq!(classify_layer(&ServiceClass::Messaging), 3);
    assert_eq!(classify_layer(&ServiceClass::Cache), 4);
    assert_eq!(classify_layer(&ServiceClass::Monitoring), 5);
}

#[test]
fn generate_places_nodes_in_layer_rows() {
    let t = TopologyGenerator::new().generate(&graph());
    let pos: Vec<(&str, usize, i64, i64)> =
        t.nodes.iter().map(|n| (n.id.as_str(), n.layer, n.x, n.y)).collect();
    assert_eq!(
        pos,
        vec![
            ("proxy", 1, 0, 200),
            ("pg", 4, -100, 650),
            ("redis", 4, 100, 650),
            ("docker-net:back", 6, -200, 950),
        ]
    );
    assert_eq!(t.nodes[0].group, "layer_1");
    assert_eq!(t.nodes[0].node_type, "ReverseProxy");
    assert_eq!(
        t.nodes[0].metadata,
        vec![
            ("status".to_string(), "running".to_string()),
            ("health".to_string(), "Healthy".to_string()),
            ("exposure".to_string(), "Exposed".to_string()),
            ("image".to_string(), "proxy:latest".to_string()),
        ]
    );
    assert_eq!(t.nodes[3].node_type, "InternalService");
    assert_eq!(
        t.layers,
        vec!["Internet", "Reverse Proxy", "Web App", "Worker / API", "Data Store", "Infrastructure"]
    );
}

#[test]
fn generate_draws_only_edges_between_drawn_nodes() {
    let t = TopologyGenerator::new().generate(&graph());
    assert_eq!(t.edges.len(), 1);
    let e = &t.edges[0];
    assert_eq!(e.id, "e_proxy_pg");
    assert_eq!(e.label, "ConnectsTo");
    assert_eq!(e.edge_type, "ConnectsTo");
    assert_eq!(e.width_tenths, 15);
    for e in &t.edges {
        assert!(t.nodes.iter().any(|n| n.id == e.source));
        assert!(t.nodes.iter().any(|n| n.id == e.target));
    }
}

#[test]
fn generate_groups_every_node_by_layer() {
    let t = TopologyGenerator::new().generate(&graph());
    let groups: Vec<(&str, &str, Vec<&str>)> = t
        .groups
        .iter()
        .map(|g| (g.id.as_str(), g.label.as_str(), g.node_ids.iter().map(|s| s.as_str()).collect()))
        .collect();
    assert_eq!(
        groups,
        vec![
            ("layer_1", "Reverse Proxy", vec!["proxy"]),
            ("layer_4", "Data Store", vec!["pg", "redis"]),
            ("layer_6", "Unknown", vec!["docker-net:back"]),
        ]
    );
}

#[test]
fn exposure_clusters_split_services() {
    let groups = NodeClusterer::new().cluster_by_exposure(&graph());
    assert_eq!(groups.len(), 2);
    assert_eq!(groups[0].id, "exposure_exposed");
    assert_eq!(groups[0].node_ids, vec!["proxy".to_string()]);
    assert_eq!(groups[1].id, "exposure_internal");
    assert_eq!(groups[1].node_ids, vec!["pg".to_string(), "redis".to_string()]);
    assert_eq!(groups[0].node_ids.len() + groups[1].node_ids.len(), 3);
}

#[test]
fn class_and_network_clusters() {
    let by_class = NodeClusterer::new().cluster_by_class(&graph());
    let ids: Vec<&str> = by_class.iter().map(|g| g.id.as_str()).collect();
    assert_eq!(ids.len(), 3);
    let by_net = NodeClusterer::new().cluster_by_network(&graph());
    let nets: Vec<(&str, Vec<&str>)> = by_net
        .iter()
        .map(|g| (g.label.as_str(), g.node_ids.iter().map(|s| s.as_str()).collect()))
        .collect();
    assert_eq!(nets, vec![("Network: front", vec!["proxy", "redis"]), ("Network: back", vec!["pg", "redis"])]);
}

#[test]
fn ascii_images_are_classified_case_insensitively() {
    assert_eq!(classify_image("POSTGRES:16-alpine"), ServiceClass::Database);
    assert_eq!(classify_image("Nginx"), ServiceClass::ReverseProxy);
}
