use monitaur::discovery::{
    classify_image, dedup_ports, ContainerInfo, DiscoveryEngine, DockerDiscoverer, InterfaceEntry,
    NetworkDiscoverer, NetworkInfo, PortMapping, PortType,
};
use monitaur::models::{
    ExposureState, Health, NetworkNode, NetworkNodeKind, Protocol, RelationType, Service,
    ServiceClass, ServiceType,
};

fn make_port(public: Option<u16>, private: u16, proto: &str) -> PortMapping {
    PortMapping {
        private_port: private,
        public_port: public,
        typ: Some(match proto {
            "udp" => PortType::Udp,
            _ => PortType::Tcp,
        }),
    }
}

#[test]
fn test_dedup_ports() {
    let ports = vec![
        make_port(Some(8080), 80, "tcp"),
        make_port(Some(8080), 80, "tcp"),
        make_port(Some(8443), 443, "tcp"),
        make_port(None, 5432, "tcp"),
    ];

    let deduped = dedup_ports(&ports);
    assert_eq!(deduped.len(), 3);
}

#[test]
fn test_dedup_ports_no_public() {
    let ports = vec![
        make_port(None, 80, "tcp"),
        make_port(None, 80, "tcp"),
        make_port(None, 443, "tcp"),
    ];

    let deduped = dedup_ports(&ports);
    assert_eq!(deduped.len(), 2);
}

#[test]
fn test_classify_image_database() {
    assert_eq!(classify_image("postgres:16-alpine"), ServiceClass::Database);
    assert_eq!(classify_image("redis:7-alpine"), ServiceClass::Database);
    assert_eq!(classify_image("mysql:8"), ServiceClass::Database);
}

#[test]
fn test_classify_image_reverse_proxy() {
    assert_eq!(classify_image("nginx:latest"), ServiceClass::ReverseProxy);
    assert_eq!(classify_image("traefik:v3"), ServiceClass::ReverseProxy);
    assert_eq!(classify_image("caddy:alpine"), ServiceClass::ReverseProxy);
}

#[test]
fn test_classify_image_messaging() {
    assert_eq!(classify_image("rabbitmq:3"), ServiceClass::Messaging);
    assert_eq!(classify_image("kafka:latest"), ServiceClass::Messaging);
}

#[test]
fn test_classify_image_monitoring() {
    assert_eq!(classify_image("prom/prometheus"), ServiceClass::Monitoring);
    assert_eq!(classify_image("grafana/grafana"), ServiceClass::Monitoring);
}

#[test]
fn test_classify_image_worker() {
    assert_eq!(classify_image("myapp-worker:latest"), ServiceClass::Worker);
}

#[test]
fn test_classify_image_unknown() {
    assert_eq!(classify_image("ubuntu:latest"), ServiceClass::Unknown);
}

#[test]
fn test_dedup_with_protocol_separation() {
    let ports = vec![make_port(Some(53), 53, "tcp"), make_port(Some(53), 53, "udp")];

    let deduped = dedup_ports(&ports);
    assert_eq!(deduped.len(), 2);
}

// ---------------------------------------------------------------------------

#[test]
fn classify_image_is_case_insensitive_and_proxy_first() {
    assert_eq!(classify_image("NGINX:1.25"), ServiceClass::ReverseProxy);
    // "nginx" wins over "redis" because proxies are checked first.
    assert_eq!(classify_image("nginx-redis-sidecar"), ServiceClass::ReverseProxy);
    assert_eq!(classify_image("celery-beat"), ServiceClass::Worker);
    assert_eq!(classify_image(""), ServiceClass::Unknown);
}

#[test]
fn dedup_keeps_first_mapping_and_its_fields() {
    let ports = vec![
        make_port(None, 9000, "tcp"),
        make_port(Some(9000), 1234, "tcp"),
        make_port(Some(7000), 70, "udp"),
    ];
    let deduped = dedup_ports(&ports);
    assert_eq!(deduped.len(), 2);
    assert_eq!(deduped[0].port, 9000);
    assert!(!deduped[0].exposed);
    assert_eq!(deduped[1].port, 7000);
    assert_eq!(deduped[1].protocol, Protocol::Udp);
    assert!(deduped[1].exposed);
}

fn container(id: &str, names: Option<Vec<&str>>, image: &str, state: &str) -> ContainerInfo {
    ContainerInfo {
        id: Some(id.to_string()),
        names: names.map(|v| v.into_iter().map(|s| s.to_string()).collect()),
        image: Some(image.to_string()),
        state: Some(state.to_string()),
        ports: Some(vec![make_port(Some(8080), 80, "tcp"), make_port(None, 443, "tcp")]),
        labels: Some(vec![("tier".to_string(), "front".to_string())]),
        networks: Some(vec!["bridge".to_string()]),
    }
}

#[test]
fn container_to_service_reads_name_health_and_exposure() {
    let c = container("abc123", Some(vec!["//web"]), "nginx:latest", "running");
    let s = DockerDiscoverer::container_to_service(&c);
    assert_eq!(s.id, "abc123");
    assert_eq!(s.name, "web");
    assert_eq!(s.image.as_deref(), Some("nginx:latest"));
    assert_eq!(s.class, ServiceClass::ReverseProxy);
    assert_eq!(s.health, Health::Healthy);
    assert_eq!(s.status, "running");
    assert_eq!(s.service_type, ServiceType::Container);
    assert_eq!(s.exposure_state, ExposureState::Exposed);
    assert_eq!(s.ports.len(), 2);
    assert_eq!(s.networks, vec!["bridge".to_string()]);
    assert_eq!(s.labels.len(), 1);

    let paused = DockerDiscoverer::container_to_service(&container("p", None, "x", "paused"));
    assert_eq!(paused.name, "p");
    assert_eq!(paused.health, Health::Degraded);
    let dead = DockerDiscoverer::container_to_service(&container("d", Some(vec![]), "x", "dead"));
    assert_eq!(dead.name, "d");
    assert_eq!(dead.health, Health::Unhealthy);
    let odd = DockerDiscoverer::container_to_service(&container("o", None, "x", "created"));
    assert_eq!(odd.health, Health::Unknown);
}

#[test]
fn container_without_fields_is_internal_with_empty_image() {
    let c = ContainerInfo {
        id: None,
        names: None,
        image: None,
        state: None,
        ports: None,
        labels: None,
        networks: None,
    };
    let s = DockerDiscoverer::container_to_service(&c);
    assert_eq!(s.id, "");
    assert_eq!(s.name, "");
    assert_eq!(s.image.as_deref(), Some(""));
    assert_eq!(s.exposure_state, ExposureState::Internal);
    assert_eq!(s.health, Health::Unknown);
}

fn service(id: &str, nets: Vec<&str>, ports: Vec<(u16, bool)>) -> Service {
    Service {
        id: id.to_string(),
        name: id.to_string(),
        image: None,
        service_type: ServiceType::Container,
        class: ServiceClass::Unknown,
        ports: ports
            .into_iter()
            .map(|(p, e)| monitaur::models::Port { port: p, protocol: Protocol::Tcp, exposed: e })
            .collect(),
        networks: nets.into_iter().map(|s| s.to_string()).collect(),
        health: Health::Unknown,
        status: String::new(),
        labels: vec![],
        exposure_state: ExposureState::Internal,
    }
}

#[test]
fn build_edges_links_networks_then_exposed_ports() {
    let d = DockerDiscoverer::new();
    let services = vec![service("a", vec!["front", "back"], vec![(8080, true), (5432, false)])];
    let edges = d.build_edges(&services).ok().unwrap();
    assert_eq!(edges.len(), 3);
    assert_eq!(edges[0].target_id, "docker-net:front");
    assert_eq!(edges[0].relation, RelationType::ConnectsTo);
    assert_eq!(edges[1].target_id, "docker-net:back");
    assert_eq!(edges[2].target_id, "host:8080");
    assert_eq!(edges[2].relation, RelationType::Exposes);
    assert_eq!(edges[2].source_id, "a");
}

#[test]
fn enumerate_networks_drops_unnamed() {
    let d = DockerDiscoverer::new();
    let nets = vec![
        NetworkInfo { name: Some("bridge".to_string()), containers: Some(vec!["c1".to_string()]) },
        NetworkInfo { name: None, containers: None },
        NetworkInfo { name: Some("host".to_string()), containers: None },
    ];
    let r = d.enumerate_networks(&nets);
    assert_eq!(r.len(), 2);
    assert_eq!(r[0], ("bridge".to_string(), vec!["c1".to_string()]));
    assert_eq!(r[1], ("host".to_string(), vec![]));
}

#[test]
fn discover_assembles_graph() {
    let engine = DiscoveryEngine::new();
    let containers = vec![container("c1", Some(vec!["/api"]), "myapp-worker", "running")];
    let iface = vec![NetworkNode {
        id: "iface:eth0".to_string(),
        kind: NetworkNodeKind::InternalService,
        addresses: vec![],
    }];
    let nets = vec![NetworkInfo { name: Some("bridge".to_string()), containers: None }];
    let g = engine.discover(&containers, iface, &nets);
    assert_eq!(g.services.len(), 1);
    assert_eq!(g.services[0].class, ServiceClass::Worker);
    assert_eq!(g.network_nodes.len(), 2);
    assert_eq!(g.network_nodes[1].id, "docker-net:bridge");
    assert_eq!(g.edges.len(), 2);
}

#[test]
fn interfaces_skip_loopback_and_trim_mac() {
    let d = NetworkDiscoverer::new();
    let entries = vec![
        InterfaceEntry { name: "lo".to_string(), address: Some("00:00:00:00:00:00\n".to_string()) },
        InterfaceEntry { name: "eth0".to_string(), address: Some(" 02:42:ac:11:00:02\n".to_string()) },
        InterfaceEntry { name: "tun0".to_string(), address: Some("\n".to_string()) },
        InterfaceEntry { name: "wg0".to_string(), address: None },
    ];
    let nodes = d.discover_interfaces(&entries);
    assert_eq!(nodes.len(), 3);
    assert_eq!(nodes[0].id, "iface:eth0");
    assert_eq!(nodes[0].addresses, vec!["mac:02:42:ac:11:00:02".to_string()]);
    assert!(nodes[1].addresses.is_empty());
    assert!(nodes[2].addresses.is_empty());
}
