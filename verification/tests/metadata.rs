use monitaur::metadata::{cache_is_fresh, EntityCache, MetadataEngine, ServiceIndex, SnapshotManager};
use monitaur::models::{
    Edge, ExposureState, Health, InfraGraph, Port, Protocol, RelationType, Service, ServiceClass,
    ServiceType,
};

fn svc(id: &str, name: &str, port: u16, exposed: bool) -> Service {
    Service {
        id: id.to_string(),
        name: name.to_string(),
        image: None,
        service_type: ServiceType::Container,
        class: ServiceClass::WebApp,
        ports: vec![Port { port, protocol: Protocol::Tcp, exposed }],
        networks: vec!["bridge".to_string()],
        health: Health::Healthy,
        status: "running".to_string(),
        labels: vec![],
        exposure_state: if exposed { ExposureState::Exposed } else { ExposureState::Internal },
    }
}

fn graph(services: Vec<Service>) -> InfraGraph {
    InfraGraph {
        services,
        network_nodes: vec![],
        edges: vec![Edge {
            source_id: "a".to_string(),
            target_id: "b".to_string(),
            relation: RelationType::DependsOn,
        }],
    }
}

#[test]
fn cache_gives_back_what_was_set() {
    let mut cache = EntityCache::new();
    assert!(cache.is_empty());
    assert!(cache.get().is_none());
    cache.set(graph(vec![svc("a", "alpha", 80, true)]));
    let g = cache.get().unwrap();
    assert_eq!(g.services[0].id, "a");
    assert_eq!(cache.service_count(), 1);
    assert_eq!(cache.edge_count(), 1);
    assert_eq!(cache.services().len(), 1);
    cache.clear();
    assert!(cache.is_empty());
    assert_eq!(cache.service_count(), 0);
}

#[test]
fn index_lookups() {
    let mut index = ServiceIndex::new();
    index.rebuild(&vec![
        svc("a", "alpha", 80, true),
        svc("b", "beta", 5432, false),
        svc("a", "alpha-2", 8080, true),
    ]);
    assert_eq!(index.by_id("a").unwrap().name, "alpha-2");
    assert!(index.by_id("zzz").is_none());
    assert_eq!(index.by_name("beta").len(), 1);
    assert_eq!(index.by_port(5432).len(), 1);
    assert_eq!(index.by_network("bridge").len(), 3);
    assert_eq!(index.exposed_services().len(), 2);
    assert_eq!(index.all_ids(), vec!["a".to_string(), "b".to_string()]);
    assert_eq!(index.count(), 2);
    assert_eq!(index.by_class(&ServiceClass::WebApp).len(), 3);
    assert_eq!(index.by_type(&ServiceType::Process).len(), 0);
}

#[test]
fn snapshot_histories_are_bounded() {
    let mut m: SnapshotManager<u32> = SnapshotManager::with_capacity(2);
    m.push_metrics(1);
    m.push_metrics(2);
    m.push_metrics(3);
    assert_eq!(m.metrics_count(), 2);
    assert_eq!(m.latest_metrics(), Some(&3));
    assert_eq!(m.all_metrics().iter().copied().collect::<Vec<u32>>(), vec![2, 3]);
    m.push_infra(graph(vec![]));
    assert_eq!(m.infra_count(), 1);
    assert!(m.latest_infra().is_some());
    let d: SnapshotManager<u32> = SnapshotManager::new();
    assert_eq!(d.metrics_count(), 0);
}

#[test]
fn engine_status_after_update_and_snapshots() {
    let mut engine: MetadataEngine<u32> = MetadataEngine::with_snapshot_capacity(3);
    engine.snapshot_infra();
    assert_eq!(engine.status().infra_snapshots, 0);
    engine.update(graph(vec![svc("a", "alpha", 80, true), svc("a", "again", 81, false)]));
    engine.snapshot_infra();
    engine.snapshot_metrics(7);
    let st = engine.status();
    assert_eq!(st.services, 2);
    assert_eq!(st.edges, 1);
    assert_eq!(st.indexed, 1);
    assert_eq!(st.infra_snapshots, 1);
    assert_eq!(st.metrics_snapshots, 1);
}

#[test]
fn cached_graph_is_fresh_for_thirty_seconds() {
    assert!(cache_is_fresh(0));
    assert!(cache_is_fresh(29));
    assert!(!cache_is_fresh(30));
}

#[test]
fn defaults_are_empty() {
    let e: MetadataEngine<u32> = Default::default();
    assert_eq!(e.status().services, 0);
    assert_eq!(e.status().infra_snapshots, 0);
    let i = ServiceIndex::default();
    assert_eq!(i.count(), 0);
    let m: SnapshotManager<u32> = Default::default();
    assert_eq!(m.metrics_count(), 0);
    assert_eq!(monitaur::monitoring::MonitoringEngine::default().poll_interval(), 5);
}

#[test]
fn count_is_number_of_distinct_ids() {
    let mut index = ServiceIndex::new();
    index.rebuild(&vec![svc("a", "x", 1, true), svc("b", "y", 2, true), svc("a", "z", 3, false)]);
    assert_eq!(index.count(), 2);
    index.rebuild(&vec![svc("a", "x", 1, true), svc("b", "y", 2, true)]);
    assert_eq!(index.count(), 2);
}
