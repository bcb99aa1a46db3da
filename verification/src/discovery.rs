//! Infrastructure discovery: turning what the container runtime and the
//! kernel report into services, network nodes and edges.

use vstd::prelude::*;

use crate::error::EngineResult;
use crate::models::{
    clone_pairs, clone_strings, edges_view, services_view, strs, Edge, EdgeView, ExposureState,
    Health, InfraGraph, InfraGraphView, NetworkNode, NetworkNodeKind, NetworkNodeView, Port, Protocol,
    RelationType, Service, ServiceClass, ServiceType, ServiceView,
};
use crate::text::{
    all_ascii, ascii_lower_char, chars_of, contains_chars, contains_seq, decimal, owned, str_eq, string_from_chars, to_lowercase,
    trim, trimmed, u64_to_decimal, unicode_lowercase,
};

verus! {

// ---------------------------------------------------------------------------
// Image classification
// ---------------------------------------------------------------------------

/// Image name fragments that mark a reverse proxy.
pub open spec fn proxy_images() -> Seq<&'static str> {
    seq!["nginx", "traefik", "caddy", "haproxy", "envoy", "httpd", "apache", "kong", "ambassador", "socat"]
}

/// Image name fragments that mark a database.
pub open spec fn database_images() -> Seq<&'static str> {
    seq![
        "postgres", "mysql", "mariadb", "mongo", "redis", "cassandra", "cockroachdb", "sqlite",
        "couchdb", "neo4j", "influxdb", "timescaledb",
    ]
}

/// Image name fragments that mark a message broker.
pub open spec fn messaging_images() -> Seq<&'static str> {
    seq!["rabbitmq", "kafka", "nats", "pulsar", "mosquitto", "emqx", "vernemq"]
}

/// Image name fragments that mark a background worker.
pub open spec fn worker_images() -> Seq<&'static str> {
    seq!["worker", "celery"]
}

/// Image name fragments that mark a monitoring service.
pub open spec fn monitoring_images() -> Seq<&'static str> {
    seq!["prometheus", "grafana", "datadog", "statsd"]
}

/// Some fragment of `names` occurs in `hay`.
pub open spec fn contains_any(hay: Seq<char>, names: Seq<&'static str>) -> bool {
    exists|i: int| 0 <= i < names.len() && contains_seq(hay, names[i]@)
}

/// The class of an image, given its lower-cased name: the first group, in the
/// order proxy, database, messaging, worker, monitoring, that has a fragment
/// occurring in the name.
pub open spec fn class_of_lowered(lower: Seq<char>) -> ServiceClass {
    if contains_any(lower, proxy_images()) {
        ServiceClass::ReverseProxy
    } else if contains_any(lower, database_images()) {
        ServiceClass::Database
    } else if contains_any(lower, messaging_images()) {
        ServiceClass::Messaging
    } else if contains_any(lower, worker_images()) {
        ServiceClass::Worker
    } else if contains_any(lower, monitoring_images()) {
        ServiceClass::Monitoring
    } else {
        ServiceClass::Unknown
    }
}

/// The class of an image name.
pub open spec fn image_class(image: Seq<char>) -> ServiceClass {
    class_of_lowered(unicode_lowercase(image))
}

fn any_contains(hay: &Vec<char>, names: &Vec<&'static str>) -> (b: bool)
    ensures
        b == contains_any(hay@, names@),
{
    let mut i: usize = 0;
    while i < names.len()
        invariant
            i <= names@.len(),
            forall|k: int| 0 <= k < i ==> !contains_seq(hay@, #[trigger] names@[k]@),
        decreases names@.len() - i,
    {
        let needle = chars_of(names[i]);
        if contains_chars(hay, &needle) {
            return true;
        }
        i = i + 1;
    }
    false
}

/// Infers the class of a service from its image name.
pub fn classify_image(image: &str) -> (c: ServiceClass)
    ensures
        c == image_class(image@),
        all_ascii(image@) ==> c == class_of_lowered(
            image@.map_values(|ch: char| ascii_lower_char(ch)),
        ),
{
    let lowered = to_lowercase(image);
    let lower = chars_of(lowered.as_str());
    let proxies: Vec<&'static str> = vec![
        "nginx", "traefik", "caddy", "haproxy", "envoy", "httpd", "apache", "kong", "ambassador",
        "socat",
    ];
    assert(proxies@ == proxy_images());
    if any_contains(&lower, &proxies) {
        return ServiceClass::ReverseProxy;
    }
    let databases: Vec<&'static str> = vec![
        "postgres", "mysql", "mariadb", "mongo", "redis", "cassandra", "cockroachdb", "sqlite",
        "couchdb", "neo4j", "influxdb", "timescaledb",
    ];
    assert(databases@ == database_images());
    if any_contains(&lower, &databases) {
        return ServiceClass::Database;
    }
    let messaging: Vec<&'static str> = vec![
        "rabbitmq", "kafka", "nats", "pulsar", "mosquitto", "emqx", "vernemq",
    ];
    assert(messaging@ == messaging_images());
    if any_contains(&lower, &messaging) {
        return ServiceClass::Messaging;
    }
    let workers: Vec<&'static str> = vec!["worker", "celery"];
    assert(workers@ == worker_images());
    if any_contains(&lower, &workers) {
        return ServiceClass::Worker;
    }
    let monitoring: Vec<&'static str> = vec!["prometheus", "grafana", "datadog", "statsd"];
    assert(monitoring@ == monitoring_images());
    if any_contains(&lower, &monitoring) {
        return ServiceClass::Monitoring;
    }
    ServiceClass::Unknown
}


// ---------------------------------------------------------------------------
// Port mappings
// ---------------------------------------------------------------------------

/// The transport type the container runtime reports for a port mapping.
#[derive(Clone, Copy, Debug, PartialEq, Eq, Structural)]
pub enum PortType {
    Empty,
    Tcp,
    Udp,
    Sctp,
}

/// A port mapping as the container runtime reports it: the container port,
/// the host port it is published on (if any) and its transport type.
#[derive(Clone, Copy, Debug, PartialEq, Eq, Structural)]
pub struct PortMapping {
    pub private_port: u16,
    pub public_port: Option<u16>,
    pub typ: Option<PortType>,
}

/// The port a mapping stands for: the host port when published, else the
/// container port; UDP only when the runtime says UDP, TCP otherwise.
pub open spec fn mapped_port(p: PortMapping) -> Port {
    Port {
        port: match p.public_port {
            Some(h) => h,
            None => p.private_port,
        },
        protocol: if p.typ == Some(PortType::Udp) {
            Protocol::Udp
        } else {
            Protocol::Tcp
        },
        exposed: p.public_port is Some,
    }
}

/// Two ports are the same for de-duplication when number and protocol agree.
pub open spec fn same_key(a: Port, b: Port) -> bool {
    a.port == b.port && a.protocol == b.protocol
}

/// The mapped ports in order, keeping only the first of each number/protocol key.
pub open spec fn dedup_spec(ps: Seq<PortMapping>) -> Seq<Port>
    decreases ps.len(),
{
    if ps.len() == 0 {
        Seq::empty()
    } else {
        let prev = dedup_spec(ps.drop_last());
        let p = mapped_port(ps.last());
        if exists|j: int| 0 <= j < ps.len() - 1 && same_key(mapped_port(ps[j]), p) {
            prev
        } else {
            prev.push(p)
        }
    }
}

fn map_port(p: &PortMapping) -> (r: Port)
    ensures
        r == mapped_port(*p),
{
    Port {
        port: match p.public_port {
            Some(h) => h,
            None => p.private_port,
        },
        protocol: if p.typ == Some(PortType::Udp) {
            Protocol::Udp
        } else {
            Protocol::Tcp
        },
        exposed: p.public_port.is_some(),
    }
}

/// Some port of `s` has the key of `p`.
pub open spec fn has_key(s: Seq<Port>, p: Port) -> bool {
    exists|k: int| 0 <= k < s.len() && same_key(s[k], p)
}

/// Keys of `dedup_spec(ps)` are pairwise distinct, every mapping's key is
/// kept, and every kept port is the mapping of some input.
pub proof fn lemma_dedup_props(ps: Seq<PortMapping>)
    ensures
        forall|i: int, j: int|
            0 <= i < j < dedup_spec(ps).len() ==> !same_key(dedup_spec(ps)[i], dedup_spec(ps)[j]),
        forall|j: int| 0 <= j < ps.len() ==> has_key(dedup_spec(ps), mapped_port(#[trigger] ps[j])),
        forall|k: int|
            #![trigger dedup_spec(ps)[k]]
            0 <= k < dedup_spec(ps).len() ==> exists|j: int|
                0 <= j < ps.len() && dedup_spec(ps)[k] == mapped_port(#[trigger] ps[j]),
    decreases ps.len(),
{
    if ps.len() > 0 {
        let init = ps.drop_last();
        lemma_dedup_props(init);
        let prev = dedup_spec(init);
        let p = mapped_port(ps.last());
        let d = dedup_spec(ps);
        assert forall|j: int| 0 <= j < init.len() implies ps[j] == init[j] by {}
        if exists|j: int| 0 <= j < ps.len() - 1 && same_key(mapped_port(ps[j]), p) {
            assert(d == prev);
            assert forall|j: int| 0 <= j < ps.len() implies has_key(d, mapped_port(#[trigger] ps[j])) by {
                if j == ps.len() - 1 {
                    let j0 = choose|j0: int| 0 <= j0 < ps.len() - 1 && same_key(mapped_port(ps[j0]), p);
                    assert(has_key(prev, mapped_port(init[j0])));
                    let k = choose|k: int| 0 <= k < prev.len() && same_key(prev[k], mapped_port(init[j0]));
                    assert(same_key(d[k], mapped_port(ps[j])));
                } else {
                    assert(has_key(prev, mapped_port(init[j])));
                }
            }
            assert forall|k: int| #![trigger d[k]] 0 <= k < d.len() implies exists|j: int|
                0 <= j < ps.len() && d[k] == mapped_port(#[trigger] ps[j]) by {
                let j = choose|j: int| 0 <= j < init.len() && prev[k] == mapped_port(#[trigger] init[j]);
                assert(ps[j] == init[j]);
            }
        } else {
            assert(d == prev.push(p));
            assert forall|a: int, b: int| 0 <= a < b < d.len() implies !same_key(d[a], d[b]) by {
                if b == d.len() - 1 {
                    let j = choose|j: int| 0 <= j < init.len() && prev[a] == mapped_port(#[trigger] init[j]);
                    assert(ps[j] == init[j]);
                }
            }
            assert forall|j: int| 0 <= j < ps.len() implies has_key(d, mapped_port(#[trigger] ps[j])) by {
                if j == ps.len() - 1 {
                    assert(same_key(d[d.len() - 1], mapped_port(ps[j])));
                } else {
                    assert(has_key(prev, mapped_port(init[j])));
                    let k = choose|k: int| 0 <= k < prev.len() && same_key(prev[k], mapped_port(init[j]));
                    assert(d[k] == prev[k]);
                }
            }
            assert forall|k: int| #![trigger d[k]] 0 <= k < d.len() implies exists|j: int|
                0 <= j < ps.len() && d[k] == mapped_port(#[trigger] ps[j]) by {
                if k == d.len() - 1 {
                    assert(d[k] == mapped_port(ps[ps.len() - 1]));
                } else {
                    let j = choose|j: int| 0 <= j < init.len() && prev[k] == mapped_port(#[trigger] init[j]);
                    assert(ps[j] == init[j]);
                }
            }
        }
    }
}

/// Converts port mappings to ports, dropping every mapping whose host (or
/// container) port and protocol were already seen.
pub fn dedup_ports(ports: &Vec<PortMapping>) -> (r: Vec<Port>)
    ensures
        r@ == dedup_spec(ports@),
        forall|i: int, j: int| 0 <= i < j < r@.len() ==> !same_key(r@[i], r@[j]),
        forall|j: int| 0 <= j < ports@.len() ==> has_key(r@, mapped_port(#[trigger] ports@[j])),
        forall|k: int|
            #![trigger r@[k]]
            0 <= k < r@.len() ==> exists|j: int|
                0 <= j < ports@.len() && r@[k] == mapped_port(#[trigger] ports@[j]),
{
    let mut out: Vec<Port> = Vec::new();
    let mut i: usize = 0;
    while i < ports.len()
        invariant
            i <= ports@.len(),
            out@ == dedup_spec(ports@.subrange(0, i as int)),
        decreases ports@.len() - i,
    {
        let p = map_port(&ports[i]);
        let ghost pre = ports@.subrange(0, i + 1);
        assert(pre.drop_last() =~= ports@.subrange(0, i as int));
        let mut seen = false;
        let mut k: usize = 0;
        while k < i
            invariant
                k <= i < ports@.len(),
                p == mapped_port(ports@[i as int]),
                seen == exists|x: int| 0 <= x < k && same_key(mapped_port(ports@[x]), p),
            decreases i - k,
        {
            let q = map_port(&ports[k]);
            if q.port == p.port && q.protocol == p.protocol {
                seen = true;
            }
            k = k + 1;
        }
        proof {
            assert forall|x: int| 0 <= x < i implies pre[x] == ports@[x] by {}
            if seen {
                let x = choose|x: int| 0 <= x < i && same_key(mapped_port(ports@[x]), p);
                assert(same_key(mapped_port(pre[x]), mapped_port(pre.last())));
            }
        }
        if !seen {
            out.push(p);
        }
        i = i + 1;
    }
    assert(ports@.subrange(0, ports@.len() as int) =~= ports@);
    proof {
        lemma_dedup_props(ports@);
    }
    out
}

// ---------------------------------------------------------------------------
// Containers
// ---------------------------------------------------------------------------

/// What the container runtime reports of one container, as plain values:
/// its id, names, image, state, port mappings, labels and the names of the
/// networks it is attached to.
#[derive(Clone, Debug)]
pub struct ContainerInfo {
    pub id: Option<String>,
    pub names: Option<Vec<String>>,
    pub image: Option<String>,
    pub state: Option<String>,
    pub ports: Option<Vec<PortMapping>>,
    pub labels: Option<Vec<(String, String)>>,
    pub networks: Option<Vec<String>>,
}

/// `s` without its leading `/` characters.
pub open spec fn strip_slashes(s: Seq<char>) -> Seq<char>
    decreases s.len(),
{
    if s.len() > 0 && s[0] == '/' {
        strip_slashes(s.drop_first())
    } else {
        s
    }
}

/// Text of an optional string, empty when absent.
pub open spec fn text_or_empty(o: Option<String>) -> Seq<char> {
    match o {
        Some(s) => s@,
        None => Seq::empty(),
    }
}

/// The display name of a container: its first name, else its id, without
/// leading slashes.
pub open spec fn container_name(c: ContainerInfo) -> Seq<char> {
    let raw = match c.names {
        Some(names) => if names@.len() > 0 {
            names@[0]@
        } else {
            text_or_empty(c.id)
        },
        None => text_or_empty(c.id),
    };
    strip_slashes(raw)
}

/// Health read from the runtime state.
pub open spec fn health_of_state(state: Seq<char>) -> Health {
    if state == "running"@ {
        Health::Healthy
    } else if state == "restarting"@ || state == "paused"@ {
        Health::Degraded
    } else if state == "exited"@ || state == "dead"@ {
        Health::Unhealthy
    } else {
        Health::Unknown
    }
}

/// A container's health follows its runtime state: `running` is healthy,
/// `restarting` and `paused` are degraded, `exited` and `dead` are
/// unhealthy, and any other state (or none) is unknown.
pub proof fn law_health_follows_state(c: ContainerInfo)
    ensures
        ({
            let h = container_view(c).health;
            let st = match c.state {
                Some(s) => s@,
                None => Seq::<char>::empty(),
            };
            &&& (h == Health::Healthy <==> st == "running"@)
            &&& (h == Health::Degraded <==> st == "restarting"@ || st == "paused"@)
            &&& (h == Health::Unhealthy <==> st == "exited"@ || st == "dead"@)
            &&& (h == Health::Unknown <==> !(st == "running"@ || st == "restarting"@ || st
                == "paused"@ || st == "exited"@ || st == "dead"@))
        }),
{
    reveal_strlit("running");
    reveal_strlit("restarting");
    reveal_strlit("paused");
    reveal_strlit("exited");
    reveal_strlit("dead");
    let r = "running"@;
    let rs = "restarting"@;
    let p = "paused"@;
    let e = "exited"@;
    let d = "dead"@;
    assert(r != rs && r != p && r != e && r != d) by {
        assert(r.len() != rs.len() && r.len() != p.len() && r.len() != e.len() && r.len() != d.len());
    }
    assert(rs != p && rs != e && rs != d) by {
        assert(rs.len() != p.len() && rs.len() != e.len() && rs.len() != d.len());
    }
    assert(p != e) by {
        assert(p[0] != e[0]);
    }
    assert(p != d && e != d) by {
        assert(p.len() != d.len() && e.len() != d.len());
    }
}

/// Some port is published on the host.
pub open spec fn any_exposed(ports: Seq<Port>) -> bool {
    exists|i: int| 0 <= i < ports.len() && ports[i].exposed
}

/// The port mappings of a container, none when absent.
pub open spec fn mappings_of(c: ContainerInfo) -> Seq<PortMapping> {
    match c.ports {
        Some(p) => p@,
        None => Seq::empty(),
    }
}

/// The service a container stands for.
pub open spec fn container_view(c: ContainerInfo) -> ServiceView {
    let ports = dedup_spec(mappings_of(c));
    ServiceView {
        id: text_or_empty(c.id),
        name: container_name(c),
        image: Some(text_or_empty(c.image)),
        service_type: ServiceType::Container,
        class: image_class(text_or_empty(c.image)),
        ports: ports,
        networks: match c.networks {
            Some(n) => strs(n@),
            None => Seq::empty(),
        },
        health: health_of_state(text_or_empty(c.state)),
        status: text_or_empty(c.state),
        labels: match c.labels {
            Some(l) => crate::models::pairs(l@),
            None => Seq::empty(),
        },
        exposure_state: if any_exposed(ports) {
            ExposureState::Exposed
        } else {
            ExposureState::Internal
        },
    }
}

fn string_or_empty(o: &Option<String>) -> (r: String)
    ensures
        r@ == text_or_empty(*o),
{
    match o {
        Some(s) => s.clone(),
        None => String::new(),
    }
}

/// Removes every leading `/`, as `trim_start_matches('/')` does.
pub fn strip_leading_slashes(s: &str) -> (r: String)
    ensures
        r@ == strip_slashes(s@),
{
    let v = chars_of(s);
    let mut i: usize = 0;
    assert(s@.subrange(0, s@.len() as int) =~= s@);
    while i < v.len() && v[i] == '/'
        invariant
            v@ == s@,
            i <= v@.len(),
            strip_slashes(s@) == strip_slashes(s@.subrange(i as int, s@.len() as int)),
        decreases v@.len() - i,
    {
        let ghost rest = s@.subrange(i as int, s@.len() as int);
        assert(rest.drop_first() =~= s@.subrange(i + 1, s@.len() as int));
        i = i + 1;
    }
    assert(s@.subrange(0, s@.len() as int) =~= s@);
    string_from_chars(&v, i, v.len())
}

fn health_from_state(state: &str) -> (h: Health)
    ensures
        h == health_of_state(state@),
{
    if str_eq(state, "running") {
        Health::Healthy
    } else if str_eq(state, "restarting") || str_eq(state, "paused") {
        Health::Degraded
    } else if str_eq(state, "exited") || str_eq(state, "dead") {
        Health::Unhealthy
    } else {
        Health::Unknown
    }
}

fn has_exposed(ports: &Vec<Port>) -> (b: bool)
    ensures
        b == any_exposed(ports@),
{
    let mut i: usize = 0;
    while i < ports.len()
        invariant
            i <= ports@.len(),
            forall|k: int| 0 <= k < i ==> !ports@[k].exposed,
        decreases ports@.len() - i,
    {
        if ports[i].exposed {
            return true;
        }
        i = i + 1;
    }
    false
}

/// What the container runtime reports of one network: its name and the ids
/// of the containers attached to it.
#[derive(Clone, Debug)]
pub struct NetworkInfo {
    pub name: Option<String>,
    pub containers: Option<Vec<String>>,
}

/// The named networks, each with the ids of its containers (none when the
/// runtime gave no list); networks without a name are dropped.
pub open spec fn named_networks(ns: Seq<NetworkInfo>) -> Seq<(Seq<char>, Seq<Seq<char>>)>
    decreases ns.len(),
{
    if ns.len() == 0 {
        Seq::empty()
    } else {
        let prev = named_networks(ns.drop_last());
        let n = ns.last();
        match n.name {
            Some(name) => prev.push(
                (
                    name@,
                    match n.containers {
                        Some(c) => strs(c@),
                        None => Seq::empty(),
                    },
                ),
            ),
            None => prev,
        }
    }
}

/// The view of a list of named networks.
pub open spec fn network_list_view(v: Seq<(String, Vec<String>)>) -> Seq<(Seq<char>, Seq<Seq<char>>)> {
    v.map_values(|p: (String, Vec<String>)| (p.0@, strs(p.1@)))
}

/// Id of the graph node that stands for a container network.
pub open spec fn docker_net_id(name: Seq<char>) -> Seq<char> {
    "docker-net:"@ + name
}

/// Id of the graph node that stands for a host port.
pub open spec fn host_port_id(port: u16) -> Seq<char> {
    "host:"@ + decimal(port as nat)
}

/// A `ConnectsTo` edge from the service to each of its networks.
pub open spec fn network_edges(id: Seq<char>, nets: Seq<Seq<char>>) -> Seq<EdgeView> {
    nets.map_values(
        |n: Seq<char>|
            EdgeView { source_id: id, target_id: docker_net_id(n), relation: RelationType::ConnectsTo },
    )
}

/// An `Exposes` edge from the service to each of its published ports, in order.
pub open spec fn exposed_port_edges(id: Seq<char>, ports: Seq<Port>) -> Seq<EdgeView>
    decreases ports.len(),
{
    if ports.len() == 0 {
        Seq::empty()
    } else {
        let prev = exposed_port_edges(id, ports.drop_last());
        let p = ports.last();
        if p.exposed {
            prev.push(
                EdgeView { source_id: id, target_id: host_port_id(p.port), relation: RelationType::Exposes },
            )
        } else {
            prev
        }
    }
}

/// The edges of one service: network edges, then port edges.
pub open spec fn service_edges(s: ServiceView) -> Seq<EdgeView> {
    network_edges(s.id, s.networks) + exposed_port_edges(s.id, s.ports)
}

/// The edges of all services, service by service.
pub open spec fn all_service_edges(ss: Seq<ServiceView>) -> Seq<EdgeView>
    decreases ss.len(),
{
    if ss.len() == 0 {
        Seq::empty()
    } else {
        all_service_edges(ss.drop_last()) + service_edges(ss.last())
    }
}

/// The node that stands for a container network.
pub open spec fn docker_net_node(name: Seq<char>) -> NetworkNodeView {
    NetworkNodeView { id: docker_net_id(name), kind: NetworkNodeKind::InternalService, addresses: Seq::empty() }
}

/// What discovery reports for the given runtime and interface data.
pub open spec fn discovered_graph(
    containers: Seq<ContainerInfo>,
    interfaces: Seq<NetworkNodeView>,
    networks: Seq<NetworkInfo>,
) -> InfraGraphView {
    let services = containers.map_values(|c: ContainerInfo| container_view(c));
    InfraGraphView {
        services: services,
        network_nodes: interfaces + named_networks(networks).map_values(
            |n: (Seq<char>, Seq<Seq<char>>)| docker_net_node(n.0),
        ),
        edges: all_service_edges(services),
    }
}

fn docker_net_name(name: &str) -> (r: String)
    ensures
        r@ == docker_net_id(name@),
{
    let mut r = owned("docker-net:");
    r.append(name);
    r
}

/// The runtime's container discovery.
pub struct DockerDiscoverer;

impl DockerDiscoverer {
    /// A discoverer.
    pub fn new() -> Self {
        DockerDiscoverer
    }

    /// The service that a container stands for: named by its first name
    /// (or its id) without leading slashes, classified by its image, with
    /// de-duplicated ports, health read from its state, and exposed when
    /// some port is published on the host.
    pub fn container_to_service(container: &ContainerInfo) -> (s: Service)
        ensures
            s@ == container_view(*container),
    {
        let id = string_or_empty(&container.id);
        let raw_name = match &container.names {
            Some(names) => if names.len() > 0 {
                names[0].clone()
            } else {
                id.clone()
            },
            None => id.clone(),
        };
        let name = strip_leading_slashes(raw_name.as_str());
        let image = string_or_empty(&container.image);
        let state = string_or_empty(&container.state);
        let health = health_from_state(state.as_str());
        let ports = match &container.ports {
            Some(p) => dedup_ports(p),
            None => {
                let empty: Vec<PortMapping> = Vec::new();
                dedup_ports(&empty)
            },
        };
        let labels = match &container.labels {
            Some(l) => clone_pairs(l),
            None => Vec::new(),
        };
        let networks = match &container.networks {
            Some(n) => clone_strings(n),
            None => Vec::new(),
        };
        let class = classify_image(image.as_str());
        let exposure_state = if has_exposed(&ports) {
            ExposureState::Exposed
        } else {
            ExposureState::Internal
        };
        let s = Service {
            id,
            name,
            image: Some(image),
            service_type: ServiceType::Container,
            class,
            ports,
            networks,
            health,
            status: state,
            labels,
            exposure_state,
        };
        assert(s@.labels =~= container_view(*container).labels);
        assert(s@.networks =~= container_view(*container).networks);
        s
    }

    /// The services for the containers the runtime listed, one per
    /// container, in order.
    pub fn enumerate_containers(&self, containers: &Vec<ContainerInfo>) -> (r: Vec<Service>)
        ensures
            services_view(r@) == containers@.map_values(|c: ContainerInfo| container_view(c)),
    {
        let mut r: Vec<Service> = Vec::new();
        let mut i: usize = 0;
        while i < containers.len()
            invariant
                i <= containers@.len(),
                r@.len() == i,
                forall|k: int| 0 <= k < i ==> #[trigger] r@[k]@ == container_view(containers@[k]),
            decreases containers@.len() - i,
        {
            r.push(Self::container_to_service(&containers[i]));
            i = i + 1;
        }
        assert(services_view(r@) =~= containers@.map_values(|c: ContainerInfo| container_view(c)));
        r
    }

    /// The named networks the runtime listed, each with the ids of its
    /// containers; networks without a name are dropped.
    pub fn enumerate_networks(&self, networks: &Vec<NetworkInfo>) -> (r: Vec<(String, Vec<String>)>)
        ensures
            network_list_view(r@) == named_networks(networks@),
    {
        let mut r: Vec<(String, Vec<String>)> = Vec::new();
        let mut i: usize = 0;
        while i < networks.len()
            invariant
                i <= networks@.len(),
                network_list_view(r@) == named_networks(networks@.subrange(0, i as int)),
            decreases networks@.len() - i,
        {
            let ghost pre = networks@.subrange(0, i + 1);
            assert(pre.drop_last() =~= networks@.subrange(0, i as int));
            let n = &networks[i];
            match &n.name {
                Some(name) => {
                    let ids = match &n.containers {
                        Some(c) => clone_strings(c),
                        None => Vec::new(),
                    };
                    let ghost before = r@;
                    r.push((name.clone(), ids));
                    assert(network_list_view(r@) =~= network_list_view(before).push(
                        (name@, strs(ids@)),
                    ));
                    assert(strs(ids@) =~= match n.containers {
                        Some(c) => strs(c@),
                        None => Seq::<Seq<char>>::empty(),
                    });
                },
                None => {},
            }
            i = i + 1;
        }
        assert(networks@.subrange(0, networks@.len() as int) =~= networks@);
        r
    }

    /// The edges of the services: for each service, in order, a
    /// `ConnectsTo` edge to each of its networks, then an `Exposes` edge to
    /// each published port. Never fails.
    pub fn build_edges(&self, services: &Vec<Service>) -> (r: EngineResult<Vec<Edge>>)
        ensures
            r matches Ok(edges) && edges_view(edges@) == all_service_edges(services_view(services@)),
    {
        let mut edges: Vec<Edge> = Vec::new();
        let mut i: usize = 0;
        while i < services.len()
            invariant
                i <= services@.len(),
                edges_view(edges@) == all_service_edges(services_view(services@.subrange(0, i as int))),
            decreases services@.len() - i,
        {
            let s = &services[i];
            let ghost base = edges_view(edges@);
            let ghost pre = services_view(services@.subrange(0, i + 1));
            assert(pre.drop_last() =~= services_view(services@.subrange(0, i as int)));
            assert(pre.last() == s@);
            let mut j: usize = 0;
            while j < s.networks.len()
                invariant
                    j <= s.networks@.len(),
                    edges_view(edges@) == base + network_edges(s.id@, strs(s.networks@).subrange(0, j as int)),
                decreases s.networks@.len() - j,
            {
                let e = Edge {
                    source_id: s.id.clone(),
                    target_id: docker_net_name(s.networks[j].as_str()),
                    relation: RelationType::ConnectsTo,
                };
                let ghost before = edges@;
                edges.push(e);
                assert(edges_view(edges@) =~= edges_view(before).push(e@));
                assert(network_edges(s.id@, strs(s.networks@).subrange(0, j + 1)) =~= network_edges(
                    s.id@,
                    strs(s.networks@).subrange(0, j as int),
                ).push(e@));
                j = j + 1;
            }
            assert(strs(s.networks@).subrange(0, s.networks@.len() as int) =~= strs(s.networks@));
            let ghost mid = edges_view(edges@);
            let mut k: usize = 0;
            while k < s.ports.len()
                invariant
                    k <= s.ports@.len(),
                    edges_view(edges@) == mid + exposed_port_edges(s.id@, s.ports@.subrange(0, k as int)),
                decreases s.ports@.len() - k,
            {
                let port = s.ports[k];
                let ghost sub = s.ports@.subrange(0, k + 1);
                assert(sub.drop_last() =~= s.ports@.subrange(0, k as int));
                if port.exposed {
                    let mut target = owned("host:");
                    let digits = u64_to_decimal(port.port as u64);
                    target.append(digits.as_str());
                    let e = Edge { source_id: s.id.clone(), target_id: target, relation: RelationType::Exposes };
                    let ghost before = edges@;
                    edges.push(e);
                    assert(edges_view(edges@) =~= edges_view(before).push(e@));
                    assert(e@.target_id == host_port_id(port.port));
                }
                k = k + 1;
            }
            assert(s.ports@.subrange(0, s.ports@.len() as int) =~= s.ports@);
            assert(edges_view(edges@) =~= base + service_edges(s@));
            i = i + 1;
        }
        assert(services@.subrange(0, services@.len() as int) =~= services@);
        Ok(edges)
    }
}

/// The engine that assembles the infrastructure graph.
pub struct DiscoveryEngine;

impl DiscoveryEngine {
    /// An engine.
    pub fn new() -> Self {
        DiscoveryEngine
    }

    /// Assembles the graph from what the runtime and the kernel reported:
    /// a service per container; the host's interface nodes followed by a
    /// node per named container network; the edges of the services.
    pub fn discover(
        &self,
        containers: &Vec<ContainerInfo>,
        interfaces: Vec<NetworkNode>,
        networks: &Vec<NetworkInfo>,
    ) -> (g: InfraGraph)
        ensures
            g@ == discovered_graph(containers@, crate::models::nodes_view(interfaces@), networks@),
    {
        let docker = DockerDiscoverer::new();
        let services = docker.enumerate_containers(containers);
        let mut network_nodes = interfaces;
        let docker_networks = docker.enumerate_networks(networks);
        let ghost base = crate::models::nodes_view(network_nodes@);
        let mut i: usize = 0;
        while i < docker_networks.len()
            invariant
                i <= docker_networks@.len(),
                crate::models::nodes_view(network_nodes@) == base + network_list_view(docker_networks@).subrange(0, i as int).map_values(
                    |n: (Seq<char>, Seq<Seq<char>>)| docker_net_node(n.0),
                ),
            decreases docker_networks@.len() - i,
        {
            let node = NetworkNode {
                id: docker_net_name(docker_networks[i].0.as_str()),
                kind: NetworkNodeKind::InternalService,
                addresses: Vec::new(),
            };
            let ghost before = network_nodes@;
            assert(node@.addresses =~= Seq::<Seq<char>>::empty());
            network_nodes.push(node);
            assert(node@ == docker_net_node(network_list_view(docker_networks@)[i as int].0));
            assert(crate::models::nodes_view(network_nodes@) =~= crate::models::nodes_view(before).push(node@));
            assert(network_list_view(docker_networks@).subrange(0, i + 1).map_values(
                |n: (Seq<char>, Seq<Seq<char>>)| docker_net_node(n.0),
            ) =~= network_list_view(docker_networks@).subrange(0, i as int).map_values(
                |n: (Seq<char>, Seq<Seq<char>>)| docker_net_node(n.0),
            ).push(node@));
            i = i + 1;
        }
        assert(network_list_view(docker_networks@).subrange(0, docker_networks@.len() as int)
            =~= network_list_view(docker_networks@));
        let edges = match docker.build_edges(&services) {
            Ok(e) => e,
            Err(_) => Vec::new(),
        };
        let g = InfraGraph { services, network_nodes, edges };
        assert(g@.network_nodes =~= discovered_graph(containers@, base, networks@).network_nodes);
        g
    }
}

// ---------------------------------------------------------------------------
// Host interfaces
// ---------------------------------------------------------------------------

/// One entry of the kernel's interface list: the interface name and, when
/// it could be read, the content of its hardware address file.
#[derive(Clone, Debug)]
pub struct InterfaceEntry {
    pub name: String,
    pub address: Option<String>,
}

/// The node for one interface: id `iface:<name>`, with the trimmed hardware
/// address as `mac:<address>` when it is not empty.
pub open spec fn interface_node(e: InterfaceEntry) -> NetworkNodeView {
    let mac = trimmed(text_or_empty(e.address));
    NetworkNodeView {
        id: "iface:"@ + e.name@,
        kind: NetworkNodeKind::InternalService,
        addresses: if mac.len() > 0 {
            seq!["mac:"@ + mac]
        } else {
            Seq::empty()
        },
    }
}

/// The nodes of all interfaces but the loopback `lo`, in order.
pub open spec fn interface_nodes(es: Seq<InterfaceEntry>) -> Seq<NetworkNodeView>
    decreases es.len(),
{
    if es.len() == 0 {
        Seq::empty()
    } else {
        let prev = interface_nodes(es.drop_last());
        if es.last().name@ == "lo"@ {
            prev
        } else {
            prev.push(interface_node(es.last()))
        }
    }
}

/// Discovery of the host's network interfaces.
pub struct NetworkDiscoverer;

impl NetworkDiscoverer {
    /// A discoverer.
    pub fn new() -> Self {
        NetworkDiscoverer
    }

    /// The nodes for the interfaces the kernel listed, skipping the loopback.
    pub fn discover_interfaces(&self, entries: &Vec<InterfaceEntry>) -> (r: Vec<NetworkNode>)
        ensures
            crate::models::nodes_view(r@) == interface_nodes(entries@),
    {
        let mut r: Vec<NetworkNode> = Vec::new();
        let mut i: usize = 0;
        while i < entries.len()
            invariant
                i <= entries@.len(),
                crate::models::nodes_view(r@) == interface_nodes(entries@.subrange(0, i as int)),
            decreases entries@.len() - i,
        {
            let e = &entries[i];
            let ghost pre = entries@.subrange(0, i + 1);
            assert(pre.drop_last() =~= entries@.subrange(0, i as int));
            if !str_eq(e.name.as_str(), "lo") {
                let raw = string_or_empty(&e.address);
                let mac = trim(raw.as_str());
                let mut addresses: Vec<String> = Vec::new();
                if mac.as_str().unicode_len() > 0 {
                    let mut a = owned("mac:");
                    a.append(mac.as_str());
                    addresses.push(a);
                }
                let mut id = owned("iface:");
                id.append(e.name.as_str());
                let node = NetworkNode { id, kind: NetworkNodeKind::InternalService, addresses };
                assert(node@.addresses =~= interface_node(*e).addresses);
                let ghost before = r@;
                r.push(node);
                assert(crate::models::nodes_view(r@) =~= crate::models::nodes_view(before).push(node@));
            }
            i = i + 1;
        }
        assert(entries@.subrange(0, entries@.len() as int) =~= entries@);
        r
    }
}

/// Port scanning of target addresses. Only construction exists; the scan
/// itself has no implementation yet.
pub struct PortScanner;

impl PortScanner {
    /// A scanner.
    pub fn new() -> Self {
        PortScanner
    }
}

/// Host name resolution. Resolving itself is network I/O and is done by the
/// application around this library.
pub struct DnsResolver;

impl DnsResolver {
    /// A resolver.
    pub fn new() -> Self {
        DnsResolver
    }
}

} // verus!
