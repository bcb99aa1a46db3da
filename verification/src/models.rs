//! The data model shared by every engine: services, ports, network nodes,
//! edges, security findings and the infrastructure graph.

use vstd::prelude::*;

use crate::text::owned;

verus! {

/// The text of each string in a sequence.
pub open spec fn strs(v: Seq<String>) -> Seq<Seq<char>> {
    v.map_values(|s: String| s@)
}

/// The text of each key/value pair in a sequence.
pub open spec fn pairs(v: Seq<(String, String)>) -> Seq<(Seq<char>, Seq<char>)> {
    v.map_values(|p: (String, String)| (p.0@, p.1@))
}

/// The text of an optional string.
pub open spec fn opt_str(o: Option<String>) -> Option<Seq<char>> {
    match o {
        Some(s) => Some(s@),
        None => None,
    }
}

/// A copy of a vector of strings.
pub fn clone_strings(v: &Vec<String>) -> (r: Vec<String>)
    ensures
        strs(r@) == strs(v@),
        r@ == v@,
{
    let mut r: Vec<String> = Vec::new();
    let mut i: usize = 0;
    while i < v.len()
        invariant
            i <= v@.len(),
            r@ == v@.subrange(0, i as int),
        decreases v@.len() - i,
    {
        r.push(v[i].clone());
        i = i + 1;
    }
    assert(r@ =~= v@);
    r
}

/// A copy of a vector of key/value pairs.
pub fn clone_pairs(v: &Vec<(String, String)>) -> (r: Vec<(String, String)>)
    ensures
        r@ == v@,
{
    let mut r: Vec<(String, String)> = Vec::new();
    let mut i: usize = 0;
    while i < v.len()
        invariant
            i <= v@.len(),
            r@ == v@.subrange(0, i as int),
        decreases v@.len() - i,
    {
        let p = (v[i].0.clone(), v[i].1.clone());
        r.push(p);
        assert(r@ =~= v@.subrange(0, i + 1));
        i = i + 1;
    }
    assert(r@ =~= v@);
    r
}

/// A copy of an optional string.
pub fn clone_opt_string(o: &Option<String>) -> (r: Option<String>)
    ensures
        r == *o,
{
    match o {
        Some(s) => Some(s.clone()),
        None => None,
    }
}

/// How a service runs.
#[derive(Clone, Copy, Debug, PartialEq, Eq, Structural)]
pub enum ServiceType {
    Container,
    Process,
    Application,
}

/// Transport protocol of a port.
#[derive(Clone, Copy, Debug, PartialEq, Eq, Structural)]
pub enum Protocol {
    Tcp,
    Udp,
}

/// A port that a service listens on; `exposed` when it is published on the host.
#[derive(Clone, Copy, Debug, PartialEq, Eq, Structural)]
pub struct Port {
    pub port: u16,
    pub protocol: Protocol,
    pub exposed: bool,
}

/// Health of a service as read from its runtime state.
#[derive(Clone, Copy, Debug, PartialEq, Eq, Structural)]
pub enum Health {
    Healthy,
    Degraded,
    Unhealthy,
    Unknown,
}

/// Whether a service is reachable from outside the host.
#[derive(Clone, Copy, Debug, PartialEq, Eq, Structural)]
pub enum ExposureState {
    Exposed,
    Internal,
    Unknown,
}

/// The role a service plays, inferred from its image.
#[derive(Clone, Copy, Debug, PartialEq, Eq, Structural)]
pub enum ServiceClass {
    Database,
    Cache,
    ReverseProxy,
    WebApp,
    Worker,
    Messaging,
    Monitoring,
    Security,
    Utility,
    Unknown,
}

/// A discovered service. `labels` keeps the runtime's key/value labels in
/// the order they were read.
#[derive(Clone, Debug)]
pub struct Service {
    pub id: String,
    pub name: String,
    pub image: Option<String>,
    pub service_type: ServiceType,
    pub class: ServiceClass,
    pub ports: Vec<Port>,
    pub networks: Vec<String>,
    pub health: Health,
    pub status: String,
    pub labels: Vec<(String, String)>,
    pub exposure_state: ExposureState,
}

/// The abstract value of a [`Service`].
pub struct ServiceView {
    pub id: Seq<char>,
    pub name: Seq<char>,
    pub image: Option<Seq<char>>,
    pub service_type: ServiceType,
    pub class: ServiceClass,
    pub ports: Seq<Port>,
    pub networks: Seq<Seq<char>>,
    pub health: Health,
    pub status: Seq<char>,
    pub labels: Seq<(Seq<char>, Seq<char>)>,
    pub exposure_state: ExposureState,
}

impl View for Service {
    type V = ServiceView;

    open spec fn view(&self) -> ServiceView {
        ServiceView {
            id: self.id@,
            name: self.name@,
            image: opt_str(self.image),
            service_type: self.service_type,
            class: self.class,
            ports: self.ports@,
            networks: strs(self.networks@),
            health: self.health,
            status: self.status@,
            labels: pairs(self.labels@),
            exposure_state: self.exposure_state,
        }
    }
}

/// The abstract value of each service in a sequence.
pub open spec fn services_view(v: Seq<Service>) -> Seq<ServiceView> {
    v.map_values(|s: Service| s@)
}

/// A copy of a service.
pub fn clone_service(s: &Service) -> (r: Service)
    ensures
        r@ == s@,
{
    let ports = s.ports.clone();
    assert(ports@ =~= s.ports@);
    Service {
        id: s.id.clone(),
        name: s.name.clone(),
        image: clone_opt_string(&s.image),
        service_type: s.service_type,
        class: s.class,
        ports,
        networks: clone_strings(&s.networks),
        health: s.health,
        status: s.status.clone(),
        labels: clone_pairs(&s.labels),
        exposure_state: s.exposure_state,
    }
}

/// A copy of a list of services.
pub fn clone_services(v: &Vec<Service>) -> (r: Vec<Service>)
    ensures
        services_view(r@) == services_view(v@),
{
    let mut r: Vec<Service> = Vec::new();
    let mut i: usize = 0;
    while i < v.len()
        invariant
            i <= v@.len(),
            r@.len() == i,
            forall|k: int| 0 <= k < i ==> r@[k]@ == v@[k]@,
        decreases v@.len() - i,
    {
        r.push(clone_service(&v[i]));
        i = i + 1;
    }
    assert(services_view(r@) =~= services_view(v@));
    r
}

/// Kind of a network node.
#[derive(Clone, Copy, Debug, PartialEq, Eq, Structural)]
pub enum NetworkNodeKind {
    InternalService,
    ExternalService,
    Domain,
    Endpoint,
}

/// A node of the network: an interface, a container network, a domain.
#[derive(Clone, Debug)]
pub struct NetworkNode {
    pub id: String,
    pub kind: NetworkNodeKind,
    pub addresses: Vec<String>,
}

/// The abstract value of a [`NetworkNode`].
pub struct NetworkNodeView {
    pub id: Seq<char>,
    pub kind: NetworkNodeKind,
    pub addresses: Seq<Seq<char>>,
}

impl View for NetworkNode {
    type V = NetworkNodeView;

    open spec fn view(&self) -> NetworkNodeView {
        NetworkNodeView { id: self.id@, kind: self.kind, addresses: strs(self.addresses@) }
    }
}

/// The abstract value of each node in a sequence.
pub open spec fn nodes_view(v: Seq<NetworkNode>) -> Seq<NetworkNodeView> {
    v.map_values(|n: NetworkNode| n@)
}

/// How bad a finding is, from most to least severe.
#[derive(Clone, Copy, Debug, PartialEq, Eq, Structural)]
pub enum Severity {
    Critical,
    High,
    Medium,
    Low,
    Info,
}

/// Kind of relation an edge records.
#[derive(Clone, Copy, Debug, PartialEq, Eq, Structural)]
pub enum RelationType {
    DependsOn,
    Exposes,
    ConnectsTo,
    Contains,
}

/// A directed relation between two entities of the graph.
#[derive(Clone, Debug)]
pub struct Edge {
    pub source_id: String,
    pub target_id: String,
    pub relation: RelationType,
}

/// The abstract value of an [`Edge`].
pub struct EdgeView {
    pub source_id: Seq<char>,
    pub target_id: Seq<char>,
    pub relation: RelationType,
}

impl View for Edge {
    type V = EdgeView;

    open spec fn view(&self) -> EdgeView {
        EdgeView { source_id: self.source_id@, target_id: self.target_id@, relation: self.relation }
    }
}

/// The abstract value of each edge in a sequence.
pub open spec fn edges_view(v: Seq<Edge>) -> Seq<EdgeView> {
    v.map_values(|e: Edge| e@)
}

/// Everything discovery found: services, network nodes and their relations.
#[derive(Clone, Debug)]
pub struct InfraGraph {
    pub services: Vec<Service>,
    pub network_nodes: Vec<NetworkNode>,
    pub edges: Vec<Edge>,
}

/// The abstract value of an [`InfraGraph`].
pub struct InfraGraphView {
    pub services: Seq<ServiceView>,
    pub network_nodes: Seq<NetworkNodeView>,
    pub edges: Seq<EdgeView>,
}

impl View for InfraGraph {
    type V = InfraGraphView;

    open spec fn view(&self) -> InfraGraphView {
        InfraGraphView {
            services: services_view(self.services@),
            network_nodes: nodes_view(self.network_nodes@),
            edges: edges_view(self.edges@),
        }
    }
}

// ---------------------------------------------------------------------------
// Variant names
// ---------------------------------------------------------------------------

/// The name of a service class, as its variant is spelled.
pub open spec fn class_name_spec(c: ServiceClass) -> Seq<char> {
    match c {
        ServiceClass::Database => "Database"@,
        ServiceClass::Cache => "Cache"@,
        ServiceClass::ReverseProxy => "ReverseProxy"@,
        ServiceClass::WebApp => "WebApp"@,
        ServiceClass::Worker => "Worker"@,
        ServiceClass::Messaging => "Messaging"@,
        ServiceClass::Monitoring => "Monitoring"@,
        ServiceClass::Security => "Security"@,
        ServiceClass::Utility => "Utility"@,
        ServiceClass::Unknown => "Unknown"@,
    }
}

/// The name of a service class.
pub fn class_name(c: ServiceClass) -> (r: String)
    ensures
        r@ == class_name_spec(c),
{
    owned(
        match c {
            ServiceClass::Database => "Database",
            ServiceClass::Cache => "Cache",
            ServiceClass::ReverseProxy => "ReverseProxy",
            ServiceClass::WebApp => "WebApp",
            ServiceClass::Worker => "Worker",
            ServiceClass::Messaging => "Messaging",
            ServiceClass::Monitoring => "Monitoring",
            ServiceClass::Security => "Security",
            ServiceClass::Utility => "Utility",
            ServiceClass::Unknown => "Unknown",
        },
    )
}

/// The name of a health state.
pub open spec fn health_name_spec(h: Health) -> Seq<char> {
    match h {
        Health::Healthy => "Healthy"@,
        Health::Degraded => "Degraded"@,
        Health::Unhealthy => "Unhealthy"@,
        Health::Unknown => "Unknown"@,
    }
}

/// The name of a health state.
pub fn health_name(h: Health) -> (r: String)
    ensures
        r@ == health_name_spec(h),
{
    owned(
        match h {
            Health::Healthy => "Healthy",
            Health::Degraded => "Degraded",
            Health::Unhealthy => "Unhealthy",
            Health::Unknown => "Unknown",
        },
    )
}

/// The name of an exposure state.
pub open spec fn exposure_name_spec(e: ExposureState) -> Seq<char> {
    match e {
        ExposureState::Exposed => "Exposed"@,
        ExposureState::Internal => "Internal"@,
        ExposureState::Unknown => "Unknown"@,
    }
}

/// The name of an exposure state.
pub fn exposure_name(e: ExposureState) -> (r: String)
    ensures
        r@ == exposure_name_spec(e),
{
    owned(
        match e {
            ExposureState::Exposed => "Exposed",
            ExposureState::Internal => "Internal",
            ExposureState::Unknown => "Unknown",
        },
    )
}

/// The name of a relation type.
pub open spec fn relation_name_spec(r: RelationType) -> Seq<char> {
    match r {
        RelationType::DependsOn => "DependsOn"@,
        RelationType::Exposes => "Exposes"@,
        RelationType::ConnectsTo => "ConnectsTo"@,
        RelationType::Contains => "Contains"@,
    }
}

/// The name of a relation type.
pub fn relation_name(r: RelationType) -> (s: String)
    ensures
        s@ == relation_name_spec(r),
{
    owned(
        match r {
            RelationType::DependsOn => "DependsOn",
            RelationType::Exposes => "Exposes",
            RelationType::ConnectsTo => "ConnectsTo",
            RelationType::Contains => "Contains",
        },
    )
}

/// The name of a network node kind.
pub open spec fn node_kind_name_spec(k: NetworkNodeKind) -> Seq<char> {
    match k {
        NetworkNodeKind::InternalService => "InternalService"@,
        NetworkNodeKind::ExternalService => "ExternalService"@,
        NetworkNodeKind::Domain => "Domain"@,
        NetworkNodeKind::Endpoint => "Endpoint"@,
    }
}

/// The name of a network node kind.
pub fn node_kind_name(k: NetworkNodeKind) -> (r: String)
    ensures
        r@ == node_kind_name_spec(k),
{
    owned(
        match k {
            NetworkNodeKind::InternalService => "InternalService",
            NetworkNodeKind::ExternalService => "ExternalService",
            NetworkNodeKind::Domain => "Domain",
            NetworkNodeKind::Endpoint => "Endpoint",
        },
    )
}

/// The name of a severity.
pub open spec fn severity_name_spec(s: Severity) -> Seq<char> {
    match s {
        Severity::Critical => "Critical"@,
        Severity::High => "High"@,
        Severity::Medium => "Medium"@,
        Severity::Low => "Low"@,
        Severity::Info => "Info"@,
    }
}

/// The name of a severity.
pub fn severity_name(s: Severity) -> (r: String)
    ensures
        r@ == severity_name_spec(s),
{
    owned(
        match s {
            Severity::Critical => "Critical",
            Severity::High => "High",
            Severity::Medium => "Medium",
            Severity::Low => "Low",
            Severity::Info => "Info",
        },
    )
}

/// The text a JSON document holds when it is a single JSON string (escapes
/// decoded), or `None` when it is not one.
pub uninterp spec fn json_string_text(doc: Seq<char>) -> Option<Seq<char>>;

/// Reads a JSON string document.
/// Calls `serde_json::from_str::<String>`; the contract names its result.
#[verifier::external_body]
fn decode_json_string(doc: &str) -> (r: Option<String>)
    ensures
        match r {
            Some(t) => json_string_text(doc@) == Some(t@),
            None => json_string_text(doc@) is None,
        },
{
    serde_json::from_str::<String>(doc).ok()
}

/// The severity a name stands for; any other text reads as `Info`.
pub open spec fn severity_named(name: Option<Seq<char>>) -> Severity {
    match name {
        Some(n) => if n == "Critical"@ {
            Severity::Critical
        } else if n == "High"@ {
            Severity::High
        } else if n == "Medium"@ {
            Severity::Medium
        } else if n == "Low"@ {
            Severity::Low
        } else {
            Severity::Info
        },
        None => Severity::Info,
    }
}

/// Reads a stored severity name: the text is quoted and read as a JSON
/// string, whose value names the severity; anything else is `Info`.
pub fn severity_from_stored(stored: &str) -> (r: Severity)
    ensures
        r == severity_named(json_string_text(seq!['"'] + stored@ + seq!['"'])),
{
    let mut doc = String::new();
    crate::text::push_char(&mut doc, '"');
    doc.append(stored);
    crate::text::push_char(&mut doc, '"');
    assert(doc@ =~= seq!['"'] + stored@ + seq!['"']);
    match decode_json_string(doc.as_str()) {
        None => Severity::Info,
        Some(name) => {
            let n = name.as_str();
            proof {
                reveal_strlit("Critical");
                reveal_strlit("High");
                reveal_strlit("Medium");
                reveal_strlit("Low");
            }
            if crate::text::str_eq(n, "Critical") {
                Severity::Critical
            } else if crate::text::str_eq(n, "High") {
                Severity::High
            } else if crate::text::str_eq(n, "Medium") {
                Severity::Medium
            } else if crate::text::str_eq(n, "Low") {
                Severity::Low
            } else {
                Severity::Info
            }
        },
    }
}

// ---------------------------------------------------------------------------
// Findings
// ---------------------------------------------------------------------------

/// A point in time, as the system clock gives it.
#[verifier::external_type_specification]
#[verifier::external_body]
pub struct ExSystemTime(std::time::SystemTime);

/// Copying a point in time.
/// `SystemTime` is `Copy`; its `clone` returns the same instant.
pub assume_specification[ <std::time::SystemTime as Clone>::clone ](t: &std::time::SystemTime) -> (r: std::time::SystemTime)
    ensures
        r == *t,
;

/// The current time.
/// Calls `SystemTime::now`; the clock's reading is not described.
#[verifier::external_body]
pub(crate) fn system_now() -> (t: std::time::SystemTime) {
    std::time::SystemTime::now()
}

/// A security problem found in the infrastructure.
#[derive(Clone, Debug)]
pub struct SecurityFinding {
    pub id: String,
    pub severity: Severity,
    pub title: String,
    pub description: String,
    pub source: String,
    pub remediation: Option<String>,
    pub timestamp: std::time::SystemTime,
}

/// The content of a [`SecurityFinding`]: everything but its id and time.
pub struct FindingView {
    pub severity: Severity,
    pub title: Seq<char>,
    pub description: Seq<char>,
    pub source: Seq<char>,
    pub remediation: Option<Seq<char>>,
}

impl View for SecurityFinding {
    type V = FindingView;

    open spec fn view(&self) -> FindingView {
        FindingView {
            severity: self.severity,
            title: self.title@,
            description: self.description@,
            source: self.source@,
            remediation: opt_str(self.remediation),
        }
    }
}

/// The content of each finding in a sequence.
pub open spec fn findings_view(v: Seq<SecurityFinding>) -> Seq<FindingView> {
    v.map_values(|f: SecurityFinding| f@)
}

/// Health of a running process as last checked.
#[derive(Clone, Debug)]
pub struct ProcessHealth {
    pub service_id: String,
    pub status: String,
    pub uptime_seconds: Option<u64>,
    pub last_check: std::time::SystemTime,
}

/// A container lifecycle event reported by the runtime.
#[derive(Clone, Debug)]
pub enum LifecycleEvent {
    Started { container_id: String, name: String },
    Stopped { container_id: String },
    Died { container_id: String, exit_code: i64 },
    HealthStatus { container_id: String, status: String },
    Paused { container_id: String },
    Unpaused { container_id: String },
}

/// An event raised by one of the engines.
#[derive(Clone, Debug)]
pub enum EngineEvent {
    ContainerStarted { id: String, name: String },
    ContainerStopped { id: String },
    ServiceExposed { service_id: String, port: Port },
    SuspiciousTrafficDetected { source: String, destination: String },
    TlsCertificateExpired { service_id: String },
}

/// A copy of a network node.
pub fn clone_node(n: &NetworkNode) -> (r: NetworkNode)
    ensures
        r@ == n@,
{
    NetworkNode { id: n.id.clone(), kind: n.kind, addresses: clone_strings(&n.addresses) }
}

/// A copy of a list of network nodes.
pub fn clone_nodes(v: &Vec<NetworkNode>) -> (r: Vec<NetworkNode>)
    ensures
        nodes_view(r@) == nodes_view(v@),
{
    let mut r: Vec<NetworkNode> = Vec::new();
    let mut i: usize = 0;
    while i < v.len()
        invariant
            i <= v@.len(),
            r@.len() == i,
            forall|k: int| 0 <= k < i ==> r@[k]@ == v@[k]@,
        decreases v@.len() - i,
    {
        r.push(clone_node(&v[i]));
        i = i + 1;
    }
    assert(nodes_view(r@) =~= nodes_view(v@));
    r
}

/// A copy of an edge.
pub fn clone_edge(e: &Edge) -> (r: Edge)
    ensures
        r@ == e@,
{
    Edge { source_id: e.source_id.clone(), target_id: e.target_id.clone(), relation: e.relation }
}

/// A copy of a list of edges.
pub fn clone_edges(v: &Vec<Edge>) -> (r: Vec<Edge>)
    ensures
        edges_view(r@) == edges_view(v@),
{
    let mut r: Vec<Edge> = Vec::new();
    let mut i: usize = 0;
    while i < v.len()
        invariant
            i <= v@.len(),
            r@.len() == i,
            forall|k: int| 0 <= k < i ==> r@[k]@ == v@[k]@,
        decreases v@.len() - i,
    {
        r.push(clone_edge(&v[i]));
        i = i + 1;
    }
    assert(edges_view(r@) =~= edges_view(v@));
    r
}

/// A copy of a graph.
pub fn clone_graph(g: &InfraGraph) -> (r: InfraGraph)
    ensures
        r@ == g@,
{
    InfraGraph {
        services: clone_services(&g.services),
        network_nodes: clone_nodes(&g.network_nodes),
        edges: clone_edges(&g.edges),
    }
}

} // verus!
