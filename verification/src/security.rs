//! Security analysis: exposed sensitive ports, secrets in labels and
//! unreachable secure ports.

use vstd::prelude::*;

use crate::models::{
    findings_view, services_view, system_now, FindingView, Port, Protocol, SecurityFinding,
    Service, ServiceView, Severity,
};
use crate::text::{decimal, owned, to_lowercase, u64_to_decimal, unicode_lowercase};
use vstd::utf8::{
    decode_utf8, decode_utf8_encode_utf8, encode_scalar, encode_utf8, encode_utf8_decode_utf8,
    encode_utf8_valid_utf8, is_char_boundary, valid_utf8_split,
};

verus! {

/// Risk of a sensitive port being exposed.
#[derive(Clone, Copy, Debug, PartialEq, Eq, Structural)]
pub enum PortRisk {
    Critical,
    High,
    Medium,
    Low,
}

/// The severity a port risk is reported with.
pub open spec fn risk_severity(r: PortRisk) -> Severity {
    match r {
        PortRisk::Critical => Severity::Critical,
        PortRisk::High => Severity::High,
        PortRisk::Medium => Severity::Medium,
        PortRisk::Low => Severity::Low,
    }
}

/// The table of sensitive TCP ports: risk, service name and description.
pub open spec fn sensitive_port(port: u16, protocol: Protocol) -> Option<(PortRisk, Seq<char>, Seq<char>)> {
    if protocol != Protocol::Tcp {
        None
    } else if port == 22 {
        Some((PortRisk::Critical, "SSH"@, "SSH remote administration"@))
    } else if port == 23 {
        Some((PortRisk::Critical, "Telnet"@, "Unencrypted remote access"@))
    } else if port == 3389 {
        Some((PortRisk::Critical, "RDP"@, "Remote Desktop Protocol"@))
    } else if port == 5900 {
        Some((PortRisk::Critical, "VNC"@, "VNC remote access"@))
    } else if port == 2375 {
        Some((PortRisk::Critical, "Docker API"@, "Unencrypted Docker daemon socket"@))
    } else if port == 5432 {
        Some((PortRisk::High, "PostgreSQL"@, "PostgreSQL database"@))
    } else if port == 3306 {
        Some((PortRisk::High, "MySQL"@, "MySQL/MariaDB database"@))
    } else if port == 27017 {
        Some((PortRisk::High, "MongoDB"@, "MongoDB database"@))
    } else if port == 6379 {
        Some((PortRisk::High, "Redis"@, "Redis cache"@))
    } else if port == 9200 {
        Some((PortRisk::High, "Elasticsearch"@, "Elasticsearch HTTP API"@))
    } else if port == 9092 {
        Some((PortRisk::High, "Kafka"@, "Apache Kafka broker"@))
    } else if port == 5672 {
        Some((PortRisk::High, "RabbitMQ"@, "RabbitMQ AMQP"@))
    } else if port == 15672 {
        Some((PortRisk::High, "RabbitMQ Management"@, "RabbitMQ management UI"@))
    } else if port == 8443 {
        Some((PortRisk::High, "HTTPS Alt"@, "Alternative HTTPS port"@))
    } else if port == 80 {
        Some((PortRisk::Medium, "HTTP"@, "Unencrypted HTTP"@))
    } else if port == 8080 {
        Some((PortRisk::Medium, "HTTP Proxy"@, "HTTP proxy/alternative"@))
    } else if port == 3000 || port == 4000 || port == 5000 {
        Some((PortRisk::Medium, "Web App"@, "Web application"@))
    } else if port == 9000 {
        Some((PortRisk::Medium, "MinIO"@, "MinIO/S3 API"@))
    } else if port == 9090 {
        Some((PortRisk::Medium, "Prometheus"@, "Prometheus metrics"@))
    } else if port == 9100 {
        Some((PortRisk::Medium, "Node Exporter"@, "Node metrics exporter"@))
    } else {
        None
    }
}

proof fn lemma_port_reported(name: Seq<char>, ports: Seq<Port>, j: int)
    requires
        0 <= j < ports.len(),
        ports[j].exposed,
        sensitive_port(ports[j].port, ports[j].protocol) is Some,
    ensures
        ({
            let t = sensitive_port(ports[j].port, ports[j].protocol)->0;
            service_port_findings(name, ports).contains(port_finding(name, ports[j].port, t.0, t.1, t.2))
        }),
    decreases ports.len(),
{
    let t = sensitive_port(ports[j].port, ports[j].protocol)->0;
    let f = port_finding(name, ports[j].port, t.0, t.1, t.2);
    let prev = service_port_findings(name, ports.drop_last());
    let r = service_port_findings(name, ports);
    if j < ports.len() - 1 {
        lemma_port_reported(name, ports.drop_last(), j);
        assert(ports.drop_last()[j] == ports[j]);
        let x = choose|x: int| 0 <= x < prev.len() && prev[x] == f;
        let p = ports.last();
        if p.exposed && sensitive_port(p.port, p.protocol) is Some {
            assert(r[x] == prev[x]);
        }
    } else {
        assert(r[r.len() - 1] == f);
    }
}

proof fn lemma_service_reported(ss: Seq<ServiceView>, i: int, f: FindingView)
    requires
        0 <= i < ss.len(),
        service_port_findings(ss[i].name, ss[i].ports).contains(f),
    ensures
        all_port_findings(ss).contains(f),
    decreases ss.len(),
{
    let prev = all_port_findings(ss.drop_last());
    let own = service_port_findings(ss.last().name, ss.last().ports);
    let r = all_port_findings(ss);
    if i < ss.len() - 1 {
        assert(ss.drop_last()[i] == ss[i]);
        lemma_service_reported(ss.drop_last(), i, f);
        let x = choose|x: int| 0 <= x < prev.len() && prev[x] == f;
        assert(r[x] == prev[x]);
    } else {
        let x = choose|x: int| 0 <= x < own.len() && own[x] == f;
        assert(r[prev.len() + x] == own[x]);
    }
}

/// Every exposed TCP port that is a known sensitive port is reported, with
/// the severity, service name and description of that port: remote
/// administration (SSH 22, Telnet 23, RDP 3389, VNC 5900, the Docker API
/// 2375) is critical; databases, caches, brokers and the alternative HTTPS
/// port are high; plain web, proxy, object-store and metrics ports are
/// medium.
pub proof fn law_sensitive_ports_reported(ss: Seq<ServiceView>)
    ensures
        forall|i: int, j: int|
            #![trigger ss[i].ports[j]]
            0 <= i < ss.len() && 0 <= j < ss[i].ports.len() && ss[i].ports[j].exposed
                && ss[i].ports[j].protocol == Protocol::Tcp ==> {
                let p = ss[i].ports[j];
                &&& (p.port == 22 ==> all_port_findings(ss).contains(
                    port_finding(ss[i].name, 22, PortRisk::Critical, "SSH"@, "SSH remote administration"@),
                ))
                &&& (p.port == 23 ==> all_port_findings(ss).contains(
                    port_finding(ss[i].name, 23, PortRisk::Critical, "Telnet"@, "Unencrypted remote access"@),
                ))
                &&& (p.port == 3389 ==> all_port_findings(ss).contains(
                    port_finding(ss[i].name, 3389, PortRisk::Critical, "RDP"@, "Remote Desktop Protocol"@),
                ))
                &&& (p.port == 5900 ==> all_port_findings(ss).contains(
                    port_finding(ss[i].name, 5900, PortRisk::Critical, "VNC"@, "VNC remote access"@),
                ))
                &&& (p.port == 2375 ==> all_port_findings(ss).contains(
                    port_finding(ss[i].name, 2375, PortRisk::Critical, "Docker API"@, "Unencrypted Docker daemon socket"@),
                ))
                &&& (p.port == 5432 ==> all_port_findings(ss).contains(
                    port_finding(ss[i].name, 5432, PortRisk::High, "PostgreSQL"@, "PostgreSQL database"@),
                ))
                &&& (p.port == 3306 ==> all_port_findings(ss).contains(
                    port_finding(ss[i].name, 3306, PortRisk::High, "MySQL"@, "MySQL/MariaDB database"@),
                ))
                &&& (p.port == 27017 ==> all_port_findings(ss).contains(
                    port_finding(ss[i].name, 27017, PortRisk::High, "MongoDB"@, "MongoDB database"@),
                ))
                &&& (p.port == 6379 ==> all_port_findings(ss).contains(
                    port_finding(ss[i].name, 6379, PortRisk::High, "Redis"@, "Redis cache"@),
                ))
                &&& (p.port == 9200 ==> all_port_findings(ss).contains(
                    port_finding(ss[i].name, 9200, PortRisk::High, "Elasticsearch"@, "Elasticsearch HTTP API"@),
                ))
                &&& (p.port == 9092 ==> all_port_findings(ss).contains(
                    port_finding(ss[i].name, 9092, PortRisk::High, "Kafka"@, "Apache Kafka broker"@),
                ))
                &&& (p.port == 5672 ==> all_port_findings(ss).contains(
                    port_finding(ss[i].name, 5672, PortRisk::High, "RabbitMQ"@, "RabbitMQ AMQP"@),
                ))
                &&& (p.port == 15672 ==> all_port_findings(ss).contains(
                    port_finding(ss[i].name, 15672, PortRisk::High, "RabbitMQ Management"@, "RabbitMQ management UI"@),
                ))
                &&& (p.port == 8443 ==> all_port_findings(ss).contains(
                    port_finding(ss[i].name, 8443, PortRisk::High, "HTTPS Alt"@, "Alternative HTTPS port"@),
                ))
                &&& (p.port == 80 ==> all_port_findings(ss).contains(
                    port_finding(ss[i].name, 80, PortRisk::Medium, "HTTP"@, "Unencrypted HTTP"@),
                ))
                &&& (p.port == 8080 ==> all_port_findings(ss).contains(
                    port_finding(ss[i].name, 8080, PortRisk::Medium, "HTTP Proxy"@, "HTTP proxy/alternative"@),
                ))
                &&& (p.port == 5000 ==> all_port_findings(ss).contains(
                    port_finding(ss[i].name, 5000, PortRisk::Medium, "Web App"@, "Web application"@),
                ))
                &&& (p.port == 9000 ==> all_port_findings(ss).contains(
                    port_finding(ss[i].name, 9000, PortRisk::Medium, "MinIO"@, "MinIO/S3 API"@),
                ))
                &&& (p.port == 9090 ==> all_port_findings(ss).contains(
                    port_finding(ss[i].name, 9090, PortRisk::Medium, "Prometheus"@, "Prometheus metrics"@),
                ))
                &&& (p.port == 9100 ==> all_port_findings(ss).contains(
                    port_finding(ss[i].name, 9100, PortRisk::Medium, "Node Exporter"@, "Node metrics exporter"@),
                ))
                &&& (p.port == 3000 ==> all_port_findings(ss).contains(
                    port_finding(ss[i].name, 3000, PortRisk::Medium, "Web App"@, "Web application"@),
                ))
                &&& (p.port == 4000 ==> all_port_findings(ss).contains(
                    port_finding(ss[i].name, 4000, PortRisk::Medium, "Web App"@, "Web application"@),
                ))
                &&& (p.port == 5000 ==> all_port_findings(ss).contains(
                    port_finding(ss[i].name, 5000, PortRisk::Medium, "Web App"@, "Web application"@),
                ))
            },
{
    assert forall|i: int, j: int|
        #![trigger ss[i].ports[j]]
        0 <= i < ss.len() && 0 <= j < ss[i].ports.len() && ss[i].ports[j].exposed
            && ss[i].ports[j].protocol == Protocol::Tcp implies {
            let p = ss[i].ports[j];
                &&& (p.port == 22 ==> all_port_findings(ss).contains(
                    port_finding(ss[i].name, 22, PortRisk::Critical, "SSH"@, "SSH remote administration"@),
                ))
                &&& (p.port == 23 ==> all_port_findings(ss).contains(
                    port_finding(ss[i].name, 23, PortRisk::Critical, "Telnet"@, "Unencrypted remote access"@),
                ))
                &&& (p.port == 3389 ==> all_port_findings(ss).contains(
                    port_finding(ss[i].name, 3389, PortRisk::Critical, "RDP"@, "Remote Desktop Protocol"@),
                ))
                &&& (p.port == 5900 ==> all_port_findings(ss).contains(
                    port_finding(ss[i].name, 5900, PortRisk::Critical, "VNC"@, "VNC remote access"@),
                ))
                &&& (p.port == 2375 ==> all_port_findings(ss).contains(
                    port_finding(ss[i].name, 2375, PortRisk::Critical, "Docker API"@, "Unencrypted Docker daemon socket"@),
                ))
                &&& (p.port == 5432 ==> all_port_findings(ss).contains(
                    port_finding(ss[i].name, 5432, PortRisk::High, "PostgreSQL"@, "PostgreSQL database"@),
                ))
                &&& (p.port == 3306 ==> all_port_findings(ss).contains(
                    port_finding(ss[i].name, 3306, PortRisk::High, "MySQL"@, "MySQL/MariaDB database"@),
                ))
                &&& (p.port == 27017 ==> all_port_findings(ss).contains(
                    port_finding(ss[i].name, 27017, PortRisk::High, "MongoDB"@, "MongoDB database"@),
                ))
                &&& (p.port == 6379 ==> all_port_findings(ss).contains(
                    port_finding(ss[i].name, 6379, PortRisk::High, "Redis"@, "Redis cache"@),
                ))
                &&& (p.port == 9200 ==> all_port_findings(ss).contains(
                    port_finding(ss[i].name, 9200, PortRisk::High, "Elasticsearch"@, "Elasticsearch HTTP API"@),
                ))
                &&& (p.port == 9092 ==> all_port_findings(ss).contains(
                    port_finding(ss[i].name, 9092, PortRisk::High, "Kafka"@, "Apache Kafka broker"@),
                ))
                &&& (p.port == 5672 ==> all_port_findings(ss).contains(
                    port_finding(ss[i].name, 5672, PortRisk::High, "RabbitMQ"@, "RabbitMQ AMQP"@),
                ))
                &&& (p.port == 15672 ==> all_port_findings(ss).contains(
                    port_finding(ss[i].name, 15672, PortRisk::High, "RabbitMQ Management"@, "RabbitMQ management UI"@),
                ))
                &&& (p.port == 8443 ==> all_port_findings(ss).contains(
                    port_finding(ss[i].name, 8443, PortRisk::High, "HTTPS Alt"@, "Alternative HTTPS port"@),
                ))
                &&& (p.port == 80 ==> all_port_findings(ss).contains(
                    port_finding(ss[i].name, 80, PortRisk::Medium, "HTTP"@, "Unencrypted HTTP"@),
                ))
                &&& (p.port == 8080 ==> all_port_findings(ss).contains(
                    port_finding(ss[i].name, 8080, PortRisk::Medium, "HTTP Proxy"@, "HTTP proxy/alternative"@),
                ))
                &&& (p.port == 5000 ==> all_port_findings(ss).contains(
                    port_finding(ss[i].name, 5000, PortRisk::Medium, "Web App"@, "Web application"@),
                ))
                &&& (p.port == 9000 ==> all_port_findings(ss).contains(
                    port_finding(ss[i].name, 9000, PortRisk::Medium, "MinIO"@, "MinIO/S3 API"@),
                ))
                &&& (p.port == 9090 ==> all_port_findings(ss).contains(
                    port_finding(ss[i].name, 9090, PortRisk::Medium, "Prometheus"@, "Prometheus metrics"@),
                ))
                &&& (p.port == 9100 ==> all_port_findings(ss).contains(
                    port_finding(ss[i].name, 9100, PortRisk::Medium, "Node Exporter"@, "Node metrics exporter"@),
                ))
                &&& (p.port == 3000 ==> all_port_findings(ss).contains(
                    port_finding(ss[i].name, 3000, PortRisk::Medium, "Web App"@, "Web application"@),
                ))
                &&& (p.port == 4000 ==> all_port_findings(ss).contains(
                    port_finding(ss[i].name, 4000, PortRisk::Medium, "Web App"@, "Web application"@),
                ))
                &&& (p.port == 5000 ==> all_port_findings(ss).contains(
                    port_finding(ss[i].name, 5000, PortRisk::Medium, "Web App"@, "Web application"@),
                ))
        } by {
        let p = ss[i].ports[j];
        if sensitive_port(p.port, p.protocol) is Some {
            lemma_port_reported(ss[i].name, ss[i].ports, j);
            let t = sensitive_port(p.port, p.protocol)->0;
            lemma_service_reported(ss, i, port_finding(ss[i].name, p.port, t.0, t.1, t.2));
        }
    }
}

fn lookup_sensitive(port: u16, protocol: Protocol) -> (r: Option<(PortRisk, &'static str, &'static str)>)
    ensures
        match r {
            Some(t) => sensitive_port(port, protocol) == Some((t.0, t.1@, t.2@)),
            None => sensitive_port(port, protocol) is None,
        },
{
    match protocol {
        Protocol::Udp => None,
        Protocol::Tcp => match port {
            22 => Some((PortRisk::Critical, "SSH", "SSH remote administration")),
            23 => Some((PortRisk::Critical, "Telnet", "Unencrypted remote access")),
            3389 => Some((PortRisk::Critical, "RDP", "Remote Desktop Protocol")),
            5900 => Some((PortRisk::Critical, "VNC", "VNC remote access")),
            2375 => Some((PortRisk::Critical, "Docker API", "Unencrypted Docker daemon socket")),
            5432 => Some((PortRisk::High, "PostgreSQL", "PostgreSQL database")),
            3306 => Some((PortRisk::High, "MySQL", "MySQL/MariaDB database")),
            27017 => Some((PortRisk::High, "MongoDB", "MongoDB database")),
            6379 => Some((PortRisk::High, "Redis", "Redis cache")),
            9200 => Some((PortRisk::High, "Elasticsearch", "Elasticsearch HTTP API")),
            9092 => Some((PortRisk::High, "Kafka", "Apache Kafka broker")),
            5672 => Some((PortRisk::High, "RabbitMQ", "RabbitMQ AMQP")),
            15672 => Some((PortRisk::High, "RabbitMQ Management", "RabbitMQ management UI")),
            8443 => Some((PortRisk::High, "HTTPS Alt", "Alternative HTTPS port")),
            80 => Some((PortRisk::Medium, "HTTP", "Unencrypted HTTP")),
            8080 => Some((PortRisk::Medium, "HTTP Proxy", "HTTP proxy/alternative")),
            3000 | 4000 | 5000 => Some((PortRisk::Medium, "Web App", "Web application")),
            9000 => Some((PortRisk::Medium, "MinIO", "MinIO/S3 API")),
            9090 => Some((PortRisk::Medium, "Prometheus", "Prometheus metrics")),
            9100 => Some((PortRisk::Medium, "Node Exporter", "Node metrics exporter")),
            _ => None,
        },
    }
}

/// A lower-case hexadecimal digit.
pub open spec fn is_lower_hex(c: char) -> bool {
    ('0' <= c && c <= '9') || ('a' <= c && c <= 'f')
}

/// Text in the hyphenated form of a version-4 UUID: 36 characters, hyphens
/// at 8, 13, 18 and 23, lower-case hexadecimal digits elsewhere, the
/// version digit `4` at 14 and one of `8`, `9`, `a`, `b` (the RFC 4122
/// variant) at 19.
pub open spec fn uuid_v4_text(s: Seq<char>) -> bool {
    &&& s.len() == 36
    &&& forall|k: int|
        0 <= k < 36 ==> if k == 8 || k == 13 || k == 18 || k == 23 {
            s[k] == '-'
        } else {
            is_lower_hex(#[trigger] s[k])
        }
    &&& s[14] == '4'
    &&& (s[19] == '8' || s[19] == '9' || s[19] == 'a' || s[19] == 'b')
}

/// A fresh random identifier (for findings and login tokens).
/// Calls `uuid::Uuid::new_v4`, which sets the version and variant bits of
/// random bits, and writes it with `to_string` in the lower-case hyphenated
/// form. The random digits themselves are not stated.
#[verifier::external_body]
pub(crate) fn new_uuid_v4() -> (r: String)
    ensures
        uuid_v4_text(r@),
{
    uuid::Uuid::new_v4().to_string()
}

/// The finding for an exposed sensitive port of a service.
pub open spec fn port_finding(name: Seq<char>, port: u16, risk: PortRisk, svc: Seq<char>, desc: Seq<char>) -> FindingView {
    FindingView {
        severity: risk_severity(risk),
        title: "Exposed "@ + svc + " port"@,
        description: "Container '"@ + name + "' exposes "@ + svc + " port "@ + decimal(port as nat) + " ("@
            + desc + ") to the host network"@,
        source: "port_analysis"@,
        remediation: Some(
            "Bind port "@ + decimal(port as nat)
                + " only to localhost (127.0.0.1) or remove the port mapping if not needed"@,
        ),
    }
}

/// The port findings of one service: one per exposed port found in the
/// sensitive-port table, in port order.
pub open spec fn service_port_findings(name: Seq<char>, ports: Seq<Port>) -> Seq<FindingView>
    decreases ports.len(),
{
    if ports.len() == 0 {
        Seq::empty()
    } else {
        let prev = service_port_findings(name, ports.drop_last());
        let p = ports.last();
        if p.exposed && sensitive_port(p.port, p.protocol) is Some {
            let t = sensitive_port(p.port, p.protocol)->0;
            prev.push(port_finding(name, p.port, t.0, t.1, t.2))
        } else {
            prev
        }
    }
}

/// The port findings of all services, service by service.
pub open spec fn all_port_findings(ss: Seq<ServiceView>) -> Seq<FindingView>
    decreases ss.len(),
{
    if ss.len() == 0 {
        Seq::empty()
    } else {
        all_port_findings(ss.drop_last()) + service_port_findings(ss.last().name, ss.last().ports)
    }
}

fn make_port_finding(name: &String, port: u16, risk: PortRisk, svc: &str, desc: &str) -> (f: SecurityFinding)
    ensures
        f@ == port_finding(name@, port, risk, svc@, desc@),
        uuid_v4_text(f.id@),
{
    let digits = u64_to_decimal(port as u64);
    let mut title = owned("Exposed ");
    title.append(svc);
    title.append(" port");
    let mut description = owned("Container '");
    description.append(name.as_str());
    description.append("' exposes ");
    description.append(svc);
    description.append(" port ");
    description.append(digits.as_str());
    description.append(" (");
    description.append(desc);
    description.append(") to the host network");
    let mut remediation = owned("Bind port ");
    remediation.append(digits.as_str());
    remediation.append(" only to localhost (127.0.0.1) or remove the port mapping if not needed");
    let severity = match risk {
        PortRisk::Critical => Severity::Critical,
        PortRisk::High => Severity::High,
        PortRisk::Medium => Severity::Medium,
        PortRisk::Low => Severity::Low,
    };
    SecurityFinding {
        id: new_uuid_v4(),
        severity,
        title,
        description,
        source: owned("port_analysis"),
        remediation: Some(remediation),
        timestamp: system_now(),
    }
}

/// Finds exposed ports that should not be reachable from the host network.
pub struct PortAnalyzer;

impl PortAnalyzer {
    /// An analyzer.
    pub fn new() -> Self {
        PortAnalyzer
    }

    /// A finding for every exposed port of every service that the
    /// sensitive-port table lists, service by service and port by port,
    /// with the table's risk as severity. Each finding gets a fresh id.
    pub fn analyze_ports(&self, services: &Vec<Service>) -> (r: Vec<SecurityFinding>)
        ensures
            findings_view(r@) == all_port_findings(services_view(services@)),
            forall|k: int| 0 <= k < r@.len() ==> uuid_v4_text((#[trigger] r@[k]).id@),
    {
        let ghost ss = services_view(services@);
        let mut out: Vec<SecurityFinding> = Vec::new();
        let mut i: usize = 0;
        while i < services.len()
            invariant
                i <= services@.len(),
                ss == services_view(services@),
                findings_view(out@) == all_port_findings(ss.subrange(0, i as int)),
                forall|k: int| 0 <= k < out@.len() ==> uuid_v4_text((#[trigger] out@[k]).id@),
            decreases services@.len() - i,
        {
            let s = &services[i];
            let ghost pre = ss.subrange(0, i + 1);
            assert(pre.drop_last() =~= ss.subrange(0, i as int));
            assert(pre.last() == s@);
            let ghost base = findings_view(out@);
            let mut j: usize = 0;
            while j < s.ports.len()
                invariant
                    j <= s.ports@.len(),
                    findings_view(out@) == base + service_port_findings(s.name@, s.ports@.subrange(0, j as int)),
                    forall|k: int| 0 <= k < out@.len() ==> uuid_v4_text((#[trigger] out@[k]).id@),
                decreases s.ports@.len() - j,
            {
                let p = s.ports[j];
                let ghost sub = s.ports@.subrange(0, j + 1);
                assert(sub.drop_last() =~= s.ports@.subrange(0, j as int));
                if p.exposed {
                    match lookup_sensitive(p.port, p.protocol) {
                        Some(t) => {
                            let f = make_port_finding(&s.name, p.port, t.0, t.1, t.2);
                            let ghost before = out@;
                            out.push(f);
                            assert(findings_view(out@) =~= findings_view(before).push(f@));
                        },
                        None => {},
                    }
                }
                j = j + 1;
            }
            assert(s.ports@.subrange(0, s.ports@.len() as int) =~= s.ports@);
            i = i + 1;
        }
        assert(ss.subrange(0, services@.len() as int) =~= ss);
        out
    }
}

// ---------------------------------------------------------------------------
// Secrets in labels
// ---------------------------------------------------------------------------

/// Whether the regular expression `pattern` matches somewhere in `text`:
/// `None` when the pattern does not compile.
pub uninterp spec fn regex_match_outcome(pattern: Seq<char>, text: Seq<char>) -> Option<bool>;

/// Compiles `pattern` with `regex::Regex::new` and, when it compiles, tests
/// it against `text` with `Regex::is_match`. The result is named by
/// `regex_match_outcome`; the regular-expression semantics are not restated.
#[verifier::external_body]
fn regex_match(pattern: &str, text: &str) -> (r: Option<bool>)
    ensures
        r == regex_match_outcome(pattern@, text@),
{
    match regex::Regex::new(pattern) {
        Ok(re) => Some(re.is_match(text)),
        Err(_) => None,
    }
}

/// The patterns that look like secrets, with the severity and label a
/// match is reported with.
pub open spec fn secret_patterns() -> Seq<(&'static str, Severity, &'static str)> {
    seq![
        (r"(?i)(api[_-]?key|apikey)\s*[:=]\s*\S+", Severity::High, "API Key"),
        (r"(?i)(secret|SECRET)\s*[:=]\s*\S{8,}", Severity::High, "Secret"),
        (r"(?i)(password|PASSWORD|passwd)\s*[:=]\s*\S{4,}", Severity::Critical, "Password"),
        (r"(?i)(token|TOKEN)\s*[:=]\s*\S{8,}", Severity::High, "Token"),
        (r"(?i)(auth|AUTH)\s*[:=]\s*\S{8,}", Severity::High, "Auth Token"),
        (r"(?i)(jwt|JWT)\s*[:=]\s*\S+", Severity::High, "JWT Token"),
        (r"(?i)-----BEGIN\s+(RSA\s+)?PRIVATE\s+KEY-----", Severity::Critical, "Private Key"),
        (r"(?i)(connection[_-]?string|connstr)\s*[:=]\s*\S+", Severity::High, "Connection String"),
        (
            r"(?i)(DATABASE_URL|REDIS_URL|MONGODB_URI|MYSQL_URL|PGHOST|PASSWORD)\s*[:=]\s*\S+",
            Severity::Critical,
            "Database URL",
        ),
    ]
}

fn secret_pattern_table() -> (r: Vec<(&'static str, Severity, &'static str)>)
    ensures
        r@ == secret_patterns(),
{
    vec![
        (r"(?i)(api[_-]?key|apikey)\s*[:=]\s*\S+", Severity::High, "API Key"),
        (r"(?i)(secret|SECRET)\s*[:=]\s*\S{8,}", Severity::High, "Secret"),
        (r"(?i)(password|PASSWORD|passwd)\s*[:=]\s*\S{4,}", Severity::Critical, "Password"),
        (r"(?i)(token|TOKEN)\s*[:=]\s*\S{8,}", Severity::High, "Token"),
        (r"(?i)(auth|AUTH)\s*[:=]\s*\S{8,}", Severity::High, "Auth Token"),
        (r"(?i)(jwt|JWT)\s*[:=]\s*\S+", Severity::High, "JWT Token"),
        (r"(?i)-----BEGIN\s+(RSA\s+)?PRIVATE\s+KEY-----", Severity::Critical, "Private Key"),
        (r"(?i)(connection[_-]?string|connstr)\s*[:=]\s*\S+", Severity::High, "Connection String"),
        (
            r"(?i)(DATABASE_URL|REDIS_URL|MONGODB_URI|MYSQL_URL|PGHOST|PASSWORD)\s*[:=]\s*\S+",
            Severity::Critical,
            "Database URL",
        ),
    ]
}

/// Some secret pattern matches the text.
pub open spec fn any_secret_match(v: Seq<char>) -> bool {
    exists|k: int|
        0 <= k < secret_patterns().len() && regex_match_outcome(secret_patterns()[k].0@, v) == Some(
            true,
        )
}

/// A value shown in a finding: when its UTF-8 encoding is longer than 60
/// bytes, its first 57 bytes followed by `...`.
pub open spec fn shown_value(v: Seq<char>) -> Seq<char> {
    if encode_utf8(v).len() > 60 {
        decode_utf8(encode_utf8(v).subrange(0, 57)) + "..."@
    } else {
        v
    }
}

proof fn lemma_encode_concat(a: Seq<char>, b: Seq<char>)
    ensures
        encode_utf8(a + b) == encode_utf8(a) + encode_utf8(b),
    decreases a.len(),
{
    if a.len() > 0 {
        assert((a + b).drop_first() =~= a.drop_first() + b);
        lemma_encode_concat(a.drop_first(), b);
        assert((a + b)[0] == a[0]);
        assert(encode_utf8(a + b) =~= encode_scalar(a[0] as u32) + (encode_utf8(a.drop_first()) + encode_utf8(b)));
    } else {
        assert(a + b =~= b);
    }
}

/// A value shown in a finding never takes more than 60 bytes.
pub proof fn law_shown_value_fits(v: Seq<char>)
    requires
        cuttable(v),
    ensures
        encode_utf8(shown_value(v)).len() <= 60,
{
    let b = encode_utf8(v);
    if b.len() > 60 {
        let head = b.subrange(0, 57);
        encode_utf8_valid_utf8(v);
        valid_utf8_split(b, 57);
        decode_utf8_encode_utf8(head);
        let dots = "..."@;
        assert(dots.len() == 3 && dots[0] == '.' && dots[1] == '.' && dots[2] == '.') by {
            reveal_strlit("...");
        }
        assert(encode_utf8(dots).len() == 3) by {
            reveal_with_fuel(encode_utf8, 4);
            assert(dots.drop_first().drop_first().drop_first() =~= Seq::<char>::empty());
            assert('.' as u32 == 46);
        }
        lemma_encode_concat(decode_utf8(head), dots);
    }
}

/// Cutting a value to 57 bytes is possible: the value is short enough not to
/// be cut, or byte 57 starts a character.
pub open spec fn cuttable(v: Seq<char>) -> bool {
    encode_utf8(v).len() > 60 ==> is_char_boundary(encode_utf8(v), 57)
}

/// Every label value that some pattern matches can be shown.
pub open spec fn secrets_showable(ss: Seq<ServiceView>) -> bool {
    forall|i: int, j: int|
        0 <= i < ss.len() && 0 <= j < ss[i].labels.len() && any_secret_match(ss[i].labels[j].1)
            ==> cuttable(ss[i].labels[j].1)
}

/// The finding for a label value that a pattern matched.
pub open spec fn secret_finding(name: Seq<char>, value: Seq<char>, severity: Severity, label: Seq<char>) -> FindingView {
    FindingView {
        severity: severity,
        title: "Potential "@ + label + " in configuration"@,
        description: "Container '"@ + name + "' may have a "@ + unicode_lowercase(label)
            + " in its configuration: \""@ + shown_value(value) + "\""@,
        source: "secret_detection"@,
        remediation: Some(
            "Use Docker secrets or environment-specific secret injection rather than hardcoded values"@,
        ),
    }
}

/// The findings for one value: one per matching pattern, in table order.
pub open spec fn value_findings(
    name: Seq<char>,
    value: Seq<char>,
    patterns: Seq<(&'static str, Severity, &'static str)>,
) -> Seq<FindingView>
    decreases patterns.len(),
{
    if patterns.len() == 0 {
        Seq::empty()
    } else {
        let prev = value_findings(name, value, patterns.drop_last());
        let p = patterns.last();
        if regex_match_outcome(p.0@, value) == Some(true) {
            prev.push(secret_finding(name, value, p.1, p.2@))
        } else {
            prev
        }
    }
}

/// The findings for the label values of one service, label by label.
pub open spec fn label_findings(name: Seq<char>, labels: Seq<(Seq<char>, Seq<char>)>) -> Seq<FindingView>
    decreases labels.len(),
{
    if labels.len() == 0 {
        Seq::empty()
    } else {
        label_findings(name, labels.drop_last()) + value_findings(name, labels.last().1, secret_patterns())
    }
}

/// The secret findings of all services, service by service.
pub open spec fn all_secret_findings(ss: Seq<ServiceView>) -> Seq<FindingView>
    decreases ss.len(),
{
    if ss.len() == 0 {
        Seq::empty()
    } else {
        all_secret_findings(ss.drop_last()) + label_findings(ss.last().name, ss.last().labels)
    }
}

fn shown(v: &String) -> (r: String)
    requires
        cuttable(v@),
    ensures
        r@ == shown_value(v@),
{
    let s = v.as_str();
    if s.as_bytes().len() > 60 {
        let (head, _tail) = s.split_at(57);
        let mut r = owned(head);
        r.append("...");
        proof {
            encode_utf8_decode_utf8(head@);
        }
        r
    } else {
        v.clone()
    }
}

fn make_secret_finding(name: &String, value: &String, severity: Severity, label: &str) -> (f: SecurityFinding)
    requires
        cuttable(value@),
    ensures
        f@ == secret_finding(name@, value@, severity, label@),
        uuid_v4_text(f.id@),
{
    let mut title = owned("Potential ");
    title.append(label);
    title.append(" in configuration");
    let lower = to_lowercase(label);
    let cut = shown(value);
    let mut description = owned("Container '");
    description.append(name.as_str());
    description.append("' may have a ");
    description.append(lower.as_str());
    description.append(" in its configuration: \"");
    description.append(cut.as_str());
    description.append("\"");
    SecurityFinding {
        id: new_uuid_v4(),
        severity,
        title,
        description,
        source: owned("secret_detection"),
        remediation: Some(
            owned(
                "Use Docker secrets or environment-specific secret injection rather than hardcoded values",
            ),
        ),
        timestamp: system_now(),
    }
}

fn value_ok(value: &String) -> (b: bool)
    ensures
        b == (any_secret_match(value@) ==> cuttable(value@)),
{
    let patterns = secret_pattern_table();
    let mut matched = false;
    let mut k: usize = 0;
    while k < patterns.len()
        invariant
            patterns@ == secret_patterns(),
            k <= patterns@.len(),
            matched == exists|x: int|
                0 <= x < k && regex_match_outcome(secret_patterns()[x].0@, value@) == Some(true),
        decreases patterns@.len() - k,
    {
        let m = regex_match(patterns[k].0, value.as_str()) == Some(true);
        proof {
            if m {
                assert(0 <= k < k + 1 && regex_match_outcome(secret_patterns()[k as int].0@, value@)
                    == Some(true));
            }
        }
        matched = matched || m;
        k = k + 1;
    }
    if !matched {
        return true;
    }
    let s = value.as_str();
    s.as_bytes().len() <= 60 || s.is_char_boundary(57)
}

/// Looks for secrets in service labels.
pub struct SecretDetector;

impl SecretDetector {
    /// A detector.
    pub fn new() -> Self {
        SecretDetector
    }

    /// A finding for every label value of every service and every secret
    /// pattern that matches it, service by service, label by label, pattern
    /// by pattern; the value is shown cut to 57 bytes when longer than 60.
    /// Each finding gets a fresh id. Cutting must fall on a character
    /// boundary, which `secrets_showable` requires.
    pub fn detect_secrets(&self, services: &Vec<Service>) -> (r: Vec<SecurityFinding>)
        requires
            secrets_showable(services_view(services@)),
        ensures
            findings_view(r@) == all_secret_findings(services_view(services@)),
            forall|k: int| 0 <= k < r@.len() ==> uuid_v4_text((#[trigger] r@[k]).id@),
    {
        let ghost ss = services_view(services@);
        let patterns = secret_pattern_table();
        let mut out: Vec<SecurityFinding> = Vec::new();
        let mut i: usize = 0;
        while i < services.len()
            invariant
                i <= services@.len(),
                ss == services_view(services@),
                secrets_showable(ss),
                patterns@ == secret_patterns(),
                findings_view(out@) == all_secret_findings(ss.subrange(0, i as int)),
                forall|k: int| 0 <= k < out@.len() ==> uuid_v4_text((#[trigger] out@[k]).id@),
            decreases services@.len() - i,
        {
            let s = &services[i];
            let ghost pre = ss.subrange(0, i + 1);
            assert(pre.drop_last() =~= ss.subrange(0, i as int));
            assert(pre.last() == s@);
            assert(ss[i as int] == s@);
            let ghost base = findings_view(out@);
            let ghost labels = s@.labels;
            let mut j: usize = 0;
            while j < s.labels.len()
                invariant
                    j <= s.labels@.len(),
                    i < ss.len(),
                    ss[i as int] == s@,
                    labels == s@.labels,
                    secrets_showable(ss),
                    patterns@ == secret_patterns(),
                    findings_view(out@) == base + label_findings(s.name@, labels.subrange(0, j as int)),
                    forall|k: int| 0 <= k < out@.len() ==> uuid_v4_text((#[trigger] out@[k]).id@),
                decreases s.labels@.len() - j,
            {
                let value = &s.labels[j].1;
                let ghost sub = labels.subrange(0, j + 1);
                assert(sub.drop_last() =~= labels.subrange(0, j as int));
                assert(sub.last().1 == value@);
                let ghost mid = findings_view(out@);
                let mut k: usize = 0;
                while k < patterns.len()
                    invariant
                        k <= patterns@.len(),
                        patterns@ == secret_patterns(),
                        any_secret_match(value@) ==> cuttable(value@),
                        findings_view(out@) == mid + value_findings(
                            s.name@,
                            value@,
                            secret_patterns().subrange(0, k as int),
                        ),
                        forall|x: int| 0 <= x < out@.len() ==> uuid_v4_text((#[trigger] out@[x]).id@),
                    decreases patterns@.len() - k,
                {
                    let ghost ps = secret_patterns().subrange(0, k + 1);
                    assert(ps.drop_last() =~= secret_patterns().subrange(0, k as int));
                    let (pattern, severity, label) = patterns[k];
                    if regex_match(pattern, value.as_str()) == Some(true) {
                        proof {
                            assert(0 <= k < secret_patterns().len() && regex_match_outcome(
                                secret_patterns()[k as int].0@,
                                value@,
                            ) == Some(true));
                        }
                        let f = make_secret_finding(&s.name, value, severity, label);
                        let ghost before = out@;
                        out.push(f);
                        assert(findings_view(out@) =~= findings_view(before).push(f@));
                    }
                    k = k + 1;
                }
                assert(secret_patterns().subrange(0, patterns@.len() as int) =~= secret_patterns());
                assert(findings_view(out@) =~= base + label_findings(s.name@, sub));
                j = j + 1;
            }
            assert(labels.subrange(0, s.labels@.len() as int) =~= labels);
            i = i + 1;
        }
        assert(ss.subrange(0, services@.len() as int) =~= ss);
        out
    }

    /// Secret detection over services whose matched label values can all be
    /// shown: `None` when some matched value longer than 60 bytes cannot be
    /// cut at byte 57, otherwise the findings of [`Self::detect_secrets`].
    pub fn detect_secrets_checked(&self, services: &Vec<Service>) -> (r: Option<Vec<SecurityFinding>>)
        ensures
            r is Some <==> secrets_showable(services_view(services@)),
            r matches Some(v) ==> findings_view(v@) == all_secret_findings(services_view(services@)),
    {
        let ghost ss = services_view(services@);
        let mut i: usize = 0;
        while i < services.len()
            invariant
                i <= services@.len(),
                ss == services_view(services@),
                forall|a: int, b: int|
                    0 <= a < i && 0 <= b < ss[a].labels.len() && any_secret_match(ss[a].labels[b].1)
                        ==> cuttable(ss[a].labels[b].1),
            decreases services@.len() - i,
        {
            let s = &services[i];
            assert(ss[i as int] == s@);
            let mut j: usize = 0;
            while j < s.labels.len()
                invariant
                    j <= s.labels@.len(),
                    i < ss.len(),
                    ss == services_view(services@),
                    ss[i as int] == s@,
                    forall|a: int, b: int|
                        0 <= a < i && 0 <= b < ss[a].labels.len() && any_secret_match(ss[a].labels[b].1)
                            ==> cuttable(ss[a].labels[b].1),
                    forall|b: int|
                        0 <= b < j && any_secret_match(ss[i as int].labels[b].1) ==> cuttable(
                            ss[i as int].labels[b].1,
                        ),
                decreases s.labels@.len() - j,
            {
                assert(ss[i as int].labels[j as int].1 == s.labels@[j as int].1@);
                if !value_ok(&s.labels[j].1) {
                    proof {
                        let v = ss[i as int].labels[j as int].1;
                        assert(any_secret_match(v) && !cuttable(v));
                        assert(!secrets_showable(ss));
                    }
                    return None;
                }
                j = j + 1;
            }
            i = i + 1;
        }
        Some(self.detect_secrets(services))
    }
}

// ---------------------------------------------------------------------------
// Secure ports
// ---------------------------------------------------------------------------

/// Ports that are expected to speak TLS.
pub open spec fn is_secure_port(port: u16) -> bool {
    port == 443 || port == 8443 || port == 6443
}

/// The exposed secure ports of one service, each with the service's name.
pub open spec fn service_secure_ports(name: Seq<char>, ports: Seq<Port>) -> Seq<(Seq<char>, u16)>
    decreases ports.len(),
{
    if ports.len() == 0 {
        Seq::empty()
    } else {
        let prev = service_secure_ports(name, ports.drop_last());
        let p = ports.last();
        if is_secure_port(p.port) && p.exposed {
            prev.push((name, p.port))
        } else {
            prev
        }
    }
}

/// The exposed secure ports of all services, service by service.
pub open spec fn secure_targets(ss: Seq<ServiceView>) -> Seq<(Seq<char>, u16)>
    decreases ss.len(),
{
    if ss.len() == 0 {
        Seq::empty()
    } else {
        secure_targets(ss.drop_last()) + service_secure_ports(ss.last().name, ss.last().ports)
    }
}

/// The finding for a secure port that did not accept a connection.
pub open spec fn unreachable_finding(name: Seq<char>, port: u16) -> FindingView {
    FindingView {
        severity: Severity::Low,
        title: "Secure port unreachable"@,
        description: "Service '"@ + name + "' exposes secure port "@ + decimal(port as nat)
            + " but it did not accept a TCP connection from the host"@,
        source: "tls_check"@,
        remediation: Some(
            "Verify the service is listening on the exposed secure port and that host-to-container networking is configured correctly"@,
        ),
    }
}

/// The findings for the targets whose connection attempt failed, in order.
pub open spec fn unreachable_findings(targets: Seq<(Seq<char>, u16)>, reachable: Seq<bool>) -> Seq<FindingView>
    decreases targets.len(),
{
    if targets.len() == 0 {
        Seq::empty()
    } else {
        let n = targets.len() - 1;
        let prev = unreachable_findings(targets.drop_last(), reachable);
        if reachable[n] {
            prev
        } else {
            prev.push(unreachable_finding(targets.last().0, targets.last().1))
        }
    }
}

/// The view of a list of named ports.
pub open spec fn targets_view(v: Seq<(String, u16)>) -> Seq<(Seq<char>, u16)> {
    v.map_values(|t: (String, u16)| (t.0@, t.1))
}

fn make_unreachable_finding(name: &String, port: u16) -> (f: SecurityFinding)
    ensures
        f@ == unreachable_finding(name@, port),
        uuid_v4_text(f.id@),
{
    let digits = u64_to_decimal(port as u64);
    let mut description = owned("Service '");
    description.append(name.as_str());
    description.append("' exposes secure port ");
    description.append(digits.as_str());
    description.append(" but it did not accept a TCP connection from the host");
    SecurityFinding {
        id: new_uuid_v4(),
        severity: Severity::Low,
        title: owned("Secure port unreachable"),
        description,
        source: owned("tls_check"),
        remediation: Some(
            owned(
                "Verify the service is listening on the exposed secure port and that host-to-container networking is configured correctly",
            ),
        ),
        timestamp: system_now(),
    }
}

/// Checks that exposed secure ports accept connections. The connection
/// attempts themselves are made by the caller, one per target.
pub struct TlsChecker;

impl TlsChecker {
    /// A checker.
    pub fn new() -> Self {
        TlsChecker
    }

    /// The exposed ports 443, 8443 and 6443 of the services, with the
    /// service's name, service by service: the ports to try to connect to
    /// on the local host.
    pub fn secure_port_targets(&self, services: &Vec<Service>) -> (r: Vec<(String, u16)>)
        ensures
            targets_view(r@) == secure_targets(services_view(services@)),
    {
        let ghost ss = services_view(services@);
        let mut out: Vec<(String, u16)> = Vec::new();
        let mut i: usize = 0;
        while i < services.len()
            invariant
                i <= services@.len(),
                ss == services_view(services@),
                targets_view(out@) == secure_targets(ss.subrange(0, i as int)),
            decreases services@.len() - i,
        {
            let s = &services[i];
            let ghost pre = ss.subrange(0, i + 1);
            assert(pre.drop_last() =~= ss.subrange(0, i as int));
            assert(pre.last() == s@);
            let ghost base = targets_view(out@);
            let mut j: usize = 0;
            while j < s.ports.len()
                invariant
                    j <= s.ports@.len(),
                    targets_view(out@) == base + service_secure_ports(s.name@, s.ports@.subrange(0, j as int)),
                decreases s.ports@.len() - j,
            {
                let p = s.ports[j];
                let ghost sub = s.ports@.subrange(0, j + 1);
                assert(sub.drop_last() =~= s.ports@.subrange(0, j as int));
                if (p.port == 443 || p.port == 8443 || p.port == 6443) && p.exposed {
                    let ghost before = out@;
                    out.push((s.name.clone(), p.port));
                    assert(targets_view(out@) =~= targets_view(before).push((s.name@, p.port)));
                }
                j = j + 1;
            }
            assert(s.ports@.subrange(0, s.ports@.len() as int) =~= s.ports@);
            i = i + 1;
        }
        assert(ss.subrange(0, services@.len() as int) =~= ss);
        out
    }

    /// A low-severity finding for each secure-port target whose connection
    /// attempt failed; `reachable[i]` is the outcome for the `i`-th target
    /// of [`Self::secure_port_targets`].
    pub fn check_service_tls(&self, services: &Vec<Service>, reachable: &Vec<bool>) -> (r: Vec<SecurityFinding>)
        requires
            reachable@.len() == secure_targets(services_view(services@)).len(),
        ensures
            findings_view(r@) == unreachable_findings(secure_targets(services_view(services@)), reachable@),
            forall|k: int| 0 <= k < r@.len() ==> uuid_v4_text((#[trigger] r@[k]).id@),
    {
        let targets = self.secure_port_targets(services);
        let ghost tv = targets_view(targets@);
        let mut out: Vec<SecurityFinding> = Vec::new();
        let mut i: usize = 0;
        while i < targets.len()
            invariant
                i <= targets@.len(),
                tv == targets_view(targets@),
                reachable@.len() == tv.len(),
                findings_view(out@) == unreachable_findings(tv.subrange(0, i as int), reachable@),
                forall|k: int| 0 <= k < out@.len() ==> uuid_v4_text((#[trigger] out@[k]).id@),
            decreases targets@.len() - i,
        {
            let ghost sub = tv.subrange(0, i + 1);
            assert(sub.drop_last() =~= tv.subrange(0, i as int));
            if !reachable[i] {
                let f = make_unreachable_finding(&targets[i].0, targets[i].1);
                let ghost before = out@;
                out.push(f);
                assert(findings_view(out@) =~= findings_view(before).push(f@));
            }
            i = i + 1;
        }
        assert(tv.subrange(0, targets@.len() as int) =~= tv);
        out
    }
}

/// Audits container configurations. Only construction exists; the audit
/// has no implementation yet.
pub struct ConfigAuditor;

impl ConfigAuditor {
    /// An auditor.
    pub fn new() -> Self {
        ConfigAuditor
    }
}

/// Runs the security analyzers. Only construction exists; running all of
/// them at once has no implementation yet.
pub struct SecurityEngine;

impl SecurityEngine {
    /// An engine.
    pub fn new() -> Self {
        SecurityEngine
    }
}

} // verus!
