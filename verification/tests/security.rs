use monitaur::models::{
    severity_from_stored, ExposureState, Health, Port, Protocol, Service, ServiceClass,
    ServiceType, Severity,
};
use monitaur::security::{PortAnalyzer, SecretDetector, TlsChecker};

fn service(name: &str, ports: Vec<Port>, labels: Vec<(&str, &str)>) -> Service {
    Service {
        id: format!("id-{name}"),
        name: name.to_string(),
        image: None,
        service_type: ServiceType::Container,
        class: ServiceClass::Unknown,
        ports,
        networks: vec![],
        health: Health::Healthy,
        status: "running".to_string(),
        labels: labels
            .into_iter()
            .map(|(k, v)| (k.to_string(), v.to_string()))
            .collect(),
        exposure_state: ExposureState::Exposed,
    }
}

fn tcp(port: u16, exposed: bool) -> Port {
    Port { port, protocol: Protocol::Tcp, exposed }
}

#[test]
fn exposed_ssh_is_critical() {
    let findings = PortAnalyzer::new().analyze_ports(&vec![service("web", vec![tcp(22, true)], vec![])]);
    assert_eq!(findings.len(), 1);
    let f = &findings[0];
    assert_eq!(f.severity, Severity::Critical);
    assert_eq!(f.title, "Exposed SSH port");
    assert_eq!(
        f.description,
        "Container 'web' exposes SSH port 22 (SSH remote administration) to the host network"
    );
    assert_eq!(f.source, "port_analysis");
    assert_eq!(
        f.remediation.as_deref(),
        Some("Bind port 22 only to localhost (127.0.0.1) or remove the port mapping if not needed")
    );
    assert_eq!(f.id.len(), 36);
    let c: Vec<char> = f.id.chars().collect();
    assert_eq!((c[8], c[13], c[14], c[18], c[23]), ('-', '-', '4', '-', '-'));
    assert!(['8', '9', 'a', 'b'].contains(&c[19]));
    assert!(f.id.chars().all(|ch| ch == '-' || ch.is_ascii_digit() || ('a'..='f').contains(&ch)));
}

#[test]
fn unexposed_and_udp_ports_are_not_reported() {
    let udp = Port { port: 22, protocol: Protocol::Udp, exposed: true };
    let findings = PortAnalyzer::new().analyze_ports(&vec![service(
        "svc",
        vec![tcp(22, false), udp, tcp(12345, true)],
        vec![],
    )]);
    assert!(findings.is_empty());
}

#[test]
fn each_exposed_sensitive_port_gives_a_finding() {
    let findings = PortAnalyzer::new().analyze_ports(&vec![
        service("a", vec![tcp(5432, true), tcp(80, true)], vec![]),
        service("b", vec![tcp(6379, true)], vec![]),
    ]);
    let titles: Vec<&str> = findings.iter().map(|f| f.title.as_str()).collect();
    assert_eq!(titles, vec!["Exposed PostgreSQL port", "Exposed HTTP port", "Exposed Redis port"]);
    assert_eq!(findings[1].severity, Severity::Medium);
}

#[test]
fn password_labels_are_secrets() {
    let svc = service("db", vec![], vec![("DB_PASSWORD", "password=hunter22")]);
    let findings = SecretDetector::new().detect_secrets_checked(&vec![svc]).unwrap();
    let titles: Vec<&str> = findings.iter().map(|f| f.title.as_str()).collect();
    assert_eq!(
        titles,
        vec!["Potential Password in configuration", "Potential Database URL in configuration"]
    );
    assert_eq!(findings[0].severity, Severity::Critical);
    assert_eq!(
        findings[1].description,
        "Container 'db' may have a database url in its configuration: \"password=hunter22\""
    );
    assert_eq!(findings[0].source, "secret_detection");
}

#[test]
fn long_secret_values_are_cut() {
    let value = format!("api_key={}", "k".repeat(70));
    let svc = service("app", vec![], vec![("KEY", value.as_str())]);
    let findings = SecretDetector::new().detect_secrets_checked(&vec![svc]).unwrap();
    assert_eq!(findings.len(), 1);
    let shown = format!("{}...", &value[..57]);
    assert_eq!(
        findings[0].description,
        format!("Container 'app' may have a api key in its configuration: \"{shown}\"")
    );
}

#[test]
fn harmless_labels_give_nothing() {
    let svc = service("app", vec![], vec![("maintainer", "someone")]);
    assert!(SecretDetector::new().detect_secrets_checked(&vec![svc]).unwrap().is_empty());
}

#[test]
fn unreachable_secure_ports_are_low_findings() {
    let services = vec![service("edge", vec![tcp(443, true), tcp(8443, false), tcp(6443, true)], vec![])];
    let checker = TlsChecker::new();
    let targets = checker.secure_port_targets(&services);
    assert_eq!(targets, vec![("edge".to_string(), 443), ("edge".to_string(), 6443)]);
    let findings = checker.check_service_tls(&services, &vec![true, false]);
    assert_eq!(findings.len(), 1);
    assert_eq!(findings[0].severity, Severity::Low);
    assert_eq!(findings[0].title, "Secure port unreachable");
    assert_eq!(
        findings[0].description,
        "Service 'edge' exposes secure port 6443 but it did not accept a TCP connection from the host"
    );
}

#[test]
fn stored_severities_are_read_back() {
    assert_eq!(severity_from_stored("Critical"), Severity::Critical);
    assert_eq!(severity_from_stored("High"), Severity::High);
    assert_eq!(severity_from_stored("Medium"), Severity::Medium);
    assert_eq!(severity_from_stored("Low"), Severity::Low);
    assert_eq!(severity_from_stored("Info"), Severity::Info);
    assert_eq!(severity_from_stored("high"), Severity::Info);
    assert_eq!(severity_from_stored("Hi\\u0067h"), Severity::High);
    assert_eq!(severity_from_stored("bad\"quote"), Severity::Info);
}
