use clawden::discovery::{DiscoveredEndpoint, DiscoveryMethod, DiscoveryService};

#[test]
fn register_and_list() {
    let mut svc = DiscoveryService::new();
    svc.register_endpoint(DiscoveredEndpoint {
        host: "10.0.0.1".to_string(),
        port: 8080,
        method: DiscoveryMethod::Manual,
        runtime_hint: Some("openclaw".to_string()),
    });

    assert_eq!(svc.list_endpoints().len(), 1);
}

#[test]
fn scan_finds_registered_endpoints() {
    let mut svc = DiscoveryService::new();
    svc.register_endpoint(DiscoveredEndpoint {
        host: "10.0.0.1".to_string(),
        port: 18789,
        method: DiscoveryMethod::NetworkScan,
        runtime_hint: None,
    });

    let found = svc.scan_ports(&["10.0.0.1".to_string()], &[18789, 42617]);
    assert_eq!(found.len(), 1);
    assert_eq!(found[0].port, 18789);
}

#[test]
fn dns_sd_filters_correctly() {
    let mut svc = DiscoveryService::new();
    svc.register_endpoint(DiscoveredEndpoint {
        host: "agent1.local".to_string(),
        port: 8080,
        method: DiscoveryMethod::DnsSd,
        runtime_hint: Some("zeroclaw".to_string()),
    });
    svc.register_endpoint(DiscoveredEndpoint {
        host: "10.0.0.2".to_string(),
        port: 8080,
        method: DiscoveryMethod::Manual,
        runtime_hint: None,
    });

    let dns_results = svc.discover_dns_sd();
    assert_eq!(dns_results.len(), 1);
    assert_eq!(dns_results[0].host, "agent1.local");
}

#[test]
fn register_returns_host_and_port_as_key() {
    let mut svc = DiscoveryService::new();
    let key = svc.register_endpoint(DiscoveredEndpoint {
        host: "10.0.0.1".to_string(),
        port: 65535,
        method: DiscoveryMethod::Manual,
        runtime_hint: None,
    });
    assert_eq!(key, "10.0.0.1:65535");
    let zero = svc.register_endpoint(DiscoveredEndpoint {
        host: "h".to_string(),
        port: 0,
        method: DiscoveryMethod::Manual,
        runtime_hint: None,
    });
    assert_eq!(zero, "h:0");
}

#[test]
fn register_same_key_replaces_in_place() {
    let mut svc = DiscoveryService::new();
    svc.register_endpoint(DiscoveredEndpoint {
        host: "a".to_string(),
        port: 1,
        method: DiscoveryMethod::Manual,
        runtime_hint: None,
    });
    svc.register_endpoint(DiscoveredEndpoint {
        host: "b".to_string(),
        port: 2,
        method: DiscoveryMethod::Manual,
        runtime_hint: None,
    });
    svc.register_endpoint(DiscoveredEndpoint {
        host: "a".to_string(),
        port: 1,
        method: DiscoveryMethod::DnsSd,
        runtime_hint: Some("zeroclaw".to_string()),
    });
    let all = svc.list_endpoints();
    assert_eq!(all.len(), 2);
    assert_eq!(all[0].host, "a");
    assert_eq!(all[0].method, DiscoveryMethod::DnsSd);
    assert_eq!(all[1].host, "b");
}

#[test]
fn remove_endpoint_by_key() {
    let mut svc = DiscoveryService::new();
    let key = svc.register_endpoint(DiscoveredEndpoint {
        host: "a".to_string(),
        port: 1,
        method: DiscoveryMethod::Manual,
        runtime_hint: None,
    });
    assert!(!svc.remove_endpoint("a:2"));
    assert!(svc.remove_endpoint(&key));
    assert!(!svc.remove_endpoint(&key));
    assert_eq!(svc.list_endpoints().len(), 0);
}

#[test]
fn scan_goes_host_by_host_and_port_by_port() {
    let mut svc = DiscoveryService::new();
    for (host, port) in [("b", 2u16), ("a", 2), ("a", 1)] {
        svc.register_endpoint(DiscoveredEndpoint {
            host: host.to_string(),
            port,
            method: DiscoveryMethod::NetworkScan,
            runtime_hint: None,
        });
    }
    let found = svc.scan_ports(&["a".to_string(), "b".to_string(), "c".to_string()], &[1, 2]);
    let seen: Vec<(String, u16)> = found.iter().map(|e| (e.host.clone(), e.port)).collect();
    assert_eq!(
        seen,
        vec![("a".to_string(), 1), ("a".to_string(), 2), ("b".to_string(), 2)]
    );
}
