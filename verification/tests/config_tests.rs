use localwebs::config::{
    default_ports, default_portal_port, default_probe_timeout, default_scan_timeout,
    default_url_path, Config, KnownService, PortalConfig, ScanRanges,
};

#[test]
fn default_config_values() {
    let config = Config::default();
    assert_eq!(config.portal.port, 4444);
    assert_eq!(config.portal.scan_timeout_ms, 500);
    assert_eq!(config.portal.probe_timeout_ms, 2000);
    assert!(config.services.is_empty());
    assert_eq!(config.scan_ranges.ports, default_ports());
}

#[test]
fn default_helpers() {
    assert_eq!(default_portal_port(), 4444);
    assert_eq!(default_scan_timeout(), 500);
    assert_eq!(default_probe_timeout(), 2000);
    assert_eq!(default_url_path(), "/");
    assert_eq!(
        default_ports(),
        vec![3000, 3001, 3002, 3003, 4200, 4300, 5000, 5001, 5173, 8000, 8001, 8080, 8081, 8082, 8888, 9000, 9001]
    );
    let portal = PortalConfig::default();
    assert_eq!(portal.port, 4444);
    assert_eq!(ScanRanges::default().ports.len(), 17);
}

fn known(port: u16, name: &str) -> KnownService {
    KnownService {
        port,
        name: name.to_string(),
        description: Some("Frontend".to_string()),
        url_path: "/".to_string(),
    }
}

#[test]
fn test_get_known_service() {
    let mut config = Config::default();
    config.services.push(known(3000, "React App"));

    assert!(config.get_known_service(3000).is_some());
    assert!(config.get_known_service(8080).is_none());
    assert_eq!(config.get_known_service(3000).unwrap().name, "React App");
}

#[test]
fn get_known_service_takes_the_first_match() {
    let mut config = Config::default();
    config.services.push(known(8080, "API"));
    config.services.push(known(3000, "First"));
    config.services.push(known(3000, "Second"));
    assert_eq!(config.get_known_service(3000).unwrap().name, "First");
    assert_eq!(config.get_known_service(8080).unwrap().name, "API");
    assert!(config.get_known_service(1).is_none());
}
