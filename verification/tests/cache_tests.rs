use localwebs::cache::{needs_full_reprobe, ServiceCache, FULL_REPROBE_INTERVAL_NANOS};
use localwebs::config::Config;
use localwebs::detector::{finish_identification, ProbeOutcome};
use localwebs::models::{DetectionSource, OpenPort, ServiceInfo};

fn service(port: u16, process: Option<&str>, pid: Option<u32>) -> ServiceInfo {
    ServiceInfo {
        port,
        name: format!("svc {}", port),
        description: None,
        source: DetectionSource::Pattern,
        url: format!("http://127.0.0.1:{}", port),
        title: None,
        server_header: None,
        process_name: process.map(String::from),
        pid,
        is_healthy: false,
        response_time_ms: None,
        start_time: Some(100),
    }
}

fn ports_of(list: &[ServiceInfo]) -> Vec<u16> {
    list.iter().map(|s| s.port).collect()
}

#[test]
fn cache_keeps_one_service_per_port_in_order() {
    let mut cache = ServiceCache::new();
    cache.insert(service(8080, None, None));
    cache.insert(service(3000, None, None));
    cache.insert(service(5173, None, None));
    cache.insert(service(3000, Some("node"), Some(1)));
    assert_eq!(cache.len(), 3);
    assert_eq!(ports_of(&cache.services_by_port()), vec![3000, 5173, 8080]);
    assert_eq!(cache.get(3000).unwrap().process_name.as_deref(), Some("node"));
    cache.remove(5173);
    cache.remove(1);
    assert_eq!(ports_of(&cache.services_by_port()), vec![3000, 8080]);
    assert!(cache.get(5173).is_none());
    cache.clear();
    assert_eq!(cache.len(), 0);
}

#[test]
fn plan_finds_new_changed_and_removed_ports() {
    let mut cache = ServiceCache::new();
    cache.insert(service(3000, Some("node"), Some(1)));
    cache.insert(service(8000, Some("python3"), Some(2)));
    cache.insert(service(9000, Some("java"), Some(3)));
    let current = vec![
        OpenPort::with_process(5173, "node".to_string(), Some(4)),
        OpenPort::with_process(3000, "node".to_string(), Some(1)),
        OpenPort::with_process(8000, "python3".to_string(), Some(22)),
    ];
    let plan = cache.plan_scan(&current);
    assert_eq!(plan.new_ports.iter().map(|p| p.port).collect::<Vec<_>>(), vec![5173]);
    assert_eq!(plan.changed_ports.iter().map(|p| p.port).collect::<Vec<_>>(), vec![8000]);
    assert_eq!(plan.removed_ports, vec![9000]);

    let probed = vec![service(5173, Some("node"), Some(4)), service(8000, Some("python3"), Some(22))];
    cache.apply_scan(probed, &plan.removed_ports);
    let list = cache.services_by_port();
    assert_eq!(ports_of(&list), vec![3000, 5173, 8000]);
    assert_eq!(list[2].pid, Some(22));
    assert_eq!(list[0].pid, Some(1));
}

#[test]
fn unchanged_scan_plans_nothing() {
    let mut cache = ServiceCache::new();
    cache.insert(service(3000, Some("node"), Some(1)));
    let current = vec![OpenPort::with_process(3000, "node".to_string(), Some(1))];
    let plan = cache.plan_scan(&current);
    assert!(plan.new_ports.is_empty());
    assert!(plan.changed_ports.is_empty());
    assert!(plan.removed_ports.is_empty());
}

#[test]
fn reprobe_targets_follow_the_cache() {
    let mut cache = ServiceCache::new();
    cache.insert(service(9000, Some("java"), Some(3)));
    cache.insert(service(3000, None, None));
    let targets = cache.reprobe_targets();
    assert_eq!(targets.len(), 2);
    assert_eq!(targets[0].port, 3000);
    assert_eq!(targets[0].process_name, None);
    assert_eq!(targets[1].port, 9000);
    assert_eq!(targets[1].process_name.as_deref(), Some("java"));
    assert_eq!(targets[1].pid, Some(3));
    assert_eq!(targets[1].start_time, Some(100));
}

#[test]
fn reprobe_schedule() {
    assert!(!needs_full_reprobe(0));
    assert!(!needs_full_reprobe(FULL_REPROBE_INTERVAL_NANOS));
    assert!(needs_full_reprobe(FULL_REPROBE_INTERVAL_NANOS + 1));
    let mut cache = ServiceCache::new();
    cache.insert(service(3000, None, None));
    let stats = cache.stats(60_500_000_000);
    assert_eq!(stats.service_count, 1);
    assert_eq!(stats.last_full_scan_seconds_ago(), 60);
    assert_eq!(stats.time_until_full_scan_nanos, 239_500_000_000);
    assert_eq!(stats.next_full_scan_in_seconds(), 239);
    let late = cache.stats(400_000_000_000);
    assert_eq!(late.time_until_full_scan_nanos, 0);
    assert_eq!(late.next_full_scan_in_seconds(), 0);
}

#[test]
fn reprobing_every_service_keeps_the_ports() {
    let config = Config::default();
    let mut cache = ServiceCache::new();
    cache.insert(service(3000, Some("node"), Some(1)));
    cache.insert(service(8888, None, None));
    for target in cache.reprobe_targets() {
        let refreshed = finish_identification(&config, &target, ProbeOutcome::Http(None));
        cache.insert(refreshed);
    }
    let list = cache.services_by_port();
    assert_eq!(ports_of(&list), vec![3000, 8888]);
    assert_eq!(list[0].name, "Node.js Service");
    assert_eq!(list[1].name, "Jupyter Notebook");
    assert_eq!(list[0].start_time, Some(100));
}
