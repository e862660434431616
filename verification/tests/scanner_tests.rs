use localwebs::models::OpenPort;
use localwebs::number::{parse_i64_str, push_decimal};
use localwebs::scanner::{merge_scan_results, parse_elapsed_seconds, process_start_time, PortScanner};
use localwebs::web::ScanResponse;

#[test]
fn scanner_settings() {
    let scanner = PortScanner::new(500, vec![3000, 8080]);
    assert_eq!(scanner.timeout_ms(), 500);
    assert_eq!(scanner.fallback_ports(), &vec![3000, 8080]);
}

#[test]
fn keep_responsive_drops_silent_ports() {
    let ports = vec![OpenPort::new(1), OpenPort::new(2), OpenPort::new(3)];
    let kept = PortScanner::keep_responsive(ports, &vec![true, false, true]);
    assert_eq!(kept.iter().map(|p| p.port).collect::<Vec<_>>(), vec![1, 3]);
}

#[test]
fn fallback_results_are_bare_ports() {
    let scanner = PortScanner::new(500, vec![3000, 5173, 8080]);
    let found = scanner.fallback_results(&vec![false, true, true]);
    assert_eq!(found.iter().map(|p| p.port).collect::<Vec<_>>(), vec![5173, 8080]);
    assert!(found.iter().all(|p| p.process_name.is_none() && p.pid.is_none()));
}

#[test]
fn merge_adds_unlisted_fallback_ports() {
    let listed = vec![OpenPort::with_process(8080, "java".to_string(), Some(5))];
    let fallback = vec![OpenPort::new(3000), OpenPort::new(8080)];
    let merged = merge_scan_results(listed, fallback);
    assert_eq!(merged.iter().map(|p| p.port).collect::<Vec<_>>(), vec![8080, 3000]);
    assert_eq!(merged[0].process_name.as_deref(), Some("java"));
    let only_fallback = merge_scan_results(vec![], vec![OpenPort::new(9000)]);
    assert_eq!(only_fallback.len(), 1);
}

#[test]
fn elapsed_seconds_from_ps() {
    assert_eq!(parse_elapsed_seconds("   1234\n"), Some(1234));
    assert_eq!(parse_elapsed_seconds("+5"), Some(5));
    assert_eq!(parse_elapsed_seconds(""), None);
    assert_eq!(parse_elapsed_seconds("12 s"), None);
    assert_eq!(process_start_time("  60\n", 1_000), Some(940));
    assert_eq!(process_start_time("oops", 1_000), None);
}

#[test]
fn i64_parsing_edges() {
    assert_eq!(parse_i64_str("-9223372036854775808"), Some(i64::MIN));
    assert_eq!(parse_i64_str("9223372036854775807"), Some(i64::MAX));
    assert_eq!(parse_i64_str("9223372036854775808"), None);
    assert_eq!(parse_i64_str("-"), None);
    assert_eq!(parse_i64_str("+"), None);
    assert_eq!(parse_i64_str("-0"), Some(0));
    assert_eq!(parse_i64_str("007"), Some(7));
}

#[test]
fn decimal_text() {
    let mut s = String::from("port ");
    push_decimal(&mut s, 0);
    assert_eq!(s, "port 0");
    let mut t = String::new();
    push_decimal(&mut t, u64::MAX);
    assert_eq!(t, u64::MAX.to_string());
}

#[test]
fn full_scan_response() {
    let r = ScanResponse::full(vec![], 17);
    assert_eq!(r.scan_type, "full");
    assert_eq!(r.duration_ms, 17);
    assert!(r.services.is_empty());
}
