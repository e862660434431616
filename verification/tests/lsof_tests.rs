use localwebs::lsof::parse_listing;
use localwebs::scanner::PortScanner;

#[test]
fn test_parse_lsof_basic() {
    let output = "node    12345  user   20u  IPv4 0x123  0t0 TCP 127.0.0.1:3000 (LISTEN)\n";
    let scanner = PortScanner::new(500, vec![]);
    let ports = scanner.parse_lsof_output(output);

    assert_eq!(ports.len(), 1);
    assert_eq!(ports[0].port, 3000);
    assert_eq!(ports[0].process_name, Some("node".to_string()));
    assert_eq!(ports[0].pid, Some(12345));
    assert_eq!(ports[0].start_time, None);
}

#[test]
fn test_parse_lsof_wildcard() {
    let output = "python3  9876  user    3u  IPv4 0x456  0t0 TCP *:8000 (LISTEN)\n";
    let scanner = PortScanner::new(500, vec![]);
    let ports = scanner.parse_lsof_output(output);

    assert_eq!(ports.len(), 1);
    assert_eq!(ports[0].port, 8000);
    assert_eq!(ports[0].process_name, Some("python3".to_string()));
}

#[test]
fn test_parse_lsof_multiple_ports() {
    let output = "\
node     1111  user   20u  IPv4 0x1  0t0 TCP *:3000 (LISTEN)
python3  2222  user    3u  IPv4 0x2  0t0 TCP 127.0.0.1:8000 (LISTEN)
ruby     3333  user   17u  IPv4 0x3  0t0 TCP *:9999 (LISTEN)
";
    let scanner = PortScanner::new(500, vec![]);
    let ports = scanner.parse_lsof_output(output);

    assert_eq!(ports.len(), 3);
    assert_eq!(ports[0].port, 3000);
    assert_eq!(ports[1].port, 8000);
    assert_eq!(ports[2].port, 9999);
}

#[test]
fn test_parse_lsof_ignore_non_listen() {
    let output = "\
node     1111  user   20u  IPv4 0x1  0t0 TCP 127.0.0.1:3000 (ESTABLISHED)
python3  2222  user    3u  IPv4 0x2  0t0 TCP 127.0.0.1:8000 (LISTEN)
";
    let scanner = PortScanner::new(500, vec![]);
    let ports = scanner.parse_lsof_output(output);

    assert_eq!(ports.len(), 1);
    assert_eq!(ports[0].port, 8000);
}

#[test]
fn test_parse_lsof_ignore_external_ip() {
    let output = "\
node     1111  user   20u  IPv4 0x1  0t0 TCP 8.8.8.8:3000 (LISTEN)
python3  2222  user    3u  IPv4 0x2  0t0 TCP 127.0.0.1:8000 (LISTEN)
";
    let scanner = PortScanner::new(500, vec![]);
    let ports = scanner.parse_lsof_output(output);

    assert_eq!(ports.len(), 1);
    assert_eq!(ports[0].port, 8000);
}

#[test]
fn test_parse_lsof_ipv6() {
    let output = "node    12345  user   20u  IPv6 0x123  0t0 TCP [::]:3000 (LISTEN)\n";
    let scanner = PortScanner::new(500, vec![]);
    let ports = scanner.parse_lsof_output(output);

    assert_eq!(ports.len(), 1);
    assert_eq!(ports[0].port, 3000);
}

#[test]
fn test_parse_lsof_empty_output() {
    let scanner = PortScanner::new(500, vec![]);
    let ports = scanner.parse_lsof_output("");

    assert_eq!(ports.len(), 0);
}

#[test]
fn header_line_and_private_networks() {
    let output = "\
COMMAND   PID USER   FD   TYPE DEVICE SIZE/OFF NODE NAME
nginx    4000 root    6u  IPv4 0x9  0t0 TCP 192.168.1.5:80 (LISTEN)
java     4001 me      6u  IPv4 0x9  0t0 TCP 10.0.0.2:8080 (LISTEN)
redis    4002 me      6u  IPv4 0x9  0t0 TCP localhost:6379 (LISTEN)
sshd     4003 root    3u  IPv6 0x9  0t0 TCP [::1]:22 (LISTEN)
x        4004 root    3u  IPv4 0x9  0t0 TCP 0.0.0.0:70000 (LISTEN)
";
    let ports = parse_listing(output);
    let got: Vec<u16> = ports.iter().map(|p| p.port).collect();
    assert_eq!(got, vec![80, 8080, 6379]);
    assert_eq!(ports[0].process_name.as_deref(), Some("nginx"));
    assert_eq!(ports[1].pid, Some(4001));
}

#[test]
fn crlf_lines_and_trailing_text() {
    let output = "node 1 u 3u IPv4 0x1 0t0 TCP *:3000 (LISTEN) extra\r\nnode 2 u 3u IPv4 0x1 0t0 TCP *:3001 (LISTEN)";
    let ports = parse_listing(output);
    assert_eq!(ports.len(), 2);
    assert_eq!(ports[0].port, 3000);
    assert_eq!(ports[1].port, 3001);
    assert_eq!(ports[1].pid, Some(2));
}

#[test]
fn pid_too_large_is_unknown_but_line_taken() {
    let output = "node 99999999999 u 3u IPv4 0x1 0t0 TCP 127.0.0.1:3000 (LISTEN)\n";
    let ports = parse_listing(output);
    assert_eq!(ports.len(), 1);
    assert_eq!(ports[0].pid, None);
}

#[test]
fn non_ascii_digit_pid_is_unknown_but_line_taken() {
    // U+0663 is an Arabic-Indic digit: a decimal digit that `u32` parsing rejects.
    let output = "node \u{663}\u{663} u 3u IPv4 0x1 0t0 TCP 127.0.0.1:3000 (LISTEN)\n";
    let ports = parse_listing(output);
    assert_eq!(ports.len(), 1);
    assert_eq!(ports[0].pid, None);
}

#[test]
fn pid_with_letters_rejects_line() {
    let output = "node 12a u 3u IPv4 0x1 0t0 TCP 127.0.0.1:3000 (LISTEN)\n";
    assert!(parse_listing(output).is_empty());
}

#[test]
fn too_few_columns_rejects_line() {
    let output = "node 12 u 3u IPv4 0x1 TCP 127.0.0.1:3000 (LISTEN)\n";
    assert!(parse_listing(output).is_empty());
}

#[test]
fn first_colon_followed_by_port_ends_the_address() {
    // The address runs up to the first colon that a port and "(LISTEN)" follow.
    let output = "n 1 u 3u IPv4 0x1 0t0 TCP 10.0.0.1:x:8000 (LISTEN)\n";
    let ports = parse_listing(output);
    assert_eq!(ports.len(), 1);
    assert_eq!(ports[0].port, 8000);
}

#[test]
fn blank_lines_are_skipped() {
    let output = "\n\nnode 7 u 3u IPv4 0x1 0t0 TCP *:5173 (LISTEN)\n\n";
    let ports = parse_listing(output);
    assert_eq!(ports.len(), 1);
    assert_eq!(ports[0].port, 5173);
    assert_eq!(ports[0].pid, Some(7));
}
