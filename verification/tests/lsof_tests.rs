//! The snapshot-tool strategy's line parsing.

use portls::lsof::{extract_local_port, parse_lsof_line, parse_lsof_output};
use portls::types::Protocol;

#[test]
fn test_parse_lsof_line_established() {
    let line = "node      12345 user   23u  IPv4 0x1234567890abcdef      0t0  TCP 127.0.0.1:3000->192.168.1.5:54321 (ESTABLISHED)";

    let result = parse_lsof_line(line).unwrap();

    assert_eq!(result.process_name, "node");
    assert_eq!(result.pid, 12345);
    assert_eq!(result.port, 3000);
    assert_eq!(result.protocol, Protocol::Tcp);
    assert_eq!(result.address, "127.0.0.1:3000");
    assert_eq!(result.remote_address, Some("192.168.1.5:54321".to_string()));
}

#[test]
fn test_parse_lsof_line_listen() {
    let line = "node      12345 user   24u  IPv4 0x1234567890abcdef      0t0  TCP *:3000 (LISTEN)";

    let result = parse_lsof_line(line).unwrap();

    assert_eq!(result.port, 3000);
    assert!(result.remote_address.is_none());
}

#[test]
fn test_parse_lsof_output_filters_established() {
    let output = "COMMAND   PID USER  FD  TYPE DEVICE SIZE/OFF NODE NAME
node      12345 user   23u  IPv4 0x123      0t0  TCP 127.0.0.1:3000->192.168.1.5:54321 (ESTABLISHED)
node      12345 user   24u  IPv4 0x456      0t0  TCP *:3000 (LISTEN)";

    let result = parse_lsof_output(output);

    assert_eq!(result.len(), 1);
    assert!(result[0].remote_address.is_some());
}

#[test]
fn test_extract_local_port_established() {
    assert_eq!(
        extract_local_port("127.0.0.1:3000->192.168.1.5:54321"),
        Some(3000)
    );
}

#[test]
fn test_extract_local_port_listen() {
    assert_eq!(extract_local_port("*:8080"), Some(8080));
}

#[test]
fn test_extract_local_port_ipv6() {
    assert_eq!(extract_local_port("[::1]:5432"), Some(5432));
}

#[test]
fn test_extract_local_port_trims_state_marker() {
    // Trailing parentheses and letters are trimmed off a listen-name column.
    assert_eq!(extract_local_port("*:8080(LISTEN)"), Some(8080));
}

#[test]
fn test_cwd_from_listing_reads_name_line() {
    let out = "p123\nn/home/dev/project\n";
    assert_eq!(
        portls::lsof::cwd_from_listing(out),
        Some("/home/dev/project".to_string())
    );
    // A bare marker with no path is skipped; no marker yields nothing.
    assert_eq!(portls::lsof::cwd_from_listing("p123\nn\n"), None);
    assert_eq!(portls::lsof::cwd_from_listing("p123\n"), None);
}

#[test]
fn test_parse_lsof_line_rejects_udp_junk() {
    // Too few columns, a non-numeric pid, and an unknown protocol all fail.
    assert!(parse_lsof_line("a b c").is_none());
    let line = "node      x 1   23u  IPv4 0xdead      0t0  TCP 127.0.0.1:3000->1.2.3.4:5 (E)";
    assert!(parse_lsof_line(line).is_none());
    let line = "node      12345 user   23u  IPv4 0xdead      0t0  ICMP 127.0.0.1:3000->1.2.3.4:5 (E)";
    assert!(parse_lsof_line(line).is_none());
}
