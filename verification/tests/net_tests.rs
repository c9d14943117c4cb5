//! Kernel socket-table decoding, on fixture values.

use portls::net::{
    parse_hex_addr, parse_hex_addr_any, parse_hex_addr_v6, parse_hex_port, parse_proc_net_file,
    IpAddress, SocketState,
};

#[test]
fn test_parse_hex_addr_localhost() {
    let result = parse_hex_addr("0100007F").unwrap();
    assert_eq!(result, IpAddress::V4(127, 0, 0, 1));
}

#[test]
fn test_parse_hex_addr_any() {
    let result = parse_hex_addr("00000000").unwrap();
    assert_eq!(result, IpAddress::V4(0, 0, 0, 0));
}

#[test]
fn test_parse_hex_addr_192_168_1_5() {
    let result = parse_hex_addr("0501A8C0").unwrap();
    assert_eq!(result, IpAddress::V4(192, 168, 1, 5));
}

#[test]
fn test_parse_hex_port_8080() {
    let result = parse_hex_port("1F90").unwrap();
    assert_eq!(result, 8080);
}

#[test]
fn test_parse_hex_port_443() {
    let result = parse_hex_port("01BB").unwrap();
    assert_eq!(result, 443);
}

#[test]
fn test_socket_state_listen() {
    let result = SocketState::from_hex("0A").unwrap();
    assert_eq!(result, SocketState::Listen);
}

#[test]
fn test_socket_state_established() {
    let result = SocketState::from_hex("01").unwrap();
    assert_eq!(result, SocketState::Established);
}

#[test]
fn test_parse_socket_line_listening_ipv4() {
    let line = "   0: 0100007F:1F90 00000000:0000 0A 00000000:00000000 00:00000000 00000000   500        0 12345 1 0000000000000000 100 0 0 10 0";

    let result = portls::net::parse_socket_line(line).unwrap();

    assert_eq!(result.local_addr, IpAddress::V4(127, 0, 0, 1));
    assert_eq!(result.local_port, 8080);
    assert_eq!(result.remote_addr, IpAddress::V4(0, 0, 0, 0));
    assert_eq!(result.remote_port, 0);
    assert_eq!(result.state, SocketState::Listen);
    assert_eq!(result.inode, 12345);
}

#[test]
fn test_parse_socket_line_established_ipv4() {
    let line = "   1: 0100007F:1F90 0501A8C0:D431 01 00000000:00000000 00:00000000 00000000   500        0 12346 1 0000000000000000 100 0 0 10 0";

    let result = portls::net::parse_socket_line(line).unwrap();

    assert_eq!(result.local_addr, IpAddress::V4(127, 0, 0, 1));
    assert_eq!(result.local_port, 8080);
    assert_eq!(result.remote_addr, IpAddress::V4(192, 168, 1, 5));
    assert_eq!(result.remote_port, 54321);
    assert_eq!(result.state, SocketState::Established);
    assert_eq!(result.inode, 12346);
}

#[test]
fn test_parse_socket_line_ipv6_listening() {
    let line = "   0: 00000000000000000000000001000000:1F90 00000000000000000000000000000000:0000 0A 00000000:00000000 00:00000000 00000000   500        0 12347 1 0000000000000000 100 0 0 10 0";

    let result = portls::net::parse_socket_line(line).unwrap();

    assert_eq!(result.local_addr, IpAddress::V6(0, 0, 0, 0, 0, 0, 0, 1));
    assert_eq!(result.local_port, 8080);
    assert_eq!(result.state, SocketState::Listen);
}

#[test]
fn test_parse_proc_net_file_skips_header() {
    let content = "  sl  local_address rem_address   st tx_queue rx_queue tr tm->when retrnsmt   uid  timeout inode
   0: 0100007F:1F90 00000000:0000 0A 00000000:00000000 00:00000000 00000000   500        0 12345 1 0000000000000000 100 0 0 10 0";

    let result = parse_proc_net_file(content);

    assert_eq!(result.len(), 1);
    assert_eq!(result[0].local_port, 8080);
}

#[test]
fn test_parse_proc_net_file_multiple_lines() {
    let content = "  sl  local_address rem_address   st tx_queue rx_queue tr tm->when retrnsmt   uid  timeout inode
   0: 0100007F:1F90 00000000:0000 0A 00000000:00000000 00:00000000 00000000   500        0 12345 1 0000000000000000 100 0 0 10 0
   1: 00000000:0050 00000000:0000 0A 00000000:00000000 00:00000000 00000000     0        0 12346 1 0000000000000000 100 0 0 10 0";

    let result = parse_proc_net_file(content);

    assert_eq!(result.len(), 2);
    assert_eq!(result[0].local_port, 8080);
    assert_eq!(result[1].local_port, 80);
}

#[test]
fn test_parse_hex_addr_v6_loopback() {
    let result = parse_hex_addr_v6("00000000000000000000000001000000").unwrap();
    assert_eq!(result, IpAddress::V6(0, 0, 0, 0, 0, 0, 0, 1));
}

#[test]
fn test_parse_hex_addr_v6_any() {
    let result = parse_hex_addr_v6("00000000000000000000000000000000").unwrap();
    assert_eq!(result, IpAddress::V6(0, 0, 0, 0, 0, 0, 0, 0));
}

#[test]
fn test_parse_hex_addr_v6_ipv4_mapped() {
    let result = parse_hex_addr_v6("0000000000000000FFFF00000100007F").unwrap();
    assert_eq!(result, IpAddress::V6(0, 0, 0, 0, 0, 0xffff, 0x7f00, 0x1));
}

#[test]
fn test_parse_hex_addr_v6_invalid_length() {
    let result = parse_hex_addr_v6("0100007F");
    assert!(result.is_none());
}

#[test]
fn test_parse_hex_addr_any_ipv4() {
    let result = parse_hex_addr_any("0100007F").unwrap();
    assert_eq!(result, IpAddress::V4(127, 0, 0, 1));
}

#[test]
fn test_parse_hex_addr_any_ipv6() {
    let result = parse_hex_addr_any("00000000000000000000000001000000").unwrap();
    assert_eq!(result, IpAddress::V6(0, 0, 0, 0, 0, 0, 0, 1));
}

#[test]
fn test_parse_hex_addr_rejects_junk() {
    assert!(parse_hex_addr("XYZ").is_none());
    assert!(parse_hex_port("").is_none());
    assert!(parse_hex_addr_any("123").is_none());
}

#[test]
fn test_format_addr_v4() {
    let s = portls::net::format_endpoint(&IpAddress::V4(127, 0, 0, 1), 8080);
    assert_eq!(s, "127.0.0.1:8080");
}

#[test]
fn test_format_addr_v6_compression() {
    let s = portls::net::format_addr(&IpAddress::V6(0, 0, 0, 0, 0, 0, 0, 1));
    assert_eq!(s, "::1");
    let s = portls::net::format_addr(&IpAddress::V6(0, 0, 0, 0, 0, 0, 0, 0));
    assert_eq!(s, "::");
    let s = portls::net::format_addr(&IpAddress::V6(0x2001, 0xdb8, 0, 0, 0, 0, 0, 1));
    assert_eq!(s, "2001:db8::1");
    let s = portls::net::format_addr(&IpAddress::V6(1, 2, 3, 4, 5, 6, 7, 8));
    assert_eq!(s, "1:2:3:4:5:6:7:8");
}

#[test]
fn test_format_addr_v6_ipv4_mapped() {
    // An IPv4-mapped address shows its last four bytes in dotted decimal.
    let s = portls::net::format_addr(&IpAddress::V6(0, 0, 0, 0, 0, 0xffff, 0x7f00, 0x1));
    assert_eq!(s, "::ffff:127.0.0.1");
    let s = portls::net::format_addr(&IpAddress::V6(0, 0, 0, 0, 0, 0xffff, 0xc0a8, 0x0105));
    assert_eq!(s, "::ffff:192.168.1.5");
}
