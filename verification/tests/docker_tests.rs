//! Container port-string parsing and the host-port lookup.

use portls::docker::{build_port_mappings, lookup_mapping, parse_port_string};

#[test]
fn test_parse_port_string_single() {
    let ports = parse_port_string("0.0.0.0:3000->80/tcp");
    assert_eq!(ports, vec![(3000, 80)]);
}

#[test]
fn test_parse_port_string_multiple() {
    let ports = parse_port_string("0.0.0.0:3000->80/tcp, :::3000->80/tcp");
    assert_eq!(ports, vec![(3000, 80), (3000, 80)]);
}

#[test]
fn test_parse_port_string_ipv6() {
    let ports = parse_port_string(":::8080->8080/tcp");
    assert_eq!(ports, vec![(8080, 8080)]);
}

#[test]
fn test_parse_port_string_empty() {
    let ports = parse_port_string("");
    assert!(ports.is_empty());
}

#[test]
fn test_parse_port_string_complex() {
    let ports = parse_port_string("0.0.0.0:443->443/tcp, 0.0.0.0:80->80/tcp, :::443->443/tcp");
    assert_eq!(ports.len(), 3);
    assert!(ports.contains(&(443, 443)));
    assert!(ports.contains(&(80, 80)));
}

#[test]
fn test_parse_port_string_malformed_fields_skipped() {
    let ports = parse_port_string("junk, 0.0.0.0:x->80/tcp, 1.2.3.4:81->82/udp");
    assert_eq!(ports, vec![(81, 82)]);
}

#[test]
fn test_build_port_mappings_and_lookup() {
    let rows = vec![
        ("/web".to_string(), "0.0.0.0:3000->80/tcp".to_string()),
        ("/db".to_string(), "0.0.0.0:5433->5432/tcp".to_string()),
    ];
    let maps = build_port_mappings(&rows);
    assert_eq!(lookup_mapping(&maps, 3000), Some(&"web".to_string()));
    assert_eq!(lookup_mapping(&maps, 5433), Some(&"db".to_string()));
    assert_eq!(lookup_mapping(&maps, 9999), None);
}

#[test]
fn test_build_port_mappings_later_row_shadows() {
    let rows = vec![
        ("/old".to_string(), "0.0.0.0:3000->80/tcp".to_string()),
        ("/new".to_string(), "0.0.0.0:3000->80/tcp".to_string()),
    ];
    let maps = build_port_mappings(&rows);
    assert_eq!(lookup_mapping(&maps, 3000), Some(&"new".to_string()));
}
