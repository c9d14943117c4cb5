//! Port-record operations: service names, sorting, filters, enrichment,
//! grouping — and the correlation of a synthetic kernel table.

use portls::correlate::{get_ports, ports_from_table, resolve_services, ProcessInfo};
use portls::net::FilterMode;
use portls::types::{PortInfo, Protocol, ProtocolFilter, QueryError, SortField};

fn record(port: u16, protocol: Protocol, pid: u32, name: &str) -> PortInfo {
    PortInfo {
        port,
        protocol,
        pid,
        process_name: name.to_string(),
        address: format!("127.0.0.1:{}", port),
        remote_address: None,
        container: None,
        service_name: None,
    }
}

#[test]
fn test_resolve_service_name_known_and_unknown() {
    let mut p = record(443, Protocol::Tcp, 1, "nginx");
    p.resolve_service_name();
    assert_eq!(p.service_name, Some("https".to_string()));
    let mut q = record(4444, Protocol::Tcp, 1, "nc");
    q.resolve_service_name();
    assert_eq!(q.service_name, None);
}

#[test]
fn test_sort_vec_by_port_pid_name() {
    let mut v = vec![
        record(80, Protocol::Tcp, 30, "zsh"),
        record(22, Protocol::Tcp, 10, "sshd"),
        record(443, Protocol::Tcp, 20, "nginx"),
    ];
    PortInfo::sort_vec(&mut v, Some(SortField::Port));
    assert_eq!(v[0].port, 22);
    assert_eq!(v[1].port, 80);
    assert_eq!(v[2].port, 443);

    PortInfo::sort_vec(&mut v, Some(SortField::Name));
    assert_eq!(v[0].process_name, "nginx");
    assert_eq!(v[1].process_name, "sshd");
    assert_eq!(v[2].process_name, "zsh");

    PortInfo::sort_vec(&mut v, Some(SortField::Pid));
    assert_eq!(v[0].pid, 10);
    assert_eq!(v[2].pid, 30);

    let before: Vec<u16> = v.iter().map(|p| p.port).collect();
    PortInfo::sort_vec(&mut v, None);
    let after: Vec<u16> = v.iter().map(|p| p.port).collect();
    assert_eq!(before, after);
}

#[test]
fn test_filter_protocol_splits() {
    let v = vec![
        record(80, Protocol::Tcp, 1, "nginx"),
        record(53, Protocol::Udp, 2, "dnsmasq"),
    ];
    let tcp = PortInfo::filter_protocol(v.clone(), Some(ProtocolFilter::Tcp));
    assert_eq!(tcp.len(), 1);
    assert_eq!(tcp[0].port, 80);
    let udp = PortInfo::filter_protocol(v.clone(), Some(ProtocolFilter::Udp));
    assert_eq!(udp.len(), 1);
    assert_eq!(udp[0].port, 53);
    let all = PortInfo::filter_protocol(v, None);
    assert_eq!(all.len(), 2);
}

#[test]
fn test_filter_by_query_port_number() {
    let v = vec![
        record(80, Protocol::Tcp, 1, "nginx"),
        record(443, Protocol::Tcp, 2, "nginx"),
    ];
    let hits = PortInfo::filter_by_query(v, "443", false).unwrap();
    assert_eq!(hits.len(), 1);
    assert_eq!(hits[0].port, 443);
}

#[test]
fn test_filter_by_query_name_case_insensitive() {
    let v = vec![
        record(80, Protocol::Tcp, 1, "NGINX"),
        record(22, Protocol::Tcp, 2, "sshd"),
    ];
    let hits = PortInfo::filter_by_query(v, "nginx", false).unwrap();
    assert_eq!(hits.len(), 1);
    assert_eq!(hits[0].process_name, "NGINX");
}

#[test]
fn test_filter_by_query_matches_container_name() {
    let mut p = record(3000, Protocol::Tcp, 1, "docker-proxy");
    p.container = Some("My-Webapp".to_string());
    let hits = PortInfo::filter_by_query(vec![p], "webapp", false).unwrap();
    assert_eq!(hits.len(), 1);
}

#[test]
fn test_filter_by_query_regex() {
    let v = vec![
        record(80, Protocol::Tcp, 1, "nginx"),
        record(22, Protocol::Tcp, 2, "sshd"),
    ];
    let hits = PortInfo::filter_by_query(v, "^ngi.x$", true).unwrap();
    assert_eq!(hits.len(), 1);
    assert_eq!(hits[0].process_name, "nginx");
}

#[test]
fn test_filter_by_query_invalid_regex() {
    let v = vec![record(80, Protocol::Tcp, 1, "nginx")];
    let err = PortInfo::filter_by_query(v, "[unclosed", true).unwrap_err();
    assert_eq!(err, QueryError::InvalidRegex);
}

#[test]
fn test_enrich_with_docker_sets_container() {
    let v = vec![
        record(3000, Protocol::Tcp, 1, "docker-proxy"),
        record(80, Protocol::Tcp, 2, "nginx"),
    ];
    let maps = vec![(3000u16, "web".to_string())];
    let out = PortInfo::enrich_with_docker(v, &maps);
    assert_eq!(out[0].container, Some("web".to_string()));
    assert_eq!(out[1].container, None);
}

#[test]
fn test_has_docker_proxy_flag() {
    let v = vec![record(80, Protocol::Tcp, 2, "nginx")];
    assert!(!PortInfo::has_docker_proxy(&v));
    let v = vec![record(3000, Protocol::Tcp, 1, "docker-proxy")];
    assert!(PortInfo::has_docker_proxy(&v));
}

#[test]
fn test_group_by_pid_groups_in_order() {
    let v = vec![
        record(80, Protocol::Tcp, 10, "nginx"),
        record(443, Protocol::Tcp, 10, "nginx"),
        record(22, Protocol::Tcp, 20, "sshd"),
    ];
    let groups = portls::types::group_by_pid(&v);
    assert_eq!(groups.len(), 2);
    assert_eq!(groups[0].0, 10);
    assert_eq!(groups[0].1.len(), 2);
    assert_eq!(groups[1].0, 20);
    assert_eq!(groups[1].1.len(), 1);
}

#[test]
fn test_watch_filter_ports() {
    let v = vec![
        record(80, Protocol::Tcp, 1, "nginx"),
        record(22, Protocol::Tcp, 2, "sshd"),
    ];
    let by_port = portls::watch::filter_ports(v.clone(), &Some("80".to_string()));
    assert_eq!(by_port.len(), 1);
    assert_eq!(by_port[0].port, 80);
    let by_name = portls::watch::filter_ports(v.clone(), &Some("SSH".to_string()));
    assert_eq!(by_name.len(), 1);
    assert_eq!(by_name[0].process_name, "sshd");
    let untouched = portls::watch::filter_ports(v, &None);
    assert_eq!(untouched.len(), 2);
}

// One LISTEN-state line and one ESTABLISHED-state line: filtering for
// listening yields exactly the first record, for established exactly the
// second.
const FIXTURE: &str = "  sl  local_address rem_address   st tx_queue rx_queue tr tm->when retrnsmt   uid  timeout inode
   0: 0100007F:1F90 00000000:0000 0A 00000000:00000000 00:00000000 00000000   500        0 12345 1 0000000000000000 100 0 0 10 0
   1: 0100007F:1F90 0501A8C0:D431 01 00000000:00000000 00:00000000 00000000   500        0 12346 1 0000000000000000 100 0 0 10 0";

fn fixture_map() -> Vec<(u64, ProcessInfo)> {
    vec![
        (12345u64, ProcessInfo { pid: 500, name: "nginx".to_string() }),
        (12346u64, ProcessInfo { pid: 501, name: "curl".to_string() }),
    ]
}

#[test]
fn test_round_trip_listening_filter() {
    let map = fixture_map();
    let listening = ports_from_table(FIXTURE, Protocol::Tcp, FilterMode::Listening, &map);
    assert_eq!(listening.len(), 1);
    assert_eq!(listening[0].port, 8080);
    assert_eq!(listening[0].pid, 500);
    assert_eq!(listening[0].process_name, "nginx");
    assert_eq!(listening[0].address, "127.0.0.1:8080");
    assert_eq!(listening[0].remote_address, None);
}

#[test]
fn test_round_trip_established_filter() {
    let map = fixture_map();
    let established = ports_from_table(FIXTURE, Protocol::Tcp, FilterMode::Established, &map);
    assert_eq!(established.len(), 1);
    assert_eq!(established[0].pid, 501);
    assert_eq!(established[0].process_name, "curl");
    assert_eq!(
        established[0].remote_address,
        Some("192.168.1.5:54321".to_string())
    );
}

#[test]
fn test_get_ports_tolerates_missing_tables() {
    let map = fixture_map();
    let all = get_ports(Some(FIXTURE), None, None, None, FilterMode::All, &map);
    assert_eq!(all.len(), 2);
    let none = get_ports(None, None, None, None, FilterMode::All, &map);
    assert!(none.is_empty());
}

#[test]
fn test_resolve_services_fills_names() {
    let v = vec![record(22, Protocol::Tcp, 1, "sshd"), record(9, Protocol::Tcp, 2, "x")];
    let out = resolve_services(v);
    assert_eq!(out[0].service_name, Some("ssh".to_string()));
    assert_eq!(out[1].service_name, None);
}
