//! History types and the byte-count formatter.

use portls::history::{format_bytes, CleanupResult, DiffAction, DiffEntry, HistoryQuery};

#[test]
fn test_format_bytes_plain() {
    assert_eq!(format_bytes(0), "0 B");
    assert_eq!(format_bytes(512), "512 B");
    assert_eq!(format_bytes(1023), "1023 B");
}

#[test]
fn test_format_bytes_kib() {
    assert_eq!(format_bytes(1024), "1.0 KB");
    assert_eq!(format_bytes(1536), "1.5 KB");
    assert_eq!(format_bytes(2048), "2.0 KB");
    assert_eq!(format_bytes(10 * 1024 + 512), "10.5 KB");
}

#[test]
fn test_format_bytes_mib() {
    assert_eq!(format_bytes(1024 * 1024), "1.0 MB");
    assert_eq!(format_bytes(3 * 1024 * 1024), "3.0 MB");
    assert_eq!(format_bytes(1024 * 1024 + 512 * 1024), "1.5 MB");
}

#[test]
fn test_history_query_default() {
    let q = HistoryQuery::default();
    assert!(q.port.is_none());
    assert!(q.process.is_none());
    assert_eq!(q.hours, Some(24));
    assert_eq!(q.limit, 100);
}

#[test]
fn test_diff_entry_shapes() {
    let e = DiffEntry {
        port: 8080,
        protocol: "tcp".to_string(),
        process_name: "node".to_string(),
        action: DiffAction::Appeared,
    };
    assert_eq!(e.action, DiffAction::Appeared);
    assert_ne!(DiffAction::Appeared, DiffAction::Disappeared);
    let c = CleanupResult { snapshots_deleted: 2, entries_deleted: 10 };
    assert_eq!(c, CleanupResult { snapshots_deleted: 2, entries_deleted: 10 });
}

#[test]
fn test_protocol_labels() {
    assert_eq!(portls::types::Protocol::Tcp.label(), "tcp");
    assert_eq!(portls::types::Protocol::Udp.label(), "udp");
}
