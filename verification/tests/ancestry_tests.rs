//! Ancestry assembly, the auxiliary detectors, and the TTL cache.

use portls::ancestry::{
    build_ancestry, branch_of_head, detect_warnings, get_ancestry, get_ancestry_batch,
    is_system_cwd, systemd_unit_from_cgroup, AncestryCache, AncestryInputs, HealthWarning,
};
use portls::procs::ProcessTable;
use portls::source::SourceType;

fn table_of(entries: &[(u32, &str, u32)]) -> ProcessTable {
    let mut t = ProcessTable::new();
    for (pid, name, ppid) in entries {
        t.push(*pid, name.to_string(), *ppid);
    }
    t
}

fn no_aux() -> AncestryInputs {
    AncestryInputs {
        cgroup: None,
        exe_target: None,
        state: None,
        git_context: None,
        launchd_label: None,
    }
}

#[test]
fn test_source_type_display() {
    assert_eq!(SourceType::Systemd.label(), "systemd");
    assert_eq!(SourceType::Launchd.label(), "launchd");
    assert_eq!(SourceType::Docker.label(), "docker");
    assert_eq!(SourceType::Shell.label(), "shell");
    assert_eq!(SourceType::Pm2.label(), "pm2");
    assert_eq!(SourceType::Unknown.label(), "unknown");
    assert_eq!(SourceType::Tmux.label(), "tmux");
    assert_eq!(SourceType::Nohup.label(), "nohup");
}

#[test]
fn test_health_warning_display() {
    assert_eq!(HealthWarning::DeletedBinary.label(), "deleted-binary");
    assert_eq!(HealthWarning::ZombieProcess.label(), "zombie");
}

#[test]
fn test_cache_returns_none_for_nonexistent_pid() {
    // Pid 0 has no record in the snapshot, so no ancestry can be built.
    let mut cache = AncestryCache::new(10_000, 0);
    let table = table_of(&[(1, "systemd", 0)]);
    let result = get_ancestry(&mut cache, 0, "nonexistent", 0, &table, &no_aux());
    assert!(result.is_none());
}

#[test]
fn test_build_ancestry_classifies_chain() {
    let table = table_of(&[(500, "nginx", 100), (100, "bash", 1), (1, "systemd", 0)]);
    let a = build_ancestry(
        &table,
        500,
        Some("0::/system.slice/nginx.service\n"),
        None,
        None,
        None,
        None,
    )
    .unwrap();
    assert_eq!(a.chain.len(), 3);
    assert_eq!(a.chain[0].pid, 500);
    assert_eq!(a.source, SourceType::Systemd);
    assert_eq!(a.systemd_unit, Some("nginx.service".to_string()));
    assert!(a.warnings.is_empty());
}

#[test]
fn test_build_ancestry_missing_pid() {
    let table = table_of(&[(1, "systemd", 0)]);
    assert!(build_ancestry(&table, 99, None, None, None, None, None).is_none());
}

#[test]
fn test_cache_second_get_returns_cached_value() {
    // Two gets within the TTL under an unchanged name: the second is served
    // from the cache. The auxiliary inputs change in between; a rebuild
    // would classify differently, so the unchanged answer shows the cached
    // value was returned.
    let mut cache = AncestryCache::new(10_000, 0);
    let table = table_of(&[(500, "nginx", 100), (100, "bash", 1), (1, "systemd", 0)]);
    let aux1 = AncestryInputs {
        cgroup: Some("0::/docker/abc\n".to_string()),
        ..no_aux()
    };
    let first = get_ancestry(&mut cache, 500, "nginx", 1_000, &table, &aux1).unwrap();
    assert_eq!(first.source, SourceType::Docker);

    let second = get_ancestry(&mut cache, 500, "nginx", 2_000, &table, &no_aux()).unwrap();
    assert_eq!(second.source, SourceType::Docker);
    assert_eq!(second.chain.len(), first.chain.len());
}

#[test]
fn test_cache_name_change_forces_rebuild() {
    // After a name change the stale entry is never served: the rebuild sees
    // the new auxiliary inputs.
    let mut cache = AncestryCache::new(10_000, 0);
    let table = table_of(&[(500, "nginx", 100), (100, "bash", 1), (1, "systemd", 0)]);
    let aux1 = AncestryInputs {
        cgroup: Some("0::/docker/abc\n".to_string()),
        ..no_aux()
    };
    let first = get_ancestry(&mut cache, 500, "nginx", 1_000, &table, &aux1).unwrap();
    assert_eq!(first.source, SourceType::Docker);

    // Same pid, new process name: pid reuse.
    let table2 = table_of(&[(500, "python", 100), (100, "zsh", 1), (1, "systemd", 0)]);
    let second = get_ancestry(&mut cache, 500, "python", 2_000, &table2, &no_aux()).unwrap();
    assert_eq!(second.source, SourceType::Shell);
}

#[test]
fn test_cache_expires_after_ttl() {
    let mut cache = AncestryCache::new(10_000, 0);
    let table = table_of(&[(500, "nginx", 100), (100, "bash", 1), (1, "systemd", 0)]);
    let aux1 = AncestryInputs {
        cgroup: Some("0::/docker/abc\n".to_string()),
        ..no_aux()
    };
    let first = get_ancestry(&mut cache, 500, "nginx", 0, &table, &aux1).unwrap();
    assert_eq!(first.source, SourceType::Docker);

    // Past the TTL the whole cache is cleared, so the rebuild sees new aux.
    let second = get_ancestry(&mut cache, 500, "nginx", 20_000, &table, &no_aux()).unwrap();
    assert_eq!(second.source, SourceType::Shell);
}

#[test]
fn test_get_ancestry_batch_shares_snapshot() {
    let mut cache = AncestryCache::new(10_000, 0);
    let table = table_of(&[
        (500, "nginx", 100),
        (501, "gunicorn", 100),
        (100, "bash", 1),
        (1, "systemd", 0),
    ]);
    let pids = vec![(500u32, "nginx".to_string()), (501u32, "gunicorn".to_string()), (9u32, "ghost".to_string())];
    let auxes = vec![no_aux(), no_aux(), no_aux()];
    let got = get_ancestry_batch(&mut cache, &pids, 0, &table, &auxes);
    // The vanished pid is omitted; the others resolve.
    assert_eq!(got.len(), 2);
    assert!(got.iter().any(|(p, a)| *p == 500 && a.source == SourceType::Shell));
    assert!(got.iter().any(|(p, a)| *p == 501 && a.source == SourceType::Gunicorn));
}

#[test]
fn test_detect_warnings_fixture() {
    let w = detect_warnings(Some("/usr/bin/app (deleted)"), Some('Z'));
    assert_eq!(w, vec![HealthWarning::DeletedBinary, HealthWarning::ZombieProcess]);
    let w = detect_warnings(Some("/usr/bin/app"), Some('S'));
    assert!(w.is_empty());
    let w = detect_warnings(None, None);
    assert!(w.is_empty());
}

#[test]
fn test_systemd_unit_from_cgroup_text() {
    let cg = "12:pids:/user.slice\n0::/system.slice/nginx.service\n";
    assert_eq!(systemd_unit_from_cgroup(cg), Some("nginx.service".to_string()));
    assert_eq!(systemd_unit_from_cgroup("0::/docker/abc\n"), None);
}

#[test]
fn test_branch_of_head_forms() {
    assert_eq!(branch_of_head("ref: refs/heads/main\n"), "main");
    assert_eq!(
        branch_of_head("ref: refs/heads/feature/x\n"),
        "feature/x"
    );
    // Detached: the first eight characters of the raw content.
    assert_eq!(branch_of_head("0123456789abcdef\n"), "01234567");
    assert_eq!(branch_of_head("abc\n"), "abc");
}

#[test]
fn test_is_system_cwd_paths() {
    assert!(is_system_cwd("/"));
    assert!(is_system_cwd("/usr/bin"));
    assert!(is_system_cwd("/var/run/myservice"));
    assert!(!is_system_cwd("/home/dev/project"));
}
