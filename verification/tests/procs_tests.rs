//! The process registry: state-file parsing, descriptor links, snapshot
//! output, and the parent-chain walk.

use portls::procs::{
    choose_process_name, launchd_label_from, parse_proc_stat, parse_ps_line, parse_ps_table,
    parse_socket_link, resolve_or_fallback, walk_ppid_chain, ProcessTable, TableCache,
};

#[test]
fn test_parse_socket_link_valid() {
    assert_eq!(parse_socket_link("socket:[12345]"), Some(12345));
}

#[test]
fn test_parse_socket_link_large_inode() {
    assert_eq!(parse_socket_link("socket:[9876543210]"), Some(9876543210));
}

#[test]
fn test_parse_socket_link_not_socket() {
    assert_eq!(parse_socket_link("/dev/null"), None);
}

#[test]
fn test_parse_socket_link_pipe() {
    assert_eq!(parse_socket_link("pipe:[12345]"), None);
}

#[test]
fn test_parse_socket_link_anon_inode() {
    assert_eq!(parse_socket_link("anon_inode:[eventfd]"), None);
}

fn table_of(entries: &[(u32, &str, u32)]) -> ProcessTable {
    let mut t = ProcessTable::new();
    for (pid, name, ppid) in entries {
        t.push(*pid, name.to_string(), *ppid);
    }
    t
}

#[test]
fn test_walk_ppid_chain_terminates_at_pid1() {
    let table = table_of(&[(1, "init", 0)]);
    let chain = walk_ppid_chain(&table, 1);
    assert!(chain.len() <= 1);
}

#[test]
fn test_walk_ppid_chain_full() {
    let table = table_of(&[(500, "nginx", 100), (100, "bash", 1), (1, "systemd", 0)]);
    let chain = walk_ppid_chain(&table, 500);
    assert_eq!(chain.len(), 3);
    assert_eq!(chain[0].pid, 500);
    assert_eq!(chain[0].name, "nginx");
    assert_eq!(chain[1].pid, 100);
    assert_eq!(chain[2].pid, 1);
}

#[test]
fn test_walk_ppid_chain_cycle_terminates() {
    // A synthetic cycle: 500 -> 300 -> 500. The walk must stop and return a
    // non-empty prefix without revisiting a pid.
    let table = table_of(&[(500, "a", 300), (300, "b", 500)]);
    let chain = walk_ppid_chain(&table, 500);
    assert_eq!(chain.len(), 2);
    assert_eq!(chain[0].pid, 500);
    assert_eq!(chain[1].pid, 300);
}

#[test]
fn test_walk_ppid_chain_missing_start() {
    let table = table_of(&[(1, "init", 0)]);
    let chain = walk_ppid_chain(&table, 42);
    assert!(chain.is_empty());
}

#[test]
fn test_parse_proc_stat_plain() {
    let stat = "1234 (nginx) S 100 1234 1234 0 -1 4194560";
    let (name, ppid, state) = parse_proc_stat(stat).unwrap();
    assert_eq!(name, "nginx");
    assert_eq!(ppid, 100);
    assert_eq!(state, 'S');
}

#[test]
fn test_parse_proc_stat_name_with_parens() {
    // The command name may hold spaces and parentheses; the last `)` closes it.
    let stat = "77 (tmux: server (1)) Z 1 77 77 0 -1";
    let (name, ppid, state) = parse_proc_stat(stat).unwrap();
    assert_eq!(name, "tmux: server (1)");
    assert_eq!(ppid, 1);
    assert_eq!(state, 'Z');
}

#[test]
fn test_parse_proc_stat_malformed() {
    assert!(parse_proc_stat("garbage").is_none());
    assert!(parse_proc_stat("1 (x) S").is_none());
    assert!(parse_proc_stat("1 (x) S notanumber 3").is_none());
}

#[test]
fn test_parse_ps_line_basic() {
    let (pid, name, ppid) = parse_ps_line("  500   100 /usr/sbin/nginx").unwrap();
    assert_eq!(pid, 500);
    assert_eq!(ppid, 100);
    assert_eq!(name, "nginx");
}

#[test]
fn test_parse_ps_line_command_with_spaces() {
    let (pid, name, ppid) = parse_ps_line("77 1 tmux: server").unwrap();
    assert_eq!(pid, 77);
    assert_eq!(ppid, 1);
    assert_eq!(name, "tmux: server");
}

#[test]
fn test_parse_ps_line_rejects_short() {
    assert!(parse_ps_line("500 100").is_none());
    assert!(parse_ps_line("").is_none());
    assert!(parse_ps_line("x y z").is_none());
}

#[test]
fn test_parse_ps_table_skips_bad_lines() {
    let out = "  500   100 /usr/sbin/nginx\nnoise\n  100     1 -bash\n";
    let table = parse_ps_table(out);
    assert_eq!(table.entries.len(), 2);
    assert_eq!(table.resolve(500), Some(("nginx".to_string(), 100)));
    assert_eq!(table.resolve(100), Some(("-bash".to_string(), 1)));
    assert_eq!(table.resolve(7), None);
}

#[test]
fn test_choose_process_name_prefers_exe() {
    let r = choose_process_name(Some("nginx"), Some("nginx\n"));
    assert_eq!(r, Some("nginx".to_string()));
    let r = choose_process_name(Some("postgres"), Some("postmaster\n"));
    assert_eq!(r, Some("postgres".to_string()));
}

#[test]
fn test_choose_process_name_interpreter_uses_comm() {
    // An interpreter's executable name says less than the process title.
    let r = choose_process_name(Some("node"), Some("my-gateway\n"));
    assert_eq!(r, Some("my-gateway".to_string()));
    let r = choose_process_name(Some("python3"), Some("scheduler\n"));
    assert_eq!(r, Some("scheduler".to_string()));
}

#[test]
fn test_choose_process_name_fallbacks() {
    assert_eq!(choose_process_name(None, Some(" comm \n")), Some("comm".to_string()));
    assert_eq!(choose_process_name(Some(""), Some("c")), Some("c".to_string()));
    assert_eq!(
        choose_process_name(Some("app (deleted)"), Some("c")),
        Some("c".to_string())
    );
    assert_eq!(choose_process_name(None, None), None);
}

#[test]
fn test_launchd_label_from_output() {
    let out = "pid = 42\n    label = com.example.service\nstate = running\n";
    assert_eq!(
        launchd_label_from(out),
        Some("com.example.service".to_string())
    );
    assert_eq!(launchd_label_from("no labels here\n"), None);
}

#[test]
fn test_resolve_or_fallback_prefers_snapshot() {
    let table = table_of(&[(500, "nginx", 100)]);
    // A pid the snapshot holds resolves from it, whatever the fallback says.
    assert_eq!(
        resolve_or_fallback(&table, 500, Some(("ghost".to_string(), 9))),
        Some(("nginx".to_string(), 100))
    );
    // A pid the snapshot lacks takes the per-process query's answer.
    assert_eq!(
        resolve_or_fallback(&table, 42, Some(("late".to_string(), 1))),
        Some(("late".to_string(), 1))
    );
    assert_eq!(resolve_or_fallback(&table, 42, None), None);
}

#[test]
fn test_table_cache_ttl() {
    let mut cache = TableCache::new(5_000);
    assert!(cache.get_if_fresh(0).is_none());
    cache.store(table_of(&[(1, "init", 0)]), 1_000);
    assert!(cache.get_if_fresh(2_000).is_some());
    assert!(cache.get_if_fresh(6_000).is_none());
}
