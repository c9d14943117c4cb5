//! The tiered classifier, on fixture chains.

use portls::ancestry::Ancestor;
use portls::source::{detect_source, SourceType};

fn make_chain(names: &[(&str, u32)]) -> Vec<Ancestor> {
    let mut chain = Vec::new();
    for (i, (name, pid)) in names.iter().enumerate() {
        let ppid = if i + 1 < names.len() { names[i + 1].1 } else { 0 };
        chain.push(Ancestor {
            pid: *pid,
            name: name.to_string(),
            ppid,
        });
    }
    chain
}

#[test]
fn test_systemd_via_cgroup() {
    let chain = make_chain(&[("nginx", 500), ("bash", 100), ("systemd", 1)]);
    let cgroup = "0::/system.slice/nginx.service\n";
    assert_eq!(detect_source(&chain, Some(cgroup)), SourceType::Systemd);
}

#[test]
fn test_systemd_bash_node_not_shell() {
    // systemd -> bash -> node must be Systemd, not Shell.
    let chain = make_chain(&[("node", 500), ("bash", 100), ("systemd", 1)]);
    let cgroup = "0::/system.slice/node-app.service\n";
    assert_eq!(detect_source(&chain, Some(cgroup)), SourceType::Systemd);
}

#[test]
fn test_docker_via_cgroup() {
    let chain = make_chain(&[("node", 500), ("containerd-shim", 100), ("systemd", 1)]);
    let cgroup = "0::/docker/abc123def456\n";
    assert_eq!(detect_source(&chain, Some(cgroup)), SourceType::Docker);
}

#[test]
fn test_docker_cgroup_beats_supervisor_name() {
    // A container marker wins even against a supervisor name in the chain.
    let chain = make_chain(&[("gunicorn", 500), ("containerd-shim", 100), ("systemd", 1)]);
    let cgroup = "0::/docker/abc123\n";
    assert_eq!(detect_source(&chain, Some(cgroup)), SourceType::Docker);
}

#[test]
fn test_pm2_supervisor() {
    let chain = make_chain(&[("node", 500), ("PM2", 100), ("systemd", 1)]);
    assert_eq!(detect_source(&chain, None), SourceType::Pm2);
}

#[test]
fn test_supervisord() {
    let chain = make_chain(&[("myapp", 500), ("supervisord", 100), ("systemd", 1)]);
    assert_eq!(detect_source(&chain, None), SourceType::Supervisord);
}

#[test]
fn test_gunicorn() {
    let chain = make_chain(&[
        ("worker", 501),
        ("gunicorn", 500),
        ("bash", 100),
        ("systemd", 1),
    ]);
    assert_eq!(detect_source(&chain, None), SourceType::Gunicorn);
}

#[test]
fn test_tmux_multiplexer() {
    let chain = make_chain(&[
        ("node", 500),
        ("bash", 300),
        ("tmux: server", 200),
        ("systemd", 1),
    ]);
    assert_eq!(detect_source(&chain, None), SourceType::Tmux);
}

#[test]
fn test_screen_multiplexer() {
    let chain = make_chain(&[
        ("python", 500),
        ("bash", 300),
        ("screen", 200),
        ("systemd", 1),
    ]);
    assert_eq!(detect_source(&chain, None), SourceType::Screen);
}

#[test]
fn test_cron_detection() {
    let chain = make_chain(&[
        ("backup.sh", 500),
        ("sh", 400),
        ("cron", 100),
        ("systemd", 1),
    ]);
    assert_eq!(detect_source(&chain, None), SourceType::Cron);
}

#[test]
fn test_shell_direct_parent() {
    let chain = make_chain(&[("node", 500), ("zsh", 100), ("init", 1)]);
    assert_eq!(detect_source(&chain, None), SourceType::Shell);
}

#[test]
fn test_shell_not_detected_if_not_direct_parent() {
    // bash is the grandparent, not the direct parent: Unknown.
    let chain = make_chain(&[("node", 500), ("wrapper", 200), ("bash", 100), ("init", 1)]);
    assert_eq!(detect_source(&chain, None), SourceType::Unknown);
}

#[test]
fn test_launchd_fallback() {
    let chain = make_chain(&[("node", 500), ("launchd", 1)]);
    assert_eq!(detect_source(&chain, None), SourceType::Launchd);
}

#[test]
fn test_empty_chain() {
    assert_eq!(detect_source(&Vec::new(), None), SourceType::Unknown);
}

#[test]
fn test_single_entry_chain() {
    let chain = make_chain(&[("node", 500)]);
    assert_eq!(detect_source(&chain, None), SourceType::Unknown);
}

#[test]
fn test_runit_detection() {
    let chain = make_chain(&[
        ("myapp", 500),
        ("runsv", 200),
        ("runsvdir", 100),
        ("init", 1),
    ]);
    assert_eq!(detect_source(&chain, None), SourceType::Runit);
}

#[test]
fn test_s6_detection() {
    let chain = make_chain(&[
        ("myapp", 500),
        ("s6-supervise", 200),
        ("s6-svscan", 100),
        ("init", 1),
    ]);
    assert_eq!(detect_source(&chain, None), SourceType::S6);
}

#[test]
fn test_kubepods_cgroup() {
    let chain = make_chain(&[("app", 500)]);
    let cgroup = "0::/kubepods/burstable/pod123/container456\n";
    assert_eq!(detect_source(&chain, Some(cgroup)), SourceType::Docker);
}

#[test]
fn test_supervisor_beats_multiplexer_anywhere() {
    // Tier order between the chain scans: a supervisor high in the chain
    // outranks a multiplexer below it.
    let chain = make_chain(&[
        ("worker", 500),
        ("tmux: server", 300),
        ("pm2", 200),
        ("systemd", 1),
    ]);
    assert_eq!(detect_source(&chain, None), SourceType::Pm2);
}

#[test]
fn test_highest_supervisor_wins() {
    // Two supervisors in the chain: the one nearest the root wins.
    let chain = make_chain(&[
        ("worker", 500),
        ("gunicorn", 300),
        ("supervisord", 200),
        ("systemd", 1),
    ]);
    assert_eq!(detect_source(&chain, None), SourceType::Supervisord);
}
