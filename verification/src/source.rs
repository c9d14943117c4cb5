//! The tiered source classifier: given a process's ancestry chain and its
//! optional cgroup text, decide which supervisor, container runtime, shell
//! or init system is responsible for it.
//!
//! Priority order, first match wins: container markers in the cgroup text;
//! an init-system unit marker there; known supervisors anywhere in the
//! chain, walked from the root toward the target so the highest-level one
//! wins; terminal multiplexers, same walk; cron, same walk; a shell, but
//! only as the direct parent; the platform init process as chain root; and
//! otherwise Unknown.

use vstd::prelude::*;

use crate::ancestry::Ancestor;
use crate::strutil::{eq_str, lower_of, starts_with_str, str_contains, to_lowercase};

verus! {

/// Detected source or supervisor of a process.
#[derive(Debug, Clone, Copy, PartialEq, Eq, Structural)]
pub enum SourceType {
    Systemd,
    Launchd,
    Docker,
    Cron,
    Shell,
    Pm2,
    Supervisord,
    Gunicorn,
    Runit,
    S6,
    Tmux,
    Screen,
    Nohup,
    Unknown,
}

impl SourceType {
    /// The token naming this source in machine-readable output.
    pub open spec fn token(self) -> Seq<char> {
        match self {
            SourceType::Systemd => "systemd"@,
            SourceType::Launchd => "launchd"@,
            SourceType::Docker => "docker"@,
            SourceType::Cron => "cron"@,
            SourceType::Shell => "shell"@,
            SourceType::Pm2 => "pm2"@,
            SourceType::Supervisord => "supervisord"@,
            SourceType::Gunicorn => "gunicorn"@,
            SourceType::Runit => "runit"@,
            SourceType::S6 => "s6"@,
            SourceType::Tmux => "tmux"@,
            SourceType::Screen => "screen"@,
            SourceType::Nohup => "nohup"@,
            SourceType::Unknown => "unknown"@,
        }
    }

    /// The lowercase label of this source.
    pub fn label(&self) -> (r: String)
        ensures
            r@ == self.token(),
    {
        match self {
            SourceType::Systemd => String::from_str("systemd"),
            SourceType::Launchd => String::from_str("launchd"),
            SourceType::Docker => String::from_str("docker"),
            SourceType::Cron => String::from_str("cron"),
            SourceType::Shell => String::from_str("shell"),
            SourceType::Pm2 => String::from_str("pm2"),
            SourceType::Supervisord => String::from_str("supervisord"),
            SourceType::Gunicorn => String::from_str("gunicorn"),
            SourceType::Runit => String::from_str("runit"),
            SourceType::S6 => String::from_str("s6"),
            SourceType::Tmux => String::from_str("tmux"),
            SourceType::Screen => String::from_str("screen"),
            SourceType::Nohup => String::from_str("nohup"),
            SourceType::Unknown => String::from_str("unknown"),
        }
    }
}

// ── Name tables ─────────────────────────────────────────────────────────────

/// The supervisor a lowercased process name stands for, if any.
pub open spec fn supervisor_source(n: Seq<char>) -> Option<SourceType> {
    if n == "pm2"@ {
        Some(SourceType::Pm2)
    } else if n == "supervisord"@ || n == "supervisor"@ {
        Some(SourceType::Supervisord)
    } else if n == "gunicorn"@ {
        Some(SourceType::Gunicorn)
    } else if n == "runsv"@ || n == "runsvdir"@ {
        Some(SourceType::Runit)
    } else if n == "s6-svscan"@ || n == "s6-supervise"@ {
        Some(SourceType::S6)
    } else {
        None
    }
}

/// The terminal multiplexer a lowercased process name stands for, if any:
/// matched by name prefix, so forms such as `tmux: server` count too.
pub open spec fn mux_source(n: Seq<char>) -> Option<SourceType> {
    if "tmux"@.is_prefix_of(n) {
        Some(SourceType::Tmux)
    } else if "screen"@.is_prefix_of(n) {
        Some(SourceType::Screen)
    } else if "nohup"@.is_prefix_of(n) {
        Some(SourceType::Nohup)
    } else {
        None
    }
}

/// Whether a lowercased process name is a cron daemon.
pub open spec fn is_cron_name(n: Seq<char>) -> bool {
    n == "cron"@ || n == "crond"@ || n == "anacron"@
}

/// Whether a lowercased process name is a known shell.
pub open spec fn is_shell_name(n: Seq<char>) -> bool {
    n == "bash"@ || n == "sh"@ || n == "zsh"@ || n == "fish"@ || n == "tcsh"@ || n == "dash"@ || n
        == "ksh"@ || n == "csh"@
}

/// Whether cgroup text names a container runtime path fragment.
pub open spec fn has_container_marker(cg: Seq<char>) -> bool {
    str_contains(cg, "/docker/"@) || str_contains(cg, "/containerd/"@) || str_contains(
        cg,
        "/kubepods/"@,
    ) || str_contains(cg, "/podman-"@)
}

/// Whether cgroup text carries a unit-file suffix marker.
pub open spec fn has_service_marker(cg: Seq<char>) -> bool {
    str_contains(cg, ".service"@)
}

fn supervisor_source_of(n: &str) -> (r: Option<SourceType>)
    ensures
        r == supervisor_source(n@),
{
    if eq_str(n, "pm2") {
        Some(SourceType::Pm2)
    } else if eq_str(n, "supervisord") || eq_str(n, "supervisor") {
        Some(SourceType::Supervisord)
    } else if eq_str(n, "gunicorn") {
        Some(SourceType::Gunicorn)
    } else if eq_str(n, "runsv") || eq_str(n, "runsvdir") {
        Some(SourceType::Runit)
    } else if eq_str(n, "s6-svscan") || eq_str(n, "s6-supervise") {
        Some(SourceType::S6)
    } else {
        None
    }
}

fn mux_source_of(n: &str) -> (r: Option<SourceType>)
    ensures
        r == mux_source(n@),
{
    if starts_with_str(n, "tmux") {
        Some(SourceType::Tmux)
    } else if starts_with_str(n, "screen") {
        Some(SourceType::Screen)
    } else if starts_with_str(n, "nohup") {
        Some(SourceType::Nohup)
    } else {
        None
    }
}

fn is_cron_name_of(n: &str) -> (r: bool)
    ensures
        r == is_cron_name(n@),
{
    eq_str(n, "cron") || eq_str(n, "crond") || eq_str(n, "anacron")
}

fn is_shell_name_of(n: &str) -> (r: bool)
    ensures
        r == is_shell_name(n@),
{
    eq_str(n, "bash") || eq_str(n, "sh") || eq_str(n, "zsh") || eq_str(n, "fish") || eq_str(
        n,
        "tcsh",
    ) || eq_str(n, "dash") || eq_str(n, "ksh") || eq_str(n, "csh")
}

// ── Chain scans, root to target ─────────────────────────────────────────────

/// First supervisor found scanning indices `i, i-1, …, 0` — the stored chain
/// runs target to root, so this walks from the root toward the target.
pub open spec fn scan_supervisors(chain: Seq<Ancestor>, i: int) -> Option<SourceType>
    decreases i + 1,
    when i < chain.len()
{
    if i < 0 {
        None
    } else {
        match supervisor_source(lower_of(chain[i].name@)) {
            Some(s) => Some(s),
            None => scan_supervisors(chain, i - 1),
        }
    }
}

/// First multiplexer found on the same root-to-target walk.
pub open spec fn scan_multiplexers(chain: Seq<Ancestor>, i: int) -> Option<SourceType>
    decreases i + 1,
    when i < chain.len()
{
    if i < 0 {
        None
    } else {
        match mux_source(lower_of(chain[i].name@)) {
            Some(s) => Some(s),
            None => scan_multiplexers(chain, i - 1),
        }
    }
}

/// Whether any name on the walk is a cron daemon.
pub open spec fn scan_cron(chain: Seq<Ancestor>, i: int) -> bool
    decreases i + 1,
    when i < chain.len()
{
    if i < 0 {
        false
    } else if is_cron_name(lower_of(chain[i].name@)) {
        true
    } else {
        scan_cron(chain, i - 1)
    }
}

// ── The classifier ──────────────────────────────────────────────────────────

pub open spec fn opt_str_view(o: Option<&str>) -> Option<Seq<char>> {
    match o {
        Some(s) => Some(s@),
        None => None,
    }
}

/// The six-tier classification of a chain with optional cgroup text.
pub open spec fn source_spec(chain: Seq<Ancestor>, cgroup: Option<Seq<char>>) -> SourceType {
    if cgroup matches Some(cg) && has_container_marker(cg) {
        SourceType::Docker
    } else if cgroup matches Some(cg) && has_service_marker(cg) {
        SourceType::Systemd
    } else {
        match scan_supervisors(chain, chain.len() - 1) {
            Some(s) => s,
            None => match scan_multiplexers(chain, chain.len() - 1) {
                Some(s) => s,
                None => if scan_cron(chain, chain.len() - 1) {
                    SourceType::Cron
                } else if chain.len() >= 2 && is_shell_name(lower_of(chain[1].name@)) {
                    SourceType::Shell
                } else if chain.len() > 0 && chain.last().name@ == "launchd"@ {
                    SourceType::Launchd
                } else {
                    SourceType::Unknown
                },
            },
        }
    }
}

/// Classify a process by its ancestry chain (ordered target to root) and the
/// raw content of its cgroup file, if any.
#[verifier::loop_isolation(false)]
pub fn detect_source(chain: &Vec<Ancestor>, cgroup: Option<&str>) -> (r: SourceType)
    ensures
        r == source_spec(chain@, opt_str_view(cgroup)),
{
    // Tier 1: container markers in the cgroup text.
    if let Some(cg) = cgroup {
        if crate::strutil::contains_str(cg, "/docker/") || crate::strutil::contains_str(
            cg,
            "/containerd/",
        ) || crate::strutil::contains_str(cg, "/kubepods/") || crate::strutil::contains_str(
            cg,
            "/podman-",
        ) {
            return SourceType::Docker;
        }
        // Tier 2: init-system unit marker.
        if crate::strutil::contains_str(cg, ".service") {
            return SourceType::Systemd;
        }
    }
    let n = chain.len();
    // Tier 3: supervisors, walked root to target.
    let mut i = n;
    while i > 0
        invariant
            i <= n,
            n == chain@.len(),
            scan_supervisors(chain@, n - 1) == scan_supervisors(chain@, i - 1),
        decreases i,
    {
        i -= 1;
        let name_lower = to_lowercase(chain[i].name.as_str());
        if let Some(s) = supervisor_source_of(name_lower.as_str()) {
            return s;
        }
    }
    // Tier 4: multiplexers.
    let mut i = n;
    while i > 0
        invariant
            i <= n,
            n == chain@.len(),
            scan_multiplexers(chain@, n - 1) == scan_multiplexers(chain@, i - 1),
        decreases i,
    {
        i -= 1;
        let name_lower = to_lowercase(chain[i].name.as_str());
        if let Some(s) = mux_source_of(name_lower.as_str()) {
            return s;
        }
    }
    // Tier 5: cron.
    let mut i = n;
    while i > 0
        invariant
            i <= n,
            n == chain@.len(),
            scan_cron(chain@, n - 1) == scan_cron(chain@, i - 1),
        decreases i,
    {
        i -= 1;
        let name_lower = to_lowercase(chain[i].name.as_str());
        if is_cron_name_of(name_lower.as_str()) {
            return SourceType::Cron;
        }
    }
    // Tier 6: a shell, but only as the direct parent.
    if n >= 2 {
        let parent_lower = to_lowercase(chain[1].name.as_str());
        if is_shell_name_of(parent_lower.as_str()) {
            return SourceType::Shell;
        }
    }
    // A chain rooted at launchd names its init system.
    if n > 0 {
        if eq_str(chain[n - 1].name.as_str(), "launchd") {
            return SourceType::Launchd;
        }
    }
    SourceType::Unknown
}

// ── Tier-ordering laws ──────────────────────────────────────────────────────

proof fn lemma_scan_supervisors_none(chain: Seq<Ancestor>, i: int)
    requires
        i < chain.len(),
        forall|k: int|
            0 <= k < chain.len() ==> supervisor_source(lower_of(#[trigger] chain[k].name@))
                is None,
    ensures
        scan_supervisors(chain, i) is None,
    decreases i + 1,
{
    if i >= 0 {
        lemma_scan_supervisors_none(chain, i - 1);
    }
}

proof fn lemma_scan_multiplexers_none(chain: Seq<Ancestor>, i: int)
    requires
        i < chain.len(),
        forall|k: int|
            0 <= k < chain.len() ==> mux_source(lower_of(#[trigger] chain[k].name@)) is None,
    ensures
        scan_multiplexers(chain, i) is None,
    decreases i + 1,
{
    if i >= 0 {
        lemma_scan_multiplexers_none(chain, i - 1);
    }
}

proof fn lemma_scan_cron_false(chain: Seq<Ancestor>, i: int)
    requires
        i < chain.len(),
        forall|k: int| 0 <= k < chain.len() ==> !is_cron_name(lower_of(#[trigger] chain[k].name@)),
    ensures
        !scan_cron(chain, i),
    decreases i + 1,
{
    if i >= 0 {
        lemma_scan_cron_false(chain, i - 1);
    }
}

/// Tier order is strict: cgroup text with a container-runtime marker
/// classifies as Docker, whatever names stand anywhere in the chain.
pub proof fn lemma_container_marker_wins(chain: Seq<Ancestor>, cg: Seq<char>)
    requires
        has_container_marker(cg),
    ensures
        source_spec(chain, Some(cg)) == SourceType::Docker,
{
}

/// An init-system unit marker in the cgroup text classifies as Systemd,
/// whatever stands in the chain — in particular a shell as direct parent
/// does not pull the answer down to Shell.
pub proof fn lemma_service_marker_wins(chain: Seq<Ancestor>, cg: Seq<char>)
    requires
        !has_container_marker(cg),
        has_service_marker(cg),
    ensures
        source_spec(chain, Some(cg)) == SourceType::Systemd,
{
}

/// With no cgroup metadata and no supervisor, multiplexer or cron name
/// anywhere in the chain, a shell standing as the direct parent classifies
/// as Shell.
pub proof fn lemma_shell_direct_parent(chain: Seq<Ancestor>)
    requires
        chain.len() >= 2,
        forall|k: int|
            0 <= k < chain.len() ==> supervisor_source(lower_of(#[trigger] chain[k].name@))
                is None,
        forall|k: int|
            0 <= k < chain.len() ==> mux_source(lower_of(#[trigger] chain[k].name@)) is None,
        forall|k: int| 0 <= k < chain.len() ==> !is_cron_name(lower_of(#[trigger] chain[k].name@)),
        is_shell_name(lower_of(chain[1].name@)),
    ensures
        source_spec(chain, None) == SourceType::Shell,
{
    lemma_scan_supervisors_none(chain, chain.len() - 1);
    lemma_scan_multiplexers_none(chain, chain.len() - 1);
    lemma_scan_cron_false(chain, chain.len() - 1);
}

/// Under the same hypotheses, a shell anywhere but the direct-parent slot
/// does not count: if the direct parent is no shell and the root is not the
/// init process, the chain classifies as Unknown.
pub proof fn lemma_shell_not_inherited(chain: Seq<Ancestor>)
    requires
        chain.len() >= 2,
        forall|k: int|
            0 <= k < chain.len() ==> supervisor_source(lower_of(#[trigger] chain[k].name@))
                is None,
        forall|k: int|
            0 <= k < chain.len() ==> mux_source(lower_of(#[trigger] chain[k].name@)) is None,
        forall|k: int| 0 <= k < chain.len() ==> !is_cron_name(lower_of(#[trigger] chain[k].name@)),
        !is_shell_name(lower_of(chain[1].name@)),
        chain.last().name@ != "launchd"@,
    ensures
        source_spec(chain, None) == SourceType::Unknown,
{
    lemma_scan_supervisors_none(chain, chain.len() - 1);
    lemma_scan_multiplexers_none(chain, chain.len() - 1);
    lemma_scan_cron_false(chain, chain.len() - 1);
}

/// An empty chain with no cgroup text classifies as Unknown; so does a
/// single-element chain whose own name matches no classifier table and is
/// not the init process — there is no direct parent to test.
pub proof fn lemma_short_chain_unknown(chain: Seq<Ancestor>)
    requires
        chain.len() <= 1,
        chain.len() == 1 ==> supervisor_source(lower_of(chain[0].name@)) is None && mux_source(
            lower_of(chain[0].name@),
        ) is None && !is_cron_name(lower_of(chain[0].name@)) && chain[0].name@ != "launchd"@,
    ensures
        source_spec(chain, None) == SourceType::Unknown,
{
    if chain.len() == 1 {
        assert(scan_supervisors(chain, -1) is None);
        assert(scan_multiplexers(chain, -1) is None);
        assert(!scan_cron(chain, -1));
        assert(scan_supervisors(chain, 0) is None);
        assert(scan_multiplexers(chain, 0) is None);
        assert(!scan_cron(chain, 0));
    }
}

} // verus!
