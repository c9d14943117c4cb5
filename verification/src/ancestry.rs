//! Process ancestry: the chain types, the auxiliary detectors, the ancestry
//! builder, and the short-TTL cache that guards against pid reuse.

use vstd::prelude::*;

use crate::scan::{after_last, after_last_str, lines_vec, split_lines, trim, trim_spec};
use crate::source::SourceType;
use crate::strutil::str_contains;

verus! {

/// A single process in an ancestry chain, ordered from the target process
/// (index 0) up toward the root.
#[derive(Debug, Clone)]
pub struct Ancestor {
    pub pid: u32,
    pub name: String,
    pub ppid: u32,
}

/// Health warnings detected for a process.
#[derive(Debug, Clone, Copy, PartialEq, Eq, Structural)]
pub enum HealthWarning {
    DeletedBinary,
    ZombieProcess,
}

impl HealthWarning {
    /// The token naming this warning in machine-readable output.
    pub open spec fn token(self) -> Seq<char> {
        match self {
            HealthWarning::DeletedBinary => "deleted-binary"@,
            HealthWarning::ZombieProcess => "zombie"@,
        }
    }

    /// The lowercase label of this warning.
    pub fn label(&self) -> (r: String)
        ensures
            r@ == self.token(),
    {
        match self {
            HealthWarning::DeletedBinary => String::from_str("deleted-binary"),
            HealthWarning::ZombieProcess => String::from_str("zombie"),
        }
    }
}

/// Repository context derived from a process working directory.
#[derive(Debug, Clone)]
pub struct GitContext {
    pub repo_name: String,
    pub branch: Option<String>,
}

/// Full ancestry and source information for a process.
#[derive(Debug, Clone)]
pub struct ProcessAncestry {
    pub chain: Vec<Ancestor>,
    pub source: SourceType,
    pub warnings: Vec<HealthWarning>,
    pub git_context: Option<GitContext>,
    pub systemd_unit: Option<String>,
    pub launchd_label: Option<String>,
}

// ── Verified cloning ────────────────────────────────────────────────────────

pub fn clone_opt_string(o: &Option<String>) -> (r: Option<String>)
    ensures
        r == *o,
{
    match o {
        Some(s) => Some(s.clone()),
        None => None,
    }
}

pub fn clone_git_context(g: &GitContext) -> (r: GitContext)
    ensures
        r == *g,
{
    GitContext { repo_name: g.repo_name.clone(), branch: clone_opt_string(&g.branch) }
}

pub fn clone_opt_git(o: &Option<GitContext>) -> (r: Option<GitContext>)
    ensures
        r == *o,
{
    match o {
        Some(g) => Some(clone_git_context(g)),
        None => None,
    }
}

pub fn clone_ancestor(a: &Ancestor) -> (r: Ancestor)
    ensures
        r == *a,
{
    Ancestor { pid: a.pid, name: a.name.clone(), ppid: a.ppid }
}

pub fn clone_ancestors(v: &Vec<Ancestor>) -> (r: Vec<Ancestor>)
    ensures
        r@ == v@,
{
    let mut r: Vec<Ancestor> = Vec::new();
    let n = v.len();
    let mut i: usize = 0;
    while i < n
        invariant
            i <= n,
            n == v@.len(),
            r@ == v@.subrange(0, i as int),
        decreases n - i,
    {
        r.push(clone_ancestor(&v[i]));
        proof {
            assert(r@ =~= v@.subrange(0, i + 1));
        }
        i += 1;
    }
    proof {
        assert(r@ =~= v@);
    }
    r
}

pub fn clone_warnings(v: &Vec<HealthWarning>) -> (r: Vec<HealthWarning>)
    ensures
        r@ == v@,
{
    let mut r: Vec<HealthWarning> = Vec::new();
    let n = v.len();
    let mut i: usize = 0;
    while i < n
        invariant
            i <= n,
            n == v@.len(),
            r@ == v@.subrange(0, i as int),
        decreases n - i,
    {
        r.push(v[i]);
        proof {
            assert(r@ =~= v@.subrange(0, i + 1));
        }
        i += 1;
    }
    proof {
        assert(r@ =~= v@);
    }
    r
}

/// Two ancestries carry the same observable content.
pub open spec fn ancestry_eq(a: ProcessAncestry, b: ProcessAncestry) -> bool {
    &&& a.chain@ == b.chain@
    &&& a.source == b.source
    &&& a.warnings@ == b.warnings@
    &&& a.git_context == b.git_context
    &&& a.systemd_unit == b.systemd_unit
    &&& a.launchd_label == b.launchd_label
}

pub fn clone_process_ancestry(a: &ProcessAncestry) -> (r: ProcessAncestry)
    ensures
        ancestry_eq(r, *a),
{
    ProcessAncestry {
        chain: clone_ancestors(&a.chain),
        source: a.source,
        warnings: clone_warnings(&a.warnings),
        git_context: clone_opt_git(&a.git_context),
        systemd_unit: clone_opt_string(&a.systemd_unit),
        launchd_label: clone_opt_string(&a.launchd_label),
    }
}

// ── Auxiliary detectors ─────────────────────────────────────────────────────

/// The health warnings that follow from a process's executable link target
/// and its single-character state code: a link target holding the deleted
/// marker, and the zombie state code.
pub open spec fn warnings_spec(exe: Option<Seq<char>>, state: Option<char>) -> Seq<HealthWarning> {
    let del: Seq<HealthWarning> = if exe matches Some(t) && str_contains(t, "(deleted)"@) {
        seq![HealthWarning::DeletedBinary]
    } else {
        Seq::empty()
    };
    let zom: Seq<HealthWarning> = if state == Some('Z') {
        seq![HealthWarning::ZombieProcess]
    } else {
        Seq::empty()
    };
    del + zom
}

/// Health warnings from a process's executable link target and state code.
pub fn detect_warnings(exe_target: Option<&str>, state: Option<char>) -> (r: Vec<HealthWarning>)
    ensures
        r@ == warnings_spec(crate::source::opt_str_view(exe_target), state),
{
    let mut r: Vec<HealthWarning> = Vec::new();
    if let Some(t) = exe_target {
        if crate::strutil::contains_str(t, "(deleted)") {
            r.push(HealthWarning::DeletedBinary);
        }
    }
    if let Some(st) = state {
        if st == 'Z' {
            r.push(HealthWarning::ZombieProcess);
        }
    }
    proof {
        assert(r@ =~= warnings_spec(crate::source::opt_str_view(exe_target), state));
    }
    r
}

/// The unit a cgroup line names: the last `/`-segment of what follows the
/// last colon, if it ends in the unit suffix.
pub open spec fn unit_of_line(l: Seq<char>) -> Option<Seq<char>> {
    let u = after_last(after_last(l, ':'), '/');
    if ".service"@.is_suffix_of(u) {
        Some(u)
    } else {
        None
    }
}

/// The first unit named by any line.
pub open spec fn first_unit(lines: Seq<Seq<char>>) -> Option<Seq<char>>
    decreases lines.len(),
{
    if lines.len() == 0 {
        None
    } else {
        match unit_of_line(lines[0]) {
            Some(u) => Some(u),
            None => first_unit(lines.drop_first()),
        }
    }
}

/// The unit name the cgroup text yields.
pub open spec fn unit_spec(cg: Seq<char>) -> Option<Seq<char>> {
    first_unit(split_lines(cg))
}

/// Extract an init-system unit name from cgroup text: the first line whose
/// last path segment ends in the unit suffix.
pub fn systemd_unit_from_cgroup(cgroup: &str) -> (r: Option<String>)
    ensures
        match r {
            Some(u) => unit_spec(cgroup@) == Some(u@),
            None => unit_spec(cgroup@) is None,
        },
{
    let lines = lines_vec(cgroup);
    let n = lines.len();
    let ghost ls = split_lines(cgroup@);
    let mut i: usize = 0;
    proof {
        assert(ls.skip(0) =~= ls);
    }
    while i < n
        invariant
            i <= n,
            n == lines@.len(),
            lines.deep_view() == ls,
            ls == split_lines(cgroup@),
            first_unit(ls) == first_unit(ls.skip(i as int)),
        decreases n - i,
    {
        proof {
            assert(ls.skip(i as int)[0] == ls[i as int]);
            assert(ls.skip(i as int).drop_first() =~= ls.skip(i + 1));
        }
        let path = after_last_str(lines[i].as_str(), ':');
        let unit = after_last_str(path.as_str(), '/');
        if crate::strutil::ends_with_str(unit.as_str(), ".service") {
            return Some(unit);
        }
        i += 1;
    }
    proof {
        assert(ls.skip(n as int) =~= Seq::<Seq<char>>::empty());
    }
    None
}

/// Working directories daemons conventionally run from, where repository
/// context is never looked for.
pub open spec fn system_cwd_spec(cwd: Seq<char>) -> bool {
    cwd == "/"@ || "/usr"@.is_prefix_of(cwd) || "/var/run"@.is_prefix_of(cwd)
}

/// Whether a working directory is a well-known system directory.
pub fn is_system_cwd(cwd: &str) -> (r: bool)
    ensures
        r == system_cwd_spec(cwd@),
{
    crate::strutil::eq_str(cwd, "/") || crate::strutil::starts_with_str(cwd, "/usr")
        || crate::strutil::starts_with_str(cwd, "/var/run")
}

/// What a repository head file names: the branch after the ref prefix, or
/// the first eight characters of the trimmed content when detached.
pub open spec fn head_ref_spec(content: Seq<char>) -> Seq<char> {
    let t = trim_spec(content);
    if "ref: refs/heads/"@.is_prefix_of(t) {
        t.skip("ref: refs/heads/"@.len() as int)
    } else if t.len() <= 8 {
        t
    } else {
        t.take(8)
    }
}

/// Read a branch name, or a short detached hash, out of head-file content.
pub fn branch_of_head(content: &str) -> (r: String)
    ensures
        r@ == head_ref_spec(content@),
{
    let t = crate::scan::trim(content);
    let prefix = "ref: refs/heads/";
    let pl = prefix.unicode_len();
    let tl = t.as_str().unicode_len();
    if crate::strutil::starts_with_str(t.as_str(), prefix) {
        let tail = t.as_str().substring_char(pl, tl);
        let r = String::from_str(tail);
        proof {
            assert(r@ =~= head_ref_spec(content@));
        }
        r
    } else if tl <= 8 {
        t
    } else {
        let head = t.as_str().substring_char(0, 8);
        let r = String::from_str(head);
        proof {
            assert(r@ =~= head_ref_spec(content@));
        }
        r
    }
}

// ── Assembling an ancestry ──────────────────────────────────────────────────

/// Everything `build_ancestry` promises of a produced ancestry: the chain is
/// a non-empty valid walk for the pid, the source is the classifier's
/// verdict, the warnings and the unit come from the given auxiliary inputs,
/// and the repository context and label are passed through.
pub open spec fn built_ancestry_ok(
    entries: Seq<crate::procs::ProcRecord>,
    pid: u32,
    cgroup: Option<Seq<char>>,
    exe_target: Option<Seq<char>>,
    state: Option<char>,
    git_context: Option<GitContext>,
    launchd_label: Option<String>,
    a: ProcessAncestry,
) -> bool {
    &&& crate::procs::valid_walk(entries, pid, a.chain@)
    &&& a.chain@.len() > 0
    &&& a.source == crate::source::source_spec(a.chain@, cgroup)
    &&& a.warnings@ == warnings_spec(exe_target, state)
    &&& (match (cgroup, a.systemd_unit) {
        (Some(cg), Some(u)) => unit_spec(cg) == Some(u@),
        (Some(cg), None) => unit_spec(cg) is None,
        (None, u) => u is None,
    })
    &&& a.git_context == git_context
    &&& a.launchd_label == launchd_label
}

/// Build the full ancestry of `pid` from a process-table snapshot and the
/// auxiliary inputs read alongside it: the cgroup text, the executable link
/// target, the state code, the repository context, and the init-system
/// label. Yields nothing exactly when the pid has no record in the snapshot.
pub fn build_ancestry(
    table: &crate::procs::ProcessTable,
    pid: u32,
    cgroup: Option<&str>,
    exe_target: Option<&str>,
    state: Option<char>,
    git_context: Option<GitContext>,
    launchd_label: Option<String>,
) -> (r: Option<ProcessAncestry>)
    ensures
        r is None <==> crate::procs::find_rec(table.entries@, pid) is None,
        r matches Some(a) ==> built_ancestry_ok(
            table.entries@,
            pid,
            crate::source::opt_str_view(cgroup),
            crate::source::opt_str_view(exe_target),
            state,
            git_context,
            launchd_label,
            a,
        ),
{
    let chain = crate::procs::walk_ppid_chain(table, pid);
    if chain.len() == 0 {
        return None;
    }
    let source = crate::source::detect_source(&chain, cgroup);
    let warnings = detect_warnings(exe_target, state);
    let systemd_unit = match cgroup {
        Some(cg) => systemd_unit_from_cgroup(cg),
        None => None,
    };
    Some(
        ProcessAncestry {
            chain,
            source,
            warnings,
            git_context,
            systemd_unit,
            launchd_label,
        },
    )
}

// ── The ancestry cache ──────────────────────────────────────────────────────

/// One cached ancestry, tagged with the process name seen at capture time so
/// pid reuse can be detected.
#[derive(Debug, Clone)]
pub struct CacheEntry {
    pub pid: u32,
    pub name: String,
    pub ancestry: ProcessAncestry,
}

/// Short-TTL memoization of ancestry results keyed by pid. The whole cache
/// expires together; single entries are evicted when the live process name
/// no longer matches the captured one.
#[derive(Debug)]
pub struct AncestryCache {
    pub created_ms: u64,
    pub ttl_ms: u64,
    pub entries: Vec<CacheEntry>,
}

/// Index of the entry for `pid`.
pub open spec fn cache_find(entries: Seq<CacheEntry>, pid: u32) -> Option<int>
    decreases entries.len(),
{
    if entries.len() == 0 {
        None
    } else if entries[0].pid == pid {
        Some(0)
    } else {
        match cache_find(entries.drop_first(), pid) {
            Some(j) => Some(j + 1),
            None => None,
        }
    }
}

pub proof fn lemma_cache_find_props(entries: Seq<CacheEntry>, pid: u32)
    ensures
        match cache_find(entries, pid) {
            Some(j) => 0 <= j < entries.len() && entries[j].pid == pid && forall|k: int|
                0 <= k < j ==> entries[k].pid != pid,
            None => forall|k: int| 0 <= k < entries.len() ==> entries[k].pid != pid,
        },
    decreases entries.len(),
{
    if entries.len() > 0 && entries[0].pid != pid {
        let d = entries.drop_first();
        lemma_cache_find_props(d, pid);
        match cache_find(d, pid) {
            Some(j) => {
                assert forall|k: int| 0 <= k < j + 1 implies entries[k].pid != pid by {
                    if k > 0 {
                        assert(d[k - 1] == entries[k]);
                    }
                }
            },
            None => {
                assert forall|k: int| 0 <= k < entries.len() implies entries[k].pid != pid by {
                    if k > 0 {
                        assert(d[k - 1] == entries[k]);
                    }
                }
            },
        }
    }
}

pub proof fn lemma_cache_find_is(entries: Seq<CacheEntry>, pid: u32, j: int)
    requires
        0 <= j < entries.len(),
        entries[j].pid == pid,
        forall|k: int| 0 <= k < j ==> entries[k].pid != pid,
    ensures
        cache_find(entries, pid) == Some(j),
    decreases entries.len(),
{
    if j > 0 {
        lemma_cache_find_is(entries.drop_first(), pid, j - 1);
    }
}

pub proof fn lemma_cache_find_none(entries: Seq<CacheEntry>, pid: u32)
    requires
        forall|k: int| 0 <= k < entries.len() ==> entries[k].pid != pid,
    ensures
        cache_find(entries, pid) is None,
    decreases entries.len(),
{
    if entries.len() > 0 {
        lemma_cache_find_none(entries.drop_first(), pid);
    }
}

/// At most one entry per pid.
pub open spec fn cache_pids_distinct(entries: Seq<CacheEntry>) -> bool {
    forall|i: int, j: int|
        0 <= i < j < entries.len() ==> (#[trigger] entries[i]).pid != (#[trigger] entries[j]).pid
}

/// An entry for this pid exists and carries this very name.
pub open spec fn cache_hit(entries: Seq<CacheEntry>, pid: u32, name: Seq<char>) -> bool {
    match cache_find(entries, pid) {
        Some(j) => entries[j].name@ == name,
        None => false,
    }
}

/// The ancestry stored for this pid.
pub open spec fn cache_value(entries: Seq<CacheEntry>, pid: u32) -> ProcessAncestry
    recommends
        cache_find(entries, pid) is Some,
{
    entries[cache_find(entries, pid)->Some_0].ancestry
}

/// Find the entry for `pid`.
fn find_index(entries: &Vec<CacheEntry>, pid: u32) -> (r: Option<usize>)
    ensures
        match r {
            Some(i) => cache_find(entries@, pid) == Some(i as int),
            None => cache_find(entries@, pid) is None,
        },
{
    let n = entries.len();
    let mut i: usize = 0;
    while i < n
        invariant
            i <= n,
            n == entries@.len(),
            forall|k: int| 0 <= k < i ==> (#[trigger] entries@[k]).pid != pid,
        decreases n - i,
    {
        if entries[i].pid == pid {
            proof {
                lemma_cache_find_is(entries@, pid, i as int);
            }
            return Some(i);
        }
        i += 1;
    }
    proof {
        lemma_cache_find_none(entries@, pid);
    }
    None
}

/// Removing the one entry for `pid` leaves a well-formed cache without it.
proof fn lemma_cache_remove(entries: Seq<CacheEntry>, j: int)
    requires
        cache_pids_distinct(entries),
        0 <= j < entries.len(),
    ensures
        cache_pids_distinct(entries.remove(j)),
        forall|k: int|
            0 <= k < entries.remove(j).len() ==> (#[trigger] entries.remove(j)[k]).pid
                != entries[j].pid,
{
    entries.remove_ensures(j);
    let cleaned = entries.remove(j);
    assert forall|k: int| 0 <= k < cleaned.len() implies (#[trigger] cleaned[k]).pid
        != entries[j].pid by {
        if k < j {
            assert(cleaned[k] == entries[k]);
        } else {
            assert(cleaned[k] == entries[k + 1]);
        }
    }
    assert forall|p: int, q: int| 0 <= p < q < cleaned.len() implies (#[trigger] cleaned[p]).pid
        != (#[trigger] cleaned[q]).pid by {
        let p0: int = if p < j {
            p
        } else {
            p + 1
        };
        let q0: int = if q < j {
            q
        } else {
            q + 1
        };
        assert(cleaned[p] == entries[p0]);
        assert(cleaned[q] == entries[q0]);
    }
}

/// Appending an entry whose pid is fresh keeps the cache well-formed, and
/// the new entry is the one its pid now finds.
proof fn lemma_cache_push(entries: Seq<CacheEntry>, e: CacheEntry)
    requires
        cache_pids_distinct(entries),
        forall|k: int| 0 <= k < entries.len() ==> (#[trigger] entries[k]).pid != e.pid,
    ensures
        cache_pids_distinct(entries.push(e)),
        cache_find(entries.push(e), e.pid) == Some(entries.len() as int),
{
    let pushed = entries.push(e);
    assert forall|p: int, q: int| 0 <= p < q < pushed.len() implies (#[trigger] pushed[p]).pid
        != (#[trigger] pushed[q]).pid by {
        if q < pushed.len() - 1 {
            assert(pushed[p] == entries[p]);
            assert(pushed[q] == entries[q]);
        } else {
            assert(pushed[p] == entries[p]);
            assert(pushed[q] == e);
        }
    }
    assert forall|k: int| 0 <= k < entries.len() implies pushed[k].pid != e.pid by {
        assert(pushed[k] == entries[k]);
    }
    lemma_cache_find_is(pushed, e.pid, entries.len() as int);
}

/// The entry for `q` is the same in both entry lists: present in neither,
/// or present in both with the very same content.
pub open spec fn cache_entry_same(a: Seq<CacheEntry>, b: Seq<CacheEntry>, q: u32) -> bool {
    match (cache_find(a, q), cache_find(b, q)) {
        (Some(i), Some(k)) => a[i] == b[k],
        (None, None) => true,
        _ => false,
    }
}

/// Removing one pid's entry leaves every other pid's entry as it was.
proof fn lemma_cache_find_remove_other(entries: Seq<CacheEntry>, j: int, q: u32)
    requires
        cache_pids_distinct(entries),
        0 <= j < entries.len(),
        entries[j].pid != q,
    ensures
        cache_entry_same(entries, entries.remove(j), q),
{
    lemma_cache_find_props(entries, q);
    entries.remove_ensures(j);
    let cleaned = entries.remove(j);
    match cache_find(entries, q) {
        Some(i) => {
            assert(i != j);
            if i < j {
                assert(cleaned[i] == entries[i]);
                assert forall|k: int| 0 <= k < i implies cleaned[k].pid != q by {
                    assert(cleaned[k] == entries[k]);
                }
                lemma_cache_find_is(cleaned, q, i);
            } else {
                assert(cleaned[i - 1] == entries[i]);
                assert forall|k: int| 0 <= k < i - 1 implies cleaned[k].pid != q by {
                    if k < j {
                        assert(cleaned[k] == entries[k]);
                    } else {
                        assert(cleaned[k] == entries[k + 1]);
                    }
                }
                lemma_cache_find_is(cleaned, q, i - 1);
            }
        },
        None => {
            assert forall|k: int| 0 <= k < cleaned.len() implies cleaned[k].pid != q by {
                if k < j {
                    assert(cleaned[k] == entries[k]);
                } else {
                    assert(cleaned[k] == entries[k + 1]);
                }
            }
            lemma_cache_find_none(cleaned, q);
        },
    }
}

/// Appending one pid's entry leaves every other pid's entry as it was.
proof fn lemma_cache_find_push_other(entries: Seq<CacheEntry>, e: CacheEntry, q: u32)
    requires
        q != e.pid,
    ensures
        cache_entry_same(entries, entries.push(e), q),
{
    lemma_cache_find_props(entries, q);
    let pushed = entries.push(e);
    match cache_find(entries, q) {
        Some(i) => {
            assert(pushed[i] == entries[i]);
            assert forall|k: int| 0 <= k < i implies pushed[k].pid != q by {
                assert(pushed[k] == entries[k]);
            }
            lemma_cache_find_is(pushed, q, i);
        },
        None => {
            assert forall|k: int| 0 <= k < pushed.len() implies pushed[k].pid != q by {
                if k < entries.len() {
                    assert(pushed[k] == entries[k]);
                }
            }
            lemma_cache_find_none(pushed, q);
        },
    }
}

proof fn lemma_cache_entry_same_trans(a: Seq<CacheEntry>, b: Seq<CacheEntry>, c: Seq<CacheEntry>, q: u32)
    requires
        cache_entry_same(a, b, q),
        cache_entry_same(b, c, q),
    ensures
        cache_entry_same(a, c, q),
{
}

/// In a well-formed list, looking an entry's own pid up finds exactly it.
proof fn lemma_entries_self_found(entries: Seq<CacheEntry>, j: int)
    requires
        cache_pids_distinct(entries),
        0 <= j < entries.len(),
    ensures
        cache_find(entries, entries[j].pid) == Some(j),
{
    assert forall|k: int| 0 <= k < j implies entries[k].pid != entries[j].pid by {}
    lemma_cache_find_is(entries, entries[j].pid, j);
}

impl AncestryCache {
    /// The whole cache is stale once its age exceeds the TTL.
    pub open spec fn expired(self, now_ms: u64) -> bool {
        now_ms > self.created_ms && now_ms - self.created_ms > self.ttl_ms
    }

    /// The entries a call at `now_ms` starts from: none if the cache has
    /// expired as a whole.
    pub open spec fn base_entries(self, now_ms: u64) -> Seq<CacheEntry> {
        if self.expired(now_ms) {
            Seq::empty()
        } else {
            self.entries@
        }
    }

    pub open spec fn wf(self) -> bool {
        cache_pids_distinct(self.entries@)
    }

    /// An empty cache created at `now_ms` with the given TTL.
    pub fn new(ttl_ms: u64, now_ms: u64) -> (r: AncestryCache)
        ensures
            r.ttl_ms == ttl_ms,
            r.created_ms == now_ms,
            r.entries@.len() == 0,
            r.wf(),
    {
        AncestryCache { created_ms: now_ms, ttl_ms, entries: Vec::new() }
    }

    /// Look up `pid`, validating against the live process name; clears the
    /// whole cache first if its TTL has passed, and evicts the entry when
    /// its captured name no longer matches (pid reuse).
    pub fn get(&mut self, pid: u32, process_name: &str, now_ms: u64) -> (r: Option<
        ProcessAncestry,
    >)
        requires
            old(self).wf(),
        ensures
            final(self).wf(),
            final(self).ttl_ms == old(self).ttl_ms,
            final(self).created_ms == if old(self).expired(now_ms) {
                now_ms
            } else {
                old(self).created_ms
            },
            ({
                let base = old(self).base_entries(now_ms);
                &&& (cache_hit(base, pid, process_name@) ==> (r matches Some(x) && ancestry_eq(
                    x,
                    cache_value(base, pid),
                )) && final(self).entries@ == base)
                &&& (!cache_hit(base, pid, process_name@) ==> r is None && final(self).entries@
                    == (match cache_find(base, pid) {
                    Some(j) => base.remove(j),
                    None => base,
                }))
                &&& forall|q: u32| q != pid ==> cache_entry_same(base, final(self).entries@, q)
            }),
    {
        let ghost old_base = old(self).base_entries(now_ms);
        if now_ms > self.created_ms && now_ms - self.created_ms > self.ttl_ms {
            self.entries.clear();
            self.created_ms = now_ms;
        }
        proof {
            assert(self.entries@ =~= old_base);
        }
        match find_index(&self.entries, pid) {
            Some(i) => {
                proof {
                    lemma_cache_find_props(self.entries@, pid);
                }
                if crate::strutil::eq_str(self.entries[i].name.as_str(), process_name) {
                    let a = clone_process_ancestry(&self.entries[i].ancestry);
                    Some(a)
                } else {
                    // Pid reuse: the live name differs from the captured one.
                    proof {
                        lemma_cache_remove(self.entries@, i as int);
                        assert forall|q: u32| q != pid implies cache_entry_same(
                            old_base,
                            old_base.remove(i as int),
                            q,
                        ) by {
                            lemma_cache_find_remove_other(old_base, i as int, q);
                        }
                    }
                    self.entries.remove(i);
                    None
                }
            },
            None => None,
        }
    }

    /// Store a freshly built ancestry for `pid`: any entry the pid already
    /// has is replaced, and every other pid's entry is left untouched.
    pub fn insert(&mut self, pid: u32, process_name: &str, ancestry: ProcessAncestry)
        requires
            old(self).wf(),
        ensures
            final(self).wf(),
            final(self).ttl_ms == old(self).ttl_ms,
            final(self).created_ms == old(self).created_ms,
            cache_hit(final(self).entries@, pid, process_name@),
            cache_value(final(self).entries@, pid) == ancestry,
            final(self).entries@ == (match cache_find(old(self).entries@, pid) {
                Some(j) => old(self).entries@.remove(j),
                None => old(self).entries@,
            }).push(final(self).entries@.last()),
            final(self).entries@.last().pid == pid,
            final(self).entries@.last().name@ == process_name@,
            final(self).entries@.last().ancestry == ancestry,
            forall|q: u32| q != pid ==> cache_entry_same(
                old(self).entries@,
                final(self).entries@,
                q,
            ),
    {
        let ghost orig = self.entries@;
        match find_index(&self.entries, pid) {
            Some(i) => {
                proof {
                    lemma_cache_find_props(self.entries@, pid);
                    lemma_cache_remove(self.entries@, i as int);
                    assert forall|q: u32| q != pid implies cache_entry_same(
                        orig,
                        orig.remove(i as int),
                        q,
                    ) by {
                        lemma_cache_find_remove_other(orig, i as int, q);
                    }
                }
                self.entries.remove(i);
            },
            None => {
                proof {
                    lemma_cache_find_props(self.entries@, pid);
                }
            },
        }
        let ghost cleaned = self.entries@;
        let name = String::from_str(process_name);
        let entry = CacheEntry { pid, name, ancestry };
        proof {
            lemma_cache_push(cleaned, entry);
            assert forall|q: u32| q != pid implies cache_entry_same(
                orig,
                cleaned.push(entry),
                q,
            ) by {
                lemma_cache_find_push_other(cleaned, entry, q);
                if q != pid {
                    lemma_cache_entry_same_trans(orig, cleaned, cleaned.push(entry), q);
                }
            }
        }
        self.entries.push(entry);
    }
}

// ── Cache laws ──────────────────────────────────────────────────────────────

/// After a miss stored a freshly built ancestry, a lookup for the same pid
/// under the same name hits and yields exactly the stored value: within the
/// TTL, the second call returns the identical cached ancestry and leaves the
/// entries untouched.
pub proof fn lemma_cached_get_stable(entries: Seq<CacheEntry>, e: CacheEntry)
    requires
        cache_pids_distinct(entries),
        cache_find(entries, e.pid) is None,
    ensures
        cache_find(entries.push(e), e.pid) == Some(entries.len() as int),
        cache_hit(entries.push(e), e.pid, e.name@),
        cache_value(entries.push(e), e.pid) == e.ancestry,
{
    lemma_cache_find_props(entries, e.pid);
    let pushed = entries.push(e);
    assert forall|k: int| 0 <= k < entries.len() implies pushed[k].pid != e.pid by {
        assert(pushed[k] == entries[k]);
    }
    lemma_cache_find_is(pushed, e.pid, entries.len() as int);
}

/// A name change never serves the stale entry: the lookup misses, and after
/// the eviction the pid has no entry at all, so the next step is a fresh
/// reconstruction.
pub proof fn lemma_name_change_evicts(entries: Seq<CacheEntry>, pid: u32, name: Seq<char>)
    requires
        cache_pids_distinct(entries),
        cache_find(entries, pid) matches Some(j) && entries[j].name@ != name,
    ensures
        !cache_hit(entries, pid, name),
        cache_find(entries.remove(cache_find(entries, pid)->Some_0), pid) is None,
{
    let j = cache_find(entries, pid)->Some_0;
    lemma_cache_find_props(entries, pid);
    let cleaned = entries.remove(j);
    entries.remove_ensures(j);
    assert forall|k: int| 0 <= k < cleaned.len() implies cleaned[k].pid != pid by {
        if k < j {
            assert(cleaned[k] == entries[k]);
        } else {
            assert(cleaned[k] == entries[k + 1]);
        }
    }
    lemma_cache_find_none(cleaned, pid);
}

// ── The cached entry points ─────────────────────────────────────────────────

/// Auxiliary per-process inputs read alongside the process table: cgroup
/// text, executable link target, state code, repository context, and
/// init-system label.
#[derive(Debug, Clone)]
pub struct AncestryInputs {
    pub cgroup: Option<String>,
    pub exe_target: Option<String>,
    pub state: Option<char>,
    pub git_context: Option<GitContext>,
    pub launchd_label: Option<String>,
}

pub open spec fn opt_string_view(o: Option<String>) -> Option<Seq<char>> {
    match o {
        Some(s) => Some(s@),
        None => None,
    }
}

/// Ancestry for one pid, through the cache: a fresh hit under an unchanged
/// name is served as stored; otherwise the ancestry is rebuilt from the
/// snapshot and the auxiliary inputs, stored under the name captured now,
/// and returned — or nothing, when the pid has no record in the snapshot.
/// The cache changes only as the lookup rules say: at most a whole-cache
/// expiry, the eviction of this pid's stale entry, and the insertion of the
/// fresh one; every other pid's entry stays as it was.
pub fn get_ancestry(
    cache: &mut AncestryCache,
    pid: u32,
    process_name: &str,
    now_ms: u64,
    table: &crate::procs::ProcessTable,
    aux: &AncestryInputs,
) -> (r: Option<ProcessAncestry>)
    requires
        old(cache).wf(),
    ensures
        final(cache).wf(),
        final(cache).ttl_ms == old(cache).ttl_ms,
        final(cache).created_ms == if old(cache).expired(now_ms) {
            now_ms
        } else {
            old(cache).created_ms
        },
        forall|q: u32| q != pid ==> cache_entry_same(
            old(cache).base_entries(now_ms),
            final(cache).entries@,
            q,
        ),
        cache_hit(old(cache).base_entries(now_ms), pid, process_name@) ==> (r matches Some(x)
            && ancestry_eq(x, cache_value(old(cache).base_entries(now_ms), pid)))
            && final(cache).entries@ == old(cache).base_entries(now_ms),
        !cache_hit(old(cache).base_entries(now_ms), pid, process_name@) ==> {
            let cleaned = match cache_find(old(cache).base_entries(now_ms), pid) {
                Some(j) => old(cache).base_entries(now_ms).remove(j),
                None => old(cache).base_entries(now_ms),
            };
            &&& (r is None <==> crate::procs::find_rec(table.entries@, pid) is None)
            &&& (r is None ==> final(cache).entries@ == cleaned)
            &&& (r matches Some(x) ==> built_ancestry_ok(
                table.entries@,
                pid,
                opt_string_view(aux.cgroup),
                opt_string_view(aux.exe_target),
                aux.state,
                aux.git_context,
                aux.launchd_label,
                x,
            ) && final(cache).entries@ == cleaned.push(final(cache).entries@.last())
                && final(cache).entries@.last().pid == pid
                && final(cache).entries@.last().name@ == process_name@
                && built_ancestry_ok(
                table.entries@,
                pid,
                opt_string_view(aux.cgroup),
                opt_string_view(aux.exe_target),
                aux.state,
                aux.git_context,
                aux.launchd_label,
                final(cache).entries@.last().ancestry,
            ) && ancestry_eq(x, final(cache).entries@.last().ancestry))
        },
{
    let ghost base = old(cache).base_entries(now_ms);
    if let Some(hit) = cache.get(pid, process_name, now_ms) {
        return Some(hit);
    }
    let ghost cleaned = cache.entries@;
    proof {
        // After the miss, the pid has no entry left at all.
        lemma_cache_find_props(base, pid);
        match cache_find(base, pid) {
            Some(j) => {
                lemma_cache_remove(base, j);
            },
            None => {},
        }
        lemma_cache_find_none(cleaned, pid);
    }
    let built = build_ancestry(
        table,
        pid,
        match &aux.cgroup {
            Some(s) => Some(s.as_str()),
            None => None,
        },
        match &aux.exe_target {
            Some(s) => Some(s.as_str()),
            None => None,
        },
        aux.state,
        clone_opt_git(&aux.git_context),
        clone_opt_string(&aux.launchd_label),
    );
    match built {
        Some(a) => {
            let ret = clone_process_ancestry(&a);
            proof {
                assert(built_ancestry_ok(
                    table.entries@,
                    pid,
                    opt_string_view(aux.cgroup),
                    opt_string_view(aux.exe_target),
                    aux.state,
                    aux.git_context,
                    aux.launchd_label,
                    ret,
                ));
            }
            cache.insert(pid, process_name, a);
            proof {
                assert forall|q: u32| q != pid implies cache_entry_same(
                    base,
                    cache.entries@,
                    q,
                ) by {
                    lemma_cache_entry_same_trans(base, cleaned, cache.entries@, q);
                }
            }
            Some(ret)
        },
        None => None,
    }
}

/// `p` has an entry in a batch result.
pub open spec fn pid_has_result(rs: Seq<(u32, ProcessAncestry)>, p: u32) -> bool {
    exists|k: int| 0 <= k < rs.len() && (#[trigger] rs[k]).0 == p
}

/// The entry is one the cache already held, unchanged.
pub open spec fn entry_from(base: Seq<CacheEntry>, e: CacheEntry) -> bool {
    match cache_find(base, e.pid) {
        Some(i) => base[i] == e,
        None => false,
    }
}

/// The ancestry was built for row `m` of a batch: from the shared snapshot
/// and that row's auxiliary inputs.
pub open spec fn built_for_row(
    table_entries: Seq<crate::procs::ProcRecord>,
    pids: Seq<(u32, String)>,
    auxes: Seq<AncestryInputs>,
    m: int,
    a: ProcessAncestry,
) -> bool {
    built_ancestry_ok(
        table_entries,
        pids[m].0,
        opt_string_view(auxes[m].cgroup),
        opt_string_view(auxes[m].exe_target),
        auxes[m].state,
        auxes[m].git_context,
        auxes[m].launchd_label,
        a,
    )
}

/// The cache entry was stored by one of the first `upto` rows of a batch:
/// keyed by that row's pid, under that row's name, holding an ancestry
/// built from the snapshot and that row's inputs.
pub open spec fn entry_built_for(
    table_entries: Seq<crate::procs::ProcRecord>,
    pids: Seq<(u32, String)>,
    auxes: Seq<AncestryInputs>,
    upto: int,
    e: CacheEntry,
) -> bool {
    exists|m: int|
        #![trigger pids[m], auxes[m]]
        0 <= m < upto && pids[m].0 == e.pid && e.name@ == pids[m].1@ && built_for_row(
            table_entries,
            pids,
            auxes,
            m,
            e.ancestry,
        )
}

/// What a batch result entry may hold: for some query row with its pid,
/// either the ancestry built from the snapshot and that row's inputs, or
/// the value the cache already held for the pid under that row's name.
pub open spec fn batch_entry_ok(
    table_entries: Seq<crate::procs::ProcRecord>,
    pids: Seq<(u32, String)>,
    auxes: Seq<AncestryInputs>,
    base: Seq<CacheEntry>,
    rk: (u32, ProcessAncestry),
) -> bool {
    exists|m: int|
        #![trigger pids[m], auxes[m]]
        0 <= m < pids.len() && pids[m].0 == rk.0 && (built_for_row(
            table_entries,
            pids,
            auxes,
            m,
            rk.1,
        ) || (cache_hit(base, rk.0, pids[m].1@) && ancestry_eq(rk.1, cache_value(base, rk.0))))
}

/// An ancestry with the same observable content is built-valid for the same
/// inputs.
proof fn lemma_built_ok_eq(
    table_entries: Seq<crate::procs::ProcRecord>,
    pid: u32,
    cgroup: Option<Seq<char>>,
    exe_target: Option<Seq<char>>,
    state: Option<char>,
    git_context: Option<GitContext>,
    launchd_label: Option<String>,
    a: ProcessAncestry,
    b: ProcessAncestry,
)
    requires
        built_ancestry_ok(table_entries, pid, cgroup, exe_target, state, git_context, launchd_label, a),
        ancestry_eq(b, a),
    ensures
        built_ancestry_ok(table_entries, pid, cgroup, exe_target, state, git_context, launchd_label, b),
{
}

/// Ancestry for a batch of pids against one shared snapshot, so every pid in
/// the batch observes the same process-table view. Each queried pid whose
/// record stands in the snapshot appears in the result; every result entry
/// carries, for one of the query rows with its pid, either the ancestry
/// built from the snapshot and that row's inputs or the value the cache
/// already held under that row's name; pids for which no ancestry could be
/// built are left out.
pub fn get_ancestry_batch(
    cache: &mut AncestryCache,
    pids_with_names: &Vec<(u32, String)>,
    now_ms: u64,
    table: &crate::procs::ProcessTable,
    auxes: &Vec<AncestryInputs>,
) -> (r: Vec<(u32, ProcessAncestry)>)
    requires
        old(cache).wf(),
        pids_with_names@.len() == auxes@.len(),
    ensures
        final(cache).wf(),
        r@.len() <= pids_with_names@.len(),
        forall|m: int|
            0 <= m < pids_with_names@.len() && crate::procs::find_rec(
                table.entries@,
                (#[trigger] pids_with_names@[m]).0,
            ) is Some ==> pid_has_result(r@, pids_with_names@[m].0),
        forall|k: int|
            0 <= k < r@.len() ==> batch_entry_ok(
                table.entries@,
                pids_with_names@,
                auxes@,
                old(cache).base_entries(now_ms),
                #[trigger] r@[k],
            ),
{
    let ghost base0 = old(cache).base_entries(now_ms);
    let ghost te = table.entries@;
    proof {
        if !old(cache).expired(now_ms) {
            assert(base0 == old(cache).entries@);
        }
    }
    let mut r: Vec<(u32, ProcessAncestry)> = Vec::new();
    let n = pids_with_names.len();
    let mut i: usize = 0;
    while i < n
        invariant
            i <= n,
            n == pids_with_names@.len(),
            auxes@.len() == n,
            te == table.entries@,
            cache.wf(),
            r@.len() <= i,
            base0 == old(cache).base_entries(now_ms),
            cache_pids_distinct(base0),
            i == 0 ==> cache.entries@ == old(cache).entries@ && cache.created_ms == old(
                cache,
            ).created_ms && cache.ttl_ms == old(cache).ttl_ms,
            i > 0 ==> !cache.expired(now_ms),
            i > 0 ==> forall|q: u32|
                #![trigger cache_find(cache.entries@, q)]
                match cache_find(cache.entries@, q) {
                    Some(j) => entry_from(base0, cache.entries@[j]) || entry_built_for(
                        te,
                        pids_with_names@,
                        auxes@,
                        i as int,
                        cache.entries@[j],
                    ),
                    None => true,
                },
            forall|m: int|
                0 <= m < i && crate::procs::find_rec(
                    te,
                    (#[trigger] pids_with_names@[m]).0,
                ) is Some ==> pid_has_result(r@, pids_with_names@[m].0),
            forall|k: int|
                0 <= k < r@.len() ==> batch_entry_ok(
                    te,
                    pids_with_names@,
                    auxes@,
                    base0,
                    #[trigger] r@[k],
                ),
        decreases n - i,
    {
        let (pid, name) = (pids_with_names[i].0, pids_with_names[i].1.clone());
        let ghost pre = *cache;
        let ghost pre_base = pre.base_entries(now_ms);
        proof {
            if i == 0 {
                assert(pre_base =~= base0);
            } else {
                assert(pre_base =~= cache.entries@);
            }
        }
        let ghost old_r = r@;
        let got = get_ancestry(cache, pid, name.as_str(), now_ms, table, &auxes[i]);
        proof {
            // The clock bookkeeping keeps the cache unexpired from here on.
            assert(!cache.expired(now_ms));
            // Per-index provenance of the pre-call entries.
            assert forall|k: int|
                #![trigger pre_base[k]]
                0 <= k < pre_base.len() implies entry_from(base0, pre_base[k]) || entry_built_for(
                te,
                pids_with_names@,
                auxes@,
                i as int,
                pre_base[k],
            ) by {
                if i == 0 {
                    assert(pre_base == base0);
                    lemma_entries_self_found(base0, k);
                } else {
                    assert(pre_base == pre.entries@);
                    lemma_entries_self_found(pre.entries@, k);
                    assert(cache_find(pre.entries@, pre_base[k].pid) == Some(k));
                }
            }
            // Re-establish the provenance of every cached entry.
            assert forall|q: u32|
                #![trigger cache_find(cache.entries@, q)]
                match cache_find(cache.entries@, q) {
                    Some(j) => entry_from(base0, cache.entries@[j]) || entry_built_for(
                        te,
                        pids_with_names@,
                        auxes@,
                        i + 1,
                        cache.entries@[j],
                    ),
                    None => true,
                } by {
                let cur = cache.entries@;
                match cache_find(cur, q) {
                    Some(j) => {
                        lemma_cache_find_props(cur, q);
                        if cache_hit(pre_base, pid, name@) {
                            assert(cur == pre_base);
                            lemma_entry_carries(
                                base0,
                                te,
                                pids_with_names@,
                                auxes@,
                                i as int,
                                pre_base,
                                j,
                            );
                        } else {
                            lemma_cache_find_props(pre_base, pid);
                            let cleaned = match cache_find(pre_base, pid) {
                                Some(j0) => pre_base.remove(j0),
                                None => pre_base,
                            };
                            if cache_find(pre_base, pid) is Some {
                                assert(cleaned == pre_base.remove(
                                    cache_find(pre_base, pid)->Some_0,
                                ));
                            }
                            if got is Some {
                                assert(cur == cleaned.push(cur.last()));
                                if j < cur.len() - 1 {
                                    assert(cur[j] == cleaned[j]);
                                    lemma_cleaned_index(
                                        base0,
                                        te,
                                        pids_with_names@,
                                        auxes@,
                                        i as int,
                                        pre_base,
                                        cleaned,
                                        j,
                                    );
                                } else {
                                    // The freshly inserted entry.
                                    assert(cur[j].pid == pid && cur[j].name@ == name@);
                                    assert(pids_with_names@[i as int].0 == pid);
                                    assert(built_for_row(
                                        te,
                                        pids_with_names@,
                                        auxes@,
                                        i as int,
                                        cur[j].ancestry,
                                    ));
                                    assert(entry_built_for(
                                        te,
                                        pids_with_names@,
                                        auxes@,
                                        i + 1,
                                        cur[j],
                                    ));
                                }
                            } else {
                                assert(cur == cleaned);
                                lemma_cleaned_index(
                                    base0,
                                    te,
                                    pids_with_names@,
                                    auxes@,
                                    i as int,
                                    pre_base,
                                    cleaned,
                                    j,
                                );
                            }
                        }
                    },
                    None => {},
                }
            }
        }
        if let Some(a) = got {
            proof {
                // The returned value is built for this row, or served from
                // an entry whose provenance the invariant carries.
                if cache_hit(pre_base, pid, name@) {
                    lemma_cache_find_props(pre_base, pid);
                    let j = cache_find(pre_base, pid)->Some_0;
                    let e = pre_base[j];
                    assert(ancestry_eq(a, e.ancestry));
                    assert(e.name@ == name@);
                    assert(entry_from(base0, e) || entry_built_for(
                        te,
                        pids_with_names@,
                        auxes@,
                        i as int,
                        e,
                    )) by {
                        if i == 0 {
                            assert(pre_base == base0);
                            lemma_entries_self_found(base0, j);
                        } else {
                            assert(pre_base == pre.entries@);
                            lemma_entries_self_found(pre.entries@, j);
                        }
                    }
                    if entry_from(base0, e) {
                        lemma_cache_find_props(base0, pid);
                        assert(cache_hit(base0, pid, pids_with_names@[i as int].1@));
                        assert(ancestry_eq(a, cache_value(base0, pid)));
                        assert(batch_entry_ok(te, pids_with_names@, auxes@, base0, (pid, a)));
                    } else {
                        let m = choose|m: int|
                            #![trigger pids_with_names@[m], auxes@[m]]
                            0 <= m < i && pids_with_names@[m].0 == e.pid && e.name@
                                == pids_with_names@[m].1@ && built_for_row(
                                te,
                                pids_with_names@,
                                auxes@,
                                m,
                                e.ancestry,
                            );
                        lemma_built_ok_eq(
                            te,
                            pid,
                            opt_string_view(auxes@[m].cgroup),
                            opt_string_view(auxes@[m].exe_target),
                            auxes@[m].state,
                            auxes@[m].git_context,
                            auxes@[m].launchd_label,
                            e.ancestry,
                            a,
                        );
                        assert(built_for_row(te, pids_with_names@, auxes@, m, a));
                        assert(batch_entry_ok(te, pids_with_names@, auxes@, base0, (pid, a)));
                    }
                } else {
                    assert(built_for_row(te, pids_with_names@, auxes@, i as int, a));
                    assert(batch_entry_ok(te, pids_with_names@, auxes@, base0, (pid, a)));
                }
            }
            r.push((pid, a));
            proof {
                assert forall|k: int| 0 <= k < r@.len() implies batch_entry_ok(
                    te,
                    pids_with_names@,
                    auxes@,
                    base0,
                    #[trigger] r@[k],
                ) by {
                    if k < r@.len() - 1 {
                        assert(r@[k] == old_r[k]);
                    }
                }
            }
        } else {
            proof {
                // Nothing was returned: the pid has no record in the snapshot.
                assert(!cache_hit(pre_base, pid, name@));
                assert(crate::procs::find_rec(te, pid) is None);
            }
        }
        proof {
            assert forall|m: int|
                0 <= m < i + 1 && crate::procs::find_rec(
                    te,
                    (#[trigger] pids_with_names@[m]).0,
                ) is Some implies pid_has_result(r@, pids_with_names@[m].0) by {
                if m < i {
                    let k0 = choose|k0: int|
                        0 <= k0 < old_r.len() && (#[trigger] old_r[k0]).0
                            == pids_with_names@[m].0;
                    assert(r@[k0] == old_r[k0]);
                } else {
                    assert(r@[r@.len() - 1].0 == pids_with_names@[m].0);
                }
            }
        }
        i += 1;
    }
    r
}

/// An entry of a well-formed list that the batch invariant covers keeps its
/// provenance, with the bound widened by one.
proof fn lemma_entry_carries(
    base0: Seq<CacheEntry>,
    te: Seq<crate::procs::ProcRecord>,
    pids: Seq<(u32, String)>,
    auxes: Seq<AncestryInputs>,
    i: int,
    cur: Seq<CacheEntry>,
    j: int,
)
    requires
        0 <= j < cur.len(),
        entry_from(base0, cur[j]) || entry_built_for(te, pids, auxes, i, cur[j]),
        i >= 0,
    ensures
        entry_from(base0, cur[j]) || entry_built_for(te, pids, auxes, i + 1, cur[j]),
{
}

/// Every entry of the post-eviction list is an entry of the pre-call list,
/// so its provenance carries over.
proof fn lemma_cleaned_index(
    base0: Seq<CacheEntry>,
    te: Seq<crate::procs::ProcRecord>,
    pids: Seq<(u32, String)>,
    auxes: Seq<AncestryInputs>,
    i: int,
    pre: Seq<CacheEntry>,
    cleaned: Seq<CacheEntry>,
    j: int,
)
    requires
        0 <= j < cleaned.len(),
        cleaned == pre || exists|j0: int| 0 <= j0 < pre.len() && cleaned == pre.remove(j0),
        forall|k: int|
            #![trigger pre[k]]
            0 <= k < pre.len() ==> entry_from(base0, pre[k]) || entry_built_for(
                te,
                pids,
                auxes,
                i,
                pre[k],
            ),
        i >= 0,
    ensures
        entry_from(base0, cleaned[j]) || entry_built_for(te, pids, auxes, i + 1, cleaned[j]),
{
    if cleaned == pre {
        assert(cleaned[j] == pre[j]);
    } else {
        let j0 = choose|j0: int| 0 <= j0 < pre.len() && cleaned == pre.remove(j0);
        pre.remove_ensures(j0);
        if j < j0 {
            assert(cleaned[j] == pre[j]);
        } else {
            assert(cleaned[j] == pre[j + 1]);
        }
    }
}

} // verus!
