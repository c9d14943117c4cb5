//! The process registry: a snapshot table of (pid, name, parent pid)
//! records, lookup into it, and the cycle-guarded walk up the parent chain.

use vstd::prelude::*;

use crate::ancestry::Ancestor;
use crate::scan::{
    after_last, after_last_str, find_char, join_sp, lines_vec, rfind_char, split_lines, split_ws,
    split_whitespace, trim, trim_spec,
};
use crate::strutil::{dec_val, str_contains, strip_plus, valid_dec};

verus! {

/// One process in a snapshot of the process table.
#[derive(Debug, Clone)]
pub struct ProcRecord {
    pub pid: u32,
    pub name: String,
    pub ppid: u32,
}

/// A snapshot of the process table, as one enumeration pass produced it.
#[derive(Debug, Clone)]
pub struct ProcessTable {
    pub entries: Vec<ProcRecord>,
}

/// Index of the first record for `pid`.
pub open spec fn find_rec(entries: Seq<ProcRecord>, pid: u32) -> Option<int>
    decreases entries.len(),
{
    if entries.len() == 0 {
        None
    } else if entries[0].pid == pid {
        Some(0)
    } else {
        match find_rec(entries.drop_first(), pid) {
            Some(j) => Some(j + 1),
            None => None,
        }
    }
}

pub proof fn lemma_find_rec_props(entries: Seq<ProcRecord>, pid: u32)
    ensures
        match find_rec(entries, pid) {
            Some(j) => 0 <= j < entries.len() && entries[j].pid == pid && forall|k: int|
                0 <= k < j ==> entries[k].pid != pid,
            None => forall|k: int| 0 <= k < entries.len() ==> entries[k].pid != pid,
        },
    decreases entries.len(),
{
    if entries.len() > 0 && entries[0].pid != pid {
        let d = entries.drop_first();
        lemma_find_rec_props(d, pid);
        match find_rec(d, pid) {
            Some(j) => {
                assert forall|k: int| 0 <= k < j + 1 implies entries[k].pid != pid by {
                    if k > 0 {
                        assert(d[k - 1] == entries[k]);
                    }
                }
            },
            None => {
                assert forall|k: int| 0 <= k < entries.len() implies entries[k].pid != pid by {
                    if k > 0 {
                        assert(d[k - 1] == entries[k]);
                    }
                }
            },
        }
    }
}

pub proof fn lemma_find_rec_is(entries: Seq<ProcRecord>, pid: u32, j: int)
    requires
        0 <= j < entries.len(),
        entries[j].pid == pid,
        forall|k: int| 0 <= k < j ==> entries[k].pid != pid,
    ensures
        find_rec(entries, pid) == Some(j),
    decreases entries.len(),
{
    if j > 0 {
        lemma_find_rec_is(entries.drop_first(), pid, j - 1);
    }
}

pub proof fn lemma_find_rec_none(entries: Seq<ProcRecord>, pid: u32)
    requires
        forall|k: int| 0 <= k < entries.len() ==> entries[k].pid != pid,
    ensures
        find_rec(entries, pid) is None,
    decreases entries.len(),
{
    if entries.len() > 0 {
        lemma_find_rec_none(entries.drop_first(), pid);
    }
}

/// What looking a pid up in a table yields: the name and parent id of its
/// first record.
pub open spec fn resolve_spec(entries: Seq<ProcRecord>, pid: u32) -> Option<(String, u32)> {
    match find_rec(entries, pid) {
        Some(j) => Some((entries[j].name, entries[j].ppid)),
        None => None,
    }
}

impl ProcessTable {
    /// An empty snapshot.
    pub fn new() -> (r: ProcessTable)
        ensures
            r.entries@.len() == 0,
    {
        ProcessTable { entries: Vec::new() }
    }

    /// Record one process.
    pub fn push(&mut self, pid: u32, name: String, ppid: u32)
        ensures
            final(self).entries@ == old(self).entries@.push(ProcRecord { pid, name, ppid }),
    {
        self.entries.push(ProcRecord { pid, name, ppid });
    }

    /// Resolve a pid to the name and parent id of its first record.
    pub fn resolve(&self, pid: u32) -> (r: Option<(String, u32)>)
        ensures
            r == resolve_spec(self.entries@, pid),
    {
        let n = self.entries.len();
        let mut i: usize = 0;
        while i < n
            invariant
                i <= n,
                n == self.entries@.len(),
                forall|k: int| 0 <= k < i ==> self.entries@[k].pid != pid,
            decreases n - i,
        {
            if self.entries[i].pid == pid {
                proof {
                    lemma_find_rec_is(self.entries@, pid, i as int);
                }
                let rec = &self.entries[i];
                return Some((rec.name.clone(), rec.ppid));
            }
            i += 1;
        }
        proof {
            lemma_find_rec_none(self.entries@, pid);
        }
        None
    }
}

// ── The ancestry walk ───────────────────────────────────────────────────────

/// No pid appears twice in the chain: the cycle guard's promise.
pub open spec fn chain_pids_distinct(chain: Seq<Ancestor>) -> bool {
    forall|i: int, j: int| 0 <= i < j < chain.len() ==> chain[i].pid != chain[j].pid
}

/// Every hop's pid is the previous hop's parent id.
pub open spec fn chain_linked(chain: Seq<Ancestor>) -> bool {
    forall|i: int| 0 <= i < chain.len() - 1 ==> chain[i + 1].pid == (#[trigger] chain[i]).ppid
}

/// An ancestor carries the name and parent id of its pid's first record.
pub open spec fn resolves_to(entries: Seq<ProcRecord>, a: Ancestor) -> bool {
    match find_rec(entries, a.pid) {
        Some(j) => a.name == entries[j].name && a.ppid == entries[j].ppid,
        None => false,
    }
}

/// The walk stopped for one of its three reasons: the sentinel parent, the
/// root pid, a parent that cannot be resolved, or a parent already visited.
pub open spec fn chain_stop_ok(entries: Seq<ProcRecord>, chain: Seq<Ancestor>) -> bool {
    chain.len() > 0 ==> {
        let last = chain.last();
        ||| last.ppid == 0
        ||| last.pid == 1
        ||| find_rec(entries, last.ppid) is None
        ||| exists|j: int| 0 <= j < chain.len() && (#[trigger] chain[j]).pid == last.ppid
    }
}

/// No hop before the last one met a stop condition.
pub open spec fn chain_no_early_stop(chain: Seq<Ancestor>) -> bool {
    forall|i: int|
        0 <= i < chain.len() - 1 ==> (#[trigger] chain[i]).ppid != 0 && chain[i].pid != 1
}

/// Everything the walk promises of its result.
pub open spec fn valid_walk(entries: Seq<ProcRecord>, pid: u32, chain: Seq<Ancestor>) -> bool {
    &&& chain.len() <= entries.len()
    &&& chain_pids_distinct(chain)
    &&& chain_linked(chain)
    &&& forall|i: int| 0 <= i < chain.len() ==> resolves_to(entries, #[trigger] chain[i])
    &&& (chain.len() > 0 ==> chain[0].pid == pid)
    &&& (chain.len() == 0 <==> find_rec(entries, pid) is None)
    &&& chain_stop_ok(entries, chain)
    &&& chain_no_early_stop(chain)
}

/// Distinct pids that all have a record give a chain no longer than the
/// table.
/// Some record carries this pid.
spec fn has_pid_record(entries: Seq<ProcRecord>, p: u32) -> bool {
    exists|k: int| 0 <= k < entries.len() && (#[trigger] entries[k]).pid == p
}

proof fn lemma_chain_len_bound(chain: Seq<Ancestor>, entries: Seq<ProcRecord>)
    requires
        chain_pids_distinct(chain),
        forall|i: int| 0 <= i < chain.len() ==> has_pid_record(entries, (#[trigger] chain[i]).pid),
    ensures
        chain.len() <= entries.len(),
    decreases chain.len(),
{
    if chain.len() > 0 {
        let li = chain.len() - 1;
        let a = chain[li];
        assert(has_pid_record(entries, a.pid));
        let k0 = choose|k: int| 0 <= k < entries.len() && (#[trigger] entries[k]).pid == a.pid;
        let entries2 = entries.remove(k0);
        entries.remove_ensures(k0);
        let rest = chain.drop_last();
        assert forall|i: int| 0 <= i < rest.len() implies has_pid_record(
            entries2,
            (#[trigger] rest[i]).pid,
        ) by {
            assert(rest[i] == chain[i]);
            assert(has_pid_record(entries, chain[i].pid));
            let k1 = choose|k: int|
                0 <= k < entries.len() && (#[trigger] entries[k]).pid == chain[i].pid;
            assert(chain[i].pid != chain[li].pid);
            assert(k1 != k0);
            if k1 < k0 {
                assert(entries2[k1] == entries[k1]);
                assert(0 <= k1 < entries2.len() && entries2[k1].pid == rest[i].pid);
            } else {
                assert(entries2[k1 - 1] == entries[k1]);
                assert(0 <= k1 - 1 < entries2.len() && entries2[k1 - 1].pid == rest[i].pid);
            }
        }
        assert(chain_pids_distinct(rest)) by {
            assert forall|i: int, j: int| 0 <= i < j < rest.len() implies rest[i].pid
                != rest[j].pid by {
                assert(rest[i] == chain[i]);
                assert(rest[j] == chain[j]);
            }
        }
        lemma_chain_len_bound(rest, entries2);
    }
}

/// Whether some hop already carries this pid.
fn chain_has_pid(chain: &Vec<Ancestor>, pid: u32) -> (r: bool)
    ensures
        r == exists|j: int| 0 <= j < chain@.len() && (#[trigger] chain@[j]).pid == pid,
{
    let n = chain.len();
    let mut i: usize = 0;
    while i < n
        invariant
            i <= n,
            n == chain@.len(),
            forall|k: int| 0 <= k < i ==> (#[trigger] chain@[k]).pid != pid,
        decreases n - i,
    {
        if chain[i].pid == pid {
            return true;
        }
        i += 1;
    }
    false
}

/// Walk the parent chain from `pid` up toward the root, resolving each hop
/// in the snapshot table. The walk stops at the sentinel parent id 0, at the
/// root pid 1, at a pid with no record, or — the cycle guard — at a parent
/// already visited, and returns the chain built so far; the chain is empty
/// exactly when the very first resolution fails.
pub fn walk_ppid_chain(table: &ProcessTable, pid: u32) -> (chain: Vec<Ancestor>)
    ensures
        valid_walk(table.entries@, pid, chain@),
{
    let ghost entries = table.entries@;
    let mut chain: Vec<Ancestor> = Vec::new();
    let mut current: u32 = pid;
    proof {
        lemma_find_rec_props(entries, pid);
    }
    loop
        invariant
            chain@.len() <= entries.len(),
            entries == table.entries@,
            chain_pids_distinct(chain@),
            chain_linked(chain@),
            forall|i: int| 0 <= i < chain@.len() ==> resolves_to(entries, #[trigger] chain@[i]),
            chain@.len() > 0 ==> chain@[0].pid == pid,
            chain@.len() == 0 ==> current == pid,
            chain@.len() > 0 ==> current == chain@.last().ppid,
            chain@.len() > 0 ==> chain@.last().ppid != 0 && chain@.last().pid != 1,
            chain_no_early_stop(chain@),
        decreases entries.len() - chain@.len(),
    {
        if chain_has_pid(&chain, current) {
            // Cycle guard: this pid was already visited.
            proof {
                lemma_find_rec_props(entries, pid);
            }
            return chain;
        }
        let resolved = table.resolve(current);
        match resolved {
            None => {
                proof {
                    lemma_find_rec_props(entries, pid);
                    if chain@.len() == 0 {
                        assert(find_rec(entries, pid) is None);
                    }
                }
                return chain;
            },
            Some((name, ppid)) => {
                let ghost old_chain = chain@;
                chain.push(Ancestor { pid: current, name, ppid });
                proof {
                    lemma_find_rec_props(entries, current);
                    assert(resolves_to(entries, chain@.last()));
                    assert forall|i: int| 0 <= i < chain@.len() implies resolves_to(
                        entries,
                        #[trigger] chain@[i],
                    ) by {
                        if i < old_chain.len() {
                            assert(chain@[i] == old_chain[i]);
                        }
                    }
                    assert forall|i: int| 0 <= i < chain@.len() implies has_pid_record(
                        entries,
                        (#[trigger] chain@[i]).pid,
                    ) by {
                        assert(resolves_to(entries, chain@[i]));
                        lemma_find_rec_props(entries, chain@[i].pid);
                        let j = find_rec(entries, chain@[i].pid)->Some_0;
                        assert(0 <= j < entries.len() && entries[j].pid == chain@[i].pid);
                    }
                    lemma_chain_len_bound(chain@, entries);
                }
                if ppid == 0 || current == 1 {
                    return chain;
                }
                current = ppid;
            },
        }
    }
}

// ── Parsing per-process state text ──────────────────────────────────────────

/// Whether a state-file content parses: the command name sits between the
/// first `(` and the last `)` — it may itself hold spaces and parentheses —
/// and after the closing parenthesis and one separator come the state code
/// and the parent id.
pub open spec fn proc_stat_ok(s: Seq<char>) -> bool {
    &&& find_char(s, '(') is Some
    &&& rfind_char(s, ')') is Some
    &&& find_char(s, '(')->Some_0 < rfind_char(s, ')')->Some_0
    &&& rfind_char(s, ')')->Some_0 + 2 <= s.len()
    &&& split_ws(s.skip(rfind_char(s, ')')->Some_0 + 2)).len() >= 2
    &&& split_ws(s.skip(rfind_char(s, ')')->Some_0 + 2))[0].len() >= 1
    &&& valid_dec(split_ws(s.skip(rfind_char(s, ')')->Some_0 + 2))[1], u32::MAX as nat)
}

/// The command name a state file holds.
pub open spec fn proc_stat_name(s: Seq<char>) -> Seq<char>
    recommends
        proc_stat_ok(s),
{
    s.subrange(find_char(s, '(')->Some_0 + 1, rfind_char(s, ')')->Some_0)
}

/// The parent id a state file holds.
pub open spec fn proc_stat_ppid(s: Seq<char>) -> u32
    recommends
        proc_stat_ok(s),
{
    dec_val(strip_plus(split_ws(s.skip(rfind_char(s, ')')->Some_0 + 2))[1])) as u32
}

/// The single-character state code a state file holds.
pub open spec fn proc_stat_state(s: Seq<char>) -> char
    recommends
        proc_stat_ok(s),
{
    split_ws(s.skip(rfind_char(s, ')')->Some_0 + 2))[0][0]
}

/// Parse per-process state-file content into (command name, parent id,
/// state code). The name is taken between the first `(` and the last `)`,
/// so names holding spaces or parentheses come through whole.
pub fn parse_proc_stat(stat: &str) -> (r: Option<(String, u32, char)>)
    ensures
        r is Some <==> proc_stat_ok(stat@),
        r matches Some(t) ==> t.0@ == proc_stat_name(stat@) && t.1 == proc_stat_ppid(stat@)
            && t.2 == proc_stat_state(stat@),
{
    let i = match crate::scan::index_of_char(stat, '(') {
        Some(i) => i,
        None => { return None },
    };
    let j = match crate::scan::rindex_of_char(stat, ')') {
        Some(j) => j,
        None => { return None },
    };
    proof {
        crate::scan::lemma_find_char_props(stat@, '(');
        crate::scan::lemma_rfind_char_props(stat@, ')');
    }
    if i >= j {
        return None;
    }
    let n = stat.unicode_len();
    if n - j < 2 {
        return None;
    }
    let name_slice = stat.substring_char(i + 1, j);
    let name = String::from_str(name_slice);
    proof {
        assert(name@ =~= proc_stat_name(stat@));
    }
    let rest = stat.substring_char(j + 2, n);
    proof {
        assert(rest@ =~= stat@.skip(j + 2));
    }
    let fields = split_whitespace(rest);
    if fields.len() < 2 {
        return None;
    }
    proof {
        assert(fields.deep_view()[0] == fields@[0]@);
        assert(fields.deep_view()[1] == fields@[1]@);
    }
    let state_tok = &fields[0];
    if state_tok.as_str().unicode_len() == 0 {
        return None;
    }
    let state = state_tok.as_str().get_char(0);
    let ppid = match crate::strutil::parse_dec_u32(fields[1].as_str()) {
        Some(p) => p,
        None => { return None },
    };
    Some((name, ppid, state))
}

// ── Choosing a display name ─────────────────────────────────────────────────

/// Interpreters whose executable name says less than the command title the
/// process set for itself.
pub open spec fn is_interpreter(n: Seq<char>) -> bool {
    ||| n == "node"@
    ||| n == "python"@
    ||| n == "python3"@
    ||| n == "ruby"@
    ||| n == "perl"@
    ||| n == "php"@
    ||| n == "java"@
    ||| n == "bash"@
    ||| n == "sh"@
    ||| n == "zsh"@
}

fn is_interpreter_of(n: &str) -> (r: bool)
    ensures
        r == is_interpreter(n@),
{
    crate::strutil::eq_str(n, "node") || crate::strutil::eq_str(n, "python")
        || crate::strutil::eq_str(n, "python3") || crate::strutil::eq_str(n, "ruby")
        || crate::strutil::eq_str(n, "perl") || crate::strutil::eq_str(n, "php")
        || crate::strutil::eq_str(n, "java") || crate::strutil::eq_str(n, "bash")
        || crate::strutil::eq_str(n, "sh") || crate::strutil::eq_str(n, "zsh")
}

/// An executable file name that can stand as a display name: not empty, and
/// not a stale deleted-binary marker.
pub open spec fn usable_exe(exe: Option<Seq<char>>) -> Option<Seq<char>> {
    match exe {
        Some(n) => if str_contains(n, "(deleted)"@) || n.len() == 0 {
            None
        } else {
            Some(n)
        },
        None => None,
    }
}

/// The display name the registry chooses: the executable's file name, unless
/// the executable is a well-known interpreter — then the trimmed short
/// command name, which carries the title the process set for itself; with no
/// usable executable name, the trimmed short command name alone.
pub open spec fn chosen_name(exe: Option<Seq<char>>, comm_raw: Option<Seq<char>>) -> Option<
    Seq<char>,
> {
    let comm = match comm_raw {
        Some(c) => Some(trim_spec(c)),
        None => None,
    };
    match (usable_exe(exe), comm) {
        (Some(e), Some(c)) => if is_interpreter(e) {
            Some(c)
        } else {
            Some(e)
        },
        (Some(e), None) => Some(e),
        (None, Some(c)) => Some(c),
        (None, None) => None,
    }
}

/// Choose a process display name from the executable link's file name and
/// the raw short-command-name file content.
pub fn choose_process_name(exe_file_name: Option<&str>, comm_raw: Option<&str>) -> (r: Option<
    String,
>)
    ensures
        match r {
            Some(name) => chosen_name(
                crate::source::opt_str_view(exe_file_name),
                crate::source::opt_str_view(comm_raw),
            ) == Some(name@),
            None => chosen_name(
                crate::source::opt_str_view(exe_file_name),
                crate::source::opt_str_view(comm_raw),
            ) is None,
        },
{
    let exe = match exe_file_name {
        Some(e) => {
            if crate::strutil::contains_str(e, "(deleted)") || e.unicode_len() == 0 {
                None
            } else {
                Some(e)
            }
        },
        None => None,
    };
    let comm = match comm_raw {
        Some(c) => Some(trim(c)),
        None => None,
    };
    match (exe, comm) {
        (Some(e), Some(c)) => if is_interpreter_of(e) {
            Some(c)
        } else {
            Some(String::from_str(e))
        },
        (Some(e), None) => Some(String::from_str(e)),
        (None, Some(c)) => Some(c),
        (None, None) => None,
    }
}

// ── Socket descriptor links ─────────────────────────────────────────────────

/// Whether a descriptor link target is a socket reference, and the handle it
/// wraps: the well-known `socket:[N]` syntax around a decimal inode.
pub open spec fn socket_link_spec(v: Seq<char>) -> Option<u64> {
    if v.len() >= 9 && "socket:["@.is_prefix_of(v) && "]"@.is_suffix_of(v) && valid_dec(
        v.subrange(8, v.len() - 1),
        u64::MAX as nat,
    ) {
        Some(dec_val(strip_plus(v.subrange(8, v.len() - 1))) as u64)
    } else {
        None
    }
}

/// Read the socket inode out of a descriptor link target of the form
/// `socket:[N]`; anything else is no socket.
pub fn parse_socket_link(target: &str) -> (r: Option<u64>)
    ensures
        r == socket_link_spec(target@),
{
    proof {
        reveal_strlit("socket:[");
        reveal_strlit("]");
    }
    let n = target.unicode_len();
    if n < 9 {
        return None;
    }
    if !crate::strutil::starts_with_str(target, "socket:[") {
        return None;
    }
    if !crate::strutil::ends_with_str(target, "]") {
        return None;
    }
    let mid = target.substring_char(8, n - 1);
    proof {
        assert(mid@ =~= target@.subrange(8, target@.len() - 1));
    }
    crate::strutil::parse_dec_u64(mid)
}

// ── Parsing snapshot-tool output ────────────────────────────────────────────

/// What one snapshot-listing line yields: the first two whitespace fields
/// are pid and parent pid, everything after them — rejoined with single
/// spaces — is the command, of which the last path segment is the name.
pub open spec fn ps_line_spec(l: Seq<char>) -> Option<(u32, Seq<char>, u32)> {
    let toks = split_ws(l);
    if toks.len() < 3 {
        None
    } else {
        let comm = join_sp(toks.skip(2));
        if valid_dec(toks[0], u32::MAX as nat) && valid_dec(toks[1], u32::MAX as nat) {
            Some(
                (
                    dec_val(strip_plus(toks[0])) as u32,
                    after_last(comm, '/'),
                    dec_val(strip_plus(toks[1])) as u32,
                ),
            )
        } else {
            None
        }
    }
}

/// Parse one line of `pid ppid command` snapshot output.
pub fn parse_ps_line(line: &str) -> (r: Option<(u32, String, u32)>)
    ensures
        r is Some <==> ps_line_spec(line@) is Some,
        r matches Some(t) ==> ps_line_spec(line@) matches Some(sp) && t.0 == sp.0 && t.1@ == sp.1
            && t.2 == sp.2,
{
    let toks = split_whitespace(line);
    if toks.len() < 3 {
        return None;
    }
    proof {
        assert(toks.deep_view()[0] == toks@[0]@);
        assert(toks.deep_view()[1] == toks@[1]@);
    }
    let pid = match crate::strutil::parse_dec_u32(toks[0].as_str()) {
        Some(p) => p,
        None => { return None },
    };
    let ppid = match crate::strutil::parse_dec_u32(toks[1].as_str()) {
        Some(p) => p,
        None => { return None },
    };
    // Rebuild the command from the remaining fields.
    let mut rest: Vec<String> = Vec::new();
    let m = toks.len();
    let mut k: usize = 2;
    proof {
        assert(rest.deep_view() =~~= toks.deep_view().skip(2).take(0));
    }
    while k < m
        invariant
            2 <= k <= m,
            m == toks@.len(),
            m >= 3,
            rest.deep_view() == toks.deep_view().skip(2).take(k - 2),
        decreases m - k,
    {
        let ghost oldv = rest.deep_view();
        rest.push(toks[k].clone());
        proof {
            assert(toks.deep_view().skip(2)[k - 2] == toks.deep_view()[k as int]);
            assert(toks.deep_view()[k as int] == toks@[k as int]@);
            assert(rest.deep_view() =~~= oldv.push(toks@[k as int]@));
            assert(toks.deep_view().skip(2).take(k - 1) =~~= toks.deep_view().skip(2).take(
                k - 2,
            ).push(toks.deep_view().skip(2)[k - 2]));
            assert(rest.deep_view() =~~= toks.deep_view().skip(2).take(k - 1));
        }
        k += 1;
    }
    proof {
        assert(toks.deep_view().skip(2).take(m - 2) =~~= toks.deep_view().skip(2));
    }
    let comm = crate::scan::join_spaces(&rest);
    let name = after_last_str(comm.as_str(), '/');
    Some((pid, name, ppid))
}

/// The records a whole snapshot listing yields, line by line; lines that do
/// not parse are skipped.
pub open spec fn ps_table_spec(s: Seq<char>) -> Seq<(u32, Seq<char>, u32)> {
    split_lines(s).filter_map(|l: Seq<char>| ps_line_spec(l))
}

pub open spec fn rec_views(entries: Seq<ProcRecord>) -> Seq<(u32, Seq<char>, u32)> {
    entries.map_values(|e: ProcRecord| (e.pid, e.name@, e.ppid))
}

/// Parse a whole system snapshot listing into a process table.
pub fn parse_ps_table(output: &str) -> (r: ProcessTable)
    ensures
        rec_views(r.entries@) == ps_table_spec(output@),
{
    let f = Ghost(|l: Seq<char>| ps_line_spec(l));
    let lines = lines_vec(output);
    let ghost ls = split_lines(output@);
    let n = lines.len();
    let mut table = ProcessTable::new();
    let mut i: usize = 0;
    proof {
        assert(ls.take(0) =~= Seq::<Seq<char>>::empty());
        assert(rec_views(table.entries@) =~~= ls.take(0).filter_map(f@));
    }
    while i < n
        invariant
            i <= n,
            n == lines@.len(),
            lines.deep_view() == ls,
            ls == split_lines(output@),
            rec_views(table.entries@) == ls.take(i as int).filter_map(f@),
            f@ == (|l: Seq<char>| ps_line_spec(l)),
        decreases n - i,
    {
        proof {
            assert(lines.deep_view()[i as int] == lines@[i as int]@);
            ls.lemma_filter_map_take_succ(f@, i as int);
        }
        let ghost before = table.entries@;
        match parse_ps_line(lines[i].as_str()) {
            Some((pid, name, ppid)) => {
                table.push(pid, name, ppid);
                proof {
                    assert(rec_views(table.entries@) =~~= ls.take(i + 1).filter_map(f@));
                }
            },
            None => {
                proof {
                    assert(rec_views(table.entries@) =~~= ls.take(i + 1).filter_map(f@));
                }
            },
        }
        i += 1;
    }
    proof {
        assert(ls.take(n as int) =~= ls);
    }
    table
}

// ── Init-system label output ────────────────────────────────────────────────

/// Repeated occurrences of a prefix stripped from the front, as
/// `str::trim_start_matches` strips them.
pub open spec fn strip_all_prefix(s: Seq<char>, p: Seq<char>) -> Seq<char>
    decreases s.len(),
    when p.len() > 0
{
    if p.is_prefix_of(s) {
        strip_all_prefix(s.skip(p.len() as int), p)
    } else {
        s
    }
}

/// The label the first `label = ` line of a process-info listing carries.
pub open spec fn first_label(lines: Seq<Seq<char>>) -> Option<Seq<char>>
    decreases lines.len(),
{
    if lines.len() == 0 {
        None
    } else {
        let t = trim_spec(lines[0]);
        if "label = "@.is_prefix_of(t) {
            Some(strip_all_prefix(t, "label = "@))
        } else {
            first_label(lines.drop_first())
        }
    }
}

/// Extract an init-system label from process-info output: the first trimmed
/// line starting `label = `, with that marker stripped.
pub fn launchd_label_from(output: &str) -> (r: Option<String>)
    ensures
        match r {
            Some(l) => first_label(split_lines(output@)) == Some(l@),
            None => first_label(split_lines(output@)) is None,
        },
{
    proof {
        reveal_strlit("label = ");
    }
    let lines = lines_vec(output);
    let ghost ls = split_lines(output@);
    let n = lines.len();
    let mut i: usize = 0;
    proof {
        assert(ls.skip(0) =~= ls);
    }
    while i < n
        invariant
            i <= n,
            n == lines@.len(),
            lines.deep_view() == ls,
            ls == split_lines(output@),
            first_label(ls) == first_label(ls.skip(i as int)),
            "label = "@.len() == 8,
        decreases n - i,
    {
        proof {
            assert(ls.skip(i as int)[0] == ls[i as int]);
            assert(ls.skip(i as int).drop_first() =~= ls.skip(i + 1));
        }
        let t = trim(lines[i].as_str());
        if crate::strutil::starts_with_str(t.as_str(), "label = ") {
            // Strip the marker as often as it repeats.
            let mut cur = t;
            while crate::strutil::starts_with_str(cur.as_str(), "label = ")
                invariant
                    strip_all_prefix(trim_spec(ls[i as int]), "label = "@) == strip_all_prefix(
                        cur@,
                        "label = "@,
                    ),
                    "label = "@.len() == 8,
                decreases cur@.len(),
            {
                let cn = cur.as_str().unicode_len();
                let tail = cur.as_str().substring_char(8, cn);
                proof {
                    assert(tail@ =~= cur@.skip(8));
                }
                cur = String::from_str(tail);
            }
            return Some(cur);
        }
        i += 1;
    }
    proof {
        assert(ls.skip(n as int) =~= Seq::<Seq<char>>::empty());
    }
    None
}

/// Resolve a pid from the snapshot, falling back to the result of a
/// per-process query when the snapshot lacks it — the race between
/// enumeration and process creation that the snapshot strategy must
/// tolerate.
pub fn resolve_or_fallback(table: &ProcessTable, pid: u32, fallback: Option<(String, u32)>) -> (r:
    Option<(String, u32)>)
    ensures
        r == match resolve_spec(table.entries@, pid) {
            Some(t) => Some(t),
            None => fallback,
        },
{
    match table.resolve(pid) {
        Some(t) => Some(t),
        None => fallback,
    }
}

// ── The snapshot cache ──────────────────────────────────────────────────────

/// A cached process-table snapshot with its fetch time: one snapshot serves
/// a whole batch of lookups within the TTL, so a burst of queries costs one
/// enumeration.
#[derive(Debug)]
pub struct TableCache {
    pub table: Option<ProcessTable>,
    pub fetched_ms: u64,
    pub ttl_ms: u64,
}

impl TableCache {
    /// A snapshot is fresh while its age is below the TTL.
    pub open spec fn fresh(self, now_ms: u64) -> bool {
        self.table is Some && now_ms >= self.fetched_ms && now_ms - self.fetched_ms < self.ttl_ms
    }

    /// An empty cache with the given TTL.
    pub fn new(ttl_ms: u64) -> (r: TableCache)
        ensures
            r.table is None,
            r.ttl_ms == ttl_ms,
    {
        TableCache { table: None, fetched_ms: 0, ttl_ms }
    }

    /// The cached snapshot, if it is still fresh.
    pub fn get_if_fresh(&self, now_ms: u64) -> (r: Option<&ProcessTable>)
        ensures
            self.fresh(now_ms) ==> (r matches Some(t) && *t == self.table->Some_0),
            !self.fresh(now_ms) ==> r is None,
    {
        match &self.table {
            Some(t) => {
                if now_ms >= self.fetched_ms && now_ms - self.fetched_ms < self.ttl_ms {
                    Some(t)
                } else {
                    None
                }
            },
            None => None,
        }
    }

    /// Store a fresh snapshot.
    pub fn store(&mut self, table: ProcessTable, now_ms: u64)
        ensures
            final(self).table == Some(table),
            final(self).fetched_ms == now_ms,
            final(self).ttl_ms == old(self).ttl_ms,
    {
        self.table = Some(table);
        self.fetched_ms = now_ms;
    }
}

} // verus!
