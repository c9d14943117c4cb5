//! Container port-mapping logic: parsing the port strings a container
//! listing prints, and assembling the host-port lookup used to enrich port
//! records with container names.

use vstd::prelude::*;

use crate::scan::{
    after_last, find_char, find_sub, index_of_sub, split_char, split_char_vec, trim, trim_spec,
};
use crate::strutil::{dec_val, strip_plus, valid_dec};

verus! {

/// Parsed container information with its extracted port mappings.
#[derive(Debug, Clone)]
pub struct ContainerInfo {
    pub id: String,
    pub name: String,
    pub ports: Vec<(u16, u16)>,
}

impl ContainerInfo {
    /// A display string for this container.
    pub fn display_name(&self) -> (r: &str)
        ensures
            r@ == self.name@,
    {
        self.name.as_str()
    }
}

/// Container port mapping information.
#[derive(Debug, Clone)]
pub struct PortMapping {
    pub host_port: String,
}

/// What one comma-separated mapping field yields: trimmed, it must hold an
/// arrow; the host port is the decimal after the last colon before the
/// arrow, the container port the decimal before the first slash after it;
/// a side that fails to parse counts as zero, and zero ports are dropped.
pub open spec fn mapping_spec(m: Seq<char>) -> Option<(u16, u16)> {
    let t = trim_spec(m);
    match find_sub(t, "->"@) {
        None => None,
        Some(i) => {
            let host = t.take(i);
            let cont = t.skip(i + 2);
            let hp = after_last(host, ':');
            let host_port: u16 = if valid_dec(hp, u16::MAX as nat) {
                dec_val(strip_plus(hp)) as u16
            } else {
                0
            };
            let cp_tok = match find_char(cont, '/') {
                Some(j) => cont.take(j),
                None => cont,
            };
            let cont_port: u16 = if valid_dec(cp_tok, u16::MAX as nat) {
                dec_val(strip_plus(cp_tok)) as u16
            } else {
                0
            };
            if host_port > 0 && cont_port > 0 {
                Some((host_port, cont_port))
            } else {
                None
            }
        },
    }
}

/// What a whole port string yields: its comma-separated fields, each
/// decoded, the malformed ones dropped.
pub open spec fn port_string_spec(s: Seq<char>) -> Seq<(u16, u16)> {
    split_char(s, ',').filter_map(|m: Seq<char>| mapping_spec(m))
}

/// Decode one mapping field.
fn parse_mapping(m: &str) -> (r: Option<(u16, u16)>)
    ensures
        r == mapping_spec(m@),
{
    let t = trim(m);
    let i = match index_of_sub(t.as_str(), "->") {
        Some(i) => i,
        None => { return None },
    };
    proof {
        reveal_strlit("->");
        crate::scan::lemma_find_sub_props(t@, "->"@);
    }
    let tn = t.as_str().unicode_len();
    let host = t.as_str().substring_char(0, i);
    let cont = t.as_str().substring_char(i + 2, tn);
    proof {
        assert(host@ =~= t@.take(i as int));
        assert(cont@ =~= t@.skip(i + 2));
    }
    let hp = crate::scan::after_last_str(host, ':');
    let host_port: u16 = match crate::strutil::parse_dec_u16(hp.as_str()) {
        Some(p) => p,
        None => 0,
    };
    let cp_tok = match crate::scan::index_of_char(cont, '/') {
        Some(j) => {
            proof {
                crate::scan::lemma_find_char_props(cont@, '/');
            }
            let cn = cont.unicode_len();
            let tok = cont.substring_char(0, j);
            proof {
                assert(tok@ =~= cont@.take(j as int));
            }
            String::from_str(tok)
        },
        None => String::from_str(cont),
    };
    let cont_port: u16 = match crate::strutil::parse_dec_u16(cp_tok.as_str()) {
        Some(p) => p,
        None => 0,
    };
    if host_port > 0 && cont_port > 0 {
        Some((host_port, cont_port))
    } else {
        None
    }
}

/// Parse a container listing's port string, such as
/// `0.0.0.0:3000->80/tcp, :::3000->80/tcp`, into (host port, container
/// port) pairs.
pub fn parse_port_string(ports: &str) -> (r: Vec<(u16, u16)>)
    ensures
        r@ == port_string_spec(ports@),
{
    let f = Ghost(|m: Seq<char>| mapping_spec(m));
    let fields = split_char_vec(ports, ',');
    let ghost fs = split_char(ports@, ',');
    let n = fields.len();
    let mut out: Vec<(u16, u16)> = Vec::new();
    let mut i: usize = 0;
    proof {
        assert(fs.take(0) =~= Seq::<Seq<char>>::empty());
        assert(out@ =~= fs.take(0).filter_map(f@));
    }
    while i < n
        invariant
            i <= n,
            n == fields@.len(),
            fields.deep_view() == fs,
            fs == split_char(ports@, ','),
            out@ == fs.take(i as int).filter_map(f@),
            f@ == (|m: Seq<char>| mapping_spec(m)),
        decreases n - i,
    {
        proof {
            assert(fields.deep_view()[i as int] == fields@[i as int]@);
            fs.lemma_filter_map_take_succ(f@, i as int);
        }
        match parse_mapping(fields[i].as_str()) {
            Some(pair) => {
                out.push(pair);
                proof {
                    assert(out@ =~= fs.take(i + 1).filter_map(f@));
                }
            },
            None => {
                proof {
                    assert(out@ =~= fs.take(i + 1).filter_map(f@));
                }
            },
        }
        i += 1;
    }
    proof {
        assert(fs.take(n as int) =~= fs);
    }
    out
}

// ── The host-port lookup ────────────────────────────────────────────────────

/// Leading occurrences of `c` stripped, as `str::trim_start_matches` does.
pub open spec fn strip_leading(s: Seq<char>, c: char) -> Seq<char>
    decreases s.len(),
{
    if s.len() > 0 && s[0] == c {
        strip_leading(s.drop_first(), c)
    } else {
        s
    }
}

/// Strip every leading `c`.
pub fn strip_leading_str(s: &str, c: char) -> (r: String)
    ensures
        r@ == strip_leading(s@, c),
{
    let cv = crate::strutil::chars_vec(s);
    let n = cv.len();
    let mut a: usize = 0;
    proof {
        assert(s@.skip(0) =~= s@);
    }
    while a < n && cv[a] == c
        invariant
            a <= n,
            n == s@.len(),
            cv@ == s@,
            strip_leading(s@, c) == strip_leading(s@.skip(a as int), c),
        decreases n - a,
    {
        proof {
            assert(s@.skip(a as int)[0] == s@[a as int]);
            assert(s@.skip(a as int).drop_first() =~= s@.skip(a + 1));
        }
        a += 1;
    }
    let tail = s.substring_char(a, n);
    proof {
        assert(tail@ =~= s@.skip(a as int));
        if a < n {
            assert(s@.skip(a as int)[0] == s@[a as int]);
        }
    }
    String::from_str(tail)
}

/// The (host port, container name) pairs one container listing row
/// contributes: each of its host ports, under its name with leading slashes
/// stripped.
pub open spec fn row_mappings(names: Seq<char>, ports: Seq<char>) -> Seq<(u16, Seq<char>)> {
    port_string_spec(ports).map_values(|pr: (u16, u16)| (pr.0, strip_leading(names, '/')))
}

/// The pairs a whole listing contributes, row by row.
pub open spec fn all_mappings(rows: Seq<(Seq<char>, Seq<char>)>) -> Seq<(u16, Seq<char>)>
    decreases rows.len(),
{
    if rows.len() == 0 {
        Seq::empty()
    } else {
        all_mappings(rows.drop_last()) + row_mappings(rows.last().0, rows.last().1)
    }
}

pub open spec fn mappings_view(r: Seq<(u16, String)>) -> Seq<(u16, Seq<char>)> {
    r.map_values(|e: (u16, String)| (e.0, e.1@))
}

pub open spec fn rows_view(rows: Seq<(String, String)>) -> Seq<(Seq<char>, Seq<char>)> {
    rows.map_values(|t: (String, String)| (t.0@, t.1@))
}

/// Build the host-port lookup from container listing rows of (names, port
/// string): every host port of a row maps to that row's cleaned container
/// name; a port listed again later shadows the earlier row.
pub fn build_port_mappings(rows: &Vec<(String, String)>) -> (r: Vec<(u16, String)>)
    ensures
        mappings_view(r@) == all_mappings(rows_view(rows@)),
{
    let n = rows.len();
    let mut out: Vec<(u16, String)> = Vec::new();
    let mut i: usize = 0;
    proof {
        assert(rows_view(rows@).take(0) =~~= Seq::<(Seq<char>, Seq<char>)>::empty());
        assert(mappings_view(out@) =~~= all_mappings(rows_view(rows@).take(0)));
    }
    while i < n
        invariant
            i <= n,
            n == rows@.len(),
            mappings_view(out@) == all_mappings(rows_view(rows@).take(i as int)),
        decreases n - i,
    {
        let name = strip_leading_str(rows[i].0.as_str(), '/');
        let pairs = parse_port_string(rows[i].1.as_str());
        let m = pairs.len();
        let ghost row = (rows@[i as int].0@, rows@[i as int].1@);
        proof {
            assert(mappings_view(out@) =~~= all_mappings(rows_view(rows@).take(i as int))
                + row_mappings(row.0, row.1).take(0));
        }
        let mut k: usize = 0;
        while k < m
            invariant
                k <= m,
                m == pairs@.len(),
                pairs@ == port_string_spec(row.1),
                name@ == strip_leading(row.0, '/'),
                mappings_view(out@) == all_mappings(rows_view(rows@).take(i as int))
                    + row_mappings(row.0, row.1).take(k as int),
            decreases m - k,
        {
            out.push((pairs[k].0, name.clone()));
            proof {
                let rm = row_mappings(row.0, row.1);
                let am = all_mappings(rows_view(rows@).take(i as int));
                let e = (pairs@[k as int].0, name@);
                assert(rm.take(k + 1) =~~= rm.take(k as int).push(e));
                assert(mappings_view(out@) =~~= (am + rm.take(k as int)).push(e));
                assert((am + rm.take(k as int)).push(e) =~~= am + rm.take(k + 1));
            }
            k += 1;
        }
        proof {
            let rv = rows_view(rows@);
            assert(row_mappings(row.0, row.1).take(m as int) =~~= row_mappings(row.0, row.1));
            assert(rv.take(i + 1).drop_last() =~~= rv.take(i as int));
            assert(rv.take(i + 1).last() == rv[i as int]);
            assert(mappings_view(out@) =~~= all_mappings(rv.take(i + 1)));
        }
        i += 1;
    }
    proof {
        assert(rows_view(rows@).take(n as int) =~~= rows_view(rows@));
    }
    out
}

/// Index of the last mapping for `port` — the row that shadowed the rest.
pub open spec fn find_mapping(maps: Seq<(u16, String)>, port: u16) -> Option<int>
    decreases maps.len(),
{
    if maps.len() == 0 {
        None
    } else if maps.last().0 == port {
        Some(maps.len() - 1)
    } else {
        find_mapping(maps.drop_last(), port)
    }
}

pub proof fn lemma_find_mapping_is(maps: Seq<(u16, String)>, port: u16, i: int)
    requires
        0 <= i < maps.len(),
        maps[i].0 == port,
        forall|k: int| i < k < maps.len() ==> (#[trigger] maps[k]).0 != port,
    ensures
        find_mapping(maps, port) == Some(i),
    decreases maps.len(),
{
    if i < maps.len() - 1 {
        lemma_find_mapping_is(maps.drop_last(), port, i);
    }
}

pub proof fn lemma_find_mapping_none(maps: Seq<(u16, String)>, port: u16)
    requires
        forall|k: int| 0 <= k < maps.len() ==> (#[trigger] maps[k]).0 != port,
    ensures
        find_mapping(maps, port) is None,
    decreases maps.len(),
{
    if maps.len() > 0 {
        lemma_find_mapping_none(maps.drop_last(), port);
    }
}

/// Look a host port up in the mapping list; the latest entry wins.
pub fn lookup_mapping(maps: &Vec<(u16, String)>, port: u16) -> (r: Option<&String>)
    ensures
        match find_mapping(maps@, port) {
            Some(j) => r matches Some(name) && *name == maps@[j].1,
            None => r is None,
        },
{
    let n = maps.len();
    let mut i: usize = n;
    while i > 0
        invariant
            i <= n,
            n == maps@.len(),
            forall|k: int| i <= k < n ==> (#[trigger] maps@[k]).0 != port,
        decreases i,
    {
        i -= 1;
        if maps[i].0 == port {
            proof {
                lemma_find_mapping_is(maps@, port, i as int);
            }
            return Some(&maps[i].1);
        }
    }
    proof {
        lemma_find_mapping_none(maps@, port);
    }
    None
}

} // verus!
