//! Core port-record types and the operations on lists of them: service-name
//! resolution, sorting, protocol and query filters, container enrichment,
//! and grouping by owning process.

use vstd::prelude::*;

use crate::docker::find_mapping;
use crate::strutil::{
    dec_val, lex_le, lower_of, str_contains, strip_plus, to_lowercase, valid_dec,
};

verus! {

/// Transport protocol of a socket.
#[derive(Debug, Clone, Copy, PartialEq, Eq, Hash, Structural)]
pub enum Protocol {
    Tcp,
    Udp,
}

impl Protocol {
    /// The token naming this protocol in machine-readable output.
    pub open spec fn token(self) -> Seq<char> {
        match self {
            Protocol::Tcp => "tcp"@,
            Protocol::Udp => "udp"@,
        }
    }

    /// The lowercase label of this protocol.
    pub fn label(&self) -> (r: String)
        ensures
            r@ == self.token(),
    {
        match self {
            Protocol::Tcp => String::from_str("tcp"),
            Protocol::Udp => String::from_str("udp"),
        }
    }
}

/// Field a port listing can be sorted by.
#[derive(Debug, Clone, Copy)]
pub enum SortField {
    Port,
    Pid,
    Name,
}

/// Protocol restriction of a port listing.
#[derive(Debug, Clone, Copy, PartialEq, Eq, Structural)]
pub enum ProtocolFilter {
    Tcp,
    Udp,
}

/// One socket binding: a local port with its protocol, owning process, and
/// addresses, enriched with an optional container and service name.
#[derive(Debug, Clone, Hash)]
pub struct PortInfo {
    pub port: u16,
    pub protocol: Protocol,
    pub pid: u32,
    pub process_name: String,
    pub address: String,
    pub remote_address: Option<String>,
    pub container: Option<String>,
    pub service_name: Option<String>,
}

/// Structural equality over every field — the identity used for
/// set-difference in the watch and diff features.
pub open spec fn port_info_eq(a: PortInfo, b: PortInfo) -> bool {
    &&& a.port == b.port
    &&& a.protocol == b.protocol
    &&& a.pid == b.pid
    &&& a.process_name@ == b.process_name@
    &&& a.address@ == b.address@
    &&& crate::ancestry::opt_string_view(a.remote_address) == crate::ancestry::opt_string_view(
        b.remote_address,
    )
    &&& crate::ancestry::opt_string_view(a.container) == crate::ancestry::opt_string_view(
        b.container,
    )
    &&& crate::ancestry::opt_string_view(a.service_name) == crate::ancestry::opt_string_view(
        b.service_name,
    )
}

fn eq_opt_string(a: &Option<String>, b: &Option<String>) -> (r: bool)
    ensures
        r == (crate::ancestry::opt_string_view(*a) == crate::ancestry::opt_string_view(*b)),
{
    match a {
        Some(x) => match b {
            Some(y) => crate::strutil::eq_str(x.as_str(), y.as_str()),
            None => false,
        },
        None => match b {
            Some(_) => false,
            None => true,
        },
    }
}

impl PartialEq for PortInfo {
    fn eq(&self, other: &PortInfo) -> (r: bool) {
        self.port == other.port && self.protocol == other.protocol && self.pid == other.pid
            && self.process_name == other.process_name && self.address == other.address
            && eq_opt_string(&self.remote_address, &other.remote_address) && eq_opt_string(
            &self.container,
            &other.container,
        ) && eq_opt_string(&self.service_name, &other.service_name)
    }
}

impl vstd::std_specs::cmp::PartialEqSpecImpl for PortInfo {
    open spec fn obeys_eq_spec() -> bool {
        true
    }

    open spec fn eq_spec(&self, other: &PortInfo) -> bool {
        port_info_eq(*self, *other)
    }
}

impl Eq for PortInfo {

}

/// Copy a port record, field by field.
pub fn clone_port_info(p: &PortInfo) -> (r: PortInfo)
    ensures
        r == *p,
{
    PortInfo {
        port: p.port,
        protocol: p.protocol,
        pid: p.pid,
        process_name: p.process_name.clone(),
        address: p.address.clone(),
        remote_address: crate::ancestry::clone_opt_string(&p.remote_address),
        container: crate::ancestry::clone_opt_string(&p.container),
        service_name: crate::ancestry::clone_opt_string(&p.service_name),
    }
}

// ── Sequence helpers ────────────────────────────────────────────────────────

/// Filtering one more element keeps the filtered prefix and appends the
/// element exactly when the predicate holds of it.
pub proof fn lemma_filter_take_succ<A>(s: Seq<A>, pred: spec_fn(A) -> bool, i: int)
    requires
        0 <= i < s.len(),
    ensures
        s.take(i + 1).filter(pred) == s.take(i).filter(pred) + (if pred(s[i]) {
            seq![s[i]]
        } else {
            Seq::<A>::empty()
        }),
{
    reveal(Seq::filter);
    assert(s.take(i + 1).drop_last() =~= s.take(i));
    assert(s.take(i + 1).last() == s[i]);
    if pred(s[i]) {
        assert(s.take(i + 1).filter(pred) =~= s.take(i).filter(pred) + seq![s[i]]);
    } else {
        assert(s.take(i + 1).filter(pred) =~= s.take(i).filter(pred) + Seq::<A>::empty());
    }
}

/// Inserting an element anywhere adds exactly it to the multiset.
pub proof fn lemma_seq_insert_to_multiset<A>(s: Seq<A>, p: int, x: A)
    requires
        0 <= p <= s.len(),
    ensures
        s.insert(p, x).to_multiset() =~= s.to_multiset().insert(x),
{
    broadcast use vstd::seq_lib::group_to_multiset_ensures;

    assert(s.insert(p, x) =~= s.take(p).push(x) + s.skip(p));
    assert(s =~= s.take(p) + s.skip(p));
    vstd::seq_lib::lemma_multiset_commutative(s.take(p).push(x), s.skip(p));
    vstd::seq_lib::lemma_multiset_commutative(s.take(p), s.skip(p));
    assert(s.take(p).push(x).to_multiset() =~= s.take(p).to_multiset().insert(x));
}

// ── Service names ───────────────────────────────────────────────────────────

/// The well-known service conventionally bound to a port, if any.
pub open spec fn well_known_service(port: u16) -> Option<Seq<char>> {
    if port == 21 {
        Some("ftp"@)
    } else if port == 22 {
        Some("ssh"@)
    } else if port == 25 {
        Some("smtp"@)
    } else if port == 53 {
        Some("dns"@)
    } else if port == 80 {
        Some("http"@)
    } else if port == 110 {
        Some("pop3"@)
    } else if port == 143 {
        Some("imap"@)
    } else if port == 443 {
        Some("https"@)
    } else if port == 465 {
        Some("smtps"@)
    } else if port == 587 {
        Some("submission"@)
    } else if port == 993 {
        Some("imaps"@)
    } else if port == 995 {
        Some("pop3s"@)
    } else if port == 1433 {
        Some("mssql"@)
    } else if port == 3306 {
        Some("mysql"@)
    } else if port == 3389 {
        Some("rdp"@)
    } else if port == 5432 {
        Some("postgres"@)
    } else if port == 5672 {
        Some("amqp"@)
    } else if port == 6379 {
        Some("redis"@)
    } else if port == 8080 {
        Some("http-alt"@)
    } else if port == 8443 {
        Some("https-alt"@)
    } else if port == 9200 {
        Some("elasticsearch"@)
    } else if port == 27017 {
        Some("mongodb"@)
    } else {
        None
    }
}

/// The well-known service name for a port.
pub fn lookup_well_known_service(port: u16) -> (r: Option<String>)
    ensures
        match r {
            Some(s) => well_known_service(port) == Some(s@),
            None => well_known_service(port) is None,
        },
{
    if port == 21 {
        Some(String::from_str("ftp"))
    } else if port == 22 {
        Some(String::from_str("ssh"))
    } else if port == 25 {
        Some(String::from_str("smtp"))
    } else if port == 53 {
        Some(String::from_str("dns"))
    } else if port == 80 {
        Some(String::from_str("http"))
    } else if port == 110 {
        Some(String::from_str("pop3"))
    } else if port == 143 {
        Some(String::from_str("imap"))
    } else if port == 443 {
        Some(String::from_str("https"))
    } else if port == 465 {
        Some(String::from_str("smtps"))
    } else if port == 587 {
        Some(String::from_str("submission"))
    } else if port == 993 {
        Some(String::from_str("imaps"))
    } else if port == 995 {
        Some(String::from_str("pop3s"))
    } else if port == 1433 {
        Some(String::from_str("mssql"))
    } else if port == 3306 {
        Some(String::from_str("mysql"))
    } else if port == 3389 {
        Some(String::from_str("rdp"))
    } else if port == 5432 {
        Some(String::from_str("postgres"))
    } else if port == 5672 {
        Some(String::from_str("amqp"))
    } else if port == 6379 {
        Some(String::from_str("redis"))
    } else if port == 8080 {
        Some(String::from_str("http-alt"))
    } else if port == 8443 {
        Some(String::from_str("https-alt"))
    } else if port == 9200 {
        Some(String::from_str("elasticsearch"))
    } else if port == 27017 {
        Some(String::from_str("mongodb"))
    } else {
        None
    }
}

// ── Ordering ────────────────────────────────────────────────────────────────

/// The sort order a field induces: by port number, by pid, or by process
/// name in lexicographic order.
pub open spec fn key_le(sf: SortField, a: PortInfo, b: PortInfo) -> bool {
    match sf {
        SortField::Port => a.port <= b.port,
        SortField::Pid => a.pid <= b.pid,
        SortField::Name => lex_le(a.process_name@, b.process_name@),
    }
}

pub open spec fn sorted_by_key(sf: SortField, s: Seq<PortInfo>) -> bool {
    forall|i: int, j: int| 0 <= i < j < s.len() ==> key_le(sf, #[trigger] s[i], #[trigger] s[j])
}

proof fn lemma_key_le_total(sf: SortField, a: PortInfo, b: PortInfo)
    ensures
        key_le(sf, a, b) || key_le(sf, b, a),
{
    if sf is Name {
        crate::strutil::lemma_lex_le_total(a.process_name@, b.process_name@);
    }
}

proof fn lemma_key_le_trans(sf: SortField, a: PortInfo, b: PortInfo, c: PortInfo)
    requires
        key_le(sf, a, b),
        key_le(sf, b, c),
    ensures
        key_le(sf, a, c),
{
    if sf is Name {
        crate::strutil::lemma_lex_le_trans(a.process_name@, b.process_name@, c.process_name@);
    }
}

/// Where an insertion belongs in a key-sorted list: after every element
/// that sorts at-or-before `x`, so records with equal keys keep their
/// arrival order.
pub open spec fn insert_pos(sf: SortField, sorted: Seq<PortInfo>, x: PortInfo) -> int
    decreases sorted.len(),
{
    if sorted.len() == 0 {
        0
    } else if key_le(sf, sorted[0], x) {
        1 + insert_pos(sf, sorted.drop_first(), x)
    } else {
        0
    }
}

proof fn lemma_insert_pos_is(sf: SortField, sorted: Seq<PortInfo>, x: PortInfo, p: int)
    requires
        0 <= p <= sorted.len(),
        forall|k: int| 0 <= k < p ==> key_le(sf, #[trigger] sorted[k], x),
        p == sorted.len() || !key_le(sf, sorted[p], x),
    ensures
        insert_pos(sf, sorted, x) == p,
    decreases sorted.len(),
{
    if p > 0 {
        let d = sorted.drop_first();
        assert forall|k: int| 0 <= k < p - 1 implies key_le(sf, #[trigger] d[k], x) by {
            assert(d[k] == sorted[k + 1]);
        }
        if p - 1 < d.len() {
            assert(d[p - 1] == sorted[p]);
        }
        lemma_insert_pos_is(sf, d, x, p - 1);
    }
}

/// The stable sort of a record list: each element in turn inserted after
/// the elements that sort at-or-before it.
pub open spec fn stable_sorted(sf: SortField, s: Seq<PortInfo>) -> Seq<PortInfo>
    decreases s.len(),
{
    if s.len() == 0 {
        Seq::empty()
    } else {
        let rest = stable_sorted(sf, s.drop_last());
        rest.insert(insert_pos(sf, rest, s.last()), s.last())
    }
}

proof fn lemma_insert_pos_in_range(sf: SortField, sorted: Seq<PortInfo>, x: PortInfo)
    ensures
        0 <= insert_pos(sf, sorted, x) <= sorted.len(),
    decreases sorted.len(),
{
    if sorted.len() > 0 && key_le(sf, sorted[0], x) {
        lemma_insert_pos_in_range(sf, sorted.drop_first(), x);
    }
}

fn le_by(sf: SortField, a: &PortInfo, b: &PortInfo) -> (r: bool)
    ensures
        r == key_le(sf, *a, *b),
{
    match sf {
        SortField::Port => a.port <= b.port,
        SortField::Pid => a.pid <= b.pid,
        SortField::Name => crate::strutil::str_le(a.process_name.as_str(), b.process_name.as_str()),
    }
}

impl PortInfo {
    /// Populate the service-name field from the well-known port table,
    /// leaving every other field as it was.
    pub fn resolve_service_name(&mut self)
        ensures
            final(self).port == old(self).port,
            final(self).protocol == old(self).protocol,
            final(self).pid == old(self).pid,
            final(self).process_name == old(self).process_name,
            final(self).address == old(self).address,
            final(self).remote_address == old(self).remote_address,
            final(self).container == old(self).container,
            match well_known_service(old(self).port) {
                Some(n) => final(self).service_name matches Some(s) && s@ == n,
                None => final(self).service_name is None,
            },
    {
        self.service_name = lookup_well_known_service(self.port);
    }

    /// Sort records by the requested field, stably: the result is exactly
    /// the stable sort of the input by that field's key — a permutation,
    /// ordered by the key, with records of equal keys in their input order;
    /// with no field requested the list is left untouched.
    pub fn sort_vec(ports: &mut Vec<PortInfo>, sort: Option<SortField>)
        ensures
            match sort {
                None => final(ports)@ == old(ports)@,
                Some(sf) => final(ports)@ == stable_sorted(sf, old(ports)@) && sorted_by_key(
                    sf,
                    final(ports)@,
                ) && final(ports)@.to_multiset() == old(ports)@.to_multiset(),
            },
    {
        broadcast use vstd::seq_lib::group_to_multiset_ensures;

        let sf = match sort {
            Some(sf) => sf,
            None => { return },
        };
        let n = ports.len();
        let mut out: Vec<PortInfo> = Vec::new();
        let mut i: usize = 0;
        proof {
            assert(ports@.take(0) =~= Seq::<PortInfo>::empty());
            assert(out@.to_multiset() =~= ports@.take(0).to_multiset());
            assert(out@ =~= stable_sorted(sf, ports@.take(0)));
        }
        while i < n
            invariant
                i <= n,
                n == ports@.len(),
                sorted_by_key(sf, out@),
                out@.to_multiset() == ports@.take(i as int).to_multiset(),
                out@ == stable_sorted(sf, ports@.take(i as int)),
            decreases n - i,
        {
            let x = clone_port_info(&ports[i]);
            let m = out.len();
            let mut p: usize = 0;
            while p < m && le_by(sf, &out[p], &x)
                invariant
                    p <= m,
                    m == out@.len(),
                    forall|k: int| 0 <= k < p ==> key_le(sf, #[trigger] out@[k], x),
                ensures
                    p <= m,
                    forall|k: int| 0 <= k < p ==> key_le(sf, #[trigger] out@[k], x),
                    p == m || !key_le(sf, out@[p as int], x),
                decreases m - p,
            {
                p += 1;
            }
            let ghost before = out@;
            out.insert(p, x);
            proof {
                broadcast use vstd::seq_lib::group_to_multiset_ensures;

                assert(out@ =~= before.insert(p as int, x));
                assert forall|idx: int| 0 <= idx < p implies out@[idx] == before[idx] by {}
                assert forall|idx: int| p < idx < out@.len() implies out@[idx] == before[idx
                    - 1] by {}
                assert(out@[p as int] == x);
                if p < m {
                    lemma_key_le_total(sf, before[p as int], x);
                }
                assert forall|i2: int, j2: int|
                    0 <= i2 < j2 < out@.len() implies key_le(
                    sf,
                    #[trigger] out@[i2],
                    #[trigger] out@[j2],
                ) by {
                    if j2 < p {
                        assert(key_le(sf, before[i2], before[j2]));
                    } else if j2 == p {
                        assert(key_le(sf, before[i2], x));
                    } else {
                        assert(out@[j2] == before[j2 - 1]);
                        if i2 < p {
                            assert(key_le(sf, before[i2], before[j2 - 1]));
                        } else if i2 == p {
                            assert(key_le(sf, x, before[p as int]));
                            if j2 - 1 > p {
                                assert(key_le(sf, before[p as int], before[j2 - 1]));
                                lemma_key_le_trans(sf, x, before[p as int], before[j2 - 1]);
                            }
                        } else {
                            assert(out@[i2] == before[i2 - 1]);
                            assert(key_le(sf, before[i2 - 1], before[j2 - 1]));
                        }
                    }
                }
                lemma_seq_insert_to_multiset(before, p as int, x);
                assert(ports@.take(i + 1) =~= ports@.take(i as int).push(ports@[i as int]));
                assert(out@.to_multiset() =~= ports@.take(i + 1).to_multiset());
                lemma_insert_pos_is(sf, before, x, p as int);
                assert(ports@.take(i + 1).drop_last() =~= ports@.take(i as int));
                assert(ports@.take(i + 1).last() == ports@[i as int]);
                assert(out@ =~= stable_sorted(sf, ports@.take(i + 1)));
            }
            i += 1;
        }
        proof {
            assert(ports@.take(n as int) =~= ports@);
        }
        *ports = out;
    }

    /// Keep only the records of the requested protocol; no request keeps
    /// them all.
    pub fn filter_protocol(ports: Vec<PortInfo>, filter: Option<ProtocolFilter>) -> (r: Vec<
        PortInfo,
    >)
        ensures
            r@ == ports@.filter(
                |p: PortInfo|
                    match filter {
                        None => true,
                        Some(ProtocolFilter::Tcp) => p.protocol is Tcp,
                        Some(ProtocolFilter::Udp) => p.protocol is Udp,
                    },
            ),
    {
        let ghost pred = |p: PortInfo|
            match filter {
                None => true,
                Some(ProtocolFilter::Tcp) => p.protocol is Tcp,
                Some(ProtocolFilter::Udp) => p.protocol is Udp,
            };
        let n = ports.len();
        let mut out: Vec<PortInfo> = Vec::new();
        let mut i: usize = 0;
        proof {
            reveal(Seq::filter);
            assert(ports@.take(0) =~= Seq::<PortInfo>::empty());
        }
        while i < n
            invariant
                i <= n,
                n == ports@.len(),
                out@ == ports@.take(i as int).filter(pred),
                pred == (|p: PortInfo|
                    match filter {
                        None => true,
                        Some(ProtocolFilter::Tcp) => p.protocol is Tcp,
                        Some(ProtocolFilter::Udp) => p.protocol is Udp,
                    }),
            decreases n - i,
        {
            proof {
                lemma_filter_take_succ(ports@, pred, i as int);
            }
            let keep = match filter {
                None => true,
                Some(ProtocolFilter::Tcp) => matches!(ports[i].protocol, Protocol::Tcp),
                Some(ProtocolFilter::Udp) => matches!(ports[i].protocol, Protocol::Udp),
            };
            if keep {
                out.push(clone_port_info(&ports[i]));
                proof {
                    assert(out@ =~= ports@.take(i + 1).filter(pred));
                }
            } else {
                proof {
                    assert(out@ =~= ports@.take(i + 1).filter(pred));
                }
            }
            i += 1;
        }
        proof {
            assert(ports@.take(n as int) =~= ports@);
        }
        out
    }
}

// ── Query filtering ─────────────────────────────────────────────────────────

/// Why a query could not be used.
#[derive(Debug, Clone, Copy, PartialEq, Eq, Structural)]
pub enum QueryError {
    InvalidRegex,
}

/// Whether a pattern is a well-formed regular expression; a function of the
/// pattern alone, left abstract here.
pub uninterp spec fn re_valid(pat: Seq<char>) -> bool;

/// Whether a regular expression matches somewhere in a text; a function of
/// pattern and text alone, left abstract here.
pub uninterp spec fn re_matches(pat: Seq<char>, text: Seq<char>) -> bool;

/// Relies on regex::Regex::new and regex::Regex::is_match: whether a pattern
/// compiles depends on the pattern alone, and the match verdict on pattern
/// and haystack alone.
#[verifier::external_body]
fn regex_match(pattern: &str, text: &str) -> (r: Option<bool>)
    ensures
        r is Some <==> re_valid(pattern@),
        r matches Some(b) ==> b == re_matches(pattern@, text@),
{
    match regex::Regex::new(pattern) {
        Ok(re) => Some(re.is_match(text)),
        Err(_) => None,
    }
}

/// A query that is a decimal port number.
pub open spec fn query_is_port(q: Seq<char>) -> bool {
    valid_dec(q, u16::MAX as nat)
}

pub open spec fn port_of_query(q: Seq<char>) -> u16
    recommends
        query_is_port(q),
{
    dec_val(strip_plus(q)) as u16
}

/// Whether a regex query matches a record: against the process name, or
/// against the container name if one is set.
pub open spec fn regex_pred(q: Seq<char>, p: PortInfo) -> bool {
    re_matches(q, p.process_name@) || (p.container matches Some(c) && re_matches(q, c@))
}

/// Whether a plain query matches a record: the lowercased query occurs in
/// the lowercased process name, or in the lowercased container name.
pub open spec fn substr_pred(q: Seq<char>, p: PortInfo) -> bool {
    str_contains(lower_of(p.process_name@), lower_of(q)) || (p.container matches Some(c)
        && str_contains(lower_of(c@), lower_of(q)))
}

impl PortInfo {
    /// Filter records by a query: a regex over process and container names
    /// when `use_regex` is set — an invalid pattern is rejected — otherwise
    /// a port number when the query parses as one, else a case-insensitive
    /// substring of the process or container name.
    pub fn filter_by_query(ports: Vec<PortInfo>, query: &str, use_regex: bool) -> (r: Result<
        Vec<PortInfo>,
        QueryError,
    >)
        ensures
            use_regex ==> {
                &&& (r is Err <==> !re_valid(query@))
                &&& (r matches Ok(v) ==> v@ == ports@.filter(
                    |p: PortInfo| regex_pred(query@, p),
                ))
            },
            !use_regex ==> (r matches Ok(v) && (if query_is_port(query@) {
                v@ == ports@.filter(|p: PortInfo| p.port == port_of_query(query@))
            } else {
                v@ == ports@.filter(|p: PortInfo| substr_pred(query@, p))
            })),
    {
        let n = ports.len();
        let mut out: Vec<PortInfo> = Vec::new();
        if use_regex {
            let ghost pred = |p: PortInfo| regex_pred(query@, p);
            if regex_match(query, "").is_none() {
                return Err(QueryError::InvalidRegex);
            }
            let mut i: usize = 0;
            proof {
                reveal(Seq::filter);
                assert(ports@.take(0) =~= Seq::<PortInfo>::empty());
            }
            while i < n
                invariant
                    i <= n,
                    n == ports@.len(),
                    re_valid(query@),
                    out@ == ports@.take(i as int).filter(pred),
                    pred == (|p: PortInfo| regex_pred(query@, p)),
                decreases n - i,
            {
                proof {
                    lemma_filter_take_succ(ports@, pred, i as int);
                }
                let name_hit = match regex_match(query, ports[i].process_name.as_str()) {
                    Some(b) => b,
                    None => {
                        proof {
                            assert(false);
                        }
                        false
                    },
                };
                let hit = if name_hit {
                    true
                } else {
                    match &ports[i].container {
                        Some(c) => match regex_match(query, c.as_str()) {
                            Some(b) => b,
                            None => {
                                proof {
                                    assert(false);
                                }
                                false
                            },
                        },
                        None => false,
                    }
                };
                if hit {
                    out.push(clone_port_info(&ports[i]));
                    proof {
                        assert(out@ =~= ports@.take(i + 1).filter(pred));
                    }
                } else {
                    proof {
                        assert(out@ =~= ports@.take(i + 1).filter(pred));
                    }
                }
                i += 1;
            }
            proof {
                assert(ports@.take(n as int) =~= ports@);
            }
            return Ok(out);
        }
        match crate::strutil::parse_dec_u16(query) {
            Some(port_num) => {
                let ghost pred = |p: PortInfo| p.port == port_of_query(query@);
                let mut i: usize = 0;
                proof {
                    reveal(Seq::filter);
                    assert(ports@.take(0) =~= Seq::<PortInfo>::empty());
                }
                while i < n
                    invariant
                        i <= n,
                        n == ports@.len(),
                        port_num == port_of_query(query@),
                        out@ == ports@.take(i as int).filter(pred),
                        pred == (|p: PortInfo| p.port == port_of_query(query@)),
                    decreases n - i,
                {
                    proof {
                        lemma_filter_take_succ(ports@, pred, i as int);
                    }
                    if ports[i].port == port_num {
                        out.push(clone_port_info(&ports[i]));
                        proof {
                            assert(out@ =~= ports@.take(i + 1).filter(pred));
                        }
                    } else {
                        proof {
                            assert(out@ =~= ports@.take(i + 1).filter(pred));
                        }
                    }
                    i += 1;
                }
                proof {
                    assert(ports@.take(n as int) =~= ports@);
                }
                Ok(out)
            },
            None => {
                let ghost pred = |p: PortInfo| substr_pred(query@, p);
                let query_lower = to_lowercase(query);
                let mut i: usize = 0;
                proof {
                    reveal(Seq::filter);
                    assert(ports@.take(0) =~= Seq::<PortInfo>::empty());
                }
                while i < n
                    invariant
                        i <= n,
                        n == ports@.len(),
                        query_lower@ == lower_of(query@),
                        out@ == ports@.take(i as int).filter(pred),
                        pred == (|p: PortInfo| substr_pred(query@, p)),
                    decreases n - i,
                {
                    proof {
                        lemma_filter_take_succ(ports@, pred, i as int);
                    }
                    let name_lower = to_lowercase(ports[i].process_name.as_str());
                    let hit = if crate::strutil::contains_str(
                        name_lower.as_str(),
                        query_lower.as_str(),
                    ) {
                        true
                    } else {
                        match &ports[i].container {
                            Some(c) => {
                                let c_lower = to_lowercase(c.as_str());
                                crate::strutil::contains_str(c_lower.as_str(), query_lower.as_str())
                            },
                            None => false,
                        }
                    };
                    if hit {
                        out.push(clone_port_info(&ports[i]));
                        proof {
                            assert(out@ =~= ports@.take(i + 1).filter(pred));
                        }
                    } else {
                        proof {
                            assert(out@ =~= ports@.take(i + 1).filter(pred));
                        }
                    }
                    i += 1;
                }
                proof {
                    assert(ports@.take(n as int) =~= ports@);
                }
                Ok(out)
            },
        }
    }

    /// Whether any record's process name marks a container port forward.
    pub fn has_docker_proxy(ports: &Vec<PortInfo>) -> (r: bool)
        ensures
            r == exists|i: int|
                0 <= i < ports@.len() && str_contains(
                    (#[trigger] ports@[i]).process_name@,
                    "docker-proxy"@,
                ),
    {
        let n = ports.len();
        let mut i: usize = 0;
        while i < n
            invariant
                i <= n,
                n == ports@.len(),
                forall|k: int|
                    0 <= k < i ==> !str_contains(
                        (#[trigger] ports@[k]).process_name@,
                        "docker-proxy"@,
                    ),
            decreases n - i,
        {
            if crate::strutil::contains_str(ports[i].process_name.as_str(), "docker-proxy") {
                return true;
            }
            i += 1;
        }
        false
    }

    /// What enrichment does to one record: a record forwarded by the
    /// container proxy whose port has a mapping gains that container's name;
    /// every other record is left as it is.
    pub open spec fn enrich_one(p: PortInfo, maps: Seq<(u16, String)>) -> PortInfo {
        if str_contains(p.process_name@, "docker-proxy"@) && find_mapping(maps, p.port) is Some {
            PortInfo { container: Some(maps[find_mapping(maps, p.port)->Some_0].1), ..p }
        } else {
            p
        }
    }

    /// Enrich container-forwarded records with their container names, from
    /// a host-port lookup built out of a container listing.
    pub fn enrich_with_docker(ports: Vec<PortInfo>, mappings: &Vec<(u16, String)>) -> (r: Vec<
        PortInfo,
    >)
        ensures
            r@.len() == ports@.len(),
            forall|i: int|
                0 <= i < r@.len() ==> r@[i] == PortInfo::enrich_one(
                    #[trigger] ports@[i],
                    mappings@,
                ),
    {
        let n = ports.len();
        let mut out: Vec<PortInfo> = Vec::new();
        let mut i: usize = 0;
        while i < n
            invariant
                i <= n,
                n == ports@.len(),
                out@.len() == i,
                forall|k: int|
                    0 <= k < i ==> out@[k] == PortInfo::enrich_one(
                        #[trigger] ports@[k],
                        mappings@,
                    ),
            decreases n - i,
        {
            let mut p = clone_port_info(&ports[i]);
            if crate::strutil::contains_str(p.process_name.as_str(), "docker-proxy") {
                match crate::docker::lookup_mapping(mappings, p.port) {
                    Some(name) => {
                        p.container = Some(name.clone());
                    },
                    None => {},
                }
            }
            out.push(p);
            i += 1;
        }
        out
    }
}

/// Enrichment is idempotent: a record already carrying its container name
/// is mapped to itself, so repeating the step changes nothing.
pub proof fn lemma_enrich_idempotent(p: PortInfo, maps: Seq<(u16, String)>)
    ensures
        PortInfo::enrich_one(PortInfo::enrich_one(p, maps), maps) == PortInfo::enrich_one(p, maps),
{
}

// ── Grouping by process ─────────────────────────────────────────────────────

/// `p` has a group.
pub open spec fn pid_grouped(groups: Seq<(u32, Vec<PortInfo>)>, p: u32) -> bool {
    exists|k: int| 0 <= k < groups.len() && (#[trigger] groups[k]).0 == p
}

/// `p` is listed.
pub open spec fn pid_listed(pids: Seq<u32>, p: u32) -> bool {
    exists|k: int| 0 <= k < pids.len() && pids[k] == p
}

fn pids_contain(pids: &Vec<u32>, p: u32) -> (r: bool)
    ensures
        r == pid_listed(pids@, p),
{
    let n = pids.len();
    let mut i: usize = 0;
    while i < n
        invariant
            i <= n,
            n == pids@.len(),
            forall|k: int| 0 <= k < i ==> pids@[k] != p,
        decreases n - i,
    {
        if pids[i] == p {
            return true;
        }
        i += 1;
    }
    false
}

/// Group records by their owning pid: one group per pid, in order of first
/// appearance, each holding exactly that pid's records in input order.
pub fn group_by_pid(ports: &Vec<PortInfo>) -> (r: Vec<(u32, Vec<PortInfo>)>)
    ensures
        forall|k1: int, k2: int|
            0 <= k1 < k2 < r@.len() ==> (#[trigger] r@[k1]).0 != (#[trigger] r@[k2]).0,
        forall|k: int|
            0 <= k < r@.len() ==> (#[trigger] r@[k]).1@ == ports@.filter(
                |p: PortInfo| p.pid == r@[k].0,
            ),
        forall|i: int| 0 <= i < ports@.len() ==> pid_grouped(r@, (#[trigger] ports@[i]).pid),
{
    let n = ports.len();
    // First pass: the distinct pids, in order of first appearance.
    let mut pids: Vec<u32> = Vec::new();
    let mut i: usize = 0;
    while i < n
        invariant
            i <= n,
            n == ports@.len(),
            forall|k1: int, k2: int| 0 <= k1 < k2 < pids@.len() ==> pids@[k1] != pids@[k2],
            forall|j: int| 0 <= j < i ==> pid_listed(pids@, (#[trigger] ports@[j]).pid),
        decreases n - i,
    {
        let pid = ports[i].pid;
        let ghost old_pids = pids@;
        if !pids_contain(&pids, pid) {
            pids.push(pid);
            proof {
                assert forall|j: int| 0 <= j < i + 1 implies pid_listed(
                    pids@,
                    (#[trigger] ports@[j]).pid,
                ) by {
                    if j < i {
                        let k = choose|k: int|
                            0 <= k < old_pids.len() && old_pids[k] == ports@[j].pid;
                        assert(pids@[k] == ports@[j].pid);
                    } else {
                        assert(pids@[pids@.len() - 1] == pid);
                    }
                }
            }
        } else {
            proof {
                assert(pid_listed(pids@, ports@[i as int].pid));
            }
        }
        i += 1;
    }
    // Second pass: one filtered group per pid.
    let m = pids.len();
    let mut r: Vec<(u32, Vec<PortInfo>)> = Vec::new();
    let mut k: usize = 0;
    while k < m
        invariant
            k <= m,
            m == pids@.len(),
            n == ports@.len(),
            r@.len() == k,
            forall|k1: int, k2: int| 0 <= k1 < k2 < pids@.len() ==> pids@[k1] != pids@[k2],
            forall|j: int| 0 <= j < k ==> (#[trigger] r@[j]).0 == pids@[j],
            forall|j: int|
                0 <= j < k ==> (#[trigger] r@[j]).1@ == ports@.filter(
                    |p: PortInfo| p.pid == r@[j].0,
                ),
        decreases m - k,
    {
        let pid = pids[k];
        let ghost pred = |p: PortInfo| p.pid == pids@[k as int];
        let mut grp: Vec<PortInfo> = Vec::new();
        let mut i2: usize = 0;
        proof {
            reveal(Seq::filter);
            assert(ports@.take(0) =~= Seq::<PortInfo>::empty());
        }
        while i2 < n
            invariant
                i2 <= n,
                n == ports@.len(),
                pid == pids@[k as int],
                k < pids@.len(),
                grp@ == ports@.take(i2 as int).filter(pred),
                pred == (|p: PortInfo| p.pid == pids@[k as int]),
            decreases n - i2,
        {
            proof {
                lemma_filter_take_succ(ports@, pred, i2 as int);
            }
            if ports[i2].pid == pid {
                grp.push(clone_port_info(&ports[i2]));
                proof {
                    assert(grp@ =~= ports@.take(i2 + 1).filter(pred));
                }
            } else {
                proof {
                    assert(grp@ =~= ports@.take(i2 + 1).filter(pred));
                }
            }
            i2 += 1;
        }
        proof {
            assert(ports@.take(n as int) =~= ports@);
        }
        r.push((pid, grp));
        k += 1;
    }
    proof {
        assert forall|i3: int| 0 <= i3 < ports@.len() implies pid_grouped(
            r@,
            (#[trigger] ports@[i3]).pid,
        ) by {
            assert(pid_listed(pids@, ports@[i3].pid));
            let kk = choose|kk: int| 0 <= kk < pids@.len() && pids@[kk] == ports@[i3].pid;
            assert((r@[kk]).0 == pids@[kk]);
        }
    }
    r
}

} // verus!
