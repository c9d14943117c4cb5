//! The snapshot-tool strategy: parsing a per-connection listing tool's
//! columnar output into port records.

use vstd::prelude::*;

use crate::scan::{find_char, find_sub, index_of_sub, lines_vec, split_lines, split_ws,
    split_whitespace, after_last, after_last_str};
use crate::strutil::{dec_val, eq_str, strip_plus, valid_dec};
use crate::types::{PortInfo, Protocol};

verus! {

/// Whether a character is alphabetic; the Unicode property, left abstract.
pub uninterp spec fn is_alpha_char(c: char) -> bool;

/// Relies on char::is_alphabetic: a fixed property of the character alone.
#[verifier::external_body]
fn char_is_alphabetic(c: char) -> (r: bool)
    ensures
        r == is_alpha_char(c),
{
    c.is_alphabetic()
}

/// Characters trimmed off the end of a listening-socket name: state markers
/// such as `(LISTEN)` leave parentheses and letters behind the address.
pub open spec fn is_name_trim_char(c: char) -> bool {
    c == ')' || c == '(' || is_alpha_char(c)
}

/// The name with trailing marker characters removed.
pub open spec fn trim_end_marks(s: Seq<char>) -> Seq<char>
    decreases s.len(),
{
    if s.len() > 0 && is_name_trim_char(s.last()) {
        trim_end_marks(s.drop_last())
    } else {
        s
    }
}

fn trim_end_marks_str(s: &str) -> (r: String)
    ensures
        r@ == trim_end_marks(s@),
{
    let cv = crate::strutil::chars_vec(s);
    let n = cv.len();
    let mut b: usize = n;
    proof {
        assert(s@.take(n as int) =~= s@);
    }
    loop
        invariant
            b <= n,
            n == s@.len(),
            cv@ == s@,
            trim_end_marks(s@) == trim_end_marks(s@.take(b as int)),
        ensures
            b <= n,
            trim_end_marks(s@) == trim_end_marks(s@.take(b as int)),
            b == 0 || !is_name_trim_char(s@[b - 1]),
        decreases b,
    {
        if b == 0 {
            break ;
        }
        let c = cv[b - 1];
        let is_paren = c == ')' || c == '(';
        let trimmed = is_paren || char_is_alphabetic(c);
        if !trimmed {
            break ;
        }
        proof {
            assert(s@.take(b as int).last() == s@[b - 1]);
            assert(s@.take(b as int).drop_last() =~= s@.take(b - 1));
        }
        b -= 1;
    }
    proof {
        if b > 0 {
            assert(s@.take(b as int).last() == s@[b - 1]);
        }
        assert(trim_end_marks(s@.take(b as int)) == s@.take(b as int));
    }
    let head = s.substring_char(0, b);
    proof {
        assert(head@ =~= s@.take(b as int));
    }
    String::from_str(head)
}

/// The local port a connection-name column carries: the decimal after the
/// last colon of the part before the arrow — or, with no arrow, of the name
/// with its trailing state markers trimmed.
pub open spec fn extract_port_spec(name: Seq<char>) -> Option<u16> {
    let local = match find_sub(name, "->"@) {
        Some(i) => name.take(i),
        None => trim_end_marks(name),
    };
    let ptok = after_last(local, ':');
    if valid_dec(ptok, u16::MAX as nat) {
        Some(dec_val(strip_plus(ptok)) as u16)
    } else {
        None
    }
}

/// Extract the local port from a connection-name column.
pub fn extract_local_port(name: &str) -> (r: Option<u16>)
    ensures
        r == extract_port_spec(name@),
{
    proof {
        reveal_strlit("->");
    }
    let local = match index_of_sub(name, "->") {
        Some(i) => {
            proof {
                crate::scan::lemma_find_sub_props(name@, "->"@);
            }
            let head = name.substring_char(0, i);
            proof {
                assert(head@ =~= name@.take(i as int));
            }
            String::from_str(head)
        },
        None => trim_end_marks_str(name),
    };
    let ptok = after_last_str(local.as_str(), ':');
    crate::strutil::parse_dec_u16(ptok.as_str())
}

/// The fields of one port record a caller compares: port, protocol, pid,
/// process name, local address, and the optional remote address.
pub open spec fn port_view(p: PortInfo) -> (u16, Protocol, u32, Seq<char>, Seq<char>, Option<
    Seq<char>,
>) {
    (
        p.port,
        p.protocol,
        p.pid,
        p.process_name@,
        p.address@,
        crate::ancestry::opt_string_view(p.remote_address),
    )
}

/// Whether a listing line has the expected shape: at least ten whitespace
/// fields, a decimal pid in the second, `TCP` or `UDP` in the eighth, a
/// colon in the ninth, and a local port that extracts from it.
pub open spec fn lsof_fields_ok(l: Seq<char>) -> bool {
    let toks = split_ws(l);
    &&& toks.len() >= 10
    &&& valid_dec(toks[1], u32::MAX as nat)
    &&& find_char(toks[8], ':') is Some
    &&& (toks[7] == "TCP"@ || toks[7] == "UDP"@)
    &&& extract_port_spec(toks[8]) is Some
}

/// What one listing line yields: the command, pid, protocol and port, and
/// the name column split at its arrow into local and remote addresses — a
/// line without an arrow is a listening socket with no remote address.
pub open spec fn lsof_line_view(l: Seq<char>) -> Option<
    (u16, Protocol, u32, Seq<char>, Seq<char>, Option<Seq<char>>),
> {
    if !lsof_fields_ok(l) {
        None
    } else {
        let toks = split_ws(l);
        let name = toks[8];
        let local = match find_sub(name, "->"@) {
            Some(i) => name.take(i),
            None => name,
        };
        let remote = match find_sub(name, "->"@) {
            Some(i) => Some(name.skip(i + 2)),
            None => None,
        };
        Some(
            (
                extract_port_spec(name)->Some_0,
                if toks[7] == "TCP"@ {
                    Protocol::Tcp
                } else {
                    Protocol::Udp
                },
                dec_val(strip_plus(toks[1])) as u32,
                toks[0],
                local,
                remote,
            ),
        )
    }
}

/// Parse one listing line into a port record.
pub fn parse_lsof_line(line: &str) -> (r: Option<PortInfo>)
    ensures
        r is Some <==> lsof_line_view(line@) is Some,
        r matches Some(p) ==> lsof_line_view(line@) == Some(port_view(p)) && p.container is None
            && p.service_name is None,
{
    proof {
        reveal_strlit("->");
    }
    let parts = split_whitespace(line);
    if parts.len() < 10 {
        return None;
    }
    proof {
        assert(parts.deep_view()[0] == parts@[0]@);
        assert(parts.deep_view()[1] == parts@[1]@);
        assert(parts.deep_view()[7] == parts@[7]@);
        assert(parts.deep_view()[8] == parts@[8]@);
    }
    let command = parts[0].clone();
    let pid = match crate::strutil::parse_dec_u32(parts[1].as_str()) {
        Some(p) => p,
        None => { return None },
    };
    let name = parts[8].as_str();
    if crate::scan::index_of_char(name, ':').is_none() {
        return None;
    }
    let protocol = if eq_str(parts[7].as_str(), "TCP") {
        Protocol::Tcp
    } else if eq_str(parts[7].as_str(), "UDP") {
        Protocol::Udp
    } else {
        return None;
    };
    let port = match extract_local_port(name) {
        Some(p) => p,
        None => { return None },
    };
    let (address, remote_address) = match index_of_sub(name, "->") {
        Some(i) => {
            proof {
                crate::scan::lemma_find_sub_props(name@, "->"@);
            }
            let nn = name.unicode_len();
            let local = name.substring_char(0, i);
            let remote = name.substring_char(i + 2, nn);
            proof {
                assert(local@ =~= name@.take(i as int));
                assert(remote@ =~= name@.skip(i + 2));
            }
            (String::from_str(local), Some(String::from_str(remote)))
        },
        None => (String::from_str(name), None),
    };
    Some(
        PortInfo {
            port,
            protocol,
            pid,
            process_name: command,
            address,
            remote_address,
            container: None,
            service_name: None,
        },
    )
}

/// The working directory a per-process listing names: the first line whose
/// name-field marker prefixes a non-empty path.
pub open spec fn first_cwd(lines: Seq<Seq<char>>) -> Option<Seq<char>>
    decreases lines.len(),
{
    if lines.len() == 0 {
        None
    } else if lines[0].len() >= 2 && lines[0][0] == 'n' {
        Some(lines[0].skip(1))
    } else {
        first_cwd(lines.drop_first())
    }
}

/// Read the working directory out of the listing tool's per-process output:
/// the first `n`-prefixed line with a non-empty path.
pub fn cwd_from_listing(output: &str) -> (r: Option<String>)
    ensures
        match r {
            Some(c) => first_cwd(split_lines(output@)) == Some(c@),
            None => first_cwd(split_lines(output@)) is None,
        },
{
    let lines = lines_vec(output);
    let ghost ls = split_lines(output@);
    let n = lines.len();
    let mut i: usize = 0;
    proof {
        assert(ls.skip(0) =~= ls);
    }
    while i < n
        invariant
            i <= n,
            n == lines@.len(),
            lines.deep_view() == ls,
            ls == split_lines(output@),
            first_cwd(ls) == first_cwd(ls.skip(i as int)),
        decreases n - i,
    {
        proof {
            assert(ls.skip(i as int)[0] == ls[i as int]);
            assert(ls.skip(i as int).drop_first() =~= ls.skip(i + 1));
        }
        let line = lines[i].as_str();
        let ln = line.unicode_len();
        if ln >= 2 && line.get_char(0) == 'n' {
            let path = line.substring_char(1, ln);
            proof {
                assert(path@ =~= ls[i as int].skip(1));
            }
            return Some(String::from_str(path));
        }
        i += 1;
    }
    proof {
        assert(ls.skip(n as int) =~= Seq::<Seq<char>>::empty());
    }
    None
}

/// A line that contributes to the connection listing: it parses, and it
/// carries a remote address — the listing keeps established connections
/// only.
pub open spec fn lsof_entry_spec(l: Seq<char>) -> Option<
    (u16, Protocol, u32, Seq<char>, Seq<char>, Option<Seq<char>>),
> {
    match lsof_line_view(l) {
        Some(t) => if t.5 is Some {
            Some(t)
        } else {
            None
        },
        None => None,
    }
}

/// Parse whole listing-tool output: skip the header line, keep every line
/// that parses and names a remote endpoint.
pub fn parse_lsof_output(output: &str) -> (r: Vec<PortInfo>)
    ensures
        ({
            let ls = split_lines(output@);
            let data = if ls.len() == 0 {
                ls
            } else {
                ls.drop_first()
            };
            r@.map_values(|p: PortInfo| port_view(p)) == data.filter_map(
                |l: Seq<char>| lsof_entry_spec(l),
            )
        }),
        forall|k: int|
            0 <= k < r@.len() ==> (#[trigger] r@[k]).container is None && r@[k].service_name
                is None,
{
    let f = Ghost(|l: Seq<char>| lsof_entry_spec(l));
    let lines = lines_vec(output);
    let n = lines.len();
    let mut out: Vec<PortInfo> = Vec::new();
    let ghost data = if lines.deep_view().len() == 0 {
        lines.deep_view()
    } else {
        lines.deep_view().drop_first()
    };
    if n == 0 {
        proof {
            assert(out@.map_values(|p: PortInfo| port_view(p)) =~~= data.filter_map(f@));
        }
        return out;
    }
    let mut i: usize = 1;
    proof {
        assert(data.take(0) =~= Seq::<Seq<char>>::empty());
        assert(out@.map_values(|p: PortInfo| port_view(p)) =~~= data.take(0).filter_map(f@));
    }
    while i < n
        invariant
            1 <= i <= n,
            n == lines@.len(),
            n >= 1,
            lines.deep_view() == split_lines(output@),
            data == lines.deep_view().drop_first(),
            out@.map_values(|p: PortInfo| port_view(p)) == data.take(i - 1).filter_map(f@),
            f@ == (|l: Seq<char>| lsof_entry_spec(l)),
            forall|k: int|
                0 <= k < out@.len() ==> (#[trigger] out@[k]).container is None
                    && out@[k].service_name is None,
        decreases n - i,
    {
        proof {
            assert(data[i - 1] == lines.deep_view()[i as int]);
            data.lemma_filter_map_take_succ(f@, i - 1);
        }
        let ghost oldm = out@.map_values(|p: PortInfo| port_view(p));
        match parse_lsof_line(lines[i].as_str()) {
            Some(p) => {
                if p.remote_address.is_some() {
                    out.push(p);
                    proof {
                        assert(out@.map_values(|p2: PortInfo| port_view(p2)) =~~= oldm.push(
                            port_view(out@.last()),
                        ));
                        assert(out@.map_values(|p2: PortInfo| port_view(p2)) =~~= data.take(
                            i as int,
                        ).filter_map(f@));
                    }
                } else {
                    proof {
                        assert(out@.map_values(|p2: PortInfo| port_view(p2)) =~~= data.take(
                            i as int,
                        ).filter_map(f@));
                    }
                }
            },
            None => {
                proof {
                    assert(out@.map_values(|p2: PortInfo| port_view(p2)) =~~= data.take(
                        i as int,
                    ).filter_map(f@));
                }
            },
        }
        i += 1;
    }
    proof {
        assert(data.take(n - 1) =~= data);
    }
    out
}

} // verus!
