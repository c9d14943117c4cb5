//! The direct kernel-table strategy: joining parsed socket rows to the
//! owning processes through the inode map, producing canonical port
//! records, and filling in well-known service names.

use vstd::prelude::*;

use crate::lsof::port_view;
use crate::net::{
    endpoint_string, is_remote_zero, is_remote_zero_spec, proc_net_spec, should_include,
    should_include_spec, FilterMode, RawSocket,
};
use crate::types::{well_known_service, PortInfo, Protocol};

verus! {

/// A process that owns sockets: its pid and display name.
#[derive(Debug, Clone)]
pub struct ProcessInfo {
    pub pid: u32,
    pub name: String,
}

/// Index of the last map entry for an inode — enumeration order makes the
/// later entry authoritative.
pub open spec fn find_inode(map: Seq<(u64, ProcessInfo)>, ino: u64) -> Option<int>
    decreases map.len(),
{
    if map.len() == 0 {
        None
    } else if map.last().0 == ino {
        Some(map.len() - 1)
    } else {
        find_inode(map.drop_last(), ino)
    }
}

proof fn lemma_find_inode_is(map: Seq<(u64, ProcessInfo)>, ino: u64, i: int)
    requires
        0 <= i < map.len(),
        map[i].0 == ino,
        forall|k: int| i < k < map.len() ==> (#[trigger] map[k]).0 != ino,
    ensures
        find_inode(map, ino) == Some(i),
    decreases map.len(),
{
    if i < map.len() - 1 {
        lemma_find_inode_is(map.drop_last(), ino, i);
    }
}

proof fn lemma_find_inode_none(map: Seq<(u64, ProcessInfo)>, ino: u64)
    requires
        forall|k: int| 0 <= k < map.len() ==> (#[trigger] map[k]).0 != ino,
    ensures
        find_inode(map, ino) is None,
    decreases map.len(),
{
    if map.len() > 0 {
        lemma_find_inode_none(map.drop_last(), ino);
    }
}

/// Look an inode up in the map; the latest entry wins.
pub fn lookup_inode(map: &Vec<(u64, ProcessInfo)>, ino: u64) -> (r: Option<(u32, String)>)
    ensures
        match find_inode(map@, ino) {
            Some(j) => r matches Some(p) && p.0 == map@[j].1.pid && p.1@ == map@[j].1.name@,
            None => r is None,
        },
{
    let n = map.len();
    let mut i: usize = n;
    while i > 0
        invariant
            i <= n,
            n == map@.len(),
            forall|k: int| i <= k < n ==> (#[trigger] map@[k]).0 != ino,
        decreases i,
    {
        i -= 1;
        if map[i].0 == ino {
            proof {
                lemma_find_inode_is(map@, ino, i as int);
            }
            return Some((map[i].1.pid, map[i].1.name.clone()));
        }
    }
    proof {
        lemma_find_inode_none(map@, ino);
    }
    None
}

/// What one socket row contributes to a listing: nothing unless the filter
/// keeps it and its inode resolves to a process; otherwise a record with the
/// owning process, the rendered local endpoint, and — exactly when the
/// remote endpoint is not the wildcard — the rendered remote endpoint.
pub open spec fn sock_entry_spec(
    s: RawSocket,
    protocol: Protocol,
    mode: FilterMode,
    map: Seq<(u64, ProcessInfo)>,
) -> Option<(u16, Protocol, u32, Seq<char>, Seq<char>, Option<Seq<char>>)> {
    if !should_include_spec(s, mode, protocol is Udp) {
        None
    } else {
        match find_inode(map, s.inode) {
            None => None,
            Some(j) => Some(
                (
                    s.local_port,
                    protocol,
                    map[j].1.pid,
                    map[j].1.name@,
                    endpoint_string(s.local_addr, s.local_port),
                    if is_remote_zero_spec(s) {
                        None
                    } else {
                        Some(endpoint_string(s.remote_addr, s.remote_port))
                    },
                ),
            ),
        }
    }
}

/// The records one kernel table contributes under a filter.
pub open spec fn table_ports_spec(
    content: Seq<char>,
    protocol: Protocol,
    mode: FilterMode,
    map: Seq<(u64, ProcessInfo)>,
) -> Seq<(u16, Protocol, u32, Seq<char>, Seq<char>, Option<Seq<char>>)> {
    proc_net_spec(content).filter_map(|s: RawSocket| sock_entry_spec(s, protocol, mode, map))
}

/// Build port records from one kernel socket table: parse it, keep the rows
/// the filter asks for, and resolve each kept row's owner through the inode
/// map — a row whose owner cannot be found is dropped, as partial results
/// are expected.
pub fn ports_from_table(
    content: &str,
    protocol: Protocol,
    mode: FilterMode,
    map: &Vec<(u64, ProcessInfo)>,
) -> (r: Vec<PortInfo>)
    ensures
        r@.map_values(|p: PortInfo| port_view(p)) == table_ports_spec(
            content@,
            protocol,
            mode,
            map@,
        ),
        forall|k: int|
            0 <= k < r@.len() ==> (#[trigger] r@[k]).container is None && r@[k].service_name
                is None,
{
    let f = Ghost(|s: RawSocket| sock_entry_spec(s, protocol, mode, map@));
    let sockets = crate::net::parse_proc_net_file(content);
    let n = sockets.len();
    let mut out: Vec<PortInfo> = Vec::new();
    let mut i: usize = 0;
    proof {
        assert(sockets@.take(0) =~= Seq::<RawSocket>::empty());
        assert(out@.map_values(|p: PortInfo| port_view(p)) =~~= sockets@.take(0).filter_map(f@));
    }
    while i < n
        invariant
            i <= n,
            n == sockets@.len(),
            sockets@ == proc_net_spec(content@),
            out@.map_values(|p: PortInfo| port_view(p)) == sockets@.take(i as int).filter_map(f@),
            f@ == (|s: RawSocket| sock_entry_spec(s, protocol, mode, map@)),
            forall|k: int|
                0 <= k < out@.len() ==> (#[trigger] out@[k]).container is None
                    && out@[k].service_name is None,
        decreases n - i,
    {
        proof {
            sockets@.lemma_filter_map_take_succ(f@, i as int);
        }
        let ghost oldm = out@.map_values(|p: PortInfo| port_view(p));
        let sock = &sockets[i];
        if should_include(sock, mode, matches!(protocol, Protocol::Udp)) {
            match lookup_inode(map, sock.inode) {
                Some((pid, name)) => {
                    let address = crate::net::format_endpoint(&sock.local_addr, sock.local_port);
                    let remote_address = if is_remote_zero(sock) {
                        None
                    } else {
                        Some(crate::net::format_endpoint(&sock.remote_addr, sock.remote_port))
                    };
                    out.push(
                        PortInfo {
                            port: sock.local_port,
                            protocol,
                            pid,
                            process_name: name,
                            address,
                            remote_address,
                            container: None,
                            service_name: None,
                        },
                    );
                    proof {
                        assert(out@.map_values(|p2: PortInfo| port_view(p2)) =~~= oldm.push(
                            port_view(out@.last()),
                        ));
                        assert(out@.map_values(|p2: PortInfo| port_view(p2)) =~~= sockets@.take(
                            i + 1,
                        ).filter_map(f@));
                    }
                },
                None => {
                    proof {
                        assert(out@.map_values(|p2: PortInfo| port_view(p2)) =~~= sockets@.take(
                            i + 1,
                        ).filter_map(f@));
                    }
                },
            }
        } else {
            proof {
                assert(out@.map_values(|p2: PortInfo| port_view(p2)) =~~= sockets@.take(
                    i + 1,
                ).filter_map(f@));
            }
        }
        i += 1;
    }
    proof {
        assert(sockets@.take(n as int) =~= sockets@);
    }
    out
}

/// The records all four kernel tables contribute: IPv4 and IPv6 TCP, then
/// IPv4 and IPv6 UDP; a missing table contributes nothing, so one unreadable
/// file does not abort the enumeration of the others.
pub open spec fn all_tables_spec(
    tcp: Option<Seq<char>>,
    tcp6: Option<Seq<char>>,
    udp: Option<Seq<char>>,
    udp6: Option<Seq<char>>,
    mode: FilterMode,
    map: Seq<(u64, ProcessInfo)>,
) -> Seq<(u16, Protocol, u32, Seq<char>, Seq<char>, Option<Seq<char>>)> {
    let e: Seq<(u16, Protocol, u32, Seq<char>, Seq<char>, Option<Seq<char>>)> = Seq::empty();
    (match tcp {
        Some(c) => table_ports_spec(c, Protocol::Tcp, mode, map),
        None => e,
    }) + (match tcp6 {
        Some(c) => table_ports_spec(c, Protocol::Tcp, mode, map),
        None => e,
    }) + (match udp {
        Some(c) => table_ports_spec(c, Protocol::Udp, mode, map),
        None => e,
    }) + (match udp6 {
        Some(c) => table_ports_spec(c, Protocol::Udp, mode, map),
        None => e,
    })
}

/// Build the full port listing from the four kernel tables' contents, as
/// far as they could be read, joined to processes through the inode map.
pub fn get_ports(
    tcp: Option<&str>,
    tcp6: Option<&str>,
    udp: Option<&str>,
    udp6: Option<&str>,
    mode: FilterMode,
    map: &Vec<(u64, ProcessInfo)>,
) -> (r: Vec<PortInfo>)
    ensures
        r@.map_values(|p: PortInfo| port_view(p)) == all_tables_spec(
            crate::source::opt_str_view(tcp),
            crate::source::opt_str_view(tcp6),
            crate::source::opt_str_view(udp),
            crate::source::opt_str_view(udp6),
            mode,
            map@,
        ),
        forall|k: int|
            0 <= k < r@.len() ==> (#[trigger] r@[k]).container is None && r@[k].service_name
                is None,
{
    let mut out: Vec<PortInfo> = Vec::new();
    let mut part1 = match tcp {
        Some(c) => ports_from_table(c, Protocol::Tcp, mode, map),
        None => Vec::new(),
    };
    let mut part2 = match tcp6 {
        Some(c) => ports_from_table(c, Protocol::Tcp, mode, map),
        None => Vec::new(),
    };
    let mut part3 = match udp {
        Some(c) => ports_from_table(c, Protocol::Udp, mode, map),
        None => Vec::new(),
    };
    let mut part4 = match udp6 {
        Some(c) => ports_from_table(c, Protocol::Udp, mode, map),
        None => Vec::new(),
    };
    out.append(&mut part1);
    out.append(&mut part2);
    out.append(&mut part3);
    out.append(&mut part4);
    proof {
        assert(out@.map_values(|p: PortInfo| port_view(p)) =~~= all_tables_spec(
            crate::source::opt_str_view(tcp),
            crate::source::opt_str_view(tcp6),
            crate::source::opt_str_view(udp),
            crate::source::opt_str_view(udp6),
            mode,
            map@,
        ));
    }
    out
}

/// The listing of listening sockets, from the four kernel tables' contents.
pub fn get_listening_ports(
    tcp: Option<&str>,
    tcp6: Option<&str>,
    udp: Option<&str>,
    udp6: Option<&str>,
    map: &Vec<(u64, ProcessInfo)>,
) -> (r: Vec<PortInfo>)
    ensures
        r@.map_values(|p: PortInfo| port_view(p)) == all_tables_spec(
            crate::source::opt_str_view(tcp),
            crate::source::opt_str_view(tcp6),
            crate::source::opt_str_view(udp),
            crate::source::opt_str_view(udp6),
            FilterMode::Listening,
            map@,
        ),
{
    get_ports(tcp, tcp6, udp, udp6, FilterMode::Listening, map)
}

/// The listing of established connections, from the same tables.
pub fn get_connections(
    tcp: Option<&str>,
    tcp6: Option<&str>,
    udp: Option<&str>,
    udp6: Option<&str>,
    map: &Vec<(u64, ProcessInfo)>,
) -> (r: Vec<PortInfo>)
    ensures
        r@.map_values(|p: PortInfo| port_view(p)) == all_tables_spec(
            crate::source::opt_str_view(tcp),
            crate::source::opt_str_view(tcp6),
            crate::source::opt_str_view(udp),
            crate::source::opt_str_view(udp6),
            FilterMode::Established,
            map@,
        ),
{
    get_ports(tcp, tcp6, udp, udp6, FilterMode::Established, map)
}

/// Fill in the well-known service name of every record, leaving all other
/// fields as they were.
pub fn resolve_services(ports: Vec<PortInfo>) -> (r: Vec<PortInfo>)
    ensures
        r@.len() == ports@.len(),
        forall|i: int|
            0 <= i < r@.len() ==> {
                let p = #[trigger] ports@[i];
                let q = r@[i];
                &&& q.port == p.port
                &&& q.protocol == p.protocol
                &&& q.pid == p.pid
                &&& q.process_name == p.process_name
                &&& q.address == p.address
                &&& q.remote_address == p.remote_address
                &&& q.container == p.container
                &&& crate::ancestry::opt_string_view(q.service_name) == well_known_service(p.port)
            },
{
    let n = ports.len();
    let mut out: Vec<PortInfo> = Vec::new();
    let mut i: usize = 0;
    while i < n
        invariant
            i <= n,
            n == ports@.len(),
            out@.len() == i,
            forall|k: int|
                0 <= k < i ==> {
                    let p = #[trigger] ports@[k];
                    let q = out@[k];
                    &&& q.port == p.port
                    &&& q.protocol == p.protocol
                    &&& q.pid == p.pid
                    &&& q.process_name == p.process_name
                    &&& q.address == p.address
                    &&& q.remote_address == p.remote_address
                    &&& q.container == p.container
                    &&& crate::ancestry::opt_string_view(q.service_name) == well_known_service(
                        p.port,
                    )
                },
        decreases n - i,
    {
        let mut p = crate::types::clone_port_info(&ports[i]);
        p.resolve_service_name();
        out.push(p);
        i += 1;
    }
    out
}

} // verus!
