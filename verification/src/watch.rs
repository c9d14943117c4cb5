//! The watch feature's options and its listing filter. The refresh loop
//! itself, with its clearing and sleeping, lives with the caller.

use vstd::prelude::*;

use crate::strutil::{lower_of, str_contains};
use crate::types::{
    clone_port_info, lemma_filter_take_succ, port_of_query, query_is_port, PortInfo,
    ProtocolFilter, SortField,
};

verus! {

/// Options of one watch session.
#[derive(Debug, Clone)]
pub struct WatchOptions {
    pub interval_ms: u64,
    pub json: bool,
    pub filter: Option<String>,
    pub connections: bool,
    pub sort: Option<SortField>,
    pub protocol: Option<ProtocolFilter>,
    pub use_regex: bool,
}

/// Whether a watch filter keeps a record: a numeric query matches the port,
/// any other the lowercased process name.
pub open spec fn watch_pred(q: Seq<char>, p: PortInfo) -> bool {
    if query_is_port(q) {
        p.port == port_of_query(q)
    } else {
        str_contains(lower_of(p.process_name@), lower_of(q))
    }
}

/// Filter a listing by the watch query: a port number keeps only that port,
/// any other text keeps records whose lowercased process name contains it;
/// no query keeps everything.
pub fn filter_ports(ports: Vec<PortInfo>, filter: &Option<String>) -> (r: Vec<PortInfo>)
    ensures
        match filter {
            None => r@ == ports@,
            Some(q) => r@ == ports@.filter(|p: PortInfo| watch_pred(q@, p)),
        },
{
    let q = match filter {
        Some(q) => q,
        None => { return ports },
    };
    let ghost pred = |p: PortInfo| watch_pred(q@, p);
    let n = ports.len();
    let mut out: Vec<PortInfo> = Vec::new();
    let port_num = crate::strutil::parse_dec_u16(q.as_str());
    let query_lower = crate::strutil::to_lowercase(q.as_str());
    let mut i: usize = 0;
    proof {
        reveal(Seq::filter);
        assert(ports@.take(0) =~= Seq::<PortInfo>::empty());
    }
    while i < n
        invariant
            i <= n,
            n == ports@.len(),
            match port_num {
                Some(v) => query_is_port(q@) && v == port_of_query(q@),
                None => !query_is_port(q@),
            },
            query_lower@ == lower_of(q@),
            out@ == ports@.take(i as int).filter(pred),
            pred == (|p: PortInfo| watch_pred(q@, p)),
        decreases n - i,
    {
        proof {
            lemma_filter_take_succ(ports@, pred, i as int);
        }
        let keep = match port_num {
            Some(v) => ports[i].port == v,
            None => {
                let name_lower = crate::strutil::to_lowercase(ports[i].process_name.as_str());
                crate::strutil::contains_str(name_lower.as_str(), query_lower.as_str())
            },
        };
        if keep {
            out.push(clone_port_info(&ports[i]));
            proof {
                assert(out@ =~= ports@.take(i + 1).filter(pred));
            }
        } else {
            proof {
                assert(out@ =~= ports@.take(i + 1).filter(pred));
            }
        }
        i += 1;
    }
    proof {
        assert(ports@.take(n as int) =~= ports@);
    }
    out
}

} // verus!
