//! Types for the port-usage history feature, and the byte-count formatter
//! its statistics display uses. The on-disk store itself lives with the
//! callers; these are the shapes they exchange.

use vstd::prelude::*;

use crate::strutil::{dec_str, u64_to_string};

verus! {

/// One history subcommand, with its options.
#[derive(Debug, Clone)]
pub enum HistoryAction {
    Record { connections: bool },
    Show { port: Option<u16>, process: Option<String>, hours: i64, limit: usize },
    Timeline { port: u16, hours: i64 },
    Stats,
    Clean { keep: i64 },
    Diff { ago: usize },
}

/// Query options for reading history back.
#[derive(Debug, Clone)]
pub struct HistoryQuery {
    pub port: Option<u16>,
    pub process: Option<String>,
    pub hours: Option<i64>,
    pub limit: usize,
}

impl Default for HistoryQuery {
    /// The default query: the last day, at most a hundred entries.
    fn default() -> (r: Self)
        ensures
            r.port is None,
            r.process is None,
            r.hours == Some(24int as i64),
            r.limit == 100,
    {
        HistoryQuery { port: None, process: None, hours: Some(24), limit: 100 }
    }
}

/// What a cleanup pass removed.
#[derive(Debug, Clone, Copy, PartialEq, Eq, Structural)]
pub struct CleanupResult {
    pub snapshots_deleted: usize,
    pub entries_deleted: usize,
}

/// Action for a diff entry: the port appeared, or disappeared.
#[derive(Debug, Clone, Copy, PartialEq, Eq, Structural)]
pub enum DiffAction {
    Appeared,
    Disappeared,
}

/// A port that changed between two snapshots.
#[derive(Debug, Clone)]
pub struct DiffEntry {
    pub port: u16,
    pub protocol: String,
    pub process_name: String,
    pub action: DiffAction,
}

/// A byte count scaled to tenths of the given unit, rounded to nearest with
/// ties to even.
pub open spec fn scaled_tenths(bytes: nat, unit: nat) -> nat
    recommends
        unit > 0,
{
    let q = bytes * 10 / unit;
    let rem = bytes * 10 % unit;
    if 2 * rem > unit {
        q + 1
    } else if 2 * rem == unit && q % 2 == 1 {
        q + 1
    } else {
        q
    }
}

/// The display form of a byte count: mebibytes or kibibytes to one decimal
/// place, plain bytes below a kibibyte.
pub open spec fn format_bytes_spec(bytes: nat) -> Seq<char> {
    if bytes >= 0x100000 {
        let t = scaled_tenths(bytes, 0x100000);
        dec_str(t / 10) + seq!['.'] + dec_str(t % 10) + " MB"@
    } else if bytes >= 0x400 {
        let t = scaled_tenths(bytes, 0x400);
        dec_str(t / 10) + seq!['.'] + dec_str(t % 10) + " KB"@
    } else {
        dec_str(bytes) + " B"@
    }
}

/// Tenths of `bytes / unit`, rounded to nearest, ties to even.
fn tenths_of(bytes: u64, unit: u64) -> (t: u64)
    requires
        unit >= 1024,
    ensures
        t == scaled_tenths(bytes as nat, unit as nat),
        t <= (bytes as nat) * 10 / (unit as nat) + 1,
{
    let num: u128 = (bytes as u128) * 10;
    let q: u128 = num / (unit as u128);
    let rem: u128 = num % (unit as u128);
    proof {
        assert(q * (unit as u128) + rem == num) by (nonlinear_arith)
            requires
                unit >= 1024,
                q == num / (unit as u128),
                rem == num % (unit as u128),
        ;
        assert(q <= num / 1024) by (nonlinear_arith)
            requires
                unit >= 1024,
                num >= 0,
                q == num / (unit as u128),
        ;
    }
    let t: u128 = if 2 * rem > (unit as u128) {
        q + 1
    } else if 2 * rem == (unit as u128) && q % 2 == 1 {
        q + 1
    } else {
        q
    };
    t as u64
}

/// Format a byte count for display.
pub fn format_bytes(bytes: u64) -> (r: String)
    ensures
        r@ == format_bytes_spec(bytes as nat),
{
    proof {
        reveal_strlit(".");
        reveal_strlit(" MB");
        reveal_strlit(" KB");
        reveal_strlit(" B");
    }
    if bytes >= 0x100000 {
        let t = tenths_of(bytes, 0x100000);
        let mut r = u64_to_string(t / 10);
        r.append(".");
        let frac = u64_to_string(t % 10);
        r.append(frac.as_str());
        r.append(" MB");
        proof {
            assert(r@ =~= format_bytes_spec(bytes as nat));
        }
        r
    } else if bytes >= 0x400 {
        let t = tenths_of(bytes, 0x400);
        let mut r = u64_to_string(t / 10);
        r.append(".");
        let frac = u64_to_string(t % 10);
        r.append(frac.as_str());
        r.append(" KB");
        proof {
            assert(r@ =~= format_bytes_spec(bytes as nat));
        }
        r
    } else {
        let mut r = u64_to_string(bytes);
        r.append(" B");
        proof {
            assert(r@ =~= format_bytes_spec(bytes as nat));
        }
        r
    }
}

} // verus!
