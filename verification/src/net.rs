//! Kernel socket-table parsing: hex-encoded addresses and ports, socket
//! state codes, whole table lines, and the listening/established filter.
//!
//! The kernel writes IPv4 addresses as eight hex digits holding one 32-bit
//! word in little-endian byte order, and IPv6 addresses as four such words;
//! ports as big-endian 16-bit hex. These decoders follow that layout exactly.

use vstd::prelude::*;

use crate::scan::{find_char, index_of_char, lines_vec, split_lines, split_whitespace, split_ws};
use crate::strutil::{
    dec_str, dec_val, hex_pad, hex_val, lemma_hex_pad_val, parse_dec_u64, parse_hex_u32, pow16,
    strip_plus, valid_dec, valid_hex,
};

verus! {

// ── Addresses ───────────────────────────────────────────────────────────────

/// A structured IP address: four octets, or eight 16-bit segments.
#[derive(Debug, Clone, Copy, PartialEq, Eq, Structural)]
pub enum IpAddress {
    V4(u8, u8, u8, u8),
    V6(u16, u16, u16, u16, u16, u16, u16, u16),
}

impl IpAddress {
    /// The address every bit of which is zero, for its family.
    pub open spec fn is_unspecified(self) -> bool {
        match self {
            IpAddress::V4(a, b, c, d) => a == 0 && b == 0 && c == 0 && d == 0,
            IpAddress::V6(s0, s1, s2, s3, s4, s5, s6, s7) => s0 == 0 && s1 == 0 && s2 == 0 && s3
                == 0 && s4 == 0 && s5 == 0 && s6 == 0 && s7 == 0,
        }
    }
}

/// The IPv4 address held by one little-endian 32-bit word.
pub open spec fn v4_from_u32(n: u32) -> IpAddress {
    IpAddress::V4(
        (n % 0x100) as u8,
        ((n / 0x100) % 0x100) as u8,
        ((n / 0x10000) % 0x100) as u8,
        ((n / 0x1000000) % 0x100) as u8,
    )
}

/// High 16-bit segment of one little-endian word: its first two bytes.
pub open spec fn v6_seg_hi(w: u32) -> u16 {
    ((w % 0x100) * 0x100 + (w / 0x100) % 0x100) as u16
}

/// Low 16-bit segment of one little-endian word: its last two bytes.
pub open spec fn v6_seg_lo(w: u32) -> u16 {
    (((w / 0x10000) % 0x100) * 0x100 + (w / 0x1000000) % 0x100) as u16
}

/// The hex value of a numeral already known to be valid.
pub open spec fn hex_u32_of(s: Seq<char>) -> u32
    recommends
        valid_hex(s, u32::MAX as nat),
{
    hex_val(strip_plus(s)) as u32
}

/// What decoding a token as an eight-hex-digit IPv4 word yields.
pub open spec fn v4_spec(s: Seq<char>) -> Option<IpAddress> {
    if valid_hex(s, u32::MAX as nat) {
        Some(v4_from_u32(hex_u32_of(s)))
    } else {
        None
    }
}

pub open spec fn v6_hex_ok(s: Seq<char>) -> bool {
    s.len() == 32 && valid_hex(s.subrange(0, 8), u32::MAX as nat) && valid_hex(
        s.subrange(8, 16),
        u32::MAX as nat,
    ) && valid_hex(s.subrange(16, 24), u32::MAX as nat) && valid_hex(
        s.subrange(24, 32),
        u32::MAX as nat,
    )
}

/// The IPv6 address held by four little-endian 32-bit words.
pub open spec fn v6_from_words(w0: u32, w1: u32, w2: u32, w3: u32) -> IpAddress {
    IpAddress::V6(
        v6_seg_hi(w0),
        v6_seg_lo(w0),
        v6_seg_hi(w1),
        v6_seg_lo(w1),
        v6_seg_hi(w2),
        v6_seg_lo(w2),
        v6_seg_hi(w3),
        v6_seg_lo(w3),
    )
}

/// What decoding a token as a 32-hex-digit IPv6 address yields.
pub open spec fn v6_spec(s: Seq<char>) -> Option<IpAddress> {
    if v6_hex_ok(s) {
        Some(
            v6_from_words(
                hex_u32_of(s.subrange(0, 8)),
                hex_u32_of(s.subrange(8, 16)),
                hex_u32_of(s.subrange(16, 24)),
                hex_u32_of(s.subrange(24, 32)),
            ),
        )
    } else {
        None
    }
}

/// What decoding a token of either address width yields: eight hex digits
/// make an IPv4 address, thirty-two an IPv6 address.
pub open spec fn addr_any_spec(s: Seq<char>) -> Option<IpAddress> {
    if s.len() == 8 {
        v4_spec(s)
    } else if s.len() == 32 {
        v6_spec(s)
    } else {
        None
    }
}

/// Decode an eight-hex-digit kernel token as an IPv4 address
/// (little-endian word order).
pub fn parse_hex_addr(hex: &str) -> (r: Option<IpAddress>)
    ensures
        r == v4_spec(hex@),
{
    match parse_hex_u32(hex) {
        Some(n) => Some(
            IpAddress::V4(
                (n % 0x100) as u8,
                ((n / 0x100) % 0x100) as u8,
                ((n / 0x10000) % 0x100) as u8,
                ((n / 0x1000000) % 0x100) as u8,
            ),
        ),
        None => None,
    }
}

/// Decode one eight-hex-digit group of an IPv6 token.
fn parse_v6_word(hex: &str, start: usize) -> (r: Option<u32>)
    requires
        start + 8 <= hex@.len(),
        hex@.len() <= usize::MAX,
    ensures
        r is Some <==> valid_hex(hex@.subrange(start as int, start + 8), u32::MAX as nat),
        r matches Some(w) ==> w == hex_u32_of(hex@.subrange(start as int, start + 8)),
{
    let g = hex.substring_char(start, start + 8);
    parse_hex_u32(g)
}

/// Decode a 32-hex-digit kernel token as an IPv6 address: four 32-bit
/// little-endian words yield sixteen address bytes.
pub fn parse_hex_addr_v6(hex: &str) -> (r: Option<IpAddress>)
    ensures
        r == v6_spec(hex@),
{
    let n = hex.unicode_len();
    if n != 32 {
        return None;
    }
    let w0 = match parse_v6_word(hex, 0) {
        Some(w) => w,
        None => { return None },
    };
    let w1 = match parse_v6_word(hex, 8) {
        Some(w) => w,
        None => { return None },
    };
    let w2 = match parse_v6_word(hex, 16) {
        Some(w) => w,
        None => { return None },
    };
    let w3 = match parse_v6_word(hex, 24) {
        Some(w) => w,
        None => { return None },
    };
    Some(
        IpAddress::V6(
            seg_hi(w0),
            seg_lo(w0),
            seg_hi(w1),
            seg_lo(w1),
            seg_hi(w2),
            seg_lo(w2),
            seg_hi(w3),
            seg_lo(w3),
        ),
    )
}

fn seg_hi(w: u32) -> (r: u16)
    ensures
        r == v6_seg_hi(w),
{
    ((w % 0x100) * 0x100 + (w / 0x100) % 0x100) as u16
}

fn seg_lo(w: u32) -> (r: u16)
    ensures
        r == v6_seg_lo(w),
{
    (((w / 0x10000) % 0x100) * 0x100 + (w / 0x1000000) % 0x100) as u16
}

/// Decode a kernel address token of either width.
pub fn parse_hex_addr_any(hex: &str) -> (r: Option<IpAddress>)
    ensures
        r == addr_any_spec(hex@),
{
    let n = hex.unicode_len();
    if n == 8 {
        parse_hex_addr(hex)
    } else if n == 32 {
        parse_hex_addr_v6(hex)
    } else {
        None
    }
}

/// What decoding a big-endian 16-bit hex port yields.
pub open spec fn port_spec(s: Seq<char>) -> Option<u16> {
    if valid_hex(s, u16::MAX as nat) {
        Some((hex_val(strip_plus(s)) as u16))
    } else {
        None
    }
}

/// Decode a four-hex-digit port, parsed directly as big-endian 16-bit.
pub fn parse_hex_port(hex: &str) -> (r: Option<u16>)
    ensures
        r == port_spec(hex@),
{
    crate::strutil::parse_hex_u16(hex)
}

// ── Re-encoding: the round trip ─────────────────────────────────────────────

/// The little-endian 32-bit word that encodes an IPv4 address.
pub open spec fn v4_word(ip: IpAddress) -> nat
    recommends
        ip is V4,
{
    match ip {
        IpAddress::V4(a, b, c, d) => (a + b * 0x100 + c * 0x10000 + d * 0x1000000) as nat,
        IpAddress::V6(_, _, _, _, _, _, _, _) => 0,
    }
}

/// The kernel token of an IPv4 address: its word as eight padded uppercase
/// hex digits.
pub open spec fn v4_token(ip: IpAddress) -> Seq<char>
    recommends
        ip is V4,
{
    hex_pad(v4_word(ip), 8)
}

proof fn lemma_pow16_values()
    ensures
        pow16(4) == 0x10000,
        pow16(8) == 0x100000000,
{
    assert(pow16(0) == 1);
    assert(pow16(1) == 16);
    assert(pow16(2) == 0x100);
    assert(pow16(3) == 0x1000);
    assert(pow16(4) == 0x10000);
    assert(pow16(5) == 0x100000);
    assert(pow16(6) == 0x1000000);
    assert(pow16(7) == 0x10000000);
    assert(pow16(8) == 0x100000000);
}

/// Hex decoding is two-way consistent: the kernel token re-encoded from a
/// decoded IPv4 address decodes back to the very same address.
pub proof fn lemma_v4_token_round_trip(ip: IpAddress)
    requires
        ip is V4,
    ensures
        v4_token(ip).len() == 8,
        addr_any_spec(v4_token(ip)) == Some(ip),
{
    lemma_pow16_values();
    match ip {
        IpAddress::V4(a, b, c, d) => {
            let w = v4_word(ip);
            assert(w < 0x100000000);
            lemma_hex_pad_val(w, 8);
            let t = v4_token(ip);
            assert(valid_hex(t, u32::MAX as nat));
            assert(hex_u32_of(t) == w as u32);
            assert(w % 0x100 == a) by (nonlinear_arith)
                requires
                    a < 0x100,
                    b < 0x100,
                    c < 0x100,
                    d < 0x100,
                    w == a + b * 0x100 + c * 0x10000 + d * 0x1000000,
            ;
            assert((w / 0x100) % 0x100 == b) by (nonlinear_arith)
                requires
                    a < 0x100,
                    b < 0x100,
                    c < 0x100,
                    d < 0x100,
                    w == a + b * 0x100 + c * 0x10000 + d * 0x1000000,
            ;
            assert((w / 0x10000) % 0x100 == c) by (nonlinear_arith)
                requires
                    a < 0x100,
                    b < 0x100,
                    c < 0x100,
                    d < 0x100,
                    w == a + b * 0x100 + c * 0x10000 + d * 0x1000000,
            ;
            assert((w / 0x1000000) % 0x100 == d) by (nonlinear_arith)
                requires
                    a < 0x100,
                    b < 0x100,
                    c < 0x100,
                    d < 0x100,
                    w == a + b * 0x100 + c * 0x10000 + d * 0x1000000,
            ;
            assert(v4_from_u32(w as u32) == ip);
        },
        IpAddress::V6(_, _, _, _, _, _, _, _) => {},
    }
}

/// The kernel token of a port: four padded uppercase hex digits, big-endian.
pub open spec fn port_token(p: u16) -> Seq<char> {
    hex_pad(p as nat, 4)
}

/// Port decoding is two-way consistent in the same way.
pub proof fn lemma_port_token_round_trip(p: u16)
    ensures
        port_token(p).len() == 4,
        port_spec(port_token(p)) == Some(p),
{
    lemma_pow16_values();
    lemma_hex_pad_val(p as nat, 4);
}

/// The little-endian word that encodes two adjacent IPv6 segments.
pub open spec fn seg_word(hi: u16, lo: u16) -> nat {
    (hi / 0x100 + (hi % 0x100) * 0x100 + (lo / 0x100) * 0x10000 + (lo % 0x100) * 0x1000000) as nat
}

proof fn lemma_seg_word_inverse(hi: u16, lo: u16)
    ensures
        seg_word(hi, lo) < 0x100000000,
        v6_seg_hi(seg_word(hi, lo) as u32) == hi,
        v6_seg_lo(seg_word(hi, lo) as u32) == lo,
{
    let w = seg_word(hi, lo);
    assert(hi / 0x100 < 0x100 && hi % 0x100 < 0x100 && lo / 0x100 < 0x100 && lo % 0x100 < 0x100);
    assert(w % 0x100 == hi / 0x100) by (nonlinear_arith)
        requires
            w == hi / 0x100 + (hi % 0x100) * 0x100 + (lo / 0x100) * 0x10000 + (lo % 0x100)
                * 0x1000000,
            hi / 0x100 < 0x100,
            hi % 0x100 < 0x100,
            lo / 0x100 < 0x100,
            lo % 0x100 < 0x100,
    ;
    assert((w / 0x100) % 0x100 == hi % 0x100) by (nonlinear_arith)
        requires
            w == hi / 0x100 + (hi % 0x100) * 0x100 + (lo / 0x100) * 0x10000 + (lo % 0x100)
                * 0x1000000,
            hi / 0x100 < 0x100,
            hi % 0x100 < 0x100,
            lo / 0x100 < 0x100,
            lo % 0x100 < 0x100,
    ;
    assert((w / 0x10000) % 0x100 == lo / 0x100) by (nonlinear_arith)
        requires
            w == hi / 0x100 + (hi % 0x100) * 0x100 + (lo / 0x100) * 0x10000 + (lo % 0x100)
                * 0x1000000,
            hi / 0x100 < 0x100,
            hi % 0x100 < 0x100,
            lo / 0x100 < 0x100,
            lo % 0x100 < 0x100,
    ;
    assert((w / 0x1000000) % 0x100 == lo % 0x100) by (nonlinear_arith)
        requires
            w == hi / 0x100 + (hi % 0x100) * 0x100 + (lo / 0x100) * 0x10000 + (lo % 0x100)
                * 0x1000000,
            hi / 0x100 < 0x100,
            hi % 0x100 < 0x100,
            lo / 0x100 < 0x100,
            lo % 0x100 < 0x100,
    ;
    assert(v6_seg_hi(w as u32) == (hi / 0x100) * 0x100 + hi % 0x100);
    assert((hi / 0x100) * 0x100 + hi % 0x100 == hi) by (nonlinear_arith)
        requires
            hi < 0x10000,
    ;
    assert(v6_seg_lo(w as u32) == (lo / 0x100) * 0x100 + lo % 0x100);
    assert((lo / 0x100) * 0x100 + lo % 0x100 == lo) by (nonlinear_arith)
        requires
            lo < 0x10000,
    ;
}

/// The kernel token of an IPv6 address: its four words, each as eight
/// padded uppercase hex digits.
pub open spec fn v6_token(ip: IpAddress) -> Seq<char>
    recommends
        ip is V6,
{
    match ip {
        IpAddress::V6(s0, s1, s2, s3, s4, s5, s6, s7) => hex_pad(seg_word(s0, s1), 8) + hex_pad(
            seg_word(s2, s3),
            8,
        ) + hex_pad(seg_word(s4, s5), 8) + hex_pad(seg_word(s6, s7), 8),
        IpAddress::V4(_, _, _, _) => Seq::empty(),
    }
}

/// IPv6 decoding is two-way consistent in the same way.
pub proof fn lemma_v6_token_round_trip(ip: IpAddress)
    requires
        ip is V6,
    ensures
        v6_token(ip).len() == 32,
        addr_any_spec(v6_token(ip)) == Some(ip),
{
    lemma_pow16_values();
    match ip {
        IpAddress::V6(s0, s1, s2, s3, s4, s5, s6, s7) => {
            let w0 = seg_word(s0, s1);
            let w1 = seg_word(s2, s3);
            let w2 = seg_word(s4, s5);
            let w3 = seg_word(s6, s7);
            lemma_seg_word_inverse(s0, s1);
            lemma_seg_word_inverse(s2, s3);
            lemma_seg_word_inverse(s4, s5);
            lemma_seg_word_inverse(s6, s7);
            lemma_hex_pad_val(w0, 8);
            lemma_hex_pad_val(w1, 8);
            lemma_hex_pad_val(w2, 8);
            lemma_hex_pad_val(w3, 8);
            let t = v6_token(ip);
            assert(t.subrange(0, 8) =~= hex_pad(w0, 8));
            assert(t.subrange(8, 16) =~= hex_pad(w1, 8));
            assert(t.subrange(16, 24) =~= hex_pad(w2, 8));
            assert(t.subrange(24, 32) =~= hex_pad(w3, 8));
            assert(v6_hex_ok(t));
            assert(hex_u32_of(t.subrange(0, 8)) == w0 as u32);
            assert(hex_u32_of(t.subrange(8, 16)) == w1 as u32);
            assert(hex_u32_of(t.subrange(16, 24)) == w2 as u32);
            assert(hex_u32_of(t.subrange(24, 32)) == w3 as u32);
            assert(v6_from_words(w0 as u32, w1 as u32, w2 as u32, w3 as u32) == ip);
        },
        IpAddress::V4(_, _, _, _) => {},
    }
}

// ── Socket states ───────────────────────────────────────────────────────────

/// Kernel TCP socket states, by their kernel state code.
#[derive(Debug, Clone, Copy, PartialEq, Eq, Structural)]
pub enum SocketState {
    Established,
    SynSent,
    SynRecv,
    FinWait1,
    FinWait2,
    TimeWait,
    Close,
    CloseWait,
    LastAck,
    Listen,
    Closing,
    Unknown(u8),
}

/// The state named by a kernel state code.
pub open spec fn state_of_code(n: u8) -> SocketState {
    if n == 1 {
        SocketState::Established
    } else if n == 2 {
        SocketState::SynSent
    } else if n == 3 {
        SocketState::SynRecv
    } else if n == 4 {
        SocketState::FinWait1
    } else if n == 5 {
        SocketState::FinWait2
    } else if n == 6 {
        SocketState::TimeWait
    } else if n == 7 {
        SocketState::Close
    } else if n == 8 {
        SocketState::CloseWait
    } else if n == 9 {
        SocketState::LastAck
    } else if n == 10 {
        SocketState::Listen
    } else if n == 11 {
        SocketState::Closing
    } else {
        SocketState::Unknown(n)
    }
}

/// What decoding a hex state byte yields.
pub open spec fn state_spec(s: Seq<char>) -> Option<SocketState> {
    if valid_hex(s, u8::MAX as nat) {
        Some(state_of_code(hex_val(strip_plus(s)) as u8))
    } else {
        None
    }
}

impl SocketState {
    /// Decode a hex state byte into its socket state.
    pub fn from_hex(hex: &str) -> (r: Option<SocketState>)
        ensures
            r == state_spec(hex@),
    {
        let n = match crate::strutil::parse_hex_u8(hex) {
            Some(n) => n,
            None => { return None },
        };
        Some(
            if n == 1 {
                SocketState::Established
            } else if n == 2 {
                SocketState::SynSent
            } else if n == 3 {
                SocketState::SynRecv
            } else if n == 4 {
                SocketState::FinWait1
            } else if n == 5 {
                SocketState::FinWait2
            } else if n == 6 {
                SocketState::TimeWait
            } else if n == 7 {
                SocketState::Close
            } else if n == 8 {
                SocketState::CloseWait
            } else if n == 9 {
                SocketState::LastAck
            } else if n == 10 {
                SocketState::Listen
            } else if n == 11 {
                SocketState::Closing
            } else {
                SocketState::Unknown(n)
            },
        )
    }
}

// ── Socket lines ────────────────────────────────────────────────────────────

/// One socket-table row: local and remote endpoint, state, kernel handle.
#[derive(Debug, Clone, PartialEq, Eq, Structural)]
pub struct RawSocket {
    pub local_addr: IpAddress,
    pub local_port: u16,
    pub remote_addr: IpAddress,
    pub remote_port: u16,
    pub state: SocketState,
    pub inode: u64,
}

/// What decoding an `addr:port` token yields: the hex address before the
/// first colon, the hex port after it.
pub open spec fn endpoint_spec(tok: Seq<char>) -> Option<(IpAddress, u16)> {
    match find_char(tok, ':') {
        None => None,
        Some(i) => {
            let a = addr_any_spec(tok.take(i));
            let p = port_spec(tok.skip(i + 1));
            if a is Some && p is Some {
                Some((a->Some_0, p->Some_0))
            } else {
                None
            }
        },
    }
}

/// Split an `addr:port` token at its first colon and decode both halves.
pub fn parse_endpoint(tok: &str) -> (r: Option<(IpAddress, u16)>)
    ensures
        r == endpoint_spec(tok@),
{
    let i = match index_of_char(tok, ':') {
        Some(i) => i,
        None => { return None },
    };
    proof {
        crate::scan::lemma_find_char_props(tok@, ':');
    }
    let n = tok.unicode_len();
    let addr_part = tok.substring_char(0, i);
    let port_part = tok.substring_char(i + 1, n);
    proof {
        assert(addr_part@ =~= tok@.take(i as int));
        assert(port_part@ =~= tok@.skip(i + 1));
    }
    let a = match parse_hex_addr_any(addr_part) {
        Some(a) => a,
        None => { return None },
    };
    let p = match parse_hex_port(port_part) {
        Some(p) => p,
        None => { return None },
    };
    Some((a, p))
}

/// The inode field: a plain decimal count, as `str::parse::<u64>` reads it.
pub open spec fn inode_spec(s: Seq<char>) -> Option<u64> {
    if valid_dec(s, u64::MAX as nat) {
        Some(dec_val(strip_plus(s)) as u64)
    } else {
        None
    }
}

/// What decoding one whitespace-delimited socket-table line yields: field 1
/// is the local endpoint, field 2 the remote endpoint, field 3 the state
/// byte, field 9 the socket inode; a line with fewer than ten fields, or any
/// of those fields malformed, decodes to nothing.
pub open spec fn socket_line_spec(line: Seq<char>) -> Option<RawSocket> {
    let parts = split_ws(line);
    if parts.len() < 10 {
        None
    } else {
        let local = endpoint_spec(parts[1]);
        let remote = endpoint_spec(parts[2]);
        let st = state_spec(parts[3]);
        let ino = inode_spec(parts[9]);
        if local is Some && remote is Some && st is Some && ino is Some {
            Some(
                RawSocket {
                    local_addr: local->Some_0.0,
                    local_port: local->Some_0.1,
                    remote_addr: remote->Some_0.0,
                    remote_port: remote->Some_0.1,
                    state: st->Some_0,
                    inode: ino->Some_0,
                },
            )
        } else {
            None
        }
    }
}

/// Parse one socket-table data line.
pub fn parse_socket_line(line: &str) -> (r: Option<RawSocket>)
    ensures
        r == socket_line_spec(line@),
{
    let parts = split_whitespace(line);
    if parts.len() < 10 {
        return None;
    }
    proof {
        assert(parts.deep_view()[1] == parts@[1]@);
        assert(parts.deep_view()[2] == parts@[2]@);
        assert(parts.deep_view()[3] == parts@[3]@);
        assert(parts.deep_view()[9] == parts@[9]@);
    }
    let local = match parse_endpoint(parts[1].as_str()) {
        Some(e) => e,
        None => { return None },
    };
    let remote = match parse_endpoint(parts[2].as_str()) {
        Some(e) => e,
        None => { return None },
    };
    let st = match SocketState::from_hex(parts[3].as_str()) {
        Some(s) => s,
        None => { return None },
    };
    let ino = match parse_dec_u64(parts[9].as_str()) {
        Some(i) => i,
        None => { return None },
    };
    Some(
        RawSocket {
            local_addr: local.0,
            local_port: local.1,
            remote_addr: remote.0,
            remote_port: remote.1,
            state: st,
            inode: ino,
        },
    )
}

/// What parsing a whole kernel table yields: the first line is a header and
/// is skipped; every further line that decodes contributes one socket, and
/// malformed lines are skipped one by one.
pub open spec fn proc_net_spec(content: Seq<char>) -> Seq<RawSocket> {
    let ls = split_lines(content);
    let data = if ls.len() == 0 {
        ls
    } else {
        ls.drop_first()
    };
    data.filter_map(|l: Seq<char>| socket_line_spec(l))
}

/// Parse a kernel socket-table file: skip the header line, keep every line
/// that decodes.
pub fn parse_proc_net_file(content: &str) -> (r: Vec<RawSocket>)
    ensures
        r@ == proc_net_spec(content@),
{
    let f = Ghost(|l: Seq<char>| socket_line_spec(l));
    let lines = lines_vec(content);
    let mut out: Vec<RawSocket> = Vec::new();
    let n = lines.len();
    let ghost data = if lines.deep_view().len() == 0 {
        lines.deep_view()
    } else {
        lines.deep_view().drop_first()
    };
    if n == 0 {
        proof {
            assert(out@ =~= proc_net_spec(content@));
        }
        return out;
    }
    let mut i: usize = 1;
    proof {
        assert(data.take(0) =~= Seq::<Seq<char>>::empty());
        assert(out@ =~= data.take(0).filter_map(f@));
    }
    while i < n
        invariant
            1 <= i <= n,
            n == lines@.len(),
            lines.deep_view() == split_lines(content@),
            n >= 1,
            data == lines.deep_view().drop_first(),
            out@ == data.take(i - 1).filter_map(f@),
            f@ == (|l: Seq<char>| socket_line_spec(l)),
        decreases n - i,
    {
        proof {
            assert(data[i - 1] == lines.deep_view()[i as int]);
            data.lemma_filter_map_take_succ(f@, i - 1);
        }
        match parse_socket_line(lines[i].as_str()) {
            Some(sock) => {
                out.push(sock);
                proof {
                    assert(out@ =~= data.take(i as int).filter_map(f@));
                }
            },
            None => {
                proof {
                    assert(out@ =~= data.take(i as int).filter_map(f@));
                }
            },
        }
        i += 1;
    }
    proof {
        assert(data.take(n - 1) =~= data);
        assert(out@ =~= proc_net_spec(content@));
    }
    out
}

// ── Address display ─────────────────────────────────────────────────────────

/// Lowercase hex digit character for a value below sixteen.
pub open spec fn hex_digit_char(d: nat) -> char {
    if d < 10 {
        ((d + 48) as u8) as char
    } else {
        ((d + 87) as u8) as char
    }
}

/// The lowercase hex numeral of `n`, without leading zeros.
pub open spec fn hex_str(n: nat) -> Seq<char>
    decreases n,
{
    if n < 16 {
        seq![hex_digit_char(n)]
    } else {
        hex_str(n / 16).push(hex_digit_char(n % 16))
    }
}

/// The one-character string for a hex digit value.
fn hex_digit_s(d: u8) -> (r: &'static str)
    requires
        d < 16,
    ensures
        r@ =~= seq![hex_digit_char(d as nat)],
{
    proof {
        reveal_strlit("a");
        reveal_strlit("b");
        reveal_strlit("c");
        reveal_strlit("d");
        reveal_strlit("e");
        reveal_strlit("f");
    }
    if d < 10 {
        crate::strutil::digit_str(d)
    } else if d == 10 {
        "a"
    } else if d == 11 {
        "b"
    } else if d == 12 {
        "c"
    } else if d == 13 {
        "d"
    } else if d == 14 {
        "e"
    } else {
        "f"
    }
}

/// Render `n` in lowercase hex without leading zeros.
fn hex_u16_to_string(n: u16) -> (r: String)
    ensures
        r@ == hex_str(n as nat),
    decreases n,
{
    let ds = hex_digit_s((n % 16) as u8);
    if n < 16 {
        let s = String::from_str(ds);
        proof {
            assert(s@ =~= hex_str(n as nat));
        }
        s
    } else {
        let s = hex_u16_to_string(n / 16);
        let s = s.concat(ds);
        proof {
            assert(s@ =~= hex_str(n as nat));
        }
        s
    }
}

/// The segments of an IPv6 address, or nothing for an IPv4 one.
pub open spec fn v6_segs(a: IpAddress) -> Seq<u16> {
    match a {
        IpAddress::V6(s0, s1, s2, s3, s4, s5, s6, s7) => seq![s0, s1, s2, s3, s4, s5, s6, s7],
        IpAddress::V4(_, _, _, _) => Seq::empty(),
    }
}

/// Length of the run of zero segments starting at `i`.
pub open spec fn run_len_at(s: Seq<u16>, i: int) -> nat
    decreases s.len() - i,
    when 0 <= i <= s.len()
{
    if i >= s.len() || s[i] != 0 {
        0
    } else {
        1 + run_len_at(s, i + 1)
    }
}

/// Start of the leftmost longest zero run at or after `i`; `s.len()` if all
/// runs from `i` on are empty.
pub open spec fn best_run_from(s: Seq<u16>, i: int) -> int
    decreases s.len() - i,
    when 0 <= i <= s.len()
{
    if i >= s.len() {
        i
    } else {
        let b = best_run_from(s, i + 1);
        if run_len_at(s, i) >= run_len_at(s, b) {
            i
        } else {
            b
        }
    }
}

/// Hex segments joined with single colons.
pub open spec fn join_colon(s: Seq<u16>) -> Seq<char>
    decreases s.len(),
{
    if s.len() == 0 {
        Seq::empty()
    } else if s.len() == 1 {
        hex_str(s[0] as nat)
    } else {
        join_colon(s.drop_last()) + seq![':'] + hex_str(s.last() as nat)
    }
}

/// Whether eight segments are an IPv4-mapped address: five zero segments,
/// then the mapping marker.
pub open spec fn is_v4_mapped(s: Seq<u16>) -> bool {
    s.len() == 8 && s[0] == 0 && s[1] == 0 && s[2] == 0 && s[3] == 0 && s[4] == 0 && s[5] == 0xffff
}

/// The display form of eight IPv6 segments: an IPv4-mapped address shows its
/// last four bytes in dotted decimal behind the mapping marker; any other
/// address as lowercase hex without leading zeros, colon-separated, with the
/// leftmost longest run of two or more zero segments compressed to `::`.
pub open spec fn ipv6_string(s: Seq<u16>) -> Seq<char> {
    if is_v4_mapped(s) {
        seq![':', ':', 'f', 'f', 'f', 'f', ':'] + ipv4_string(
            (s[6] / 0x100) as u8,
            (s[6] % 0x100) as u8,
            (s[7] / 0x100) as u8,
            (s[7] % 0x100) as u8,
        )
    } else {
        let b = best_run_from(s, 0);
        let rl = run_len_at(s, b);
        if rl >= 2 {
            join_colon(s.take(b)) + seq![':', ':'] + join_colon(s.skip(b + rl))
        } else {
            join_colon(s)
        }
    }
}

/// The dotted-decimal display form of an IPv4 address.
pub open spec fn ipv4_string(a: u8, b: u8, c: u8, d: u8) -> Seq<char> {
    dec_str(a as nat) + seq!['.'] + dec_str(b as nat) + seq!['.'] + dec_str(c as nat) + seq!['.']
        + dec_str(d as nat)
}

/// The display form of an address.
pub open spec fn addr_string(ip: IpAddress) -> Seq<char> {
    match ip {
        IpAddress::V4(a, b, c, d) => ipv4_string(a, b, c, d),
        IpAddress::V6(_, _, _, _, _, _, _, _) => ipv6_string(v6_segs(ip)),
    }
}

/// `address:port`, as the port records carry it.
pub open spec fn endpoint_string(ip: IpAddress, port: u16) -> Seq<char> {
    addr_string(ip) + seq![':'] + dec_str(port as nat)
}

proof fn lemma_run_len_le(s: Seq<u16>, i: int)
    requires
        0 <= i <= s.len(),
    ensures
        run_len_at(s, i) <= s.len() - i,
    decreases s.len() - i,
{
    if i < s.len() && s[i] == 0 {
        lemma_run_len_le(s, i + 1);
    }
}

proof fn lemma_run_len_is(s: Seq<u16>, i: int, j: int)
    requires
        0 <= i <= j <= s.len(),
        forall|k: int| i <= k < j ==> s[k] == 0,
        j == s.len() || s[j] != 0,
    ensures
        run_len_at(s, i) == j - i,
    decreases j - i,
{
    if i < j {
        lemma_run_len_is(s, i + 1, j);
    }
}

/// Length of the zero run starting at `i`.
fn run_len(v: &Vec<u16>, i: usize) -> (r: usize)
    requires
        i <= v@.len(),
    ensures
        r == run_len_at(v@, i as int),
{
    let n = v.len();
    let mut j = i;
    while j < n && v[j] == 0
        invariant
            i <= j <= n,
            n == v@.len(),
            forall|k: int| i <= k < j ==> v@[k] == 0,
        decreases n - j,
    {
        j += 1;
    }
    proof {
        lemma_run_len_is(v@, i as int, j as int);
    }
    j - i
}

/// Start of the leftmost longest zero run, scanning from the right.
fn best_run_start(v: &Vec<u16>) -> (b: usize)
    ensures
        b == best_run_from(v@, 0),
        b <= v@.len(),
{
    let n = v.len();
    let mut best = n;
    let mut i = n;
    while i > 0
        invariant
            i <= n,
            best <= n,
            n == v@.len(),
            best == best_run_from(v@, i as int),
        decreases i,
    {
        i -= 1;
        let rl_i = run_len(v, i);
        let rl_b = run_len(v, best);
        if rl_i >= rl_b {
            best = i;
        }
    }
    best
}

/// Hex segments `v[from..to]` joined with colons.
fn join_hex_segs(v: &Vec<u16>, from: usize, to: usize) -> (r: String)
    requires
        from <= to <= v@.len(),
    ensures
        r@ == join_colon(v@.subrange(from as int, to as int)),
{
    proof {
        reveal_strlit(":");
    }
    let mut r = String::new();
    let mut k = from;
    proof {
        assert(v@.subrange(from as int, from as int) =~= Seq::<u16>::empty());
    }
    while k < to
        invariant
            from <= k <= to <= v@.len(),
            r@ == join_colon(v@.subrange(from as int, k as int)),
            ":"@ == seq![':'],
        decreases to - k,
    {
        if k > from {
            r.append(":");
        }
        let seg = hex_u16_to_string(v[k]);
        r.append(seg.as_str());
        proof {
            let cur = v@.subrange(from as int, k + 1);
            assert(cur.drop_last() =~= v@.subrange(from as int, k as int));
            assert(cur.last() == v@[k as int]);
            assert(r@ =~= join_colon(cur));
        }
        k += 1;
    }
    r
}

/// Render four octets in dotted decimal.
fn format_dotted(a: u8, b: u8, c: u8, d: u8) -> (r: String)
    ensures
        r@ == ipv4_string(a, b, c, d),
{
    proof {
        reveal_strlit(".");
    }
    let mut r = crate::strutil::u64_to_string(a as u64);
    r.append(".");
    let sb = crate::strutil::u64_to_string(b as u64);
    r.append(sb.as_str());
    r.append(".");
    let sc = crate::strutil::u64_to_string(c as u64);
    r.append(sc.as_str());
    r.append(".");
    let sd = crate::strutil::u64_to_string(d as u64);
    r.append(sd.as_str());
    proof {
        assert(r@ =~= ipv4_string(a, b, c, d));
    }
    r
}

/// Render an address for display: dotted decimal for IPv4; for IPv6, the
/// IPv4-mapped form where it applies, else compressed lowercase hex
/// segments.
pub fn format_addr(ip: &IpAddress) -> (r: String)
    ensures
        r@ == addr_string(*ip),
{
    match *ip {
        IpAddress::V4(a, b, c, d) => format_dotted(a, b, c, d),
        IpAddress::V6(s0, s1, s2, s3, s4, s5, s6, s7) => {
            if s0 == 0 && s1 == 0 && s2 == 0 && s3 == 0 && s4 == 0 && s5 == 0xffff {
                proof {
                    reveal_strlit("::ffff:");
                    assert("::ffff:"@ =~= seq![':', ':', 'f', 'f', 'f', 'f', ':']);
                }
                let mut r = String::from_str("::ffff:");
                let dotted = format_dotted(
                    (s6 / 0x100) as u8,
                    (s6 % 0x100) as u8,
                    (s7 / 0x100) as u8,
                    (s7 % 0x100) as u8,
                );
                r.append(dotted.as_str());
                proof {
                    assert(is_v4_mapped(v6_segs(*ip)));
                    assert(r@ =~= ipv6_string(v6_segs(*ip)));
                }
                return r;
            }
            let mut v: Vec<u16> = Vec::new();
            v.push(s0);
            v.push(s1);
            v.push(s2);
            v.push(s3);
            v.push(s4);
            v.push(s5);
            v.push(s6);
            v.push(s7);
            proof {
                assert(v@ =~= v6_segs(*ip));
            }
            let b = best_run_start(&v);
            let rl = run_len(&v, b);
            proof {
                lemma_run_len_le(v@, b as int);
            }
            if rl >= 2 {
                proof {
                    reveal_strlit("::");
                    assert("::"@ =~= seq![':', ':']);
                }
                let mut r = join_hex_segs(&v, 0, b);
                r.append("::");
                let tail = join_hex_segs(&v, b + rl, v.len());
                r.append(tail.as_str());
                proof {
                    assert(v@.take(b as int) =~= v@.subrange(0, b as int));
                    assert(v@.skip(b + rl) =~= v@.subrange(b + rl, v@.len() as int));
                    assert(r@ =~= ipv6_string(v6_segs(*ip)));
                }
                r
            } else {
                let r = join_hex_segs(&v, 0, v.len());
                proof {
                    assert(v@.subrange(0, v@.len() as int) =~= v@);
                    assert(r@ =~= ipv6_string(v6_segs(*ip)));
                }
                r
            }
        },
    }
}

/// Render `address:port`.
pub fn format_endpoint(ip: &IpAddress, port: u16) -> (r: String)
    ensures
        r@ == endpoint_string(*ip, port),
{
    proof {
        reveal_strlit(":");
    }
    let mut r = format_addr(ip);
    r.append(":");
    let p = crate::strutil::u64_to_string(port as u64);
    r.append(p.as_str());
    proof {
        assert(r@ =~= endpoint_string(*ip, port));
    }
    r
}

// ── Filtering ───────────────────────────────────────────────────────────────

/// Which sockets an enumeration asks for.
#[derive(Debug, Clone, Copy, PartialEq, Eq, Structural)]
pub enum FilterMode {
    Listening,
    Established,
    All,
}

/// A socket whose remote endpoint is the unspecified wildcard: for UDP this
/// stands in for "listening", since UDP has no connection state.
pub open spec fn is_remote_zero_spec(s: RawSocket) -> bool {
    s.remote_port == 0 && s.remote_addr.is_unspecified()
}

pub fn is_remote_zero(s: &RawSocket) -> (r: bool)
    ensures
        r == is_remote_zero_spec(*s),
{
    if s.remote_port != 0 {
        return false;
    }
    match s.remote_addr {
        IpAddress::V4(a, b, c, d) => a == 0 && b == 0 && c == 0 && d == 0,
        IpAddress::V6(s0, s1, s2, s3, s4, s5, s6, s7) => s0 == 0 && s1 == 0 && s2 == 0 && s3 == 0
            && s4 == 0 && s5 == 0 && s6 == 0 && s7 == 0,
    }
}

/// Whether a socket belongs in an enumeration: TCP goes by its state code,
/// UDP by whether the remote endpoint is the wildcard.
pub open spec fn should_include_spec(s: RawSocket, mode: FilterMode, is_udp: bool) -> bool {
    match mode {
        FilterMode::All => true,
        FilterMode::Listening => {
            if is_udp {
                is_remote_zero_spec(s)
            } else {
                s.state == SocketState::Listen
            }
        },
        FilterMode::Established => {
            if is_udp {
                !is_remote_zero_spec(s)
            } else {
                s.state == SocketState::Established
            }
        },
    }
}

/// The listening and established filters split the sockets cleanly: no
/// socket is kept by both, so a table filtered both ways yields each row at
/// most once — for TCP because the two state codes differ, for UDP because
/// a remote endpoint is either the wildcard or not.
pub proof fn lemma_filter_modes_disjoint(s: RawSocket, is_udp: bool)
    ensures
        !(should_include_spec(s, FilterMode::Listening, is_udp) && should_include_spec(
            s,
            FilterMode::Established,
            is_udp,
        )),
{
}

pub fn should_include(s: &RawSocket, mode: FilterMode, is_udp: bool) -> (r: bool)
    ensures
        r == should_include_spec(*s, mode, is_udp),
{
    match mode {
        FilterMode::All => true,
        FilterMode::Listening => {
            if is_udp {
                is_remote_zero(s)
            } else {
                s.state == SocketState::Listen
            }
        },
        FilterMode::Established => {
            if is_udp {
                !is_remote_zero(s)
            } else {
                s.state == SocketState::Established
            }
        },
    }
}

} // verus!
