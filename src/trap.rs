//! Packet classification, TCP SYN detection and MSS clamping.
use vstd::prelude::*;

use crate::constants::DEFAULT_MSS_CLAMP;
use crate::wire::{
    be16, fill_ipv4_checksum, fill_tcp_checksum, ip_version, ipv4_check, ipv4_header_checksum,
    ipv4_header_len, ipv4_total_len, ipv4_valid, ipv6_check, ipv6_valid, put_be16, tcp_check,
    tcp_checksum, tcp_header_len, tcp_valid, zero16, Addr, PROTO_HOP_BY_HOP, PROTO_IPV6_FRAG,
    PROTO_IPV6_OPTS, PROTO_IPV6_ROUTE, PROTO_TCP,
};

verus! {

/// Most IPv6 extension headers walked before giving up.
pub const MAX_EXT_HEADERS: usize = 10;

/// TCP option kinds.
pub const TCP_OPT_EOL: u8 = 0;

pub const TCP_OPT_NOP: u8 = 1;

pub const TCP_OPT_MSS: u8 = 2;

/// Coarse classification of a raw packet.
#[derive(Debug, Clone, Copy, PartialEq, Eq, Structural)]
pub enum PacketType {
    Tcp,
    /// UDP, ICMP and every other IP protocol.
    Other,
    /// Not a valid IP packet.
    Unknown,
}

/// A transport endpoint: address and port.
#[derive(Debug, Clone, Copy, PartialEq, Eq, Hash)]
pub struct Endpoint {
    pub addr: Addr,
    pub port: u16,
}

impl Endpoint {
    pub fn port(&self) -> (r: u16)
        ensures
            r == self.port,
    {
        self.port
    }

    pub fn addr(&self) -> (r: Addr)
        ensures
            r == self.addr,
    {
        self.addr
    }
}

/// A trapped SYN: the endpoint it is addressed to and the (MSS-clamped) packet.
#[derive(Debug, Clone)]
pub struct PrismTrap {
    pub dst: Endpoint,
    pub packet: Vec<u8>,
}

pub type TrapEvent = PrismTrap;

// ---------------------------------------------------------------------------
// IPv6 extension headers

pub open spec fn is_ext_header(nh: u8) -> bool {
    nh == PROTO_HOP_BY_HOP || nh == PROTO_IPV6_ROUTE || nh == PROTO_IPV6_FRAG || nh == PROTO_IPV6_OPTS
}

/// Length of the extension header of kind `nh` at `off`: fragment headers
/// are 8 bytes, the others `(len + 1) * 8`.
pub open spec fn ext_header_len(b: Seq<u8>, nh: u8, off: int) -> int {
    if nh == PROTO_IPV6_FRAG {
        8
    } else {
        (b[off + 1] as int + 1) * 8
    }
}

/// Walk at most `budget` extension headers starting with kind `nh` at
/// `off`; the upper-layer protocol and its offset, or `None` when a header
/// does not fit in the buffer or the budget runs out.
pub open spec fn walk_ext_headers(b: Seq<u8>, nh: u8, off: int, budget: nat) -> Option<(u8, int)>
    decreases budget,
{
    if !is_ext_header(nh) {
        Some((nh, off))
    } else if budget == 0 {
        None
    } else if off + 2 > b.len() || off + ext_header_len(b, nh, off) > b.len() {
        None
    } else {
        walk_ext_headers(b, b[off], off + ext_header_len(b, nh, off), (budget - 1) as nat)
    }
}

/// Upper-layer protocol of an IPv6 packet and the offset of its header.
pub open spec fn ipv6_upper_layer(b: Seq<u8>) -> Option<(u8, int)> {
    walk_ext_headers(b, b[6], 40, MAX_EXT_HEADERS as nat)
}

proof fn lemma_walk_in_bounds(b: Seq<u8>, nh: u8, off: int, budget: nat)
    requires
        0 <= off <= b.len(),
    ensures
        walk_ext_headers(b, nh, off, budget) matches Some((_, o)) ==> off <= o <= b.len(),
    decreases budget,
{
    if is_ext_header(nh) && budget > 0 && off + 2 <= b.len() && off + ext_header_len(b, nh, off)
        <= b.len() {
        lemma_walk_in_bounds(b, b[off], off + ext_header_len(b, nh, off), (budget - 1) as nat);
    }
}

/// Skip the IPv6 extension headers; the upper-layer protocol number and the
/// offset of its header.
pub fn skip_ipv6_headers(buffer: &[u8]) -> (r: Result<(u8, usize), ()>)
    ensures
        buffer@.len() < 40 ==> r is Err,
        buffer@.len() >= 40 ==> match ipv6_upper_layer(buffer@) {
            Some((p, o)) => r matches Ok((rp, ro)) && rp == p && ro == o,
            None => r is Err,
        },
        r matches Ok((_, o)) ==> 40 <= o <= buffer@.len(),
{
    if buffer.len() < 40 {
        return Err(());
    }
    let ghost b = buffer@;
    let mut next_header: u8 = buffer[6];
    let mut offset: usize = 40;
    let mut walked: usize = 0;
    proof {
        lemma_walk_in_bounds(b, b[6], 40, MAX_EXT_HEADERS as nat);
    }
    loop
        invariant
            b == buffer@,
            b.len() >= 40,
            40 <= offset <= b.len(),
            walked <= MAX_EXT_HEADERS,
            ipv6_upper_layer(b) == walk_ext_headers(
                b,
                next_header,
                offset as int,
                (MAX_EXT_HEADERS - walked) as nat,
            ),
        decreases MAX_EXT_HEADERS - walked,
    {
        let is_ext = next_header == PROTO_HOP_BY_HOP || next_header == PROTO_IPV6_ROUTE
            || next_header == PROTO_IPV6_FRAG || next_header == PROTO_IPV6_OPTS;
        if !is_ext {
            return Ok((next_header, offset));
        }
        if walked == MAX_EXT_HEADERS {
            return Err(());
        }
        if buffer.len() - offset < 2 {
            return Err(());
        }
        let hdr_len: usize = if next_header == PROTO_IPV6_FRAG {
            8
        } else {
            (buffer[offset + 1] as usize + 1) * 8
        };
        if hdr_len > buffer.len() - offset {
            return Err(());
        }
        next_header = buffer[offset];
        offset = offset + hdr_len;
        walked = walked + 1;
    }
}

// ---------------------------------------------------------------------------
// Classification

/// The class of a raw packet.
pub open spec fn packet_type(b: Seq<u8>) -> PacketType {
    if b.len() < 1 {
        PacketType::Unknown
    } else if ip_version(b) == 4 {
        if !ipv4_valid(b) {
            PacketType::Unknown
        } else if b[9] == PROTO_TCP {
            PacketType::Tcp
        } else {
            PacketType::Other
        }
    } else if ip_version(b) == 6 {
        if !ipv6_valid(b) {
            PacketType::Unknown
        } else {
            match ipv6_upper_layer(b) {
                Some((p, _)) => if p == PROTO_TCP {
                    PacketType::Tcp
                } else {
                    PacketType::Other
                },
                None => PacketType::Unknown,
            }
        }
    } else {
        PacketType::Unknown
    }
}

/// Classify a raw IP packet as TCP, another IP protocol, or not valid IP.
pub fn get_packet_type(buffer: &[u8]) -> (r: PacketType)
    ensures
        r == packet_type(buffer@),
{
    if buffer.len() < 1 {
        return PacketType::Unknown;
    }
    let version = buffer[0] / 16;
    if version == 4 {
        if !ipv4_check(buffer) {
            PacketType::Unknown
        } else if buffer[9] == PROTO_TCP {
            PacketType::Tcp
        } else {
            PacketType::Other
        }
    } else if version == 6 {
        if !ipv6_check(buffer) {
            return PacketType::Unknown;
        }
        match skip_ipv6_headers(buffer) {
            Ok((proto, _)) => if proto == PROTO_TCP {
                PacketType::Tcp
            } else {
                PacketType::Other
            },
            Err(_) => PacketType::Unknown,
        }
    } else {
        PacketType::Unknown
    }
}

// ---------------------------------------------------------------------------
// MSS clamping

/// Scan the TCP options in `s[i..end]` for the MSS option; its offset, or
/// `None` when there is none or the options are malformed. EOL and NOP are
/// single bytes, every other option is kind, length, value.
pub open spec fn mss_scan(s: Seq<u8>, i: int, end: int) -> Option<int>
    decreases end - i,
{
    if i >= end {
        None
    } else if s[i] == TCP_OPT_EOL || s[i] == TCP_OPT_NOP {
        mss_scan(s, i + 1, end)
    } else if i + 1 >= end {
        None
    } else if (s[i + 1] as int) < 2 || i + s[i + 1] as int > end {
        None
    } else if s[i] == TCP_OPT_MSS {
        if s[i + 1] == 4 {
            Some(i)
        } else {
            None
        }
    } else {
        mss_scan(s, i + s[i + 1] as int, end)
    }
}

/// Offset of the MSS option (kind 2, length 4) in a TCP segment.
pub open spec fn mss_option(s: Seq<u8>) -> Option<int> {
    if tcp_valid(s) {
        mss_scan(s, 20, tcp_header_len(s))
    } else {
        None
    }
}

/// A TCP segment with its MSS option lowered to `ceiling` when it exceeds it.
pub open spec fn clamp_mss(s: Seq<u8>, ceiling: u16) -> Seq<u8> {
    match mss_option(s) {
        Some(i) => if be16(s[i + 2], s[i + 3]) > ceiling {
            put_be16(s, i + 2, ceiling)
        } else {
            s
        },
        None => s,
    }
}

proof fn lemma_mss_scan_bounds(s: Seq<u8>, i: int, end: int)
    ensures
        mss_scan(s, i, end) matches Some(k) ==> i <= k && k + 4 <= end,
    decreases end - i,
{
    if i < end {
        if s[i] == TCP_OPT_EOL || s[i] == TCP_OPT_NOP {
            lemma_mss_scan_bounds(s, i + 1, end);
        } else if i + 1 < end && (s[i + 1] as int) >= 2 && i + s[i + 1] as int <= end && s[i]
            != TCP_OPT_MSS {
            lemma_mss_scan_bounds(s, i + s[i + 1] as int, end);
        }
    }
}

proof fn lemma_mss_option_bounds(s: Seq<u8>)
    ensures
        mss_option(s) matches Some(k) ==> 20 <= k && k + 4 <= tcp_header_len(s) <= s.len(),
{
    if tcp_valid(s) {
        lemma_mss_scan_bounds(s, 20, tcp_header_len(s));
    }
}

/// The scan finds the same option in a segment that agrees with the
/// scanned one up to that option's value.
proof fn lemma_mss_scan_stable(s: Seq<u8>, t: Seq<u8>, j: int, end: int, k: int)
    requires
        0 <= j,
        end <= s.len(),
        s.len() == t.len(),
        mss_scan(s, j, end) == Some(k),
        forall|x: int| 0 <= x < k + 2 ==> s[x] == t[x],
    ensures
        mss_scan(t, j, end) == Some(k),
    decreases end - j,
{
    lemma_mss_scan_bounds(s, j, end);
    if s[j] == TCP_OPT_EOL || s[j] == TCP_OPT_NOP {
        lemma_mss_scan_stable(s, t, j + 1, end, k);
    } else if s[j] != TCP_OPT_MSS {
        lemma_mss_scan_bounds(s, j + s[j + 1] as int, end);
        lemma_mss_scan_stable(s, t, j + s[j + 1] as int, end, k);
    }
}

/// Clamping the MSS of a segment that was already clamped changes nothing.
pub proof fn lemma_clamp_mss_idempotent(s: Seq<u8>, ceiling: u16)
    ensures
        clamp_mss(clamp_mss(s, ceiling), ceiling) == clamp_mss(s, ceiling),
{
    lemma_mss_option_bounds(s);
    if let Some(k) = mss_option(s) {
        if be16(s[k + 2], s[k + 3]) > ceiling {
            let t = put_be16(s, k + 2, ceiling);
            assert(tcp_valid(t) && tcp_header_len(t) == tcp_header_len(s));
            lemma_mss_scan_stable(s, t, 20, tcp_header_len(s), k);
            assert(mss_option(t) == Some(k));
            assert(be16(t[k + 2], t[k + 3]) == ceiling);
        }
    }
}

/// Offset, relative to `start`, of the MSS option of the segment
/// `buf[start..end]`.
fn find_mss(buf: &[u8], start: usize, end: usize) -> (r: Option<usize>)
    requires
        start <= end <= buf@.len(),
    ensures
        match mss_option(buf@.subrange(start as int, end as int)) {
            Some(k) => r == Some(k as usize),
            None => r is None,
        },
{
    let ghost s = buf@.subrange(start as int, end as int);
    if end - start < 20 {
        return None;
    }
    let hl: usize = (buf[start + 12] / 16) as usize * 4;
    if hl < 20 || hl > end - start {
        return None;
    }
    assert(hl == tcp_header_len(s));
    let mut i: usize = 20;
    loop
        invariant
            s == buf@.subrange(start as int, end as int),
            start <= end <= buf@.len(),
            20 <= hl <= end - start,
            hl == tcp_header_len(s),
            tcp_valid(s),
            20 <= i <= hl,
            mss_option(s) == mss_scan(s, i as int, hl as int),
        decreases hl - i,
    {
        if i >= hl {
            return None;
        }
        let kind = buf[start + i];
        if kind == TCP_OPT_EOL || kind == TCP_OPT_NOP {
            i = i + 1;
            continue;
        }
        if i + 1 >= hl {
            return None;
        }
        let len = buf[start + i + 1] as usize;
        if len < 2 || len > hl - i {
            return None;
        }
        if kind == TCP_OPT_MSS {
            if len == 4 {
                return Some(i);
            }
            return None;
        }
        i = i + len;
    }
}

/// Lower the MSS option of a TCP segment to the default ceiling when it
/// exceeds it; a segment without one, or with a malformed header, is left
/// alone.
pub fn clamp_mss_raw(buffer: &mut [u8])
    ensures
        final(buffer)@ == clamp_mss(old(buffer)@, DEFAULT_MSS_CLAMP),
{
    let len = buffer.len();
    let found = find_mss(buffer, 0, len);
    proof {
        assert(old(buffer)@.subrange(0, len as int) =~= old(buffer)@);
        lemma_mss_option_bounds(old(buffer)@);
    }
    if let Some(k) = found {
        let value: u16 = buffer[k + 2] as u16 * 256 + buffer[k + 3] as u16;
        if value > DEFAULT_MSS_CLAMP {
            buffer[k + 2] = (DEFAULT_MSS_CLAMP / 256) as u8;
            buffer[k + 3] = (DEFAULT_MSS_CLAMP % 256) as u8;
        }
    }
    assert(buffer@ =~= clamp_mss(old(buffer)@, DEFAULT_MSS_CLAMP));
}

proof fn lemma_clamp_mss_len(s: Seq<u8>, ceiling: u16)
    ensures
        clamp_mss(s, ceiling).len() == s.len(),
        forall|j: int| 0 <= j < 22 ==> clamp_mss(s, ceiling)[j] == s[j],
{
    lemma_mss_option_bounds(s);
}

/// `b` with `b[start..end]` replaced by `mid`.
pub open spec fn splice(b: Seq<u8>, start: int, end: int, mid: Seq<u8>) -> Seq<u8> {
    b.subrange(0, start) + mid + b.subrange(end, b.len() as int)
}

/// Clamp the MSS option of the segment `pkt[start..end]` in place.
fn clamp_mss_in(pkt: &mut Vec<u8>, start: usize, end: usize, ceiling: u16)
    requires
        start <= end <= old(pkt)@.len(),
    ensures
        final(pkt)@ == splice(
            old(pkt)@,
            start as int,
            end as int,
            clamp_mss(old(pkt)@.subrange(start as int, end as int), ceiling),
        ),
{
    let ghost s = pkt@.subrange(start as int, end as int);
    let found = find_mss(pkt.as_slice(), start, end);
    proof {
        lemma_mss_option_bounds(s);
    }
    if let Some(k) = found {
        let value: u16 = pkt[start + k + 2] as u16 * 256 + pkt[start + k + 3] as u16;
        if value > ceiling {
            pkt.set(start + k + 2, (ceiling / 256) as u8);
            pkt.set(start + k + 3, (ceiling % 256) as u8);
        }
    }
    assert(pkt@ =~= splice(old(pkt)@, start as int, end as int, clamp_mss(s, ceiling)));
}

// ---------------------------------------------------------------------------
// SYN trapping

/// Where the TCP segment of a TCP packet lies: after the IPv4 header (of at
/// least the fixed 20 bytes) up to the total length, or after the IPv6
/// extension headers up to the end of the announced payload.
/// End of an IPv6 packet: the fixed header and the payload it announces.
pub open spec fn ipv6_end(b: Seq<u8>) -> int {
    40 + be16(b[4], b[5])
}

pub open spec fn tcp_segment_range(b: Seq<u8>) -> Option<(int, int)> {
    if b.len() < 20 {
        None
    } else if ip_version(b) == 4 {
        if ipv4_valid(b) && ipv4_header_len(b) >= 20 && b[9] == PROTO_TCP {
            Some((ipv4_header_len(b), ipv4_total_len(b)))
        } else {
            None
        }
    } else if ip_version(b) == 6 && ipv6_valid(b) {
        match ipv6_upper_layer(b) {
            Some((p, o)) => if p == PROTO_TCP && o < ipv6_end(b) {
                Some((o, ipv6_end(b)))
            } else {
                None
            },
            None => None,
        }
    } else {
        None
    }
}

/// The TCP segment of a TCP packet.
pub open spec fn tcp_segment(b: Seq<u8>) -> Seq<u8> {
    let (start, end) = tcp_segment_range(b)->Some_0;
    b.subrange(start, end)
}

/// Flags SYN=1, ACK=0, RST=0.
pub open spec fn is_pure_syn(seg: Seq<u8>) -> bool {
    let f = seg[13] as int;
    (f / 2) % 2 == 1 && (f / 16) % 2 == 0 && (f / 4) % 2 == 0
}

/// The packet is a TCP segment with a well-formed header that opens a
/// connection.
pub open spec fn is_trapped_syn(b: Seq<u8>) -> bool {
    tcp_segment_range(b) is Some && tcp_valid(tcp_segment(b)) && is_pure_syn(tcp_segment(b))
}

/// Source address bytes of an IPv4 or IPv6 packet.
pub open spec fn src_octets(b: Seq<u8>) -> Seq<u8> {
    if ip_version(b) == 4 {
        b.subrange(12, 16)
    } else {
        b.subrange(8, 24)
    }
}

/// Destination address bytes of an IPv4 or IPv6 packet.
pub open spec fn dst_octets(b: Seq<u8>) -> Seq<u8> {
    if ip_version(b) == 4 {
        b.subrange(16, 20)
    } else {
        b.subrange(24, 40)
    }
}

/// The address of the given family with the given bytes.
pub open spec fn addr_of(v4: bool, o: Seq<u8>) -> Addr {
    choose|a: Addr| a.is_v4() == v4 && a.octets() == o
}

/// Destination endpoint of a TCP packet.
pub open spec fn trap_dst(b: Seq<u8>) -> Endpoint {
    let seg = tcp_segment(b);
    Endpoint { addr: addr_of(ip_version(b) == 4, dst_octets(b)), port: be16(seg[2], seg[3]) as u16 }
}

/// `b` with the segment `b[start..end]` MSS-clamped, its TCP checksum
/// recomputed and, for IPv4, the header checksum recomputed.
pub open spec fn rewrite_syn(b: Seq<u8>, start: int, end: int, src: Addr, dst: Addr, ceiling: u16) -> Seq<u8> {
    let p1 = splice(b, start, end, clamp_mss(b.subrange(start, end), ceiling));
    let p2 = put_be16(p1, start + 16, tcp_checksum(src, dst, zero16(p1.subrange(start, end), 16)));
    if ip_version(b) == 4 {
        put_be16(p2, 10, ipv4_header_checksum(zero16(p2, 10).subrange(0, ipv4_header_len(p2))))
    } else {
        p2
    }
}

/// The packet that a trap event carries for the SYN `b`.
pub open spec fn trapped_packet(b: Seq<u8>, ceiling: u16) -> Seq<u8> {
    let (start, end) = tcp_segment_range(b)->Some_0;
    let v4 = ip_version(b) == 4;
    rewrite_syn(b, start, end, addr_of(v4, src_octets(b)), addr_of(v4, dst_octets(b)), ceiling)
}

proof fn lemma_addr_of(a: Addr)
    ensures
        addr_of(a.is_v4(), a.octets()) == a,
{
    let c = addr_of(a.is_v4(), a.octets());
    assert(c.is_v4() == a.is_v4() && c.octets() == a.octets());
    match (c, a) {
        (Addr::V4(x), Addr::V4(y)) => {
            assert(x@ == y@);
            assert(x =~= y);
        },
        (Addr::V6(x), Addr::V6(y)) => {
            assert(x@ == y@);
            assert(x =~= y);
        },
        _ => {},
    }
}

fn read_addr(b: &[u8], v4: bool, at: usize) -> (r: Addr)
    requires
        at + (if v4 { 4int } else { 16int }) <= b@.len(),
    ensures
        r == addr_of(v4, b@.subrange(at as int, at + (if v4 { 4int } else { 16int }))),
        r.is_v4() == v4,
{
    let ghost n: int = if v4 { 4 } else { 16 };
    let len = b.len();
    let r = if v4 {
        let mut a = [0u8; 4];
        let mut i: usize = 0;
        while i < 4
            invariant
                at + 4 <= b@.len(),
                len == b@.len(),
                0 <= i <= 4,
                forall|k: int| 0 <= k < i ==> a@[k] == b@[at + k],
            decreases 4 - i,
        {
            a[i] = b[at + i];
            i = i + 1;
        }
        Addr::V4(a)
    } else {
        let mut a = [0u8; 16];
        let mut i: usize = 0;
        while i < 16
            invariant
                at + 16 <= b@.len(),
                len == b@.len(),
                0 <= i <= 16,
                forall|k: int| 0 <= k < i ==> a@[k] == b@[at + k],
            decreases 16 - i,
        {
            a[i] = b[at + i];
            i = i + 1;
        }
        Addr::V6(a)
    };
    proof {
        assert(r.octets() =~= b@.subrange(at as int, at + n));
        lemma_addr_of(r);
    }
    r
}

/// Detect a TCP SYN (SYN=1, ACK=0, RST=0) and build its trap event: the
/// destination endpoint and a copy of the packet with the MSS option
/// clamped to `mss_ceiling` and the checksums recomputed.
pub fn inspect_packet_with_mss(buffer: &[u8], mss_ceiling: u16) -> (r: Option<PrismTrap>)
    ensures
        r is Some <==> is_trapped_syn(buffer@),
        r matches Some(t) ==> t.dst == trap_dst(buffer@) && t.packet@ == trapped_packet(
            buffer@,
            mss_ceiling,
        ),
{
    if buffer.len() < 20 {
        return None;
    }
    let version = buffer[0] / 16;
    let start: usize;
    let end: usize;
    let v4 = version == 4;
    if v4 {
        if !ipv4_check(buffer) || buffer[9] != PROTO_TCP || buffer[0] % 16 < 5 {
            return None;
        }
        start = (buffer[0] % 16) as usize * 4;
        end = buffer[2] as usize * 256 + buffer[3] as usize;
    } else if version == 6 {
        if !ipv6_check(buffer) {
            return None;
        }
        match skip_ipv6_headers(buffer) {
            Ok((proto, offset)) => {
                let payload_end = 40 + (buffer[4] as usize * 256 + buffer[5] as usize);
                if proto != PROTO_TCP || offset >= payload_end {
                    return None;
                }
                start = offset;
                end = payload_end;
            },
            Err(_) => {
                return None;
            },
        }
    } else {
        return None;
    }
    assert(tcp_segment_range(buffer@) == Some((start as int, end as int)));
    if !tcp_check(buffer, start, end) {
        return None;
    }
    let flags = buffer[start + 13];
    if !((flags / 2) % 2 == 1 && (flags / 16) % 2 == 0 && (flags / 4) % 2 == 0) {
        return None;
    }
    let port: u16 = buffer[start + 2] as u16 * 256 + buffer[start + 3] as u16;
    let (src, dst) = if v4 {
        (read_addr(buffer, true, 12), read_addr(buffer, true, 16))
    } else {
        (read_addr(buffer, false, 8), read_addr(buffer, false, 24))
    };
    proof {
        lemma_clamp_mss_len(buffer@.subrange(start as int, end as int), mss_ceiling);
    }
    let mut packet = vstd::slice::slice_to_vec(buffer);
    clamp_mss_in(&mut packet, start, end, mss_ceiling);
    proof {
        let seg = buffer@.subrange(start as int, end as int);
        if start == 0 {
            assert(packet@[0] == clamp_mss(seg, mss_ceiling)[0]);
            assert(seg[0] == buffer@[0]);
        } else {
            assert(packet@[0] == buffer@.subrange(0, start as int)[0]);
        }
    }
    fill_tcp_checksum(&mut packet, start, end, &src, &dst);
    if v4 {
        assert(packet@[0] == buffer@[0]);
        fill_ipv4_checksum(&mut packet);
    }
    Some(PrismTrap { dst: Endpoint { addr: dst, port }, packet })
}

/// Detect a TCP SYN and build its trap event, clamping the MSS option to
/// the default ceiling.
pub fn inspect_packet(buffer: &[u8]) -> (r: Option<PrismTrap>)
    ensures
        r is Some <==> is_trapped_syn(buffer@),
        r matches Some(t) ==> t.dst == trap_dst(buffer@) && t.packet@ == trapped_packet(
            buffer@,
            DEFAULT_MSS_CLAMP,
        ),
{
    inspect_packet_with_mss(buffer, DEFAULT_MSS_CLAMP)
}

proof fn lemma_mss_scan_local(s: Seq<u8>, t: Seq<u8>, j: int, end: int)
    requires
        0 <= j,
        end <= s.len(),
        s.len() == t.len(),
        forall|x: int| j <= x < end ==> s[x] == t[x],
    ensures
        mss_scan(s, j, end) == mss_scan(t, j, end),
    decreases end - j,
{
    if j < end {
        if s[j] == TCP_OPT_EOL || s[j] == TCP_OPT_NOP {
            lemma_mss_scan_local(s, t, j + 1, end);
        } else if j + 1 < end && (s[j + 1] as int) >= 2 && j + s[j + 1] as int <= end {
            lemma_mss_scan_local(s, t, j + s[j + 1] as int, end);
        }
    }
}

proof fn lemma_walk_agree(b: Seq<u8>, q: Seq<u8>, nh: u8, off: int, budget: nat)
    requires
        0 <= off,
        b.len() == q.len(),
        walk_ext_headers(b, nh, off, budget) is Some,
        forall|x: int| 0 <= x < walk_ext_headers(b, nh, off, budget)->Some_0.1 ==> b[x] == q[x],
    ensures
        walk_ext_headers(q, nh, off, budget) == walk_ext_headers(b, nh, off, budget),
        off <= walk_ext_headers(b, nh, off, budget)->Some_0.1,
    decreases budget,
{
    if is_ext_header(nh) {
        let next = off + ext_header_len(b, nh, off);
        lemma_walk_agree(b, q, b[off], next, (budget - 1) as nat);
        assert(b[off] == q[off] && b[off + 1] == q[off + 1]);
    }
}

/// The checksums stored in a TCP packet are those computed over the packet
/// itself: the TCP checksum over the segment and its pseudo-header, and for
/// IPv4 the header checksum.
pub open spec fn checksums_consistent(q: Seq<u8>) -> bool {
    let seg = tcp_segment(q);
    let v4 = ip_version(q) == 4;
    &&& be16(seg[16], seg[17]) == tcp_checksum(
        addr_of(v4, src_octets(q)),
        addr_of(v4, dst_octets(q)),
        zero16(seg, 16),
    ) as int
    &&& v4 ==> be16(q[10], q[11]) == ipv4_header_checksum(
        zero16(q, 10).subrange(0, ipv4_header_len(q)),
    ) as int
}

proof fn lemma_segment_range_bounds(b: Seq<u8>)
    ensures
        tcp_segment_range(b) matches Some((s, e)) ==> 0 <= s <= e <= b.len() && (ip_version(b) == 6
            ==> 40 <= s),
{
    if b.len() >= 40 {
        lemma_walk_in_bounds(b, b[6], 40, MAX_EXT_HEADERS as nat);
    }
}

/// Trapping a SYN that was already trapped gives back the same bytes: the
/// MSS option is already within the ceiling and the checksums are already
/// those of the packet.
pub proof fn lemma_trap_idempotent(b: Seq<u8>, ceiling: u16)
    requires
        is_trapped_syn(b),
    ensures
        is_trapped_syn(trapped_packet(b, ceiling)),
        trapped_packet(trapped_packet(b, ceiling), ceiling) == trapped_packet(b, ceiling),
        trap_dst(trapped_packet(b, ceiling)) == trap_dst(b),
        clamp_mss(tcp_segment(trapped_packet(b, ceiling)), ceiling) == tcp_segment(
            trapped_packet(b, ceiling),
        ),
        checksums_consistent(trapped_packet(b, ceiling)),
{
    lemma_segment_range_bounds(b);
    let (start, end) = tcp_segment_range(b)->Some_0;
    let v4 = ip_version(b) == 4;
    let src = addr_of(v4, src_octets(b));
    let dst = addr_of(v4, dst_octets(b));
    let s = b.subrange(start, end);
    let s1 = clamp_mss(s, ceiling);
    lemma_clamp_mss_len(s, ceiling);
    lemma_clamp_mss_idempotent(s, ceiling);
    lemma_mss_option_bounds(s);
    let p1 = splice(b, start, end, s1);
    let ck = tcp_checksum(src, dst, zero16(p1.subrange(start, end), 16));
    let p2 = put_be16(p1, start + 16, ck);
    let q = trapped_packet(b, ceiling);
    assert(p1.subrange(start, end) =~= s1);
    assert(p1.len() == b.len());
    // Everything before the segment is as in `b`, but the IPv4 checksum.
    assert forall|x: int| 0 <= x < start && x != 10 && x != 11 implies q[x] == b[x] by {
        assert(p1[x] == b[x]);
    }
    assert(q.len() == b.len());
    let seg2 = q.subrange(start, end);
    assert(seg2 =~= put_be16(s1, 16, ck));
    // The second pass finds the same segment.
    if v4 {
        assert(ipv4_header_len(q) == ipv4_header_len(b));
        assert(ipv4_total_len(q) == ipv4_total_len(b));
        assert(ipv4_valid(q));
        assert(tcp_segment_range(q) == Some((start, end)));
    } else {
        assert(ipv6_valid(q));
        lemma_walk_agree(b, q, b[6], 40, MAX_EXT_HEADERS as nat);
        assert(tcp_segment_range(q) == Some((start, end)));
    }
    assert(tcp_segment(q) == seg2);
    assert(tcp_valid(seg2) && tcp_header_len(seg2) == tcp_header_len(s));
    assert(is_pure_syn(seg2));
    assert(src_octets(q) =~= src_octets(b));
    assert(dst_octets(q) =~= dst_octets(b));
    // Its MSS option is already clamped.
    if let Some(k) = mss_option(s) {
        lemma_mss_scan_local(s1, seg2, 20, tcp_header_len(s));
        assert(mss_option(seg2) == mss_option(s1));
        assert(mss_option(s1) == Some(k)) by {
            if be16(s[k + 2], s[k + 3]) > ceiling {
                lemma_mss_scan_stable(s, s1, 20, tcp_header_len(s), k);
            }
        }
        assert(seg2[k + 2] == s1[k + 2] && seg2[k + 3] == s1[k + 3]);
    } else {
        lemma_mss_scan_local(s, seg2, 20, tcp_header_len(s));
    }
    assert(clamp_mss(seg2, ceiling) == seg2);
    lemma_clamp_mss_len(s, ceiling);
    assert(seg2[2] == s[2] && seg2[3] == s[3]);
    assert(tcp_segment(b) == s);
    let q1 = splice(q, start, end, clamp_mss(seg2, ceiling));
    assert(q1 =~= q);
    assert(zero16(q1.subrange(start, end), 16) =~= zero16(p1.subrange(start, end), 16));
    let q2 = put_be16(q1, start + 16, tcp_checksum(src, dst, zero16(q1.subrange(start, end), 16)));
    assert(be16(seg2[16], seg2[17]) == ck);
    assert(zero16(seg2, 16) =~= zero16(s1, 16));
    if v4 {
        assert(q2 =~= q);
        assert(q =~= put_be16(p2, 10, ipv4_header_checksum(zero16(p2, 10).subrange(0, ipv4_header_len(p2)))));
        assert(zero16(q2, 10).subrange(0, start) =~= zero16(p2, 10).subrange(0, start));
        assert(ipv4_header_len(p2) == start);
        assert(trapped_packet(q, ceiling) =~= q);
        assert(zero16(q, 10).subrange(0, start) =~= zero16(p2, 10).subrange(0, start));
    } else {
        assert(q2 =~= q);
        assert(trapped_packet(q, ceiling) =~= q);
    }
}

/// Every trap event carries a pure SYN (SYN=1, ACK=0, RST=0) whose MSS
/// option, when present, is within the ceiling, and whose checksums are
/// those of the stored packet.
pub proof fn lemma_trapped_syn_well_formed(b: Seq<u8>, ceiling: u16)
    requires
        is_trapped_syn(b),
    ensures
        is_trapped_syn(trapped_packet(b, ceiling)),
        mss_option(tcp_segment(trapped_packet(b, ceiling))) matches Some(k) ==> be16(
            tcp_segment(trapped_packet(b, ceiling))[k + 2],
            tcp_segment(trapped_packet(b, ceiling))[k + 3],
        ) <= ceiling,
        checksums_consistent(trapped_packet(b, ceiling)),
{
    lemma_trap_idempotent(b, ceiling);
    let seg = tcp_segment(trapped_packet(b, ceiling));
    lemma_mss_option_bounds(seg);
    if let Some(k) = mss_option(seg) {
        if be16(seg[k + 2], seg[k + 3]) > ceiling {
            let t = put_be16(seg, k + 2, ceiling);
            assert(t[k + 2] == seg[k + 2] && t[k + 3] == seg[k + 3]);
            assert(be16(t[k + 2], t[k + 3]) == ceiling);
        }
    }
}

} // verus!
