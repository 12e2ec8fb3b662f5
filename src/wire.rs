//! Byte-level view of IPv4, IPv6 and TCP headers, and the calls into
//! smoltcp's wire module that validate lengths and fill in checksums.
use vstd::prelude::*;

use smoltcp::wire::{IpAddress, Ipv4Address, Ipv4Packet, Ipv6Address, Ipv6Packet, TcpPacket};

verus! {

/// IP protocol number of TCP.
pub const PROTO_TCP: u8 = 6;

/// IP protocol number of UDP.
pub const PROTO_UDP: u8 = 17;

/// IPv6 next-header values of the extension headers that are walked.
pub const PROTO_HOP_BY_HOP: u8 = 0;

pub const PROTO_IPV6_ROUTE: u8 = 43;

pub const PROTO_IPV6_FRAG: u8 = 44;

pub const PROTO_IPV6_OPTS: u8 = 60;

/// An IP address, as the bytes of its wire form.
#[derive(Debug, Clone, Copy, PartialEq, Eq, Hash)]
pub enum Addr {
    V4([u8; 4]),
    V6([u8; 16]),
}

impl Addr {
    /// The address bytes, in network order.
    pub open spec fn octets(self) -> Seq<u8> {
        match self {
            Addr::V4(a) => a@,
            Addr::V6(a) => a@,
        }
    }

    pub open spec fn is_v4(self) -> bool {
        self is V4
    }
}

/// The value of two big-endian bytes.
pub open spec fn be16(hi: u8, lo: u8) -> int {
    hi as int * 256 + lo as int
}

/// `b` with the big-endian bytes of `v` at `i` and `i + 1`.
pub open spec fn put_be16(b: Seq<u8>, i: int, v: u16) -> Seq<u8> {
    b.update(i, (v / 256) as u8).update(i + 1, (v % 256) as u8)
}

/// `b` with the bytes at `i` and `i + 1` cleared.
pub open spec fn zero16(b: Seq<u8>, i: int) -> Seq<u8> {
    b.update(i, 0u8).update(i + 1, 0u8)
}

/// The high nibble of the first byte: the IP version.
pub open spec fn ip_version(b: Seq<u8>) -> int {
    b[0] as int / 16
}

/// IPv4 header length in bytes, from the IHL field.
pub open spec fn ipv4_header_len(b: Seq<u8>) -> int {
    (b[0] as int % 16) * 4
}

/// IPv4 total length field.
pub open spec fn ipv4_total_len(b: Seq<u8>) -> int {
    be16(b[2], b[3])
}

/// The buffer holds the fixed IPv4 header, the header its IHL announces and
/// the total length its header announces.
pub open spec fn ipv4_valid(b: Seq<u8>) -> bool {
    &&& b.len() >= 20
    &&& b.len() >= ipv4_header_len(b)
    &&& ipv4_header_len(b) <= ipv4_total_len(b)
    &&& b.len() >= ipv4_total_len(b)
}

/// The buffer holds the fixed IPv6 header and the payload it announces.
pub open spec fn ipv6_valid(b: Seq<u8>) -> bool {
    b.len() >= 40 && b.len() >= 40 + be16(b[4], b[5])
}

/// TCP header length in bytes, from the data-offset field.
pub open spec fn tcp_header_len(s: Seq<u8>) -> int {
    (s[12] as int / 16) * 4
}

/// The segment holds a TCP header whose data offset is consistent.
pub open spec fn tcp_valid(s: Seq<u8>) -> bool {
    s.len() >= 20 && tcp_header_len(s) >= 20 && s.len() >= tcp_header_len(s)
}

/// The IPv4 header checksum that smoltcp computes over `header` (the header
/// bytes with the checksum field cleared).
pub uninterp spec fn ipv4_header_checksum(header: Seq<u8>) -> u16;

/// The TCP checksum that smoltcp computes over the pseudo-header of `src`
/// and `dst` and `segment` (the segment with the checksum field cleared).
pub uninterp spec fn tcp_checksum(src: Addr, dst: Addr, segment: Seq<u8>) -> u16;

/// Relies on smoltcp's `Ipv4Packet::new_checked` (its `check_len`): it
/// accepts exactly the buffers that `ipv4_valid` describes.
#[verifier::external_body]
pub(crate) fn ipv4_check(buf: &[u8]) -> (r: bool)
    ensures
        r == ipv4_valid(buf@),
{
    Ipv4Packet::new_checked(buf).is_ok()
}

/// Relies on smoltcp's `Ipv6Packet::new_checked` (its `check_len`): it
/// accepts exactly the buffers that `ipv6_valid` describes.
#[verifier::external_body]
pub(crate) fn ipv6_check(buf: &[u8]) -> (r: bool)
    ensures
        r == ipv6_valid(buf@),
{
    Ipv6Packet::new_checked(buf).is_ok()
}

/// Relies on smoltcp's `TcpPacket::new_checked` (its `check_len`), applied
/// to `buf[start..end]`: it accepts exactly the segments that `tcp_valid`
/// describes.
#[verifier::external_body]
pub(crate) fn tcp_check(buf: &[u8], start: usize, end: usize) -> (r: bool)
    requires
        start <= end <= buf@.len(),
    ensures
        r == tcp_valid(buf@.subrange(start as int, end as int)),
{
    TcpPacket::new_checked(&buf[start..end]).is_ok()
}

/// Relies on smoltcp's `Ipv4Packet::fill_checksum`: it clears the checksum
/// field (bytes 10 and 11), computes the checksum over the header and
/// writes it there in network order, touching nothing else.
#[verifier::external_body]
pub(crate) fn fill_ipv4_checksum(pkt: &mut Vec<u8>)
    requires
        old(pkt)@.len() >= 20,
        old(pkt)@.len() >= ipv4_header_len(old(pkt)@),
    ensures
        final(pkt)@ == put_be16(
            old(pkt)@,
            10,
            ipv4_header_checksum(
                zero16(old(pkt)@, 10).subrange(0, ipv4_header_len(old(pkt)@)),
            ),
        ),
{
    Ipv4Packet::new_unchecked(&mut pkt[..]).fill_checksum()
}

/// Relies on smoltcp's `TcpPacket::fill_checksum`, applied to
/// `pkt[start..end]`: it clears the checksum field (bytes 16 and 17 of the
/// segment), computes the checksum over the pseudo-header and the segment
/// and writes it there in network order, touching nothing else. Its sum of
/// 16-bit words is held in a `u32`, so the segment is kept to at most
/// 65535 bytes, and the two addresses must be of one family.
#[verifier::external_body]
pub(crate) fn fill_tcp_checksum(pkt: &mut Vec<u8>, start: usize, end: usize, src: &Addr, dst: &Addr)
    requires
        start + 18 <= end <= old(pkt)@.len(),
        end - start <= 65535,
        src.is_v4() == dst.is_v4(),
    ensures
        final(pkt)@ == put_be16(
            old(pkt)@,
            start + 16,
            tcp_checksum(*src, *dst, zero16(old(pkt)@.subrange(start as int, end as int), 16)),
        ),
{
    let s = match src {
        Addr::V4(o) => IpAddress::Ipv4(Ipv4Address::from_bytes(o)),
        Addr::V6(o) => IpAddress::Ipv6(Ipv6Address::from_bytes(o)),
    };
    let d = match dst {
        Addr::V4(o) => IpAddress::Ipv4(Ipv4Address::from_bytes(o)),
        Addr::V6(o) => IpAddress::Ipv6(Ipv6Address::from_bytes(o)),
    };
    TcpPacket::new_unchecked(&mut pkt[start..end]).fill_checksum(&s, &d)
}

} // verus!
