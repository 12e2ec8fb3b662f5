//! The 10-byte virtio-net header that a TUN device in vnet-header mode puts
//! in front of every packet, and the helpers that strip and prepend it.
use vstd::prelude::*;

use crate::constants::VIRTIO_NET_HDR_SIZE;
use crate::wire::{PROTO_TCP, PROTO_UDP};

verus! {

/// `flags` bit: the receiver must fill in the L4 checksum.
pub const VIRTIO_NET_HDR_F_NEEDS_CSUM: u8 = 1;

/// `gso_type`: no segmentation offload.
pub const VIRTIO_NET_HDR_GSO_NONE: u8 = 0;

/// `gso_type`: TCP over IPv4 segmentation.
pub const VIRTIO_NET_HDR_GSO_TCPV4: u8 = 1;

/// `gso_type`: TCP over IPv6 segmentation.
pub const VIRTIO_NET_HDR_GSO_TCPV6: u8 = 4;

/// Parsed virtio-net header; multi-byte fields are little-endian on the wire.
#[derive(Debug, Clone, Copy, PartialEq, Eq, Structural)]
pub struct VirtioNetHdr {
    pub flags: u8,
    pub gso_type: u8,
    pub hdr_len: u16,
    pub gso_size: u16,
    pub csum_start: u16,
    pub csum_offset: u16,
}

/// The value of two little-endian bytes.
pub open spec fn le16(lo: u8, hi: u8) -> u16 {
    (lo as int + 256 * (hi as int)) as u16
}

/// The two little-endian bytes of a value.
pub open spec fn le_bytes(v: u16) -> Seq<u8> {
    seq![(v % 256) as u8, (v / 256) as u8]
}

impl VirtioNetHdr {
    /// The ten bytes that represent this header on the wire.
    pub open spec fn encode(self) -> Seq<u8> {
        seq![self.flags, self.gso_type] + le_bytes(self.hdr_len) + le_bytes(self.gso_size)
            + le_bytes(self.csum_start) + le_bytes(self.csum_offset)
    }

    /// The header that the first ten bytes of `b` represent.
    pub open spec fn decode(b: Seq<u8>) -> VirtioNetHdr
        recommends
            b.len() >= 10,
    {
        VirtioNetHdr {
            flags: b[0],
            gso_type: b[1],
            hdr_len: le16(b[2], b[3]),
            gso_size: le16(b[4], b[5]),
            csum_start: le16(b[6], b[7]),
            csum_offset: le16(b[8], b[9]),
        }
    }

    /// The header with every field zero.
    pub open spec fn zeroed() -> VirtioNetHdr {
        VirtioNetHdr {
            flags: 0,
            gso_type: 0,
            hdr_len: 0,
            gso_size: 0,
            csum_start: 0,
            csum_offset: 0,
        }
    }

    /// Parse a virtio-net header from the start of a buffer.
    pub fn parse(buf: &[u8]) -> (r: Option<Self>)
        ensures
            buf@.len() < 10 ==> r.is_none(),
            buf@.len() >= 10 ==> r == Some(Self::decode(buf@)),
    {
        if buf.len() < VIRTIO_NET_HDR_SIZE {
            return None;
        }
        Some(Self {
            flags: buf[0],
            gso_type: buf[1],
            hdr_len: read_le16(buf[2], buf[3]),
            gso_size: read_le16(buf[4], buf[5]),
            csum_start: read_le16(buf[6], buf[7]),
            csum_offset: read_le16(buf[8], buf[9]),
        })
    }

    /// Serialize this header into the first ten bytes of a buffer.
    pub fn write_to(&self, buf: &mut [u8])
        requires
            old(buf)@.len() >= 10,
        ensures
            final(buf)@ == self.encode() + old(buf)@.subrange(10, old(buf)@.len() as int),
    {
        buf[0] = self.flags;
        buf[1] = self.gso_type;
        buf[2] = (self.hdr_len % 256) as u8;
        buf[3] = (self.hdr_len / 256) as u8;
        buf[4] = (self.gso_size % 256) as u8;
        buf[5] = (self.gso_size / 256) as u8;
        buf[6] = (self.csum_start % 256) as u8;
        buf[7] = (self.csum_start / 256) as u8;
        buf[8] = (self.csum_offset % 256) as u8;
        buf[9] = (self.csum_offset / 256) as u8;
        assert(buf@ =~= self.encode() + old(buf)@.subrange(10, old(buf)@.len() as int));
    }

    /// An empty header: no checksum offload, no segmentation.
    pub fn none() -> (r: Self)
        ensures
            r == Self::zeroed(),
    {
        Self { flags: 0, gso_type: VIRTIO_NET_HDR_GSO_NONE, hdr_len: 0, gso_size: 0, csum_start: 0, csum_offset: 0 }
    }

    /// The serialized bytes of this header.
    pub fn to_bytes(&self) -> (r: Vec<u8>)
        ensures
            r@ == self.encode(),
    {
        let mut v: Vec<u8> = Vec::new();
        v.push(self.flags);
        v.push(self.gso_type);
        v.push((self.hdr_len % 256) as u8);
        v.push((self.hdr_len / 256) as u8);
        v.push((self.gso_size % 256) as u8);
        v.push((self.gso_size / 256) as u8);
        v.push((self.csum_start % 256) as u8);
        v.push((self.csum_start / 256) as u8);
        v.push((self.csum_offset % 256) as u8);
        v.push((self.csum_offset / 256) as u8);
        assert(v@ =~= self.encode());
        v
    }
}

impl Default for VirtioNetHdr {
    fn default() -> (r: Self)
        ensures
            r == Self::zeroed(),
    {
        Self::none()
    }
}

fn read_le16(lo: u8, hi: u8) -> (r: u16)
    ensures
        r == le16(lo, hi),
{
    lo as u16 + (hi as u16) * 256
}

/// Parsing the first ten bytes of a buffer and serializing the result gives
/// back exactly those ten bytes.
pub proof fn lemma_parse_then_serialize(b: Seq<u8>)
    requires
        b.len() >= 10,
    ensures
        VirtioNetHdr::decode(b).encode() == b.subrange(0, 10),
{
    assert(VirtioNetHdr::decode(b).encode() =~= b.subrange(0, 10));
}

/// Serializing a header and parsing the bytes gives back the same header,
/// whatever follows it in the buffer.
pub proof fn lemma_serialize_then_parse(h: VirtioNetHdr, rest: Seq<u8>)
    ensures
        VirtioNetHdr::decode(h.encode() + rest) == h,
{
    let b = h.encode() + rest;
    assert(b[2] == (h.hdr_len % 256) as u8 && b[3] == (h.hdr_len / 256) as u8);
    assert(b[4] == (h.gso_size % 256) as u8 && b[5] == (h.gso_size / 256) as u8);
    assert(b[6] == (h.csum_start % 256) as u8 && b[7] == (h.csum_start / 256) as u8);
    assert(b[8] == (h.csum_offset % 256) as u8 && b[9] == (h.csum_offset / 256) as u8);
}

/// The IP packet that follows a ten-byte virtio-net header.
pub fn strip_virtio_hdr(buf: &[u8]) -> (r: &[u8])
    requires
        buf@.len() >= 10,
    ensures
        r@ == buf@.subrange(10, buf@.len() as int),
{
    vstd::slice::slice_subrange(buf, VIRTIO_NET_HDR_SIZE, buf.len())
}

/// `hdr` followed by `packet`.
pub open spec fn framed(hdr: VirtioNetHdr, packet: Seq<u8>) -> Seq<u8> {
    hdr.encode() + packet
}

fn frame(hdr: &VirtioNetHdr, packet: &[u8]) -> (r: Vec<u8>)
    requires
        packet@.len() + 10 <= usize::MAX,
    ensures
        r@ == framed(*hdr, packet@),
{
    let mut out = hdr.to_bytes();
    let mut i: usize = 0;
    while i < packet.len()
        invariant
            i <= packet@.len(),
            out@ == hdr.encode() + packet@.subrange(0, i as int),
        decreases packet@.len() - i,
    {
        out.push(packet[i]);
        i = i + 1;
        assert(out@ =~= hdr.encode() + packet@.subrange(0, i as int));
    }
    assert(packet@.subrange(0, packet@.len() as int) =~= packet@);
    out
}

/// Prepend an empty virtio-net header (no offload) to a packet.
pub fn prepend_virtio_hdr_none(packet: &[u8]) -> (r: Vec<u8>)
    requires
        packet@.len() + 10 <= usize::MAX,
    ensures
        r@ == framed(VirtioNetHdr::zeroed(), packet@),
{
    let hdr = VirtioNetHdr::none();
    frame(&hdr, packet)
}

/// The checksum-offload header that suits `p`, if its protocol has one:
/// TCP and UDP directly after an IPv4 header or the fixed IPv6 header.
pub open spec fn csum_hint(p: Seq<u8>) -> Option<VirtioNetHdr> {
    let version = p[0] / 16;
    let ip_hdr_len: int = if version == 4 { (p[0] % 16) * 4 } else { 40 };
    let protocol: u8 = if version == 4 { p[9] } else { p[6] };
    if p.len() == 0 || !(version == 4 || version == 6) {
        None
    } else if (version == 4 && p.len() < 10) || (version == 6 && p.len() < 7) {
        None
    } else if protocol != PROTO_TCP && protocol != PROTO_UDP {
        None
    } else {
        Some(
            VirtioNetHdr {
                flags: VIRTIO_NET_HDR_F_NEEDS_CSUM,
                gso_type: VIRTIO_NET_HDR_GSO_NONE,
                hdr_len: 0,
                gso_size: 0,
                csum_start: ip_hdr_len as u16,
                csum_offset: if protocol == PROTO_TCP { 16 } else { 6 },
            },
        )
    }
}

/// Prepend a virtio-net header with checksum-offload hints: for TCP the
/// checksum sits 16 bytes into the L4 header, for UDP 6 bytes. Packets of
/// other protocols get an empty header.
pub fn prepend_virtio_hdr_csum(packet: &[u8]) -> (r: Vec<u8>)
    requires
        packet@.len() + 10 <= usize::MAX,
    ensures
        r@ == framed(
            match csum_hint(packet@) {
                Some(h) => h,
                None => VirtioNetHdr::zeroed(),
            },
            packet@,
        ),
{
    if packet.len() == 0 {
        return prepend_virtio_hdr_none(packet);
    }
    let version = packet[0] / 16;
    let ip_hdr_len: u16;
    let protocol: u8;
    if version == 4 {
        if packet.len() < 10 {
            return prepend_virtio_hdr_none(packet);
        }
        ip_hdr_len = (packet[0] % 16) as u16 * 4;
        protocol = packet[9];
    } else if version == 6 {
        if packet.len() < 7 {
            return prepend_virtio_hdr_none(packet);
        }
        ip_hdr_len = 40;
        protocol = packet[6];
    } else {
        return prepend_virtio_hdr_none(packet);
    }
    let csum_offset: u16 = if protocol == PROTO_TCP {
        16
    } else if protocol == PROTO_UDP {
        6
    } else {
        return prepend_virtio_hdr_none(packet);
    };
    let hdr = VirtioNetHdr {
        flags: VIRTIO_NET_HDR_F_NEEDS_CSUM,
        gso_type: VIRTIO_NET_HDR_GSO_NONE,
        hdr_len: 0,
        gso_size: 0,
        csum_start: ip_hdr_len,
        csum_offset,
    };
    frame(&hdr, packet)
}

/// Stripping the header that was put in front of a packet gives back the
/// packet, whichever header it was.
pub proof fn lemma_strip_after_prepend(hdr: VirtioNetHdr, packet: Seq<u8>)
    ensures
        framed(hdr, packet).len() >= 10,
        framed(hdr, packet).subrange(10, framed(hdr, packet).len() as int) == packet,
{
    assert(framed(hdr, packet).subrange(10, framed(hdr, packet).len() as int) =~= packet);
}

} // verus!
