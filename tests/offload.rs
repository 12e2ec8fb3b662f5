use prism::constants::VIRTIO_NET_HDR_SIZE;
use prism::offload::{
    prepend_virtio_hdr_csum, prepend_virtio_hdr_none, strip_virtio_hdr, VirtioNetHdr,
    VIRTIO_NET_HDR_F_NEEDS_CSUM, VIRTIO_NET_HDR_GSO_NONE, VIRTIO_NET_HDR_GSO_TCPV4,
};

#[test]
fn test_virtio_hdr_none_is_all_zeros() {
    let hdr = VirtioNetHdr::none();
    assert_eq!(hdr.flags, 0);
    assert_eq!(hdr.gso_type, VIRTIO_NET_HDR_GSO_NONE);
    assert_eq!(hdr.gso_size, 0);
}

#[test]
fn test_parse_roundtrip() {
    let sent = VirtioNetHdr {
        flags: VIRTIO_NET_HDR_F_NEEDS_CSUM,
        gso_type: VIRTIO_NET_HDR_GSO_TCPV4,
        hdr_len: 54,
        gso_size: 1460,
        csum_start: 34,
        csum_offset: 16,
    };
    let mut buf = [0u8; 10];
    sent.write_to(&mut buf);
    let parsed = VirtioNetHdr::parse(&buf).unwrap();
    assert_eq!(parsed.flags, sent.flags);
    assert_eq!(parsed.gso_type, sent.gso_type);
    assert_eq!(parsed.hdr_len, sent.hdr_len);
    assert_eq!(parsed.gso_size, sent.gso_size);
    assert_eq!(parsed.csum_start, sent.csum_start);
    assert_eq!(parsed.csum_offset, sent.csum_offset);
}

#[test]
fn test_strip_virtio_hdr() {
    let mut data = vec![0u8; 10];
    data.extend_from_slice(&[0x45, 0x00, 0x00, 0x28]);
    let stripped = strip_virtio_hdr(&data);
    assert_eq!(stripped.len(), 4);
    assert_eq!(stripped[0], 0x45);
}

#[test]
fn test_prepend_virtio_hdr_none() {
    let packet = vec![0x45u8; 20];
    let result = prepend_virtio_hdr_none(&packet);
    assert_eq!(result.len(), VIRTIO_NET_HDR_SIZE + 20);
    assert!(result[..VIRTIO_NET_HDR_SIZE].iter().all(|&b| b == 0));
    assert_eq!(&result[VIRTIO_NET_HDR_SIZE..], &packet[..]);
}

#[test]
fn test_prepend_virtio_hdr_csum_tcp_v4() {
    let mut packet = vec![0u8; 40];
    packet[0] = 0x45;
    packet[9] = 6;
    let result = prepend_virtio_hdr_csum(&packet);
    let hdr = VirtioNetHdr::parse(&result).unwrap();
    assert_eq!(hdr.flags, VIRTIO_NET_HDR_F_NEEDS_CSUM);
    assert_eq!(hdr.csum_start, 20);
    assert_eq!(hdr.csum_offset, 16);
}

#[test]
fn test_prepend_virtio_hdr_csum_udp_v6() {
    let mut packet = vec![0u8; 48];
    packet[0] = 0x60;
    packet[6] = 17;
    let result = prepend_virtio_hdr_csum(&packet);
    let hdr = VirtioNetHdr::parse(&result).unwrap();
    assert_eq!(hdr.flags, VIRTIO_NET_HDR_F_NEEDS_CSUM);
    assert_eq!(hdr.csum_start, 40);
    assert_eq!(hdr.csum_offset, 6);
}

#[test]
fn test_prepend_virtio_hdr_csum_unknown_proto() {
    let mut packet = vec![0u8; 28];
    packet[0] = 0x45;
    packet[9] = 1;
    let result = prepend_virtio_hdr_csum(&packet);
    let hdr = VirtioNetHdr::parse(&result).unwrap();
    assert_eq!(hdr.flags, 0);
    assert_eq!(hdr.gso_type, VIRTIO_NET_HDR_GSO_NONE);
}

#[test]
fn parse_then_serialize_is_bit_exact() {
    let bytes = [0x01u8, 0x04, 0x36, 0x00, 0xb4, 0x05, 0x22, 0x00, 0x10, 0x00, 0xaa, 0xbb];
    let hdr = VirtioNetHdr::parse(&bytes).unwrap();
    assert_eq!(hdr.hdr_len, 54);
    assert_eq!(hdr.gso_size, 1460);
    assert_eq!(hdr.gso_type, 4);
    let mut out = [0xffu8; 12];
    hdr.write_to(&mut out);
    assert_eq!(&out[..10], &bytes[..10]);
    assert_eq!(&out[10..], &[0xff, 0xff]);
    assert_eq!(hdr.to_bytes(), bytes[..10].to_vec());
}

#[test]
fn write_to_is_little_endian() {
    let hdr = VirtioNetHdr {
        flags: 1,
        gso_type: 0,
        hdr_len: 0x0102,
        gso_size: 0x0304,
        csum_start: 0x0506,
        csum_offset: 0x0708,
    };
    let mut buf = [0u8; 10];
    hdr.write_to(&mut buf);
    assert_eq!(buf, [1, 0, 0x02, 0x01, 0x04, 0x03, 0x06, 0x05, 0x08, 0x07]);
}

#[test]
fn parse_rejects_short_buffer() {
    assert!(VirtioNetHdr::parse(&[0u8; 9]).is_none());
    assert!(VirtioNetHdr::parse(&[]).is_none());
}

#[test]
fn default_header_is_none() {
    assert_eq!(VirtioNetHdr::default(), VirtioNetHdr::none());
}

#[test]
fn strip_after_prepend_gives_back_the_packet() {
    let packet: Vec<u8> = (0u8..60).collect();
    let framed = prepend_virtio_hdr_none(&packet);
    assert_eq!(strip_virtio_hdr(&framed), &packet[..]);
    let mut tcp = vec![0u8; 40];
    tcp[0] = 0x45;
    tcp[9] = 6;
    let framed = prepend_virtio_hdr_csum(&tcp);
    assert_eq!(strip_virtio_hdr(&framed), &tcp[..]);
    let empty: Vec<u8> = Vec::new();
    assert_eq!(strip_virtio_hdr(&prepend_virtio_hdr_none(&empty)).len(), 0);
}

#[test]
fn csum_hint_uses_ihl_and_skips_extension_headers() {
    let mut packet = vec![0u8; 44];
    packet[0] = 0x46;
    packet[9] = 17;
    let hdr = VirtioNetHdr::parse(&prepend_virtio_hdr_csum(&packet)).unwrap();
    assert_eq!(hdr.csum_start, 24);
    assert_eq!(hdr.csum_offset, 6);

    let mut v6 = vec![0u8; 56];
    v6[0] = 0x60;
    v6[6] = 0;
    let hdr = VirtioNetHdr::parse(&prepend_virtio_hdr_csum(&v6)).unwrap();
    assert_eq!(hdr, VirtioNetHdr::none());

    let short = vec![0x45u8, 0, 0];
    let result = prepend_virtio_hdr_csum(&short);
    assert_eq!(VirtioNetHdr::parse(&result).unwrap(), VirtioNetHdr::none());
    assert_eq!(&result[10..], &short[..]);
}
