use prism::constants::DEFAULT_MSS_CLAMP;
use prism::trap::{
    clamp_mss_raw, get_packet_type, inspect_packet, inspect_packet_with_mss, skip_ipv6_headers,
    PacketType,
};
use prism::wire::Addr;
use smoltcp::wire::IpProtocol;

fn build_ipv4_tcp_syn(mss: u16) -> Vec<u8> {
    let mut pkt = vec![0u8; 44];
    pkt[0] = 0x45;
    pkt[2] = 0;
    pkt[3] = 44;
    pkt[8] = 64;
    pkt[9] = 6;
    pkt[12..16].copy_from_slice(&[192, 168, 1, 1]);
    pkt[16..20].copy_from_slice(&[10, 0, 0, 1]);
    let tcp = &mut pkt[20..];
    tcp[0] = (12345 >> 8) as u8;
    tcp[1] = (12345 & 0xFF) as u8;
    tcp[2] = 0;
    tcp[3] = 80;
    tcp[12] = 6 << 4;
    tcp[13] = 0x02;
    tcp[14] = 0xFF;
    tcp[15] = 0xFF;
    tcp[20] = 2;
    tcp[21] = 4;
    tcp[22] = (mss >> 8) as u8;
    tcp[23] = (mss & 0xFF) as u8;
    compute_ipv4_checksum(&mut pkt);
    compute_tcp_checksum_v4(&mut pkt, 20);
    pkt
}

fn build_ipv4_udp() -> Vec<u8> {
    let mut pkt = vec![0u8; 28];
    pkt[0] = 0x45;
    pkt[2] = 0;
    pkt[3] = 28;
    pkt[8] = 64;
    pkt[9] = 17;
    pkt[12..16].copy_from_slice(&[192, 168, 1, 1]);
    pkt[16..20].copy_from_slice(&[10, 0, 0, 1]);
    compute_ipv4_checksum(&mut pkt);
    pkt
}

fn build_ipv6_tcp_syn(mss: u16) -> Vec<u8> {
    let mut pkt = vec![0u8; 64];
    pkt[0] = 0x60;
    pkt[4] = 0;
    pkt[5] = 24;
    pkt[6] = 6;
    pkt[7] = 64;
    pkt[8..24].copy_from_slice(&[0xfd, 0x00, 0, 0, 0, 0, 0, 0, 0, 0, 0, 0, 0, 0, 0, 2]);
    pkt[24..40].copy_from_slice(&[0xfd, 0x00, 0, 0, 0, 0, 0, 0, 0, 0, 0, 0, 0, 0, 0, 1]);
    let tcp = &mut pkt[40..];
    tcp[0] = (12345 >> 8) as u8;
    tcp[1] = (12345 & 0xFF) as u8;
    tcp[2] = (443 >> 8) as u8;
    tcp[3] = (443 & 0xFF) as u8;
    tcp[12] = 6 << 4;
    tcp[13] = 0x02;
    tcp[14] = 0xFF;
    tcp[15] = 0xFF;
    tcp[20] = 2;
    tcp[21] = 4;
    tcp[22] = (mss >> 8) as u8;
    tcp[23] = (mss & 0xFF) as u8;
    pkt
}

/// An IPv6 TCP SYN behind `n` HopByHop extension headers of 8 bytes each.
fn build_ipv6_syn_with_hop_by_hop(n: usize, mss: u16) -> Vec<u8> {
    let plain = build_ipv6_tcp_syn(mss);
    let mut pkt = plain[..40].to_vec();
    let payload_len = n * 8 + 24;
    pkt[4] = (payload_len >> 8) as u8;
    pkt[5] = (payload_len & 0xFF) as u8;
    pkt[6] = if n == 0 { 6 } else { 0 };
    for i in 0..n {
        let next = if i + 1 == n { 6 } else { 0 };
        pkt.extend_from_slice(&[next, 0, 1, 4, 0, 0, 0, 0]);
    }
    pkt.extend_from_slice(&plain[40..]);
    pkt
}

fn fold(mut sum: u32) -> u16 {
    while sum > 0xFFFF {
        sum = (sum & 0xFFFF) + (sum >> 16);
    }
    sum as u16
}

fn sum_words(data: &[u8]) -> u32 {
    let mut sum: u32 = 0;
    let mut i = 0;
    while i < data.len() {
        let hi = data[i] as u32;
        let lo = if i + 1 < data.len() { data[i + 1] as u32 } else { 0 };
        sum += (hi << 8) | lo;
        i += 2;
    }
    sum
}

fn compute_ipv4_checksum(pkt: &mut [u8]) {
    pkt[10] = 0;
    pkt[11] = 0;
    let cksum = !fold(sum_words(&pkt[..20]));
    pkt[10] = (cksum >> 8) as u8;
    pkt[11] = (cksum & 0xFF) as u8;
}

fn compute_tcp_checksum_v4(pkt: &mut [u8], ip_hdr_len: usize) {
    let tcp_len = pkt.len() - ip_hdr_len;
    pkt[ip_hdr_len + 16] = 0;
    pkt[ip_hdr_len + 17] = 0;
    let sum = sum_words(&pkt[12..20]) + 6 + tcp_len as u32 + sum_words(&pkt[ip_hdr_len..]);
    let cksum = !fold(sum);
    pkt[ip_hdr_len + 16] = (cksum >> 8) as u8;
    pkt[ip_hdr_len + 17] = (cksum & 0xFF) as u8;
}

fn ipv4_checksum_valid(pkt: &[u8]) -> bool {
    fold(sum_words(&pkt[..20])) == 0xFFFF
}

fn tcp_v4_checksum_valid(pkt: &[u8], ip_hdr_len: usize) -> bool {
    let tcp_len = (pkt.len() - ip_hdr_len) as u32;
    fold(sum_words(&pkt[12..20]) + 6 + tcp_len + sum_words(&pkt[ip_hdr_len..])) == 0xFFFF
}

fn tcp_v6_checksum_valid(pkt: &[u8], tcp_start: usize) -> bool {
    let tcp_len = (pkt.len() - tcp_start) as u32;
    fold(sum_words(&pkt[8..40]) + 6 + tcp_len + sum_words(&pkt[tcp_start..])) == 0xFFFF
}

fn mss_at(pkt: &[u8], at: usize) -> u16 {
    ((pkt[at] as u16) << 8) | (pkt[at + 1] as u16)
}

#[test]
fn test_get_packet_type_tcp_v4() {
    let pkt = build_ipv4_tcp_syn(1460);
    assert!(matches!(get_packet_type(&pkt), PacketType::Tcp));
}

#[test]
fn test_get_packet_type_udp_v4() {
    let pkt = build_ipv4_udp();
    assert!(matches!(get_packet_type(&pkt), PacketType::Other));
}

#[test]
fn test_get_packet_type_tcp_v6() {
    let pkt = build_ipv6_tcp_syn(1460);
    assert!(matches!(get_packet_type(&pkt), PacketType::Tcp));
}

#[test]
fn test_get_packet_type_empty() {
    assert!(matches!(get_packet_type(&[]), PacketType::Unknown));
}

#[test]
fn test_get_packet_type_garbage() {
    assert!(matches!(get_packet_type(&[0xFF, 0x00]), PacketType::Unknown));
}

#[test]
fn test_inspect_ipv4_syn_detected() {
    let pkt = build_ipv4_tcp_syn(1460);
    let trap = inspect_packet(&pkt);
    assert!(trap.is_some());
    let trap = trap.unwrap();
    assert_eq!(trap.dst.port(), 80);
}

#[test]
fn test_inspect_ipv4_non_syn_ignored() {
    let mut pkt = build_ipv4_tcp_syn(1460);
    pkt[20 + 13] = 0x10;
    compute_ipv4_checksum(&mut pkt);
    compute_tcp_checksum_v4(&mut pkt, 20);
    assert!(inspect_packet(&pkt).is_none());
}

#[test]
fn test_mss_clamping_ipv4() {
    let pkt = build_ipv4_tcp_syn(1460);
    let trap = inspect_packet(&pkt).expect("Should detect SYN");
    let stored = trap.packet;
    let tcp_options = &stored[20 + 20..20 + 24];
    assert_eq!(tcp_options[0], 2);
    assert_eq!(tcp_options[1], 4);
    let clamped_mss = ((tcp_options[2] as u16) << 8) | (tcp_options[3] as u16);
    assert_eq!(clamped_mss, DEFAULT_MSS_CLAMP);
}

#[test]
fn test_mss_not_clamped_if_small() {
    let pkt = build_ipv4_tcp_syn(536);
    let trap = inspect_packet(&pkt).expect("Should detect SYN");
    let stored = trap.packet;
    let tcp_options = &stored[20 + 20..20 + 24];
    let mss = ((tcp_options[2] as u16) << 8) | (tcp_options[3] as u16);
    assert_eq!(mss, 536);
}

#[test]
fn test_inspect_ipv6_syn_detected() {
    let pkt = build_ipv6_tcp_syn(1460);
    let trap = inspect_packet(&pkt);
    assert!(trap.is_some());
    let trap = trap.unwrap();
    assert_eq!(trap.dst.port(), 443);
}

#[test]
fn test_mss_clamping_ipv6() {
    let pkt = build_ipv6_tcp_syn(1460);
    let trap = inspect_packet(&pkt).expect("Should detect IPv6 SYN");
    let stored = trap.packet;
    let tcp_options = &stored[60..64];
    assert_eq!(tcp_options[0], 2);
    let clamped_mss = ((tcp_options[2] as u16) << 8) | (tcp_options[3] as u16);
    assert_eq!(clamped_mss, DEFAULT_MSS_CLAMP);
}

#[test]
fn test_clamp_mss_raw_directly() {
    let mut tcp = vec![0u8; 24];
    tcp[12] = 6 << 4;
    tcp[13] = 0x02;
    tcp[20] = 2;
    tcp[21] = 4;
    tcp[22] = (8960 >> 8) as u8;
    tcp[23] = (8960 & 0xFF) as u8;
    clamp_mss_raw(&mut tcp);
    let new_mss = ((tcp[22] as u16) << 8) | (tcp[23] as u16);
    assert_eq!(new_mss, DEFAULT_MSS_CLAMP);
}

#[test]
fn test_skip_ipv6_headers_simple() {
    let pkt = build_ipv6_tcp_syn(1460);
    let result = skip_ipv6_headers(&pkt);
    assert!(result.is_ok());
    let (proto, offset) = result.unwrap();
    assert_eq!(IpProtocol::from(proto), IpProtocol::Tcp);
    assert_eq!(offset, 40);
}

#[test]
fn trapped_ipv4_syn_carries_valid_checksums_and_destination() {
    let pkt = build_ipv4_tcp_syn(1460);
    let trap = inspect_packet(&pkt).unwrap();
    assert_eq!(trap.dst.addr(), Addr::V4([10, 0, 0, 1]));
    assert_eq!(trap.packet.len(), pkt.len());
    assert_eq!(mss_at(&trap.packet, 42), 1280);
    assert!(ipv4_checksum_valid(&trap.packet));
    assert!(tcp_v4_checksum_valid(&trap.packet, 20));
    // The checksum had to change along with the MSS.
    assert_ne!(&trap.packet[36..38], &pkt[36..38]);
    assert_eq!(trap.packet[33], 0x02);
}

#[test]
fn trapped_packet_keeps_checksums_when_mss_is_small() {
    let pkt = build_ipv4_tcp_syn(536);
    let trap = inspect_packet(&pkt).unwrap();
    assert_eq!(trap.packet, pkt);
}

#[test]
fn clamping_a_trapped_syn_again_changes_nothing() {
    for pkt in [build_ipv4_tcp_syn(1460), build_ipv6_tcp_syn(9000), build_ipv6_syn_with_hop_by_hop(1, 1460)] {
        let once = inspect_packet(&pkt).unwrap().packet;
        let twice = inspect_packet(&once).unwrap().packet;
        assert_eq!(once, twice);
    }
    let mut tcp = vec![0u8; 24];
    tcp[12] = 6 << 4;
    tcp[13] = 0x02;
    tcp[20] = 2;
    tcp[21] = 4;
    tcp[22] = 0x23;
    tcp[23] = 0x00;
    clamp_mss_raw(&mut tcp);
    let once = tcp.clone();
    clamp_mss_raw(&mut tcp);
    assert_eq!(tcp, once);
}

#[test]
fn custom_mss_ceiling_is_applied() {
    let pkt = build_ipv4_tcp_syn(1460);
    let trap = inspect_packet_with_mss(&pkt, 1400).unwrap();
    assert_eq!(mss_at(&trap.packet, 42), 1400);
    assert!(tcp_v4_checksum_valid(&trap.packet, 20));
}

#[test]
fn ipv6_syn_behind_hop_by_hop_is_trapped_and_clamped() {
    let pkt = build_ipv6_syn_with_hop_by_hop(1, 1460);
    assert_eq!(skip_ipv6_headers(&pkt), Ok((6, 48)));
    let trap = inspect_packet(&pkt).expect("SYN behind HopByHop");
    assert_eq!(trap.dst.port(), 443);
    let mut fd00_1 = [0u8; 16];
    fd00_1[0] = 0xfd;
    fd00_1[15] = 1;
    assert_eq!(trap.dst.addr(), Addr::V6(fd00_1));
    assert_eq!(mss_at(&trap.packet, 48 + 22), 1280);
    assert!(tcp_v6_checksum_valid(&trap.packet, 48));
    assert!(!tcp_v6_checksum_valid(&pkt, 48));
}

#[test]
fn ten_extension_headers_are_walked() {
    let pkt = build_ipv6_syn_with_hop_by_hop(10, 1460);
    assert_eq!(skip_ipv6_headers(&pkt), Ok((6, 120)));
    assert_eq!(get_packet_type(&pkt), PacketType::Tcp);
}

#[test]
fn eleven_extension_headers_are_unknown() {
    let pkt = build_ipv6_syn_with_hop_by_hop(11, 1460);
    assert!(skip_ipv6_headers(&pkt).is_err());
    assert_eq!(get_packet_type(&pkt), PacketType::Unknown);
    assert!(inspect_packet(&pkt).is_none());
}

#[test]
fn truncated_extension_header_is_unknown() {
    let mut pkt = build_ipv6_tcp_syn(1460)[..40].to_vec();
    pkt[5] = 4;
    pkt[6] = 0;
    pkt.extend_from_slice(&[6, 0, 0, 0]);
    assert_eq!(get_packet_type(&pkt), PacketType::Unknown);
}

#[test]
fn one_byte_ipv4_is_unknown() {
    assert_eq!(get_packet_type(&[0x45]), PacketType::Unknown);
}

#[test]
fn ipv4_total_length_beyond_buffer_is_unknown() {
    let mut pkt = build_ipv4_udp();
    pkt[3] = 200;
    assert_eq!(get_packet_type(&pkt), PacketType::Unknown);
}

#[test]
fn syn_ack_and_rst_are_not_trapped() {
    let mut pkt = build_ipv4_tcp_syn(1460);
    pkt[33] = 0x12;
    assert!(inspect_packet(&pkt).is_none());
    pkt[33] = 0x06;
    assert!(inspect_packet(&pkt).is_none());
    assert!(inspect_packet(&build_ipv4_udp()).is_none());
}

#[test]
fn malformed_option_length_stops_the_scan() {
    let mut tcp = vec![0u8; 28];
    tcp[12] = 7 << 4;
    tcp[20] = 8;
    tcp[21] = 0;
    tcp[24] = 2;
    tcp[25] = 4;
    tcp[26] = 0x23;
    tcp[27] = 0x00;
    let before = tcp.clone();
    clamp_mss_raw(&mut tcp);
    assert_eq!(tcp, before);
}

#[test]
fn mss_after_nop_and_other_options_is_found() {
    let mut tcp = vec![0u8; 32];
    tcp[12] = 8 << 4;
    tcp[20] = 1;
    tcp[21] = 3;
    tcp[22] = 3;
    tcp[23] = 7;
    tcp[24] = 2;
    tcp[25] = 4;
    tcp[26] = 0x05;
    tcp[27] = 0xb4;
    clamp_mss_raw(&mut tcp);
    assert_eq!(mss_at(&tcp, 26), 1280);
}

#[test]
fn ipv4_header_checksum_is_recomputed() {
    let mut pkt = build_ipv4_tcp_syn(536);
    pkt[10] = 0;
    pkt[11] = 0;
    assert!(!ipv4_checksum_valid(&pkt));
    let trap = inspect_packet(&pkt).unwrap();
    assert!(ipv4_checksum_valid(&trap.packet));
    assert_ne!(&trap.packet[10..12], &[0, 0]);
}

#[test]
fn tcp_checksum_is_recomputed_even_without_clamping() {
    let mut pkt = build_ipv4_tcp_syn(536);
    pkt[36] = 0;
    pkt[37] = 0;
    assert!(!tcp_v4_checksum_valid(&pkt, 20));
    let trap = inspect_packet(&pkt).unwrap();
    assert!(tcp_v4_checksum_valid(&trap.packet, 20));
}

#[test]
fn ipv4_header_shorter_than_twenty_bytes_is_not_trapped() {
    let mut pkt = build_ipv4_tcp_syn(1460);
    pkt[0] = 0x42;
    compute_ipv4_checksum(&mut pkt);
    assert!(inspect_packet(&pkt).is_none());
}
