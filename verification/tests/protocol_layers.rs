use nethawk::protocol::arp::ARPPacket;
use nethawk::protocol::icmp::ICMPPacket;
use nethawk::protocol::ip::{IPv4Packet, IPv6Packet};
use nethawk::protocol::tcp::TCPSegment;
use nethawk::protocol::udp::UDPSegment;
use nethawk::protocol::{
    dispatch_from_ethernet, dispatch_from_ipv4, dispatch_from_ipv6, EthernetFrame, ParseError, ParseResult,
};

// ── Ethernet ──

#[test]
fn ethernet_test_parse_valid() {
    let mut raw = [0u8; 20];
    raw[0..6].copy_from_slice(&[0xaa, 0xbb, 0xcc, 0xdd, 0xee, 0xff]);
    raw[6..12].copy_from_slice(&[0x11, 0x22, 0x33, 0x44, 0x55, 0x66]);
    raw[12..14].copy_from_slice(&[0x08, 0x00]);

    let frame = EthernetFrame::parse(&raw).unwrap();
    assert_eq!(frame.dst_mac, [0xaa, 0xbb, 0xcc, 0xdd, 0xee, 0xff]);
    assert_eq!(frame.src_mac, [0x11, 0x22, 0x33, 0x44, 0x55, 0x66]);
    assert_eq!(frame.ethernet_type, 0x0800);
    assert_eq!(frame.payload.len(), 6);
}

#[test]
fn ethernet_test_parse_too_short() {
    let raw = [0u8; 13];
    assert!(EthernetFrame::parse(&raw).is_err());
}

#[test]
fn ethernet_test_format_mac() {
    let mac = [0x00, 0x1a, 0x2b, 0x3c, 0x4d, 0x5e];
    assert_eq!(EthernetFrame::format_mac(&mac), "00:1a:2b:3c:4d:5e");
}

#[test]
fn ethernet_vlan_tag_is_skipped() {
    let mut raw = vec![0u8; 22];
    raw[12..14].copy_from_slice(&[0x81, 0x00]);
    raw[14..16].copy_from_slice(&[0xa0, 0x64]); // pcp=5, dei=0, vid=100
    raw[16..18].copy_from_slice(&[0x86, 0xdd]);
    let frame = EthernetFrame::parse(&raw).unwrap();
    assert_eq!(frame.ethernet_type, 0x86dd);
    let tag = frame.vlan.unwrap();
    assert_eq!(tag.pcp, 5);
    assert!(!tag.dei);
    assert_eq!(tag.vid, 100);
    assert_eq!(frame.payload.len(), 4);
}

#[test]
fn ethernet_vlan_frame_too_short() {
    let mut raw = vec![0u8; 17];
    raw[12..14].copy_from_slice(&[0x81, 0x00]);
    assert_eq!(EthernetFrame::parse(&raw).err(), Some(ParseError::TooShort));
}

// ── ARP ──

fn make_arp_request(sender_mac: [u8; 6], sender_ip: [u8; 4], target_mac: [u8; 6], target_ip: [u8; 4]) -> Vec<u8> {
    let mut raw = vec![0u8; 28];
    raw[0..2].copy_from_slice(&[0x00, 0x01]);
    raw[2..4].copy_from_slice(&[0x08, 0x00]);
    raw[4] = 6;
    raw[5] = 4;
    raw[6..8].copy_from_slice(&[0x00, 0x01]);
    raw[8..14].copy_from_slice(&sender_mac);
    raw[14..18].copy_from_slice(&sender_ip);
    raw[18..24].copy_from_slice(&target_mac);
    raw[24..28].copy_from_slice(&target_ip);
    raw
}

#[test]
fn test_parse_valid_request() {
    let raw = make_arp_request(
        [0xaa, 0xbb, 0xcc, 0xdd, 0xee, 0xff],
        [192, 168, 1, 1],
        [0x00, 0x00, 0x00, 0x00, 0x00, 0x00],
        [192, 168, 1, 100],
    );
    let arp = ARPPacket::parse(&raw).unwrap();
    assert_eq!(arp.hardware_type, 1);
    assert_eq!(arp.protocol_type, 0x0800);
    assert_eq!(arp.hw_addr_len, 6);
    assert_eq!(arp.proto_addr_len, 4);
    assert_eq!(arp.operation, 1);
    assert_eq!(arp.sender_hw_addr, &[0xaa, 0xbb, 0xcc, 0xdd, 0xee, 0xff]);
    assert_eq!(arp.sender_proto_addr, &[192, 168, 1, 1]);
    assert_eq!(arp.target_hw_addr, &[0, 0, 0, 0, 0, 0]);
    assert_eq!(arp.target_proto_addr, &[192, 168, 1, 100]);
}

#[test]
fn test_parse_valid_reply() {
    let mut raw = make_arp_request(
        [0x11, 0x22, 0x33, 0x44, 0x55, 0x66],
        [10, 0, 0, 1],
        [0xaa, 0xbb, 0xcc, 0xdd, 0xee, 0xff],
        [10, 0, 0, 2],
    );
    raw[6..8].copy_from_slice(&[0x00, 0x02]);
    let arp = ARPPacket::parse(&raw).unwrap();
    assert_eq!(arp.operation, 2);
}

#[test]
fn arp_test_parse_too_short() {
    let raw = [0u8; 7];
    assert!(ARPPacket::parse(&raw).is_err());
}

#[test]
fn test_parse_length_mismatch() {
    let raw = [0u8; 20];
    let mut raw = raw.to_vec();
    raw[4] = 6;
    raw[5] = 4;
    assert!(ARPPacket::parse(&raw).is_err());
}

#[test]
fn arp_errors_name_the_cause() {
    assert_eq!(ARPPacket::parse(&[0u8; 7]).err(), Some(ParseError::TooShort));
    let mut raw = vec![0u8; 20];
    raw[4] = 6;
    raw[5] = 4;
    assert_eq!(ARPPacket::parse(&raw).err(), Some(ParseError::Truncated));
}

#[test]
fn arp_test_format_mac() {
    assert_eq!(ARPPacket::format_mac(&[0x00, 0x1a, 0x2b, 0x3c, 0x4d, 0x5e]), "00:1a:2b:3c:4d:5e");
}

#[test]
fn arp_test_format_ip() {
    assert_eq!(ARPPacket::format_ip(&[192, 168, 0, 1]), "192.168.0.1");
}

#[test]
fn test_operation_name() {
    assert_eq!(ARPPacket::operation_name(1), "REQUEST");
    assert_eq!(ARPPacket::operation_name(2), "REPLY");
    assert_eq!(ARPPacket::operation_name(99), "???");
}

// ── IPv4 / IPv6 ──

fn make_ipv4(ttl: u8, protocol: u8, src: [u8; 4], dst: [u8; 4]) -> Vec<u8> {
    let mut raw = vec![0u8; 20];
    raw[0] = 0x45;
    raw[8] = ttl;
    raw[9] = protocol;
    raw[12..16].copy_from_slice(&src);
    raw[16..20].copy_from_slice(&dst);
    raw
}

#[test]
fn ip_test_parse_valid() {
    let raw = make_ipv4(64, 6, [192, 168, 1, 1], [8, 8, 8, 8]);
    let pkt = IPv4Packet::parse(&raw).unwrap();
    assert_eq!(pkt.ttl, 64);
    assert_eq!(pkt.next_protocol, 6);
    assert_eq!(pkt.src_ip, [192, 168, 1, 1]);
    assert_eq!(pkt.dst_ip, [8, 8, 8, 8]);
    assert_eq!(pkt.payload.len(), 0);
}

#[test]
fn ip_test_parse_too_short() {
    let raw = [0u8; 19];
    assert!(IPv4Packet::parse(&raw).is_err());
}

#[test]
fn test_parse_invalid_ihl() {
    let mut raw = vec![0u8; 20];
    raw[0] = 0x44;
    assert!(IPv4Packet::parse(&raw).is_err());
}

#[test]
fn ipv4_errors_name_the_cause() {
    assert_eq!(IPv4Packet::parse(&[0u8; 19]).err(), Some(ParseError::TooShort));
    let mut raw = vec![0u8; 20];
    raw[0] = 0x65;
    assert_eq!(IPv4Packet::parse(&raw).err(), Some(ParseError::BadVersion));
    raw[0] = 0x44;
    assert_eq!(IPv4Packet::parse(&raw).err(), Some(ParseError::BadHeaderLength));
    // IHL 15 announces 60 header bytes, more than the 20 given.
    raw[0] = 0x4f;
    assert_eq!(IPv4Packet::parse(&raw).err(), Some(ParseError::Truncated));
}

#[test]
fn ipv4_options_are_skipped() {
    let mut raw = vec![0u8; 28];
    raw[0] = 0x46; // 24-byte header
    raw[24..28].copy_from_slice(b"data");
    let pkt = IPv4Packet::parse(&raw).unwrap();
    assert_eq!(pkt.payload, b"data");
}

#[test]
fn ip_test_format_ip() {
    assert_eq!(IPv4Packet::format_ip(&[192, 168, 0, 1]), "192.168.0.1");
}

fn make_ipv6(next_header: u8, hop_limit: u8, src: [u8; 16], dst: [u8; 16], payload: &[u8]) -> Vec<u8> {
    let mut raw = vec![0u8; 40 + payload.len()];
    raw[0] = 0x60;
    let payload_len = payload.len() as u16;
    raw[4..6].copy_from_slice(&payload_len.to_be_bytes());
    raw[6] = next_header;
    raw[7] = hop_limit;
    raw[8..24].copy_from_slice(&src);
    raw[24..40].copy_from_slice(&dst);
    raw[40..].copy_from_slice(payload);
    raw
}

#[test]
fn test_ipv6_parse_valid() {
    let src = [0x20, 0x01, 0x0d, 0xb8, 0, 0, 0, 0, 0, 0, 0, 0, 0, 0, 0, 1];
    let dst = [0x20, 0x01, 0x0d, 0xb8, 0, 0, 0, 0, 0, 0, 0, 0, 0, 0, 0, 2];
    let raw = make_ipv6(17, 128, src, dst, b"dns");
    let pkt = IPv6Packet::parse(&raw).unwrap();

    assert_eq!(pkt.next_header, 17);
    assert_eq!(pkt.hop_limit, 128);
    assert_eq!(pkt.src_ip, src);
    assert_eq!(pkt.dst_ip, dst);
    assert_eq!(pkt.payload, b"dns");
}

#[test]
fn test_ipv6_parse_too_short() {
    let raw = [0u8; 39];
    assert!(IPv6Packet::parse(&raw).is_err());
}

#[test]
fn test_ipv6_parse_invalid_version() {
    let mut raw = vec![0u8; 40];
    raw[0] = 0x40;
    assert!(IPv6Packet::parse(&raw).is_err());
}

#[test]
fn ipv6_payload_length_beyond_data_is_truncated() {
    let mut raw = vec![0u8; 42];
    raw[0] = 0x60;
    raw[4..6].copy_from_slice(&3u16.to_be_bytes());
    assert_eq!(IPv6Packet::parse(&raw).err(), Some(ParseError::Truncated));
}

#[test]
fn test_ipv6_format_ip() {
    let ip = [0x20, 0x01, 0x0d, 0xb8, 0, 0, 0, 0, 0, 0, 0, 0, 0, 0, 0, 1];
    assert_eq!(IPv6Packet::format_ip(&ip), "2001:db8:0:0:0:0:0:1");
}

// ── TCP / UDP ──

fn make_tcp(src_port: u16, dst_port: u16, flags: u8) -> Vec<u8> {
    let mut raw = vec![0u8; 24];
    raw[0..2].copy_from_slice(&src_port.to_be_bytes());
    raw[2..4].copy_from_slice(&dst_port.to_be_bytes());
    raw[12] = 0x50;
    raw[13] = flags;
    raw[20..24].copy_from_slice(b"data");
    raw
}

#[test]
fn tcp_test_parse_valid() {
    let raw = make_tcp(12345, 80, 0x02);
    let seg = TCPSegment::parse(&raw).unwrap();
    assert_eq!(seg.src_port, 12345);
    assert_eq!(seg.dst_port, 80);
    assert_eq!(seg.flags & 0x02, 0x02);
    assert_eq!(seg.payload, b"data");
}

#[test]
fn tcp_test_parse_too_short() {
    let raw = [0u8; 19];
    assert!(TCPSegment::parse(&raw).is_err());
}

#[test]
fn test_parse_invalid_offset() {
    let mut raw = vec![0u8; 20];
    raw[12] = 0x10;
    assert!(TCPSegment::parse(&raw).is_err());
}

#[test]
fn tcp_reads_sequence_and_offset_beyond_data() {
    let mut raw = make_tcp(1, 2, 0x18);
    raw[4..8].copy_from_slice(&0xdeadbeefu32.to_be_bytes());
    raw[8..12].copy_from_slice(&7u32.to_be_bytes());
    let seg = TCPSegment::parse(&raw).unwrap();
    assert_eq!(seg.seq, 0xdeadbeef);
    assert_eq!(seg.ack, 7);
    raw[12] = 0x70; // 28-byte header in 24 bytes
    assert_eq!(TCPSegment::parse(&raw).err(), Some(ParseError::Truncated));
}

fn make_udp(src_port: u16, dst_port: u16, payload: &[u8]) -> Vec<u8> {
    let mut raw = vec![0u8; 8 + payload.len()];
    raw[0..2].copy_from_slice(&src_port.to_be_bytes());
    raw[2..4].copy_from_slice(&dst_port.to_be_bytes());
    let total_len = (8 + payload.len()) as u16;
    raw[4..6].copy_from_slice(&total_len.to_be_bytes());
    raw[8..].copy_from_slice(payload);
    raw
}

#[test]
fn udp_test_parse_valid() {
    let raw = make_udp(53, 12345, b"dns-query");
    let seg = UDPSegment::parse(&raw).unwrap();
    assert_eq!(seg.src_port, 53);
    assert_eq!(seg.dst_port, 12345);
    assert_eq!(seg.len, 17);
    assert_eq!(seg.payload, b"dns-query");
}

#[test]
fn test_parse_empty_payload() {
    let raw = make_udp(8080, 8081, b"");
    let seg = UDPSegment::parse(&raw).unwrap();
    assert_eq!(seg.len, 8);
    assert_eq!(seg.payload, b"");
}

#[test]
fn udp_test_parse_too_short() {
    let raw = [0u8; 7];
    assert!(UDPSegment::parse(&raw).is_err());
}

#[test]
fn test_parse_invalid_len() {
    let mut raw = vec![0u8; 8];
    raw[4..6].copy_from_slice(&4u16.to_be_bytes());
    assert!(UDPSegment::parse(&raw).is_err());
    assert_eq!(UDPSegment::parse(&raw).err(), Some(ParseError::BadLength));
}

// ── ICMP ──

fn make_echo(kind: u8, id: u16, seq: u16) -> Vec<u8> {
    let mut raw = vec![0u8; 8];
    raw[0] = kind;
    raw[1] = 0;
    raw[4..6].copy_from_slice(&id.to_be_bytes());
    raw[6..8].copy_from_slice(&seq.to_be_bytes());
    raw
}

#[test]
fn test_parse_echo_request() {
    let raw = make_echo(8, 0x1234, 0x0001);
    let msg = ICMPPacket::parse(&raw).unwrap();
    assert_eq!(msg.icmp_type, 8);
    assert_eq!(msg.code, 0);
    assert_eq!(msg.identifier(), Some(0x1234));
    assert_eq!(msg.sequence(), Some(0x0001));
}

#[test]
fn test_parse_echo_reply() {
    let raw = make_echo(0, 0x5678, 0x0002);
    let msg = ICMPPacket::parse(&raw).unwrap();
    assert_eq!(msg.icmp_type, 0);
    assert_eq!(msg.code, 0);
    assert_eq!(msg.identifier(), Some(0x5678));
    assert_eq!(msg.sequence(), Some(0x0002));
}

#[test]
fn icmp_test_parse_too_short() {
    let raw = [0u8; 3];
    assert!(ICMPPacket::parse(&raw).is_err());
}

#[test]
fn test_parse_minimal() {
    let raw = [0x03, 0x01, 0x00, 0x00];
    let msg = ICMPPacket::parse(&raw).unwrap();
    assert_eq!(msg.icmp_type, 3);
    assert_eq!(msg.code, 1);
    assert!(msg.payload.is_empty());
    assert_eq!(msg.identifier(), None);
    assert_eq!(msg.sequence(), None);
}

#[test]
fn icmp_identifier_without_sequence() {
    let raw = [0x08, 0x00, 0x12, 0x34, 0xab, 0xcd, 0x01];
    let msg = ICMPPacket::parse(&raw).unwrap();
    assert_eq!(msg.checksum, 0x1234);
    assert_eq!(msg.identifier(), Some(0xabcd));
    assert_eq!(msg.sequence(), None);
}

#[test]
fn test_type_name() {
    assert_eq!(ICMPPacket::type_label(0), "Echo Reply");
    assert_eq!(ICMPPacket::type_label(8), "Echo Request");
    assert_eq!(ICMPPacket::type_label(3), "Dest Unreachable");
    assert_eq!(ICMPPacket::type_label(11), "Time Exceeded");
    assert_eq!(ICMPPacket::type_label(128), "Echo Request (v6)");
    assert_eq!(ICMPPacket::type_label(129), "Echo Reply (v6)");
    assert_eq!(ICMPPacket::type_label(255), "???");
}

// ── dispatch ──

#[test]
fn dispatch_eth_unknown_ethertype() {
    let mut raw = [0u8; 20];
    raw[12..14].copy_from_slice(&[0x99, 0x99]);
    let eth = EthernetFrame::parse(&raw).unwrap();
    assert!(matches!(dispatch_from_ethernet(&eth).unwrap(), ParseResult::Unknown));
}

#[test]
fn dispatch_eth_to_ipv4() {
    let mut raw = vec![0u8; 34];
    raw[12..14].copy_from_slice(&[0x08, 0x00]);
    raw[14] = 0x45;
    raw[23] = 6;
    let eth = EthernetFrame::parse(&raw).unwrap();
    assert!(matches!(dispatch_from_ethernet(&eth).unwrap(), ParseResult::IPv4(_)));
}

#[test]
fn dispatch_ipv4_to_tcp() {
    let mut raw = vec![0u8; 40];
    raw[0] = 0x45;
    raw[9] = 6;
    raw[32] = 0x50;
    let ipv4 = IPv4Packet::parse(&raw).unwrap();
    assert!(matches!(dispatch_from_ipv4(&ipv4).unwrap(), ParseResult::TCP(_)));
}

#[test]
fn dispatch_ipv4_to_udp() {
    let mut raw = vec![0u8; 28];
    raw[0] = 0x45;
    raw[9] = 17;
    raw[24..26].copy_from_slice(&8u16.to_be_bytes());
    let ipv4 = IPv4Packet::parse(&raw).unwrap();
    assert!(matches!(dispatch_from_ipv4(&ipv4).unwrap(), ParseResult::UDP(_)));
}

#[test]
fn dispatch_ipv4_to_icmp() {
    let mut raw = vec![0u8; 24];
    raw[0] = 0x45;
    raw[9] = 1;
    let ipv4 = IPv4Packet::parse(&raw).unwrap();
    assert!(matches!(dispatch_from_ipv4(&ipv4).unwrap(), ParseResult::ICMP(_)));
}

#[test]
fn dispatch_ipv4_unknown_proto() {
    let mut raw = vec![0u8; 20];
    raw[0] = 0x45;
    raw[9] = 99;
    let ipv4 = IPv4Packet::parse(&raw).unwrap();
    assert!(matches!(dispatch_from_ipv4(&ipv4).unwrap(), ParseResult::Unknown));
}

#[test]
fn dispatch_ipv6_to_tcp() {
    let mut raw = vec![0u8; 60];
    raw[0] = 0x60;
    raw[6] = 6;
    raw[4..6].copy_from_slice(&20u16.to_be_bytes());
    raw[52] = 0x50;
    let ipv6 = IPv6Packet::parse(&raw).unwrap();
    assert!(matches!(dispatch_from_ipv6(&ipv6).unwrap(), ParseResult::TCP(_)));
}

#[test]
fn dispatch_ipv6_to_udp() {
    let mut raw = vec![0u8; 48];
    raw[0] = 0x60;
    raw[6] = 17;
    raw[4..6].copy_from_slice(&8u16.to_be_bytes());
    raw[44..46].copy_from_slice(&8u16.to_be_bytes());
    let ipv6 = IPv6Packet::parse(&raw).unwrap();
    assert!(matches!(dispatch_from_ipv6(&ipv6).unwrap(), ParseResult::UDP(_)));
}

#[test]
fn dispatch_ipv6_unknown_nh() {
    let mut raw = vec![0u8; 40];
    raw[0] = 0x60;
    raw[6] = 99;
    let ipv6 = IPv6Packet::parse(&raw).unwrap();
    assert!(matches!(dispatch_from_ipv6(&ipv6).unwrap(), ParseResult::Unknown));
}

#[test]
fn dispatch_reports_the_layer_error() {
    let mut raw = vec![0u8; 30];
    raw[12..14].copy_from_slice(&[0x08, 0x00]);
    let eth = EthernetFrame::parse(&raw).unwrap();
    assert_eq!(dispatch_from_ethernet(&eth).err(), Some(ParseError::TooShort));
    let mut raw = vec![0u8; 40];
    raw[12..14].copy_from_slice(&[0x08, 0x00]);
    let eth = EthernetFrame::parse(&raw).unwrap();
    assert_eq!(dispatch_from_ethernet(&eth).err(), Some(ParseError::BadVersion));
    let mut ip = vec![0u8; 22];
    ip[0] = 0x45;
    ip[9] = 1;
    let ipv4 = IPv4Packet::parse(&ip).unwrap();
    assert_eq!(dispatch_from_ipv4(&ipv4).err(), Some(ParseError::TooShort));
}

#[test]
fn parse_error_messages() {
    assert_eq!(ParseError::TooShort.message(), "报文长度过短");
    assert_eq!(ParseError::CompressionPointer.message(), "遇到压缩指针，当前尚未支持");
}
