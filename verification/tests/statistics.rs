use nethawk::cli::StatsArgs;
use nethawk::status::{
    parse_arp, parse_icmp, protocol_label, session_detail, LiveStats, SessionKey, StatAccumulator, StatEngine,
    StatSource, ARP_PROTO,
};

fn build_ipv4_tcp_packet() -> Vec<u8> {
    let mut pkt = Vec::new();
    pkt.extend_from_slice(&[0x00; 6]);
    pkt.extend_from_slice(&[0x00; 6]);
    pkt.extend_from_slice(&0x0800u16.to_be_bytes());
    pkt.push(0x45);
    pkt.push(0x00);
    pkt.extend_from_slice(&40u16.to_be_bytes());
    pkt.extend_from_slice(&[0x00, 0x00]);
    pkt.extend_from_slice(&[0x00, 0x00]);
    pkt.push(64);
    pkt.push(6);
    pkt.extend_from_slice(&[0x00, 0x00]);
    pkt.extend_from_slice(&[192, 168, 1, 1]);
    pkt.extend_from_slice(&[10, 0, 0, 1]);
    pkt.extend_from_slice(&443u16.to_be_bytes());
    pkt.extend_from_slice(&52831u16.to_be_bytes());
    pkt.extend_from_slice(&[0x00, 0x00, 0x00, 0x00]);
    pkt.extend_from_slice(&[0x00, 0x00, 0x00, 0x00]);
    pkt.push(0x50);
    pkt.push(0x00);
    pkt.extend_from_slice(&[0x00, 0x00]);
    pkt.extend_from_slice(&[0x00, 0x00]);
    pkt.extend_from_slice(&[0x00, 0x00]);
    pkt
}

fn build_ipv4_udp_packet() -> Vec<u8> {
    let mut pkt = Vec::new();
    pkt.extend_from_slice(&[0x00; 6]);
    pkt.extend_from_slice(&[0x00; 6]);
    pkt.extend_from_slice(&0x0800u16.to_be_bytes());
    pkt.push(0x45);
    pkt.push(0x00);
    pkt.extend_from_slice(&28u16.to_be_bytes());
    pkt.extend_from_slice(&[0x00, 0x00]);
    pkt.extend_from_slice(&[0x00, 0x00]);
    pkt.push(64);
    pkt.push(17);
    pkt.extend_from_slice(&[0x00, 0x00]);
    pkt.extend_from_slice(&[192, 168, 1, 1]);
    pkt.extend_from_slice(&[10, 0, 0, 1]);
    pkt.extend_from_slice(&53u16.to_be_bytes());
    pkt.extend_from_slice(&5353u16.to_be_bytes());
    pkt.extend_from_slice(&8u16.to_be_bytes());
    pkt.extend_from_slice(&[0x00, 0x00]);
    pkt
}

fn build_arp_packet() -> Vec<u8> {
    let mut pkt = Vec::new();
    pkt.extend_from_slice(&[0xff; 6]);
    pkt.extend_from_slice(&[0xaa, 0xbb, 0xcc, 0xdd, 0xee, 0xff]);
    pkt.extend_from_slice(&0x0806u16.to_be_bytes());
    pkt.extend_from_slice(&1u16.to_be_bytes());
    pkt.extend_from_slice(&0x0800u16.to_be_bytes());
    pkt.push(6);
    pkt.push(4);
    pkt.extend_from_slice(&1u16.to_be_bytes());
    pkt.extend_from_slice(&[0xaa, 0xbb, 0xcc, 0xdd, 0xee, 0xff]);
    pkt.extend_from_slice(&[192, 168, 1, 1]);
    pkt.extend_from_slice(&[0x00; 6]);
    pkt.extend_from_slice(&[192, 168, 1, 254]);
    pkt
}

fn build_ipv4_icmp_packet() -> Vec<u8> {
    let mut pkt = Vec::new();
    pkt.extend_from_slice(&[0x00; 6]);
    pkt.extend_from_slice(&[0x00; 6]);
    pkt.extend_from_slice(&0x0800u16.to_be_bytes());
    pkt.push(0x45);
    pkt.push(0x00);
    pkt.extend_from_slice(&28u16.to_be_bytes());
    pkt.extend_from_slice(&[0x00, 0x00]);
    pkt.extend_from_slice(&[0x00, 0x00]);
    pkt.push(64);
    pkt.push(1);
    pkt.extend_from_slice(&[0x00, 0x00]);
    pkt.extend_from_slice(&[192, 168, 1, 1]);
    pkt.extend_from_slice(&[10, 0, 0, 1]);
    pkt.push(8);
    pkt.push(0);
    pkt.extend_from_slice(&[0x00, 0x00]);
    pkt.extend_from_slice(&[0x00, 0x00, 0x00, 0x00]);
    pkt
}

fn ipv6_header(next: u8, payload_len: u16) -> Vec<u8> {
    let mut pkt = Vec::new();
    pkt.extend_from_slice(&[0x00; 6]);
    pkt.extend_from_slice(&[0x00; 6]);
    pkt.extend_from_slice(&0x86DDu16.to_be_bytes());
    pkt.extend_from_slice(&0x60000000u32.to_be_bytes());
    pkt.extend_from_slice(&payload_len.to_be_bytes());
    pkt.push(next);
    pkt.push(64);
    pkt.extend_from_slice(&[0x20, 0x01, 0x0d, 0xb8, 0, 0, 0, 0, 0, 0, 0, 0, 0, 0, 0, 0x01]);
    pkt.extend_from_slice(&[0x20, 0x01, 0x0d, 0xb8, 0, 0, 0, 0, 0, 0, 0, 0, 0, 0, 0, 0x02]);
    pkt
}

fn build_ipv6_tcp_packet() -> Vec<u8> {
    let mut pkt = ipv6_header(6, 20);
    pkt.extend_from_slice(&443u16.to_be_bytes());
    pkt.extend_from_slice(&52831u16.to_be_bytes());
    pkt.extend_from_slice(&[0x00, 0x00, 0x00, 0x00]);
    pkt.extend_from_slice(&[0x00, 0x00, 0x00, 0x00]);
    pkt.push(0x50);
    pkt.push(0x00);
    pkt.extend_from_slice(&[0x00, 0x00]);
    pkt.extend_from_slice(&[0x00, 0x00]);
    pkt.extend_from_slice(&[0x00, 0x00]);
    pkt
}

fn build_ipv6_icmp6_packet() -> Vec<u8> {
    let mut pkt = ipv6_header(58, 8);
    pkt.push(128);
    pkt.push(0);
    pkt.extend_from_slice(&[0x00, 0x00]);
    pkt.extend_from_slice(&[0x00, 0x00, 0x00, 0x00]);
    pkt
}

#[test]
fn test_feed_ipv4_tcp() {
    let mut acc = StatAccumulator::new();
    let pkt = build_ipv4_tcp_packet();
    acc.feed(&pkt, pkt.len() as u64);

    assert_eq!(acc.total_packets, 1);
    assert_eq!(acc.total_bytes, pkt.len() as u64);
    assert_eq!(acc.ipv4_tcp.0, 1);
    assert_eq!(acc.ipv4_tcp.1, pkt.len() as u64);
    assert_eq!(acc.sessions.len(), 1);
}

#[test]
fn test_feed_same_session_aggregates() {
    let mut acc = StatAccumulator::new();
    let pkt = build_ipv4_tcp_packet();
    acc.feed(&pkt, pkt.len() as u64);
    acc.feed(&pkt, pkt.len() as u64);

    assert_eq!(acc.total_packets, 2);
    assert_eq!(acc.sessions.len(), 1);
    let (key, rec) = acc.sessions.iter().next().unwrap();
    assert_eq!(rec.packets, 2);
    assert_eq!(rec.bytes, 2 * pkt.len() as u64);
    assert_eq!(key.protocol, 6);
}

#[test]
fn test_feed_ipv4_udp() {
    let mut acc = StatAccumulator::new();
    let pkt = build_ipv4_udp_packet();
    acc.feed(&pkt, pkt.len() as u64);

    assert_eq!(acc.total_packets, 1);
    assert_eq!(acc.ipv4_udp.0, 1);
    assert_eq!(acc.ipv4_udp.1, pkt.len() as u64);
    assert_eq!(acc.sessions.len(), 1);
}

#[test]
fn test_feed_arp_with_session() {
    let mut acc = StatAccumulator::new();
    let pkt = build_arp_packet();
    acc.feed(&pkt, pkt.len() as u64);

    assert_eq!(acc.total_packets, 1);
    assert_eq!(acc.arp.0, 1);
    assert_eq!(acc.sessions.len(), 1);
    let (key, rec) = acc.sessions.iter().next().unwrap();
    assert_eq!(key.protocol, ARP_PROTO);
    assert_eq!(key.src_port, 1);
    assert_eq!(rec.packets, 1);
}

#[test]
fn test_feed_ipv4_icmp_with_session() {
    let mut acc = StatAccumulator::new();
    let pkt = build_ipv4_icmp_packet();
    acc.feed(&pkt, pkt.len() as u64);

    assert_eq!(acc.ipv4_icmp.0, 1);
    assert_eq!(acc.sessions.len(), 1);
    let (key, _rec) = acc.sessions.iter().next().unwrap();
    assert_eq!(key.protocol, 1);
    assert_eq!(key.src_port, 0x0800);
}

#[test]
fn test_feed_ipv6_tcp() {
    let mut acc = StatAccumulator::new();
    let pkt = build_ipv6_tcp_packet();
    acc.feed(&pkt, pkt.len() as u64);

    assert_eq!(acc.total_packets, 1);
    assert_eq!(acc.ipv6_tcp.0, 1);
    assert_eq!(acc.ipv6_tcp.1, pkt.len() as u64);
    assert_eq!(acc.sessions.len(), 1);
}

#[test]
fn test_feed_ipv6_icmp6_with_session() {
    let mut acc = StatAccumulator::new();
    let pkt = build_ipv6_icmp6_packet();
    acc.feed(&pkt, pkt.len() as u64);

    assert_eq!(acc.ipv6_icmp6.0, 1);
    assert_eq!(acc.sessions.len(), 1);
    let (key, _rec) = acc.sessions.iter().next().unwrap();
    assert_eq!(key.protocol, 58);
    assert_eq!(key.src_port, 0x8000);
}

#[test]
fn test_reset() {
    let mut acc = StatAccumulator::new();
    let pkt = build_ipv4_tcp_packet();
    acc.feed(&pkt, pkt.len() as u64);
    acc.reset();

    assert_eq!(acc.total_packets, 0);
    assert_eq!(acc.total_bytes, 0);
    assert_eq!(acc.ipv4_tcp.0, 0);
    assert_eq!(acc.sessions.len(), 0);
}

#[test]
fn test_top_sessions_order_and_truncation() {
    let mut acc = StatAccumulator::new();
    acc.upsert_session("10.0.0.1".into(), "10.0.0.2".into(), 6, 443, 52831, 500);
    acc.upsert_session("10.0.0.1".into(), "10.0.0.2".into(), 6, 80, 41234, 500);
    acc.upsert_session("10.0.0.1".into(), "10.0.0.3".into(), 6, 22, 50001, 200);
    acc.upsert_session("10.0.0.1".into(), "10.0.0.3".into(), 6, 22, 50001, 200);

    let top = acc.top_sessions(2);
    assert_eq!(top.len(), 2);
    assert_eq!(top[0].0.dst_ip, "10.0.0.3");
    assert_eq!(top[0].1.packets, 2);
    assert_eq!(top[1].0.dst_ip, "10.0.0.2");
    assert_eq!(top[1].1.packets, 1);
}

#[test]
fn test_top_sessions_more_than_available() {
    let mut acc = StatAccumulator::new();
    acc.upsert_session("a".into(), "b".into(), 6, 1, 2, 100);
    let top = acc.top_sessions(10);
    assert_eq!(top.len(), 1);
}

#[test]
fn test_feed_too_short() {
    let mut acc = StatAccumulator::new();
    acc.feed(&[0x00; 10], 10);
    assert_eq!(acc.total_packets, 1);
    assert_eq!(acc.other.0, 1);
    assert_eq!(acc.sessions.len(), 0);
}

#[test]
fn test_print_summary_does_not_panic() {
    let mut acc = StatAccumulator::new();
    acc.feed(build_ipv4_tcp_packet().as_slice(), 54);
    acc.feed(build_ipv4_icmp_packet().as_slice(), 42);
    assert_eq!(acc.total_packets, 2);
    assert!(!acc.sessions.is_empty());
}

#[test]
fn every_packet_counts_in_exactly_one_class() {
    let mut acc = StatAccumulator::new();
    let frames = vec![
        build_ipv4_tcp_packet(),
        build_ipv4_udp_packet(),
        build_arp_packet(),
        build_ipv4_icmp_packet(),
        build_ipv6_tcp_packet(),
        build_ipv6_icmp6_packet(),
        vec![0u8; 10],
    ];
    let mut bytes = 0u64;
    for (i, f) in frames.iter().enumerate() {
        let wire = (i as u64 + 1) * 100;
        assert!(acc.can_feed(wire));
        acc.feed(f, wire);
        bytes += wire;
    }
    let classes = [
        acc.ipv4_tcp, acc.ipv4_udp, acc.ipv4_icmp, acc.ipv4_other, acc.ipv6_tcp, acc.ipv6_udp, acc.ipv6_icmp6,
        acc.ipv6_other, acc.arp, acc.other,
    ];
    assert_eq!(classes.iter().map(|c| c.0).sum::<u64>(), acc.total_packets);
    assert_eq!(classes.iter().map(|c| c.1).sum::<u64>(), acc.total_bytes);
    assert_eq!(acc.total_bytes, bytes);
    assert_eq!(acc.total_packets, 7);
    assert_eq!(acc.sessions.len(), 6);
}

#[test]
fn unknown_ip_protocols_and_ethertypes() {
    let mut acc = StatAccumulator::new();
    let mut pkt = build_ipv4_tcp_packet();
    pkt[23] = 47; // GRE
    acc.feed(&pkt, 60);
    let mut pkt6 = build_ipv6_tcp_packet();
    pkt6[20] = 44; // fragment header
    acc.feed(&pkt6, 80);
    let mut other = build_ipv4_tcp_packet();
    other[12] = 0x88;
    other[13] = 0xcc; // LLDP
    acc.feed(&other, 90);
    assert_eq!(acc.ipv4_other, (1, 60));
    assert_eq!(acc.ipv6_other, (1, 80));
    assert_eq!(acc.other, (1, 90));
    assert_eq!(acc.sessions.len(), 0);
}

#[test]
fn session_keys_hold_addresses_and_ports() {
    let mut acc = StatAccumulator::new();
    acc.feed(&build_ipv4_udp_packet(), 42);
    acc.feed(&build_ipv6_tcp_packet(), 74);
    acc.feed(&build_arp_packet(), 42);
    let (k0, r0) = &acc.sessions[0];
    assert_eq!(k0.src_ip, "192.168.1.1");
    assert_eq!(k0.dst_ip, "10.0.0.1");
    assert_eq!((k0.protocol, k0.src_port, k0.dst_port), (17, 53, 5353));
    assert_eq!((r0.packets, r0.bytes), (1, 42));
    let (k1, _) = &acc.sessions[1];
    assert_eq!(k1.src_ip, "2001:db8:0:0:0:0:0:1");
    assert_eq!(k1.dst_ip, "2001:db8:0:0:0:0:0:2");
    assert_eq!((k1.protocol, k1.src_port, k1.dst_port), (6, 443, 52831));
    let (k2, _) = &acc.sessions[2];
    assert_eq!(k2.src_ip, "192.168.1.1");
    assert_eq!(k2.dst_ip, "192.168.1.254");
    assert_eq!((k2.protocol, k2.src_port, k2.dst_port), (ARP_PROTO, 1, 0));
}

#[test]
fn top_sessions_break_ties_by_bytes() {
    let mut acc = StatAccumulator::new();
    acc.upsert_session("a".into(), "b".into(), 6, 1, 2, 100);
    acc.upsert_session("a".into(), "c".into(), 6, 1, 2, 300);
    acc.upsert_session("a".into(), "d".into(), 17, 1, 2, 200);
    let top = acc.top_sessions(3);
    let order: Vec<&str> = top.iter().map(|(k, _)| k.dst_ip.as_str()).collect();
    assert_eq!(order, vec!["c", "d", "b"]);
    assert_eq!(acc.top_sessions(0).len(), 0);
    assert_eq!(acc.top_indices(2), vec![1, 2]);
}

#[test]
fn parse_icmp_and_arp_helpers() {
    assert_eq!(parse_icmp(&[3, 1, 0, 0, 0, 0, 0, 0]), Some((3, 1)));
    assert_eq!(parse_icmp(&[3, 1, 0, 0, 0, 0, 0]), None);
    let pkt = build_arp_packet();
    let info = parse_arp(&pkt[14..]).unwrap();
    assert_eq!(info.operation, 1);
    assert_eq!(info.src_mac, [0xaa, 0xbb, 0xcc, 0xdd, 0xee, 0xff]);
    assert_eq!(info.src_ip, [192, 168, 1, 1]);
    assert_eq!(info.dst_ip, [192, 168, 1, 254]);
    let mut other = pkt[14..].to_vec();
    other[1] = 6; // hardware type 6
    assert!(parse_arp(&other).is_none());
    assert!(parse_arp(&pkt[14..41]).is_none());
}

#[test]
fn session_labels_and_details() {
    assert_eq!(protocol_label(6), "TCP");
    assert_eq!(protocol_label(58), "ICMPv6");
    assert_eq!(protocol_label(ARP_PROTO), "ARP");
    assert_eq!(protocol_label(2), "???");
    let key = |protocol: u8, src_port: u16, dst_port: u16| SessionKey {
        src_ip: "a".into(),
        dst_ip: "b".into(),
        protocol,
        src_port,
        dst_port,
    };
    assert_eq!(session_detail(&key(1, 0x0803, 0)), "type=8/code=3");
    assert_eq!(session_detail(&key(ARP_PROTO, 1, 0x0a1f)), "who-has ..:0a1f");
    assert_eq!(session_detail(&key(ARP_PROTO, 2, 0)), "is-at ..:0000");
    assert_eq!(session_detail(&key(ARP_PROTO, 9, 0xbeef)), "op? ..:beef");
    assert_eq!(session_detail(&key(6, 80, 443)), "");
}

#[test]
fn stat_engine_prefers_the_file() {
    let args = StatsArgs { interface: None, file: Some("t.pcap".into()), top_n: 5, interval: 1 };
    let engine = StatEngine::new(&args).unwrap();
    assert_eq!(engine.top_n, 5);
    assert!(matches!(engine.source(), Some(StatSource::File(f)) if f == "t.pcap"));
    let live = StatEngine::new(&StatsArgs { interface: Some("eth0".into()), file: None, top_n: 10, interval: 2 }).unwrap();
    assert!(matches!(live.source(), Some(StatSource::Live(i)) if i == "eth0"));
    let bad = StatsArgs { interface: None, file: None, top_n: 10, interval: 1 };
    assert!(StatEngine::new(&bad).is_err());
}

#[test]
fn live_rounds_and_final_report() {
    let mut live = LiveStats::new();
    assert_eq!(live.finish(), None);
    live.acc.feed(&build_ipv4_tcp_packet(), 54);
    assert_eq!(live.interval_elapsed(), 1);
    assert_eq!(live.finish(), None);
    live.acc.feed(&build_ipv4_udp_packet(), 42);
    assert_eq!(live.finish(), Some(2));
    assert_eq!(live.interval_elapsed(), 2);
    assert_eq!(live.round, 3);
    assert_eq!(live.last_reported, 2);
}

#[test]
fn feed_ipv4_counts_class_and_session_but_not_totals() {
    let mut acc = StatAccumulator::new();
    let payload = [
        0x45, 0, 0, 28, 0, 0, 0, 0, 64, 1, 0, 0, 192, 168, 1, 1, 10, 0, 0, 1, 8, 0, 0, 0, 0, 0, 0, 0,
    ];
    acc.feed_ipv4(&payload, 42);
    assert_eq!(acc.ipv4_icmp, (1, 42));
    assert_eq!(acc.total_packets, 0);
    assert_eq!(acc.total_bytes, 0);
    assert_eq!(acc.sessions.len(), 1);
    let (key, rec) = &acc.sessions[0];
    assert_eq!(key.src_ip, "192.168.1.1");
    assert_eq!(key.dst_ip, "10.0.0.1");
    assert_eq!(key.protocol, 1);
    assert_eq!(key.src_port, 0x0800);
    assert_eq!(key.dst_port, 0);
    assert_eq!(rec.packets, 1);
    assert_eq!(rec.bytes, 42);
}

#[test]
fn feed_ipv6_short_payload_counts_as_other() {
    let mut acc = StatAccumulator::new();
    acc.feed_ipv6(&[0x60, 0, 0], 10);
    assert_eq!(acc.other, (1, 10));
    assert_eq!(acc.total_packets, 0);
    assert!(acc.sessions.is_empty());
}

#[test]
fn feed_arp_counts_arp_class() {
    let mut acc = StatAccumulator::new();
    acc.feed_arp(&[0, 1], 60);
    assert_eq!(acc.arp, (1, 60));
    assert!(acc.sessions.is_empty());
}

#[test]
fn one_frame_counts_in_exactly_one_class() {
    let mut acc = StatAccumulator::new();
    let pkt = build_ipv4_tcp_packet();
    acc.feed(&pkt, 100);
    acc.feed(&[0u8; 5], 7);
    assert_eq!(acc.total_packets, 2);
    assert_eq!(acc.total_bytes, 107);
    assert_eq!(acc.ipv4_tcp, (1, 100));
    assert_eq!(acc.other, (1, 7));
    for pair in [acc.ipv4_udp, acc.ipv4_icmp, acc.ipv4_other, acc.ipv6_tcp, acc.ipv6_udp, acc.ipv6_icmp6, acc.ipv6_other, acc.arp] {
        assert_eq!(pair, (0, 0));
    }
    let session_packets: u64 = acc.sessions.iter().map(|(_, r)| r.packets).sum();
    assert_eq!(session_packets, 1);
}
