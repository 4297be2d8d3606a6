use nethawk::printer::{
    choose_view, link_header_len, PacketView, format_tcp_flags, format_timestamp, hexdump_lines, packet_lines, packet_record, protocol_name, summary, Tone,
    TransportFields,
};

fn make_icmp_ping() -> Vec<u8> {
    let mut raw = vec![0u8; 42];
    raw[12..14].copy_from_slice(&[0x08, 0x00]);
    raw[14] = 0x45;
    raw[23] = 1;
    raw[34..36].copy_from_slice(&[0x08, 0x00]);
    raw
}

fn make_tcp_syn() -> Vec<u8> {
    let mut raw = vec![0u8; 54];
    raw[12..14].copy_from_slice(&[0x08, 0x00]);
    raw[14] = 0x45;
    raw[23] = 6;
    raw[34] = 0x50;
    raw[34 + 13] = 0x02;
    raw
}

/// A TCP SYN whose data offset is set (byte 12 of the segment).
fn make_valid_syn() -> Vec<u8> {
    let mut raw = make_tcp_syn();
    raw[34] = 0;
    raw[46] = 0x50;
    raw
}

#[test]
fn hexdump_does_not_panic() {
    let lines = hexdump_lines(&[0x00, 0x11, 0x22, 0xff]);
    assert_eq!(lines.len(), 1);
}

#[test]
fn print_packet_does_not_panic() {
    assert!(!packet_lines(&make_icmp_ping()).is_empty());
    assert!(!packet_lines(&make_tcp_syn()).is_empty());
}

#[test]
fn print_one_liner_does_not_panic() {
    let raw = make_icmp_ping();
    let _ = summary(&raw, 1000000, 500000);
}

#[test]
fn print_one_liner_short_raw() {
    let _ = summary(&[0u8; 10], 0, 0);
}

#[test]
fn print_packet_short_raw() {
    let _ = packet_lines(&[0u8; 10]);
}

#[test]
fn timestamps_are_time_of_day() {
    assert_eq!(format_timestamp(1000000, 500000), "13:46:40.500000");
    assert_eq!(format_timestamp(0, 7), "00:00:00.000007");
    assert_eq!(format_timestamp(86399, 999999), "23:59:59.999999");
    assert_eq!(format_timestamp(-1, 0), "23:59:59.000000");
    assert_eq!(format_timestamp(90061, -5), "01:01:01.-00005");
}

#[test]
fn tcp_flag_text() {
    assert_eq!(format_tcp_flags(0x02), "[SYN]");
    assert_eq!(format_tcp_flags(0x12), "[SYN,ACK]");
    assert_eq!(format_tcp_flags(0x3f), "[FIN,SYN,RST,PSH,ACK,URG]");
    assert_eq!(format_tcp_flags(0x00), "[NONE]");
    assert_eq!(format_tcp_flags(0xc0), "[NONE]");
}

#[test]
fn protocol_names() {
    assert_eq!(protocol_name(1), "ICMP");
    assert_eq!(protocol_name(6), "TCP");
    assert_eq!(protocol_name(17), "UDP");
    assert_eq!(protocol_name(58), "ICMPv6");
    assert_eq!(protocol_name(89), "???");
}

#[test]
fn summary_lines() {
    let mut ping = make_icmp_ping();
    ping[26..30].copy_from_slice(&[10, 0, 0, 1]);
    ping[30..34].copy_from_slice(&[8, 8, 8, 8]);
    ping[38..40].copy_from_slice(&[0, 1]);
    ping[40..42].copy_from_slice(&[0, 2]);
    let l = summary(&ping, 3600, 5);
    assert_eq!(l.text, "01:00:00.000005  ICMP  10.0.0.1 → 8.8.8.8  Echo Request  type=8 code=0 id=1 seq=2  42B");
    assert_eq!(l.tone, Tone::Magenta);
    let syn = summary(&make_valid_syn(), 0, 0);
    assert_eq!(syn.text, "00:00:00.000000  TCP  0.0.0.0:0 → 0.0.0.0:0  [SYN]  54B");
    assert_eq!(syn.tone, Tone::Green);
    // A segment without a data offset is shown without ports.
    let bad = summary(&make_tcp_syn(), 0, 0);
    assert_eq!(bad.text, "00:00:00.000000  TCP  0.0.0.0 → 0.0.0.0  54B");
    assert_eq!(bad.tone, Tone::Blue);
    let short = summary(&[0u8; 10], 0, 0);
    assert_eq!(short.text, "00:00:00.000000  ???  [L2 解析失败]  10B");
    assert_eq!(short.tone, Tone::Red);
    let mut lldp = vec![0u8; 60];
    lldp[12..14].copy_from_slice(&[0x88, 0xcc]);
    let l = summary(&lldp, 0, 0);
    assert_eq!(l.text, "00:00:00.000000  ETH  type=0x88cc  60B");
    assert_eq!(l.tone, Tone::Yellow);
    let mut bad_ip = vec![0u8; 40];
    bad_ip[12..14].copy_from_slice(&[0x08, 0x00]);
    assert_eq!(summary(&bad_ip, 0, 0).text, "00:00:00.000000  ETH  [L3 分发失败]  40B");
}

#[test]
fn detail_lines_per_layer() {
    let lines = packet_lines(&make_valid_syn());
    let texts: Vec<&str> = lines.iter().map(|l| l.text.as_str()).collect();
    assert_eq!(
        texts,
        vec![
            "  ETH  00:00:00:00:00:00 → 00:00:00:00:00:00  type=0x0800",
            "  IPv4 0.0.0.0 → 0.0.0.0  ttl=0  proto=6",
            "  TCP  :0 → :0  [SYN]  seq=0",
            "\n",
        ]
    );
    assert_eq!(lines[0].tone, Tone::Cyan);
    assert_eq!(lines[1].tone, Tone::Blue);
    let short = packet_lines(&[0u8; 10]);
    assert_eq!(short.len(), 1);
    assert!(short[0].to_stderr);
    assert_eq!(short[0].text, "  [L2 解析失败] 报文长度过短");
    let mut cut_tcp = make_valid_syn();
    cut_tcp.truncate(44);
    let lines = packet_lines(&cut_tcp);
    assert_eq!(lines.len(), 3);
    assert_eq!(lines[2].text, "  [L4 分发失败] 报文长度过短");
}

#[test]
fn hexdump_layout() {
    let data: Vec<u8> = (0u8..20).map(|i| i + 0x41).collect();
    let lines = hexdump_lines(&data);
    assert_eq!(lines.len(), 2);
    assert_eq!(
        lines[0],
        "  0x0000  41 42 43 44 45 46 47 48  49 4a 4b 4c 4d 4e 4f 50  ABCDEFGHIJKLMNOP"
    );
    assert_eq!(lines[1], "  0x0010  51 52 53 54 ".to_string() + &" ".repeat(37) + " QRST");
    assert_eq!(hexdump_lines(&[]).len(), 0);
    assert_eq!(hexdump_lines(&[0x00, 0x20, 0x7f]), vec!["  0x0000  00 20 7f ".to_string() + &" ".repeat(40) + " . ."]);
}

#[test]
fn json_record_fields() {
    let rec = packet_record(&make_valid_syn(), 0, 1);
    assert_eq!(rec.ts, "00:00:00.000001");
    assert_eq!(rec.len, 54);
    assert!(rec.error.is_none());
    let (src, dst, kind) = rec.eth.unwrap();
    assert_eq!((src.as_str(), dst.as_str(), kind.as_str()), ("00:00:00:00:00:00", "00:00:00:00:00:00", "0x0800"));
    let ip = rec.ip.unwrap();
    assert_eq!((ip.version, ip.limit, ip.next), (4, 0, 6));
    match rec.transport {
        Some(TransportFields::Tcp { flags, seq, .. }) => {
            assert_eq!(flags, "[SYN]");
            assert_eq!(seq, 0);
        },
        _ => panic!("expected TCP fields"),
    }
    let short = packet_record(&[0u8; 3], 0, 0);
    assert_eq!(short.error.as_deref(), Some("L2 parse failed"));
    assert!(short.eth.is_none());
}

#[test]
fn capture_views_and_link_headers() {
    assert_eq!(choose_view(true, true), PacketView::Json);
    assert_eq!(choose_view(false, true), PacketView::Detailed);
    assert_eq!(choose_view(false, false), PacketView::OneLine);
    assert_eq!(link_header_len("LINUX_SLL"), 16);
    assert_eq!(link_header_len("SLL"), 16);
    assert_eq!(link_header_len("EN10MB"), 0);
    assert_eq!(link_header_len("SL"), 0);
}
