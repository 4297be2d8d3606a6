use nethawk::analyse::{
    count_http_requests, dhcp_in_frame, dhcp_report_lines, export_file_name, export_stream_text, http_request_total,
    ip_in_frame, state_name, stream_followed, stream_report_lines, stream_reportable, tls_in_frame, tls_report_lines, AnalyzeEngine,
};
use nethawk::tcp_stream::TcpState;
use nethawk::printer::PacketView;
use nethawk::cli::AnalyzeArgs;
use nethawk::tcp_stream::{IpAddr, TcpStreamTracker};

fn args(follow_http: bool, tls: bool, dhcp: bool, json: bool, verbose: bool, hex: bool) -> AnalyzeArgs {
    AnalyzeArgs {
        file: "a.pcap".into(),
        verbose_output: verbose,
        hex,
        json_output: json,
        follow_http,
        tls,
        dhcp,
        export: false,
    }
}

fn eth_ipv4(proto: u8, src: [u8; 4], dst: [u8; 4], l4: &[u8]) -> Vec<u8> {
    let mut raw = vec![0u8; 14];
    raw[12] = 0x08;
    raw[13] = 0x00;
    let mut ip = vec![0u8; 20];
    ip[0] = 0x45;
    ip[8] = 64;
    ip[9] = proto;
    ip[12..16].copy_from_slice(&src);
    ip[16..20].copy_from_slice(&dst);
    raw.extend_from_slice(&ip);
    raw.extend_from_slice(l4);
    raw
}

fn tcp(src_port: u16, dst_port: u16, seq: u32, flags: u8, payload: &[u8]) -> Vec<u8> {
    let mut t = vec![0u8; 20];
    t[0..2].copy_from_slice(&src_port.to_be_bytes());
    t[2..4].copy_from_slice(&dst_port.to_be_bytes());
    t[4..8].copy_from_slice(&seq.to_be_bytes());
    t[12] = 0x50;
    t[13] = flags;
    t.extend_from_slice(payload);
    t
}

#[test]
fn engine_copies_the_flags() {
    let e = AnalyzeEngine::new(&args(true, false, false, true, true, true)).unwrap();
    assert_eq!(e.file, "a.pcap");
    assert!(e.follow_http && e.json && e.verbose && e.dump);
    assert!(!e.tls && !e.dhcp && !e.export);
}

#[test]
fn packet_views_by_mode() {
    let v = |a: AnalyzeArgs| AnalyzeEngine::new(&a).unwrap().packet_view();
    assert_eq!(v(args(false, false, false, false, false, false)), Some(PacketView::OneLine));
    assert_eq!(v(args(false, false, false, false, true, false)), Some(PacketView::Detailed));
    assert_eq!(v(args(false, false, false, true, true, false)), Some(PacketView::Json));
    assert_eq!(v(args(true, false, false, false, false, false)), None);
    assert_eq!(v(args(false, true, false, false, false, false)), None);
    let dump = AnalyzeEngine::new(&args(false, false, false, false, false, true)).unwrap();
    assert!(dump.wants_hexdump());
    let dump_tls = AnalyzeEngine::new(&args(false, true, false, false, false, true)).unwrap();
    assert!(!dump_tls.wants_hexdump());
    assert!(AnalyzeEngine::new(&args(true, false, false, false, false, false)).unwrap().tracks_streams());
    assert!(!AnalyzeEngine::new(&args(false, true, false, false, false, false)).unwrap().tracks_streams());
}

#[test]
fn http_requests_are_counted_by_line() {
    let data = b"GET / HTTP/1.1\r\nHost: a\r\n\r\nPOST /x HTTP/1.1\r\n\r\nDELETE /y HTTP/1.1\r\nGETX\r\n";
    assert_eq!(count_http_requests(data), 3);
    assert_eq!(count_http_requests(b"PUT /a\nHEAD /b\nOPTIONS *\nPATCH /c\nCONNECT h:443\n"), 5);
    assert_eq!(count_http_requests(b" GET / HTTP/1.1\r\n"), 0);
    assert_eq!(count_http_requests(b""), 0);
    // Not UTF-8: nothing is counted.
    assert_eq!(count_http_requests(b"GET / HTTP/1.1\r\n\xff\xfe"), 0);
}

#[test]
fn tracker_is_fed_from_whole_frames() {
    let engine = AnalyzeEngine::new(&args(true, false, false, false, false, false)).unwrap();
    let mut tracker = TcpStreamTracker::new();
    let c = [10, 0, 0, 1];
    let s = [10, 0, 0, 2];
    let syn = eth_ipv4(6, c, s, &tcp(40000, 80, 0, 0x02, b""));
    let req = eth_ipv4(6, c, s, &tcp(40000, 80, 1, 0x18, b"GET / HTTP/1.1\r\n\r\n"));
    let resp = eth_ipv4(6, s, c, &tcp(80, 40000, 500, 0x18, b"HTTP/1.1 200 OK\r\n\r\n"));
    let udp_frame = eth_ipv4(17, c, s, &[0, 53, 0, 53, 0, 8, 0, 0]);
    for f in [&syn, &req, &resp, &udp_frame] {
        assert!(tracker.can_feed(f.len(), f.len() as u64));
        engine.feed_tracker(&mut tracker, f, f.len() as u64);
    }
    assert_eq!(tracker.stream_count(), 1);
    let streams = tracker.all_streams();
    let stream = streams[0].1;
    assert_eq!(stream.packet_count, 3);
    assert_eq!(stream.client_payload, b"GET / HTTP/1.1\r\n\r\n");
    assert!(stream_reportable(stream));
    assert_eq!(http_request_total(&tracker), Some(1));
}

#[test]
fn ip_layer_of_frames() {
    let f = eth_ipv4(17, [1, 2, 3, 4], [5, 6, 7, 8], &[0u8; 8]);
    let (src, dst, proto, body) = ip_in_frame(&f).unwrap();
    assert_eq!(src, IpAddr::v4([1, 2, 3, 4]));
    assert_eq!(dst, IpAddr::v4([5, 6, 7, 8]));
    assert_eq!(proto, 17);
    assert_eq!(body.len(), 8);
    assert!(ip_in_frame(&[0u8; 10]).is_none());
    let mut arp = vec![0u8; 42];
    arp[12] = 0x08;
    arp[13] = 0x06;
    assert!(ip_in_frame(&arp).is_none());
}

fn client_hello(sni: &str) -> Vec<u8> {
    let name = sni.as_bytes();
    let mut ext = Vec::new();
    ext.extend_from_slice(&[0, 0]);
    ext.extend_from_slice(&((name.len() + 5) as u16).to_be_bytes());
    ext.extend_from_slice(&((name.len() + 3) as u16).to_be_bytes());
    ext.push(0);
    ext.extend_from_slice(&(name.len() as u16).to_be_bytes());
    ext.extend_from_slice(name);
    let mut body = Vec::new();
    body.extend_from_slice(&[0x03, 0x03]);
    body.extend_from_slice(&[0u8; 32]);
    body.push(0);
    body.extend_from_slice(&[0, 4, 0x13, 0x01, 0xc0, 0x2f]);
    body.extend_from_slice(&[1, 0]);
    body.extend_from_slice(&(ext.len() as u16).to_be_bytes());
    body.extend_from_slice(&ext);
    let mut hs = vec![1, 0, 0, body.len() as u8];
    hs.extend_from_slice(&body);
    let mut rec = vec![22, 0x03, 0x01];
    rec.extend_from_slice(&(hs.len() as u16).to_be_bytes());
    rec.extend_from_slice(&hs);
    rec
}

#[test]
fn tls_hello_on_port_443() {
    let f = eth_ipv4(6, [192, 168, 0, 5], [1, 1, 1, 1], &tcp(51000, 443, 1, 0x18, &client_hello("one.one")));
    let (ends, hello) = tls_in_frame(&f).unwrap();
    assert_eq!(ends.src, "192.168.0.5");
    assert_eq!(ends.dst, "1.1.1.1");
    assert_eq!((ends.src_port, ends.dst_port), (51000, 443));
    assert_eq!(hello.sni.as_deref(), Some("one.one"));
    assert_eq!(hello.record_version, 0x0301);
    assert_eq!(hello.cipher_suites, vec![0x1301, 0xc02f]);
    let other_port = eth_ipv4(6, [192, 168, 0, 5], [1, 1, 1, 1], &tcp(51000, 8443, 1, 0x18, &client_hello("x")));
    assert!(tls_in_frame(&other_port).is_none());
}

#[test]
fn dhcp_on_its_ports() {
    let mut dhcp = vec![0u8; 300];
    dhcp[0] = 1;
    dhcp[2] = 6;
    dhcp[4..8].copy_from_slice(&0xabcdef01u32.to_be_bytes());
    dhcp[240..244].copy_from_slice(&[0x63, 0x82, 0x53, 0x63]);
    dhcp[244..248].copy_from_slice(&[53, 1, 3, 255]);
    let mut udp = vec![0u8; 8];
    udp[0..2].copy_from_slice(&68u16.to_be_bytes());
    udp[2..4].copy_from_slice(&67u16.to_be_bytes());
    udp[4..6].copy_from_slice(&((8 + dhcp.len()) as u16).to_be_bytes());
    udp.extend_from_slice(&dhcp);
    let f = eth_ipv4(17, [0, 0, 0, 0], [255, 255, 255, 255], &udp);
    let (ends, pkt) = dhcp_in_frame(&f).unwrap();
    assert_eq!(ends.src, "0.0.0.0");
    assert_eq!(ends.dst, "255.255.255.255");
    assert_eq!((ends.src_port, ends.dst_port), (68, 67));
    assert_eq!(pkt.xid, 0xabcdef01);
    assert_eq!(pkt.message_type().unwrap().name(), "REQUEST");
    let mut elsewhere = udp.clone();
    elsewhere[0..2].copy_from_slice(&5000u16.to_be_bytes());
    elsewhere[2..4].copy_from_slice(&5001u16.to_be_bytes());
    assert!(dhcp_in_frame(&eth_ipv4(17, [1, 1, 1, 1], [2, 2, 2, 2], &elsewhere)).is_none());
}

#[test]
fn tls_report_text() {
    let f = eth_ipv4(6, [192, 168, 0, 5], [1, 1, 1, 1], &tcp(51000, 443, 1, 0x18, &client_hello("one.one")));
    let (ends, hello) = tls_in_frame(&f).unwrap();
    assert_eq!(
        tls_report_lines(&ends, &hello),
        vec![
            "\n── TLS ClientHello ──",
            "  192.168.0.5:51000 → 1.1.1.1:443",
            "  Record Version: TLS 1.0",
            "  Client Version: TLS 1.2",
            "  SNI: one.one",
            "  Cipher Suites (2):",
            "    - 0x1301  TLS_AES_128_GCM_SHA256 (TLS 1.3)",
            "    - 0xc02f  TLS_ECDHE_RSA_WITH_AES_128_GCM_SHA256",
        ]
    );
}

#[test]
fn tls_report_lists_ten_suites() {
    let ends = nethawk::analyse::Endpoints { src: "a".into(), src_port: 1, dst: "b".into(), dst_port: 443 };
    let hello = nethawk::protocol::tls::TlsClientHello {
        record_version: 0x0301,
        client_version: 0x0304,
        sni: None,
        cipher_suites: (0..12u16).collect(),
        alpn: vec!["h2".to_string(), "http/1.1".to_string()],
    };
    let lines = tls_report_lines(&ends, &hello);
    assert_eq!(lines.len(), 4 + 1 + 10 + 1 + 1);
    assert_eq!(lines[4], "  Cipher Suites (12):");
    assert_eq!(lines[14], "    - 0x0009  ???");
    assert_eq!(lines[15], "    ... and 2 more");
    assert_eq!(lines[16], "  ALPN: h2, http/1.1");
}

#[test]
fn dhcp_report_text() {
    let mut dhcp = vec![0u8; 300];
    dhcp[0] = 2;
    dhcp[2] = 6;
    dhcp[4..8].copy_from_slice(&0x00c0ffeeu32.to_be_bytes());
    dhcp[16..20].copy_from_slice(&[10, 0, 0, 9]);
    dhcp[28..34].copy_from_slice(&[0xaa, 0xbb, 0xcc, 0x00, 0x11, 0x22]);
    dhcp[240..244].copy_from_slice(&[0x63, 0x82, 0x53, 0x63]);
    dhcp[244..254].copy_from_slice(&[53, 1, 2, 54, 4, 10, 0, 0, 1, 255]);
    let mut udp = vec![0u8; 8];
    udp[0..2].copy_from_slice(&67u16.to_be_bytes());
    udp[2..4].copy_from_slice(&68u16.to_be_bytes());
    udp[4..6].copy_from_slice(&((8 + dhcp.len()) as u16).to_be_bytes());
    udp.extend_from_slice(&dhcp);
    let f = eth_ipv4(17, [10, 0, 0, 1], [10, 0, 0, 9], &udp);
    let (ends, pkt) = dhcp_in_frame(&f).unwrap();
    assert_eq!(
        dhcp_report_lines(&ends, &pkt, true),
        vec![
            "\n── DHCP ──",
            "  10.0.0.1:67 → 10.0.0.9:68",
            "  Message: OFFER  (xid=0x00c0ffee)",
            "  Client MAC: aa:bb:cc:00:11:22",
            "  Assigned IP: 10.0.0.9",
            "  DHCP Server: 10.0.0.1",
            "  Options (2):",
            "    Option 53 (1 bytes)",
            "    Option 54 (4 bytes)",
        ]
    );
    assert_eq!(dhcp_report_lines(&ends, &pkt, false).len(), 6);
}

#[test]
fn stream_report_and_export() {
    let mut tracker = TcpStreamTracker::new();
    let c = IpAddr::v4([10, 0, 0, 1]);
    let s = IpAddr::v4([10, 0, 0, 2]);
    tracker.feed(&c, &s, 40000, 80, 0, 0x02, &[], 60);
    tracker.feed(&c, &s, 40000, 80, 1, 0x18, b"GET /a HTTP/1.1\r\n\r\n", 80);
    tracker.feed(&s, &c, 80, 40000, 9, 0x18, b"\xff\xfe", 62);
    let streams = tracker.all_streams();
    let stream = streams[0].1;
    assert_eq!(
        stream_report_lines("10.0.0.1", "10.0.0.2", stream),
        vec![
            "\n── TCP Stream 10.0.0.1 → 10.0.0.2 ──",
            "  Packets: 3  Bytes: 202  State: Established",
            "  Client→Server: 19 bytes (≈1 HTTP requests)",
            "  Server→Client: 11 bytes",
        ]
    );
    assert_eq!(state_name(TcpState::FinWait), "FinWait");
    assert_eq!(export_file_name("10.0.0.1", "10.0.0.2"), "http_10.0.0.1_10.0.0.2.txt");
    assert_eq!(
        export_stream_text("10.0.0.1", "10.0.0.2", b"GET / HTTP/1.1\r\n", b"\xff"),
        "=== HTTP Stream Export ===\nClient: 10.0.0.1\nServer: 10.0.0.2\n--- Request ---\nGET / HTTP/1.1\r\n\n--- Response ---\n[binary data]"
    );
}

#[test]
fn followed_streams_are_reported_with_client_data() {
    let mut tracker = TcpStreamTracker::new();
    let a = IpAddr::v4([10, 0, 0, 1]);
    let b = IpAddr::v4([10, 0, 0, 2]);
    let c = IpAddr::v4([10, 0, 0, 3]);
    // Closed with client data: followed.
    tracker.feed(&a, &b, 50000, 80, 0, 0x02, &[], 60);
    tracker.feed(&a, &b, 50000, 80, 1, 0x10, b"GET / HTTP/1.1\r\n", 80);
    tracker.feed(&a, &b, 50000, 80, 17, 0x04, &[], 60);
    // Closed without client data: reported, not followed.
    tracker.feed(&a, &c, 50001, 80, 0, 0x04, &[], 60);
    // Open with client data only: not reported.
    tracker.feed(&a, &c, 50002, 80, 0, 0x10, b"x", 61);
    let all = tracker.all_streams();
    assert!(stream_followed(all[0].1));
    assert!(stream_reportable(all[1].1));
    assert!(!stream_followed(all[1].1));
    assert!(!stream_reportable(all[2].1));
    assert!(!stream_followed(all[2].1));
}
