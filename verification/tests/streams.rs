use nethawk::tcp_stream::{FiveTuple, IpAddr, TcpState, TcpStreamTracker};

#[test]
fn test_ip_addr_format() {
    assert_eq!(IpAddr::v4([192, 168, 1, 1]).format(), "192.168.1.1");
    let v6 = IpAddr::v6([
        0x20, 0x01, 0x0d, 0xb8, 0x00, 0x00, 0x00, 0x00, 0x00, 0x00, 0x00, 0x00, 0x00, 0x00, 0x00, 0x01,
    ]);
    assert_eq!(v6.format(), "2001:db8:0:0:0:0:0:1");
}

#[test]
fn test_five_tuple_normalization() {
    let a = IpAddr::v4([10, 0, 0, 1]);
    let b = IpAddr::v4([10, 0, 0, 2]);
    let t1 = FiveTuple::new(&a, &b, 12345, 80);
    let t2 = FiveTuple::new(&b, &a, 80, 12345);
    assert_eq!(t1.as_bytes(), t2.as_bytes());
    assert_eq!(t1, t2);
}

#[test]
fn five_tuple_endpoints() {
    let a = IpAddr::v4([10, 0, 0, 9]);
    let b = IpAddr::v4([10, 0, 0, 2]);
    let t = FiveTuple::new(&a, &b, 5000, 80);
    // The smaller endpoint (address, then port) is the client.
    assert_eq!(t.client_ip(), b);
    assert_eq!(t.client_port(), 80);
    assert_eq!(t.server_ip(), a);
    assert_eq!(t.server_port(), 5000);
    assert!(!TcpStreamTracker::is_client_dir(&a, 5000, &b, 80));
    assert!(TcpStreamTracker::is_client_dir(&b, 80, &a, 5000));
}

#[test]
fn test_stream_tracker_syn_handshake() {
    let mut tracker = TcpStreamTracker::new();
    let client = IpAddr::v4([192, 168, 1, 100]);
    let server = IpAddr::v4([93, 184, 216, 34]);

    tracker.feed(&client, &server, 54321, 80, 1000, 0x02, &[], 66);
    assert_eq!(tracker.stream_count(), 1);
    if let Some(s) = tracker.all_streams().first() {
        assert_eq!(s.1.state, TcpState::Established);
    }
}

#[test]
fn test_stream_tracker_data_reassembly() {
    let mut tracker = TcpStreamTracker::new();
    let client = IpAddr::v4([10, 0, 0, 1]);
    let server = IpAddr::v4([10, 0, 0, 2]);

    tracker.feed(&client, &server, 50000, 80, 0, 0x02, &[], 60);
    let payload1 = b"GET / HT";
    tracker.feed(&client, &server, 50000, 80, 1, 0x10, payload1, 70);
    let payload2 = b"TP/1.1\r\n";
    tracker.feed(&client, &server, 50000, 80, 9, 0x10, payload2, 70);
    let payload3 = b"Host: ex\r\n";
    tracker.feed(&client, &server, 50000, 80, 17, 0x10, payload3, 75);

    let key = FiveTuple::new(&client, &server, 50000, 80);
    let payload = tracker.client_payload(&key).unwrap();
    assert!(payload.starts_with(b"GET / HT"));
    assert_eq!(payload.len(), 26);
}

#[test]
fn retransmission_and_gap_fill() {
    let mut tracker = TcpStreamTracker::new();
    let c = IpAddr::v4([10, 0, 0, 1]);
    let s = IpAddr::v4([10, 0, 0, 2]);
    tracker.feed(&c, &s, 40000, 80, 99, 0x02, &[], 60);
    tracker.feed(&c, &s, 40000, 80, 100, 0x18, b"abcd", 64);
    // The same bytes again: ignored.
    tracker.feed(&c, &s, 40000, 80, 100, 0x18, b"abcd", 64);
    // Two bytes missing: filled with zeros.
    tracker.feed(&c, &s, 40000, 80, 106, 0x18, b"xy", 62);
    let key = FiveTuple::new(&c, &s, 40000, 80);
    assert_eq!(tracker.client_payload(&key).unwrap(), b"abcd\0\0xy");
    assert_eq!(tracker.server_payload(&key).unwrap(), b"");
}

#[test]
fn fin_from_both_sides_and_reset_close() {
    let mut tracker = TcpStreamTracker::new();
    let c = IpAddr::v4([10, 0, 0, 1]);
    let s = IpAddr::v4([10, 0, 0, 2]);
    tracker.feed(&c, &s, 40000, 80, 1, 0x02, &[], 60);
    tracker.feed(&s, &c, 80, 40000, 7, 0x12, &[], 60);
    tracker.feed(&s, &c, 80, 40000, 8, 0x18, b"HTTP/1.1 200 OK\r\n", 80);
    tracker.feed(&c, &s, 40000, 80, 2, 0x11, &[], 60);
    assert_eq!(tracker.all_streams()[0].1.state, TcpState::FinWait);
    tracker.feed(&s, &c, 80, 40000, 25, 0x11, &[], 60);
    assert_eq!(tracker.all_streams()[0].1.state, TcpState::Closed);
    assert_eq!(tracker.closed_streams().len(), 1);
    let key = FiveTuple::new(&c, &s, 40000, 80);
    assert_eq!(tracker.server_payload(&key).unwrap(), b"HTTP/1.1 200 OK\r\n");

    let d = IpAddr::v4([10, 0, 0, 3]);
    tracker.feed(&d, &s, 41000, 443, 5, 0x04, &[], 54);
    assert_eq!(tracker.stream_count(), 2);
    assert_eq!(tracker.closed_streams().len(), 2);
    let unknown = FiveTuple::new(&d, &c, 1, 2);
    assert!(tracker.client_payload(&unknown).is_none());
    assert!(tracker.can_feed(1500, 1500));
}

#[test]
fn opposite_directions_share_one_stream() {
    let mut tracker = TcpStreamTracker::new();
    let a = IpAddr::v4([10, 0, 0, 1]);
    let b = IpAddr::v4([10, 0, 0, 2]);
    let other = IpAddr::v4([10, 0, 0, 3]);
    tracker.feed(&other, &b, 4000, 443, 7, 0x10, &[], 54);
    tracker.feed(&a, &b, 50000, 80, 0, 0x10, &[], 60);
    tracker.feed(&b, &a, 80, 50000, 0, 0x10, &[], 70);
    assert_eq!(tracker.stream_count(), 2);
    let all = tracker.all_streams();
    assert_eq!(all[0].1.packet_count, 1);
    assert_eq!(all[0].1.total_bytes, 54);
    assert_eq!(all[1].1.packet_count, 2);
    assert_eq!(all[1].1.total_bytes, 130);
}

#[test]
fn rst_closes_and_closed_stream_keeps_its_bytes() {
    let mut tracker = TcpStreamTracker::new();
    let a = IpAddr::v4([10, 0, 0, 1]);
    let b = IpAddr::v4([10, 0, 0, 2]);
    tracker.feed(&a, &b, 50000, 80, 0, 0x02, &[], 60);
    tracker.feed(&a, &b, 50000, 80, 1, 0x10, b"abc", 63);
    tracker.feed(&a, &b, 50000, 80, 4, 0x04, b"def", 63);
    let all = tracker.all_streams();
    assert_eq!(all[0].1.state, TcpState::Closed);
    assert_eq!(all[0].1.client_payload, b"abc".to_vec());
    // A SYN does not reopen a closed connection, and data is not added.
    tracker.feed(&a, &b, 50000, 80, 4, 0x12, b"ghi", 63);
    let all = tracker.all_streams();
    assert_eq!(all[0].1.state, TcpState::Closed);
    assert_eq!(all[0].1.client_payload, b"abc".to_vec());
    assert_eq!(all[0].1.packet_count, 4);
}

#[test]
fn fin_moves_established_to_fin_wait_then_closed() {
    let mut tracker = TcpStreamTracker::new();
    let a = IpAddr::v4([10, 0, 0, 1]);
    let b = IpAddr::v4([10, 0, 0, 2]);
    tracker.feed(&a, &b, 50000, 80, 0, 0x02, &[], 60);
    tracker.feed(&a, &b, 50000, 80, 1, 0x11, &[], 60);
    assert_eq!(tracker.all_streams()[0].1.state, TcpState::FinWait);
    tracker.feed(&b, &a, 80, 50000, 9, 0x11, b"late", 64);
    let all = tracker.all_streams();
    assert_eq!(all[0].1.state, TcpState::Closed);
    assert!(all[0].1.server_payload.is_empty());
}

#[test]
fn fin_on_a_new_connection_keeps_syn_sent() {
    let mut tracker = TcpStreamTracker::new();
    let a = IpAddr::v4([10, 0, 0, 1]);
    let b = IpAddr::v4([10, 0, 0, 2]);
    tracker.feed(&a, &b, 50000, 80, 0, 0x01, &[], 60);
    assert_eq!(tracker.all_streams()[0].1.state, TcpState::SynSent);
}
