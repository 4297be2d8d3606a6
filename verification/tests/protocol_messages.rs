use nethawk::protocol::dhcp::{format_ipv4, format_mac, DhcpMessageType, DhcpPacket};
use nethawk::protocol::dns::{decode_domain_name, DNSRequest};
use nethawk::protocol::http::{first_equal, HTTPMessage, HTTPMessageKind};
use nethawk::protocol::tls::{cipher_suite_name, parse_client_hello, version_name};
use nethawk::protocol::ParseError;

// ── DNS ──

fn make_dns_query(qname_bytes: &[u8], qtype: u16) -> Vec<u8> {
    let mut raw = vec![0u8; 12];
    raw[0..2].copy_from_slice(&0x1234u16.to_be_bytes());
    raw[2..4].copy_from_slice(&0x0100u16.to_be_bytes());
    raw[4..6].copy_from_slice(&1u16.to_be_bytes());
    raw.extend_from_slice(qname_bytes);
    raw.extend_from_slice(&qtype.to_be_bytes());
    raw.extend_from_slice(&1u16.to_be_bytes());
    raw
}

fn encode_domain(name: &str) -> Vec<u8> {
    let mut bytes = Vec::new();
    for label in name.split('.') {
        bytes.push(label.len() as u8);
        bytes.extend_from_slice(label.as_bytes());
    }
    bytes.push(0);
    bytes
}

#[test]
fn test_decode_simple_domain() {
    let domain_bytes = encode_domain("www.example.com");
    let (name, next) = decode_domain_name(&domain_bytes, 0).unwrap();
    assert_eq!(name, "www.example.com");
    assert_eq!(next, domain_bytes.len());
}

#[test]
fn test_decode_single_label() {
    let raw = vec![4, b't', b'e', b's', b't', 0];
    let (name, _) = decode_domain_name(&raw, 0).unwrap();
    assert_eq!(name, "test");
}

#[test]
fn test_decode_compression_pointer_rejected() {
    let raw = [0xC0, 0x0C, 0x00];
    assert!(decode_domain_name(&raw, 0).is_err());
    assert_eq!(decode_domain_name(&raw, 0).err(), Some(ParseError::CompressionPointer));
}

#[test]
fn dns_name_errors() {
    // A label that runs past the data.
    assert_eq!(decode_domain_name(&[5, b'a', b'b'], 0).err(), Some(ParseError::Truncated));
    // A name without its terminating zero.
    assert_eq!(decode_domain_name(&[1, b'a'], 0).err(), Some(ParseError::Truncated));
    // A label that is not UTF-8.
    assert_eq!(decode_domain_name(&[1, 0xff, 0], 0).err(), Some(ParseError::InvalidUtf8));
    // The root name.
    let (name, next) = decode_domain_name(&[0], 0).unwrap();
    assert_eq!(name, "");
    assert_eq!(next, 1);
}

#[test]
fn test_dns_parse_query() {
    let domain = encode_domain("google.com");
    let raw = make_dns_query(&domain, 1);

    let dns = DNSRequest::parse(&raw).unwrap();
    assert_eq!(dns.header.transaction_id, 0x1234);
    assert!(!dns.header.is_response());
    assert_eq!(dns.header.opcode(), 0);
    assert_eq!(dns.header.questions, 1);

    assert_eq!(dns.questions.len(), 1);
    assert_eq!(dns.questions[0].qname, "google.com");
    assert_eq!(dns.questions[0].qtype, 1);
    assert_eq!(dns.questions[0].qclass, 1);
}

#[test]
fn test_dns_parse_aaaa_query() {
    let domain = encode_domain("ipv6.test.org");
    let raw = make_dns_query(&domain, 28);

    let dns = DNSRequest::parse(&raw).unwrap();
    assert_eq!(dns.questions[0].qtype, 28);
    assert_eq!(dns.questions[0].qname, "ipv6.test.org");
}

#[test]
fn test_dns_parse_response() {
    let mut raw = vec![0u8; 12];
    raw[2..4].copy_from_slice(&0x8180u16.to_be_bytes());
    raw[4..6].copy_from_slice(&0u16.to_be_bytes());

    let dns = DNSRequest::parse(&raw).unwrap();
    assert!(dns.header.is_response());
}

#[test]
fn test_dns_parse_too_short() {
    let raw = [0u8; 11];
    assert!(DNSRequest::parse(&raw).is_err());
}

#[test]
fn dns_opcode_and_question_past_data() {
    let mut raw = vec![0u8; 12];
    raw[2..4].copy_from_slice(&0x2800u16.to_be_bytes()); // opcode 5
    let dns = DNSRequest::parse(&raw).unwrap();
    assert_eq!(dns.header.opcode(), 5);
    // One question announced, its type and class missing.
    let mut raw = make_dns_query(&encode_domain("a.b"), 1);
    raw.truncate(raw.len() - 3);
    assert_eq!(DNSRequest::parse(&raw).err(), Some(ParseError::Truncated));
}

// ── DHCP ──

fn make_dhcp_discover(client_mac: [u8; 6], xid: u32) -> Vec<u8> {
    let mut raw = vec![0u8; 300];
    raw[0] = 1;
    raw[1] = 1;
    raw[2] = 6;
    raw[4..8].copy_from_slice(&xid.to_be_bytes());
    raw[28..34].copy_from_slice(&client_mac);
    raw[240..244].copy_from_slice(&[0x63, 0x82, 0x53, 0x63]);
    raw[244] = 53;
    raw[245] = 1;
    raw[246] = 1;
    raw[247] = 55;
    raw[248] = 4;
    raw[249] = 1;
    raw[250] = 3;
    raw[251] = 6;
    raw[252] = 15;
    raw[253] = 255;
    raw
}

#[test]
fn test_parse_discover() {
    let raw = make_dhcp_discover([0xaa, 0xbb, 0xcc, 0xdd, 0xee, 0xff], 0x12345678);
    let pkt = DhcpPacket::parse(&raw).unwrap();
    assert_eq!(pkt.op, 1);
    assert_eq!(pkt.xid, 0x12345678);
    assert_eq!(pkt.message_type().unwrap(), DhcpMessageType::Discover);
    assert_eq!(format_mac(&pkt.chaddr[0..6]), "aa:bb:cc:dd:ee:ff");
}

#[test]
fn dhcp_test_parse_too_short() {
    let raw = [0u8; 200];
    assert!(DhcpPacket::parse(&raw).is_err());
}

#[test]
fn test_invalid_magic_cookie() {
    let mut raw = vec![0u8; 250];
    raw[0] = 1;
    raw[240..244].copy_from_slice(&[0x00, 0x00, 0x00, 0x00]);
    let pkt = DhcpPacket::parse(&raw).unwrap();
    assert!(pkt.options.is_empty());
}

#[test]
fn test_format_ipv4() {
    assert_eq!(format_ipv4(&[192, 168, 1, 100]), "192.168.1.100");
}

#[test]
fn dhcp_test_format_mac() {
    assert_eq!(format_mac(&[0x00, 0x1a, 0x2b, 0x3c, 0x4d, 0x5e, 0xff, 0xff]), "00:1a:2b:3c:4d:5e");
}

#[test]
fn dhcp_options_and_addresses() {
    let mut raw = make_dhcp_discover([1, 2, 3, 4, 5, 6], 1);
    // Replace the list: message type ACK, requested IP, server identifier, padding.
    raw[244..262].copy_from_slice(&[53, 1, 5, 50, 4, 10, 0, 0, 7, 0, 54, 4, 10, 0, 0, 1, 255, 0]);
    let pkt = DhcpPacket::parse(&raw).unwrap();
    assert_eq!(pkt.message_type(), Some(DhcpMessageType::Ack));
    assert_eq!(pkt.requested_ip(), Some([10, 0, 0, 7]));
    assert_eq!(pkt.server_identifier(), Some([10, 0, 0, 1]));
    assert_eq!(pkt.find_option(54), Some(&[10u8, 0, 0, 1][..]));
    assert_eq!(pkt.find_option(99), None);
    assert_eq!(pkt.get_option_u8(53), Some(5));
    assert_eq!(pkt.options.len(), 3);
    assert_eq!(DhcpMessageType::from_u8(8).name(), "INFORM");
    assert_eq!(DhcpMessageType::from_u8(42), DhcpMessageType::Unknown);
}

// ── HTTP ──

fn make_http_request(method: &str, uri: &str, headers: &[(&str, &str)], body: &[u8]) -> Vec<u8> {
    let mut raw = format!("{} {} HTTP/1.1\r\n", method, uri).into_bytes();
    for (k, v) in headers {
        raw.extend_from_slice(format!("{}: {}\r\n", k, v).as_bytes());
    }
    raw.extend_from_slice(b"\r\n");
    raw.extend_from_slice(body);
    raw
}

fn make_http_response(code: u16, reason: &str, headers: &[(&str, &str)], body: &[u8]) -> Vec<u8> {
    let mut raw = format!("HTTP/1.1 {} {}\r\n", code, reason).into_bytes();
    for (k, v) in headers {
        raw.extend_from_slice(format!("{}: {}\r\n", k, v).as_bytes());
    }
    raw.extend_from_slice(b"\r\n");
    raw.extend_from_slice(body);
    raw
}

#[test]
fn test_parse_simple_get() {
    let raw = make_http_request("GET", "/", &[("Host", "example.com")], b"");
    let msg = HTTPMessage::parse(&raw).unwrap();

    assert_eq!(msg.kind, HTTPMessageKind::Request);
    assert_eq!(msg.method.as_deref(), Some("GET"));
    assert_eq!(msg.uri.as_deref(), Some("/"));
    assert_eq!(msg.version, "HTTP/1.1");
    assert_eq!(msg.status_code, None);
    assert_eq!(msg.header("host"), Some("example.com"));
    assert_eq!(msg.headers.len(), 1);
    assert_eq!(msg.body_offset, raw.len());
}

#[test]
fn test_parse_post_with_body() {
    let body = b"name=value&key=123";
    let raw = make_http_request(
        "POST",
        "/api/submit",
        &[
            ("Host", "api.example.com"),
            ("Content-Type", "application/x-www-form-urlencoded"),
            ("Content-Length", "18"),
        ],
        body,
    );
    let msg = HTTPMessage::parse(&raw).unwrap();

    assert_eq!(msg.method.as_deref(), Some("POST"));
    assert_eq!(msg.uri.as_deref(), Some("/api/submit"));
    assert_eq!(msg.headers.len(), 3);
    assert_eq!(msg.header("Content-Type"), Some("application/x-www-form-urlencoded"));
    assert!(msg.body_offset < raw.len());
    assert_eq!(&raw[msg.body_offset..], body);
}

#[test]
fn test_parse_http09() {
    let raw = b"GET /\r\n";
    let msg = HTTPMessage::parse(raw).unwrap();
    assert_eq!(msg.kind, HTTPMessageKind::Request);
    assert_eq!(msg.method.as_deref(), Some("GET"));
    assert_eq!(msg.version, "HTTP/0.9");
}

#[test]
fn test_parse_simple_response() {
    let raw = make_http_response(200, "OK", &[("Server", "nginx")], b"");
    let msg = HTTPMessage::parse(&raw).unwrap();

    assert_eq!(msg.kind, HTTPMessageKind::Response);
    assert_eq!(msg.status_code, Some(200));
    assert_eq!(msg.reason.as_deref(), Some("OK"));
    assert_eq!(msg.version, "HTTP/1.1");
    assert_eq!(msg.method, None);
    assert_eq!(msg.uri, None);
    assert_eq!(msg.header("Server"), Some("nginx"));
}

#[test]
fn test_parse_404_response() {
    let raw = make_http_response(404, "Not Found", &[], b"<html>...</html>");
    let msg = HTTPMessage::parse(&raw).unwrap();

    assert_eq!(msg.status_code, Some(404));
    assert_eq!(msg.reason.as_deref(), Some("Not Found"));
    assert_eq!(&raw[msg.body_offset..], b"<html>...</html>");
}

#[test]
fn test_parse_empty_input() {
    assert!(HTTPMessage::parse(b"").is_err());
}

#[test]
fn test_parse_truncated() {
    let raw = b"GET / HTT";
    assert!(HTTPMessage::parse(raw).is_err());
}

#[test]
fn test_parse_no_crlf_in_headers() {
    let raw = b"GET / HTTP/1.1\r\nHost: example.com";
    assert!(HTTPMessage::parse(raw).is_err());
}

#[test]
fn http_header_lookup_ignores_case_and_misses() {
    let raw = make_http_request("GET", "/x", &[("X-Trace", "abc"), ("Accept", "*/*")], b"");
    let msg = HTTPMessage::parse(&raw).unwrap();
    assert_eq!(msg.header("x-trace"), Some("abc"));
    assert_eq!(msg.header("X-TRACE"), Some("abc"));
    assert_eq!(msg.header("Missing"), None);
}

#[test]
fn http_error_variants() {
    assert_eq!(HTTPMessage::parse(b"HTTP/1.1 abc OK\r\n\r\n").err(), Some(ParseError::BadStatusCode));
    assert_eq!(HTTPMessage::parse(b"HELLO\r\n\r\n").err(), Some(ParseError::Malformed));
    assert_eq!(HTTPMessage::parse(b"GET /\xff\r\n\r\n").err(), Some(ParseError::InvalidUtf8));
}

// ── TLS ──

fn make_client_hello(sni: &str, alpn_protos: &[&str]) -> Vec<u8> {
    let mut extensions = Vec::new();
    let sni_bytes = sni.as_bytes();
    let sni_data = {
        let mut d = Vec::new();
        let name_list_len = 3 + sni_bytes.len();
        d.extend_from_slice(&(name_list_len as u16).to_be_bytes());
        d.push(0);
        d.extend_from_slice(&(sni_bytes.len() as u16).to_be_bytes());
        d.extend_from_slice(sni_bytes);
        d
    };
    extensions.extend_from_slice(&0x0000u16.to_be_bytes());
    extensions.extend_from_slice(&(sni_data.len() as u16).to_be_bytes());
    extensions.extend_from_slice(&sni_data);

    if !alpn_protos.is_empty() {
        let mut alpn_data = Vec::new();
        let mut alpn_payload = Vec::new();
        for proto in alpn_protos {
            alpn_payload.push(proto.len() as u8);
            alpn_payload.extend_from_slice(proto.as_bytes());
        }
        alpn_data.extend_from_slice(&(alpn_payload.len() as u16).to_be_bytes());
        alpn_data.extend_from_slice(&alpn_payload);

        extensions.extend_from_slice(&0x0010u16.to_be_bytes());
        extensions.extend_from_slice(&(alpn_data.len() as u16).to_be_bytes());
        extensions.extend_from_slice(&alpn_data);
    }

    let ext_len = extensions.len();
    let mut handshake = Vec::new();
    handshake.push(1);
    let body_len_pos = handshake.len();
    handshake.extend_from_slice(&[0, 0, 0]);
    let body_start = handshake.len();
    handshake.extend_from_slice(&0x0303u16.to_be_bytes());
    handshake.extend_from_slice(&[0u8; 32]);
    handshake.push(0);
    handshake.extend_from_slice(&[0, 2]);
    handshake.extend_from_slice(&0xC02Fu16.to_be_bytes());
    handshake.push(1);
    handshake.push(0);
    handshake.extend_from_slice(&(ext_len as u16).to_be_bytes());
    handshake.extend_from_slice(&extensions);

    let body_len = handshake.len() - body_start;
    handshake[body_len_pos] = ((body_len >> 16) & 0xFF) as u8;
    handshake[body_len_pos + 1] = ((body_len >> 8) & 0xFF) as u8;
    handshake[body_len_pos + 2] = (body_len & 0xFF) as u8;

    let mut record = Vec::new();
    record.push(22);
    record.extend_from_slice(&0x0303u16.to_be_bytes());
    record.extend_from_slice(&(handshake.len() as u16).to_be_bytes());
    record.extend_from_slice(&handshake);
    record
}

#[test]
fn test_parse_client_hello_sni() {
    let data = make_client_hello("www.example.com", &[]);
    let hello = parse_client_hello(&data).unwrap();
    assert_eq!(hello.client_version, 0x0303);
    assert_eq!(hello.sni.as_deref(), Some("www.example.com"));
}

#[test]
fn test_parse_client_hello_alpn() {
    let data = make_client_hello("example.com", &["h2", "http/1.1"]);
    let hello = parse_client_hello(&data).unwrap();
    assert_eq!(hello.alpn, vec!["h2", "http/1.1"]);
}

#[test]
fn tls_hello_fields() {
    let data = make_client_hello("a.example", &[]);
    let hello = parse_client_hello(&data).unwrap();
    assert_eq!(hello.record_version, 0x0303);
    assert_eq!(hello.cipher_suites, vec![0xC02F]);
    assert!(hello.alpn.is_empty());
}

#[test]
fn test_non_client_hello() {
    let data = vec![23, 0x03, 0x03, 0, 10, 0, 0, 0, 0, 0, 0, 0, 0, 0, 0];
    assert!(parse_client_hello(&data).is_none());
}

#[test]
fn test_empty_data() {
    assert!(parse_client_hello(&[]).is_none());
}

#[test]
fn tls_record_running_past_the_data() {
    let mut data = make_client_hello("x.org", &[]);
    data.truncate(data.len() - 1);
    assert!(parse_client_hello(&data).is_none());
}

#[test]
fn test_cipher_suite_name() {
    assert_eq!(cipher_suite_name(0x1301), "TLS_AES_128_GCM_SHA256 (TLS 1.3)");
    assert_eq!(cipher_suite_name(0xC02F), "TLS_ECDHE_RSA_WITH_AES_128_GCM_SHA256");
    assert_eq!(cipher_suite_name(0xFFFF), "???");
}

#[test]
fn test_version_name() {
    assert_eq!(version_name(0x0303), "TLS 1.2");
    assert_eq!(version_name(0x0304), "TLS 1.3");
    assert_eq!(version_name(0x0000), "???");
}

#[test]
fn first_equal_finds_the_first_match_only() {
    let keys: Vec<String> = vec!["host".to_string(), "accept".to_string(), "host".to_string()];
    assert_eq!(first_equal(&keys, &"host".to_string()), Some(0));
    assert_eq!(first_equal(&keys, &"accept".to_string()), Some(1));
    assert_eq!(first_equal(&keys, &"Host".to_string()), None);
    assert_eq!(first_equal(&Vec::new(), &"host".to_string()), None);
}
