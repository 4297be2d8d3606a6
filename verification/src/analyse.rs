//! Offline analysis: the choices of the analysis modes, the detection of
//! TLS ClientHello and DHCP messages in captured frames, the feeding of TCP
//! segments to the stream tracker, and the counting of HTTP requests.
use vstd::prelude::*;
use vstd::utf8::{decode_utf8, valid_utf8};

use crate::cli::AnalyzeArgs;
use crate::protocol::dhcp::DhcpPacket;
use crate::protocol::ethernet::{ethernet_error, payload_ethertype};
use crate::protocol::ip::{ipv4_error, ipv6_error, ipv6_payload_len};
use crate::protocol::tcp::{tcp_error, tcp_header_len};
use crate::protocol::tls::hello_in_records;
use crate::protocol::udp::udp_error;
use crate::protocol::{dispatch_from_ethernet, dispatch_from_ipv4, dispatch_from_ipv6, parse_client_hello, EthernetFrame, ParseResult};
use crate::protocol::tls::TlsClientHello;
use crate::printer::{choose_view, PacketView};
use crate::status::{frame_payload, ipv4_payload};
use crate::tcp_stream::{stream_step, IpAddr, StreamModel, TcpState, TcpStream, TcpStreamTracker, KeyView};
use crate::protocol::dhcp::{as_ipv4, find_option_value, message_type_name as dhcp_type_name, message_type_of};
use crate::protocol::tls::{cipher_suite_name, cipher_suite_text, texts, version_name, version_text, HelloView};
use crate::protocol::slice_range;
use crate::text::{
    be16, be16u, be32, colon_hex2, dec16, dec8, dec_digits, dotted_dec, hex4_prefixed, hex_digits, ipv6_text, join,
    lemma_join_push, pad_zero, push_dec, push_dec_u16, push_dec_u8, push_dec_usize, push_hex4_prefixed, push_lit,
    push_padded_hex, string_of, utf8_str,
};

verus! {

/// The network layer of a frame as values: the IP version, the address
/// bytes, the protocol number and the body behind the IP header.
pub ghost struct IpView {
    pub v6: bool,
    pub src: Seq<u8>,
    pub dst: Seq<u8>,
    pub proto: u8,
    pub body: Seq<u8>,
}

/// The IPv4 or IPv6 layer of an Ethernet frame, when the frame and its IP
/// header are accepted.
pub open spec fn frame_ip(raw: Seq<u8>) -> Option<IpView> {
    if ethernet_error(raw) is Some {
        None
    } else {
        let et = payload_ethertype(raw);
        let p = frame_payload(raw);
        if et == 0x0800 {
            if ipv4_error(p) is None {
                Some(IpView { v6: false, src: p.subrange(12, 16), dst: p.subrange(16, 20), proto: p[9], body: ipv4_payload(p) })
            } else {
                None
            }
        } else if et == 0x86DD {
            if ipv6_error(p) is None {
                Some(
                    IpView {
                        v6: true,
                        src: p.subrange(8, 24),
                        dst: p.subrange(24, 40),
                        proto: p[6],
                        body: p.subrange(40, 40 + ipv6_payload_len(p)),
                    },
                )
            } else {
                None
            }
        } else {
            None
        }
    }
}

/// Whether `a` is the address of the given version and bytes.
pub open spec fn addr_is(a: IpAddr, v6: bool, bytes: Seq<u8>) -> bool {
    (a is V6) == v6 && a.bytes() == bytes
}

/// An address as text: dotted decimal, or eight hexadecimal groups.
pub open spec fn addr_text(v6: bool, bytes: Seq<u8>) -> Seq<char> {
    if v6 {
        ipv6_text(bytes)
    } else {
        dotted_dec(bytes)
    }
}

/// Whether the frame carries an accepted TCP segment.
pub open spec fn frame_tcp(raw: Seq<u8>) -> bool {
    frame_ip(raw) matches Some(v) && v.proto == 6 && tcp_error(v.body) is None
}

/// The payload of an accepted TCP segment.
pub open spec fn tcp_payload(seg: Seq<u8>) -> Seq<u8> {
    seg.subrange(tcp_header_len(seg), seg.len() as int)
}

/// Both endpoints of a message as text and ports.
pub struct Endpoints {
    pub src: String,
    pub dst: String,
    pub src_port: u16,
    pub dst_port: u16,
}

/// The IP layer of a frame: both addresses, the protocol number and the
/// body; `None` when the frame, or its IP header, is rejected or the frame
/// carries no IP.
pub fn ip_in_frame<'a>(raw: &'a [u8]) -> (r: Option<(IpAddr, IpAddr, u8, &'a [u8])>)
    ensures
        match r {
            Some(x) => frame_ip(raw@) matches Some(v) && addr_is(x.0, v.v6, v.src) && addr_is(x.1, v.v6, v.dst)
                && x.2 == v.proto && x.3@ == v.body,
            None => frame_ip(raw@) is None,
        },
{
    let eth = match EthernetFrame::parse(raw) {
        Ok(e) => e,
        Err(_) => return None,
    };
    assert(eth.payload@ == frame_payload(raw@));
    match dispatch_from_ethernet(&eth) {
        Ok(ParseResult::IPv4(ip)) => {
            let src = IpAddr::v4(ip.src_ip);
            let dst = IpAddr::v4(ip.dst_ip);
            Some((src, dst, ip.next_protocol, ip.payload))
        },
        Ok(ParseResult::IPv6(ip)) => {
            let src = IpAddr::v6(ip.src_ip);
            let dst = IpAddr::v6(ip.dst_ip);
            Some((src, dst, ip.next_header, ip.payload))
        },
        _ => None,
    }
}

/// The address as text.
fn addr_string(a: &IpAddr) -> (r: String)
    ensures
        r@ == addr_text(*a is V6, a.bytes()),
{
    a.format()
}

/// A TLS ClientHello carried by TCP port 443 (on either side), with both
/// endpoints; `None` when the frame holds none.
pub fn tls_in_frame(raw: &[u8]) -> (r: Option<(Endpoints, TlsClientHello)>)
    ensures
        r is Some <==> (frame_tcp(raw@) && ({
            let body = frame_ip(raw@)->0.body;
            (be16(body[0], body[1]) == 443 || be16(body[2], body[3]) == 443) && hello_in_records(tcp_payload(body), 0) is Some
        })),
        r matches Some(x) ==> ({
            let v = frame_ip(raw@)->0;
            &&& x.0.src@ == addr_text(v.v6, v.src)
            &&& x.0.dst@ == addr_text(v.v6, v.dst)
            &&& x.0.src_port as int == be16(v.body[0], v.body[1])
            &&& x.0.dst_port as int == be16(v.body[2], v.body[3])
            &&& hello_in_records(tcp_payload(v.body), 0) == Some(x.1@)
        }),
{
    let (src, dst, proto, body) = match ip_in_frame(raw) {
        Some(x) => x,
        None => return None,
    };
    if proto != 6 {
        return None;
    }
    let tcp = match crate::protocol::TCPSegment::parse(body) {
        Ok(t) => t,
        Err(_) => return None,
    };
    if tcp.dst_port != 443 && tcp.src_port != 443 {
        return None;
    }
    match parse_client_hello(tcp.payload) {
        Some(hello) => {
            let ends = Endpoints {
                src: addr_string(&src),
                dst: addr_string(&dst),
                src_port: tcp.src_port,
                dst_port: tcp.dst_port,
            };
            Some((ends, hello))
        },
        None => None,
    }
}

/// Whether a UDP port pair touches the DHCP ports 67 or 68.
pub open spec fn dhcp_ports(src_port: int, dst_port: int) -> bool {
    src_port == 67 || dst_port == 67 || src_port == 68 || dst_port == 68
}

/// Whether the frame carries a DHCP message: IPv4, an accepted UDP header
/// with port 67 or 68 on either side, and a body of at least 240 bytes.
pub open spec fn frame_dhcp(raw: Seq<u8>) -> bool {
    frame_ip(raw) matches Some(v) && !v.v6 && v.proto == 17 && udp_error(v.body) is None && dhcp_ports(
        be16(v.body[0], v.body[1]),
        be16(v.body[2], v.body[3]),
    ) && v.body.len() >= 248
}

/// A DHCP message carried by UDP port 67 or 68 over IPv4, with both
/// endpoints; `None` when the frame holds none.
pub fn dhcp_in_frame<'a>(raw: &'a [u8]) -> (r: Option<(Endpoints, DhcpPacket<'a>)>)
    ensures
        r is Some <==> frame_dhcp(raw@),
        r matches Some(x) ==> ({
            let v = frame_ip(raw@)->0;
            &&& x.0.src@ == dotted_dec(v.src)
            &&& x.0.dst@ == dotted_dec(v.dst)
            &&& x.0.src_port as int == be16(v.body[0], v.body[1])
            &&& x.0.dst_port as int == be16(v.body[2], v.body[3])
            &&& x.1.decodes(v.body.subrange(8, v.body.len() as int))
        }),
{
    let eth = match EthernetFrame::parse(raw) {
        Ok(e) => e,
        Err(_) => return None,
    };
    assert(eth.payload@ == frame_payload(raw@));
    let ip = match dispatch_from_ethernet(&eth) {
        Ok(ParseResult::IPv4(ip)) => ip,
        _ => return None,
    };
    let udp = match dispatch_from_ipv4(&ip) {
        Ok(ParseResult::UDP(u)) => u,
        _ => return None,
    };
    if udp.src_port != 67 && udp.dst_port != 67 && udp.src_port != 68 && udp.dst_port != 68 {
        return None;
    }
    match DhcpPacket::parse(udp.payload) {
        Ok(packet) => {
            let ends = Endpoints {
                src: crate::protocol::IPv4Packet::format_ip(&ip.src_ip),
                dst: crate::protocol::IPv4Packet::format_ip(&ip.dst_ip),
                src_port: udp.src_port,
                dst_port: udp.dst_port,
            };
            Some((ends, packet))
        },
        Err(_) => None,
    }
}

/// The bytes of an HTTP method followed by a space, for the eight methods.
pub open spec fn http_method(k: int) -> Seq<u8> {
    if k == 0 {
        seq![71u8, 69u8, 84u8, 32u8]
    } else if k == 1 {
        seq![80u8, 79u8, 83u8, 84u8, 32u8]
    } else if k == 2 {
        seq![80u8, 85u8, 84u8, 32u8]
    } else if k == 3 {
        seq![68u8, 69u8, 76u8, 69u8, 84u8, 69u8, 32u8]
    } else if k == 4 {
        seq![72u8, 69u8, 65u8, 68u8, 32u8]
    } else if k == 5 {
        seq![79u8, 80u8, 84u8, 73u8, 79u8, 78u8, 83u8, 32u8]
    } else if k == 6 {
        seq![80u8, 65u8, 84u8, 67u8, 72u8, 32u8]
    } else {
        seq![67u8, 79u8, 78u8, 78u8, 69u8, 67u8, 84u8, 32u8]
    }
}

/// Whether `s` holds `m` at position `i`.
pub open spec fn starts_at(s: Seq<u8>, i: int, m: Seq<u8>) -> bool {
    0 <= i && i + m.len() <= s.len() && s.subrange(i, i + m.len()) == m
}

/// Whether a request line starts at position `i`: `i` begins a line, and
/// `GET `, `POST `, `PUT `, `DELETE `, `HEAD `, `OPTIONS `, `PATCH ` or
/// `CONNECT ` follows.
pub open spec fn request_line_at(s: Seq<u8>, i: int) -> bool {
    &&& (i == 0 || s[i - 1] == 10)
    &&& (starts_at(s, i, http_method(0)) || starts_at(s, i, http_method(1)) || starts_at(s, i, http_method(2))
        || starts_at(s, i, http_method(3)) || starts_at(s, i, http_method(4)) || starts_at(s, i, http_method(5))
        || starts_at(s, i, http_method(6)) || starts_at(s, i, http_method(7)))
}

/// The number of request lines that start at or after `i`.
pub open spec fn request_lines_from(s: Seq<u8>, i: int) -> nat
    decreases s.len() - i,
{
    if i < 0 || i >= s.len() {
        0
    } else {
        (if request_line_at(s, i) {
            1nat
        } else {
            0nat
        }) + request_lines_from(s, i + 1)
    }
}

/// The number of HTTP request lines in client data: lines of well-formed
/// UTF-8 text that begin with one of the eight methods and a space; data
/// that is not UTF-8 has none.
pub open spec fn http_request_count(s: Seq<u8>) -> nat {
    if valid_utf8(s) {
        request_lines_from(s, 0)
    } else {
        0
    }
}

/// The bytes of method `k`.
fn method_bytes(k: usize) -> (v: Vec<u8>)
    requires
        k < 8,
    ensures
        v@ == http_method(k as int),
{
    let v = if k == 0 {
        vec![71u8, 69, 84, 32]
    } else if k == 1 {
        vec![80u8, 79, 83, 84, 32]
    } else if k == 2 {
        vec![80u8, 85, 84, 32]
    } else if k == 3 {
        vec![68u8, 69, 76, 69, 84, 69, 32]
    } else if k == 4 {
        vec![72u8, 69, 65, 68, 32]
    } else if k == 5 {
        vec![79u8, 80, 84, 73, 79, 78, 83, 32]
    } else if k == 6 {
        vec![80u8, 65, 84, 67, 72, 32]
    } else {
        vec![67u8, 79, 78, 78, 69, 67, 84, 32]
    };
    assert(v@ =~= http_method(k as int));
    v
}

/// Whether `data` holds `m` at position `i`.
fn holds_at(data: &[u8], i: usize, m: &[u8]) -> (r: bool)
    ensures
        r == starts_at(data@, i as int, m@),
{
    if i > data.len() || m.len() > data.len() - i {
        return false;
    }
    let mut k: usize = 0;
    while k < m.len()
        invariant
            k <= m@.len(),
            i + m.len() <= data.len(),
            m.len() == m@.len(),
            forall|j: int| 0 <= j < k ==> data@[i + j] == m@[j],
        decreases m@.len() - k,
    {
        if data[i + k] != m[k] {
            assert(data@.subrange(i as int, i + m@.len())[k as int] != m@[k as int]);
            return false;
        }
        k = k + 1;
    }
    assert(data@.subrange(i as int, i + m@.len()) =~= m@);
    true
}

/// Whether a request line starts at position `i`.
fn request_line_starts(data: &[u8], i: usize) -> (r: bool)
    requires
        i < data@.len(),
    ensures
        r == request_line_at(data@, i as int),
{
    if i > 0 && data[i - 1] != 10 {
        return false;
    }
    let mut k: usize = 0;
    while k < 8
        invariant
            k <= 8,
            i < data@.len(),
            i == 0 || data@[i - 1] == 10,
            forall|j: int| 0 <= j < k ==> !starts_at(data@, i as int, #[trigger] http_method(j)),
        decreases 8 - k,
    {
        let m = method_bytes(k);
        if holds_at(data, i, m.as_slice()) {
            return true;
        }
        k = k + 1;
    }
    assert(!starts_at(data@, i as int, http_method(0)));
    assert(!starts_at(data@, i as int, http_method(1)));
    assert(!starts_at(data@, i as int, http_method(2)));
    assert(!starts_at(data@, i as int, http_method(3)));
    assert(!starts_at(data@, i as int, http_method(4)));
    assert(!starts_at(data@, i as int, http_method(5)));
    assert(!starts_at(data@, i as int, http_method(6)));
    assert(!starts_at(data@, i as int, http_method(7)));
    false
}

/// Counts the HTTP requests in client data: the lines of UTF-8 text that
/// begin with `GET `, `POST `, `PUT `, `DELETE `, `HEAD `, `OPTIONS `,
/// `PATCH ` or `CONNECT `; data that is not UTF-8 counts none.
pub fn count_http_requests(data: &[u8]) -> (r: usize)
    ensures
        r == http_request_count(data@),
{
    if utf8_str(data).is_none() {
        return 0;
    }
    let mut count: usize = 0;
    let mut i: usize = 0;
    while i < data.len()
        invariant
            i <= data@.len(),
            count <= i,
            request_lines_from(data@, 0) == count + request_lines_from(data@, i as int),
        decreases data@.len() - i,
    {
        if request_line_starts(data, i) {
            count = count + 1;
        }
        i = i + 1;
    }
    count
}

/// Whether a connection is reported after the analysis: it is closed, or
/// both directions carried data.
pub open spec fn reportable(m: StreamModel) -> bool {
    m.state == TcpState::Closed || (m.client_payload.len() > 0 && m.server_payload.len() > 0)
}

/// Whether a connection is reported after the analysis.
pub fn stream_reportable(stream: &TcpStream) -> (r: bool)
    ensures
        r == reportable(stream@),
{
    stream.state == TcpState::Closed || (stream.client_payload.len() != 0 && stream.server_payload.len() != 0)
}

/// Whether a connection is followed (printed, exported and counted for its
/// HTTP requests): it is reported and its client sent data.
pub open spec fn followed(m: StreamModel) -> bool {
    reportable(m) && m.client_payload.len() > 0
}

/// Whether a connection is followed after the analysis.
pub fn stream_followed(stream: &TcpStream) -> (r: bool)
    ensures
        r == followed(stream@),
{
    stream_reportable(stream) && stream.client_payload.len() != 0
}

/// The HTTP requests a connection contributes: those of its client data
/// when it is followed.
pub open spec fn stream_requests(m: StreamModel) -> nat {
    if followed(m) {
        http_request_count(m.client_payload)
    } else {
        0
    }
}

/// The HTTP requests of the first `n` connections.
pub open spec fn requests_in(e: Seq<(KeyView, StreamModel)>, n: int) -> nat
    decreases n,
{
    if n <= 0 || n > e.len() {
        0
    } else {
        requests_in(e, n - 1) + stream_requests(e[n - 1].1)
    }
}

/// The HTTP requests of all reported connections, or `None` when the total
/// does not fit in `usize`.
pub fn http_request_total(tracker: &TcpStreamTracker) -> (r: Option<usize>)
    ensures
        match r {
            Some(t) => t == requests_in(tracker.entries(), tracker.entries().len() as int),
            None => requests_in(tracker.entries(), tracker.entries().len() as int) > usize::MAX,
        },
{
    let all = tracker.all_streams();
    let ghost e = tracker.entries();
    let mut total: usize = 0;
    let mut i: usize = 0;
    while i < all.len()
        invariant
            i <= all@.len(),
            e == tracker.entries(),
            all@.map_values(|x: (&crate::tcp_stream::FiveTuple, &TcpStream)| (x.0.key_view(), x.1@)) == e,
            total == requests_in(e, i as int),
        decreases all@.len() - i,
    {
        let stream = all[i].1;
        assert(all@.map_values(|x: (&crate::tcp_stream::FiveTuple, &TcpStream)| (x.0.key_view(), x.1@))[i as int] == e[i as int]);
        assert(e[i as int].1 == stream@);
        let n: usize = if stream_followed(stream) {
            count_http_requests(stream.client_payload.as_slice())
        } else {
            0
        };
        match total.checked_add(n) {
            Some(t) => total = t,
            None => {
                proof {
                    self::lemma_requests_grow(e, i as int + 1, e.len() as int);
                }
                return None;
            },
        }
        i = i + 1;
    }
    Some(total)
}

/// The request count of a prefix grows with the prefix.
proof fn lemma_requests_grow(e: Seq<(KeyView, StreamModel)>, a: int, b: int)
    requires
        0 <= a <= b <= e.len(),
    ensures
        requests_in(e, a) <= requests_in(e, b),
    decreases b - a,
{
    if a < b {
        lemma_requests_grow(e, a, b - 1);
    }
}

/// The offline analysis of one pcap file, with its mode flags.
pub struct AnalyzeEngine {
    pub file: String,
    pub verbose: bool,
    pub dump: bool,
    pub json: bool,
    pub follow_http: bool,
    pub tls: bool,
    pub dhcp: bool,
    pub export: bool,
}

impl AnalyzeEngine {
    /// An engine with the flags of the arguments.
    pub fn new(args: &AnalyzeArgs) -> (r: Result<AnalyzeEngine, String>)
        ensures
            r matches Ok(e) && e.file@ == args.file@ && e.verbose == args.verbose_output && e.dump == args.hex
                && e.json == args.json_output && e.follow_http == args.follow_http && e.tls == args.tls && e.dhcp
                == args.dhcp && e.export == args.export,
    {
        Ok(AnalyzeEngine {
            file: args.file.clone(),
            verbose: args.verbose_output,
            dump: args.hex,
            json: args.json_output,
            follow_http: args.follow_http,
            tls: args.tls,
            dhcp: args.dhcp,
            export: args.export,
        })
    }

    /// Whether packets are shown one by one: neither HTTP following, TLS
    /// nor DHCP detection is asked for.
    pub open spec fn default_mode(&self) -> bool {
        !self.follow_http && !self.tls && !self.dhcp
    }

    /// How packets are shown, or `None` outside the default mode: JSON when
    /// asked for, else every field in verbose mode, else one line.
    pub fn packet_view(&self) -> (r: Option<PacketView>)
        ensures
            r is Some <==> self.default_mode(),
            r == Some(PacketView::Json) <==> self.default_mode() && self.json,
            r == Some(PacketView::Detailed) <==> self.default_mode() && !self.json && self.verbose,
            r == Some(PacketView::OneLine) <==> self.default_mode() && !self.json && !self.verbose,
    {
        if self.follow_http || self.tls || self.dhcp {
            None
        } else {
            Some(choose_view(self.json, self.verbose))
        }
    }

    /// Whether each packet is also dumped in hexadecimal: in the default
    /// mode, when asked for.
    pub fn wants_hexdump(&self) -> (r: bool)
        ensures
            r == (self.default_mode() && self.dump),
    {
        !self.follow_http && !self.tls && !self.dhcp && self.dump
    }

    /// Whether TCP streams are followed: for HTTP following or export.
    pub fn tracks_streams(&self) -> (r: bool)
        ensures
            r == (self.follow_http || self.export),
    {
        self.follow_http || self.export
    }

    /// Feeds the TCP segment of a captured frame (of `wire_len` bytes on the
    /// wire) to the tracker; a frame without an accepted TCP segment leaves
    /// the tracker unchanged.
    pub fn feed_tracker(&self, tracker: &mut TcpStreamTracker, raw: &[u8], wire_len: u64)
        requires
            old(tracker).wf(),
            old(tracker).has_room(raw@.len() as int, wire_len as int),
        ensures
            final(tracker).wf(),
            frame_tcp(raw@) ==> ({
                let v = frame_ip(raw@)->0;
                let seg = v.body;
                forall|s: IpAddr, d: IpAddr|
                    addr_is(s, v.v6, v.src) && addr_is(d, v.v6, v.dst) ==> final(tracker).entries() == old(tracker).after_segment(
                        s,
                        d,
                        be16u(seg[0], seg[1]),
                        be16u(seg[2], seg[3]),
                        be32(seg[4], seg[5], seg[6], seg[7]) as u32,
                        seg[13],
                        tcp_payload(seg),
                        wire_len,
                    )
            }),
            !frame_tcp(raw@) ==> final(tracker).entries() == old(tracker).entries(),
    {
        let (src, dst, proto, body) = match ip_in_frame(raw) {
            Some(x) => x,
            None => return,
        };
        if proto != 6 {
            return;
        }
        let tcp = match crate::protocol::TCPSegment::parse(body) {
            Ok(t) => t,
            Err(_) => return,
        };
        proof {
            let v = frame_ip(raw@)->0;
            assert(tcp.payload@.len() <= raw@.len()) by {
                assert(v.body.len() <= raw@.len());
            }
            lemma_room_for_less(tracker, raw@.len() as int, tcp.payload@.len() as int, wire_len as int);
            assert forall|s: IpAddr, d: IpAddr| addr_is(s, v.v6, v.src) && addr_is(d, v.v6, v.dst) implies s == src && d
                == dst by {
                crate::tcp_stream::lemma_same_addr(s, src);
                crate::tcp_stream::lemma_same_addr(d, dst);
            }
        }
        tracker.feed(&src, &dst, tcp.src_port, tcp.dst_port, tcp.seq, tcp.flags, tcp.payload, wire_len);
    }
}

/// Room for a longer payload is room for a shorter one.
proof fn lemma_room_for_less(t: &TcpStreamTracker, longer: int, shorter: int, wire_len: int)
    requires
        0 <= shorter <= longer,
        t.has_room(longer, wire_len),
    ensures
        t.has_room(shorter, wire_len),
{
}

/// `  src:port → dst:port`.
pub open spec fn endpoints_text(src: Seq<char>, src_port: u16, dst: Seq<char>, dst_port: u16) -> Seq<char> {
    "  "@ + src + ":"@ + dec16(src_port) + " → "@ + dst + ":"@ + dec16(dst_port)
}

/// The endpoint line of a report.
fn endpoints_line(ends: &Endpoints) -> (r: String)
    ensures
        r@ == endpoints_text(ends.src@, ends.src_port, ends.dst@, ends.dst_port),
{
    let mut s = string_of("  ");
    push_lit(&mut s, ends.src.as_str());
    push_lit(&mut s, ":");
    push_dec_u16(&mut s, ends.src_port);
    push_lit(&mut s, " → ");
    push_lit(&mut s, ends.dst.as_str());
    push_lit(&mut s, ":");
    push_dec_u16(&mut s, ends.dst_port);
    s
}

/// The texts of a list of lines.
pub open spec fn line_texts(v: Seq<String>) -> Seq<Seq<char>> {
    v.map_values(|l: String| l@)
}

/// The listed cipher suites: the first ten, each as `0x1301` and its name,
/// then how many more there are.
pub open spec fn cipher_lines(cs: Seq<u16>) -> Seq<Seq<char>> {
    let shown = if cs.len() > 10 { cs.take(10) } else { cs };
    shown.map_values(|c: u16| "    - "@ + hex4_prefixed(c) + "  "@ + cipher_suite_text(c)) + (if cs.len() > 10 {
        seq!["    ... and "@ + dec_digits((cs.len() - 10) as nat) + " more"@]
    } else {
        seq![]
    })
}

/// The report of a ClientHello: endpoints, record and client versions,
/// server name, cipher suites and ALPN protocols.
pub open spec fn tls_report(ends: Seq<char>, h: HelloView) -> Seq<Seq<char>> {
    seq!["\n── TLS ClientHello ──"@, ends, "  Record Version: "@ + version_text(h.0), "  Client Version: "@ + version_text(h.1)]
        + (match h.2 {
        Some(sni) => seq!["  SNI: "@ + sni],
        None => seq![],
    }) + (if h.3.len() > 0 {
        seq!["  Cipher Suites ("@ + dec_digits(h.3.len()) + "):"@] + cipher_lines(h.3)
    } else {
        seq![]
    }) + (if h.4.len() > 0 {
        seq!["  ALPN: "@ + join(h.4, ", "@)]
    } else {
        seq![]
    })
}

/// Appends a line.
fn push_line(out: &mut Vec<String>, line: String)
    ensures
        line_texts(final(out)@) == line_texts(old(out)@).push(line@),
{
    let ghost before = out@;
    out.push(line);
    assert(line_texts(out@) =~= line_texts(before).push(line@));
}

/// The lines reporting a ClientHello.
pub fn tls_report_lines(ends: &Endpoints, hello: &TlsClientHello) -> (r: Vec<String>)
    ensures
        line_texts(r@) == tls_report(endpoints_text(ends.src@, ends.src_port, ends.dst@, ends.dst_port), hello@),
{
    let ghost h = hello@;
    let mut out: Vec<String> = Vec::new();
    push_line(&mut out, string_of("\n── TLS ClientHello ──"));
    push_line(&mut out, endpoints_line(ends));
    let mut rv = string_of("  Record Version: ");
    push_lit(&mut rv, version_name(hello.record_version));
    push_line(&mut out, rv);
    let mut cv = string_of("  Client Version: ");
    push_lit(&mut cv, version_name(hello.client_version));
    push_line(&mut out, cv);
    let ghost head = line_texts(out@);
    match &hello.sni {
        Some(sni) => {
            let mut l = string_of("  SNI: ");
            push_lit(&mut l, sni.as_str());
            push_line(&mut out, l);
        },
        None => {},
    }
    let ghost with_sni = line_texts(out@);
    let n = hello.cipher_suites.len();
    if n > 0 {
        let mut l = string_of("  Cipher Suites (");
        push_dec_usize(&mut l, n);
        push_lit(&mut l, "):");
        push_line(&mut out, l);
        let shown = if n > 10 { 10 } else { n };
        let ghost cs = hello.cipher_suites@;
        let ghost start = line_texts(out@);
        let ghost shown_seq = if cs.len() > 10 { cs.take(10) } else { cs };
        let mut i: usize = 0;
        while i < shown
            invariant
                i <= shown,
                shown <= n,
                n == cs.len(),
                cs == hello.cipher_suites@,
                shown as int == shown_seq.len(),
                shown_seq == (if cs.len() > 10 { cs.take(10) } else { cs }),
                line_texts(out@) == start + shown_seq.take(i as int).map_values(
                    |c: u16| "    - "@ + hex4_prefixed(c) + "  "@ + cipher_suite_text(c),
                ),
            decreases shown - i,
        {
            let c = hello.cipher_suites[i];
            let mut l = string_of("    - ");
            push_hex4_prefixed(&mut l, c);
            push_lit(&mut l, "  ");
            push_lit(&mut l, cipher_suite_name(c));
            push_line(&mut out, l);
            assert(shown_seq[i as int] == c);
            assert(shown_seq.take(i + 1) =~= shown_seq.take(i as int).push(c));
            i = i + 1;
            assert(line_texts(out@) =~= start + shown_seq.take(i as int).map_values(
                |c: u16| "    - "@ + hex4_prefixed(c) + "  "@ + cipher_suite_text(c),
            ));
        }
        assert(shown_seq.take(i as int) =~= shown_seq);
        if n > 10 {
            let mut l = string_of("    ... and ");
            push_dec_usize(&mut l, n - 10);
            push_lit(&mut l, " more");
            push_line(&mut out, l);
        }
        assert(line_texts(out@) =~= with_sni + (seq!["  Cipher Suites ("@ + dec_digits(cs.len()) + "):"@] + cipher_lines(cs)));
    }
    let ghost with_ciphers = line_texts(out@);
    if hello.alpn.len() > 0 {
        let mut l = string_of("  ALPN: ");
        let ghost names = texts(hello.alpn@);
        let mut i: usize = 0;
        while i < hello.alpn.len()
            invariant
                i <= hello.alpn@.len(),
                names == texts(hello.alpn@),
                l@ == "  ALPN: "@ + join(names.take(i as int), ", "@),
            decreases hello.alpn@.len() - i,
        {
            proof {
                lemma_join_push(names, ", "@, i as int);
            }
            if i > 0 {
                push_lit(&mut l, ", ");
            }
            push_lit(&mut l, hello.alpn[i].as_str());
            i = i + 1;
            assert(l@ =~= "  ALPN: "@ + join(names.take(i as int), ", "@));
        }
        assert(names.take(i as int) =~= names);
        push_line(&mut out, l);
    }
    assert(line_texts(out@) =~= tls_report(endpoints_text(ends.src@, ends.src_port, ends.dst@, ends.dst_port), hello@));
    out
}

/// `0x` and eight lowercase hexadecimal digits, as `{:#010x}` renders a
/// 32-bit value.
pub open spec fn hex8_prefixed(v: u32) -> Seq<char> {
    "0x"@ + pad_zero(hex_digits(v as nat), 8)
}

/// The name of the message type that option 53 gives, or `???`.
pub open spec fn dhcp_type_text(options: Seq<(u8, Seq<u8>)>) -> Seq<char> {
    match find_option_value(options, 53) {
        Some(v) => if v.len() > 0 {
            dhcp_type_name(message_type_of(v[0]))
        } else {
            "???"@
        },
        None => "???"@,
    }
}

/// The report of a DHCP message: endpoints, type and transaction id,
/// client hardware address, assigned, requested and server addresses, and
/// in verbose mode the options.
pub open spec fn dhcp_report(ends: Seq<char>, p: DhcpPacket, verbose: bool) -> Seq<Seq<char>> {
    let mac = p.chaddr@.take(p.hlen as int);
    seq![
        "\n── DHCP ──"@,
        ends,
        "  Message: "@ + dhcp_type_text(p.option_views()) + "  (xid="@ + hex8_prefixed(p.xid) + ")"@,
        "  Client MAC: "@ + colon_hex2(if mac.len() > 6 { mac.take(6) } else { mac }),
    ] + (if p.yiaddr@ != seq![0u8, 0u8, 0u8, 0u8] {
        seq!["  Assigned IP: "@ + dotted_dec(p.yiaddr@)]
    } else {
        seq![]
    }) + (match as_ipv4(find_option_value(p.option_views(), 50)) {
        Some(a) => seq!["  Requested IP: "@ + dotted_dec(a)],
        None => seq![],
    }) + (match as_ipv4(find_option_value(p.option_views(), 54)) {
        Some(a) => seq!["  DHCP Server: "@ + dotted_dec(a)],
        None => seq![],
    }) + (if verbose {
        seq!["  Options ("@ + dec_digits(p.options@.len()) + "):"@] + p.option_views().map_values(
            |o: (u8, Seq<u8>)| "    Option "@ + dec8(o.0) + " ("@ + dec_digits(o.1.len()) + " bytes)"@,
        )
    } else {
        seq![]
    })
}

/// The lines reporting a DHCP message; the client hardware address length
/// must fit the 16-byte field.
pub fn dhcp_report_lines(ends: &Endpoints, packet: &DhcpPacket, verbose: bool) -> (r: Vec<String>)
    requires
        packet.hlen <= 16,
    ensures
        line_texts(r@) == dhcp_report(endpoints_text(ends.src@, ends.src_port, ends.dst@, ends.dst_port), *packet, verbose),
{
    let mut out: Vec<String> = Vec::new();
    push_line(&mut out, string_of("\n── DHCP ──"));
    push_line(&mut out, endpoints_line(ends));
    let mut m = string_of("  Message: ");
    match packet.message_type() {
        Some(t) => push_lit(&mut m, t.name()),
        None => push_lit(&mut m, "???"),
    }
    push_lit(&mut m, "  (xid=");
    push_lit(&mut m, "0x");
    push_padded_hex(&mut m, packet.xid as u64, 8);
    push_lit(&mut m, ")");
    assert(m@ =~= "  Message: "@ + dhcp_type_text(packet.option_views()) + "  (xid="@ + hex8_prefixed(packet.xid) + ")"@);
    push_line(&mut out, m);
    let mut mac = string_of("  Client MAC: ");
    let hw = crate::protocol::dhcp::format_mac(slice_range(packet.chaddr.as_slice(), 0, packet.hlen as usize));
    push_lit(&mut mac, hw.as_str());
    proof {
        assert(packet.chaddr@.subrange(0, packet.hlen as int) =~= packet.chaddr@.take(packet.hlen as int));
    }
    push_line(&mut out, mac);
    if packet.yiaddr[0] != 0 || packet.yiaddr[1] != 0 || packet.yiaddr[2] != 0 || packet.yiaddr[3] != 0 {
        let mut l = string_of("  Assigned IP: ");
        let a = crate::protocol::dhcp::format_ipv4(&packet.yiaddr);
        push_lit(&mut l, a.as_str());
        push_line(&mut out, l);
        assert(packet.yiaddr@ != seq![0u8, 0u8, 0u8, 0u8]) by {
            if packet.yiaddr@ == seq![0u8, 0u8, 0u8, 0u8] {
                assert(packet.yiaddr@[0] == 0u8 && packet.yiaddr@[1] == 0u8 && packet.yiaddr@[2] == 0u8 && packet.yiaddr@[3] == 0u8);
            }
        }
    } else {
        assert(packet.yiaddr@ =~= seq![0u8, 0u8, 0u8, 0u8]);
    }
    let ghost after_assigned = line_texts(out@);
    match packet.requested_ip() {
        Some(a) => {
            let mut l = string_of("  Requested IP: ");
            let t = crate::protocol::dhcp::format_ipv4(&a);
            push_lit(&mut l, t.as_str());
            push_line(&mut out, l);
        },
        None => {},
    }
    match packet.server_identifier() {
        Some(a) => {
            let mut l = string_of("  DHCP Server: ");
            let t = crate::protocol::dhcp::format_ipv4(&a);
            push_lit(&mut l, t.as_str());
            push_line(&mut out, l);
        },
        None => {},
    }
    let ghost before_options = line_texts(out@);
    if verbose {
        let mut l = string_of("  Options (");
        push_dec_usize(&mut l, packet.options.len());
        push_lit(&mut l, "):");
        push_line(&mut out, l);
        let ghost start = line_texts(out@);
        let ghost views = packet.option_views();
        let mut i: usize = 0;
        while i < packet.options.len()
            invariant
                i <= packet.options@.len(),
                views == packet.option_views(),
                views.len() == packet.options@.len(),
                line_texts(out@) == start + views.take(i as int).map_values(
                    |o: (u8, Seq<u8>)| "    Option "@ + dec8(o.0) + " ("@ + dec_digits(o.1.len()) + " bytes)"@,
                ),
            decreases packet.options@.len() - i,
        {
            let opt = &packet.options[i];
            let mut o = string_of("    Option ");
            push_dec_u8(&mut o, opt.code);
            push_lit(&mut o, " (");
            push_dec_usize(&mut o, opt.value.len());
            push_lit(&mut o, " bytes)");
            push_line(&mut out, o);
            assert(views[i as int] == opt@);
            assert(views.take(i + 1) =~= views.take(i as int).push(opt@));
            i = i + 1;
            assert(line_texts(out@) =~= start + views.take(i as int).map_values(
                |o: (u8, Seq<u8>)| "    Option "@ + dec8(o.0) + " ("@ + dec_digits(o.1.len()) + " bytes)"@,
            ));
        }
        assert(views.take(i as int) =~= views);
    }
    assert(line_texts(out@) =~= dhcp_report(endpoints_text(ends.src@, ends.src_port, ends.dst@, ends.dst_port), *packet, verbose));
    out
}

/// The name of a connection state.
pub open spec fn state_text(s: TcpState) -> Seq<char> {
    match s {
        TcpState::SynSent => "SynSent"@,
        TcpState::Established => "Established"@,
        TcpState::FinWait => "FinWait"@,
        TcpState::Closed => "Closed"@,
    }
}

/// The name of a connection state.
pub fn state_name(s: TcpState) -> (r: &'static str)
    ensures
        r@ == state_text(s),
{
    match s {
        TcpState::SynSent => "SynSent",
        TcpState::Established => "Established",
        TcpState::FinWait => "FinWait",
        TcpState::Closed => "Closed",
    }
}

/// The report of a followed connection: its endpoints, packets, bytes and
/// state, and the data of each direction with the HTTP requests counted.
pub open spec fn stream_report(client: Seq<char>, server: Seq<char>, m: StreamModel) -> Seq<Seq<char>> {
    seq![
        "\n── TCP Stream "@ + client + " → "@ + server + " ──"@,
        "  Packets: "@ + dec_digits(m.packet_count as nat) + "  Bytes: "@ + dec_digits(m.total_bytes as nat) + "  State: "@
            + state_text(m.state),
        "  Client→Server: "@ + dec_digits(m.client_payload.len()) + " bytes (≈"@ + dec_digits(
            http_request_count(m.client_payload),
        ) + " HTTP requests)"@,
        "  Server→Client: "@ + dec_digits(m.server_payload.len()) + " bytes"@,
    ]
}

/// The lines reporting a followed connection between the given client and
/// server addresses.
pub fn stream_report_lines(client: &str, server: &str, stream: &TcpStream) -> (r: Vec<String>)
    ensures
        line_texts(r@) == stream_report(client@, server@, stream@),
{
    let mut out: Vec<String> = Vec::new();
    let mut a = string_of("\n── TCP Stream ");
    push_lit(&mut a, client);
    push_lit(&mut a, " → ");
    push_lit(&mut a, server);
    push_lit(&mut a, " ──");
    push_line(&mut out, a);
    let mut b = string_of("  Packets: ");
    push_dec_usize(&mut b, stream.packet_count);
    push_lit(&mut b, "  Bytes: ");
    push_dec(&mut b, stream.total_bytes);
    push_lit(&mut b, "  State: ");
    push_lit(&mut b, state_name(stream.state));
    push_line(&mut out, b);
    let mut c = string_of("  Client→Server: ");
    push_dec_usize(&mut c, stream.client_payload.len());
    push_lit(&mut c, " bytes (≈");
    push_dec_usize(&mut c, count_http_requests(stream.client_payload.as_slice()));
    push_lit(&mut c, " HTTP requests)");
    push_line(&mut out, c);
    let mut d = string_of("  Server→Client: ");
    push_dec_usize(&mut d, stream.server_payload.len());
    push_lit(&mut d, " bytes");
    push_line(&mut out, d);
    assert(line_texts(out@) =~= stream_report(client@, server@, stream@));
    out
}

/// The text of exported data: the data itself when it is UTF-8, else a
/// marker.
pub open spec fn export_body(d: Seq<u8>) -> Seq<char> {
    if valid_utf8(d) {
        decode_utf8(d)
    } else {
        "[binary data]"@
    }
}

/// The export of an HTTP stream: a heading with both addresses, then the
/// request data and the response data.
pub open spec fn export_text(client: Seq<char>, server: Seq<char>, request: Seq<u8>, response: Seq<u8>) -> Seq<char> {
    "=== HTTP Stream Export ===\n"@ + "Client: "@ + client + "\n"@ + "Server: "@ + server + "\n"@ + "--- Request ---\n"@
        + export_body(request) + "\n--- Response ---\n"@ + export_body(response)
}

/// Appends exported data.
fn push_body(s: &mut String, d: &[u8])
    ensures
        final(s)@ == old(s)@ + export_body(d@),
{
    match utf8_str(d) {
        Some(text) => push_lit(s, text),
        None => push_lit(s, "[binary data]"),
    }
}

/// The export of an HTTP stream between two addresses.
pub fn export_stream_text(client: &str, server: &str, request: &[u8], response: &[u8]) -> (r: String)
    ensures
        r@ == export_text(client@, server@, request@, response@),
{
    let mut s = string_of("=== HTTP Stream Export ===\n");
    push_lit(&mut s, "Client: ");
    push_lit(&mut s, client);
    push_lit(&mut s, "\n");
    push_lit(&mut s, "Server: ");
    push_lit(&mut s, server);
    push_lit(&mut s, "\n");
    push_lit(&mut s, "--- Request ---\n");
    push_body(&mut s, request);
    push_lit(&mut s, "\n--- Response ---\n");
    push_body(&mut s, response);
    s
}

/// The name of the export file of a stream: `http_<client>_<server>.txt`.
pub fn export_file_name(client: &str, server: &str) -> (r: String)
    ensures
        r@ == "http_"@ + client@ + "_"@ + server@ + ".txt"@,
{
    let mut s = string_of("http_");
    push_lit(&mut s, client);
    push_lit(&mut s, "_");
    push_lit(&mut s, server);
    push_lit(&mut s, ".txt");
    s
}

} // verus!
