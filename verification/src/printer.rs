//! Packet rendering: hexadecimal dumps, one-line summaries and the
//! layer-by-layer view. Each line carries a tone, which the terminal shows
//! as a color, and says whether it is an error line.
use vstd::prelude::*;

use crate::protocol::arp::{arp_error, arp_operation_name};
use crate::protocol::ethernet::{ethernet_error, payload_ethertype};
use crate::protocol::icmp::message_type_name;
use crate::protocol::ip::{ipv4_error, ipv6_error, ipv6_payload_len};
use crate::protocol::tcp::tcp_error;
use crate::protocol::udp::udp_error;
use crate::protocol::{
    dispatch_from_ethernet, dispatch_from_ipv4, dispatch_from_ipv6, error_text, ARPPacket, EthernetFrame, ICMPPacket,
    IPv4Packet, IPv6Packet, ParseError, ParseResult,
};
use crate::status::{frame_payload, ipv4_payload};
use crate::text::{
    be16, be16u, be32, colon_hex2, dec16, dec32, dec8, dec_digits, dotted_dec, hex2, hex4_prefixed, hex_digits,
    ipv6_text, join, lemma_join_push, pad_zero, push_dec_u16, push_dec_u32, push_dec_u8, push_dec_usize, push_hex2,
    push_hex4_prefixed, push_lit, push_padded_dec, push_padded_hex, push_signed_padded, signed_padded, string_of,
};

verus! {

/// The color a line is shown in.
#[derive(Clone, Copy, Debug, PartialEq, Eq)]
pub enum Tone {
    Plain,
    Cyan,
    Blue,
    Green,
    Magenta,
    Red,
    Yellow,
}

/// One line of output.
pub struct Line {
    pub text: String,
    pub tone: Tone,
    /// Error lines go to standard error.
    pub to_stderr: bool,
}

/// A line as values.
pub ghost struct LineView {
    pub text: Seq<char>,
    pub tone: Tone,
    pub to_stderr: bool,
}

impl View for Line {
    type V = LineView;

    open spec fn view(&self) -> LineView {
        LineView { text: self.text@, tone: self.tone, to_stderr: self.to_stderr }
    }
}

/// A standard output line.
pub open spec fn out_line(text: Seq<char>, tone: Tone) -> LineView {
    LineView { text, tone, to_stderr: false }
}

/// An error line (red, standard error).
pub open spec fn err_line(text: Seq<char>) -> LineView {
    LineView { text, tone: Tone::Red, to_stderr: true }
}

/// How each packet is shown.
#[derive(Clone, Copy, Debug, PartialEq, Eq)]
pub enum PacketView {
    /// One JSON object per packet.
    Json,
    /// Every protocol field, layer by layer.
    Detailed,
    /// One summary line.
    OneLine,
}

/// The view of packets: JSON when asked for, else every field in verbose
/// mode, else one line.
pub fn choose_view(json: bool, verbose: bool) -> (r: PacketView)
    ensures
        r == (if json {
            PacketView::Json
        } else if verbose {
            PacketView::Detailed
        } else {
            PacketView::OneLine
        }),
{
    if json {
        PacketView::Json
    } else if verbose {
        PacketView::Detailed
    } else {
        PacketView::OneLine
    }
}

/// Whether `s` holds `part` somewhere.
pub open spec fn holds_text(s: Seq<char>, part: Seq<char>) -> bool {
    exists|i: int| 0 <= i && i + part.len() <= s.len() && #[trigger] s.subrange(i, i + part.len()) == part
}

/// Bytes of link-layer header in front of the Ethernet frame: 16 for Linux
/// cooked capture (a link type name with `SLL`), none otherwise.
pub fn link_header_len(link_name: &str) -> (r: usize)
    ensures
        r == (if holds_text(link_name@, "SLL"@) { 16usize } else { 0usize }),
{
    let chars = crate::text::chars_of(link_name);
    let pat = crate::text::chars_of("SLL");
    let n = chars.len();
    let m = pat.len();
    if m > n {
        assert forall|i: int| 0 <= i && i + pat@.len() <= chars@.len() implies #[trigger] chars@.subrange(i, i + pat@.len()) != pat@ by {}
        return 0;
    }
    let mut i: usize = 0;
    while i <= n - m
        invariant
            n == chars@.len(),
            m == pat@.len(),
            m <= n,
            i <= n - m + 1,
            pat@ == "SLL"@,
            chars@ == link_name@,
            forall|k: int| 0 <= k < i ==> #[trigger] chars@.subrange(k, k + m) != pat@,
        decreases n - i,
    {
        let mut j: usize = 0;
        let mut same = true;
        while j < m
            invariant
                i + m <= n,
                j <= m,
                n == chars@.len(),
                m == pat@.len(),
                same == (forall|q: int| 0 <= q < j ==> chars@[i + q] == pat@[q]),
            decreases m - j,
        {
            if chars[i + j] != pat[j] {
                same = false;
            }
            j = j + 1;
        }
        if same {
            assert(chars@.subrange(i as int, i + m) =~= pat@);
            return 16;
        }
        assert(chars@.subrange(i as int, i + m) != pat@) by {
            let q = choose|q: int| 0 <= q < m && chars@[i + q] != pat@[q];
            assert(chars@.subrange(i as int, i + m)[q] != pat@[q]);
        }
        i = i + 1;
    }
    0
}

/// The transport layer of an IP body, as values: what the layer decoder
/// gives for the protocol number (`message_proto` is 1 above IPv4 and 58
/// above IPv6).
pub ghost enum Transport {
    Tcp { src_port: u16, dst_port: u16, seq: u32, flags: u8 },
    Udp { src_port: u16, dst_port: u16, len: u16 },
    Message { kind: u8, code: u8, checksum: u16, rest: Seq<u8> },
    Other,
    Rejected(ParseError),
}

/// The transport layer of an IP body.
#[verifier::opaque]
pub open spec fn transport_of(proto: u8, message_proto: u8, p: Seq<u8>) -> Transport {
    if proto == 6 {
        match tcp_error(p) {
            Some(e) => Transport::Rejected(e),
            None => Transport::Tcp {
                src_port: be16u(p[0], p[1]),
                dst_port: be16u(p[2], p[3]),
                seq: be32(p[4], p[5], p[6], p[7]) as u32,
                flags: p[13],
            },
        }
    } else if proto == 17 {
        match udp_error(p) {
            Some(e) => Transport::Rejected(e),
            None => Transport::Udp { src_port: be16u(p[0], p[1]), dst_port: be16u(p[2], p[3]), len: be16u(p[4], p[5]) },
        }
    } else if proto == message_proto {
        if p.len() < 4 {
            Transport::Rejected(ParseError::TooShort)
        } else {
            Transport::Message { kind: p[0], code: p[1], checksum: be16u(p[2], p[3]), rest: p.skip(4) }
        }
    } else {
        Transport::Other
    }
}

/// The network layer of an accepted Ethernet frame, as values.
pub ghost enum Network {
    Arp { op: u16, sender_hw: Seq<u8>, sender_ip: Seq<u8>, target_hw: Seq<u8>, target_ip: Seq<u8> },
    V4 { src: Seq<u8>, dst: Seq<u8>, ttl: u8, proto: u8, body: Seq<u8> },
    V6 { src: Seq<u8>, dst: Seq<u8>, hop: u8, next: u8, body: Seq<u8> },
    Unknown(u16),
    Rejected(ParseError),
}

/// The network layer of an accepted Ethernet frame.
#[verifier::opaque]
pub open spec fn network_of(raw: Seq<u8>) -> Network {
    let et = payload_ethertype(raw);
    let p = frame_payload(raw);
    if et == 0x0800 {
        match ipv4_error(p) {
            Some(e) => Network::Rejected(e),
            None => Network::V4 {
                src: p.subrange(12, 16),
                dst: p.subrange(16, 20),
                ttl: p[8],
                proto: p[9],
                body: ipv4_payload(p),
            },
        }
    } else if et == 0x86DD {
        match ipv6_error(p) {
            Some(e) => Network::Rejected(e),
            None => Network::V6 {
                src: p.subrange(8, 24),
                dst: p.subrange(24, 40),
                hop: p[7],
                next: p[6],
                body: p.subrange(40, 40 + ipv6_payload_len(p)),
            },
        }
    } else if et == 0x0806 {
        match arp_error(p) {
            Some(e) => Network::Rejected(e),
            None => {
                let hw = p[4] as int;
                let pr = p[5] as int;
                Network::Arp {
                    op: be16u(p[6], p[7]),
                    sender_hw: p.subrange(8, 8 + hw),
                    sender_ip: p.subrange(8 + hw, 8 + hw + pr),
                    target_hw: p.subrange(8 + hw + pr, 8 + 2 * hw + pr),
                    target_ip: p.subrange(8 + 2 * hw + pr, 8 + 2 * hw + 2 * pr),
                }
            },
        }
    } else {
        Network::Unknown(et as u16)
    }
}

/// The short name of an IP protocol number.
pub open spec fn protocol_name_of(proto: u8) -> Seq<char> {
    if proto == 1 {
        "ICMP"@
    } else if proto == 6 {
        "TCP"@
    } else if proto == 17 {
        "UDP"@
    } else if proto == 58 {
        "ICMPv6"@
    } else {
        "???"@
    }
}

/// The short name of an IP protocol number (`???` when unknown).
pub fn protocol_name(proto: u8) -> (r: &'static str)
    ensures
        r@ == protocol_name_of(proto),
{
    match proto {
        1 => "ICMP",
        6 => "TCP",
        17 => "UDP",
        58 => "ICMPv6",
        _ => "???",
    }
}

/// `[name]` when `bit` is set, else nothing.
pub open spec fn flag_if(bit: bool, name: Seq<char>) -> Seq<Seq<char>> {
    if bit {
        seq![name]
    } else {
        seq![]
    }
}

/// The names of the TCP flags set in `flags`, from the lowest bit: FIN,
/// SYN, RST, PSH, ACK, URG.
pub open spec fn flag_names(flags: u8) -> Seq<Seq<char>> {
    flag_if(flags % 2 == 1, "FIN"@) + flag_if((flags / 2) % 2 == 1, "SYN"@) + flag_if((flags / 4) % 2 == 1, "RST"@)
        + flag_if((flags / 8) % 2 == 1, "PSH"@) + flag_if((flags / 16) % 2 == 1, "ACK"@) + flag_if(
        (flags / 32) % 2 == 1,
        "URG"@,
    )
}

/// TCP flags as `[SYN,ACK]`, or `[NONE]` when none of the six is set.
pub open spec fn tcp_flags_text(flags: u8) -> Seq<char> {
    if flag_names(flags).len() == 0 {
        "[NONE]"@
    } else {
        "["@ + join(flag_names(flags), ","@) + "]"@
    }
}

/// Formats TCP flags as `[SYN,ACK]` (FIN, SYN, RST, PSH, ACK, URG in that
/// order), or `[NONE]`.
#[verifier::rlimit(40)]
pub fn format_tcp_flags(flags: u8) -> (r: String)
    ensures
        r@ == tcp_flags_text(flags),
{
    let mut names: Vec<&'static str> = Vec::new();
    let ghost mut parts: Seq<Seq<char>> = seq![];
    let ghost bits = seq![
        flags % 2 == 1,
        (flags / 2) % 2 == 1,
        (flags / 4) % 2 == 1,
        (flags / 8) % 2 == 1,
        (flags / 16) % 2 == 1,
        (flags / 32) % 2 == 1,
    ];
    if flags % 2 == 1 {
        names.push("FIN");
    }
    if (flags / 2) % 2 == 1 {
        names.push("SYN");
    }
    if (flags / 4) % 2 == 1 {
        names.push("RST");
    }
    if (flags / 8) % 2 == 1 {
        names.push("PSH");
    }
    if (flags / 16) % 2 == 1 {
        names.push("ACK");
    }
    if (flags / 32) % 2 == 1 {
        names.push("URG");
    }
    let ghost expect = flag_names(flags);
    assert(names@.map_values(|n: &str| n@) =~= expect);
    if names.len() == 0 {
        return string_of("[NONE]");
    }
    let mut s = string_of("[");
    let mut i: usize = 0;
    while i < names.len()
        invariant
            i <= names@.len(),
            expect == names@.map_values(|n: &str| n@),
            s@ == "["@ + join(expect.take(i as int), ","@),
        decreases names@.len() - i,
    {
        proof {
            lemma_join_push(expect, ","@, i as int);
        }
        if i > 0 {
            push_lit(&mut s, ",");
        }
        push_lit(&mut s, names[i]);
        i = i + 1;
        assert(s@ =~= "["@ + join(expect.take(i as int), ","@));
    }
    assert(expect.take(i as int) =~= expect);
    push_lit(&mut s, "]");
    s
}

/// `HH:MM:SS.uuuuuu` of a Unix time (UTC time of day).
pub open spec fn timestamp_text(tv_sec: int, tv_usec: int) -> Seq<char> {
    let day = tv_sec % 86400;
    pad_zero(dec_digits((day / 3600) as nat), 2) + ":"@ + pad_zero(dec_digits(((day % 3600) / 60) as nat), 2) + ":"@
        + pad_zero(dec_digits((day % 60) as nat), 2) + "."@ + signed_padded(tv_usec, 6)
}

/// Formats a Unix time as `HH:MM:SS.uuuuuu`, the time of day in UTC.
pub fn format_timestamp(tv_sec: i64, tv_usec: i64) -> (r: String)
    ensures
        r@ == timestamp_text(tv_sec as int, tv_usec as int),
{
    let day: u64 = if tv_sec >= 0 {
        (tv_sec as u64) % 86400
    } else {
        let back: u64 = ((-(tv_sec + 1)) as u64) % 86400;
        86399 - back
    };
    assert(day as int == (tv_sec as int) % 86400) by (nonlinear_arith)
        requires
            tv_sec >= 0 ==> day as int == (tv_sec as int) % 86400,
            tv_sec < 0 ==> day as int == 86399 - ((-(tv_sec + 1)) as int) % 86400,
    {
        if tv_sec < 0 {
            let k = (-(tv_sec + 1)) as int;
            assert(tv_sec as int == -k - 1);
            vstd::arithmetic::div_mod::lemma_fundamental_div_mod(k, 86400);
            vstd::arithmetic::div_mod::lemma_mod_bound(k, 86400);
            let q = k / 86400;
            let r = k % 86400;
            assert(tv_sec as int == (-q - 1) * 86400 + (86399 - r));
            vstd::arithmetic::div_mod::lemma_mod_multiples_vanish(-q - 1, 86399 - r, 86400);
            vstd::arithmetic::div_mod::lemma_small_mod((86399 - r) as nat, 86400);
        }
    }
    let mut s = String::new();
    push_padded_dec(&mut s, day / 3600, 2);
    push_lit(&mut s, ":");
    push_padded_dec(&mut s, (day % 3600) / 60, 2);
    push_lit(&mut s, ":");
    push_padded_dec(&mut s, day % 60, 2);
    push_lit(&mut s, ".");
    push_signed_padded(&mut s, tv_usec, 6);
    assert(s@ =~= timestamp_text(tv_sec as int, tv_usec as int));
    s
}

/// A line text followed by two spaces and the frame length in bytes.
pub open spec fn with_len(text: Seq<char>, len: usize) -> Seq<char> {
    text + "  "@ + dec_digits(len as nat) + "B"@
}

/// ` id=… seq=…` of an echo message body, when it holds both fields.
pub open spec fn echo_suffix(rest: Seq<u8>) -> Seq<char> {
    if rest.len() >= 4 {
        " id="@ + dec16(be16u(rest[0], rest[1])) + " seq="@ + dec16(be16u(rest[2], rest[3]))
    } else {
        seq![]
    }
}

/// The summary line of a transport layer, behind the timestamp, protocol
/// name and addresses; `len` is the frame length.
pub open spec fn transport_summary(ts: Seq<char>, pname: Seq<char>, src: Seq<char>, dst: Seq<char>, t: Transport, len: usize) -> LineView {
    match t {
        Transport::Message { kind, code, rest, .. } => out_line(
            with_len(
                ts + "  "@ + pname + "  "@ + src + " → "@ + dst + "  "@ + message_type_name(kind) + "  type="@ + dec8(kind)
                    + " code="@ + dec8(code) + echo_suffix(rest),
                len,
            ),
            Tone::Magenta,
        ),
        Transport::Tcp { src_port, dst_port, flags, .. } => out_line(
            with_len(
                ts + "  "@ + pname + "  "@ + src + ":"@ + dec16(src_port) + " → "@ + dst + ":"@ + dec16(dst_port) + "  "@
                    + tcp_flags_text(flags),
                len,
            ),
            Tone::Green,
        ),
        Transport::Udp { src_port, dst_port, .. } => out_line(
            with_len(ts + "  "@ + pname + "  "@ + src + ":"@ + dec16(src_port) + " → "@ + dst + ":"@ + dec16(dst_port), len),
            Tone::Green,
        ),
        _ => out_line(with_len(ts + "  "@ + pname + "  "@ + src + " → "@ + dst, len), Tone::Blue),
    }
}

/// The summary line of a frame from its network layer.
pub open spec fn network_summary(ts: Seq<char>, n: Network, len: usize) -> LineView {
    match n {
        Network::Rejected(_) => out_line(with_len(ts + "  ETH  [L3 分发失败]"@, len), Tone::Red),
        Network::Arp { op, sender_ip, target_ip, .. } => out_line(
            with_len(
                ts + "  ARP  "@ + arp_operation_name(op) + "  who-has "@ + dotted_dec(target_ip) + "  tell "@ + dotted_dec(
                    sender_ip,
                ),
                len,
            ),
            Tone::Magenta,
        ),
        Network::V4 { src, dst, proto, body, .. } => transport_summary(
            ts,
            protocol_name_of(proto),
            dotted_dec(src),
            dotted_dec(dst),
            transport_of(proto, 1, body),
            len,
        ),
        Network::V6 { src, dst, next, body, .. } => transport_summary(
            ts,
            protocol_name_of(next),
            ipv6_text(src),
            ipv6_text(dst),
            transport_of(next, 58, body),
            len,
        ),
        Network::Unknown(et) => out_line(with_len(ts + "  ETH  type="@ + hex4_prefixed(et), len), Tone::Yellow),
    }
}

/// The summary line of a captured frame.
pub open spec fn summary_line(raw: Seq<u8>, ts: Seq<char>) -> LineView {
    if ethernet_error(raw) is Some {
        out_line(with_len(ts + "  ???  [L2 解析失败]"@, raw.len() as usize), Tone::Red)
    } else {
        network_summary(ts, network_of(raw), raw.len() as usize)
    }
}

/// The transport layer of a dispatch result, as values.
proof fn lemma_transport_view<'a>(proto: u8, message_proto: u8, payload: Seq<u8>, r: Result<ParseResult<'a>, ParseError>)
    requires
        crate::protocol::transport_layer(proto, message_proto, payload, r),
    ensures
        r matches Err(e) ==> transport_of(proto, message_proto, payload) == Transport::Rejected(e),
        r matches Ok(ParseResult::TCP(s)) ==> transport_of(proto, message_proto, payload) == (Transport::Tcp {
            src_port: s.src_port,
            dst_port: s.dst_port,
            seq: s.seq,
            flags: s.flags,
        }),
        r matches Ok(ParseResult::UDP(s)) ==> transport_of(proto, message_proto, payload) == (Transport::Udp {
            src_port: s.src_port,
            dst_port: s.dst_port,
            len: s.len,
        }),
        r matches Ok(ParseResult::ICMP(m)) ==> transport_of(proto, message_proto, payload) == (Transport::Message {
            kind: m.icmp_type,
            code: m.code,
            checksum: m.checksum,
            rest: m.payload@,
        }),
        r matches Ok(ParseResult::Unknown) ==> transport_of(proto, message_proto, payload) == Transport::Other,
        r matches Ok(x) ==> (x is TCP || x is UDP || x is ICMP || x is Unknown),
{
    reveal(transport_of);
}

/// The network layer of a dispatch result, as values.
proof fn lemma_network_view<'a>(raw: Seq<u8>, eth: EthernetFrame<'a>, r: Result<ParseResult<'a>, ParseError>)
    requires
        ethernet_error(raw) is None,
        eth.decodes(raw),
        crate::protocol::network_layer(eth.ethernet_type, eth.payload@, r),
    ensures
        r matches Err(e) ==> network_of(raw) == Network::Rejected(e),
        r matches Ok(ParseResult::ARP(a)) ==> network_of(raw) == (Network::Arp {
            op: a.operation,
            sender_hw: a.sender_hw_addr@,
            sender_ip: a.sender_proto_addr@,
            target_hw: a.target_hw_addr@,
            target_ip: a.target_proto_addr@,
        }),
        r matches Ok(ParseResult::IPv4(p)) ==> network_of(raw) == (Network::V4 {
            src: p.src_ip@,
            dst: p.dst_ip@,
            ttl: p.ttl,
            proto: p.next_protocol,
            body: p.payload@,
        }),
        r matches Ok(ParseResult::IPv6(p)) ==> network_of(raw) == (Network::V6 {
            src: p.src_ip@,
            dst: p.dst_ip@,
            hop: p.hop_limit,
            next: p.next_header,
            body: p.payload@,
        }),
        r matches Ok(ParseResult::Unknown) ==> network_of(raw) == Network::Unknown(eth.ethernet_type),
        r matches Ok(x) ==> (x is ARP || x is IPv4 || x is IPv6 || x is Unknown),
{
    reveal(network_of);
    assert(eth.payload@ == frame_payload(raw));
    assert(eth.ethernet_type as int == payload_ethertype(raw));
}

/// The summary line of a transport layer.
fn transport_summary_line(ts: &String, pname: &str, src: &String, dst: &String, l4: &ParseResult, len: usize) -> (r: Line)
    requires
        l4 is TCP || l4 is UDP || l4 is ICMP || l4 is Unknown,
    ensures
        r@ == transport_summary(ts@, pname@, src@, dst@, match l4 {
            ParseResult::TCP(s) => Transport::Tcp { src_port: s.src_port, dst_port: s.dst_port, seq: s.seq, flags: s.flags },
            ParseResult::UDP(s) => Transport::Udp { src_port: s.src_port, dst_port: s.dst_port, len: s.len },
            ParseResult::ICMP(m) => Transport::Message { kind: m.icmp_type, code: m.code, checksum: m.checksum, rest: m.payload@ },
            _ => Transport::Other,
        }, len),
{
    let mut s = ts.clone();
    push_lit(&mut s, "  ");
    push_lit(&mut s, pname);
    push_lit(&mut s, "  ");
    push_lit(&mut s, src.as_str());
    let tone = match l4 {
        ParseResult::ICMP(m) => {
            push_lit(&mut s, " → ");
            push_lit(&mut s, dst.as_str());
            push_lit(&mut s, "  ");
            push_lit(&mut s, ICMPPacket::type_label(m.icmp_type));
            push_lit(&mut s, "  type=");
            push_dec_u8(&mut s, m.icmp_type);
            push_lit(&mut s, " code=");
            push_dec_u8(&mut s, m.code);
            match (m.identifier(), m.sequence()) {
                (Some(id), Some(sq)) => {
                    push_lit(&mut s, " id=");
                    push_dec_u16(&mut s, id);
                    push_lit(&mut s, " seq=");
                    push_dec_u16(&mut s, sq);
                },
                _ => {},
            }
            Tone::Magenta
        },
        ParseResult::TCP(t) => {
            push_lit(&mut s, ":");
            push_dec_u16(&mut s, t.src_port);
            push_lit(&mut s, " → ");
            push_lit(&mut s, dst.as_str());
            push_lit(&mut s, ":");
            push_dec_u16(&mut s, t.dst_port);
            push_lit(&mut s, "  ");
            let flags = format_tcp_flags(t.flags);
            push_lit(&mut s, flags.as_str());
            Tone::Green
        },
        ParseResult::UDP(u) => {
            push_lit(&mut s, ":");
            push_dec_u16(&mut s, u.src_port);
            push_lit(&mut s, " → ");
            push_lit(&mut s, dst.as_str());
            push_lit(&mut s, ":");
            push_dec_u16(&mut s, u.dst_port);
            Tone::Green
        },
        _ => {
            push_lit(&mut s, " → ");
            push_lit(&mut s, dst.as_str());
            Tone::Blue
        },
    };
    let ghost body = s@;
    push_lit(&mut s, "  ");
    push_dec_usize(&mut s, len);
    push_lit(&mut s, "B");
    assert(s@ =~= with_len(body, len));
    let r = Line { text: s, tone, to_stderr: false };
    assert(r@.text =~= transport_summary(ts@, pname@, src@, dst@, match l4 {
        ParseResult::TCP(s) => Transport::Tcp { src_port: s.src_port, dst_port: s.dst_port, seq: s.seq, flags: s.flags },
        ParseResult::UDP(s) => Transport::Udp { src_port: s.src_port, dst_port: s.dst_port, len: s.len },
        ParseResult::ICMP(m) => Transport::Message { kind: m.icmp_type, code: m.code, checksum: m.checksum, rest: m.payload@ },
        _ => Transport::Other,
    }, len).text);
    r
}

/// A line of the timestamp, a fixed middle and the frame length.
fn framed_line(ts: &String, middle: &str, len: usize, tone: Tone) -> (r: Line)
    ensures
        r@ == out_line(with_len(ts@ + middle@, len), tone),
{
    let mut s = ts.clone();
    push_lit(&mut s, middle);
    push_lit(&mut s, "  ");
    push_dec_usize(&mut s, len);
    push_lit(&mut s, "B");
    assert(s@ =~= with_len(ts@ + middle@, len));
    Line { text: s, tone, to_stderr: false }
}

/// The summary line of an ARP message.
fn arp_summary(ts: &String, arp: &ARPPacket, len: usize) -> (r: Line)
    ensures
        r@ == out_line(
            with_len(
                ts@ + "  ARP  "@ + arp_operation_name(arp.operation) + "  who-has "@ + dotted_dec(arp.target_proto_addr@)
                    + "  tell "@ + dotted_dec(arp.sender_proto_addr@),
                len,
            ),
            Tone::Magenta,
        ),
{
    let mut s = ts.clone();
    push_lit(&mut s, "  ARP  ");
    push_lit(&mut s, ARPPacket::operation_name(arp.operation));
    push_lit(&mut s, "  who-has ");
    let target = ARPPacket::format_ip(arp.target_proto_addr);
    push_lit(&mut s, target.as_str());
    push_lit(&mut s, "  tell ");
    let sender = ARPPacket::format_ip(arp.sender_proto_addr);
    push_lit(&mut s, sender.as_str());
    let ghost body = s@;
    push_lit(&mut s, "  ");
    push_dec_usize(&mut s, len);
    push_lit(&mut s, "B");
    assert(s@ =~= with_len(body, len));
    Line { text: s, tone: Tone::Magenta, to_stderr: false }
}

/// The summary line of an IPv4 packet.
fn ipv4_summary(ts: &String, ip: &IPv4Packet, len: usize) -> (r: Line)
    ensures
        r@ == transport_summary(
            ts@,
            protocol_name_of(ip.next_protocol),
            dotted_dec(ip.src_ip@),
            dotted_dec(ip.dst_ip@),
            transport_of(ip.next_protocol, 1, ip.payload@),
            len,
        ),
{
    let src = IPv4Packet::format_ip(&ip.src_ip);
    let dst = IPv4Packet::format_ip(&ip.dst_ip);
    let pname = protocol_name(ip.next_protocol);
    let l4 = dispatch_from_ipv4(ip);
    proof {
        lemma_transport_view(ip.next_protocol, 1, ip.payload@, l4);
    }
    match l4 {
        Ok(x) => transport_summary_line(&ts, pname, &src, &dst, &x, len),
        Err(_) => transport_summary_line(&ts, pname, &src, &dst, &ParseResult::Unknown, len),
    }
}

/// The summary line of an IPv6 packet.
fn ipv6_summary(ts: &String, ip: &IPv6Packet, len: usize) -> (r: Line)
    ensures
        r@ == transport_summary(
            ts@,
            protocol_name_of(ip.next_header),
            ipv6_text(ip.src_ip@),
            ipv6_text(ip.dst_ip@),
            transport_of(ip.next_header, 58, ip.payload@),
            len,
        ),
{
    let src = IPv6Packet::format_ip(&ip.src_ip);
    let dst = IPv6Packet::format_ip(&ip.dst_ip);
    let pname = protocol_name(ip.next_header);
    let l4 = dispatch_from_ipv6(ip);
    proof {
        lemma_transport_view(ip.next_header, 58, ip.payload@, l4);
    }
    match l4 {
        Ok(x) => transport_summary_line(&ts, pname, &src, &dst, &x, len),
        Err(_) => transport_summary_line(&ts, pname, &src, &dst, &ParseResult::Unknown, len),
    }
}

/// The summary line of a frame whose EtherType is not decoded.
fn unknown_summary(ts: &String, ethernet_type: u16, len: usize) -> (r: Line)
    ensures
        r@ == out_line(with_len(ts@ + "  ETH  type="@ + hex4_prefixed(ethernet_type), len), Tone::Yellow),
{
    let mut s = ts.clone();
    push_lit(&mut s, "  ETH  type=");
    push_hex4_prefixed(&mut s, ethernet_type);
    let ghost body = s@;
    push_lit(&mut s, "  ");
    push_dec_usize(&mut s, len);
    push_lit(&mut s, "B");
    assert(s@ =~= with_len(body, len));
    Line { text: s, tone: Tone::Yellow, to_stderr: false }
}

/// The summary line of a captured frame with its capture time: time,
/// protocol, endpoints (with ports), TCP flags or message type, and length.
pub fn summary(raw: &[u8], tv_sec: i64, tv_usec: i64) -> (r: Line)
    ensures
        r@ == summary_line(raw@, timestamp_text(tv_sec as int, tv_usec as int)),
{
    let ts = format_timestamp(tv_sec, tv_usec);
    let len = raw.len();
    let eth = match EthernetFrame::parse(raw) {
        Ok(e) => e,
        Err(_) => {
            return framed_line(&ts, "  ???  [L2 解析失败]", len, Tone::Red);
        },
    };
    let l3 = dispatch_from_ethernet(&eth);
    proof {
        lemma_network_view(raw@, eth, l3);
    }
    match l3 {
        Err(_) => framed_line(&ts, "  ETH  [L3 分发失败]", len, Tone::Red),
        Ok(ParseResult::ARP(arp)) => arp_summary(&ts, &arp, len),
        Ok(ParseResult::IPv4(ip)) => ipv4_summary(&ts, &ip, len),
        Ok(ParseResult::IPv6(ip)) => ipv6_summary(&ts, &ip, len),
        Ok(_) => unknown_summary(&ts, eth.ethernet_type, len),
    }
}

/// The blank line that ends the view of a packet.
pub open spec fn blank_line() -> LineView {
    out_line("\n"@, Tone::Plain)
}

/// The detail line of a transport layer (and the error line of a rejected
/// one).
pub open spec fn transport_detail(t: Transport) -> Seq<LineView> {
    match t {
        Transport::Message { kind, code, rest, .. } => seq![
            out_line(
                "  ICMP  "@ + message_type_name(kind) + "  type="@ + dec8(kind) + "  code="@ + dec8(code) + (if rest.len()
                    >= 4 {
                    "  id="@ + dec16(be16u(rest[0], rest[1])) + "  seq="@ + dec16(be16u(rest[2], rest[3]))
                } else {
                    seq![]
                }) + "  len="@ + dec_digits(rest.len()),
                Tone::Magenta,
            ),
        ],
        Transport::Tcp { src_port, dst_port, seq, flags } => seq![
            out_line(
                "  TCP  :"@ + dec16(src_port) + " → :"@ + dec16(dst_port) + "  "@ + tcp_flags_text(flags) + "  seq="@
                    + dec32(seq),
                Tone::Green,
            ),
        ],
        Transport::Udp { src_port, dst_port, len } => seq![
            out_line("  UDP  :"@ + dec16(src_port) + " → :"@ + dec16(dst_port) + "  len="@ + dec16(len), Tone::Green),
        ],
        Transport::Other => seq![out_line("  [L4] 未知协议号"@, Tone::Yellow)],
        Transport::Rejected(e) => seq![err_line("  [L4 分发失败] "@ + error_text(e))],
    }
}

/// The lines behind the IP line: the transport line and the closing blank
/// line, or the error line alone.
pub open spec fn transport_tail(t: Transport) -> Seq<LineView> {
    if t is Rejected {
        transport_detail(t)
    } else {
        transport_detail(t).push(blank_line())
    }
}

/// The lines of the network layer and above.
pub open spec fn network_detail(n: Network) -> Seq<LineView> {
    match n {
        Network::Rejected(e) => seq![err_line("  [L3 分发失败] "@ + error_text(e))],
        Network::Arp { op, sender_ip, target_ip, .. } => seq![
            out_line(
                "  ARP  "@ + arp_operation_name(op) + "  who-has "@ + dotted_dec(target_ip) + "  tell "@ + dotted_dec(sender_ip),
                Tone::Magenta,
            ),
            blank_line(),
        ],
        Network::V4 { src, dst, ttl, proto, body } => seq![
            out_line(
                "  IPv4 "@ + dotted_dec(src) + " → "@ + dotted_dec(dst) + "  ttl="@ + dec8(ttl) + "  proto="@ + dec8(proto),
                Tone::Blue,
            ),
        ] + transport_tail(transport_of(proto, 1, body)),
        Network::V6 { src, dst, hop, next, body } => seq![
            out_line(
                "  IPv6 "@ + ipv6_text(src) + " → "@ + ipv6_text(dst) + "  hop="@ + dec8(hop) + "  nh="@ + dec8(next),
                Tone::Blue,
            ),
        ] + transport_tail(transport_of(next, 58, body)),
        Network::Unknown(_) => seq![out_line("  [L3] 未知 EtherType"@, Tone::Red), blank_line()],
    }
}

/// The Ethernet line of an accepted frame.
pub open spec fn ethernet_line(raw: Seq<u8>) -> LineView {
    out_line(
        "  ETH  "@ + colon_hex2(raw.subrange(6, 12)) + " → "@ + colon_hex2(raw.subrange(0, 6)) + "  type="@ + hex4_prefixed(
            payload_ethertype(raw) as u16,
        ),
        Tone::Cyan,
    )
}

/// The layer-by-layer view of a captured frame: a line per decoded layer,
/// an error line where decoding stops, and a closing blank line when the
/// last layer decoded.
pub open spec fn detail_lines(raw: Seq<u8>) -> Seq<LineView> {
    match ethernet_error(raw) {
        Some(e) => seq![err_line("  [L2 解析失败] "@ + error_text(e))],
        None => seq![ethernet_line(raw)] + network_detail(network_of(raw)),
    }
}

/// The views of a list of lines.
pub open spec fn line_views(v: Seq<Line>) -> Seq<LineView> {
    v.map_values(|l: Line| l@)
}

/// An error line.
fn error_line(prefix: &str, e: ParseError) -> (r: Line)
    ensures
        r@ == err_line(prefix@ + error_text(e)),
{
    let mut s = string_of(prefix);
    push_lit(&mut s, e.message());
    Line { text: s, tone: Tone::Red, to_stderr: true }
}

/// A standard output line of a literal.
fn fixed_line(text: &str, tone: Tone) -> (r: Line)
    ensures
        r@ == out_line(text@, tone),
{
    Line { text: string_of(text), tone, to_stderr: false }
}

/// The detail line of a decoded transport layer.
fn transport_detail_line(l4: &ParseResult) -> (r: Line)
    requires
        l4 is TCP || l4 is UDP || l4 is ICMP || l4 is Unknown,
    ensures
        seq![r@] == transport_detail(match l4 {
            ParseResult::TCP(s) => Transport::Tcp { src_port: s.src_port, dst_port: s.dst_port, seq: s.seq, flags: s.flags },
            ParseResult::UDP(s) => Transport::Udp { src_port: s.src_port, dst_port: s.dst_port, len: s.len },
            ParseResult::ICMP(m) => Transport::Message { kind: m.icmp_type, code: m.code, checksum: m.checksum, rest: m.payload@ },
            _ => Transport::Other,
        }),
{
    let line = match l4 {
        ParseResult::ICMP(m) => {
            let mut s = string_of("  ICMP  ");
            push_lit(&mut s, ICMPPacket::type_label(m.icmp_type));
            push_lit(&mut s, "  type=");
            push_dec_u8(&mut s, m.icmp_type);
            push_lit(&mut s, "  code=");
            push_dec_u8(&mut s, m.code);
            match (m.identifier(), m.sequence()) {
                (Some(id), Some(sq)) => {
                    push_lit(&mut s, "  id=");
                    push_dec_u16(&mut s, id);
                    push_lit(&mut s, "  seq=");
                    push_dec_u16(&mut s, sq);
                },
                _ => {},
            }
            push_lit(&mut s, "  len=");
            push_dec_usize(&mut s, m.payload.len());
            let ghost rest = m.payload@;
            assert(s@ =~= "  ICMP  "@ + message_type_name(m.icmp_type) + "  type="@ + dec8(m.icmp_type) + "  code="@
                + dec8(m.code) + (if rest.len() >= 4 {
                "  id="@ + dec16(be16u(rest[0], rest[1])) + "  seq="@ + dec16(be16u(rest[2], rest[3]))
            } else {
                seq![]
            }) + "  len="@ + dec_digits(rest.len()));
            Line { text: s, tone: Tone::Magenta, to_stderr: false }
        },
        ParseResult::TCP(t) => {
            let mut s = string_of("  TCP  :");
            push_dec_u16(&mut s, t.src_port);
            push_lit(&mut s, " → :");
            push_dec_u16(&mut s, t.dst_port);
            push_lit(&mut s, "  ");
            let flags = format_tcp_flags(t.flags);
            push_lit(&mut s, flags.as_str());
            push_lit(&mut s, "  seq=");
            push_dec_u32(&mut s, t.seq);
            assert(s@ =~= "  TCP  :"@ + dec16(t.src_port) + " → :"@ + dec16(t.dst_port) + "  "@ + tcp_flags_text(t.flags)
                + "  seq="@ + dec32(t.seq));
            Line { text: s, tone: Tone::Green, to_stderr: false }
        },
        ParseResult::UDP(u) => {
            let mut s = string_of("  UDP  :");
            push_dec_u16(&mut s, u.src_port);
            push_lit(&mut s, " → :");
            push_dec_u16(&mut s, u.dst_port);
            push_lit(&mut s, "  len=");
            push_dec_u16(&mut s, u.len);
            assert(s@ =~= "  UDP  :"@ + dec16(u.src_port) + " → :"@ + dec16(u.dst_port) + "  len="@ + dec16(u.len));
            Line { text: s, tone: Tone::Green, to_stderr: false }
        },
        _ => fixed_line("  [L4] 未知协议号", Tone::Yellow),
    };
    line
}

/// Appends the lines behind an IP line for a transport dispatch result.
fn push_transport_tail(out: &mut Vec<Line>, l4: &Result<ParseResult, ParseError>, Ghost(t): Ghost<Transport>)
    requires
        *l4 matches Err(e) ==> t == Transport::Rejected(e),
        *l4 matches Ok(ParseResult::TCP(s)) ==> t == (Transport::Tcp {
            src_port: s.src_port,
            dst_port: s.dst_port,
            seq: s.seq,
            flags: s.flags,
        }),
        *l4 matches Ok(ParseResult::UDP(s)) ==> t == (Transport::Udp { src_port: s.src_port, dst_port: s.dst_port, len: s.len }),
        *l4 matches Ok(ParseResult::ICMP(m)) ==> t == (Transport::Message {
            kind: m.icmp_type,
            code: m.code,
            checksum: m.checksum,
            rest: m.payload@,
        }),
        *l4 matches Ok(ParseResult::Unknown) ==> t == Transport::Other,
        *l4 matches Ok(x) ==> (x is TCP || x is UDP || x is ICMP || x is Unknown),
    ensures
        line_views(final(out)@) == line_views(old(out)@) + transport_tail(t),
{
    let ghost before = out@;
    match l4 {
        Err(e) => {
            out.push(error_line("  [L4 分发失败] ", *e));
            assert(line_views(out@) =~= line_views(before) + transport_tail(t));
        },
        Ok(x) => {
            out.push(transport_detail_line(x));
            out.push(fixed_line("\n", Tone::Plain));
            assert(line_views(out@) =~= line_views(before) + transport_tail(t));
        },
    }
}

/// The layer-by-layer view of a captured frame: Ethernet addresses and
/// type; ARP operation and addresses, or IP addresses with TTL (hop limit)
/// and protocol followed by the transport fields; an error line where
/// decoding stops.
pub fn packet_lines(raw: &[u8]) -> (r: Vec<Line>)
    ensures
        line_views(r@) == detail_lines(raw@),
{
    let mut out: Vec<Line> = Vec::new();
    let eth = match EthernetFrame::parse(raw) {
        Ok(e) => e,
        Err(e) => {
            out.push(error_line("  [L2 解析失败] ", e));
            assert(line_views(out@) =~= detail_lines(raw@));
            return out;
        },
    };
    let mut head = string_of("  ETH  ");
    let src = EthernetFrame::format_mac(&eth.src_mac);
    push_lit(&mut head, src.as_str());
    push_lit(&mut head, " → ");
    let dst = EthernetFrame::format_mac(&eth.dst_mac);
    push_lit(&mut head, dst.as_str());
    push_lit(&mut head, "  type=");
    push_hex4_prefixed(&mut head, eth.ethernet_type);
    out.push(Line { text: head, tone: Tone::Cyan, to_stderr: false });
    assert(line_views(out@) =~= seq![ethernet_line(raw@)]);
    let l3 = dispatch_from_ethernet(&eth);
    proof {
        lemma_network_view(raw@, eth, l3);
    }
    match l3 {
        Err(e) => {
            out.push(error_line("  [L3 分发失败] ", e));
        },
        Ok(ParseResult::ARP(arp)) => {
            let mut s = string_of("  ARP  ");
            push_lit(&mut s, ARPPacket::operation_name(arp.operation));
            push_lit(&mut s, "  who-has ");
            let target = ARPPacket::format_ip(arp.target_proto_addr);
            push_lit(&mut s, target.as_str());
            push_lit(&mut s, "  tell ");
            let sender = ARPPacket::format_ip(arp.sender_proto_addr);
            push_lit(&mut s, sender.as_str());
            out.push(Line { text: s, tone: Tone::Magenta, to_stderr: false });
            out.push(fixed_line("\n", Tone::Plain));
        },
        Ok(ParseResult::IPv4(ip)) => {
            let mut s = string_of("  IPv4 ");
            let a = IPv4Packet::format_ip(&ip.src_ip);
            push_lit(&mut s, a.as_str());
            push_lit(&mut s, " → ");
            let b = IPv4Packet::format_ip(&ip.dst_ip);
            push_lit(&mut s, b.as_str());
            push_lit(&mut s, "  ttl=");
            push_dec_u8(&mut s, ip.ttl);
            push_lit(&mut s, "  proto=");
            push_dec_u8(&mut s, ip.next_protocol);
            out.push(Line { text: s, tone: Tone::Blue, to_stderr: false });
            let l4 = dispatch_from_ipv4(&ip);
            proof {
                lemma_transport_view(ip.next_protocol, 1, ip.payload@, l4);
            }
            let ghost mid = out@;
            push_transport_tail(&mut out, &l4, Ghost(transport_of(ip.next_protocol, 1, ip.payload@)));
            assert(line_views(out@) =~= detail_lines(raw@));
            return out;
        },
        Ok(ParseResult::IPv6(ip)) => {
            let mut s = string_of("  IPv6 ");
            let a = IPv6Packet::format_ip(&ip.src_ip);
            push_lit(&mut s, a.as_str());
            push_lit(&mut s, " → ");
            let b = IPv6Packet::format_ip(&ip.dst_ip);
            push_lit(&mut s, b.as_str());
            push_lit(&mut s, "  hop=");
            push_dec_u8(&mut s, ip.hop_limit);
            push_lit(&mut s, "  nh=");
            push_dec_u8(&mut s, ip.next_header);
            out.push(Line { text: s, tone: Tone::Blue, to_stderr: false });
            let l4 = dispatch_from_ipv6(&ip);
            proof {
                lemma_transport_view(ip.next_header, 58, ip.payload@, l4);
            }
            push_transport_tail(&mut out, &l4, Ghost(transport_of(ip.next_header, 58, ip.payload@)));
            assert(line_views(out@) =~= detail_lines(raw@));
            return out;
        },
        Ok(_) => {
            out.push(fixed_line("  [L3] 未知 EtherType", Tone::Red));
            out.push(fixed_line("\n", Tone::Plain));
        },
    }
    assert(line_views(out@) =~= detail_lines(raw@));
    out
}

/// Whether a byte is shown as itself in a dump: printable ASCII or space.
pub open spec fn shown_as_itself(b: u8) -> bool {
    0x20 <= b <= 0x7E
}

/// How a byte is shown in the text column of a dump.
pub open spec fn shown_char(b: u8) -> char {
    if shown_as_itself(b) {
        b as char
    } else {
        '.'
    }
}

/// The hexadecimal column of a dump line: each byte as two digits and a
/// space, with one more space before the ninth byte.
pub open spec fn hex_cells(chunk: Seq<u8>) -> Seq<char>
    decreases chunk.len(),
{
    if chunk.len() == 0 {
        seq![]
    } else {
        hex_cells(chunk.drop_last()) + (if chunk.len() == 9 {
            seq![' ']
        } else {
            seq![]
        }) + hex2(chunk.last()) + seq![' ']
    }
}

/// `n` spaces.
pub open spec fn spaces(n: nat) -> Seq<char> {
    Seq::new(n, |i: int| ' ')
}

/// One dump line: the offset, the hexadecimal column padded to the width of
/// sixteen bytes, and the text column.
pub open spec fn dump_line(chunk: Seq<u8>, offset: nat) -> Seq<char> {
    let pad = (16 - chunk.len()) * 3 + (if chunk.len() <= 8 { 1int } else { 0int });
    "  0x"@ + pad_zero(hex_digits(offset), 4) + "  "@ + hex_cells(chunk) + spaces(pad as nat) + seq![' '] + chunk.map_values(
        |b: u8| shown_char(b),
    )
}

/// The dump of some bytes: one line per sixteen bytes.
pub open spec fn dump_lines(data: Seq<u8>) -> Seq<Seq<char>> {
    Seq::new(
        ((data.len() + 15) / 16) as nat,
        |i: int| dump_line(data.subrange(16 * i, if 16 * i + 16 <= data.len() { 16 * i + 16 } else { data.len() as int }), (16 * i) as nat),
    )
}

/// One line of a hexadecimal dump.
fn dump_one(data: &[u8], start: usize, end: usize) -> (r: String)
    requires
        start <= end <= data@.len(),
        end - start <= 16,
    ensures
        r@ == dump_line(data@.subrange(start as int, end as int), start as nat),
{
    let ghost chunk = data@.subrange(start as int, end as int);
    let mut s = string_of("  0x");
    push_padded_hex(&mut s, start as u64, 4);
    push_lit(&mut s, "  ");
    let ghost head = s@;
    let mut j: usize = start;
    while j < end
        invariant
            start <= j <= end,
            end <= data@.len(),
            end - start <= 16,
            chunk == data@.subrange(start as int, end as int),
            s@ == head + hex_cells(data@.subrange(start as int, j as int)),
        decreases end - j,
    {
        let ghost next = data@.subrange(start as int, j + 1);
        assert(next.drop_last() =~= data@.subrange(start as int, j as int));
        assert(next.last() == data@[j as int]);
        assert(next.len() == j + 1 - start);
        if j - start == 8 {
            s.push(' ');
        }
        push_hex2(&mut s, data[j]);
        s.push(' ');
        j = j + 1;
        assert(s@ =~= head + hex_cells(data@.subrange(start as int, j as int)));
    }
    let len = end - start;
    let pad: usize = (16 - len) * 3 + if len <= 8 { 1 } else { 0 };
    let ghost mid = s@;
    let mut k: usize = 0;
    while k < pad
        invariant
            k <= pad,
            s@ == mid + spaces(k as nat),
        decreases pad - k,
    {
        s.push(' ');
        k = k + 1;
        assert(s@ =~= mid + spaces(k as nat));
    }
    s.push(' ');
    let ghost tail_start = s@;
    let mut j: usize = start;
    while j < end
        invariant
            start <= j <= end,
            end <= data@.len(),
            s@ == tail_start + data@.subrange(start as int, j as int).map_values(|b: u8| shown_char(b)),
        decreases end - j,
    {
        let b = data[j];
        if 0x20 <= b && b <= 0x7E {
            s.push(b as char);
        } else {
            s.push('.');
        }
        j = j + 1;
        assert(s@ =~= tail_start + data@.subrange(start as int, j as int).map_values(|b: u8| shown_char(b)));
    }
    assert(s@ =~= dump_line(chunk, start as nat));
    s
}

/// A hexadecimal dump: for every sixteen bytes, the offset (`0x0000`),
/// the bytes in hexadecimal (a gap after the eighth) and as text, where
/// bytes other than printable ASCII and space show as `.`.
pub fn hexdump_lines(data: &[u8]) -> (r: Vec<String>)
    ensures
        r@.map_values(|l: String| l@) == dump_lines(data@),
{
    let n = data.len();
    let count: usize = n / 16 + if n % 16 != 0 { 1 } else { 0 };
    assert(count == (n + 15) / 16) by (nonlinear_arith)
        requires
            count == n / 16 + if n % 16 != 0 { 1int } else { 0int },
    ;
    let mut out: Vec<String> = Vec::new();
    let mut i: usize = 0;
    while i < count
        invariant
            n == data@.len(),
            count == (n + 15) / 16,
            i <= count,
            out@.len() == i,
            forall|k: int| 0 <= k < i ==> #[trigger] out@[k]@ == dump_lines(data@)[k],
        decreases count - i,
    {
        assert(16 * i < n) by (nonlinear_arith)
            requires
                i < count,
                count == (n + 15) / 16,
        ;
        let start = 16 * i;
        let end = if n - start >= 16 { start + 16 } else { n };
        let line = dump_one(data, start, end);
        out.push(line);
        i = i + 1;
    }
    assert(out@.map_values(|l: String| l@) =~= dump_lines(data@));
    out
}

/// The ARP fields of the JSON form.
pub struct ArpFields {
    pub operation: String,
    pub sender_mac: String,
    pub sender_ip: String,
    pub target_mac: String,
    pub target_ip: String,
}

/// The IP fields of the JSON form: `limit` is the TTL (IPv4) or hop limit
/// (IPv6), `next` the protocol (IPv4) or next header (IPv6).
pub struct IpFields {
    pub version: u8,
    pub src: String,
    pub dst: String,
    pub limit: u8,
    pub next: u8,
}

/// The transport fields of the JSON form.
pub enum TransportFields {
    Message { kind: u8, label: String, code: u8, checksum: u16, echo_id: Option<u16>, echo_seq: Option<u16>, payload_len: usize },
    Tcp { src_port: u16, dst_port: u16, flags: String, seq: u32 },
    Udp { src_port: u16, dst_port: u16, len: u16 },
}

/// What the JSON form of a packet holds: capture time, length, and the
/// fields of each decoded layer, or why decoding stopped.
pub struct PacketRecord {
    pub ts: String,
    pub len: usize,
    pub error: Option<String>,
    /// Source MAC, destination MAC and EtherType (`0x0800`).
    pub eth: Option<(String, String, String)>,
    pub arp: Option<ArpFields>,
    pub ip: Option<IpFields>,
    pub transport: Option<TransportFields>,
}

/// The error text of the JSON form.
pub open spec fn record_error(raw: Seq<u8>) -> Option<Seq<char>> {
    if ethernet_error(raw) is Some {
        Some("L2 parse failed"@)
    } else {
        match network_of(raw) {
            Network::Rejected(e) => Some("L3 dispatch failed: "@ + error_text(e)),
            _ => None,
        }
    }
}

/// Whether the transport fields match a transport layer (the fields are
/// absent for a rejected or unknown one).
pub open spec fn transport_fields_match(f: Option<TransportFields>, t: Transport) -> bool {
    match t {
        Transport::Message { kind, code, checksum, rest } => f matches Some(TransportFields::Message { kind: k, label, code: c, checksum: cs, echo_id: id, echo_seq: seq, payload_len })
            && k == kind && label@ == message_type_name(kind) && c == code && cs == checksum && id == (if rest.len() >= 2 {
            Some(be16u(rest[0], rest[1]))
        } else {
            None::<u16>
        }) && seq == (if rest.len() >= 4 {
            Some(be16u(rest[2], rest[3]))
        } else {
            None::<u16>
        }) && payload_len == rest.len(),
        Transport::Tcp { src_port, dst_port, seq, flags } => f matches Some(TransportFields::Tcp { src_port: a, dst_port: b, flags: fl, seq: sq })
            && a == src_port && b == dst_port && fl@ == tcp_flags_text(flags) && sq == seq,
        Transport::Udp { src_port, dst_port, len } => f matches Some(TransportFields::Udp { src_port: a, dst_port: b, len: l })
            && a == src_port && b == dst_port && l == len,
        _ => f is None,
    }
}

/// Whether a record holds the JSON form of a frame captured at `ts`.
pub open spec fn record_matches(r: PacketRecord, raw: Seq<u8>, ts: Seq<char>) -> bool {
    &&& r.ts@ == ts
    &&& r.len == raw.len()
    &&& (match r.error {
        Some(e) => record_error(raw) == Some(e@),
        None => record_error(raw) is None,
    })
    &&& (ethernet_error(raw) is Some ==> r.eth is None && r.arp is None && r.ip is None && r.transport is None)
    &&& (ethernet_error(raw) is None ==> (r.eth matches Some(e) && e.0@ == colon_hex2(raw.subrange(6, 12)) && e.1@
        == colon_hex2(raw.subrange(0, 6)) && e.2@ == hex4_prefixed(payload_ethertype(raw) as u16)) && match network_of(raw) {
        Network::Arp { op, sender_hw, sender_ip, target_hw, target_ip } => r.arp matches Some(a) && a.operation@
            == arp_operation_name(op) && a.sender_mac@ == colon_hex2(sender_hw) && a.sender_ip@ == dotted_dec(sender_ip)
            && a.target_mac@ == colon_hex2(target_hw) && a.target_ip@ == dotted_dec(target_ip) && r.ip is None
            && r.transport is None,
        Network::V4 { src, dst, ttl, proto, body } => r.ip matches Some(i) && i.version == 4 && i.src@ == dotted_dec(src)
            && i.dst@ == dotted_dec(dst) && i.limit == ttl && i.next == proto && r.arp is None && transport_fields_match(
            r.transport,
            transport_of(proto, 1, body),
        ),
        Network::V6 { src, dst, hop, next, body } => r.ip matches Some(i) && i.version == 6 && i.src@ == ipv6_text(src)
            && i.dst@ == ipv6_text(dst) && i.limit == hop && i.next == next && r.arp is None && transport_fields_match(
            r.transport,
            transport_of(next, 58, body),
        ),
        _ => r.arp is None && r.ip is None && r.transport is None,
    })
}

/// The transport fields of a dispatch result.
fn transport_fields(l4: &Result<ParseResult, ParseError>, Ghost(t): Ghost<Transport>) -> (r: Option<TransportFields>)
    requires
        *l4 matches Err(e) ==> t == Transport::Rejected(e),
        *l4 matches Ok(ParseResult::TCP(s)) ==> t == (Transport::Tcp {
            src_port: s.src_port,
            dst_port: s.dst_port,
            seq: s.seq,
            flags: s.flags,
        }),
        *l4 matches Ok(ParseResult::UDP(s)) ==> t == (Transport::Udp { src_port: s.src_port, dst_port: s.dst_port, len: s.len }),
        *l4 matches Ok(ParseResult::ICMP(m)) ==> t == (Transport::Message {
            kind: m.icmp_type,
            code: m.code,
            checksum: m.checksum,
            rest: m.payload@,
        }),
        *l4 matches Ok(ParseResult::Unknown) ==> t == Transport::Other,
        *l4 matches Ok(x) ==> (x is TCP || x is UDP || x is ICMP || x is Unknown),
    ensures
        transport_fields_match(r, t),
{
    match l4 {
        Ok(ParseResult::ICMP(m)) => Some(
            TransportFields::Message {
                kind: m.icmp_type,
                label: string_of(ICMPPacket::type_label(m.icmp_type)),
                code: m.code,
                checksum: m.checksum,
                echo_id: m.identifier(),
                echo_seq: m.sequence(),
                payload_len: m.payload.len(),
            },
        ),
        Ok(ParseResult::TCP(t)) => Some(
            TransportFields::Tcp { src_port: t.src_port, dst_port: t.dst_port, flags: format_tcp_flags(t.flags), seq: t.seq },
        ),
        Ok(ParseResult::UDP(u)) => Some(TransportFields::Udp { src_port: u.src_port, dst_port: u.dst_port, len: u.len }),
        _ => None,
    }
}

/// The JSON form of a captured frame: capture time, length, Ethernet
/// addresses and type, then the ARP fields, or the IP fields and the
/// transport fields, and an error where decoding stopped.
pub fn packet_record(raw: &[u8], tv_sec: i64, tv_usec: i64) -> (r: PacketRecord)
    ensures
        record_matches(r, raw@, timestamp_text(tv_sec as int, tv_usec as int)),
{
    let ts = format_timestamp(tv_sec, tv_usec);
    let len = raw.len();
    let eth = match EthernetFrame::parse(raw) {
        Ok(e) => e,
        Err(_) => {
            return PacketRecord {
                ts,
                len,
                error: Some(string_of("L2 parse failed")),
                eth: None,
                arp: None,
                ip: None,
                transport: None,
            };
        },
    };
    let mut kind = string_of("0x");
    push_padded_hex(&mut kind, eth.ethernet_type as u64, 4);
    assert(kind@ =~= hex4_prefixed(eth.ethernet_type));
    let eth_fields = (EthernetFrame::format_mac(&eth.src_mac), EthernetFrame::format_mac(&eth.dst_mac), kind);
    let l3 = dispatch_from_ethernet(&eth);
    proof {
        lemma_network_view(raw@, eth, l3);
    }
    let mut rec = PacketRecord { ts, len, error: None, eth: Some(eth_fields), arp: None, ip: None, transport: None };
    match l3 {
        Err(e) => {
            let mut m = string_of("L3 dispatch failed: ");
            push_lit(&mut m, e.message());
            rec.error = Some(m);
        },
        Ok(ParseResult::ARP(arp)) => {
            rec.arp = Some(
                ArpFields {
                    operation: string_of(ARPPacket::operation_name(arp.operation)),
                    sender_mac: ARPPacket::format_mac(arp.sender_hw_addr),
                    sender_ip: ARPPacket::format_ip(arp.sender_proto_addr),
                    target_mac: ARPPacket::format_mac(arp.target_hw_addr),
                    target_ip: ARPPacket::format_ip(arp.target_proto_addr),
                },
            );
        },
        Ok(ParseResult::IPv4(ip)) => {
            rec.ip = Some(
                IpFields {
                    version: 4,
                    src: IPv4Packet::format_ip(&ip.src_ip),
                    dst: IPv4Packet::format_ip(&ip.dst_ip),
                    limit: ip.ttl,
                    next: ip.next_protocol,
                },
            );
            let l4 = dispatch_from_ipv4(&ip);
            proof {
                lemma_transport_view(ip.next_protocol, 1, ip.payload@, l4);
            }
            rec.transport = transport_fields(&l4, Ghost(transport_of(ip.next_protocol, 1, ip.payload@)));
        },
        Ok(ParseResult::IPv6(ip)) => {
            rec.ip = Some(
                IpFields {
                    version: 6,
                    src: IPv6Packet::format_ip(&ip.src_ip),
                    dst: IPv6Packet::format_ip(&ip.dst_ip),
                    limit: ip.hop_limit,
                    next: ip.next_header,
                },
            );
            let l4 = dispatch_from_ipv6(&ip);
            proof {
                lemma_transport_view(ip.next_header, 58, ip.payload@, l4);
            }
            rec.transport = transport_fields(&l4, Ghost(transport_of(ip.next_header, 58, ip.payload@)));
        },
        Ok(_) => {},
    }
    rec
}

/// The summary line of a UDP datagram over an accepted IPv4 packet shows the
/// source address with the source port (the UDP header's first two bytes)
/// and the destination address with the destination port (its next two
/// bytes), then the frame length.
pub proof fn law_ipv4_udp_summary_pairs_each_port_with_its_address(raw: Seq<u8>, ts: Seq<char>)
    requires
        raw.len() <= usize::MAX,
        ethernet_error(raw) is None,
        payload_ethertype(raw) == 0x0800,
        ipv4_error(frame_payload(raw)) is None,
        frame_payload(raw)[9] == 17,
        udp_error(ipv4_payload(frame_payload(raw))) is None,
    ensures
        summary_line(raw, ts).text == ts + "  "@ + "UDP"@ + "  "@ + dotted_dec(frame_payload(raw).subrange(12, 16)) + ":"@
            + dec16(be16u(ipv4_payload(frame_payload(raw))[0], ipv4_payload(frame_payload(raw))[1])) + " → "@ + dotted_dec(
            frame_payload(raw).subrange(16, 20),
        ) + ":"@ + dec16(be16u(ipv4_payload(frame_payload(raw))[2], ipv4_payload(frame_payload(raw))[3])) + "  "@
            + dec_digits(raw.len()) + "B"@,
{
    reveal(network_of);
    reveal(transport_of);
}

/// The summary line of a UDP datagram over an accepted IPv6 packet shows the
/// source address with the source port and the destination address with
/// the destination port, then the frame length.
pub proof fn law_ipv6_udp_summary_pairs_each_port_with_its_address(raw: Seq<u8>, ts: Seq<char>)
    requires
        raw.len() <= usize::MAX,
        ethernet_error(raw) is None,
        payload_ethertype(raw) == 0x86DD,
        ipv6_error(frame_payload(raw)) is None,
        frame_payload(raw)[6] == 17,
        udp_error(frame_payload(raw).subrange(40, 40 + ipv6_payload_len(frame_payload(raw)))) is None,
    ensures
        summary_line(raw, ts).text == ts + "  "@ + "UDP"@ + "  "@ + ipv6_text(frame_payload(raw).subrange(8, 24)) + ":"@
            + dec16(be16u(frame_payload(raw)[40], frame_payload(raw)[41])) + " → "@ + ipv6_text(
            frame_payload(raw).subrange(24, 40),
        ) + ":"@ + dec16(be16u(frame_payload(raw)[42], frame_payload(raw)[43])) + "  "@ + dec_digits(raw.len()) + "B"@,
{
    reveal(network_of);
    reveal(transport_of);
}

/// The summary line of a TCP segment over an accepted IPv4 packet shows the
/// source address with the source port and the destination address with
/// the destination port, then the flags (byte 13 of the TCP header) and the
/// frame length.
pub proof fn law_ipv4_tcp_summary_pairs_each_port_with_its_address(raw: Seq<u8>, ts: Seq<char>)
    requires
        raw.len() <= usize::MAX,
        ethernet_error(raw) is None,
        payload_ethertype(raw) == 0x0800,
        ipv4_error(frame_payload(raw)) is None,
        frame_payload(raw)[9] == 6,
        tcp_error(ipv4_payload(frame_payload(raw))) is None,
    ensures
        summary_line(raw, ts).text == ts + "  "@ + "TCP"@ + "  "@ + dotted_dec(frame_payload(raw).subrange(12, 16)) + ":"@
            + dec16(be16u(ipv4_payload(frame_payload(raw))[0], ipv4_payload(frame_payload(raw))[1])) + " → "@ + dotted_dec(
            frame_payload(raw).subrange(16, 20),
        ) + ":"@ + dec16(be16u(ipv4_payload(frame_payload(raw))[2], ipv4_payload(frame_payload(raw))[3])) + "  "@
            + tcp_flags_text(ipv4_payload(frame_payload(raw))[13]) + "  "@ + dec_digits(raw.len()) + "B"@,
{
    reveal(network_of);
    reveal(transport_of);
}

} // verus!
