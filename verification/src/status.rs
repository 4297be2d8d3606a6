//! Traffic statistics: packet and byte counts by protocol, per-session
//! totals, the ranking of the busiest sessions, and the decisions of the
//! live statistics loop.
use vstd::prelude::*;

use crate::cli::{stats_error, StatsArgs};
use crate::protocol::arp::ARPPacket;
use crate::protocol::ethernet::{ethernet_error, ethernet_payload_offset, payload_ethertype};
use crate::protocol::ip::{ipv4_error, ipv4_header_len, ipv6_error, ipv6_payload_len};
use crate::protocol::tcp::tcp_error;
use crate::protocol::udp::udp_error;
use crate::protocol::{EthernetFrame, IPv4Packet, IPv6Packet, TCPSegment, UDPSegment};
use crate::text::{be16, be16u, dotted_dec, hex_digits, ipv6_text, pad_zero, push_dec, push_lit, push_padded_hex, read_be16, string_of};

verus! {

/// Protocol number given to ARP sessions (ARP has none in the IP number
/// space, and 255 is reserved there).
pub const ARP_PROTO: u8 = 255;

/// Packets and bytes of one session.
#[derive(Clone, Copy, Debug)]
pub struct SessionRecord {
    pub packets: u64,
    pub bytes: u64,
}

/// What identifies a session. For TCP (6) and UDP (17) the ports are the
/// real ports; for ICMP (1) and ICMPv6 (58) `src_port` holds the message
/// type in its high byte and the code in its low byte; for ARP
/// (`ARP_PROTO`) `src_port` is the operation and `dst_port` the last two
/// bytes of the target hardware address.
#[derive(Clone, Debug)]
pub struct SessionKey {
    pub src_ip: String,
    pub dst_ip: String,
    pub protocol: u8,
    pub src_port: u16,
    pub dst_port: u16,
}

/// A session key as a value.
pub ghost struct SessionId {
    pub src_ip: Seq<char>,
    pub dst_ip: Seq<char>,
    pub protocol: u8,
    pub src_port: u16,
    pub dst_port: u16,
}

impl View for SessionKey {
    type V = SessionId;

    open spec fn view(&self) -> SessionId {
        SessionId {
            src_ip: self.src_ip@,
            dst_ip: self.dst_ip@,
            protocol: self.protocol,
            src_port: self.src_port,
            dst_port: self.dst_port,
        }
    }
}

impl SessionKey {
    /// Whether two keys name the same session.
    pub fn same(&self, other: &SessionKey) -> (r: bool)
        ensures
            r == (self@ == other@),
    {
        self.protocol == other.protocol && self.src_port == other.src_port && self.dst_port == other.dst_port
            && self.src_ip == other.src_ip && self.dst_ip == other.dst_ip
    }
}

/// The protocol class a packet is counted under.
#[derive(Clone, Copy, Debug, PartialEq, Eq)]
pub enum Category {
    Ipv4Tcp,
    Ipv4Udp,
    Ipv4Icmp,
    Ipv4Other,
    Ipv6Tcp,
    Ipv6Udp,
    Ipv6Icmp6,
    Ipv6Other,
    Arp,
    Other,
}

/// The payload of an accepted Ethernet frame.
pub open spec fn frame_payload(raw: Seq<u8>) -> Seq<u8> {
    raw.subrange(ethernet_payload_offset(raw), raw.len() as int)
}

/// The payload of an accepted IPv4 packet.
pub open spec fn ipv4_payload(p: Seq<u8>) -> Seq<u8> {
    p.subrange(ipv4_header_len(p), p.len() as int)
}

/// The class of an IPv4 payload: a rejected header counts as `Other`.
pub open spec fn ipv4_category(p: Seq<u8>) -> Category {
    if ipv4_error(p) is Some {
        Category::Other
    } else if p[9] == 6 {
        Category::Ipv4Tcp
    } else if p[9] == 17 {
        Category::Ipv4Udp
    } else if p[9] == 1 {
        Category::Ipv4Icmp
    } else {
        Category::Ipv4Other
    }
}

/// The class of an IPv6 payload: a rejected header counts as `Other`.
pub open spec fn ipv6_category(p: Seq<u8>) -> Category {
    if ipv6_error(p) is Some {
        Category::Other
    } else if p[6] == 6 {
        Category::Ipv6Tcp
    } else if p[6] == 17 {
        Category::Ipv6Udp
    } else if p[6] == 58 {
        Category::Ipv6Icmp6
    } else {
        Category::Ipv6Other
    }
}

/// The class a captured frame is counted under.
pub open spec fn packet_category(raw: Seq<u8>) -> Category {
    if ethernet_error(raw) is Some {
        Category::Other
    } else {
        let et = payload_ethertype(raw);
        let p = frame_payload(raw);
        if et == 0x0800 {
            ipv4_category(p)
        } else if et == 0x86DD {
            ipv6_category(p)
        } else if et == 0x0806 {
            Category::Arp
        } else {
            Category::Other
        }
    }
}

/// The session of a transport payload `p` between two addresses, by the
/// protocol number; `message_proto` is 1 (ICMP) above IPv4 and 58
/// (ICMPv6) above IPv6. A message needs 8 bytes; its type and code form
/// the source port.
pub open spec fn ip_session(src: Seq<char>, dst: Seq<char>, proto: u8, message_proto: u8, p: Seq<u8>) -> Option<SessionId> {
    if proto == 6 {
        if tcp_error(p) is None {
            Some(SessionId { src_ip: src, dst_ip: dst, protocol: 6, src_port: be16u(p[0], p[1]), dst_port: be16u(p[2], p[3]) })
        } else {
            None
        }
    } else if proto == 17 {
        if udp_error(p) is None {
            Some(SessionId { src_ip: src, dst_ip: dst, protocol: 17, src_port: be16u(p[0], p[1]), dst_port: be16u(p[2], p[3]) })
        } else {
            None
        }
    } else if proto == message_proto {
        if p.len() >= 8 {
            Some(SessionId { src_ip: src, dst_ip: dst, protocol: message_proto, src_port: be16u(p[0], p[1]), dst_port: 0 })
        } else {
            None
        }
    } else {
        None
    }
}

/// Whether an ARP payload is the 28-byte Ethernet/IPv4 form.
pub open spec fn arp_ipv4_form(p: Seq<u8>) -> bool {
    &&& p.len() >= 28
    &&& be16(p[0], p[1]) == 1
    &&& be16(p[2], p[3]) == 0x0800
    &&& p[4] == 6
    &&& p[5] == 4
}

/// The session of an ARP payload in the Ethernet/IPv4 form.
pub open spec fn arp_session(p: Seq<u8>) -> Option<SessionId> {
    if arp_ipv4_form(p) {
        Some(
            SessionId {
                src_ip: dotted_dec(p.subrange(14, 18)),
                dst_ip: dotted_dec(p.subrange(24, 28)),
                protocol: ARP_PROTO,
                src_port: be16u(p[6], p[7]),
                dst_port: be16u(p[22], p[23]),
            },
        )
    } else {
        None
    }
}

/// The session a captured frame belongs to, if any.
pub open spec fn packet_session(raw: Seq<u8>) -> Option<SessionId> {
    if ethernet_error(raw) is Some {
        None
    } else {
        let et = payload_ethertype(raw);
        let p = frame_payload(raw);
        if et == 0x0800 {
            if ipv4_error(p) is None {
                ip_session(
                    dotted_dec(p.subrange(12, 16)),
                    dotted_dec(p.subrange(16, 20)),
                    p[9],
                    1,
                    ipv4_payload(p),
                )
            } else {
                None
            }
        } else if et == 0x86DD {
            if ipv6_error(p) is None {
                ip_session(
                    ipv6_text(p.subrange(8, 24)),
                    ipv6_text(p.subrange(24, 40)),
                    p[6],
                    58,
                    p.subrange(40, 40 + ipv6_payload_len(p)),
                )
            } else {
                None
            }
        } else if et == 0x0806 {
            arp_session(p)
        } else {
            None
        }
    }
}

/// The sessions after one more packet of `bytes` bytes for `key`: its
/// record grows by one packet and `bytes`, or a new record is appended.
pub open spec fn upsert(s: Seq<(SessionId, SessionRecord)>, key: SessionId, bytes: u64) -> Seq<(SessionId, SessionRecord)> {
    if exists|i: int| 0 <= i < s.len() && #[trigger] s[i].0 == key {
        let i = choose|i: int| 0 <= i < s.len() && #[trigger] s[i].0 == key;
        s.update(i, (key, SessionRecord { packets: (s[i].1.packets + 1) as u64, bytes: (s[i].1.bytes + bytes) as u64 }))
    } else {
        s.push((key, SessionRecord { packets: 1, bytes }))
    }
}

/// The record of a session, if the sessions hold it.
pub open spec fn record_of(s: Seq<(SessionId, SessionRecord)>, key: SessionId) -> Option<SessionRecord> {
    if exists|i: int| 0 <= i < s.len() && #[trigger] s[i].0 == key {
        Some(s[choose|i: int| 0 <= i < s.len() && #[trigger] s[i].0 == key].1)
    } else {
        None
    }
}

/// No session occurs twice.
pub open spec fn distinct_sessions(s: Seq<(SessionId, SessionRecord)>) -> bool {
    forall|i: int, j: int| 0 <= i < j < s.len() ==> #[trigger] s[i].0 != #[trigger] s[j].0
}

/// With distinct sessions, the record of a session is the one at its
/// position.
proof fn lemma_record_at(s: Seq<(SessionId, SessionRecord)>, i: int)
    requires
        distinct_sessions(s),
        0 <= i < s.len(),
    ensures
        record_of(s, s[i].0) == Some(s[i].1),
{
    let key = s[i].0;
    assert(exists|j: int| 0 <= j < s.len() && #[trigger] s[j].0 == key);
    let j = choose|j: int| 0 <= j < s.len() && #[trigger] s[j].0 == key;
    if j < i {
        assert(s[j].0 != s[i].0);
    } else if i < j {
        assert(s[i].0 != s[j].0);
    }
}

/// Counting one packet of `bytes` bytes for a session leaves the sessions
/// distinct, makes that session's record one packet and `bytes` bytes
/// larger (a new session starts at one packet), leaves every other
/// session's record as it was, and adds a session exactly when it is new.
pub proof fn law_upsert_counts_one_packet(s: Seq<(SessionId, SessionRecord)>, key: SessionId, bytes: u64)
    requires
        distinct_sessions(s),
        record_of(s, key) matches Some(r) ==> r.packets < u64::MAX && r.bytes + bytes <= u64::MAX,
    ensures
        distinct_sessions(upsert(s, key, bytes)),
        record_of(upsert(s, key, bytes), key) == Some(
            match record_of(s, key) {
                Some(r) => SessionRecord { packets: (r.packets + 1) as u64, bytes: (r.bytes + bytes) as u64 },
                None => SessionRecord { packets: 1, bytes },
            },
        ),
        forall|other: SessionId| other != key ==> #[trigger] record_of(upsert(s, key, bytes), other) == record_of(s, other),
        upsert(s, key, bytes).len() == s.len() + (if record_of(s, key) is None { 1int } else { 0int }),
        session_packets(upsert(s, key, bytes)) == session_packets(s) + 1,
{
    let t = upsert(s, key, bytes);
    if exists|i: int| 0 <= i < s.len() && #[trigger] s[i].0 == key {
        let i = choose|i: int| 0 <= i < s.len() && #[trigger] s[i].0 == key;
        lemma_record_at(s, i);
        lemma_session_packets_update(s, i, t[i]);
        assert(distinct_sessions(t)) by {
            assert forall|a: int, b: int| 0 <= a < b < t.len() implies #[trigger] t[a].0 != #[trigger] t[b].0 by {
                assert(t[a].0 == s[a].0);
                assert(t[b].0 == s[b].0);
            }
        }
        lemma_record_at(t, i);
        assert forall|other: SessionId| other != key implies #[trigger] record_of(t, other) == record_of(s, other) by {
            if exists|j: int| 0 <= j < s.len() && #[trigger] s[j].0 == other {
                let j = choose|j: int| 0 <= j < s.len() && #[trigger] s[j].0 == other;
                lemma_record_at(s, j);
                lemma_record_at(t, j);
            } else {
                assert forall|j: int| 0 <= j < t.len() implies #[trigger] t[j].0 != other by {
                    assert(t[j].0 == s[j].0 || j == i);
                }
            }
        }
    } else {
        assert(t.drop_last() =~= s);
        assert(distinct_sessions(t)) by {
            assert forall|a: int, b: int| 0 <= a < b < t.len() implies #[trigger] t[a].0 != #[trigger] t[b].0 by {
                if b == s.len() {
                    assert(t[a].0 == s[a].0);
                } else {
                    assert(t[a] == s[a]);
                    assert(t[b] == s[b]);
                }
            }
        }
        lemma_record_at(t, s.len() as int);
        assert forall|other: SessionId| other != key implies #[trigger] record_of(t, other) == record_of(s, other) by {
            if exists|j: int| 0 <= j < s.len() && #[trigger] s[j].0 == other {
                let j = choose|j: int| 0 <= j < s.len() && #[trigger] s[j].0 == other;
                lemma_record_at(s, j);
                lemma_record_at(t, j);
            } else {
                assert forall|j: int| 0 <= j < t.len() implies #[trigger] t[j].0 != other by {
                    if j < s.len() {
                        assert(t[j] == s[j]);
                    }
                }
            }
        }
    }
}

/// A counter pair after one more packet of `wire_len` bytes.
pub open spec fn bumped(c: (u64, u64), wire_len: u64) -> (u64, u64) {
    ((c.0 + 1) as u64, (c.1 + wire_len) as u64)
}

/// Whether record `a` ranks at or above record `b`: more packets, or as
/// many packets and at least as many bytes.
pub open spec fn ranks_above(a: SessionRecord, b: SessionRecord) -> bool {
    a.packets > b.packets || (a.packets == b.packets && a.bytes >= b.bytes)
}

/// Whether `idx` is a ranking of the `n` busiest records: `min(n, len)`
/// distinct positions, ordered from the busiest down, and no record left
/// out ranks above one that was taken.
pub open spec fn is_top_selection(recs: Seq<SessionRecord>, n: int, idx: Seq<usize>) -> bool {
    &&& idx.len() == (if n < recs.len() { n } else { recs.len() as int })
    &&& forall|i: int| 0 <= i < idx.len() ==> #[trigger] idx[i] < recs.len()
    &&& forall|i: int, j: int| 0 <= i < j < idx.len() ==> #[trigger] idx[i] != #[trigger] idx[j]
    &&& forall|i: int, j: int| 0 <= i < j < idx.len() ==> ranks_above(recs[#[trigger] idx[i] as int], recs[#[trigger] idx[j] as int])
    &&& forall|k: int, i: int|
        0 <= k < recs.len() && 0 <= i < idx.len() && !idx.contains(k as usize) ==> ranks_above(
            #[trigger] recs[idx[i] as int],
            #[trigger] recs[k],
        )
}

/// Packet and byte counters by protocol class, and per-session totals.
pub struct StatAccumulator {
    pub total_packets: u64,
    pub total_bytes: u64,
    pub ipv4_tcp: (u64, u64),
    pub ipv4_udp: (u64, u64),
    pub ipv4_icmp: (u64, u64),
    pub ipv4_other: (u64, u64),
    pub ipv6_tcp: (u64, u64),
    pub ipv6_udp: (u64, u64),
    pub ipv6_icmp6: (u64, u64),
    pub ipv6_other: (u64, u64),
    pub arp: (u64, u64),
    pub other: (u64, u64),
    /// Sessions in the order they were first seen, each key once.
    pub sessions: Vec<(SessionKey, SessionRecord)>,
}

/// What counting one frame `raw` of `wire_len` bytes does: the totals grow
/// by one packet and `wire_len` bytes, the frame's class
/// (`packet_category`) grows likewise and no other class changes, and the
/// frame's session, when it has one (`packet_session`), grows or is added.
pub open spec fn feed_outcome(before: StatAccumulator, after: StatAccumulator, raw: Seq<u8>, wire_len: u64) -> bool {
    &&& after.total_packets == before.total_packets + 1
    &&& after.total_bytes == before.total_bytes + wire_len
    &&& forall|c: Category|
        #[trigger] after.count_of(c) == (if c == packet_category(raw) {
            bumped(before.count_of(c), wire_len)
        } else {
            before.count_of(c)
        })
    &&& after.session_view() == (match packet_session(raw) {
        Some(key) => upsert(before.session_view(), key, wire_len),
        None => before.session_view(),
    })
}

/// One counted frame adds one packet and its bytes to the totals and to
/// exactly one class, the frame's own; the other classes stay as they were,
/// so the totals still equal the class sums. The session records together
/// gain one packet when the frame has a session, and none otherwise.
pub proof fn law_feed_counts_one_class(before: StatAccumulator, after: StatAccumulator, raw: Seq<u8>, wire_len: u64)
    requires
        before.wf(),
        before.has_room(wire_len),
        feed_outcome(before, after, raw, wire_len),
    ensures
        after.total_packets == before.total_packets + 1,
        after.total_bytes == before.total_bytes + wire_len,
        after.count_of(packet_category(raw)).0 == before.count_of(packet_category(raw)).0 + 1,
        after.count_of(packet_category(raw)).1 == before.count_of(packet_category(raw)).1 + wire_len,
        forall|c: Category| c != packet_category(raw) ==> #[trigger] after.count_of(c) == before.count_of(c),
        after.total_packets == after.class_packets(),
        after.total_bytes == after.class_bytes(),
        session_packets(after.session_view()) == session_packets(before.session_view()) + (if packet_session(raw) is Some {
            1int
        } else {
            0int
        }),
{
    let cat = packet_category(raw);
    assert(before.count_of(cat).0 <= before.class_packets() && before.count_of(cat).1 <= before.class_bytes()) by {
        match cat {
            Category::Ipv4Tcp => {},
            Category::Ipv4Udp => {},
            Category::Ipv4Icmp => {},
            Category::Ipv4Other => {},
            Category::Ipv6Tcp => {},
            Category::Ipv6Udp => {},
            Category::Ipv6Icmp6 => {},
            Category::Ipv6Other => {},
            Category::Arp => {},
            Category::Other => {},
        }
    }
    lemma_one_class_bumped(before, after, cat, wire_len);
    assert(after.count_of(cat) == bumped(before.count_of(cat), wire_len));
    if let Some(key) = packet_session(raw) {
        let sv = before.session_view();
        assert(distinct_sessions(sv)) by {
            assert forall|i: int, j: int| 0 <= i < j < sv.len() implies #[trigger] sv[i].0 != #[trigger] sv[j].0 by {
                assert(sv[i].0 == before.sessions@[i].0@);
                assert(sv[j].0 == before.sessions@[j].0@);
            }
        }
        if exists|i: int| 0 <= i < sv.len() && #[trigger] sv[i].0 == key {
            let i = choose|i: int| 0 <= i < sv.len() && #[trigger] sv[i].0 == key;
            assert(sv[i].1 == before.sessions@[i].1);
            assert(before.sessions_have_room(wire_len));
            assert(before.sessions@[i].1.packets < u64::MAX);
        }
        law_upsert_counts_one_packet(sv, key, wire_len);
    }
}

/// The class of an accepted frame is fixed by its EtherType and protocol
/// number: for an accepted IPv4 header the protocol byte (6 TCP, 17 UDP,
/// 1 ICMP, else other), for an accepted IPv6 header the next-header byte
/// (6 TCP, 17 UDP, 58 ICMPv6, else other); ARP frames are ARP; a rejected
/// IP header, another EtherType or a rejected frame counts as other.
pub proof fn law_class_follows_protocol_number(raw: Seq<u8>)
    ensures
        ethernet_error(raw) is Some ==> packet_category(raw) == Category::Other,
        ethernet_error(raw) is None && payload_ethertype(raw) == 0x0800 && ipv4_error(frame_payload(raw)) is None
            ==> packet_category(raw) == (if frame_payload(raw)[9] == 6 {
            Category::Ipv4Tcp
        } else if frame_payload(raw)[9] == 17 {
            Category::Ipv4Udp
        } else if frame_payload(raw)[9] == 1 {
            Category::Ipv4Icmp
        } else {
            Category::Ipv4Other
        }),
        ethernet_error(raw) is None && payload_ethertype(raw) == 0x86DD && ipv6_error(frame_payload(raw)) is None
            ==> packet_category(raw) == (if frame_payload(raw)[6] == 6 {
            Category::Ipv6Tcp
        } else if frame_payload(raw)[6] == 17 {
            Category::Ipv6Udp
        } else if frame_payload(raw)[6] == 58 {
            Category::Ipv6Icmp6
        } else {
            Category::Ipv6Other
        }),
        ethernet_error(raw) is None && payload_ethertype(raw) == 0x0806 ==> packet_category(raw) == Category::Arp,
        ethernet_error(raw) is None && (payload_ethertype(raw) == 0x0800 && ipv4_error(frame_payload(raw)) is Some
            || payload_ethertype(raw) == 0x86DD && ipv6_error(frame_payload(raw)) is Some || payload_ethertype(raw)
            != 0x0800 && payload_ethertype(raw) != 0x86DD && payload_ethertype(raw) != 0x0806) ==> packet_category(raw)
            == Category::Other,
{
}

/// A frame's class and its session agree: a frame with a TCP session is
/// counted as TCP, one with a UDP session as UDP, one with an ICMP or ICMPv6
/// session as ICMP or ICMPv6, and one with an ARP session as ARP; the IP
/// version of the class is the frame's.
pub proof fn law_class_agrees_with_session(raw: Seq<u8>)
    ensures
        packet_session(raw) matches Some(key) ==> {
            &&& key.protocol == 6 ==> (packet_category(raw) == Category::Ipv4Tcp || packet_category(raw) == Category::Ipv6Tcp)
            &&& key.protocol == 17 ==> (packet_category(raw) == Category::Ipv4Udp || packet_category(raw)
                == Category::Ipv6Udp)
            &&& key.protocol == 1 ==> packet_category(raw) == Category::Ipv4Icmp
            &&& key.protocol == 58 ==> packet_category(raw) == Category::Ipv6Icmp6
            &&& key.protocol == ARP_PROTO ==> packet_category(raw) == Category::Arp
            &&& payload_ethertype(raw) == 0x0800 ==> (packet_category(raw) == Category::Ipv4Tcp || packet_category(raw)
                == Category::Ipv4Udp || packet_category(raw) == Category::Ipv4Icmp)
            &&& payload_ethertype(raw) == 0x86DD ==> (packet_category(raw) == Category::Ipv6Tcp || packet_category(raw)
                == Category::Ipv6Udp || packet_category(raw) == Category::Ipv6Icmp6)
        },
{
}

/// The packets of all session records together.
pub open spec fn session_packets(s: Seq<(SessionId, SessionRecord)>) -> int
    decreases s.len(),
{
    if s.len() == 0 {
        0
    } else {
        session_packets(s.drop_last()) + s.last().1.packets
    }
}

/// Replacing one record changes the packet sum by the difference.
proof fn lemma_session_packets_update(s: Seq<(SessionId, SessionRecord)>, i: int, e: (SessionId, SessionRecord))
    requires
        0 <= i < s.len(),
    ensures
        session_packets(s.update(i, e)) == session_packets(s) - s[i].1.packets + e.1.packets,
    decreases s.len(),
{
    let t = s.update(i, e);
    if i == s.len() - 1 {
        assert(t.drop_last() =~= s.drop_last());
    } else {
        assert(t.drop_last() =~= s.drop_last().update(i, e));
        lemma_session_packets_update(s.drop_last(), i, e);
    }
}

/// When one class gains a packet of `wire_len` bytes and the others stay,
/// the class sums grow by one packet and `wire_len` bytes.
proof fn lemma_one_class_bumped(before: StatAccumulator, after: StatAccumulator, cat: Category, wire_len: u64)
    requires
        before.count_of(cat).0 < u64::MAX,
        before.count_of(cat).1 + wire_len <= u64::MAX,
        forall|c: Category|
            #[trigger] after.count_of(c) == (if c == cat {
                bumped(before.count_of(c), wire_len)
            } else {
                before.count_of(c)
            }),
    ensures
        after.class_packets() == before.class_packets() + 1,
        after.class_bytes() == before.class_bytes() + wire_len,
{
    assert(after.count_of(cat) == bumped(before.count_of(cat), wire_len));
}

/// Adds one packet of `wire_len` bytes to a counter pair.
fn bump(c: &mut (u64, u64), wire_len: u64)
    requires
        old(c).0 < u64::MAX,
        old(c).1 + wire_len <= u64::MAX,
    ensures
        *final(c) == bumped(*old(c), wire_len),
{
    c.0 = c.0 + 1;
    c.1 = c.1 + wire_len;
}

impl StatAccumulator {
    /// The counter pair of a class.
    pub open spec fn count_of(&self, c: Category) -> (u64, u64) {
        match c {
            Category::Ipv4Tcp => self.ipv4_tcp,
            Category::Ipv4Udp => self.ipv4_udp,
            Category::Ipv4Icmp => self.ipv4_icmp,
            Category::Ipv4Other => self.ipv4_other,
            Category::Ipv6Tcp => self.ipv6_tcp,
            Category::Ipv6Udp => self.ipv6_udp,
            Category::Ipv6Icmp6 => self.ipv6_icmp6,
            Category::Ipv6Other => self.ipv6_other,
            Category::Arp => self.arp,
            Category::Other => self.other,
        }
    }

    /// The sum of the packet counters of all classes.
    pub open spec fn class_packets(&self) -> int {
        self.count_of(Category::Ipv4Tcp).0 + self.count_of(Category::Ipv4Udp).0 + self.count_of(Category::Ipv4Icmp).0
            + self.count_of(Category::Ipv4Other).0 + self.count_of(Category::Ipv6Tcp).0 + self.count_of(Category::Ipv6Udp).0
            + self.count_of(Category::Ipv6Icmp6).0 + self.count_of(Category::Ipv6Other).0 + self.count_of(Category::Arp).0
            + self.count_of(Category::Other).0
    }

    /// The sum of the byte counters of all classes.
    pub open spec fn class_bytes(&self) -> int {
        self.count_of(Category::Ipv4Tcp).1 + self.count_of(Category::Ipv4Udp).1 + self.count_of(Category::Ipv4Icmp).1
            + self.count_of(Category::Ipv4Other).1 + self.count_of(Category::Ipv6Tcp).1 + self.count_of(Category::Ipv6Udp).1
            + self.count_of(Category::Ipv6Icmp6).1 + self.count_of(Category::Ipv6Other).1 + self.count_of(Category::Arp).1
            + self.count_of(Category::Other).1
    }

    /// The sessions as values, in the order they were first seen.
    pub open spec fn session_view(&self) -> Seq<(SessionId, SessionRecord)> {
        self.sessions@.map_values(|e: (SessionKey, SessionRecord)| (e.0@, e.1))
    }

    /// The session records, in the order the sessions were first seen.
    pub open spec fn records(&self) -> Seq<SessionRecord> {
        self.sessions@.map_values(|e: (SessionKey, SessionRecord)| e.1)
    }

    /// No session key occurs twice.
    pub open spec fn keys_distinct(&self) -> bool {
        forall|i: int, j: int|
            0 <= i < j < self.sessions@.len() ==> #[trigger] self.sessions@[i].0@ != #[trigger] self.sessions@[j].0@
    }

    /// Well-formed: distinct session keys, and every packet and byte counted
    /// in exactly one class.
    pub open spec fn wf(&self) -> bool {
        &&& self.keys_distinct()
        &&& self.total_packets == self.class_packets()
        &&& self.total_bytes == self.class_bytes()
    }

    /// Every session record can take one more packet of `bytes` bytes.
    pub open spec fn sessions_have_room(&self, bytes: u64) -> bool {
        forall|i: int|
            0 <= i < self.sessions@.len() ==> (#[trigger] self.sessions@[i]).1.packets < u64::MAX
                && self.sessions@[i].1.bytes + bytes <= u64::MAX
    }

    /// The totals and every session can take one more packet of `wire_len`
    /// bytes.
    pub open spec fn has_room(&self, wire_len: u64) -> bool {
        &&& self.total_packets < u64::MAX
        &&& self.total_bytes + wire_len <= u64::MAX
        &&& self.sessions_have_room(wire_len)
    }

    /// Nothing counted.
    pub open spec fn is_empty(&self) -> bool {
        &&& self.total_packets == 0
        &&& self.total_bytes == 0
        &&& forall|c: Category| #[trigger] self.count_of(c) == (0u64, 0u64)
        &&& self.sessions@.len() == 0
    }

    /// An accumulator with nothing counted.
    pub fn new() -> (r: Self)
        ensures
            r.wf(),
            r.is_empty(),
    {
        StatAccumulator {
            total_packets: 0,
            total_bytes: 0,
            ipv4_tcp: (0, 0),
            ipv4_udp: (0, 0),
            ipv4_icmp: (0, 0),
            ipv4_other: (0, 0),
            ipv6_tcp: (0, 0),
            ipv6_udp: (0, 0),
            ipv6_icmp6: (0, 0),
            ipv6_other: (0, 0),
            arp: (0, 0),
            other: (0, 0),
            sessions: Vec::new(),
        }
    }

    /// Clears every counter and session.
    pub fn reset(&mut self)
        ensures
            final(self).wf(),
            final(self).is_empty(),
    {
        *self = Self::new();
    }

    /// Whether one more packet of `wire_len` bytes can be counted.
    pub fn can_feed(&self, wire_len: u64) -> (r: bool)
        ensures
            r == self.has_room(wire_len),
    {
        if self.total_packets == u64::MAX || self.total_bytes > u64::MAX - wire_len {
            return false;
        }
        let mut i: usize = 0;
        while i < self.sessions.len()
            invariant
                i <= self.sessions@.len(),
                forall|k: int| 0 <= k < i ==> (#[trigger] self.sessions@[k]).1.packets < u64::MAX
                    && self.sessions@[k].1.bytes + wire_len <= u64::MAX,
            decreases self.sessions@.len() - i,
        {
            let rec = self.sessions[i].1;
            if rec.packets == u64::MAX || rec.bytes > u64::MAX - wire_len {
                return false;
            }
            i = i + 1;
        }
        true
    }

    /// Counts one captured frame of `wire_len` bytes on the wire: the
    /// totals grow, the frame's class grows (`packet_category`), and the
    /// frame's session, when it has one (`packet_session`), grows or is
    /// added.
    pub fn feed(&mut self, raw: &[u8], wire_len: u64)
        requires
            old(self).wf(),
            old(self).has_room(wire_len),
        ensures
            final(self).wf(),
            feed_outcome(*old(self), *final(self), raw@, wire_len),
    {
        match EthernetFrame::parse(raw) {
            Ok(eth) => {
                assert(eth.payload@ == frame_payload(raw@));
                if eth.ethernet_type == 0x0800 {
                    self.feed_ipv4(eth.payload, wire_len);
                } else if eth.ethernet_type == 0x86DD {
                    self.feed_ipv6(eth.payload, wire_len);
                } else if eth.ethernet_type == 0x0806 {
                    self.feed_arp(eth.payload, wire_len);
                } else {
                    bump(&mut self.other, wire_len);
                }
            },
            Err(_) => bump(&mut self.other, wire_len),
        }
        assert(forall|c: Category|
            #[trigger] self.count_of(c) == (if c == packet_category(raw@) {
                bumped(old(self).count_of(c), wire_len)
            } else {
                old(self).count_of(c)
            }));
        proof {
            lemma_one_class_bumped(*old(self), *self, packet_category(raw@), wire_len);
        }
        self.total_packets = self.total_packets + 1;
        self.total_bytes = self.total_bytes + wire_len;
    }

    /// Counts an IPv4 payload in its class (`ipv4_category`) and, when it
    /// has one, its session; the totals are left to `feed`.
    pub fn feed_ipv4(&mut self, payload: &[u8], wire_len: u64)
        requires
            old(self).wf(),
            old(self).has_room(wire_len),
        ensures
            final(self).keys_distinct(),
            final(self).total_packets == old(self).total_packets,
            final(self).total_bytes == old(self).total_bytes,
            forall|c: Category|
                #[trigger] final(self).count_of(c) == (if c == ipv4_category(payload@) {
                    bumped(old(self).count_of(c), wire_len)
                } else {
                    old(self).count_of(c)
                }),
            final(self).session_view() == (if ipv4_error(payload@) is None {
                match ip_session(
                    dotted_dec(payload@.subrange(12, 16)),
                    dotted_dec(payload@.subrange(16, 20)),
                    payload@[9],
                    1,
                    ipv4_payload(payload@),
                ) {
                    Some(key) => upsert(old(self).session_view(), key, wire_len),
                    None => old(self).session_view(),
                }
            } else {
                old(self).session_view()
            }),
    {
        let ip = match IPv4Packet::parse(payload) {
            Ok(p) => p,
            Err(_) => {
                bump(&mut self.other, wire_len);
                return;
            },
        };
        let src_ip = IPv4Packet::format_ip(&ip.src_ip);
        let dst_ip = IPv4Packet::format_ip(&ip.dst_ip);
        if ip.next_protocol == 6 {
            bump(&mut self.ipv4_tcp, wire_len);
            if let Ok(tcp) = TCPSegment::parse(ip.payload) {
                self.upsert_session(src_ip, dst_ip, 6, tcp.src_port, tcp.dst_port, wire_len);
            }
        } else if ip.next_protocol == 17 {
            bump(&mut self.ipv4_udp, wire_len);
            if let Ok(udp) = UDPSegment::parse(ip.payload) {
                self.upsert_session(src_ip, dst_ip, 17, udp.src_port, udp.dst_port, wire_len);
            }
        } else if ip.next_protocol == 1 {
            bump(&mut self.ipv4_icmp, wire_len);
            if let Some((t, c)) = parse_icmp(ip.payload) {
                self.upsert_session(src_ip, dst_ip, 1, read_be16(t, c), 0, wire_len);
            }
        } else {
            bump(&mut self.ipv4_other, wire_len);
        }
    }

    /// Counts an IPv6 payload in its class (`ipv6_category`) and, when it
    /// has one, its session; the totals are left to `feed`.
    pub fn feed_ipv6(&mut self, payload: &[u8], wire_len: u64)
        requires
            old(self).wf(),
            old(self).has_room(wire_len),
        ensures
            final(self).keys_distinct(),
            final(self).total_packets == old(self).total_packets,
            final(self).total_bytes == old(self).total_bytes,
            forall|c: Category|
                #[trigger] final(self).count_of(c) == (if c == ipv6_category(payload@) {
                    bumped(old(self).count_of(c), wire_len)
                } else {
                    old(self).count_of(c)
                }),
            final(self).session_view() == (if ipv6_error(payload@) is None {
                match ip_session(
                    ipv6_text(payload@.subrange(8, 24)),
                    ipv6_text(payload@.subrange(24, 40)),
                    payload@[6],
                    58,
                    payload@.subrange(40, 40 + ipv6_payload_len(payload@)),
                ) {
                    Some(key) => upsert(old(self).session_view(), key, wire_len),
                    None => old(self).session_view(),
                }
            } else {
                old(self).session_view()
            }),
    {
        let ip = match IPv6Packet::parse(payload) {
            Ok(p) => p,
            Err(_) => {
                bump(&mut self.other, wire_len);
                return;
            },
        };
        let src_ip = IPv6Packet::format_ip(&ip.src_ip);
        let dst_ip = IPv6Packet::format_ip(&ip.dst_ip);
        if ip.next_header == 6 {
            bump(&mut self.ipv6_tcp, wire_len);
            if let Ok(tcp) = TCPSegment::parse(ip.payload) {
                self.upsert_session(src_ip, dst_ip, 6, tcp.src_port, tcp.dst_port, wire_len);
            }
        } else if ip.next_header == 17 {
            bump(&mut self.ipv6_udp, wire_len);
            if let Ok(udp) = UDPSegment::parse(ip.payload) {
                self.upsert_session(src_ip, dst_ip, 17, udp.src_port, udp.dst_port, wire_len);
            }
        } else if ip.next_header == 58 {
            bump(&mut self.ipv6_icmp6, wire_len);
            if let Some((t, c)) = parse_icmp(ip.payload) {
                self.upsert_session(src_ip, dst_ip, 58, read_be16(t, c), 0, wire_len);
            }
        } else {
            bump(&mut self.ipv6_other, wire_len);
        }
    }

    /// Counts an ARP payload; the Ethernet/IPv4 form also counts a session.
    /// The totals are left to `feed`.
    pub fn feed_arp(&mut self, payload: &[u8], wire_len: u64)
        requires
            old(self).wf(),
            old(self).has_room(wire_len),
        ensures
            final(self).keys_distinct(),
            final(self).total_packets == old(self).total_packets,
            final(self).total_bytes == old(self).total_bytes,
            forall|c: Category|
                #[trigger] final(self).count_of(c) == (if c == Category::Arp {
                    bumped(old(self).count_of(c), wire_len)
                } else {
                    old(self).count_of(c)
                }),
            final(self).session_view() == (match arp_session(payload@) {
                Some(key) => upsert(old(self).session_view(), key, wire_len),
                None => old(self).session_view(),
            }),
    {
        bump(&mut self.arp, wire_len);
        if let Some(info) = parse_arp(payload) {
            let src = IPv4Packet::format_ip(&info.src_ip);
            let dst = IPv4Packet::format_ip(&info.dst_ip);
            let hint = read_be16(info.dst_mac[4], info.dst_mac[5]);
            self.upsert_session(src, dst, ARP_PROTO, info.operation, hint, wire_len);
        }
    }

    /// The position of a session key.
    fn find_session(&self, key: &SessionKey) -> (r: Option<usize>)
        requires
            self.keys_distinct(),
        ensures
            match r {
                Some(i) => i < self.sessions@.len() && self.sessions@[i as int].0@ == key@,
                None => forall|k: int| 0 <= k < self.sessions@.len() ==> #[trigger] self.sessions@[k].0@ != key@,
            },
    {
        let mut i: usize = 0;
        while i < self.sessions.len()
            invariant
                i <= self.sessions@.len(),
                forall|k: int| 0 <= k < i ==> #[trigger] self.sessions@[k].0@ != key@,
            decreases self.sessions@.len() - i,
        {
            if self.sessions[i].0.same(key) {
                return Some(i);
            }
            i = i + 1;
        }
        None
    }

    /// Adds one packet of `bytes` bytes to the session of the given key,
    /// creating the session when it is new.
    pub fn upsert_session(&mut self, src_ip: String, dst_ip: String, protocol: u8, src_port: u16, dst_port: u16, bytes: u64)
        requires
            old(self).keys_distinct(),
            old(self).sessions_have_room(bytes),
        ensures
            final(self).keys_distinct(),
            final(self).session_view() == upsert(
                old(self).session_view(),
                SessionId { src_ip: src_ip@, dst_ip: dst_ip@, protocol, src_port, dst_port },
                bytes,
            ),
            final(self).total_packets == old(self).total_packets,
            final(self).total_bytes == old(self).total_bytes,
            forall|c: Category| #[trigger] final(self).count_of(c) == old(self).count_of(c),
    {
        let key = SessionKey { src_ip, dst_ip, protocol, src_port, dst_port };
        let ghost kv = key@;
        let ghost before = self.session_view();
        let ghost old_sessions = self.sessions@;
        match self.find_session(&key) {
            Some(i) => {
                let rec = self.sessions[i].1;
                let updated = SessionRecord { packets: rec.packets + 1, bytes: rec.bytes + bytes };
                self.sessions.set(i, (key, updated));
                proof {
                    assert(before[i as int].0 == kv);
                    assert(exists|j: int| 0 <= j < before.len() && #[trigger] before[j].0 == kv);
                    let j = choose|j: int| 0 <= j < before.len() && #[trigger] before[j].0 == kv;
                    if j != i {
                        if j < i {
                            assert(old_sessions[j].0@ != old_sessions[i as int].0@);
                        } else {
                            assert(old_sessions[i as int].0@ != old_sessions[j].0@);
                        }
                    }
                    assert(self.session_view() =~= upsert(before, kv, bytes));
                    assert forall|a: int, b: int| 0 <= a < b < self.sessions@.len() implies #[trigger] self.sessions@[a].0@
                        != #[trigger] self.sessions@[b].0@ by {
                        assert(self.sessions@[a].0@ == old_sessions[a].0@);
                        assert(self.sessions@[b].0@ == old_sessions[b].0@);
                    }
                }
            },
            None => {
                self.sessions.push((key, SessionRecord { packets: 1, bytes }));
                proof {
                    assert(!(exists|j: int| 0 <= j < before.len() && #[trigger] before[j].0 == kv));
                    assert(self.session_view() =~= upsert(before, kv, bytes));
                    assert forall|a: int, b: int| 0 <= a < b < self.sessions@.len() implies #[trigger] self.sessions@[a].0@
                        != #[trigger] self.sessions@[b].0@ by {
                        if b == self.sessions@.len() - 1 {
                            assert(self.sessions@[a].0@ == old_sessions[a].0@);
                        } else {
                            assert(self.sessions@[a] == old_sessions[a]);
                            assert(self.sessions@[b] == old_sessions[b]);
                        }
                    }
                }
            },
        }
    }

    /// The positions of the `n` busiest sessions, from the busiest down (by
    /// packets, then bytes).
    pub fn top_indices(&self, n: usize) -> (idx: Vec<usize>)
        ensures
            is_top_selection(self.records(), n as int, idx@),
    {
        let len = self.sessions.len();
        let ghost recs = self.records();
        let want = if n < len { n } else { len };
        let mut taken: Vec<bool> = Vec::new();
        let mut k: usize = 0;
        while k < len
            invariant
                k <= len,
                taken@.len() == k,
                forall|j: int| 0 <= j < k ==> !(#[trigger] taken@[j]),
            decreases len - k,
        {
            taken.push(false);
            k = k + 1;
        }
        let mut idx: Vec<usize> = Vec::new();
        while idx.len() < want
            invariant
                len == self.sessions@.len(),
                recs == self.records(),
                recs.len() == len,
                want <= len,
                want == (if n < len { n } else { len }),
                idx@.len() <= want,
                taken@.len() == len,
                forall|j: int| 0 <= j < len ==> (#[trigger] taken@[j] <==> idx@.contains(j as usize)),
                forall|i: int| 0 <= i < idx@.len() ==> #[trigger] idx@[i] < len,
                forall|i: int, j: int| 0 <= i < j < idx@.len() ==> #[trigger] idx@[i] != #[trigger] idx@[j],
                forall|i: int, j: int|
                    0 <= i < j < idx@.len() ==> ranks_above(recs[#[trigger] idx@[i] as int], recs[#[trigger] idx@[j] as int]),
                forall|k2: int, i: int|
                    0 <= k2 < len && 0 <= i < idx@.len() && !idx@.contains(k2 as usize) ==> ranks_above(
                        #[trigger] recs[idx@[i] as int],
                        #[trigger] recs[k2],
                    ),
            decreases want - idx@.len(),
        {
            // Some session is still free: fewer are taken than exist.
            let mut best: usize = len;
            let mut j: usize = 0;
            while j < len
                invariant
                    len == self.sessions@.len(),
                    recs == self.records(),
                    recs.len() == len,
                    taken@.len() == len,
                    j <= len,
                    best == len || (best < j && !taken@[best as int]),
                    best < len ==> forall|m: int| 0 <= m < j && !taken@[m] ==> ranks_above(recs[best as int], #[trigger] recs[m]),
                    best == len ==> forall|m: int| 0 <= m < j ==> #[trigger] taken@[m],
                decreases len - j,
            {
                if !taken[j] {
                    let cand = self.sessions[j].1;
                    assert(recs[j as int] == cand);
                    if best == len {
                        best = j;
                    } else {
                        let cur = self.sessions[best].1;
                        assert(recs[best as int] == cur);
                        if cand.packets > cur.packets || (cand.packets == cur.packets && cand.bytes > cur.bytes) {
                            best = j;
                        }
                    }
                }
                j = j + 1;
            }
            proof {
                if best == len {
                    // Every session taken, yet fewer than `want` taken.
                    self.lemma_all_taken(idx@, taken@, len as int);
                    assert(false);
                }
            }
            let ghost before = idx@;
            taken.set(best, true);
            idx.push(best);
            proof {
                assert(idx@ == before.push(best));
                assert forall|m: int| 0 <= m < len implies (#[trigger] taken@[m] <==> idx@.contains(m as usize)) by {
                    if m == best as int {
                        assert(idx@[before.len() as int] == best);
                    } else {
                        if idx@.contains(m as usize) {
                            let w = choose|w: int| 0 <= w < idx@.len() && idx@[w] == m as usize;
                            assert(w < before.len());
                            assert(before.contains(m as usize));
                        }
                        if before.contains(m as usize) {
                            let w = choose|w: int| 0 <= w < before.len() && before[w] == m as usize;
                            assert(idx@[w] == m as usize);
                        }
                    }
                }
                assert forall|a: int, b: int| 0 <= a < b < idx@.len() implies #[trigger] idx@[a] != #[trigger] idx@[b] by {
                    if b == before.len() {
                        assert(before.contains(idx@[a]));
                        assert(taken@[idx@[a] as int]);
                    }
                }
                assert forall|a: int, b: int| 0 <= a < b < idx@.len() implies ranks_above(
                    recs[#[trigger] idx@[a] as int],
                    recs[#[trigger] idx@[b] as int],
                ) by {
                    if b == before.len() {
                        assert(!before.contains(best));
                    }
                }
                assert forall|k2: int, i: int|
                    0 <= k2 < len && 0 <= i < idx@.len() && !idx@.contains(k2 as usize) implies ranks_above(
                    #[trigger] recs[idx@[i] as int],
                    #[trigger] recs[k2],
                ) by {
                    assert(!before.contains(k2 as usize)) by {
                        if before.contains(k2 as usize) {
                            let w = choose|w: int| 0 <= w < before.len() && before[w] == k2 as usize;
                            assert(idx@[w] == k2 as usize);
                        }
                    }
                    if i == before.len() {
                        assert(!taken@[k2]);
                    }
                }
            }
        }
        idx
    }

    /// Every position below `len` is taken, so at least `len` distinct
    /// positions are in `idx`.
    proof fn lemma_all_taken(&self, idx: Seq<usize>, taken: Seq<bool>, len: int)
        requires
            taken.len() == len,
            len <= usize::MAX,
            forall|m: int| 0 <= m < len ==> #[trigger] taken[m],
            forall|j: int| 0 <= j < len ==> (#[trigger] taken[j] <==> idx.contains(j as usize)),
            forall|i: int| 0 <= i < idx.len() ==> #[trigger] idx[i] < len,
            forall|i: int, j: int| 0 <= i < j < idx.len() ==> #[trigger] idx[i] != #[trigger] idx[j],
        ensures
            idx.len() >= len,
    {
        let s = Set::new(|m: int| 0 <= m < len);
        let mv = idx.map_values(|u: usize| u as int);
        let t = mv.to_set();
        assert(s =~= t) by {
            assert forall|m: int| s.contains(m) implies t.contains(m) by {
                assert(taken[m]);
                assert(idx.contains(m as usize));
                let w = choose|w: int| 0 <= w < idx.len() && #[trigger] idx[w] == m as usize;
                assert(mv[w] == m);
            }
            assert forall|m: int| t.contains(m) implies s.contains(m) by {
                let w = choose|w: int| 0 <= w < mv.len() && #[trigger] mv[w] == m;
                assert(idx[w] < len);
            }
        }
        assert forall|i: int, j: int| 0 <= i < mv.len() && 0 <= j < mv.len() && i != j implies mv[i] != mv[j] by {
            if i < j {
                assert(idx[i] != idx[j]);
            } else {
                assert(idx[j] != idx[i]);
            }
        }
        vstd::set_lib::lemma_int_range(0, len);
        assert(s =~= vstd::set_lib::set_int_range(0, len));
        mv.unique_seq_to_set();
    }

    /// The `n` busiest sessions, from the busiest down (by packets, then
    /// bytes); fewer when there are fewer sessions.
    pub fn top_sessions(&self, n: usize) -> (r: Vec<(&SessionKey, &SessionRecord)>)
        ensures
            exists|idx: Seq<usize>|
                #![trigger is_top_selection(self.records(), n as int, idx)]
                is_top_selection(self.records(), n as int, idx) && r@.len() == idx.len() && forall|i: int|
                    0 <= i < idx.len() ==> *r@[i].0 == self.sessions@[#[trigger] idx[i] as int].0 && *r@[i].1
                        == self.sessions@[idx[i] as int].1,
    {
        let idx = self.top_indices(n);
        let mut out: Vec<(&SessionKey, &SessionRecord)> = Vec::new();
        let mut i: usize = 0;
        while i < idx.len()
            invariant
                i <= idx@.len(),
                is_top_selection(self.records(), n as int, idx@),
                out@.len() == i,
                forall|m: int|
                    0 <= m < i ==> *out@[m].0 == self.sessions@[#[trigger] idx@[m] as int].0 && *out@[m].1
                        == self.sessions@[idx@[m] as int].1,
            decreases idx@.len() - i,
        {
            assert(idx@[i as int] < self.records().len());
            let entry = &self.sessions[idx[i]];
            out.push((&entry.0, &entry.1));
            i = i + 1;
        }
        out
    }
}

/// Type and code of an ICMP or ICMPv6 message, which needs 8 bytes.
pub fn parse_icmp(raw: &[u8]) -> (r: Option<(u8, u8)>)
    ensures
        r is Some <==> raw@.len() >= 8,
        r matches Some(tc) ==> tc.0 == raw@[0] && tc.1 == raw@[1],
{
    if raw.len() < 8 {
        return None;
    }
    Some((raw[0], raw[1]))
}

/// The fields of an ARP message in the Ethernet/IPv4 form.
pub struct ArpInfo {
    pub src_mac: [u8; 6],
    pub dst_mac: [u8; 6],
    pub src_ip: [u8; 4],
    pub dst_ip: [u8; 4],
    pub operation: u16,
}

impl ArpInfo {
    /// The fields of the payload `p`.
    pub open spec fn decodes(self, p: Seq<u8>) -> bool {
        &&& self.src_mac@ == p.subrange(8, 14)
        &&& self.src_ip@ == p.subrange(14, 18)
        &&& self.dst_mac@ == p.subrange(18, 24)
        &&& self.dst_ip@ == p.subrange(24, 28)
        &&& self.operation == be16u(p[6], p[7])
    }
}

/// Reads an ARP message of the Ethernet (hardware type 1, length 6) and
/// IPv4 (protocol type 0x0800, length 4) form, which needs 28 bytes; any
/// other form gives `None`.
pub fn parse_arp(raw: &[u8]) -> (r: Option<ArpInfo>)
    ensures
        r is Some <==> arp_ipv4_form(raw@),
        r matches Some(info) ==> info.decodes(raw@),
{
    if raw.len() < 28 {
        return None;
    }
    let htype = read_be16(raw[0], raw[1]);
    let ptype = read_be16(raw[2], raw[3]);
    if htype != 1 || ptype != 0x0800 || raw[4] != 6 || raw[5] != 4 {
        return None;
    }
    let info = ArpInfo {
        src_mac: [raw[8], raw[9], raw[10], raw[11], raw[12], raw[13]],
        src_ip: [raw[14], raw[15], raw[16], raw[17]],
        dst_mac: [raw[18], raw[19], raw[20], raw[21], raw[22], raw[23]],
        dst_ip: [raw[24], raw[25], raw[26], raw[27]],
        operation: read_be16(raw[6], raw[7]),
    };
    assert(info.src_mac@ =~= raw@.subrange(8, 14));
    assert(info.src_ip@ =~= raw@.subrange(14, 18));
    assert(info.dst_mac@ =~= raw@.subrange(18, 24));
    assert(info.dst_ip@ =~= raw@.subrange(24, 28));
    Some(info)
}

/// The short name of a session's protocol number.
pub open spec fn protocol_label_of(protocol: u8) -> Seq<char> {
    if protocol == 6 {
        "TCP"@
    } else if protocol == 17 {
        "UDP"@
    } else if protocol == 1 {
        "ICMP"@
    } else if protocol == 58 {
        "ICMPv6"@
    } else if protocol == ARP_PROTO {
        "ARP"@
    } else {
        "???"@
    }
}

/// The short name of a session's protocol number (`???` when unknown).
pub fn protocol_label(protocol: u8) -> (r: &'static str)
    ensures
        r@ == protocol_label_of(protocol),
{
    if protocol == 6 {
        "TCP"
    } else if protocol == 17 {
        "UDP"
    } else if protocol == 1 {
        "ICMP"
    } else if protocol == 58 {
        "ICMPv6"
    } else if protocol == ARP_PROTO {
        "ARP"
    } else {
        "???"
    }
}

/// The detail shown beside a session: type and code of a message session,
/// operation and hardware address tail of an ARP session, nothing else.
pub open spec fn session_detail_of(protocol: u8, src_port: u16, dst_port: u16) -> Seq<char> {
    if protocol == 1 || protocol == 58 {
        "type="@ + crate::text::dec_digits((src_port / 256) as nat) + "/code="@ + crate::text::dec_digits(
            (src_port % 256) as nat,
        )
    } else if protocol == ARP_PROTO {
        (if src_port == 1 {
            "who-has"@
        } else if src_port == 2 {
            "is-at"@
        } else {
            "op?"@
        }) + " ..:"@ + pad_zero(hex_digits(dst_port as nat), 4)
    } else {
        Seq::empty()
    }
}

/// The detail shown beside a session in the ranking.
pub fn session_detail(key: &SessionKey) -> (r: String)
    ensures
        r@ == session_detail_of(key.protocol, key.src_port, key.dst_port),
{
    if key.protocol == 1 || key.protocol == 58 {
        let mut s = string_of("type=");
        push_dec(&mut s, (key.src_port / 256) as u64);
        push_lit(&mut s, "/code=");
        push_dec(&mut s, (key.src_port % 256) as u64);
        s
    } else if key.protocol == ARP_PROTO {
        let op = if key.src_port == 1 {
            "who-has"
        } else if key.src_port == 2 {
            "is-at"
        } else {
            "op?"
        };
        let mut s = string_of(op);
        push_lit(&mut s, " ..:");
        push_padded_hex(&mut s, key.dst_port as u64, 4);
        s
    } else {
        String::new()
    }
}

/// Traffic statistics over a pcap file or a live interface.
pub struct StatEngine {
    /// Interface for live statistics.
    pub interface: Option<String>,
    /// pcap file for offline statistics.
    pub file: Option<String>,
    /// Number of sessions in the ranking.
    pub top_n: usize,
    /// Report interval in seconds (live mode).
    pub interval: u64,
}

/// Where statistics are read from.
pub enum StatSource {
    /// A pcap file, read once.
    File(String),
    /// A live interface, reported at every interval.
    Live(String),
}

impl StatEngine {
    /// An engine for a valid argument set; an invalid one gives the
    /// validation message.
    pub fn new(args: &StatsArgs) -> (r: Result<StatEngine, String>)
        ensures
            match r {
                Ok(e) => stats_error(args.interface is Some, args.file is Some, args.top_n as i64 as int, args.interval as i64 as int) is None
                    && e.interface == args.interface && e.file == args.file && e.top_n == args.top_n && e.interval == args.interval,
                Err(m) => stats_error(args.interface is Some, args.file is Some, args.top_n as i64 as int, args.interval as i64 as int) == Some(m@),
            },
    {
        match args.validate() {
            Err(m) => Err(m),
            Ok(()) => Ok(StatEngine {
                interface: args.interface.clone(),
                file: args.file.clone(),
                top_n: args.top_n,
                interval: args.interval,
            }),
        }
    }

    /// The source to read: the file when one is given, else the interface.
    pub fn source(&self) -> (r: Option<StatSource>)
        ensures
            match r {
                Some(StatSource::File(f)) => self.file matches Some(g) && f@ == g@,
                Some(StatSource::Live(i)) => self.interface matches Some(j) && i@ == j@ && self.file is None,
                None => self.file is None && self.interface is None,
            },
    {
        match &self.file {
            Some(f) => Some(StatSource::File(f.clone())),
            None => match &self.interface {
                Some(i) => Some(StatSource::Live(i.clone())),
                None => None,
            },
        }
    }
}

/// State of the live statistics loop: the counters, which accumulate from
/// the start, the number of the next report, and the packet total at the
/// last report.
pub struct LiveStats {
    pub acc: StatAccumulator,
    pub round: u64,
    pub last_reported: u64,
}

impl LiveStats {
    /// Nothing counted, first report to come.
    pub fn new() -> (r: Self)
        ensures
            r.acc.wf(),
            r.acc.is_empty(),
            r.round == 1,
            r.last_reported == 0,
    {
        LiveStats { acc: StatAccumulator::new(), round: 1, last_reported: 0 }
    }

    /// The interval elapsed: the report of the returned round is due, and
    /// the next one is numbered one higher.
    pub fn interval_elapsed(&mut self) -> (report: u64)
        requires
            old(self).round < u64::MAX,
        ensures
            report == old(self).round,
            final(self).round == old(self).round + 1,
            final(self).last_reported == old(self).acc.total_packets,
            final(self).acc == old(self).acc,
    {
        let report = self.round;
        self.last_reported = self.acc.total_packets;
        self.round = self.round + 1;
        report
    }

    /// The loop stopped: a last report of the returned round is due when
    /// packets were counted since the last report.
    pub fn finish(&self) -> (r: Option<u64>)
        ensures
            r is Some <==> self.acc.total_packets > self.last_reported,
            r matches Some(round) ==> round == self.round,
    {
        if self.acc.total_packets > self.last_reported {
            Some(self.round)
        } else {
            None
        }
    }
}

} // verus!
