//! TCP stream tracking: segments are grouped by their direction-normalized
//! endpoint pair, a small state machine follows SYN, FIN and RST, and the
//! payload of each direction is reassembled by sequence number.
use vstd::prelude::*;

use crate::text::{dotted_dec, format_dotted_dec, format_ipv6_groups, ipv6_text, read_be16, be16};

verus! {

/// An IPv4 or IPv6 address.
#[derive(Debug, Clone, PartialEq, Eq, Hash)]
pub enum IpAddr {
    V4([u8; 4]),
    V6([u8; 16]),
}

impl IpAddr {
    /// The address bytes.
    pub open spec fn bytes(self) -> Seq<u8> {
        match self {
            IpAddr::V4(a) => a@,
            IpAddr::V6(a) => a@,
        }
    }

    /// An IPv4 address.
    pub fn v4(addr: [u8; 4]) -> (r: Self)
        ensures
            r == IpAddr::V4(addr),
    {
        IpAddr::V4(addr)
    }

    /// An IPv6 address.
    pub fn v6(addr: [u8; 16]) -> (r: Self)
        ensures
            r == IpAddr::V6(addr),
    {
        IpAddr::V6(addr)
    }

    /// Dotted decimal for IPv4; eight colon-separated hexadecimal groups for
    /// IPv6.
    pub fn format(&self) -> (r: String)
        ensures
            r@ == match *self {
                IpAddr::V4(a) => dotted_dec(a@),
                IpAddr::V6(a) => ipv6_text(a@),
            },
    {
        match self {
            IpAddr::V4(addr) => format_dotted_dec(addr),
            IpAddr::V6(addr) => format_ipv6_groups(addr),
        }
    }

    /// Whether two addresses are the same.
    pub fn same_as(&self, other: &IpAddr) -> (r: bool)
        ensures
            r == (*self == *other),
    {
        match (self, other) {
            (IpAddr::V4(a), IpAddr::V4(b)) => {
                let eq = bytes_equal(a, b);
                if eq {
                    assert(a@ =~= b@);
                    assert(a == b);
                }
                eq
            },
            (IpAddr::V6(a), IpAddr::V6(b)) => {
                let eq = bytes_equal(a, b);
                if eq {
                    assert(a@ =~= b@);
                    assert(a == b);
                }
                eq
            },
            _ => false,
        }
    }
}

/// Whether two byte slices hold the same bytes.
pub fn bytes_equal(a: &[u8], b: &[u8]) -> (r: bool)
    ensures
        r == (a@ == b@),
{
    if a.len() != b.len() {
        return false;
    }
    let mut i: usize = 0;
    while i < a.len()
        invariant
            i <= a@.len(),
            a@.len() == b@.len(),
            forall|k: int| 0 <= k < i ==> a@[k] == b@[k],
        decreases a@.len() - i,
    {
        if a[i] != b[i] {
            return false;
        }
        i = i + 1;
    }
    assert(a@ =~= b@);
    true
}

/// An endpoint as bytes: the address, then the port in big-endian order.
pub open spec fn endpoint_bytes(ip: IpAddr, port: u16) -> Seq<u8> {
    ip.bytes() + seq![(port / 256) as u8, (port % 256) as u8]
}

/// Lexicographic order of byte sequences, as `Vec<u8>` compares them.
pub open spec fn bytes_le(a: Seq<u8>, b: Seq<u8>) -> bool
    decreases a.len(),
{
    if a.len() == 0 {
        true
    } else if b.len() == 0 {
        false
    } else if a[0] != b[0] {
        a[0] < b[0]
    } else {
        bytes_le(a.drop_first(), b.drop_first())
    }
}

/// The endpoint pair with the lexicographically smaller endpoint first.
pub open spec fn normalized_pair(a_ip: IpAddr, b_ip: IpAddr, a_port: u16, b_port: u16) -> Seq<u8> {
    let a = endpoint_bytes(a_ip, a_port);
    let b = endpoint_bytes(b_ip, b_port);
    if bytes_le(a, b) { a + b } else { b + a }
}

/// Direction-normalized key of a TCP connection: the two endpoints (address,
/// then port), the lexicographically smaller one first and called the
/// client.
#[derive(Debug, Clone, PartialEq, Eq, Hash)]
pub struct FiveTuple {
    packed: Vec<u8>,
    /// Whether the first address given was IPv6; this sets how `packed` is
    /// read.
    is_v6: bool,
}

/// A key as values: the packed endpoint bytes and the IPv6 flag.
pub type KeyView = (Seq<u8>, bool);

/// Address width in bytes.
pub open spec fn ip_width(is_v6: bool) -> int {
    if is_v6 { 16 } else { 4 }
}

/// An address of the given width holds `bytes[offset..]`.
pub open spec fn ip_reads(ip: IpAddr, is_v6: bool, bytes: Seq<u8>, offset: int) -> bool {
    &&& (ip is V6) == is_v6
    &&& ip.bytes() == bytes.subrange(offset, offset + ip_width(is_v6))
}

impl FiveTuple {
    /// The key as values.
    pub open spec fn key_view(&self) -> KeyView {
        (self.packed_bytes(), self.v6())
    }

    /// The packed endpoint bytes.
    pub closed spec fn packed_bytes(&self) -> Seq<u8> {
        self.packed@
    }

    /// Whether the first address given was IPv6.
    pub closed spec fn v6(&self) -> bool {
        self.is_v6
    }

    /// The normalized key of a connection between two endpoints; the order
    /// of the endpoints does not matter.
    pub fn new(a_ip: &IpAddr, b_ip: &IpAddr, a_port: u16, b_port: u16) -> (r: Self)
        ensures
            r.packed_bytes() == normalized_pair(*a_ip, *b_ip, a_port, b_port),
            r.v6() == (*a_ip is V6),
    {
        let is_v6 = match a_ip {
            IpAddr::V6(_) => true,
            IpAddr::V4(_) => false,
        };
        let a_bytes = Self::pack_endpoint(a_ip, a_port);
        let b_bytes = Self::pack_endpoint(b_ip, b_port);
        let packed = if bytes_less_eq(&a_bytes, &b_bytes) {
            concat_bytes(&a_bytes, &b_bytes)
        } else {
            concat_bytes(&b_bytes, &a_bytes)
        };
        FiveTuple { packed, is_v6 }
    }

    /// An endpoint as bytes: the address, then the port in big-endian order.
    pub fn pack_endpoint(ip: &IpAddr, port: u16) -> (r: Vec<u8>)
        ensures
            r@ == endpoint_bytes(*ip, port),
    {
        let mut v: Vec<u8> = Vec::new();
        match ip {
            IpAddr::V4(addr) => push_bytes(&mut v, addr),
            IpAddr::V6(addr) => push_bytes(&mut v, addr),
        }
        v.push((port / 256) as u8);
        v.push((port % 256) as u8);
        assert(v@ =~= endpoint_bytes(*ip, port));
        v
    }

    /// The packed bytes, client endpoint first.
    pub fn as_bytes(&self) -> (r: &[u8])
        ensures
            r@ == self.packed_bytes(),
    {
        self.packed.as_slice()
    }

    /// The client address (read from the start of the packed bytes).
    pub fn client_ip(&self) -> (r: IpAddr)
        requires
            self.packed_bytes().len() >= ip_width(self.v6()),
        ensures
            ip_reads(r, self.v6(), self.packed_bytes(), 0),
    {
        self.read_ip_at(0)
    }

    /// The client port (behind the client address).
    pub fn client_port(&self) -> (r: u16)
        requires
            self.packed_bytes().len() >= ip_width(self.v6()) + 2,
        ensures
            r as int == be16(self.packed_bytes()[ip_width(self.v6())], self.packed_bytes()[ip_width(self.v6()) + 1]),
    {
        let offset: usize = if self.is_v6 { 16 } else { 4 };
        read_be16(self.packed[offset], self.packed[offset + 1])
    }

    /// The server address (behind the client endpoint).
    pub fn server_ip(&self) -> (r: IpAddr)
        requires
            self.packed_bytes().len() >= 2 * ip_width(self.v6()) + 2,
        ensures
            ip_reads(r, self.v6(), self.packed_bytes(), ip_width(self.v6()) + 2),
    {
        let offset: usize = if self.is_v6 { 16 + 2 } else { 4 + 2 };
        self.read_ip_at(offset)
    }

    /// The server port (at the end of the server endpoint).
    pub fn server_port(&self) -> (r: u16)
        requires
            self.packed_bytes().len() >= 2 * ip_width(self.v6()) + 4,
        ensures
            r as int == be16(
                self.packed_bytes()[2 * ip_width(self.v6()) + 2],
                self.packed_bytes()[2 * ip_width(self.v6()) + 3],
            ),
    {
        let ip_size: usize = if self.is_v6 { 16 } else { 4 };
        let offset = ip_size * 2 + 2;
        read_be16(self.packed[offset], self.packed[offset + 1])
    }

    /// The address of this key's width at `offset` of the packed bytes.
    pub fn read_ip_at(&self, offset: usize) -> (r: IpAddr)
        requires
            offset + ip_width(self.v6()) <= self.packed_bytes().len(),
        ensures
            ip_reads(r, self.v6(), self.packed_bytes(), offset as int),
    {
        let p = &self.packed;
        let n = p.len();
        if self.is_v6 {
            let addr: [u8; 16] = [
                p[offset], p[offset + 1], p[offset + 2], p[offset + 3], p[offset + 4], p[offset + 5],
                p[offset + 6], p[offset + 7], p[offset + 8], p[offset + 9], p[offset + 10],
                p[offset + 11], p[offset + 12], p[offset + 13], p[offset + 14], p[offset + 15],
            ];
            assert(addr@ =~= p@.subrange(offset as int, offset + 16));
            IpAddr::V6(addr)
        } else {
            let addr: [u8; 4] = [p[offset], p[offset + 1], p[offset + 2], p[offset + 3]];
            assert(addr@ =~= p@.subrange(offset as int, offset + 4));
            IpAddr::V4(addr)
        }
    }

    /// Whether two keys are equal.
    pub fn same_key(&self, other: &FiveTuple) -> (r: bool)
        ensures
            r == (self.key_view() == other.key_view()),
    {
        self.is_v6 == other.is_v6 && bytes_equal(self.packed.as_slice(), other.packed.as_slice())
    }
}

/// Appends bytes.
fn push_bytes(v: &mut Vec<u8>, src: &[u8])
    ensures
        final(v)@ == old(v)@ + src@,
{
    let mut i: usize = 0;
    while i < src.len()
        invariant
            i <= src@.len(),
            v@ == old(v)@ + src@.take(i as int),
        decreases src@.len() - i,
    {
        v.push(src[i]);
        i = i + 1;
        assert(v@ =~= old(v)@ + src@.take(i as int));
    }
    assert(src@.take(i as int) =~= src@);
}

/// The two byte sequences one after the other.
fn concat_bytes(a: &Vec<u8>, b: &Vec<u8>) -> (r: Vec<u8>)
    ensures
        r@ == a@ + b@,
{
    let mut v: Vec<u8> = Vec::new();
    push_bytes(&mut v, a.as_slice());
    push_bytes(&mut v, b.as_slice());
    assert(v@ =~= a@ + b@);
    v
}

/// Lexicographic comparison of byte vectors.
fn bytes_less_eq(a: &Vec<u8>, b: &Vec<u8>) -> (r: bool)
    ensures
        r == bytes_le(a@, b@),
{
    let mut i: usize = 0;
    assert(a@.skip(0) =~= a@);
    assert(b@.skip(0) =~= b@);
    while i < a.len() && i < b.len()
        invariant
            i <= a@.len(),
            i <= b@.len(),
            bytes_le(a@, b@) == bytes_le(a@.skip(i as int), b@.skip(i as int)),
        decreases a@.len() - i,
    {
        assert(a@.skip(i as int).drop_first() =~= a@.skip(i + 1));
        assert(b@.skip(i as int).drop_first() =~= b@.skip(i + 1));
        if a[i] != b[i] {
            return a[i] < b[i];
        }
        i = i + 1;
    }
    i == a.len()
}

/// The state of a connection.
#[derive(Debug, Clone, Copy, PartialEq, Eq, Structural)]
pub enum TcpState {
    /// A SYN was seen; waiting for the other side.
    SynSent,
    /// The connection is open.
    Established,
    /// One FIN was seen.
    FinWait,
    /// Both FINs or a RST were seen.
    Closed,
}

/// One connection: its state, the reassembled bytes of each direction, the
/// next expected sequence number of each direction and the totals.
pub struct TcpStream {
    pub state: TcpState,
    /// Client-to-server bytes.
    pub client_payload: Vec<u8>,
    /// Server-to-client bytes.
    pub server_payload: Vec<u8>,
    /// Next sequence number expected from the client.
    pub client_seq: u32,
    /// Next sequence number expected from the server.
    pub server_seq: u32,
    /// Whether a client SYN set `client_seq`.
    pub client_seq_init: bool,
    /// Whether a server SYN set `server_seq`.
    pub server_seq_init: bool,
    /// Segments seen.
    pub packet_count: usize,
    /// Wire bytes of the segments seen.
    pub total_bytes: u64,
}

/// A connection as values.
pub ghost struct StreamModel {
    pub state: TcpState,
    pub client_payload: Seq<u8>,
    pub server_payload: Seq<u8>,
    pub client_seq: u32,
    pub server_seq: u32,
    pub client_seq_init: bool,
    pub server_seq_init: bool,
    pub packet_count: int,
    pub total_bytes: int,
}

impl View for TcpStream {
    type V = StreamModel;

    open spec fn view(&self) -> StreamModel {
        StreamModel {
            state: self.state,
            client_payload: self.client_payload@,
            server_payload: self.server_payload@,
            client_seq: self.client_seq,
            server_seq: self.server_seq,
            client_seq_init: self.client_seq_init,
            server_seq_init: self.server_seq_init,
            packet_count: self.packet_count as int,
            total_bytes: self.total_bytes as int,
        }
    }
}

/// A fresh connection: SYN sent, nothing seen yet.
pub open spec fn fresh_stream() -> StreamModel {
    StreamModel {
        state: TcpState::SynSent,
        client_payload: seq![],
        server_payload: seq![],
        client_seq: 0,
        server_seq: 0,
        client_seq_init: false,
        server_seq_init: false,
        packet_count: 0,
        total_bytes: 0,
    }
}

impl TcpStream {
    /// A fresh connection.
    pub fn new() -> (r: Self)
        ensures
            r@ == fresh_stream(),
    {
        TcpStream {
            state: TcpState::SynSent,
            client_payload: Vec::new(),
            server_payload: Vec::new(),
            client_seq: 0,
            server_seq: 0,
            client_seq_init: false,
            server_seq_init: false,
            packet_count: 0,
            total_bytes: 0,
        }
    }
}

/// Gaps below this many bytes are filled with zeros.
pub const GAP_FILL_LIMIT: u32 = 10_000_000;

/// How far `seq` lies ahead of `expected`, as a signed 32-bit serial number
/// difference (negative for data already seen).
pub open spec fn seq_offset(seq: u32, expected: u32) -> int {
    let diff = (seq as int - expected as int) % 0x1_0000_0000;
    if diff >= 0x8000_0000 { diff - 0x1_0000_0000 } else { diff }
}

/// `n` zero bytes.
pub open spec fn zeros(n: int) -> Seq<u8> {
    Seq::new(n as nat, |i: int| 0u8)
}

/// The next expected sequence number behind a segment.
pub open spec fn seq_after(seq: u32, len: nat) -> u32 {
    ((seq as int + len as int) % 0x1_0000_0000) as u32
}

/// A buffer and its next expected sequence number after a segment: data at
/// or ahead of the expected number is appended, behind a zero fill for a gap
/// below `GAP_FILL_LIMIT`; of data behind it only the part not seen yet is
/// appended, and a segment seen completely changes nothing.
pub open spec fn append_segment(buf: Seq<u8>, expected: u32, seq: u32, payload: Seq<u8>) -> (Seq<u8>, u32) {
    let offset = seq_offset(seq, expected);
    if offset >= 0 {
        let filled = if 0 < offset < GAP_FILL_LIMIT { buf + zeros(offset) } else { buf };
        (filled + payload, seq_after(seq, payload.len()))
    } else if -offset < payload.len() {
        (buf + payload.skip(-offset), seq_after(seq, payload.len()))
    } else {
        (buf, expected)
    }
}

pub open spec fn flag_fin(flags: u8) -> bool {
    flags % 2 == 1
}

pub open spec fn flag_syn(flags: u8) -> bool {
    (flags / 2) % 2 == 1
}

pub open spec fn flag_rst(flags: u8) -> bool {
    (flags / 4) % 2 == 1
}

/// The connection after the counters and SYN handling of a segment: a SYN
/// moves SynSent to Established and, once per direction, sets the next
/// expected sequence number to one past the SYN's.
pub open spec fn after_syn(s: StreamModel, client: bool, seq: u32, flags: u8, wire_len: u64) -> StreamModel {
    let counted = StreamModel { packet_count: s.packet_count + 1, total_bytes: s.total_bytes + wire_len, ..s };
    if flag_syn(flags) {
        let opened = if counted.state == TcpState::SynSent {
            StreamModel { state: TcpState::Established, ..counted }
        } else {
            counted
        };
        if client && !opened.client_seq_init {
            StreamModel { client_seq: seq_after(seq, 1), client_seq_init: true, ..opened }
        } else if !client && !opened.server_seq_init {
            StreamModel { server_seq: seq_after(seq, 1), server_seq_init: true, ..opened }
        } else {
            opened
        }
    } else {
        counted
    }
}

/// The connection after one segment: counters, SYN handling, then a RST
/// closes it; a FIN moves Established to FinWait and FinWait to Closed; the
/// payload of a connection that is not closed is reassembled into its
/// direction's buffer.
pub open spec fn stream_step(s: StreamModel, client: bool, seq: u32, flags: u8, payload: Seq<u8>, wire_len: u64) -> StreamModel {
    let s1 = after_syn(s, client, seq, flags, wire_len);
    if flag_rst(flags) {
        StreamModel { state: TcpState::Closed, ..s1 }
    } else {
        let s2 = if flag_fin(flags) {
            if s1.state == TcpState::Established {
                StreamModel { state: TcpState::FinWait, ..s1 }
            } else if s1.state == TcpState::FinWait {
                StreamModel { state: TcpState::Closed, ..s1 }
            } else {
                s1
            }
        } else {
            s1
        };
        if payload.len() == 0 || s2.state == TcpState::Closed {
            s2
        } else if client {
            let (buf, next) = append_segment(s2.client_payload, s2.client_seq, seq, payload);
            StreamModel { client_payload: buf, client_seq: next, ..s2 }
        } else {
            let (buf, next) = append_segment(s2.server_payload, s2.server_seq, seq, payload);
            StreamModel { server_payload: buf, server_seq: next, ..s2 }
        }
    }
}

/// Whether `src → dst` is the client direction of its key: the source is
/// the endpoint that the key reads as client.
pub open spec fn client_direction(src_ip: IpAddr, dst_ip: IpAddr, src_port: u16, dst_port: u16) -> bool {
    let packed = normalized_pair(src_ip, dst_ip, src_port, dst_port);
    let w = ip_width(src_ip is V6);
    &&& ip_reads(src_ip, src_ip is V6, packed, 0)
    &&& src_port as int == be16(packed[w], packed[w + 1])
}

/// No key occurs twice among the connections.
pub open spec fn distinct_keys(e: Seq<(KeyView, StreamModel)>) -> bool {
    forall|i: int, j: int| 0 <= i < j < e.len() ==> #[trigger] e[i].0 != #[trigger] e[j].0
}

/// The position of a key among the connections.
pub open spec fn position_in(e: Seq<(KeyView, StreamModel)>, key: KeyView) -> Option<int> {
    if exists|i: int| 0 <= i < e.len() && #[trigger] e[i].0 == key {
        Some(choose|i: int| 0 <= i < e.len() && #[trigger] e[i].0 == key)
    } else {
        None
    }
}

/// The connection of a key, if there is one.
pub open spec fn stream_of(e: Seq<(KeyView, StreamModel)>, key: KeyView) -> Option<StreamModel> {
    match position_in(e, key) {
        Some(i) => Some(e[i].1),
        None => None,
    }
}

/// The key of the segment `src → dst`: its normalized endpoint pair and IP
/// version.
pub open spec fn segment_key(src_ip: IpAddr, dst_ip: IpAddr, src_port: u16, dst_port: u16) -> KeyView {
    (normalized_pair(src_ip, dst_ip, src_port, dst_port), src_ip is V6)
}

/// The connections after one segment: the connection of the segment's
/// normalized key steps as `stream_step` says, or is created first (at the
/// end) when the key is new.
pub open spec fn apply_segment(
    e: Seq<(KeyView, StreamModel)>,
    src_ip: IpAddr,
    dst_ip: IpAddr,
    src_port: u16,
    dst_port: u16,
    seq: u32,
    flags: u8,
    payload: Seq<u8>,
    wire_len: u64,
) -> Seq<(KeyView, StreamModel)> {
    let key = segment_key(src_ip, dst_ip, src_port, dst_port);
    let client = client_direction(src_ip, dst_ip, src_port, dst_port);
    match position_in(e, key) {
        Some(i) => e.update(i, (key, stream_step(e[i].1, client, seq, flags, payload, wire_len))),
        None => e.push((key, stream_step(fresh_stream(), client, seq, flags, payload, wire_len))),
    }
}

/// Tracks TCP connections by their normalized key, in the order they were
/// first seen.
pub struct TcpStreamTracker {
    streams: Vec<(FiveTuple, TcpStream)>,
}

/// Room for one more segment of `payload_len` bytes and `wire_len` wire
/// bytes: counters and buffers (with the largest gap fill) stay in range.
pub open spec fn stream_has_room(s: StreamModel, payload_len: int, wire_len: int) -> bool {
    &&& s.packet_count < usize::MAX
    &&& s.total_bytes + wire_len <= u64::MAX
    &&& s.client_payload.len() + GAP_FILL_LIMIT + payload_len <= usize::MAX
    &&& s.server_payload.len() + GAP_FILL_LIMIT + payload_len <= usize::MAX
}

impl TcpStreamTracker {
    /// The connections as values, in the order they were first seen.
    pub closed spec fn entries(&self) -> Seq<(KeyView, StreamModel)> {
        self.streams@.map_values(|e: (FiveTuple, TcpStream)| (e.0.key_view(), e.1@))
    }

    /// Keys are distinct.
    pub open spec fn wf(&self) -> bool {
        distinct_keys(self.entries())
    }

    /// The position of a key.
    pub open spec fn position(&self, key: KeyView) -> Option<int> {
        position_in(self.entries(), key)
    }

    /// Every connection has room for one more segment.
    pub open spec fn has_room(&self, payload_len: int, wire_len: int) -> bool {
        &&& forall|i: int| 0 <= i < self.entries().len() ==> stream_has_room(#[trigger] self.entries()[i].1, payload_len, wire_len)
        &&& GAP_FILL_LIMIT + payload_len <= usize::MAX
    }

    /// The connections after one segment (see `apply_segment`).
    pub open spec fn after_segment(
        &self,
        src_ip: IpAddr,
        dst_ip: IpAddr,
        src_port: u16,
        dst_port: u16,
        seq: u32,
        flags: u8,
        payload: Seq<u8>,
        wire_len: u64,
    ) -> Seq<(KeyView, StreamModel)> {
        apply_segment(self.entries(), src_ip, dst_ip, src_port, dst_port, seq, flags, payload, wire_len)
    }

    /// Whether every connection has room for one more segment of
    /// `payload_len` payload bytes and `wire_len` wire bytes.
    pub fn can_feed(&self, payload_len: usize, wire_len: u64) -> (r: bool)
        ensures
            r == self.has_room(payload_len as int, wire_len as int),
    {
        if payload_len > usize::MAX - 10_000_000 {
            return false;
        }
        let mut i: usize = 0;
        while i < self.streams.len()
            invariant
                i <= self.streams@.len(),
                payload_len <= usize::MAX - 10_000_000,
                self.entries().len() == self.streams@.len(),
                forall|k: int| 0 <= k < i ==> stream_has_room(#[trigger] self.entries()[k].1, payload_len as int, wire_len as int),
            decreases self.streams@.len() - i,
        {
            let s = &self.streams[i].1;
            assert(self.entries()[i as int].1 == s@);
            if s.packet_count == usize::MAX || s.total_bytes > u64::MAX - wire_len
                || s.client_payload.len() > usize::MAX - 10_000_000 - payload_len
                || s.server_payload.len() > usize::MAX - 10_000_000 - payload_len {
                return false;
            }
            i = i + 1;
        }
        true
    }

    /// An empty tracker.
    pub fn new() -> (r: Self)
        ensures
            r.wf(),
            r.entries() == Seq::<(KeyView, StreamModel)>::empty(),
    {
        let r = TcpStreamTracker { streams: Vec::new() };
        assert(r.entries() =~= Seq::<(KeyView, StreamModel)>::empty());
        r
    }

    /// Number of connections.
    pub fn stream_count(&self) -> (r: usize)
        ensures
            r as int == self.entries().len(),
    {
        self.streams.len()
    }

    /// Finds the position of a key.
    fn find(&self, key: &FiveTuple) -> (r: Option<usize>)
        requires
            self.wf(),
        ensures
            match r {
                Some(i) => self.position(key.key_view()) == Some(i as int) && i < self.entries().len(),
                None => self.position(key.key_view()) is None,
            },
    {
        let mut i: usize = 0;
        while i < self.streams.len()
            invariant
                i <= self.streams@.len(),
                self.entries().len() == self.streams@.len(),
                self.wf(),
                forall|k: int| 0 <= k < i ==> #[trigger] self.entries()[k].0 != key.key_view(),
            decreases self.streams@.len() - i,
        {
            assert(self.entries()[i as int].0 == self.streams@[i as int].0.key_view());
            if self.streams[i].0.same_key(key) {
                let ghost e = self.entries();
                assert(e[i as int].0 == key.key_view());
                assert(forall|k: int| 0 <= k < e.len() && #[trigger] e[k].0 == key.key_view() ==> k == i) by {
                    assert forall|k: int| 0 <= k < e.len() && #[trigger] e[k].0 == key.key_view() implies k == i by {
                        if k < i {
                        } else if k > i {
                            assert(e[i as int].0 != e[k].0);
                        }
                    }
                }
                return Some(i);
            }
            i = i + 1;
        }
        None
    }

    /// Feeds one TCP segment (`flags`: SYN 0x02, FIN 0x01, RST 0x04 are
    /// read; `wire_len` is the whole frame's length). The segment joins the
    /// connection of its normalized key, which is created when new, and
    /// steps that connection as `stream_step` says.
    pub fn feed(
        &mut self,
        src_ip: &IpAddr,
        dst_ip: &IpAddr,
        src_port: u16,
        dst_port: u16,
        seq: u32,
        flags: u8,
        payload: &[u8],
        wire_len: u64,
    )
        requires
            old(self).wf(),
            old(self).has_room(payload@.len() as int, wire_len as int),
        ensures
            final(self).wf(),
            final(self).entries().len() == old(self).entries().len() + (if old(self).position(
                (normalized_pair(*src_ip, *dst_ip, src_port, dst_port), *src_ip is V6),
            ) is Some {
                0int
            } else {
                1int
            }),
            final(self).entries() == old(self).after_segment(*src_ip, *dst_ip, src_port, dst_port, seq, flags, payload@, wire_len),
    {
        let key = FiveTuple::new(src_ip, dst_ip, src_port, dst_port);
        let is_client_to_server = Self::is_client_dir(src_ip, src_port, dst_ip, dst_port);
        let ghost old_entries = self.entries();
        let ghost kv = key.key_view();
        match self.find(&key) {
            Some(i) => {
                let ghost before = self.streams@;
                let (k, mut stream) = self.streams.remove(i);
                proof {
                    assert(old_entries[i as int].1 == stream@);
                    assert(stream_has_room(stream@, payload@.len() as int, wire_len as int));
                }
                Self::step(&mut stream, is_client_to_server, seq, flags, payload, wire_len);
                self.streams.insert(i, (k, stream));
                proof {
                    assert(self.streams@ =~= before.update(i as int, (k, stream)));
                    assert(self.entries() =~= old_entries.update(i as int, (kv, stream@)));
                    self.lemma_update_keeps_wf(old_entries, i as int);
                }
            },
            None => {
                let mut stream = TcpStream::new();
                Self::step(&mut stream, is_client_to_server, seq, flags, payload, wire_len);
                let ghost before = self.streams@;
                self.streams.push((key, stream));
                proof {
                    assert(self.entries() =~= old_entries.push((kv, stream@)));
                    let e = self.entries();
                    assert forall|a: int, b: int| 0 <= a < b < e.len() implies #[trigger] e[a].0 != #[trigger] e[b].0 by {
                        if b == e.len() - 1 {
                            assert(e[a].0 == old_entries[a].0);
                        } else {
                            assert(e[a] == old_entries[a]);
                            assert(e[b] == old_entries[b]);
                        }
                    }
                }
            },
        }
    }

    proof fn lemma_update_keeps_wf(&self, old_entries: Seq<(KeyView, StreamModel)>, i: int)
        requires
            0 <= i < old_entries.len(),
            forall|a: int, b: int| 0 <= a < b < old_entries.len() ==> #[trigger] old_entries[a].0 != #[trigger] old_entries[b].0,
            self.entries().len() == old_entries.len(),
            forall|k: int| 0 <= k < old_entries.len() ==> #[trigger] self.entries()[k].0 == old_entries[k].0,
        ensures
            self.wf(),
    {
        let e = self.entries();
        assert forall|a: int, b: int| 0 <= a < b < e.len() implies #[trigger] e[a].0 != #[trigger] e[b].0 by {
            assert(e[a].0 == old_entries[a].0);
            assert(e[b].0 == old_entries[b].0);
        }
    }

    /// One segment applied to one connection.
    fn step(stream: &mut TcpStream, client: bool, seq: u32, flags: u8, payload: &[u8], wire_len: u64)
        requires
            stream_has_room(old(stream)@, payload@.len() as int, wire_len as int),
        ensures
            final(stream)@ == stream_step(old(stream)@, client, seq, flags, payload@, wire_len),
    {
        stream.packet_count = stream.packet_count + 1;
        stream.total_bytes = stream.total_bytes + wire_len;
        if (flags / 2) % 2 == 1 {
            if stream.state == TcpState::SynSent {
                stream.state = TcpState::Established;
            }
            if client && !stream.client_seq_init {
                stream.client_seq = seq.wrapping_add(1);
                stream.client_seq_init = true;
            } else if !client && !stream.server_seq_init {
                stream.server_seq = seq.wrapping_add(1);
                stream.server_seq_init = true;
            }
        }
        assert(stream@ == after_syn(old(stream)@, client, seq, flags, wire_len));
        if (flags / 4) % 2 == 1 {
            stream.state = TcpState::Closed;
            return;
        }
        if flags % 2 == 1 {
            if stream.state == TcpState::Established {
                stream.state = TcpState::FinWait;
            } else if stream.state == TcpState::FinWait {
                stream.state = TcpState::Closed;
            }
        }
        if payload.len() != 0 && stream.state != TcpState::Closed {
            if client {
                let ghost buf = stream.client_payload@;
                let mut expected = stream.client_seq;
                Self::append_payload(&mut stream.client_payload, &mut expected, seq, payload);
                stream.client_seq = expected;
            } else {
                let mut expected = stream.server_seq;
                Self::append_payload(&mut stream.server_payload, &mut expected, seq, payload);
                stream.server_seq = expected;
            }
        }
    }

    /// Whether `src → dst` is the client direction of its normalized key.
    pub fn is_client_dir(src_ip: &IpAddr, src_port: u16, dst_ip: &IpAddr, dst_port: u16) -> (r: bool)
        ensures
            r == client_direction(*src_ip, *dst_ip, src_port, dst_port),
    {
        let key = FiveTuple::new(src_ip, dst_ip, src_port, dst_port);
        proof {
            lemma_normalized_len(*src_ip, *dst_ip, src_port, dst_port);
        }
        let client_ip = key.client_ip();
        let client_port = key.client_port();
        let same = src_ip.same_as(&client_ip);
        proof {
            if ip_reads(*src_ip, *src_ip is V6, key.packed_bytes(), 0) {
                lemma_ip_reads_unique(*src_ip, client_ip, *src_ip is V6, key.packed_bytes(), 0);
            }
        }
        same && src_port == client_port
    }

    /// Appends a segment's payload to a direction's buffer as
    /// `append_segment` says, and moves the expected sequence number.
    pub fn append_payload(buf: &mut Vec<u8>, expected_seq: &mut u32, seq: u32, payload: &[u8])
        requires
            old(buf)@.len() + GAP_FILL_LIMIT + payload@.len() <= usize::MAX,
        ensures
            (final(buf)@, *final(expected_seq)) == append_segment(old(buf)@, *old(expected_seq), seq, payload@),
    {
        let payload_len = (payload.len() as u64 % 0x1_0000_0000) as u32;
        let diff = seq.wrapping_sub(*expected_seq);
        if diff < 0x8000_0000 {
            if diff > 0 && diff < GAP_FILL_LIMIT {
                let target = buf.len() + diff as usize;
                buf.resize(target, 0u8);
                assert(buf@ =~= old(buf)@ + zeros(diff as int));
            }
            push_bytes(buf, payload);
            *expected_seq = seq.wrapping_add(payload_len);
        } else {
            let overlap = (0u32.wrapping_sub(diff)) as usize;
            if overlap < payload.len() {
                push_bytes(buf, vstd::slice::slice_subrange(payload, overlap, payload.len()));
                *expected_seq = seq.wrapping_add(payload_len);
            }
        }
    }

    /// The client-to-server bytes of a connection.
    pub fn client_payload(&self, key: &FiveTuple) -> (r: Option<&[u8]>)
        requires
            self.wf(),
        ensures
            match self.position(key.key_view()) {
                Some(i) => r matches Some(p) && p@ == self.entries()[i].1.client_payload,
                None => r is None,
            },
    {
        match self.find(key) {
            Some(i) => Some(self.streams[i].1.client_payload.as_slice()),
            None => None,
        }
    }

    /// The server-to-client bytes of a connection.
    pub fn server_payload(&self, key: &FiveTuple) -> (r: Option<&[u8]>)
        requires
            self.wf(),
        ensures
            match self.position(key.key_view()) {
                Some(i) => r matches Some(p) && p@ == self.entries()[i].1.server_payload,
                None => r is None,
            },
    {
        match self.find(key) {
            Some(i) => Some(self.streams[i].1.server_payload.as_slice()),
            None => None,
        }
    }

    /// All connections, in the order they were first seen.
    pub fn all_streams(&self) -> (r: Vec<(&FiveTuple, &TcpStream)>)
        ensures
            r@.map_values(|e: (&FiveTuple, &TcpStream)| (e.0.key_view(), e.1@)) == self.entries(),
    {
        let mut out: Vec<(&FiveTuple, &TcpStream)> = Vec::new();
        let mut i: usize = 0;
        while i < self.streams.len()
            invariant
                i <= self.streams@.len(),
                self.entries().len() == self.streams@.len(),
                out@.map_values(|e: (&FiveTuple, &TcpStream)| (e.0.key_view(), e.1@)) == self.entries().take(i as int),
            decreases self.streams@.len() - i,
        {
            let entry = &self.streams[i];
            let ghost before = out@;
            out.push((&entry.0, &entry.1));
            proof {
                let f = |e: (&FiveTuple, &TcpStream)| (e.0.key_view(), e.1@);
                assert(out@ == before.push((&entry.0, &entry.1)));
                assert(f((&entry.0, &entry.1)) == self.entries()[i as int]);
                assert(out@.map_values(f) =~= before.map_values(f).push(self.entries()[i as int]));
                assert(self.entries().take(i + 1) =~= self.entries().take(i as int).push(self.entries()[i as int]));
            }
            i = i + 1;
            assert(out@.map_values(|e: (&FiveTuple, &TcpStream)| (e.0.key_view(), e.1@)) =~= self.entries().take(i as int));
        }
        assert(self.entries().take(i as int) =~= self.entries());
        out
    }

    /// The closed connections, in the order they were first seen.
    pub fn closed_streams(&self) -> (r: Vec<(&FiveTuple, &TcpStream)>)
        ensures
            r@.map_values(|e: (&FiveTuple, &TcpStream)| (e.0.key_view(), e.1@))
                == self.entries().filter(|e: (KeyView, StreamModel)| e.1.state == TcpState::Closed),
    {
        let ghost pred = |e: (KeyView, StreamModel)| e.1.state == TcpState::Closed;
        let mut out: Vec<(&FiveTuple, &TcpStream)> = Vec::new();
        let mut i: usize = 0;
        while i < self.streams.len()
            invariant
                i <= self.streams@.len(),
                self.entries().len() == self.streams@.len(),
                pred == (|e: (KeyView, StreamModel)| e.1.state == TcpState::Closed),
                out@.map_values(|e: (&FiveTuple, &TcpStream)| (e.0.key_view(), e.1@)) == self.entries().take(i as int).filter(pred),
            decreases self.streams@.len() - i,
        {
            reveal_with_fuel(Seq::<_>::filter, 1);
            let entry = &self.streams[i];
            assert(self.entries().take(i + 1).drop_last() =~= self.entries().take(i as int));
            if entry.1.state == TcpState::Closed {
                out.push((&entry.0, &entry.1));
            }
            i = i + 1;
            assert(out@.map_values(|e: (&FiveTuple, &TcpStream)| (e.0.key_view(), e.1@)) =~= self.entries().take(i as int).filter(pred));
        }
        assert(self.entries().take(i as int) =~= self.entries());
        out
    }
}

impl Default for TcpStreamTracker {
    /// An empty tracker.
    fn default() -> (r: Self)
        ensures
            r.wf(),
            r.entries() == Seq::<(KeyView, StreamModel)>::empty(),
    {
        TcpStreamTracker::new()
    }
}

/// Two addresses of the same version with the same bytes are equal.
pub proof fn lemma_same_addr(x: IpAddr, y: IpAddr)
    requires
        (x is V6) == (y is V6),
        x.bytes() == y.bytes(),
    ensures
        x == y,
{
    match (x, y) {
        (IpAddr::V4(a), IpAddr::V4(b)) => {
            assert(forall|i: int| 0 <= i < 4 ==> a[i] == a@[i] && b[i] == b@[i]);
            assert(a =~= b);
        },
        (IpAddr::V6(a), IpAddr::V6(b)) => {
            assert(forall|i: int| 0 <= i < 16 ==> a[i] == a@[i] && b[i] == b@[i]);
            assert(a =~= b);
        },
        _ => {},
    }
}

/// Two addresses that read the same bytes with the same width are equal.
pub proof fn lemma_ip_reads_unique(x: IpAddr, y: IpAddr, is_v6: bool, bytes: Seq<u8>, offset: int)
    requires
        ip_reads(x, is_v6, bytes, offset),
        ip_reads(y, is_v6, bytes, offset),
    ensures
        x == y,
{
    match (x, y) {
        (IpAddr::V4(a), IpAddr::V4(b)) => {
            assert(a@ =~= b@);
            assert(forall|i: int| 0 <= i < 4 ==> a[i] == a@[i] && b[i] == b@[i]);
            assert(a =~= b);
        },
        (IpAddr::V6(a), IpAddr::V6(b)) => {
            assert(a@ =~= b@);
            assert(forall|i: int| 0 <= i < 16 ==> a[i] == a@[i] && b[i] == b@[i]);
            assert(a =~= b);
        },
        _ => {},
    }
}

/// A normalized pair holds both endpoints: at least the client endpoint of
/// the first address's width.
pub proof fn lemma_normalized_len(a_ip: IpAddr, b_ip: IpAddr, a_port: u16, b_port: u16)
    ensures
        normalized_pair(a_ip, b_ip, a_port, b_port).len() == endpoint_bytes(a_ip, a_port).len() + endpoint_bytes(b_ip, b_port).len(),
        normalized_pair(a_ip, b_ip, a_port, b_port).len() >= ip_width(a_ip is V6) + 2,
{
}

/// Lexicographic order is reflexive.
pub proof fn lemma_bytes_le_reflexive(a: Seq<u8>)
    ensures
        bytes_le(a, a),
    decreases a.len(),
{
    if a.len() > 0 {
        lemma_bytes_le_reflexive(a.drop_first());
    }
}

/// Lexicographic order is total and antisymmetric.
pub proof fn lemma_bytes_le_total(a: Seq<u8>, b: Seq<u8>)
    ensures
        bytes_le(a, b) || bytes_le(b, a),
        bytes_le(a, b) && bytes_le(b, a) ==> a == b,
    decreases a.len(),
{
    if a.len() > 0 && b.len() > 0 && a[0] == b[0] {
        lemma_bytes_le_total(a.drop_first(), b.drop_first());
        if bytes_le(a, b) && bytes_le(b, a) {
            assert(a =~= seq![a[0]] + a.drop_first());
            assert(b =~= seq![b[0]] + b.drop_first());
        }
    } else if a.len() == 0 && b.len() == 0 {
        assert(a =~= b);
    }
}

/// Direction normalization: both directions of a connection pack to the
/// same bytes, so they share one key when the addresses are of one version.
pub proof fn law_key_is_direction_independent(a_ip: IpAddr, b_ip: IpAddr, a_port: u16, b_port: u16)
    ensures
        normalized_pair(a_ip, b_ip, a_port, b_port) == normalized_pair(b_ip, a_ip, b_port, a_port),
        (a_ip is V6) == (b_ip is V6) ==> (normalized_pair(a_ip, b_ip, a_port, b_port), a_ip is V6)
            == (normalized_pair(b_ip, a_ip, b_port, a_port), b_ip is V6),
{
    let a = endpoint_bytes(a_ip, a_port);
    let b = endpoint_bytes(b_ip, b_port);
    lemma_bytes_le_total(a, b);
}

/// The client of a connection between addresses of one version is its
/// lexicographically smaller endpoint; of two distinct endpoints exactly one
/// is the client.
pub proof fn law_client_is_smaller_endpoint(a_ip: IpAddr, b_ip: IpAddr, a_port: u16, b_port: u16)
    requires
        (a_ip is V6) == (b_ip is V6),
    ensures
        client_direction(a_ip, b_ip, a_port, b_port)
            == bytes_le(endpoint_bytes(a_ip, a_port), endpoint_bytes(b_ip, b_port)),
        endpoint_bytes(a_ip, a_port) != endpoint_bytes(b_ip, b_port) ==> client_direction(a_ip, b_ip, a_port, b_port)
            != client_direction(b_ip, a_ip, b_port, a_port),
{
    lemma_client_direction(a_ip, b_ip, a_port, b_port);
    lemma_client_direction(b_ip, a_ip, b_port, a_port);
    lemma_bytes_le_total(endpoint_bytes(a_ip, a_port), endpoint_bytes(b_ip, b_port));
}

proof fn lemma_client_direction(a_ip: IpAddr, b_ip: IpAddr, a_port: u16, b_port: u16)
    requires
        (a_ip is V6) == (b_ip is V6),
    ensures
        client_direction(a_ip, b_ip, a_port, b_port)
            == bytes_le(endpoint_bytes(a_ip, a_port), endpoint_bytes(b_ip, b_port)),
{
    let a = endpoint_bytes(a_ip, a_port);
    let b = endpoint_bytes(b_ip, b_port);
    let w = ip_width(a_ip is V6);
    let packed = normalized_pair(a_ip, b_ip, a_port, b_port);
    assert(a_ip.bytes().len() == w);
    assert(b_ip.bytes().len() == w);
    if bytes_le(a, b) {
        assert(packed.subrange(0, w) =~= a_ip.bytes());
        assert(packed[w] == a[w]);
        assert(packed[w + 1] == a[w + 1]);
    } else {
        lemma_bytes_le_total(a, b);
        assert(packed.subrange(0, w) =~= b_ip.bytes());
        if client_direction(a_ip, b_ip, a_port, b_port) {
            assert(packed[w] == b[w]);
            assert(packed[w + 1] == b[w + 1]);
            assert(a =~= b);
            lemma_bytes_le_reflexive(a);
        }
    }
}

/// In-order data is appended as it is, and the expected sequence number
/// moves past it.
pub proof fn law_in_order_segment_appends(buf: Seq<u8>, expected: u32, payload: Seq<u8>)
    ensures
        append_segment(buf, expected, expected, payload) == (buf + payload, seq_after(expected, payload.len())),
{
    assert(seq_offset(expected, expected) == 0);
}

/// A retransmitted segment whose bytes were all seen changes neither the
/// buffer nor the expected sequence number.
pub proof fn law_retransmission_is_ignored(buf: Seq<u8>, expected: u32, seq: u32, payload: Seq<u8>)
    requires
        seq_offset(seq, expected) < 0,
        -seq_offset(seq, expected) >= payload.len(),
    ensures
        append_segment(buf, expected, seq, payload) == (buf, expected),
{
}

/// The connection of a key, or a fresh one when the key is not tracked.
pub open spec fn stream_or_fresh(e: Seq<(KeyView, StreamModel)>, key: KeyView) -> StreamModel {
    match stream_of(e, key) {
        Some(s) => s,
        None => fresh_stream(),
    }
}

/// The state after a segment with `flags`: a SYN opens a connection whose
/// SYN was sent; then a RST closes it, and a FIN moves Established to
/// FinWait and FinWait to Closed.
pub open spec fn next_state(state: TcpState, flags: u8) -> TcpState {
    let s1 = if flag_syn(flags) && state == TcpState::SynSent { TcpState::Established } else { state };
    if flag_rst(flags) {
        TcpState::Closed
    } else if flag_fin(flags) && s1 == TcpState::Established {
        TcpState::FinWait
    } else if flag_fin(flags) && s1 == TcpState::FinWait {
        TcpState::Closed
    } else {
        s1
    }
}

/// With distinct keys, a key's position is where it stands.
proof fn lemma_position_at(e: Seq<(KeyView, StreamModel)>, i: int)
    requires
        distinct_keys(e),
        0 <= i < e.len(),
    ensures
        position_in(e, e[i].0) == Some(i),
{
    let key = e[i].0;
    assert(exists|j: int| 0 <= j < e.len() && #[trigger] e[j].0 == key);
    let j = choose|j: int| 0 <= j < e.len() && #[trigger] e[j].0 == key;
    if j < i {
        assert(e[j].0 != e[i].0);
    } else if i < j {
        assert(e[i].0 != e[j].0);
    }
}

/// One segment keeps the keys distinct, steps the connection of its key in
/// place (or adds it at the end), and leaves every other connection where
/// and as it was.
proof fn lemma_apply_segment(
    e: Seq<(KeyView, StreamModel)>,
    src_ip: IpAddr,
    dst_ip: IpAddr,
    src_port: u16,
    dst_port: u16,
    seq: u32,
    flags: u8,
    payload: Seq<u8>,
    wire_len: u64,
)
    requires
        distinct_keys(e),
    ensures
        distinct_keys(apply_segment(e, src_ip, dst_ip, src_port, dst_port, seq, flags, payload, wire_len)),
        apply_segment(e, src_ip, dst_ip, src_port, dst_port, seq, flags, payload, wire_len).len() == e.len() + (if position_in(
            e,
            segment_key(src_ip, dst_ip, src_port, dst_port),
        ) is None {
            1int
        } else {
            0int
        }),
        stream_of(
            apply_segment(e, src_ip, dst_ip, src_port, dst_port, seq, flags, payload, wire_len),
            segment_key(src_ip, dst_ip, src_port, dst_port),
        ) == Some(
            stream_step(
                stream_or_fresh(e, segment_key(src_ip, dst_ip, src_port, dst_port)),
                client_direction(src_ip, dst_ip, src_port, dst_port),
                seq,
                flags,
                payload,
                wire_len,
            ),
        ),
        forall|i: int|
            0 <= i < e.len() && e[i].0 != segment_key(src_ip, dst_ip, src_port, dst_port) ==> #[trigger] apply_segment(
                e,
                src_ip,
                dst_ip,
                src_port,
                dst_port,
                seq,
                flags,
                payload,
                wire_len,
            )[i] == e[i],
{
    let key = segment_key(src_ip, dst_ip, src_port, dst_port);
    let r = apply_segment(e, src_ip, dst_ip, src_port, dst_port, seq, flags, payload, wire_len);
    match position_in(e, key) {
        Some(p) => {
            assert forall|a: int, b: int| 0 <= a < b < r.len() implies #[trigger] r[a].0 != #[trigger] r[b].0 by {
                assert(r[a].0 == e[a].0);
                assert(r[b].0 == e[b].0);
            }
            assert(r[p].0 == key);
            lemma_position_at(r, p);
        },
        None => {
            assert forall|a: int, b: int| 0 <= a < b < r.len() implies #[trigger] r[a].0 != #[trigger] r[b].0 by {
                if b == e.len() {
                    assert(r[a] == e[a]);
                } else {
                    assert(r[a] == e[a]);
                    assert(r[b] == e[b]);
                }
            }
            lemma_position_at(r, e.len() as int);
        },
    }
}

/// The TCP state machine: a segment moves its connection's state as
/// `next_state` says (RST closes; FIN moves Established to FinWait and
/// FinWait to Closed; SYN opens a connection in SynSent), so a closed
/// connection never leaves Closed; and a segment after which the connection
/// is closed changes neither direction's reassembled bytes.
pub proof fn law_state_machine(s: StreamModel, client: bool, seq: u32, flags: u8, payload: Seq<u8>, wire_len: u64)
    ensures
        stream_step(s, client, seq, flags, payload, wire_len).state == next_state(s.state, flags),
        s.state == TcpState::Closed ==> stream_step(s, client, seq, flags, payload, wire_len).state == TcpState::Closed,
        stream_step(s, client, seq, flags, payload, wire_len).state == TcpState::Closed ==> stream_step(
            s,
            client,
            seq,
            flags,
            payload,
            wire_len,
        ).client_payload == s.client_payload && stream_step(s, client, seq, flags, payload, wire_len).server_payload
            == s.server_payload,
{
}

/// The state machine as the tracker runs it: after a segment, the
/// connection of the segment's key (a fresh one, in SynSent, when the key
/// was new) is in the state `next_state` gives, a closed connection stays
/// closed, and when the connection ends up closed neither of its buffers
/// changed.
pub proof fn law_segment_state(
    t: TcpStreamTracker,
    src_ip: IpAddr,
    dst_ip: IpAddr,
    src_port: u16,
    dst_port: u16,
    seq: u32,
    flags: u8,
    payload: Seq<u8>,
    wire_len: u64,
)
    requires
        t.wf(),
    ensures
        stream_of(
            t.after_segment(src_ip, dst_ip, src_port, dst_port, seq, flags, payload, wire_len),
            segment_key(src_ip, dst_ip, src_port, dst_port),
        ) is Some,
        stream_or_fresh(
            t.after_segment(src_ip, dst_ip, src_port, dst_port, seq, flags, payload, wire_len),
            segment_key(src_ip, dst_ip, src_port, dst_port),
        ).state == next_state(stream_or_fresh(t.entries(), segment_key(src_ip, dst_ip, src_port, dst_port)).state, flags),
        stream_or_fresh(t.entries(), segment_key(src_ip, dst_ip, src_port, dst_port)).state == TcpState::Closed
            ==> stream_or_fresh(
            t.after_segment(src_ip, dst_ip, src_port, dst_port, seq, flags, payload, wire_len),
            segment_key(src_ip, dst_ip, src_port, dst_port),
        ).state == TcpState::Closed,
        stream_or_fresh(
            t.after_segment(src_ip, dst_ip, src_port, dst_port, seq, flags, payload, wire_len),
            segment_key(src_ip, dst_ip, src_port, dst_port),
        ).state == TcpState::Closed ==> {
            &&& stream_or_fresh(
                t.after_segment(src_ip, dst_ip, src_port, dst_port, seq, flags, payload, wire_len),
                segment_key(src_ip, dst_ip, src_port, dst_port),
            ).client_payload == stream_or_fresh(t.entries(), segment_key(src_ip, dst_ip, src_port, dst_port)).client_payload
            &&& stream_or_fresh(
                t.after_segment(src_ip, dst_ip, src_port, dst_port, seq, flags, payload, wire_len),
                segment_key(src_ip, dst_ip, src_port, dst_port),
            ).server_payload == stream_or_fresh(t.entries(), segment_key(src_ip, dst_ip, src_port, dst_port)).server_payload
        },
{
    let key = segment_key(src_ip, dst_ip, src_port, dst_port);
    lemma_apply_segment(t.entries(), src_ip, dst_ip, src_port, dst_port, seq, flags, payload, wire_len);
    law_state_machine(
        stream_or_fresh(t.entries(), key),
        client_direction(src_ip, dst_ip, src_port, dst_port),
        seq,
        flags,
        payload,
        wire_len,
    );
}

/// Direction normalization at work: a segment `a → b` and then a segment
/// `b → a` between addresses of one version land in one connection, the one
/// of `a → b`'s key. That connection counts both segments and both wire
/// lengths; at most one connection is added, and every other connection
/// stays where and as it was.
pub proof fn law_both_directions_share_a_stream(
    t: TcpStreamTracker,
    a_ip: IpAddr,
    b_ip: IpAddr,
    a_port: u16,
    b_port: u16,
    seq1: u32,
    flags1: u8,
    payload1: Seq<u8>,
    wire1: u64,
    seq2: u32,
    flags2: u8,
    payload2: Seq<u8>,
    wire2: u64,
)
    requires
        t.wf(),
        (a_ip is V6) == (b_ip is V6),
    ensures
        segment_key(b_ip, a_ip, b_port, a_port) == segment_key(a_ip, b_ip, a_port, b_port),
        apply_segment(
            t.after_segment(a_ip, b_ip, a_port, b_port, seq1, flags1, payload1, wire1),
            b_ip,
            a_ip,
            b_port,
            a_port,
            seq2,
            flags2,
            payload2,
            wire2,
        ).len() == t.entries().len() + (if t.position(segment_key(a_ip, b_ip, a_port, b_port)) is None {
            1int
        } else {
            0int
        }),
        stream_of(
            apply_segment(
                t.after_segment(a_ip, b_ip, a_port, b_port, seq1, flags1, payload1, wire1),
                b_ip,
                a_ip,
                b_port,
                a_port,
                seq2,
                flags2,
                payload2,
                wire2,
            ),
            segment_key(a_ip, b_ip, a_port, b_port),
        ) is Some,
        stream_or_fresh(
            apply_segment(
                t.after_segment(a_ip, b_ip, a_port, b_port, seq1, flags1, payload1, wire1),
                b_ip,
                a_ip,
                b_port,
                a_port,
                seq2,
                flags2,
                payload2,
                wire2,
            ),
            segment_key(a_ip, b_ip, a_port, b_port),
        ).packet_count == stream_or_fresh(t.entries(), segment_key(a_ip, b_ip, a_port, b_port)).packet_count + 2,
        stream_or_fresh(
            apply_segment(
                t.after_segment(a_ip, b_ip, a_port, b_port, seq1, flags1, payload1, wire1),
                b_ip,
                a_ip,
                b_port,
                a_port,
                seq2,
                flags2,
                payload2,
                wire2,
            ),
            segment_key(a_ip, b_ip, a_port, b_port),
        ).total_bytes == stream_or_fresh(t.entries(), segment_key(a_ip, b_ip, a_port, b_port)).total_bytes + wire1
            + wire2,
        forall|i: int|
            0 <= i < t.entries().len() && t.entries()[i].0 != segment_key(a_ip, b_ip, a_port, b_port)
                ==> #[trigger] apply_segment(
                t.after_segment(a_ip, b_ip, a_port, b_port, seq1, flags1, payload1, wire1),
                b_ip,
                a_ip,
                b_port,
                a_port,
                seq2,
                flags2,
                payload2,
                wire2,
            )[i] == t.entries()[i],
{
    let key = segment_key(a_ip, b_ip, a_port, b_port);
    law_key_is_direction_independent(a_ip, b_ip, a_port, b_port);
    let e0 = t.entries();
    let e1 = t.after_segment(a_ip, b_ip, a_port, b_port, seq1, flags1, payload1, wire1);
    lemma_apply_segment(e0, a_ip, b_ip, a_port, b_port, seq1, flags1, payload1, wire1);
    assert(position_in(e1, key) is Some);
    lemma_apply_segment(e1, b_ip, a_ip, b_port, a_port, seq2, flags2, payload2, wire2);
    let e2 = apply_segment(e1, b_ip, a_ip, b_port, a_port, seq2, flags2, payload2, wire2);
    assert forall|i: int| 0 <= i < e0.len() && e0[i].0 != key implies #[trigger] e2[i] == e0[i] by {
        assert(e1[i] == e0[i]);
        assert(e2[i] == e1[i]);
    }
}

/// A segment that starts `k` bytes behind the expected sequence number
/// (`0 < k < payload.len()`) is placed by sequence number: only its last
/// `payload.len() - k` bytes, the ones not seen yet, are appended, so the
/// buffer grows by exactly that many bytes and no byte is appended twice;
/// when its first `k` bytes agree with the last `k` bytes of the buffer, the
/// buffer then ends with the whole segment. The expected sequence number
/// moves past the new bytes.
pub proof fn law_overlap_appends_only_new_bytes(buf: Seq<u8>, expected: u32, seq: u32, payload: Seq<u8>, k: int)
    requires
        seq_offset(seq, expected) == -k,
        0 < k < payload.len(),
    ensures
        append_segment(buf, expected, seq, payload).0.len() == buf.len() + payload.len() - k,
        append_segment(buf, expected, seq, payload).0.take(buf.len() as int) == buf,
        append_segment(buf, expected, seq, payload).0.skip(buf.len() as int) == payload.skip(k),
        k <= buf.len() && buf.skip(buf.len() - k) == payload.take(k) ==> append_segment(buf, expected, seq, payload).0
            == buf.take(buf.len() - k) + payload,
        append_segment(buf, expected, seq, payload).1 == seq_after(expected, (payload.len() - k) as nat),
{
    let r = append_segment(buf, expected, seq, payload);
    assert(r.0 == buf + payload.skip(k));
    assert(r.0.take(buf.len() as int) =~= buf);
    assert(r.0.skip(buf.len() as int) =~= payload.skip(k));
    if k <= buf.len() && buf.skip(buf.len() - k) == payload.take(k) {
        assert forall|i: int| 0 <= i < r.0.len() implies #[trigger] r.0[i] == (buf.take(buf.len() - k) + payload)[i] by {
            if i >= buf.len() - k && i < buf.len() {
                assert(buf[i] == buf.skip(buf.len() - k)[i - (buf.len() - k)]);
                assert(payload[i - (buf.len() - k)] == payload.take(k)[i - (buf.len() - k)]);
            }
        }
        assert(r.0 =~= buf.take(buf.len() - k) + payload);
    }
    let n: int = 0x1_0000_0000;
    let d = seq as int - expected as int;
    vstd::arithmetic::div_mod::lemma_fundamental_div_mod(d, n);
    let q = d / n;
    assert(d % n == n - k);
    assert(seq as int + payload.len() == n * (q + 1) + (expected as int + (payload.len() - k)));
    vstd::arithmetic::div_mod::lemma_mod_multiples_vanish(q + 1, expected as int + (payload.len() - k), n);
}

} // verus!
