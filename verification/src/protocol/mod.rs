//! Layered protocol decoders, from the link layer to the application layer,
//! and the routing from one layer to the next.
use vstd::prelude::*;

pub mod arp;
pub mod dhcp;
pub mod dns;
pub mod ethernet;
pub mod http;
pub mod icmp;
pub mod ip;
pub mod tcp;
pub mod tls;
pub mod udp;

pub use arp::ARPPacket;
pub use dhcp::DhcpPacket;
pub use dns::DNSRequest;
pub use ethernet::EthernetFrame;
pub use http::HTTPMessage;
pub use icmp::ICMPPacket;
pub use ip::{IPv4Packet, IPv6Packet};
pub use tcp::TCPSegment;
pub use tls::parse_client_hello;
pub use udp::UDPSegment;

verus! {

/// Why a decoder rejected its input.
#[derive(Debug, Clone, Copy, PartialEq, Eq)]
pub enum ParseError {
    /// Fewer bytes than the fixed header needs.
    TooShort,
    /// The IP version field does not match.
    BadVersion,
    /// A header length field is below its minimum.
    BadHeaderLength,
    /// A length field declares more bytes than there are.
    Truncated,
    /// A length field is below its minimum.
    BadLength,
    /// A compressed DNS name (pointer label), which is not followed.
    CompressionPointer,
    /// Text that is not well-formed UTF-8.
    InvalidUtf8,
    /// A text line that does not have the expected shape.
    Malformed,
    /// An HTTP status code that is not a number in the `u16` range.
    BadStatusCode,
}

/// A short description of a decoding error.
pub open spec fn error_text(e: ParseError) -> Seq<char> {
    match e {
        ParseError::TooShort => "报文长度过短"@,
        ParseError::BadVersion => "版本字段非法"@,
        ParseError::BadHeaderLength => "头部长度字段非法"@,
        ParseError::Truncated => "报文截断：声明的长度超出实际数据"@,
        ParseError::BadLength => "长度字段非法"@,
        ParseError::CompressionPointer => "遇到压缩指针，当前尚未支持"@,
        ParseError::InvalidUtf8 => "包含非法 UTF-8 字节"@,
        ParseError::Malformed => "格式非法"@,
        ParseError::BadStatusCode => "状态码非法"@,
    }
}

impl ParseError {
    /// A short description of the error.
    pub fn message(&self) -> (r: &'static str)
        ensures
            r@ == error_text(*self),
    {
        match self {
            ParseError::TooShort => "报文长度过短",
            ParseError::BadVersion => "版本字段非法",
            ParseError::BadHeaderLength => "头部长度字段非法",
            ParseError::Truncated => "报文截断：声明的长度超出实际数据",
            ParseError::BadLength => "长度字段非法",
            ParseError::CompressionPointer => "遇到压缩指针，当前尚未支持",
            ParseError::InvalidUtf8 => "包含非法 UTF-8 字节",
            ParseError::Malformed => "格式非法",
            ParseError::BadStatusCode => "状态码非法",
        }
    }
}

/// One decoded layer of a packet, for the pipeline to route or skip.
pub enum ParseResult<'a> {
    Ethernet(EthernetFrame<'a>),
    ARP(ARPPacket<'a>),
    IPv4(IPv4Packet<'a>),
    IPv6(IPv6Packet<'a>),
    ICMP(ICMPPacket<'a>),
    TCP(TCPSegment<'a>),
    UDP(UDPSegment<'a>),
    HTTP(HTTPMessage<'a>),
    DNS(DNSRequest),
    NotSupported,
    Unknown,
}

/// The layer above Ethernet, decoded from `payload` by the EtherType.
pub open spec fn network_layer(ethernet_type: u16, payload: Seq<u8>, r: Result<ParseResult, ParseError>) -> bool {
    if ethernet_type == 0x0800 {
        match r {
            Ok(ParseResult::IPv4(p)) => ip::ipv4_error(payload) is None && p.decodes(payload),
            Err(e) => ip::ipv4_error(payload) == Some(e),
            _ => false,
        }
    } else if ethernet_type == 0x86DD {
        match r {
            Ok(ParseResult::IPv6(p)) => ip::ipv6_error(payload) is None && p.decodes(payload),
            Err(e) => ip::ipv6_error(payload) == Some(e),
            _ => false,
        }
    } else if ethernet_type == 0x0806 {
        match r {
            Ok(ParseResult::ARP(p)) => arp::arp_error(payload) is None && p.decodes(payload),
            Err(e) => arp::arp_error(payload) == Some(e),
            _ => false,
        }
    } else {
        r matches Ok(ParseResult::Unknown)
    }
}

/// The transport layer decoded from `payload` by the protocol number; the
/// message protocol number is 1 above IPv4 and 58 above IPv6.
pub open spec fn transport_layer(proto: u8, message_proto: u8, payload: Seq<u8>, r: Result<ParseResult, ParseError>) -> bool {
    if proto == 6 {
        match r {
            Ok(ParseResult::TCP(s)) => tcp::tcp_error(payload) is None && s.decodes(payload),
            Err(e) => tcp::tcp_error(payload) == Some(e),
            _ => false,
        }
    } else if proto == 17 {
        match r {
            Ok(ParseResult::UDP(s)) => udp::udp_error(payload) is None && s.decodes(payload),
            Err(e) => udp::udp_error(payload) == Some(e),
            _ => false,
        }
    } else if proto == message_proto {
        match r {
            Ok(ParseResult::ICMP(m)) => payload.len() >= 4 && m.decodes(payload),
            Err(e) => payload.len() < 4 && e == ParseError::TooShort,
            _ => false,
        }
    } else {
        r matches Ok(ParseResult::Unknown)
    }
}

/// Routes an Ethernet payload by its EtherType: IPv4 (0x0800), IPv6
/// (0x86DD), ARP (0x0806); any other type is `Unknown`.
pub fn dispatch_from_ethernet<'a>(eth: &EthernetFrame<'a>) -> (r: Result<ParseResult<'a>, ParseError>)
    ensures
        network_layer(eth.ethernet_type, eth.payload@, r),
{
    if eth.ethernet_type == 0x0800 {
        match IPv4Packet::parse(eth.payload) {
            Ok(p) => Ok(ParseResult::IPv4(p)),
            Err(e) => Err(e),
        }
    } else if eth.ethernet_type == 0x86DD {
        match IPv6Packet::parse(eth.payload) {
            Ok(p) => Ok(ParseResult::IPv6(p)),
            Err(e) => Err(e),
        }
    } else if eth.ethernet_type == 0x0806 {
        match ARPPacket::parse(eth.payload) {
            Ok(p) => Ok(ParseResult::ARP(p)),
            Err(e) => Err(e),
        }
    } else {
        Ok(ParseResult::Unknown)
    }
}

fn dispatch_transport<'a>(proto: u8, message_proto: u8, payload: &'a [u8]) -> (r: Result<ParseResult<'a>, ParseError>)
    ensures
        transport_layer(proto, message_proto, payload@, r),
{
    if proto == 6 {
        match TCPSegment::parse(payload) {
            Ok(s) => Ok(ParseResult::TCP(s)),
            Err(e) => Err(e),
        }
    } else if proto == 17 {
        match UDPSegment::parse(payload) {
            Ok(s) => Ok(ParseResult::UDP(s)),
            Err(e) => Err(e),
        }
    } else if proto == message_proto {
        match ICMPPacket::parse(payload) {
            Ok(m) => Ok(ParseResult::ICMP(m)),
            Err(e) => Err(e),
        }
    } else {
        Ok(ParseResult::Unknown)
    }
}

/// Routes an IPv4 payload by its protocol number: TCP (6), UDP (17), ICMP
/// (1); any other number is `Unknown`.
pub fn dispatch_from_ipv4<'a>(ipv4: &IPv4Packet<'a>) -> (r: Result<ParseResult<'a>, ParseError>)
    ensures
        transport_layer(ipv4.next_protocol, 1, ipv4.payload@, r),
{
    dispatch_transport(ipv4.next_protocol, 1, ipv4.payload)
}

/// Routes an IPv6 payload by its next header: TCP (6), UDP (17), ICMPv6
/// (58); any other value is `Unknown`.
pub fn dispatch_from_ipv6<'a>(ipv6: &IPv6Packet<'a>) -> (r: Result<ParseResult<'a>, ParseError>)
    ensures
        transport_layer(ipv6.next_header, 58, ipv6.payload@, r),
{
    dispatch_transport(ipv6.next_header, 58, ipv6.payload)
}

/// The bytes of a slice from `start` on.
pub fn slice_from(s: &[u8], start: usize) -> (r: &[u8])
    requires
        start <= s@.len(),
    ensures
        r@ == s@.subrange(start as int, s@.len() as int),
{
    slice_range(s, start, s.len())
}

/// The bytes of a slice from `start` up to `end`.
pub fn slice_range(s: &[u8], start: usize, end: usize) -> (r: &[u8])
    requires
        start <= end <= s@.len(),
    ensures
        r@ == s@.subrange(start as int, end as int),
{
    vstd::slice::slice_subrange(s, start, end)
}

} // verus!
