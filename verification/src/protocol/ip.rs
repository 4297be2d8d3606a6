//! IPv4 and IPv6 headers.
use vstd::prelude::*;

use super::{slice_from, slice_range, ParseError};
use crate::text::{be16, dotted_dec, format_dotted_dec, format_ipv6_groups, ipv6_text};

verus! {

/// An IPv4 packet: TTL, protocol, addresses and the payload behind the
/// header (options skipped).
pub struct IPv4Packet<'a> {
    pub ttl: u8,
    pub next_protocol: u8,
    pub src_ip: [u8; 4],
    pub dst_ip: [u8; 4],
    pub payload: &'a [u8],
}

/// An IPv6 packet: next header, hop limit, addresses and the payload that
/// the payload length field declares.
pub struct IPv6Packet<'a> {
    pub next_header: u8,
    pub hop_limit: u8,
    pub src_ip: [u8; 16],
    pub dst_ip: [u8; 16],
    pub payload: &'a [u8],
}

/// The IPv4 header length in bytes: four times the IHL field.
pub open spec fn ipv4_header_len(raw: Seq<u8>) -> int {
    4 * (raw[0] as int % 16)
}

/// Why an IPv4 packet is rejected, or `None` when it is accepted.
pub open spec fn ipv4_error(raw: Seq<u8>) -> Option<ParseError> {
    if raw.len() < 20 {
        Some(ParseError::TooShort)
    } else if raw[0] as int / 16 != 4 {
        Some(ParseError::BadVersion)
    } else if ipv4_header_len(raw) < 20 {
        Some(ParseError::BadHeaderLength)
    } else if ipv4_header_len(raw) > raw.len() {
        Some(ParseError::Truncated)
    } else {
        None
    }
}

/// The IPv6 payload length field.
pub open spec fn ipv6_payload_len(raw: Seq<u8>) -> int {
    be16(raw[4], raw[5])
}

/// Why an IPv6 packet is rejected, or `None` when it is accepted.
pub open spec fn ipv6_error(raw: Seq<u8>) -> Option<ParseError> {
    if raw.len() < 40 {
        Some(ParseError::TooShort)
    } else if raw[0] as int / 16 != 6 {
        Some(ParseError::BadVersion)
    } else if raw.len() < 40 + ipv6_payload_len(raw) {
        Some(ParseError::Truncated)
    } else {
        None
    }
}

impl<'a> IPv4Packet<'a> {
    /// The packet holds the fields of the accepted bytes `raw`.
    pub open spec fn decodes(self, raw: Seq<u8>) -> bool {
        &&& self.ttl == raw[8]
        &&& self.next_protocol == raw[9]
        &&& self.src_ip@ == raw.subrange(12, 16)
        &&& self.dst_ip@ == raw.subrange(16, 20)
        &&& self.payload@ == raw.subrange(ipv4_header_len(raw), raw.len() as int)
    }

    /// Parses an IPv4 header: at least 20 bytes, version 4, a header length
    /// of at least 20 bytes that the data holds.
    pub fn parse(raw: &'a [u8]) -> (r: Result<Self, ParseError>)
        ensures
            match r {
                Ok(p) => ipv4_error(raw@) is None && p.decodes(raw@),
                Err(e) => ipv4_error(raw@) == Some(e),
            },
    {
        if raw.len() < 20 {
            return Err(ParseError::TooShort);
        }
        if raw[0] / 16 != 4 {
            return Err(ParseError::BadVersion);
        }
        let header_len = 4 * ((raw[0] % 16) as usize);
        if header_len < 20 {
            return Err(ParseError::BadHeaderLength);
        }
        if header_len > raw.len() {
            return Err(ParseError::Truncated);
        }
        let p = IPv4Packet {
            ttl: raw[8],
            next_protocol: raw[9],
            src_ip: [raw[12], raw[13], raw[14], raw[15]],
            dst_ip: [raw[16], raw[17], raw[18], raw[19]],
            payload: slice_from(raw, header_len),
        };
        assert(p.src_ip@ =~= raw@.subrange(12, 16));
        assert(p.dst_ip@ =~= raw@.subrange(16, 20));
        Ok(p)
    }

    /// An IPv4 address in dotted decimal.
    pub fn format_ip(ip: &[u8; 4]) -> (r: String)
        ensures
            r@ == dotted_dec(ip@),
    {
        format_dotted_dec(ip)
    }
}

impl<'a> IPv6Packet<'a> {
    /// The packet holds the fields of the accepted bytes `raw`.
    pub open spec fn decodes(self, raw: Seq<u8>) -> bool {
        &&& self.next_header == raw[6]
        &&& self.hop_limit == raw[7]
        &&& self.src_ip@ == raw.subrange(8, 24)
        &&& self.dst_ip@ == raw.subrange(24, 40)
        &&& self.payload@ == raw.subrange(40, 40 + ipv6_payload_len(raw))
    }

    /// Parses an IPv6 header: at least 40 bytes, version 6, and the payload
    /// that the payload length declares, which must be present.
    pub fn parse(raw: &'a [u8]) -> (r: Result<Self, ParseError>)
        ensures
            match r {
                Ok(p) => ipv6_error(raw@) is None && p.decodes(raw@),
                Err(e) => ipv6_error(raw@) == Some(e),
            },
    {
        if raw.len() < 40 {
            return Err(ParseError::TooShort);
        }
        if raw[0] / 16 != 6 {
            return Err(ParseError::BadVersion);
        }
        let payload_len = raw[4] as usize * 256 + raw[5] as usize;
        if raw.len() - 40 < payload_len {
            return Err(ParseError::Truncated);
        }
        let total_len = 40 + payload_len;
        let p = IPv6Packet {
            next_header: raw[6],
            hop_limit: raw[7],
            src_ip: [
                raw[8], raw[9], raw[10], raw[11], raw[12], raw[13], raw[14], raw[15],
                raw[16], raw[17], raw[18], raw[19], raw[20], raw[21], raw[22], raw[23],
            ],
            dst_ip: [
                raw[24], raw[25], raw[26], raw[27], raw[28], raw[29], raw[30], raw[31],
                raw[32], raw[33], raw[34], raw[35], raw[36], raw[37], raw[38], raw[39],
            ],
            payload: slice_range(raw, 40, total_len),
        };
        assert(p.src_ip@ =~= raw@.subrange(8, 24));
        assert(p.dst_ip@ =~= raw@.subrange(24, 40));
        Ok(p)
    }

    /// An IPv6 address as eight colon-separated hexadecimal groups, without
    /// leading zeros and without `::` compression.
    pub fn format_ip(ip: &[u8; 16]) -> (r: String)
        ensures
            r@ == ipv6_text(ip@),
    {
        format_ipv6_groups(ip)
    }
}

} // verus!
