//! ICMP (RFC 792) and ICMPv6 (RFC 4443) messages, which share the 4-byte
//! type, code and checksum header.
use vstd::prelude::*;

use super::{slice_from, ParseError};
use crate::text::{be16u, read_be16};

verus! {

/// An ICMP or ICMPv6 message.
pub struct ICMPPacket<'a> {
    pub icmp_type: u8,
    pub code: u8,
    pub checksum: u16,
    /// The bytes behind the header; for echo messages, identifier (2),
    /// sequence (2) and data.
    pub payload: &'a [u8],
}

/// Why an ICMP message is rejected, or `None` when it is accepted.
pub open spec fn icmp_error(raw: Seq<u8>) -> Option<ParseError> {
    if raw.len() < 4 {
        Some(ParseError::TooShort)
    } else {
        None
    }
}

/// The name of an ICMP or ICMPv6 type; numbers that both use keep their
/// ICMP meaning.
pub open spec fn message_type_name(t: u8) -> Seq<char> {
    if t == 0 { "Echo Reply"@ }
    else if t == 3 { "Dest Unreachable"@ }
    else if t == 4 { "Source Quench"@ }
    else if t == 5 { "Redirect"@ }
    else if t == 8 { "Echo Request"@ }
    else if t == 9 { "Router Advertisement"@ }
    else if t == 10 { "Router Solicitation"@ }
    else if t == 11 { "Time Exceeded"@ }
    else if t == 12 { "Parameter Problem"@ }
    else if t == 13 { "Timestamp"@ }
    else if t == 14 { "Timestamp Reply"@ }
    else if t == 1 { "Dest Unreachable (v6)"@ }
    else if t == 2 { "Packet Too Big (v6)"@ }
    else if t == 128 { "Echo Request (v6)"@ }
    else if t == 129 { "Echo Reply (v6)"@ }
    else if t == 133 { "Router Solicitation (v6)"@ }
    else if t == 134 { "Router Advertisement (v6)"@ }
    else if t == 135 { "Neighbor Solicitation (v6)"@ }
    else if t == 136 { "Neighbor Advertisement (v6)"@ }
    else if t == 137 { "Redirect (v6)"@ }
    else { "???"@ }
}

impl<'a> ICMPPacket<'a> {
    /// The message holds the fields of the accepted bytes `raw`.
    pub open spec fn decodes(self, raw: Seq<u8>) -> bool {
        &&& self.icmp_type == raw[0]
        &&& self.code == raw[1]
        &&& self.checksum == be16u(raw[2], raw[3])
        &&& self.payload@ == raw.skip(4)
    }

    /// Parses the 4-byte header; the checksum is read, not checked.
    pub fn parse(raw: &'a [u8]) -> (r: Result<Self, ParseError>)
        ensures
            match r {
                Ok(p) => icmp_error(raw@) is None && p.decodes(raw@),
                Err(e) => icmp_error(raw@) == Some(e),
            },
    {
        if raw.len() < 4 {
            return Err(ParseError::TooShort);
        }
        Ok(ICMPPacket {
            icmp_type: raw[0],
            code: raw[1],
            checksum: read_be16(raw[2], raw[3]),
            payload: slice_from(raw, 4),
        })
    }

    /// The name of a type number.
    pub fn type_label(t: u8) -> (name: &'static str)
        ensures
            name@ == message_type_name(t),
    {
        match t {
            0 => "Echo Reply",
            3 => "Dest Unreachable",
            4 => "Source Quench",
            5 => "Redirect",
            8 => "Echo Request",
            9 => "Router Advertisement",
            10 => "Router Solicitation",
            11 => "Time Exceeded",
            12 => "Parameter Problem",
            13 => "Timestamp",
            14 => "Timestamp Reply",
            1 => "Dest Unreachable (v6)",
            2 => "Packet Too Big (v6)",
            128 => "Echo Request (v6)",
            129 => "Echo Reply (v6)",
            133 => "Router Solicitation (v6)",
            134 => "Router Advertisement (v6)",
            135 => "Neighbor Solicitation (v6)",
            136 => "Neighbor Advertisement (v6)",
            137 => "Redirect (v6)",
            _ => "???",
        }
    }

    /// The echo identifier: the first two payload bytes, when there are two.
    pub fn identifier(&self) -> (r: Option<u16>)
        ensures
            r == (if self.payload@.len() >= 2 {
                Some(be16u(self.payload@[0], self.payload@[1]))
            } else {
                None
            }),
    {
        if self.payload.len() >= 2 {
            Some(read_be16(self.payload[0], self.payload[1]))
        } else {
            None
        }
    }

    /// The echo sequence number: payload bytes 2–3, when there are four.
    pub fn sequence(&self) -> (r: Option<u16>)
        ensures
            r == (if self.payload@.len() >= 4 {
                Some(be16u(self.payload@[2], self.payload@[3]))
            } else {
                None
            }),
    {
        if self.payload.len() >= 4 {
            Some(read_be16(self.payload[2], self.payload[3]))
        } else {
            None
        }
    }
}

} // verus!
