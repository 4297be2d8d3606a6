//! UDP datagram headers.
use vstd::prelude::*;

use super::{slice_from, ParseError};
use crate::text::be16;

verus! {

/// A UDP datagram: ports, the length field and the bytes behind the 8-byte
/// header.
pub struct UDPSegment<'a> {
    pub src_port: u16,
    pub dst_port: u16,
    /// Header plus payload length as the datagram declares it.
    pub len: u16,
    pub payload: &'a [u8],
}

/// Why a UDP datagram is rejected, or `None` when it is accepted.
pub open spec fn udp_error(raw: Seq<u8>) -> Option<ParseError> {
    if raw.len() < 8 {
        Some(ParseError::TooShort)
    } else if be16(raw[4], raw[5]) < 8 {
        Some(ParseError::BadLength)
    } else {
        None
    }
}

impl<'a> UDPSegment<'a> {
    /// The datagram holds the fields of the accepted bytes `raw`.
    pub open spec fn decodes(self, raw: Seq<u8>) -> bool {
        &&& self.src_port as int == be16(raw[0], raw[1])
        &&& self.dst_port as int == be16(raw[2], raw[3])
        &&& self.len as int == be16(raw[4], raw[5])
        &&& self.payload@ == raw.subrange(8, raw.len() as int)
    }

    /// Parses a UDP header: at least 8 bytes and a length field of at least 8.
    pub fn parse(raw: &'a [u8]) -> (r: Result<Self, ParseError>)
        ensures
            match r {
                Ok(s) => udp_error(raw@) is None && s.decodes(raw@),
                Err(e) => udp_error(raw@) == Some(e),
            },
    {
        if raw.len() < 8 {
            return Err(ParseError::TooShort);
        }
        let len: u16 = raw[4] as u16 * 256 + raw[5] as u16;
        if len < 8 {
            return Err(ParseError::BadLength);
        }
        Ok(UDPSegment {
            src_port: raw[0] as u16 * 256 + raw[1] as u16,
            dst_port: raw[2] as u16 * 256 + raw[3] as u16,
            len,
            payload: slice_from(raw, 8),
        })
    }
}

} // verus!
