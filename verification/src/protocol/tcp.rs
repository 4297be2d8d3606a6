//! TCP segment headers.
use vstd::prelude::*;

use super::{slice_from, ParseError};
use crate::text::{be16, be32};

verus! {

/// A TCP segment: ports, sequence and acknowledgment numbers, the flags
/// byte and the payload behind the header (options skipped).
pub struct TCPSegment<'a> {
    pub src_port: u16,
    pub dst_port: u16,
    pub seq: u32,
    pub ack: u32,
    /// Byte 13: URG|ACK|PSH|RST|SYN|FIN from high to low bit.
    pub flags: u8,
    pub payload: &'a [u8],
}

/// The TCP header length in bytes: four times the data offset field.
pub open spec fn tcp_header_len(raw: Seq<u8>) -> int {
    4 * (raw[12] as int / 16)
}

/// Why a TCP segment is rejected, or `None` when it is accepted.
pub open spec fn tcp_error(raw: Seq<u8>) -> Option<ParseError> {
    if raw.len() < 20 {
        Some(ParseError::TooShort)
    } else if tcp_header_len(raw) < 20 {
        Some(ParseError::BadHeaderLength)
    } else if tcp_header_len(raw) > raw.len() {
        Some(ParseError::Truncated)
    } else {
        None
    }
}

impl<'a> TCPSegment<'a> {
    /// The segment holds the fields of the accepted bytes `raw`.
    pub open spec fn decodes(self, raw: Seq<u8>) -> bool {
        &&& self.src_port as int == be16(raw[0], raw[1])
        &&& self.dst_port as int == be16(raw[2], raw[3])
        &&& self.seq as int == be32(raw[4], raw[5], raw[6], raw[7])
        &&& self.ack as int == be32(raw[8], raw[9], raw[10], raw[11])
        &&& self.flags == raw[13]
        &&& self.payload@ == raw.subrange(tcp_header_len(raw), raw.len() as int)
    }

    /// Parses a TCP header: at least 20 bytes and a data offset of at least
    /// 20 bytes that the data holds.
    pub fn parse(raw: &'a [u8]) -> (r: Result<Self, ParseError>)
        ensures
            match r {
                Ok(s) => tcp_error(raw@) is None && s.decodes(raw@),
                Err(e) => tcp_error(raw@) == Some(e),
            },
    {
        if raw.len() < 20 {
            return Err(ParseError::TooShort);
        }
        let data_offset = ((raw[12] / 16) as usize) * 4;
        if data_offset < 20 {
            return Err(ParseError::BadHeaderLength);
        }
        if data_offset > raw.len() {
            return Err(ParseError::Truncated);
        }
        Ok(TCPSegment {
            src_port: raw[0] as u16 * 256 + raw[1] as u16,
            dst_port: raw[2] as u16 * 256 + raw[3] as u16,
            seq: read_be32(raw[4], raw[5], raw[6], raw[7]),
            ack: read_be32(raw[8], raw[9], raw[10], raw[11]),
            flags: raw[13],
            payload: slice_from(raw, data_offset),
        })
    }
}

/// Big-endian value of four bytes.
pub fn read_be32(b0: u8, b1: u8, b2: u8, b3: u8) -> (v: u32)
    ensures
        v as int == be32(b0, b1, b2, b3),
{
    ((b0 as u32 * 256 + b1 as u32) * 256 + b2 as u32) * 256 + b3 as u32
}

} // verus!
