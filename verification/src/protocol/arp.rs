//! ARP packets (RFC 826), with hardware and protocol addresses of any
//! declared length.
use vstd::prelude::*;

use super::{slice_range, ParseError};
use crate::text::{be16, colon_hex2, dotted_dec, format_colon_hex2, format_dotted_dec};

verus! {

/// An ARP packet; the addresses borrow from the parsed bytes.
pub struct ARPPacket<'a> {
    pub hardware_type: u16,
    pub protocol_type: u16,
    pub hw_addr_len: u8,
    pub proto_addr_len: u8,
    pub operation: u16,
    pub sender_hw_addr: &'a [u8],
    pub sender_proto_addr: &'a [u8],
    pub target_hw_addr: &'a [u8],
    pub target_proto_addr: &'a [u8],
}

/// The length an ARP packet declares: the fixed 8 bytes and two addresses of
/// each kind.
pub open spec fn arp_declared_len(raw: Seq<u8>) -> int {
    8 + 2 * (raw[4] as int) + 2 * (raw[5] as int)
}

/// Why an ARP packet is rejected, or `None` when it is accepted.
pub open spec fn arp_error(raw: Seq<u8>) -> Option<ParseError> {
    if raw.len() < 8 {
        Some(ParseError::TooShort)
    } else if raw.len() < arp_declared_len(raw) {
        Some(ParseError::Truncated)
    } else {
        None
    }
}

impl<'a> ARPPacket<'a> {
    /// The packet holds the fields of the accepted bytes `raw`.
    pub open spec fn decodes(self, raw: Seq<u8>) -> bool {
        let hw = raw[4] as int;
        let pr = raw[5] as int;
        &&& self.hardware_type as int == be16(raw[0], raw[1])
        &&& self.protocol_type as int == be16(raw[2], raw[3])
        &&& self.hw_addr_len == raw[4]
        &&& self.proto_addr_len == raw[5]
        &&& self.operation as int == be16(raw[6], raw[7])
        &&& self.sender_hw_addr@ == raw.subrange(8, 8 + hw)
        &&& self.sender_proto_addr@ == raw.subrange(8 + hw, 8 + hw + pr)
        &&& self.target_hw_addr@ == raw.subrange(8 + hw + pr, 8 + 2 * hw + pr)
        &&& self.target_proto_addr@ == raw.subrange(8 + 2 * hw + pr, 8 + 2 * hw + 2 * pr)
    }

    /// Parses an ARP packet: 8 fixed bytes, then sender and target addresses
    /// of the declared lengths, all of which must be present.
    pub fn parse(raw: &'a [u8]) -> (r: Result<Self, ParseError>)
        ensures
            match r {
                Ok(p) => arp_error(raw@) is None && p.decodes(raw@),
                Err(e) => arp_error(raw@) == Some(e),
            },
    {
        if raw.len() < 8 {
            return Err(ParseError::TooShort);
        }
        let hw_addr_len = raw[4];
        let proto_addr_len = raw[5];
        let hw = hw_addr_len as usize;
        let pr = proto_addr_len as usize;
        let total = 8 + hw * 2 + pr * 2;
        if raw.len() < total {
            return Err(ParseError::Truncated);
        }
        let sender_hw_off: usize = 8;
        let sender_pr_off = sender_hw_off + hw;
        let target_hw_off = sender_pr_off + pr;
        let target_pr_off = target_hw_off + hw;
        Ok(ARPPacket {
            hardware_type: raw[0] as u16 * 256 + raw[1] as u16,
            protocol_type: raw[2] as u16 * 256 + raw[3] as u16,
            hw_addr_len,
            proto_addr_len,
            operation: raw[6] as u16 * 256 + raw[7] as u16,
            sender_hw_addr: slice_range(raw, sender_hw_off, sender_pr_off),
            sender_proto_addr: slice_range(raw, sender_pr_off, target_hw_off),
            target_hw_addr: slice_range(raw, target_hw_off, target_pr_off),
            target_proto_addr: slice_range(raw, target_pr_off, target_pr_off + pr),
        })
    }

    /// The name of an operation code: `REQUEST` (1), `REPLY` (2), else `???`.
    pub fn operation_name(op: u16) -> (name: &'static str)
        ensures
            name@ == arp_operation_name(op),
    {
        match op {
            1 => "REQUEST",
            2 => "REPLY",
            _ => "???",
        }
    }

    /// A hardware address as colon-separated pairs of hexadecimal digits.
    pub fn format_mac(addr: &[u8]) -> (r: String)
        ensures
            r@ == colon_hex2(addr@),
    {
        format_colon_hex2(addr)
    }

    /// A protocol address as dot-separated decimal bytes.
    pub fn format_ip(addr: &[u8]) -> (r: String)
        ensures
            r@ == dotted_dec(addr@),
    {
        format_dotted_dec(addr)
    }
}

/// The name of an ARP operation code.
pub open spec fn arp_operation_name(op: u16) -> Seq<char> {
    if op == 1 {
        "REQUEST"@
    } else if op == 2 {
        "REPLY"@
    } else {
        "???"@
    }
}

} // verus!
