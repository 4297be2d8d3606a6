//! Ethernet II frames, with an optional 802.1Q VLAN tag.
use vstd::prelude::*;

use super::{slice_from, ParseError};
use crate::text::{be16, colon_hex2, format_colon_hex2};

verus! {

/// An 802.1Q VLAN tag: priority, drop eligibility and VLAN id.
#[derive(Debug, Clone, Copy)]
pub struct VlanTag {
    /// Priority code point (0–7).
    pub pcp: u8,
    /// Drop eligible indicator.
    pub dei: bool,
    /// VLAN identifier (0–4095).
    pub vid: u16,
}

/// An Ethernet II frame; `ethernet_type` is the type of the payload, read
/// behind the VLAN tag when there is one.
pub struct EthernetFrame<'a> {
    pub dst_mac: [u8; 6],
    pub src_mac: [u8; 6],
    pub ethernet_type: u16,
    pub vlan: Option<VlanTag>,
    pub payload: &'a [u8],
}

/// The EtherType field at bytes 12–13.
pub open spec fn outer_ethertype(raw: Seq<u8>) -> int {
    be16(raw[12], raw[13])
}

/// Whether the frame carries an 802.1Q tag.
pub open spec fn has_vlan(raw: Seq<u8>) -> bool {
    outer_ethertype(raw) == 0x8100
}

/// Why a frame is rejected, or `None` when it is accepted.
pub open spec fn ethernet_error(raw: Seq<u8>) -> Option<ParseError> {
    if raw.len() < 14 {
        Some(ParseError::TooShort)
    } else if has_vlan(raw) && raw.len() < 18 {
        Some(ParseError::TooShort)
    } else {
        None
    }
}

/// The EtherType of the payload of an accepted frame (behind the VLAN tag
/// when there is one).
pub open spec fn payload_ethertype(raw: Seq<u8>) -> int {
    if has_vlan(raw) { be16(raw[16], raw[17]) } else { outer_ethertype(raw) }
}

/// Offset of the payload in an accepted frame.
pub open spec fn ethernet_payload_offset(raw: Seq<u8>) -> int {
    if has_vlan(raw) { 18 } else { 14 }
}

impl VlanTag {
    /// The tag decoded from its tag control information field.
    pub open spec fn decodes(self, tci: int) -> bool {
        &&& self.pcp as int == tci / 8192
        &&& self.dei == ((tci / 4096) % 2 == 1)
        &&& self.vid as int == tci % 4096
    }
}

impl<'a> EthernetFrame<'a> {
    /// The frame holds the fields of the accepted bytes `raw`.
    pub open spec fn decodes(self, raw: Seq<u8>) -> bool {
        &&& self.dst_mac@ == raw.subrange(0, 6)
        &&& self.src_mac@ == raw.subrange(6, 12)
        &&& if has_vlan(raw) {
            &&& self.ethernet_type as int == be16(raw[16], raw[17])
            &&& self.vlan matches Some(tag) && tag.decodes(be16(raw[14], raw[15]))
        } else {
            &&& self.ethernet_type as int == outer_ethertype(raw)
            &&& self.vlan is None
        }
        &&& self.payload@ == raw.subrange(ethernet_payload_offset(raw), raw.len() as int)
    }

    /// Parses the frame header. A frame needs 14 bytes, 18 when its
    /// EtherType is 0x8100 (an 802.1Q tag, skipped to read the real type).
    pub fn parse(raw: &'a [u8]) -> (r: Result<Self, ParseError>)
        ensures
            match r {
                Ok(frame) => ethernet_error(raw@) is None && frame.decodes(raw@),
                Err(e) => ethernet_error(raw@) == Some(e),
            },
    {
        if raw.len() < 14 {
            return Err(ParseError::TooShort);
        }
        let ethernet_type: u16 = raw[12] as u16 * 256 + raw[13] as u16;
        let mut vlan: Option<VlanTag> = None;
        let mut real_type = ethernet_type;
        let mut start: usize = 14;
        if ethernet_type == 0x8100 {
            if raw.len() < 18 {
                return Err(ParseError::TooShort);
            }
            let tci: u16 = raw[14] as u16 * 256 + raw[15] as u16;
            vlan = Some(VlanTag { pcp: (tci / 8192) as u8, dei: (tci / 4096) % 2 == 1, vid: tci % 4096 });
            real_type = raw[16] as u16 * 256 + raw[17] as u16;
            start = 18;
        }
        let dst_mac = [raw[0], raw[1], raw[2], raw[3], raw[4], raw[5]];
        let src_mac = [raw[6], raw[7], raw[8], raw[9], raw[10], raw[11]];
        let payload = slice_from(raw, start);
        let frame = EthernetFrame { dst_mac, src_mac, ethernet_type: real_type, vlan, payload };
        assert(frame.dst_mac@ =~= raw@.subrange(0, 6));
        assert(frame.src_mac@ =~= raw@.subrange(6, 12));
        Ok(frame)
    }

    /// A MAC address as `xx:xx:xx:xx:xx:xx`.
    pub fn format_mac(mac: &[u8; 6]) -> (r: String)
        ensures
            r@ == colon_hex2(mac@),
    {
        format_colon_hex2(mac)
    }
}

/// An accepted frame's payload starts 18 bytes in when it carries an
/// 802.1Q tag and 14 bytes in otherwise.
pub proof fn law_payload_offset(raw: Seq<u8>)
    requires
        ethernet_error(raw) is None,
    ensures
        raw.len() - raw.subrange(ethernet_payload_offset(raw), raw.len() as int).len() == (if be16(raw[12], raw[13]) == 0x8100 {
            18int
        } else {
            14int
        }),
{
}

} // verus!
