//! DHCP messages (RFC 2131): the fixed 240-byte BOOTP header and, behind
//! the magic cookie, the type-length-value options (RFC 2132).
use vstd::prelude::*;

use super::{slice_range, ParseError};
use crate::text::{be16, be32, colon_hex2, dotted_dec, format_colon_hex2, format_dotted_dec};
use super::tcp::read_be32;
use crate::text::read_be16;

verus! {

/// One option; its value borrows from the parsed bytes.
pub struct DhcpOption<'a> {
    pub code: u8,
    pub value: &'a [u8],
}

/// A DHCP message.
pub struct DhcpPacket<'a> {
    /// 1 = BOOTREQUEST, 2 = BOOTREPLY.
    pub op: u8,
    pub htype: u8,
    pub hlen: u8,
    pub hops: u8,
    pub xid: u32,
    pub secs: u16,
    pub flags: u16,
    pub ciaddr: [u8; 4],
    /// The address the server assigns.
    pub yiaddr: [u8; 4],
    pub siaddr: [u8; 4],
    pub giaddr: [u8; 4],
    pub chaddr: [u8; 16],
    /// The options in the order they appear.
    pub options: Vec<DhcpOption<'a>>,
}

/// The message type carried in option 53.
#[derive(Debug, Clone, Copy, PartialEq, Eq)]
pub enum DhcpMessageType {
    Discover,
    Offer,
    Request,
    Decline,
    Ack,
    Nak,
    Release,
    Inform,
    Unknown,
}

impl<'a> View for DhcpOption<'a> {
    type V = (u8, Seq<u8>);

    open spec fn view(&self) -> (u8, Seq<u8>) {
        (self.code, self.value@)
    }
}

/// The options that start at `pos`: pad bytes (0) are skipped, the end
/// option (255) stops, and so does an option whose value runs past the data.
/// Reading stops when fewer than two bytes remain.
pub open spec fn dhcp_options_from(raw: Seq<u8>, pos: int) -> Seq<(u8, Seq<u8>)>
    decreases raw.len() - pos,
{
    if pos < 0 || pos + 1 >= raw.len() {
        seq![]
    } else if raw[pos] == 0 {
        dhcp_options_from(raw, pos + 1)
    } else if raw[pos] == 255 {
        seq![]
    } else {
        let len = raw[pos + 1] as int;
        if pos + 2 + len > raw.len() {
            seq![]
        } else {
            seq![(raw[pos], raw.subrange(pos + 2, pos + 2 + len))] + dhcp_options_from(raw, pos + 2 + len)
        }
    }
}

/// The options of a message: read from byte 244 on when bytes 240–243 hold
/// the magic cookie 63 82 53 63 and more than 244 bytes are there, else none.
pub open spec fn dhcp_options(raw: Seq<u8>) -> Seq<(u8, Seq<u8>)> {
    if raw.len() > 244 && raw[240] == 0x63 && raw[241] == 0x82 && raw[242] == 0x53 && raw[243] == 0x63 {
        dhcp_options_from(raw, 244)
    } else {
        seq![]
    }
}

/// The value of the first option with the given code.
pub open spec fn find_option_value(options: Seq<(u8, Seq<u8>)>, code: u8) -> Option<Seq<u8>>
    decreases options.len(),
{
    if options.len() == 0 {
        None
    } else if options[0].0 == code {
        Some(options[0].1)
    } else {
        find_option_value(options.drop_first(), code)
    }
}

/// The message type that a value of option 53 names.
pub open spec fn message_type_of(v: u8) -> DhcpMessageType {
    if v == 1 { DhcpMessageType::Discover }
    else if v == 2 { DhcpMessageType::Offer }
    else if v == 3 { DhcpMessageType::Request }
    else if v == 4 { DhcpMessageType::Decline }
    else if v == 5 { DhcpMessageType::Ack }
    else if v == 6 { DhcpMessageType::Nak }
    else if v == 7 { DhcpMessageType::Release }
    else if v == 8 { DhcpMessageType::Inform }
    else { DhcpMessageType::Unknown }
}

/// The upper-case name of a message type.
pub open spec fn message_type_name(t: DhcpMessageType) -> Seq<char> {
    match t {
        DhcpMessageType::Discover => "DISCOVER"@,
        DhcpMessageType::Offer => "OFFER"@,
        DhcpMessageType::Request => "REQUEST"@,
        DhcpMessageType::Decline => "DECLINE"@,
        DhcpMessageType::Ack => "ACK"@,
        DhcpMessageType::Nak => "NAK"@,
        DhcpMessageType::Release => "RELEASE"@,
        DhcpMessageType::Inform => "INFORM"@,
        DhcpMessageType::Unknown => "???"@,
    }
}

/// An option value that is a four-byte IPv4 address.
pub open spec fn as_ipv4(v: Option<Seq<u8>>) -> Option<Seq<u8>> {
    match v {
        Some(bytes) => if bytes.len() == 4 { Some(bytes) } else { None },
        None => None,
    }
}

impl DhcpMessageType {
    /// The message type a value of option 53 names; values other than 1–8
    /// are `Unknown`.
    pub fn from_u8(v: u8) -> (t: Self)
        ensures
            t == message_type_of(v),
    {
        match v {
            1 => DhcpMessageType::Discover,
            2 => DhcpMessageType::Offer,
            3 => DhcpMessageType::Request,
            4 => DhcpMessageType::Decline,
            5 => DhcpMessageType::Ack,
            6 => DhcpMessageType::Nak,
            7 => DhcpMessageType::Release,
            8 => DhcpMessageType::Inform,
            _ => DhcpMessageType::Unknown,
        }
    }

    /// The upper-case name of the type.
    pub fn name(&self) -> (r: &'static str)
        ensures
            r@ == message_type_name(*self),
    {
        match self {
            DhcpMessageType::Discover => "DISCOVER",
            DhcpMessageType::Offer => "OFFER",
            DhcpMessageType::Request => "REQUEST",
            DhcpMessageType::Decline => "DECLINE",
            DhcpMessageType::Ack => "ACK",
            DhcpMessageType::Nak => "NAK",
            DhcpMessageType::Release => "RELEASE",
            DhcpMessageType::Inform => "INFORM",
            DhcpMessageType::Unknown => "???",
        }
    }
}

impl<'a> DhcpPacket<'a> {
    /// The option list as values.
    pub open spec fn option_views(self) -> Seq<(u8, Seq<u8>)> {
        self.options@.map_values(|o: DhcpOption<'a>| o@)
    }

    /// The message holds the fields of the accepted bytes `raw`.
    pub open spec fn decodes(self, raw: Seq<u8>) -> bool {
        &&& self.op == raw[0]
        &&& self.htype == raw[1]
        &&& self.hlen == raw[2]
        &&& self.hops == raw[3]
        &&& self.xid as int == be32(raw[4], raw[5], raw[6], raw[7])
        &&& self.secs as int == be16(raw[8], raw[9])
        &&& self.flags as int == be16(raw[10], raw[11])
        &&& self.ciaddr@ == raw.subrange(12, 16)
        &&& self.yiaddr@ == raw.subrange(16, 20)
        &&& self.siaddr@ == raw.subrange(20, 24)
        &&& self.giaddr@ == raw.subrange(24, 28)
        &&& self.chaddr@ == raw.subrange(28, 44)
        &&& self.option_views() == dhcp_options(raw)
    }

    /// Parses a message of at least 240 bytes; options are read only behind
    /// a correct magic cookie.
    pub fn parse(raw: &'a [u8]) -> (r: Result<Self, ParseError>)
        ensures
            match r {
                Ok(p) => raw@.len() >= 240 && p.decodes(raw@),
                Err(e) => raw@.len() < 240 && e == ParseError::TooShort,
            },
    {
        if raw.len() < 240 {
            return Err(ParseError::TooShort);
        }
        let mut options: Vec<DhcpOption<'a>> = Vec::new();
        if raw.len() > 244 && raw[240] == 0x63 && raw[241] == 0x82 && raw[242] == 0x53 && raw[243] == 0x63 {
            options = parse_options(raw, 244);
        } else {
            assert(options@.map_values(|o: DhcpOption<'a>| o@) =~= seq![]);
        }
        let p = DhcpPacket {
            op: raw[0],
            htype: raw[1],
            hlen: raw[2],
            hops: raw[3],
            xid: read_be32(raw[4], raw[5], raw[6], raw[7]),
            secs: read_be16(raw[8], raw[9]),
            flags: read_be16(raw[10], raw[11]),
            ciaddr: [raw[12], raw[13], raw[14], raw[15]],
            yiaddr: [raw[16], raw[17], raw[18], raw[19]],
            siaddr: [raw[20], raw[21], raw[22], raw[23]],
            giaddr: [raw[24], raw[25], raw[26], raw[27]],
            chaddr: [
                raw[28], raw[29], raw[30], raw[31], raw[32], raw[33], raw[34], raw[35],
                raw[36], raw[37], raw[38], raw[39], raw[40], raw[41], raw[42], raw[43],
            ],
            options,
        };
        assert(p.ciaddr@ =~= raw@.subrange(12, 16));
        assert(p.yiaddr@ =~= raw@.subrange(16, 20));
        assert(p.siaddr@ =~= raw@.subrange(20, 24));
        assert(p.giaddr@ =~= raw@.subrange(24, 28));
        assert(p.chaddr@ =~= raw@.subrange(28, 44));
        Ok(p)
    }

    /// The message type (option 53), from the first byte of its value.
    pub fn message_type(&self) -> (r: Option<DhcpMessageType>)
        ensures
            r == (match find_option_value(self.option_views(), 53) {
                Some(v) => if v.len() > 0 { Some(message_type_of(v[0])) } else { None },
                None => None,
            }),
    {
        match self.get_option_u8(53) {
            Some(v) => Some(DhcpMessageType::from_u8(v)),
            None => None,
        }
    }

    /// The requested IP address (option 50), when its value has four bytes.
    pub fn requested_ip(&self) -> (r: Option<[u8; 4]>)
        ensures
            match r {
                Some(a) => as_ipv4(find_option_value(self.option_views(), 50)) == Some(a@),
                None => as_ipv4(find_option_value(self.option_views(), 50)) is None,
            },
    {
        self.ipv4_option(50)
    }

    /// The server identifier (option 54), when its value has four bytes.
    pub fn server_identifier(&self) -> (r: Option<[u8; 4]>)
        ensures
            match r {
                Some(a) => as_ipv4(find_option_value(self.option_views(), 54)) == Some(a@),
                None => as_ipv4(find_option_value(self.option_views(), 54)) is None,
            },
    {
        self.ipv4_option(54)
    }

    fn ipv4_option(&self, code: u8) -> (r: Option<[u8; 4]>)
        ensures
            match r {
                Some(a) => as_ipv4(find_option_value(self.option_views(), code)) == Some(a@),
                None => as_ipv4(find_option_value(self.option_views(), code)) is None,
            },
    {
        match self.find_option(code) {
            Some(v) => {
                if v.len() == 4 {
                    let a = [v[0], v[1], v[2], v[3]];
                    assert(a@ =~= v@);
                    Some(a)
                } else {
                    None
                }
            },
            None => None,
        }
    }

    /// The value of the first option with the given code.
    pub fn find_option(&self, code: u8) -> (r: Option<&[u8]>)
        ensures
            match r {
                Some(v) => find_option_value(self.option_views(), code) == Some(v@),
                None => find_option_value(self.option_views(), code) is None,
            },
    {
        let ghost all = self.option_views();
        let mut i: usize = 0;
        assert(all.skip(0) =~= all);
        while i < self.options.len()
            invariant
                i <= self.options@.len(),
                all == self.option_views(),
                find_option_value(all, code) == find_option_value(all.skip(i as int), code),
            decreases self.options@.len() - i,
        {
            assert(all.skip(i as int).drop_first() =~= all.skip(i + 1));
            if self.options[i].code == code {
                return Some(self.options[i].value);
            }
            i = i + 1;
        }
        None
    }

    /// The first byte of the value of the first option with the given code.
    pub fn get_option_u8(&self, code: u8) -> (r: Option<u8>)
        ensures
            r == (match find_option_value(self.option_views(), code) {
                Some(v) => if v.len() > 0 { Some(v[0]) } else { None },
                None => None,
            }),
    {
        match self.find_option(code) {
            Some(v) => {
                if v.len() > 0 {
                    Some(v[0])
                } else {
                    None
                }
            },
            None => None,
        }
    }
}

/// Reads the options from `start` on.
fn parse_options<'a>(raw: &'a [u8], start: usize) -> (r: Vec<DhcpOption<'a>>)
    requires
        start <= raw@.len(),
    ensures
        r@.map_values(|o: DhcpOption<'a>| o@) == dhcp_options_from(raw@, start as int),
{
    let mut options: Vec<DhcpOption<'a>> = Vec::new();
    let mut pos = start;
    proof {
        assert(options@.map_values(|o: DhcpOption<'a>| o@) + dhcp_options_from(raw@, start as int) =~= dhcp_options_from(raw@, start as int));
    }
    while pos < raw.len() && raw.len() - pos > 1
        invariant
            start <= pos <= raw@.len(),
            dhcp_options_from(raw@, start as int) == options@.map_values(|o: DhcpOption<'a>| o@) + dhcp_options_from(raw@, pos as int),
        decreases raw@.len() - pos,
    {
        let code = raw[pos];
        if code == 0 {
            pos = pos + 1;
            continue;
        }
        if code == 255 {
            proof {
                let views = options@.map_values(|o: DhcpOption<'a>| o@);
                assert(views + seq![] =~= views);
            }
            return options;
        }
        let len = raw[pos + 1] as usize;
        if raw.len() - (pos + 2) < len {
            proof {
                let views = options@.map_values(|o: DhcpOption<'a>| o@);
                assert(views + seq![] =~= views);
            }
            return options;
        }
        let ghost before = options@.map_values(|o: DhcpOption<'a>| o@);
        let opt = DhcpOption { code, value: slice_range(raw, pos + 2, pos + 2 + len) };
        options.push(opt);
        proof {
            let after = options@.map_values(|o: DhcpOption<'a>| o@);
            assert(after =~= before.push(opt@));
            assert(before + (seq![opt@] + dhcp_options_from(raw@, (pos + 2 + len) as int)) =~= after + dhcp_options_from(raw@, (pos + 2 + len) as int));
        }
        pos = pos + 2 + len;
    }
    proof {
        let views = options@.map_values(|o: DhcpOption<'a>| o@);
        assert(views + seq![] =~= views);
    }
    options
}

/// An IPv4 address in dotted decimal.
pub fn format_ipv4(addr: &[u8; 4]) -> (r: String)
    ensures
        r@ == dotted_dec(addr@),
{
    format_dotted_dec(addr)
}

/// The first six bytes of a hardware address (all, when there are fewer) as
/// colon-separated pairs of hexadecimal digits.
pub fn format_mac(addr: &[u8]) -> (r: String)
    ensures
        r@ == colon_hex2(if addr@.len() > 6 { addr@.take(6) } else { addr@ }),
{
    if addr.len() > 6 {
        format_colon_hex2(slice_range(addr, 0, 6))
    } else {
        format_colon_hex2(addr)
    }
}

} // verus!
