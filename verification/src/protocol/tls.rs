//! TLS records and the ClientHello handshake message (RFC 5246, RFC 8446):
//! versions, cipher suites, server name (SNI) and ALPN protocols.
use vstd::prelude::*;
use vstd::utf8::{decode_utf8, valid_utf8};

use super::slice_range;
use crate::text::{be16, read_be16, string_of, utf8_str};

verus! {

/// What a ClientHello reveals.
pub struct TlsClientHello {
    /// Version of the record that carried the message.
    pub record_version: u16,
    /// Highest version the client offers.
    pub client_version: u16,
    /// Server Name Indication: the host name the client asks for.
    pub sni: Option<String>,
    pub cipher_suites: Vec<u16>,
    /// ALPN protocol names, such as `h2` or `http/1.1`.
    pub alpn: Vec<String>,
}

/// A ClientHello as values: record version, client version, server name,
/// cipher suites and ALPN protocols.
pub type HelloView = (u16, u16, Option<Seq<char>>, Seq<u16>, Seq<Seq<char>>);

/// The text of an optional string.
pub open spec fn opt_text(o: Option<String>) -> Option<Seq<char>> {
    match o {
        Some(s) => Some(s@),
        None => None,
    }
}

/// The texts of a list of strings.
pub open spec fn texts(v: Seq<String>) -> Seq<Seq<char>> {
    v.map_values(|s: String| s@)
}

impl View for TlsClientHello {
    type V = HelloView;

    open spec fn view(&self) -> HelloView {
        (self.record_version, self.client_version, opt_text(self.sni), self.cipher_suites@, texts(self.alpn@))
    }
}

/// The host name of an SNI extension body: the list length must fit, and
/// the first entry of type 0 (host name) whose name fits is taken; it is
/// `None` when that name is not UTF-8 or no entry fits.
pub open spec fn sni_entries(d: Seq<u8>, pos: int) -> Option<Seq<char>>
    decreases d.len() - pos,
{
    if pos < 0 || pos + 3 > d.len() {
        None
    } else {
        let name_len = be16(d[pos + 1], d[pos + 2]);
        let p = pos + 3;
        if d[pos] == 0 && p + name_len <= d.len() {
            if valid_utf8(d.subrange(p, p + name_len)) {
                Some(decode_utf8(d.subrange(p, p + name_len)))
            } else {
                None
            }
        } else if p + name_len > d.len() {
            None
        } else {
            sni_entries(d, p + name_len)
        }
    }
}

pub open spec fn sni_of(d: Seq<u8>) -> Option<Seq<char>> {
    if d.len() < 3 || be16(d[0], d[1]) + 2 > d.len() {
        None
    } else {
        sni_entries(d, 2)
    }
}

/// The protocol names of an ALPN extension body from `pos` on: each is a
/// length byte and that many bytes; names that do not fit or are not UTF-8
/// are skipped.
pub open spec fn alpn_entries(d: Seq<u8>, pos: int) -> Seq<Seq<char>>
    decreases d.len() - pos,
{
    if pos < 0 || pos >= d.len() {
        seq![]
    } else {
        let len = d[pos] as int;
        let p = pos + 1;
        let here: Seq<Seq<char>> = if p + len <= d.len() && valid_utf8(d.subrange(p, p + len)) {
            seq![decode_utf8(d.subrange(p, p + len))]
        } else {
            seq![]
        };
        if p + len >= d.len() {
            here
        } else {
            here + alpn_entries(d, p + len)
        }
    }
}

pub open spec fn alpn_of(d: Seq<u8>) -> Seq<Seq<char>> {
    if d.len() < 2 || be16(d[0], d[1]) + 2 > d.len() {
        seq![]
    } else {
        alpn_entries(d, 2)
    }
}

/// Server name and ALPN list after the extensions from `pos` up to `end`:
/// a later SNI or ALPN extension replaces an earlier one; scanning stops at
/// an extension that runs past `end`.
pub open spec fn extension_scan(d: Seq<u8>, pos: int, end: int, sni: Option<Seq<char>>, alpn: Seq<Seq<char>>) -> (Option<Seq<char>>, Seq<Seq<char>>)
    decreases end - pos,
{
    if pos < 0 || pos + 4 > end {
        (sni, alpn)
    } else {
        let ext_type = be16(d[pos], d[pos + 1]);
        let len = be16(d[pos + 2], d[pos + 3]);
        let p = pos + 4;
        if p + len > end {
            (sni, alpn)
        } else {
            let body = d.subrange(p, p + len);
            let sni2 = if ext_type == 0 { sni_of(body) } else { sni };
            let alpn2 = if ext_type == 0x10 { alpn_of(body) } else { alpn };
            extension_scan(d, p + len, end, sni2, alpn2)
        }
    }
}

/// The cipher suites of a list of `len` bytes at `pos`: two bytes each, as
/// long as the second byte lies inside the message.
pub open spec fn cipher_list(d: Seq<u8>, pos: int, len: int) -> Seq<u16> {
    let by_list = (len + 1) / 2;
    let by_data = (d.len() - pos) / 2;
    let n = if by_list < by_data { by_list } else { by_data };
    Seq::new(n as nat, |k: int| be16(d[pos + 2 * k], d[pos + 2 * k + 1]) as u16)
}

/// Offset of the compression methods: behind the session id and the cipher
/// suites, or `None` when a field runs past the message.
pub open spec fn hello_positions(d: Seq<u8>) -> Option<(int, int, int)> {
    let sid_end = 39 + d[38] as int;
    if sid_end > d.len() || sid_end + 2 > d.len() {
        None
    } else {
        let cs_len = be16(d[sid_end], d[sid_end + 1]);
        let cs_start = sid_end + 2;
        if cs_start + cs_len > d.len() {
            None
        } else {
            Some((cs_start, cs_len, cs_start + cs_len))
        }
    }
}

/// The ClientHello in a handshake message, or `None`: type 1, at least 42
/// bytes, and session id, cipher suites and compression methods that fit.
/// Extensions are read when two more bytes are there; their declared length
/// must fit.
pub open spec fn handshake_hello(d: Seq<u8>, record_version: u16) -> Option<HelloView> {
    if d.len() < 42 || d[0] != 1 {
        None
    } else {
        match hello_positions(d) {
            None => None,
            Some((cs_start, cs_len, comp)) => {
                if comp >= d.len() {
                    None
                } else {
                    let ext = comp + 1 + d[comp] as int;
                    if ext > d.len() {
                        None
                    } else {
                        let client_version = be16(d[4], d[5]) as u16;
                        let ciphers = cipher_list(d, cs_start, cs_len);
                        if ext + 2 <= d.len() {
                            let end = ext + 2 + be16(d[ext], d[ext + 1]);
                            if end > d.len() {
                                None
                            } else {
                                let found = extension_scan(d, ext + 2, end, None, seq![]);
                                Some((record_version, client_version, found.0, ciphers, found.1))
                            }
                        } else {
                            Some((record_version, client_version, None, ciphers, seq![]))
                        }
                    }
                }
            }
        }
    }
}

/// The first ClientHello in the handshake records from `off` on. Only
/// handshake records (content type 22) are read; any other record, or a
/// record that runs past the data, ends the search with `None`.
pub open spec fn hello_in_records(data: Seq<u8>, off: int) -> Option<HelloView>
    decreases data.len() - off,
{
    if off < 0 || off + 5 > data.len() {
        None
    } else if data[off] != 22 {
        None
    } else {
        let version = be16(data[off + 1], data[off + 2]) as u16;
        let len = be16(data[off + 3], data[off + 4]);
        if off + 5 + len > data.len() {
            None
        } else {
            match handshake_hello(data.subrange(off + 5, off + 5 + len), version) {
                Some(h) => Some(h),
                None => hello_in_records(data, off + 5 + len),
            }
        }
    }
}

/// Finds the ClientHello in a TCP payload of TLS records; `None` when there
/// is none.
pub fn parse_client_hello(data: &[u8]) -> (r: Option<TlsClientHello>)
    ensures
        match r {
            Some(h) => hello_in_records(data@, 0) == Some(h@),
            None => hello_in_records(data@, 0) is None,
        },
{
    let mut offset: usize = 0;
    while offset <= data.len() && data.len() - offset >= 5
        invariant
            hello_in_records(data@, 0) == hello_in_records(data@, offset as int),
        decreases data@.len() - offset,
    {
        if data[offset] != 22 {
            return None;
        }
        let record_version = read_be16(data[offset + 1], data[offset + 2]);
        let record_len = read_be16(data[offset + 3], data[offset + 4]) as usize;
        if data.len() - offset - 5 < record_len {
            return None;
        }
        let payload = slice_range(data, offset + 5, offset + 5 + record_len);
        if let Some(hello) = parse_handshake_client_hello(payload, record_version) {
            return Some(hello);
        }
        offset = offset + 5 + record_len;
    }
    None
}

/// The ClientHello of one handshake message.
pub fn parse_handshake_client_hello(data: &[u8], record_version: u16) -> (r: Option<TlsClientHello>)
    ensures
        match r {
            Some(h) => handshake_hello(data@, record_version) == Some(h@),
            None => handshake_hello(data@, record_version) is None,
        },
{
    if data.len() < 42 {
        return None;
    }
    if data[0] != 1 {
        return None;
    }
    let client_version = read_be16(data[4], data[5]);
    let mut pos: usize = 38;
    let session_id_len = data[pos] as usize;
    pos = pos + 1 + session_id_len;
    if pos > data.len() {
        return None;
    }
    if data.len() - pos < 2 {
        return None;
    }
    let cipher_suites_len = read_be16(data[pos], data[pos + 1]) as usize;
    pos = pos + 2;
    if data.len() - pos < cipher_suites_len {
        return None;
    }
    let cipher_suites = read_ciphers(data, pos, cipher_suites_len);
    pos = pos + cipher_suites_len;
    if pos >= data.len() {
        return None;
    }
    let comp_methods_len = data[pos] as usize;
    pos = pos + 1 + comp_methods_len;
    if pos > data.len() {
        return None;
    }
    let mut sni: Option<String> = None;
    let mut alpn: Vec<String> = Vec::new();
    if data.len() - pos >= 2 {
        let extensions_len = read_be16(data[pos], data[pos + 1]) as usize;
        pos = pos + 2;
        if data.len() - pos < extensions_len {
            return None;
        }
        let ext_end = pos + extensions_len;
        let ghost start = pos as int;
        proof {
            assert(texts(alpn@) =~= seq![]);
        }
        while pos <= ext_end && ext_end - pos >= 4
            invariant
                start <= pos,
                ext_end <= data@.len(),
                extension_scan(data@, start, ext_end as int, None, seq![])
                    == extension_scan(data@, pos as int, ext_end as int, opt_text(sni), texts(alpn@)),
            ensures
                extension_scan(data@, start, ext_end as int, None, seq![]) == (opt_text(sni), texts(alpn@)),
            decreases ext_end - pos,
        {
            let ext_type = read_be16(data[pos], data[pos + 1]);
            let ext_len = read_be16(data[pos + 2], data[pos + 3]) as usize;
            let body_start = pos + 4;
            if ext_end - body_start < ext_len {
                break;
            }
            let body = slice_range(data, body_start, body_start + ext_len);
            if ext_type == 0 {
                sni = parse_sni_extension(body);
            } else if ext_type == 0x10 {
                alpn = parse_alpn_extension(body);
            }
            pos = body_start + ext_len;
        }
    } else {
        proof {
            assert(texts(alpn@) =~= seq![]);
        }
    }
    let h = TlsClientHello { record_version, client_version, sni, cipher_suites, alpn };
    Some(h)
}

fn read_ciphers(data: &[u8], pos: usize, len: usize) -> (r: Vec<u16>)
    requires
        pos + len <= data@.len(),
        len < 65536,
    ensures
        r@ == cipher_list(data@, pos as int, len as int),
{
    let mut suites: Vec<u16> = Vec::new();
    let mut i: usize = 0;
    let ghost target = cipher_list(data@, pos as int, len as int);
    while i < len
        invariant
            pos + len <= data@.len(),
            i % 2 == 0,
            i <= len + 1,
            len < 65536,
            target == cipher_list(data@, pos as int, len as int),
            suites@.len() <= target.len(),
            suites@ == target.take(suites@.len() as int),
            suites@.len() == i / 2 || (suites@.len() == target.len() && pos + i + 1 >= data@.len()),
            suites@.len() < target.len() ==> suites@.len() == i / 2,
        decreases len + 1 - i,
    {
        if i + 1 < data.len() - pos {
            let v = read_be16(data[pos + i], data[pos + i + 1]);
            proof {
                assert(suites@.len() == i / 2);
                assert(suites@.len() < target.len());
                assert(target[suites@.len() as int] == v);
            }
            suites.push(v);
            proof {
                assert(suites@ =~= target.take(suites@.len() as int));
            }
        } else {
            proof {
                assert(suites@.len() >= target.len()) by {
                    if suites@.len() < target.len() {
                        assert(suites@.len() == i / 2);
                    }
                }
            }
        }
        i = i + 2;
    }
    proof {
        assert(suites@.len() == target.len()) by {
            if suites@.len() < target.len() {
                assert(suites@.len() == i / 2);
            }
        }
        assert(suites@ =~= target);
    }
    suites
}

/// The host name of an SNI extension body.
pub fn parse_sni_extension(data: &[u8]) -> (r: Option<String>)
    ensures
        opt_text(r) == sni_of(data@),
{
    if data.len() < 3 {
        return None;
    }
    let list_len = read_be16(data[0], data[1]) as usize;
    if list_len + 2 > data.len() {
        return None;
    }
    let mut pos: usize = 2;
    while pos <= data.len() && data.len() - pos >= 3
        invariant
            2 <= pos,
            sni_of(data@) == sni_entries(data@, pos as int),
        decreases data@.len() - pos,
    {
        let name_type = data[pos];
        let name_len = read_be16(data[pos + 1], data[pos + 2]) as usize;
        pos = pos + 3;
        if name_type == 0 && data.len() - pos >= name_len {
            return match utf8_str(slice_range(data, pos, pos + name_len)) {
                Some(text) => Some(string_of(text)),
                None => None,
            };
        }
        if data.len() - pos < name_len {
            return None;
        }
        pos = pos + name_len;
    }
    None
}

/// The protocol names of an ALPN extension body.
pub fn parse_alpn_extension(data: &[u8]) -> (r: Vec<String>)
    ensures
        texts(r@) == alpn_of(data@),
{
    let mut protocols: Vec<String> = Vec::new();
    if data.len() < 2 {
        assert(texts(protocols@) =~= seq![]);
        return protocols;
    }
    let list_len = read_be16(data[0], data[1]) as usize;
    if list_len + 2 > data.len() {
        assert(texts(protocols@) =~= seq![]);
        return protocols;
    }
    let mut pos: usize = 2;
    proof {
        assert(texts(protocols@) + alpn_entries(data@, 2) =~= alpn_entries(data@, 2));
    }
    while pos < data.len()
        invariant
            2 <= pos <= data@.len(),
            alpn_of(data@) == texts(protocols@) + alpn_entries(data@, pos as int),
        decreases data@.len() - pos,
    {
        let proto_len = data[pos] as usize;
        pos = pos + 1;
        let ghost before = texts(protocols@);
        let ghost here: Seq<Seq<char>> = if pos + proto_len <= data@.len() && valid_utf8(data@.subrange(pos as int, pos + proto_len)) {
            seq![decode_utf8(data@.subrange(pos as int, pos + proto_len))]
        } else {
            seq![]
        };
        if data.len() - pos >= proto_len {
            if let Some(text) = utf8_str(slice_range(data, pos, pos + proto_len)) {
                protocols.push(string_of(text));
            }
        }
        proof {
            assert(texts(protocols@) =~= before + here);
        }
        if data.len() - pos <= proto_len {
            proof {
                assert(alpn_entries(data@, (pos - 1) as int) == here);
                assert(texts(protocols@) + alpn_entries(data@, data@.len() as int) =~= texts(protocols@));
            }
            pos = data.len();
        } else {
            proof {
                assert(before + (here + alpn_entries(data@, pos + proto_len)) =~= texts(protocols@) + alpn_entries(data@, pos + proto_len));
            }
            pos = pos + proto_len;
        }
    }
    proof {
        assert(texts(protocols@) + seq![] =~= texts(protocols@));
    }
    protocols
}

/// The name of a cipher suite (a common subset), else `???`.
pub open spec fn cipher_suite_text(id: u16) -> Seq<char> {
    if id == 0x0000 { "TLS_NULL_WITH_NULL_NULL"@ }
    else if id == 0x000A { "TLS_RSA_WITH_3DES_EDE_CBC_SHA"@ }
    else if id == 0x002F { "TLS_RSA_WITH_AES_128_CBC_SHA"@ }
    else if id == 0x0035 { "TLS_RSA_WITH_AES_256_CBC_SHA"@ }
    else if id == 0x003C { "TLS_RSA_WITH_AES_128_CBC_SHA256"@ }
    else if id == 0x009C { "TLS_RSA_WITH_AES_128_GCM_SHA256"@ }
    else if id == 0x009D { "TLS_RSA_WITH_AES_256_GCM_SHA384"@ }
    else if id == 0xC02B { "TLS_ECDHE_ECDSA_WITH_AES_128_GCM_SHA256"@ }
    else if id == 0xC02C { "TLS_ECDHE_ECDSA_WITH_AES_256_GCM_SHA384"@ }
    else if id == 0xC02F { "TLS_ECDHE_RSA_WITH_AES_128_GCM_SHA256"@ }
    else if id == 0xC030 { "TLS_ECDHE_RSA_WITH_AES_256_GCM_SHA384"@ }
    else if id == 0xCCA8 { "TLS_ECDHE_RSA_WITH_CHACHA20_POLY1305_SHA256"@ }
    else if id == 0xCCA9 { "TLS_ECDHE_ECDSA_WITH_CHACHA20_POLY1305_SHA256"@ }
    else if id == 0x1301 { "TLS_AES_128_GCM_SHA256 (TLS 1.3)"@ }
    else if id == 0x1302 { "TLS_AES_256_GCM_SHA384 (TLS 1.3)"@ }
    else if id == 0x1303 { "TLS_CHACHA20_POLY1305_SHA256 (TLS 1.3)"@ }
    else { "???"@ }
}

/// The name of a cipher suite id.
pub fn cipher_suite_name(id: u16) -> (r: &'static str)
    ensures
        r@ == cipher_suite_text(id),
{
    match id {
        0x0000 => "TLS_NULL_WITH_NULL_NULL",
        0x000A => "TLS_RSA_WITH_3DES_EDE_CBC_SHA",
        0x002F => "TLS_RSA_WITH_AES_128_CBC_SHA",
        0x0035 => "TLS_RSA_WITH_AES_256_CBC_SHA",
        0x003C => "TLS_RSA_WITH_AES_128_CBC_SHA256",
        0x009C => "TLS_RSA_WITH_AES_128_GCM_SHA256",
        0x009D => "TLS_RSA_WITH_AES_256_GCM_SHA384",
        0xC02B => "TLS_ECDHE_ECDSA_WITH_AES_128_GCM_SHA256",
        0xC02C => "TLS_ECDHE_ECDSA_WITH_AES_256_GCM_SHA384",
        0xC02F => "TLS_ECDHE_RSA_WITH_AES_128_GCM_SHA256",
        0xC030 => "TLS_ECDHE_RSA_WITH_AES_256_GCM_SHA384",
        0xCCA8 => "TLS_ECDHE_RSA_WITH_CHACHA20_POLY1305_SHA256",
        0xCCA9 => "TLS_ECDHE_ECDSA_WITH_CHACHA20_POLY1305_SHA256",
        0x1301 => "TLS_AES_128_GCM_SHA256 (TLS 1.3)",
        0x1302 => "TLS_AES_256_GCM_SHA384 (TLS 1.3)",
        0x1303 => "TLS_CHACHA20_POLY1305_SHA256 (TLS 1.3)",
        _ => "???",
    }
}

/// The name of a TLS version number.
pub open spec fn version_text(v: u16) -> Seq<char> {
    if v == 0x0301 { "TLS 1.0"@ }
    else if v == 0x0302 { "TLS 1.1"@ }
    else if v == 0x0303 { "TLS 1.2"@ }
    else if v == 0x0304 { "TLS 1.3"@ }
    else { "???"@ }
}

/// The name of a TLS version number.
pub fn version_name(v: u16) -> (r: &'static str)
    ensures
        r@ == version_text(v),
{
    match v {
        0x0301 => "TLS 1.0",
        0x0302 => "TLS 1.1",
        0x0303 => "TLS 1.2",
        0x0304 => "TLS 1.3",
        _ => "???",
    }
}

/// A ClientHello body with its session id left out: the length byte at
/// offset 38 set to 0 and the `d[38]` session id bytes behind it removed.
pub open spec fn without_session_id(d: Seq<u8>) -> Seq<u8> {
    d.take(38) + seq![0u8] + d.skip(39 + d[38] as int)
}

/// The session id is skipped by its length: a ClientHello whose session id
/// has length `L` (byte 38) reads its cipher-suite length at offset
/// `39 + L`, so what it yields (versions, cipher suites, server name, ALPN
/// protocols, or no ClientHello at all) does not depend on the session id's
/// bytes and is that of the same message with an empty session id.
pub proof fn law_session_id_is_skipped(d: Seq<u8>, record_version: u16)
    requires
        d.len() >= 39,
        39 + d[38] as int <= d.len(),
    ensures
        handshake_hello(d, record_version) == handshake_hello(without_session_id(d), record_version),
{
    let e = without_session_id(d);
    let l = d[38] as int;
    assert(e.len() == d.len() - l);
    assert(forall|i: int| 0 <= i < 38 ==> #[trigger] e[i] == d[i]);
    assert(e[38] == 0);
    assert(forall|i: int| 39 <= i < e.len() ==> #[trigger] e[i] == d[i + l]);
    if d.len() >= 42 && d[0] == 1 && e.len() >= 42 {
        assert(e[0] == d[0] && e[4] == d[4] && e[5] == d[5]);
        assert(e[39] == d[39 + l] && e[40] == d[40 + l]);
        match hello_positions(d) {
            None => {},
            Some((cs_start, cs_len, comp)) => {
                assert(hello_positions(e) == Some((cs_start - l, cs_len, comp - l)));
                assert(cipher_list(e, cs_start - l, cs_len) =~= cipher_list(d, cs_start, cs_len)) by {
                    let a = cipher_list(e, cs_start - l, cs_len);
                    let b = cipher_list(d, cs_start, cs_len);
                    assert forall|k: int| 0 <= k < a.len() implies #[trigger] a[k] == b[k] by {
                        assert(e[cs_start - l + 2 * k] == d[cs_start + 2 * k]);
                        assert(e[cs_start - l + 2 * k + 1] == d[cs_start + 2 * k + 1]);
                    }
                }
                if comp < d.len() {
                    assert(e[comp - l] == d[comp]);
                    let ext = comp + 1 + d[comp] as int;
                    if ext + 2 <= d.len() {
                        assert(e[ext - l] == d[ext] && e[ext - l + 1] == d[ext + 1]);
                        let end = ext + 2 + be16(d[ext], d[ext + 1]);
                        if end <= d.len() {
                            lemma_scan_shift(e, d, l, ext - l + 2, end - l, None, seq![]);
                        }
                    }
                }
            },
        }
    }
}

/// The extension scan reads the same values from bytes moved `k` places
/// further back.
proof fn lemma_scan_shift(
    d1: Seq<u8>,
    d2: Seq<u8>,
    k: int,
    pos: int,
    end: int,
    sni: Option<Seq<char>>,
    alpn: Seq<Seq<char>>,
)
    requires
        0 <= k,
        0 <= pos,
        end <= d1.len(),
        end + k <= d2.len(),
        forall|i: int| pos <= i < end ==> #[trigger] d1[i] == d2[i + k],
    ensures
        extension_scan(d1, pos, end, sni, alpn) == extension_scan(d2, pos + k, end + k, sni, alpn),
    decreases end - pos,
{
    if pos + 4 <= end {
        assert(d1[pos] == d2[pos + k] && d1[pos + 1] == d2[pos + k + 1]);
        assert(d1[pos + 2] == d2[pos + k + 2] && d1[pos + 3] == d2[pos + k + 3]);
        let ext_type = be16(d1[pos], d1[pos + 1]);
        let len = be16(d1[pos + 2], d1[pos + 3]);
        let p = pos + 4;
        if p + len <= end {
            assert(d1.subrange(p, p + len) =~= d2.subrange(p + k, p + k + len)) by {
                assert forall|i: int| 0 <= i < len implies #[trigger] d1.subrange(p, p + len)[i] == d2.subrange(p + k, p + k + len)[i] by {
                    assert(d1[p + i] == d2[p + i + k]);
                }
            }
            let body = d1.subrange(p, p + len);
            let sni2 = if ext_type == 0 { sni_of(body) } else { sni };
            let alpn2 = if ext_type == 0x10 { alpn_of(body) } else { alpn };
            lemma_scan_shift(d1, d2, k, p + len, end, sni2, alpn2);
        }
    }
}

} // verus!
