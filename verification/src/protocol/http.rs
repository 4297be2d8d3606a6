//! HTTP/1.x messages (RFC 7230 §3): the request or status line and the
//! header fields, with CRLF line ends.
use vstd::prelude::*;
use vstd::utf8::{decode_utf8, valid_utf8};

use super::{slice_range, ParseError};
use crate::text::{
    chars_of, find_char, find_char_from, string_from_range, string_of, trim, trimmed_string,
    unicode_lowercase, utf8_str,
};

verus! {

/// Whether a message is a request or a response.
#[derive(Debug, Clone, Copy, PartialEq, Eq)]
pub enum HTTPMessageKind {
    Request,
    Response,
}

/// An HTTP/1.x message: for a request, method, URI and version; for a
/// response, version, status code and reason; then the header fields.
#[derive(Debug)]
pub struct HTTPMessage<'a> {
    pub kind: HTTPMessageKind,
    pub method: Option<String>,
    pub uri: Option<String>,
    pub version: String,
    pub status_code: Option<u16>,
    pub reason: Option<String>,
    /// The header fields in their order, as (name, value).
    pub headers: Vec<(String, String)>,
    /// Where the body starts in `raw`: behind the empty line that ends the
    /// header.
    pub body_offset: usize,
    pub raw: &'a [u8],
}

/// The first line as values: kind, method, URI, version, status code, reason.
pub type FirstLine = (HTTPMessageKind, Option<Seq<char>>, Option<Seq<char>>, Seq<char>, Option<u16>, Option<Seq<char>>);

/// A whole message as values: the first line, the header fields and the
/// body offset. The bytes the message was read from (`raw`) are not part of
/// it: `parse` states that they are its input, unchanged.
pub type HttpView = (FirstLine, Seq<(Seq<char>, Seq<char>)>, int);

/// The text of an optional string.
pub open spec fn opt_chars(o: Option<String>) -> Option<Seq<char>> {
    match o {
        Some(s) => Some(s@),
        None => None,
    }
}

/// The texts of a list of header fields.
pub open spec fn header_texts(h: Seq<(String, String)>) -> Seq<(Seq<char>, Seq<char>)> {
    h.map_values(|p: (String, String)| (p.0@, p.1@))
}

impl<'a> View for HTTPMessage<'a> {
    type V = HttpView;

    open spec fn view(&self) -> HttpView {
        (
            (self.kind, opt_chars(self.method), opt_chars(self.uri), self.version@, self.status_code, opt_chars(self.reason)),
            header_texts(self.headers@),
            self.body_offset as int,
        )
    }
}

/// A CR LF pair at `p`.
pub open spec fn crlf_at(raw: Seq<u8>, p: int) -> bool {
    0 <= p && p + 1 < raw.len() && raw[p] == 13 && raw[p + 1] == 10
}

/// The first CR LF at or after `start`: the offset of its CR.
pub open spec fn crlf_from(raw: Seq<u8>, start: int) -> Option<int>
    decreases raw.len() - start,
{
    if start < 0 || start + 1 >= raw.len() {
        None
    } else if crlf_at(raw, start) {
        Some(start)
    } else {
        crlf_from(raw, start + 1)
    }
}

pub proof fn lemma_crlf_from_bounds(raw: Seq<u8>, start: int)
    ensures
        crlf_from(raw, start) matches Some(p) ==> start <= p && p + 1 < raw.len(),
    decreases raw.len() - start,
{
    if 0 <= start && start + 1 < raw.len() && !crlf_at(raw, start) {
        lemma_crlf_from_bounds(raw, start + 1);
    }
}

/// The message that a first line and the header result make.
pub open spec fn with_headers(first: FirstLine, headers: Result<(Seq<(Seq<char>, Seq<char>)>, int), ParseError>) -> Result<HttpView, ParseError> {
    match headers {
        Ok((h, body)) => Ok((first, h, body)),
        Err(x) => Err(x),
    }
}

/// The line split at spaces into at most three parts, as `splitn(3, ' ')`.
pub open spec fn split3(line: Seq<char>) -> Seq<Seq<char>> {
    match find_char(line, ' ', 0) {
        None => seq![line],
        Some(i) => {
            let rest = line.skip(i + 1);
            match find_char(rest, ' ', 0) {
                None => seq![line.take(i), rest],
                Some(j) => seq![line.take(i), rest.take(j), rest.skip(j + 1)],
            }
        }
    }
}

pub open spec fn is_digit(c: char) -> bool {
    '0' <= c <= '9'
}

/// The value of a sequence of decimal digits.
pub open spec fn digits_value(d: Seq<char>) -> int
    decreases d.len(),
{
    if d.len() == 0 {
        0
    } else {
        digits_value(d.drop_last()) * 10 + (d.last() as int - 48)
    }
}

/// The text behind an optional leading `+`.
pub open spec fn unsigned_digits(s: Seq<char>) -> Seq<char> {
    if s.len() > 0 && s[0] == '+' { s.drop_first() } else { s }
}

/// Every character is a decimal digit.
pub open spec fn all_digits(d: Seq<char>) -> bool {
    forall|i: int| 0 <= i < d.len() ==> is_digit(#[trigger] d[i])
}

/// A `u16` read from text as `u16::from_str` reads it: an optional `+`,
/// then at least one decimal digit and nothing else, at most 65535.
pub open spec fn parse_u16_text(s: Seq<char>) -> Option<u16> {
    let d = unsigned_digits(s);
    if d.len() == 0 || !all_digits(d) {
        None
    } else if digits_value(d) > 65535 {
        None
    } else {
        Some(digits_value(d) as u16)
    }
}

/// The fields of a request line (`METHOD URI [VERSION]`, version
/// `HTTP/0.9` when absent) or a status line (`HTTP/... CODE [REASON]`).
pub open spec fn first_line_fields(line: Seq<char>) -> Result<FirstLine, ParseError> {
    let parts = split3(line);
    if parts.len() < 2 {
        Err(ParseError::Malformed)
    } else if parts[0].len() >= 5 && parts[0].take(5) == seq!['H', 'T', 'T', 'P', '/'] {
        match parse_u16_text(parts[1]) {
            None => Err(ParseError::BadStatusCode),
            Some(code) => Ok((
                HTTPMessageKind::Response,
                None,
                None,
                parts[0],
                Some(code),
                if parts.len() == 3 { Some(parts[2]) } else { None },
            )),
        }
    } else {
        Ok((
            HTTPMessageKind::Request,
            Some(parts[0]),
            Some(parts[1]),
            if parts.len() == 3 { parts[2] } else { "HTTP/0.9"@ },
            None,
            None,
        ))
    }
}

/// A header line `Name: Value`, split at the first colon and trimmed.
pub open spec fn header_fields(line: Seq<char>) -> Option<(Seq<char>, Seq<char>)> {
    match find_char(line, ':', 0) {
        None => None,
        Some(i) => Some((trim(line.take(i)), trim(line.skip(i + 1)))),
    }
}

/// The header fields from `offset` up to the empty line, and the offset
/// behind that line. Lines without a colon are skipped.
pub open spec fn header_lines(raw: Seq<u8>, offset: int) -> Result<(Seq<(Seq<char>, Seq<char>)>, int), ParseError>
    decreases raw.len() - offset,
{
    if offset < 0 || offset >= raw.len() {
        Err(ParseError::Malformed)
    } else if crlf_at(raw, offset) {
        Ok((seq![], offset + 2))
    } else {
        match crlf_from(raw, offset) {
            None => Err(ParseError::Malformed),
            Some(end) => {
                proof {
                    lemma_crlf_from_bounds(raw, offset);
                }
                let bytes = raw.subrange(offset, end);
                if !valid_utf8(bytes) {
                    Err(ParseError::InvalidUtf8)
                } else {
                    let here: Seq<(Seq<char>, Seq<char>)> = match header_fields(decode_utf8(bytes)) {
                        Some(h) => seq![h],
                        None => seq![],
                    };
                    match header_lines(raw, end + 2) {
                        Ok((rest, body)) => Ok((here + rest, body)),
                        Err(e) => Err(e),
                    }
                }
            }
        }
    }
}

/// The message in `raw`, or why it is rejected. A message whose first line
/// ends the data (HTTP/0.9) has no header fields.
pub open spec fn http_message(raw: Seq<u8>) -> Result<HttpView, ParseError> {
    match crlf_from(raw, 0) {
        None => Err(ParseError::Malformed),
        Some(e) => {
            let line = raw.take(e);
            if !valid_utf8(line) {
                Err(ParseError::InvalidUtf8)
            } else {
                match first_line_fields(decode_utf8(line)) {
                    Err(x) => Err(x),
                    Ok(first) => {
                        if e + 2 >= raw.len() {
                            Ok((first, seq![], e + 2))
                        } else {
                            match header_lines(raw, e + 2) {
                                Ok((headers, body)) => Ok((first, headers, body)),
                                Err(x) => Err(x),
                            }
                        }
                    }
                }
            }
        }
    }
}

/// Header fields already read, put in front of what the rest gives.
pub open spec fn headers_after(done: Seq<(Seq<char>, Seq<char>)>, rest: Result<(Seq<(Seq<char>, Seq<char>)>, int), ParseError>) -> Result<(Seq<(Seq<char>, Seq<char>)>, int), ParseError> {
    match rest {
        Ok((h, body)) => Ok((done + h, body)),
        Err(e) => Err(e),
    }
}

/// The first header field whose name equals `name` ignoring case.
pub open spec fn header_index(headers: Seq<(Seq<char>, Seq<char>)>, name: Seq<char>, from: int) -> Option<int>
    decreases headers.len() - from,
{
    if from < 0 || from >= headers.len() {
        None
    } else if unicode_lowercase(headers[from].0) == unicode_lowercase(name) {
        Some(from)
    } else {
        header_index(headers, name, from + 1)
    }
}

impl<'a> HTTPMessage<'a> {
    /// Parses the first line and the header fields of a message.
    pub fn parse(raw: &'a [u8]) -> (r: Result<Self, ParseError>)
        ensures
            match r {
                Ok(m) => http_message(raw@) == Ok::<HttpView, ParseError>(m@) && m.raw@ == raw@,
                Err(e) => http_message(raw@) == Err::<HttpView, ParseError>(e),
            },
    {
        let first_line_end = match find_crlf(raw, 0) {
            Some(p) => p,
            None => {
                return Err(ParseError::Malformed);
            },
        };
        let first_line = match utf8_str(slice_range(raw, 0, first_line_end)) {
            Some(text) => text,
            None => {
                proof {
                    assert(raw@.subrange(0, first_line_end as int) =~= raw@.take(first_line_end as int));
                }
                return Err(ParseError::InvalidUtf8);
            },
        };
        proof {
            assert(raw@.subrange(0, first_line_end as int) =~= raw@.take(first_line_end as int));
        }
        let (kind, method, uri, version, status_code, reason) = match parse_first_line(first_line) {
            Ok(fields) => fields,
            Err(e) => {
                return Err(e);
            },
        };
        let total = raw.len();
        let mut offset = first_line_end + 2;
        let mut headers: Vec<(String, String)> = Vec::new();
        if offset >= raw.len() {
            proof {
                assert(header_texts(headers@) =~= seq![]);
            }
            return Ok(HTTPMessage { kind, method, uri, version, status_code, reason, headers, body_offset: offset, raw });
        }
        let ghost first_offset = offset as int;
        let ghost first_view: FirstLine = (kind, opt_chars(method), opt_chars(uri), version@, status_code, opt_chars(reason));
        proof {
            assert(header_texts(headers@) =~= seq![]);
            match header_lines(raw@, first_offset) {
                Ok((h, b)) => { assert(seq![] + h =~= h); }
                Err(_) => {}
            }
        }
        loop
            invariant_except_break
                first_offset <= offset <= raw@.len(),
                header_lines(raw@, first_offset) == headers_after(header_texts(headers@), header_lines(raw@, offset as int)),
                http_message(raw@) == with_headers(first_view, header_lines(raw@, first_offset)),
            ensures
                offset <= raw@.len(),
                http_message(raw@) == with_headers(first_view, header_lines(raw@, first_offset)),
                header_lines(raw@, first_offset) == Ok::<(Seq<(Seq<char>, Seq<char>)>, int), ParseError>((header_texts(headers@), offset as int)),
            decreases raw@.len() - offset,
        {
            if offset >= raw.len() {
                return Err(ParseError::Malformed);
            }
            if raw[offset] == 13 && raw.len() - offset > 1 && raw[offset + 1] == 10 {
                proof {
                    let h = header_texts(headers@);
                    assert(h + seq![] =~= h);
                }
                offset = offset + 2;
                break;
            }
            let line_end = match find_crlf(raw, offset) {
                Some(p) => p,
                None => {
                    return Err(ParseError::Malformed);
                },
            };
            let header_line = match utf8_str(slice_range(raw, offset, line_end)) {
                Some(text) => text,
                None => {
                    return Err(ParseError::InvalidUtf8);
                },
            };
            let ghost before = header_texts(headers@);
            let parsed = parse_header_line(header_line);
            let ghost here: Seq<(Seq<char>, Seq<char>)> = match header_fields(header_line@) {
                Some(h) => seq![h],
                None => seq![],
            };
            match parsed {
                Some(pair) => {
                    headers.push(pair);
                },
                None => {},
            }
            proof {
                assert(header_texts(headers@) =~= before + here);
                match header_lines(raw@, line_end + 2) {
                    Ok((rest, b)) => { assert(before + (here + rest) =~= header_texts(headers@) + rest); }
                    Err(_) => {}
                }
            }
            offset = line_end + 2;
        }
        Ok(HTTPMessage { kind, method, uri, version, status_code, reason, headers, body_offset: offset, raw })
    }

    /// The value of the first header field whose name matches `name`
    /// without regard to case (both sides lowercased).
    pub fn header(&self, name: &str) -> (r: Option<&str>)
        ensures
            match header_index(header_texts(self.headers@), name@, 0) {
                Some(i) => r matches Some(v) && v@ == self.headers@[i].1@,
                None => r is None,
            },
    {
        let lower = name.to_lowercase();
        let ghost all = header_texts(self.headers@);
        let mut keys: Vec<String> = Vec::new();
        let mut i: usize = 0;
        while i < self.headers.len()
            invariant
                i <= self.headers@.len(),
                keys@.len() == i,
                all == header_texts(self.headers@),
                forall|k: int| 0 <= k < i ==> #[trigger] keys@[k]@ == unicode_lowercase(all[k].0),
            decreases self.headers@.len() - i,
        {
            keys.push(self.headers[i].0.as_str().to_lowercase());
            i = i + 1;
        }
        match first_equal(&keys, &lower) {
            Some(j) => {
                proof {
                    assert forall|k: int| 0 <= k < j implies unicode_lowercase(#[trigger] all[k].0) != unicode_lowercase(name@) by {
                        assert(keys@[k]@ != lower@);
                    }
                    assert(keys@[j as int]@ == lower@);
                    lemma_header_index_first(all, name@, 0, j as int);
                }
                Some(self.headers[j].1.as_str())
            },
            None => {
                proof {
                    assert forall|k: int| 0 <= k < all.len() implies unicode_lowercase(#[trigger] all[k].0) != unicode_lowercase(name@) by {
                        assert(keys@[k]@ != lower@);
                    }
                    lemma_header_index_first(all, name@, 0, all.len() as int);
                }
                None
            },
        }
    }
}

/// The position of the first string of `keys` equal to `target`.
pub fn first_equal(keys: &Vec<String>, target: &String) -> (r: Option<usize>)
    ensures
        match r {
            Some(i) => {
                &&& i < keys@.len()
                &&& keys@[i as int]@ == target@
                &&& forall|k: int| 0 <= k < i ==> #[trigger] keys@[k]@ != target@
            },
            None => forall|k: int| 0 <= k < keys@.len() ==> #[trigger] keys@[k]@ != target@,
        },
{
    let mut i: usize = 0;
    while i < keys.len()
        invariant
            i <= keys@.len(),
            forall|k: int| 0 <= k < i ==> #[trigger] keys@[k]@ != target@,
        decreases keys@.len() - i,
    {
        if keys[i] == *target {
            return Some(i);
        }
        i = i + 1;
    }
    None
}

/// `header_index` from `from` is the first position at or after `from`
/// whose lowercased name equals the lowercased `name`.
proof fn lemma_header_index_first(headers: Seq<(Seq<char>, Seq<char>)>, name: Seq<char>, from: int, i: int)
    requires
        0 <= from <= i <= headers.len(),
        forall|k: int| from <= k < i ==> unicode_lowercase(#[trigger] headers[k].0) != unicode_lowercase(name),
        i < headers.len() ==> unicode_lowercase(headers[i].0) == unicode_lowercase(name),
    ensures
        header_index(headers, name, from) == (if i < headers.len() { Some(i) } else { None::<int> }),
    decreases i - from,
{
    if from < i {
        lemma_header_index_first(headers, name, from + 1, i);
    }
}

/// The offset of the first CR LF at or after `start`.
pub fn find_crlf(raw: &[u8], start: usize) -> (r: Option<usize>)
    requires
        start <= raw@.len(),
    ensures
        match r {
            Some(p) => crlf_from(raw@, start as int) == Some(p as int) && start <= p && p + 1 < raw@.len(),
            None => crlf_from(raw@, start as int) is None,
        },
{
    let mut p = start;
    while p < raw.len() && raw.len() - p >= 2
        invariant
            start <= p,
            crlf_from(raw@, start as int) == crlf_from(raw@, p as int),
        decreases raw@.len() - p,
    {
        if raw[p] == 13 && raw[p + 1] == 10 {
            return Some(p);
        }
        p = p + 1;
    }
    None
}

/// Reads a `u16` the way `u16::from_str` does.
pub fn parse_u16(chars: &[char], start: usize, end: usize) -> (r: Option<u16>)
    requires
        start <= end <= chars@.len(),
    ensures
        r == parse_u16_text(chars@.subrange(start as int, end as int)),
{
    let ghost s = chars@.subrange(start as int, end as int);
    let mut i = start;
    if i < end && chars[i] == '+' {
        i = i + 1;
    }
    let ghost d = unsigned_digits(s);
    assert(d =~= chars@.subrange(i as int, end as int));
    if i == end {
        return None;
    }
    let first = i;
    let mut value: u32 = 0;
    let mut overflow = false;
    while i < end
        invariant
            first <= i <= end,
            end <= chars@.len(),
            d =~= chars@.subrange(first as int, end as int),
            s == chars@.subrange(start as int, end as int),
            d == unsigned_digits(s),
            forall|k: int| 0 <= k < i - first ==> is_digit(#[trigger] d[k]),
            !overflow ==> value as int == digits_value(d.take(i - first)) && value <= 65535,
            overflow ==> digits_value(d.take(i - first)) > 65535,
        decreases end - i,
    {
        let c = chars[i];
        if !('0' <= c && c <= '9') {
            assert(!is_digit(d[i - first]));
            assert(!all_digits(d));
            return None;
        }
        let dv = (c as u32) - 48;
        assert(d.take(i - first + 1).drop_last() =~= d.take(i - first));
        if !overflow {
            value = value * 10 + dv;
            if value > 65535 {
                overflow = true;
            }
        }
        i = i + 1;
    }
    assert(d.take(i - first) =~= d);
    if overflow {
        None
    } else {
        Some(value as u16)
    }
}

/// Splits a request or status line into its fields.
pub fn parse_first_line(line: &str) -> (r: Result<(HTTPMessageKind, Option<String>, Option<String>, String, Option<u16>, Option<String>), ParseError>)
    ensures
        match r {
            Ok((kind, method, uri, version, status, reason)) => first_line_fields(line@)
                == Ok::<FirstLine, ParseError>((kind, opt_chars(method), opt_chars(uri), version@, status, opt_chars(reason))),
            Err(e) => first_line_fields(line@) == Err::<FirstLine, ParseError>(e),
        },
{
    let chars = chars_of(line);
    let n = chars.len();
    let i = match find_char_from(&chars, ' ', 0) {
        Some(i) => i,
        None => {
            return Err(ParseError::Malformed);
        },
    };
    let ghost rest = chars@.skip(i + 1);
    let second_end: usize;
    let third: Option<usize>;
    match find_char_from(&chars, ' ', i + 1) {
        Some(j) => {
            proof { lemma_find_char_shift(chars@, ' ', i + 1, j as int); }
            second_end = j;
            third = Some(j + 1);
        },
        None => {
            proof { lemma_find_char_shift(chars@, ' ', i + 1, -1); }
            second_end = n;
            third = None;
        },
    }
    proof {
        assert(chars@.take(i as int) =~= chars@.subrange(0, i as int));
        match third {
            Some(t) => {
                assert(rest.take(second_end - i - 1) =~= chars@.subrange(i + 1, second_end as int));
                assert(rest.skip(second_end - i) =~= chars@.subrange(t as int, n as int));
            },
            None => {
                assert(rest =~= chars@.subrange(i + 1, n as int));
            },
        }
    }
    let is_response = i >= 5 && chars[0] == 'H' && chars[1] == 'T' && chars[2] == 'T' && chars[3] == 'P' && chars[4] == '/';
    proof {
        let p0 = chars@.take(i as int);
        assert(is_response == (p0.len() >= 5 && p0.take(5) == seq!['H', 'T', 'T', 'P', '/'])) by {
            if p0.len() >= 5 && p0.take(5) == seq!['H', 'T', 'T', 'P', '/'] {
                assert(p0.take(5)[0] == 'H');
                assert(p0.take(5)[1] == 'T');
                assert(p0.take(5)[2] == 'T');
                assert(p0.take(5)[3] == 'P');
                assert(p0.take(5)[4] == '/');
            }
            if is_response {
                assert(p0.take(5) =~= seq!['H', 'T', 'T', 'P', '/']);
            }
        }
    }
    if is_response {
        let version = string_from_range(&chars, 0, i);
        let code = match parse_u16(&chars, i + 1, second_end) {
            Some(c) => c,
            None => {
                return Err(ParseError::BadStatusCode);
            },
        };
        let reason = match third {
            Some(t) => Some(string_from_range(&chars, t, n)),
            None => None,
        };
        Ok((HTTPMessageKind::Response, None, None, version, Some(code), reason))
    } else {
        let method = string_from_range(&chars, 0, i);
        let uri = string_from_range(&chars, i + 1, second_end);
        let version = match third {
            Some(t) => string_from_range(&chars, t, n),
            None => string_of("HTTP/0.9"),
        };
        Ok((HTTPMessageKind::Request, Some(method), Some(uri), version, None, None))
    }
}

/// Where a character occurs in a suffix, in terms of the whole sequence.
proof fn lemma_find_char_shift(s: Seq<char>, c: char, from: int, found: int)
    requires
        0 <= from <= s.len(),
        found == -1 ==> find_char(s, c, from) is None,
        found != -1 ==> find_char(s, c, from) == Some(found),
    ensures
        found == -1 ==> find_char(s.skip(from), c, 0) is None,
        found != -1 ==> find_char(s.skip(from), c, 0) == Some(found - from),
    decreases s.len() - from,
{
    lemma_find_char_suffix(s, c, from, 0);
}

proof fn lemma_find_char_suffix(s: Seq<char>, c: char, from: int, k: int)
    requires
        0 <= from <= s.len(),
        0 <= k,
    ensures
        match find_char(s, c, from + k) {
            Some(x) => find_char(s.skip(from), c, k) == Some(x - from),
            None => find_char(s.skip(from), c, k) is None,
        },
    decreases s.len() - from - k,
{
    if from + k < s.len() {
        assert(s.skip(from)[k] == s[from + k]);
        if s[from + k] != c {
            lemma_find_char_suffix(s, c, from, k + 1);
        }
    }
}

/// Splits a header line at the first colon into a trimmed name and value;
/// `None` when there is no colon.
pub fn parse_header_line(line: &str) -> (r: Option<(String, String)>)
    ensures
        match r {
            Some((name, value)) => header_fields(line@) == Some((name@, value@)),
            None => header_fields(line@) is None,
        },
{
    let chars = chars_of(line);
    let n = chars.len();
    match find_char_from(&chars, ':', 0) {
        None => None,
        Some(i) => {
            let name = trimmed_string(&chars, 0, i);
            let value = trimmed_string(&chars, i + 1, n);
            assert(chars@.subrange(0, i as int) =~= chars@.take(i as int));
            assert(chars@.subrange(i + 1, chars@.len() as int) =~= chars@.skip(i + 1));
            Some((name, value))
        },
    }
}

/// A header line is split at its first colon only: for a name without a
/// colon, the field of `name:rest` is the trimmed name and the trimmed
/// rest, whatever the rest holds (colons included); a line without a colon
/// is no field.
pub proof fn law_header_value_is_everything_after_the_first_colon(name: Seq<char>, rest: Seq<char>)
    requires
        forall|i: int| 0 <= i < name.len() ==> name[i] != ':',
    ensures
        header_fields(name + seq![':'] + rest) == Some((trim(name), trim(rest))),
        header_fields(name) is None,
{
    let line = name + seq![':'] + rest;
    lemma_find_char_first(line, ':', 0, name.len() as int);
    assert(line.take(name.len() as int) =~= name);
    assert(line.skip(name.len() as int + 1) =~= rest);
    lemma_find_char_absent(name, ':', 0);
}

/// `find_char` from `from` finds `i` when `c` is at `i` and not before it.
proof fn lemma_find_char_first(s: Seq<char>, c: char, from: int, i: int)
    requires
        0 <= from <= i < s.len(),
        s[i] == c,
        forall|k: int| from <= k < i ==> s[k] != c,
    ensures
        find_char(s, c, from) == Some(i),
    decreases i - from,
{
    if from < i {
        lemma_find_char_first(s, c, from + 1, i);
    }
}

/// `find_char` finds nothing in a text without `c`.
proof fn lemma_find_char_absent(s: Seq<char>, c: char, from: int)
    requires
        0 <= from,
        forall|k: int| 0 <= k < s.len() ==> s[k] != c,
    ensures
        find_char(s, c, from) is None,
    decreases s.len() - from,
{
    if from < s.len() {
        lemma_find_char_absent(s, c, from + 1);
    }
}

} // verus!
