//! DNS messages (RFC 1035 §4.1): the 12-byte header and the question
//! section. Names are label sequences; compression pointers are refused.
use vstd::prelude::*;
use vstd::utf8::{decode_utf8, valid_utf8};

use super::{slice_range, ParseError};
use crate::text::{be16, join, read_be16, utf8_str};

verus! {

/// The fixed DNS header.
#[derive(Debug, Clone)]
pub struct DNSHeader {
    pub transaction_id: u16,
    /// QR(1)|Opcode(4)|AA|TC|RD|RA|Z(3)|RCODE(4)
    pub flags: u16,
    pub questions: u16,
    pub answers: u16,
    pub authority: u16,
    pub additional: u16,
}

/// One entry of the question section.
#[derive(Debug, Clone)]
pub struct DNSQuestion {
    /// The queried name, labels joined by dots.
    pub qname: String,
    pub qtype: u16,
    pub qclass: u16,
}

/// A DNS message: its header and its questions.
#[derive(Debug)]
pub struct DNSRequest {
    pub header: DNSHeader,
    pub questions: Vec<DNSQuestion>,
}

impl View for DNSQuestion {
    type V = (Seq<char>, u16, u16);

    open spec fn view(&self) -> (Seq<char>, u16, u16) {
        (self.qname@, self.qtype, self.qclass)
    }
}

impl DNSHeader {
    /// The header holds the first 12 bytes of `raw`.
    pub open spec fn decodes(self, raw: Seq<u8>) -> bool {
        &&& self.transaction_id as int == be16(raw[0], raw[1])
        &&& self.flags as int == be16(raw[2], raw[3])
        &&& self.questions as int == be16(raw[4], raw[5])
        &&& self.answers as int == be16(raw[6], raw[7])
        &&& self.authority as int == be16(raw[8], raw[9])
        &&& self.additional as int == be16(raw[10], raw[11])
    }

    /// Whether the message is a response (the QR bit, the highest flag bit).
    pub fn is_response(&self) -> (r: bool)
        ensures
            r == (self.flags >= 0x8000),
    {
        self.flags / 0x8000 == 1
    }

    /// The four opcode bits (bits 11–14 of the flags).
    pub fn opcode(&self) -> (r: u8)
        ensures
            r as int == (self.flags as int / 2048) % 16,
    {
        ((self.flags / 2048) % 16) as u8
    }
}

/// The labels of the name at `off` and the offset just behind its
/// terminating zero byte, or why the name is rejected.
pub open spec fn domain_labels(raw: Seq<u8>, off: int) -> Result<(Seq<Seq<u8>>, int), ParseError>
    decreases raw.len() - off,
{
    if off < 0 || off >= raw.len() {
        Err(ParseError::Truncated)
    } else {
        let len = raw[off] as int;
        if len == 0 {
            Ok((seq![], off + 1))
        } else if len >= 0xC0 {
            Err(ParseError::CompressionPointer)
        } else if off + 1 + len > raw.len() {
            Err(ParseError::Truncated)
        } else if !valid_utf8(raw.subrange(off + 1, off + 1 + len)) {
            Err(ParseError::InvalidUtf8)
        } else {
            match domain_labels(raw, off + 1 + len) {
                Ok((rest, next)) => Ok((seq![raw.subrange(off + 1, off + 1 + len)] + rest, next)),
                Err(e) => Err(e),
            }
        }
    }
}

/// The labels decoded as text and joined by dots.
pub open spec fn dotted_name(labels: Seq<Seq<u8>>) -> Seq<char> {
    join(labels.map_values(|l: Seq<u8>| decode_utf8(l)), seq!['.'])
}

/// The name at `off` as text and the offset behind it, or why it is rejected.
pub open spec fn domain_name(raw: Seq<u8>, off: int) -> Result<(Seq<char>, int), ParseError> {
    match domain_labels(raw, off) {
        Ok((labels, next)) => Ok((dotted_name(labels), next)),
        Err(e) => Err(e),
    }
}

/// Labels already read, put in front of what the rest of the name gives.
pub open spec fn labels_after(done: Seq<Seq<u8>>, rest: Result<(Seq<Seq<u8>>, int), ParseError>) -> Result<(Seq<Seq<u8>>, int), ParseError> {
    match rest {
        Ok((labels, next)) => Ok((done + labels, next)),
        Err(e) => Err(e),
    }
}

proof fn lemma_domain_labels_end(raw: Seq<u8>, off: int)
    ensures
        domain_labels(raw, off) matches Ok((_, next)) ==> off < next <= raw.len(),
    decreases raw.len() - off,
{
    if 0 <= off < raw.len() {
        let len = raw[off] as int;
        if len != 0 && len < 0xC0 && off + 1 + len <= raw.len() {
            lemma_domain_labels_end(raw, off + 1 + len);
        }
    }
}

/// Decodes the label-sequence name that starts at `start`: each label is a
/// length byte and that many UTF-8 bytes, and a zero byte ends the name.
/// Returns the labels joined by dots and the offset behind the zero byte.
pub fn decode_domain_name(raw: &[u8], start: usize) -> (r: Result<(String, usize), ParseError>)
    ensures
        match r {
            Ok((name, next)) => domain_name(raw@, start as int) == Ok::<(Seq<char>, int), ParseError>((name@, next as int)),
            Err(e) => domain_name(raw@, start as int) == Err::<(Seq<char>, int), ParseError>(e),
        },
        r matches Ok((_, next)) ==> start < next <= raw@.len(),
{
    let mut offset = start;
    let mut name = String::new();
    let mut first = true;
    let ghost mut done: Seq<Seq<u8>> = seq![];
    proof {
        assert(done + seq![] =~= done);
        assert(labels_after(done, domain_labels(raw@, start as int)) == domain_labels(raw@, start as int)) by {
            match domain_labels(raw@, start as int) {
                Ok((labels, next)) => { assert(done + labels =~= labels); }
                Err(_) => {}
            }
        }
        lemma_domain_labels_end(raw@, start as int);
    }
    loop
        invariant
            start <= offset,
            offset > start ==> offset <= raw@.len(),
            domain_labels(raw@, start as int) == labels_after(done, domain_labels(raw@, offset as int)),
            name@ == dotted_name(done),
            first == (done.len() == 0),
        decreases raw@.len() - offset,
    {
        if offset >= raw.len() {
            return Err(ParseError::Truncated);
        }
        let len = raw[offset];
        let ghost here = offset as int;
        offset = offset + 1;
        if len == 0 {
            proof {
                assert(done + seq![] =~= done);
                lemma_domain_labels_end(raw@, start as int);
            }
            return Ok((name, offset));
        }
        if len >= 0xC0 {
            return Err(ParseError::CompressionPointer);
        }
        if raw.len() - offset < len as usize {
            return Err(ParseError::Truncated);
        }
        let end = offset + len as usize;
        let label = slice_range(raw, offset, end);
        match utf8_str(label) {
            None => {
                return Err(ParseError::InvalidUtf8);
            },
            Some(text) => {
                let ghost parts = done.map_values(|l: Seq<u8>| decode_utf8(l));
                proof {
                    let next_done = done.push(label@);
                    let next_parts = next_done.map_values(|l: Seq<u8>| decode_utf8(l));
                    assert(next_parts.drop_last() =~= parts);
                    assert(next_parts.last() == decode_utf8(label@));
                    match domain_labels(raw@, end as int) {
                        Ok((rest, n)) => {
                            assert(done + (seq![label@] + rest) =~= next_done + rest);
                        }
                        Err(_) => {}
                    }
                }
                if !first {
                    name.push('.');
                }
                name.append(text);
                proof {
                    let next_done = done.push(label@);
                    let next_parts = next_done.map_values(|l: Seq<u8>| decode_utf8(l));
                    if done.len() == 0 {
                        assert(next_parts.len() == 1);
                        assert(name@ =~= join(next_parts, seq!['.']));
                    } else {
                        assert(name@ =~= join(next_parts, seq!['.']));
                    }
                    done = next_done;
                }
                first = false;
                offset = end;
            },
        }
    }
}

/// Questions already read, put in front of what the rest gives.
pub open spec fn questions_after(done: Seq<(Seq<char>, u16, u16)>, rest: Result<Seq<(Seq<char>, u16, u16)>, ParseError>) -> Result<Seq<(Seq<char>, u16, u16)>, ParseError> {
    match rest {
        Ok(qs) => Ok(done + qs),
        Err(e) => Err(e),
    }
}

/// The `count` questions that start at `off`, or why they are rejected.
pub open spec fn dns_questions(raw: Seq<u8>, off: int, count: nat) -> Result<Seq<(Seq<char>, u16, u16)>, ParseError>
    decreases count,
{
    if count == 0 {
        Ok(seq![])
    } else {
        match domain_name(raw, off) {
            Err(e) => Err(e),
            Ok((qname, next)) => {
                if next + 4 > raw.len() {
                    Err(ParseError::Truncated)
                } else {
                    let q = (qname, be16(raw[next], raw[next + 1]) as u16, be16(raw[next + 2], raw[next + 3]) as u16);
                    match dns_questions(raw, next + 4, (count - 1) as nat) {
                        Ok(rest) => Ok(seq![q] + rest),
                        Err(e) => Err(e),
                    }
                }
            }
        }
    }
}

/// Why a DNS message is rejected, or `None` when it is accepted.
pub open spec fn dns_error(raw: Seq<u8>) -> Option<ParseError> {
    if raw.len() < 12 {
        Some(ParseError::TooShort)
    } else {
        match dns_questions(raw, 12, be16(raw[4], raw[5]) as nat) {
            Ok(_) => None,
            Err(e) => Some(e),
        }
    }
}

impl DNSRequest {
    /// Parses the header and as many questions as it declares.
    pub fn parse(raw: &[u8]) -> (r: Result<Self, ParseError>)
        ensures
            match r {
                Ok(m) => {
                    &&& dns_error(raw@) is None
                    &&& m.header.decodes(raw@)
                    &&& dns_questions(raw@, 12, m.header.questions as nat) == Ok::<Seq<(Seq<char>, u16, u16)>, ParseError>(m.questions@.map_values(|q: DNSQuestion| q@))
                },
                Err(e) => dns_error(raw@) == Some(e),
            },
    {
        if raw.len() < 12 {
            return Err(ParseError::TooShort);
        }
        let header = DNSHeader {
            transaction_id: read_be16(raw[0], raw[1]),
            flags: read_be16(raw[2], raw[3]),
            questions: read_be16(raw[4], raw[5]),
            answers: read_be16(raw[6], raw[7]),
            authority: read_be16(raw[8], raw[9]),
            additional: read_be16(raw[10], raw[11]),
        };
        let mut offset: usize = 12;
        let mut questions: Vec<DNSQuestion> = Vec::new();
        let mut k: u16 = 0;
        let ghost total = header.questions as nat;
        proof {
            assert(questions@.map_values(|q: DNSQuestion| q@) =~= seq![]);
            match dns_questions(raw@, 12, total) {
                Ok(qs) => { assert(seq![] + qs =~= qs); }
                Err(_) => {}
            }
        }
        while k < header.questions
            invariant
                k <= header.questions,
                offset <= raw@.len(),
                raw@.len() >= 12,
                header.decodes(raw@),
                total == header.questions as nat,
                dns_questions(raw@, 12, total) == questions_after(
                    questions@.map_values(|q: DNSQuestion| q@),
                    dns_questions(raw@, offset as int, (total - k) as nat),
                ),
            decreases header.questions - k,
        {
            let (qname, next) = match decode_domain_name(raw, offset) {
                Ok(v) => v,
                Err(e) => {
                    return Err(e);
                },
            };
            if raw.len() - next < 4 {
                return Err(ParseError::Truncated);
            }
            let question = DNSQuestion {
                qname,
                qtype: read_be16(raw[next], raw[next + 1]),
                qclass: read_be16(raw[next + 2], raw[next + 3]),
            };
            let ghost before = questions@.map_values(|q: DNSQuestion| q@);
            questions.push(question);
            proof {
                let after = questions@.map_values(|q: DNSQuestion| q@);
                assert(after =~= before.push(question@));
                match dns_questions(raw@, (next + 4) as int, (total - k - 1) as nat) {
                    Ok(rest) => { assert(before + (seq![question@] + rest) =~= after + rest); }
                    Err(_) => {}
                }
            }
            offset = next + 4;
            k = k + 1;
        }
        proof {
            let views = questions@.map_values(|q: DNSQuestion| q@);
            assert(views + seq![] =~= views);
        }
        Ok(DNSRequest { header, questions })
    }
}

/// The wire form of a name: each label behind its length byte, then a
/// zero byte.
pub open spec fn encode_labels(labels: Seq<Seq<u8>>) -> Seq<u8>
    decreases labels.len(),
{
    if labels.len() == 0 {
        seq![0u8]
    } else {
        seq![labels[0].len() as u8] + labels[0] + encode_labels(labels.drop_first())
    }
}

/// Labels that the wire form can carry: each is 1 to 191 bytes of UTF-8
/// (lengths from 192 up mark compression pointers).
pub open spec fn encodable_labels(labels: Seq<Seq<u8>>) -> bool {
    forall|i: int| 0 <= i < labels.len() ==> 0 < (#[trigger] labels[i]).len() < 0xC0 && valid_utf8(labels[i])
}

/// Decoding a name that was encoded gives back its labels, and the offset
/// just behind it, whatever precedes and follows it.
pub proof fn law_labels_round_trip(before: Seq<u8>, labels: Seq<Seq<u8>>, after: Seq<u8>)
    requires
        encodable_labels(labels),
    ensures
        domain_labels(before + encode_labels(labels) + after, before.len() as int) == Ok::<(Seq<Seq<u8>>, int), ParseError>(
            (labels, (before.len() + encode_labels(labels).len()) as int),
        ),
    decreases labels.len(),
{
    let raw = before + encode_labels(labels) + after;
    let off = before.len() as int;
    if labels.len() == 0 {
        assert(raw[off] == 0u8);
        assert(labels =~= Seq::<Seq<u8>>::empty());
        assert(domain_labels(raw, off) == Ok::<(Seq<Seq<u8>>, int), ParseError>((seq![], off + 1)));
    } else {
        let first = labels[0];
        let len = first.len() as int;
        let rest = labels.drop_first();
        assert(encodable_labels(rest)) by {
            assert forall|i: int| 0 <= i < rest.len() implies 0 < (#[trigger] rest[i]).len() < 0xC0 && valid_utf8(rest[i]) by {
                assert(rest[i] == labels[i + 1]);
            }
        }
        assert(0 < len < 0xC0) by {
            assert(0 < labels[0].len() < 0xC0);
        }
        assert(valid_utf8(first)) by {
            assert(valid_utf8(labels[0]));
        }
        let next_before = before + seq![len as u8] + first;
        assert(raw =~= next_before + encode_labels(rest) + after);
        assert(raw[off] == len as u8);
        assert((len as u8) as int == len);
        assert(raw.subrange(off + 1, off + 1 + len) =~= first);
        law_labels_round_trip(next_before, rest, after);
        assert(next_before.len() == off + 1 + len);
        assert(seq![first] + rest =~= labels);
        assert(encode_labels(labels).len() == 1 + len + encode_labels(rest).len());
        assert(domain_labels(raw, off + 1 + len) == Ok::<(Seq<Seq<u8>>, int), ParseError>(
            (rest, (next_before.len() + encode_labels(rest).len()) as int),
        ));
    }
}

/// Decoding an encoded name gives its labels as text, joined by dots.
pub proof fn law_name_round_trip(before: Seq<u8>, labels: Seq<Seq<u8>>, after: Seq<u8>)
    requires
        encodable_labels(labels),
    ensures
        domain_name(before + encode_labels(labels) + after, before.len() as int) == Ok::<(Seq<char>, int), ParseError>(
            (dotted_name(labels), (before.len() + encode_labels(labels).len()) as int),
        ),
{
    law_labels_round_trip(before, labels, after);
}

} // verus!
