//! Finding the public address of this machine: the DNS query and its answer,
//! the bodies of web endpoints, and the cached address.

use crate::ipv6::{
    canonical_ip, field_groups, gap_from, hex_number, read_groups, read_ip6, IpAddr,
};
use crate::net::{read_ip, read_octet, Ipv4Addr};
use crate::providers::parsers::utf8_string;
use crate::text::{
    chars_of, decimal, fields, find_char, is_space, join, joined, lemma_find_char,
    lemma_texts_push, push_decimal, string_of, texts, trim, trimmed, trimmed_end, trimmed_start,
};
use vstd::prelude::*;
use vstd::slice::slice_to_vec;
use vstd::string::*;
use vstd::utf8::*;

verus! {

/// Bytes that the body of an address endpoint may have.
pub const MAX_IP_BODY_BYTES: usize = 64;

/// Milliseconds that one lookup may take.
pub const LOOKUP_TIMEOUT: u64 = 5_000;

/// Milliseconds that all lookups together may take.
pub const MY_IP_LOOKUP_TIMEOUT: u64 = 10_000;

/// Milliseconds that a cached address is good for.
pub const PUBLIC_IP_CACHE_TTL: u64 = 86_400_000;

/// Name that answers with the address of who asks.
pub const MYIP_OPENDNS_DOMAIN: &'static str = "myip.opendns.com";

pub const DNS_PORT: u16 = 53;

pub const DNS_RESPONSE_BUFFER_LEN: usize = 512;

pub const DNS_HEADER_LEN: usize = 12;

pub const DNS_QUESTION_TAIL_LEN: usize = 4;

pub const DNS_ANSWER_FIXED_LEN: usize = 10;

/// Bytes of the longest query.
pub const DNS_QUERY_BUFFER_LEN: usize = 271;

pub const DNS_TYPE_A: u16 = 1;

pub const DNS_MAX_NAME_LEN: usize = 255;

pub const DNS_MAX_LABEL_LEN: usize = 63;

/// The server that is asked.
pub fn dns_server() -> (ip: Ipv4Addr)
    ensures
        ip == (Ipv4Addr { a: 208, b: 67, c: 222, d: 222 }),
{
    Ipv4Addr::new(208, 67, 222, 222)
}

/// The endpoints that answer with the address of who asks.
pub open spec fn ip_endpoints() -> Seq<Seq<char>> {
    seq!["https://api.ipify.org"@, "https://ifconfig.me/ip"@, "https://icanhazip.com"@]
}

/// The endpoints that answer with the address of who asks.
pub fn http_ip_endpoints() -> (v: Vec<&'static str>)
    ensures
        v@.len() == 3,
        forall|i: int| 0 <= i < 3 ==> (#[trigger] v@[i])@ == ip_endpoints()[i],
{
    vec!["https://api.ipify.org", "https://ifconfig.me/ip", "https://icanhazip.com"]
}

// ---------------------------------------------------------------------------
// The DNS query
// ---------------------------------------------------------------------------

/// Why a name cannot be asked for.
#[derive(Clone, Copy, Debug, PartialEq, Eq, Structural)]
pub enum QueryError {
    EmptyLabel,
    LongLabel,
    LongName,
}

/// The position of the next dot, or the length.
pub open spec fn dot_at(s: Seq<u8>) -> int
    decreases s.len(),
{
    if s.len() == 0 || s[0] == 46 {
        0
    } else {
        1 + dot_at(s.drop_first())
    }
}

/// The labels of a name: what stands between its dots.
pub open spec fn labels(s: Seq<u8>) -> Seq<Seq<u8>>
    decreases s.len(),
{
    let i = dot_at(s);
    if 0 <= i < s.len() {
        seq![s.take(i)] + labels(s.skip(i + 1))
    } else {
        seq![s]
    }
}

/// What is wrong with the first bad label, where `used` bytes of the name are
/// written already. Behind the last label the root label must fit as well.
pub open spec fn label_fault(parts: Seq<Seq<u8>>, used: int) -> Option<QueryError>
    decreases parts.len(),
{
    if parts.len() == 0 {
        if used + 1 > DNS_MAX_NAME_LEN {
            Some(QueryError::LongName)
        } else {
            None
        }
    } else {
        let n = parts[0].len() as int;
        if n == 0 {
            Some(QueryError::EmptyLabel)
        } else if n > DNS_MAX_LABEL_LEN {
            Some(QueryError::LongLabel)
        } else if used + 1 + n > DNS_MAX_NAME_LEN {
            Some(QueryError::LongName)
        } else {
            label_fault(parts.drop_first(), used + 1 + n)
        }
    }
}

/// Labels on the wire: each behind its length.
pub open spec fn wire_labels(parts: Seq<Seq<u8>>) -> Seq<u8>
    decreases parts.len(),
{
    if parts.len() == 0 {
        Seq::empty()
    } else {
        seq![parts[0].len() as u8] + parts[0] + wire_labels(parts.drop_first())
    }
}

/// The header of a query with one question.
pub open spec fn query_header(id: u16) -> Seq<u8> {
    seq![
        (id / 256) as u8,
        (id % 256) as u8,
        0x81u8,
        0u8,
        0u8,
        1u8,
        0u8,
        0u8,
        0u8,
        0u8,
        0u8,
        0u8,
    ]
}

/// A query for the addresses of a name.
pub open spec fn a_query(domain: Seq<char>, id: u16) -> Seq<u8> {
    query_header(id) + wire_labels(labels(encode_utf8(domain))) + seq![0u8, 0u8, 1u8, 0u8, 1u8]
}

/// The labels of a name with a length in front of each take as many bytes as
/// the name and one.
pub proof fn lemma_wire_len(s: Seq<u8>)
    ensures
        wire_labels(labels(s)).len() == s.len() + 1,
    decreases s.len(),
{
    reveal_with_fuel(wire_labels, 2);
    let i = dot_at(s);
    lemma_dot_at(s);
    if i < s.len() {
        let rest = s.skip(i + 1);
        lemma_wire_len(rest);
        assert(labels(s).drop_first() =~= labels(rest));
        assert(labels(s)[0] == s.take(i));
    } else {
        assert(labels(s) =~= seq![s]);
        assert(labels(s).drop_first() =~= Seq::<Seq<u8>>::empty());
    }
}

proof fn lemma_fitting_labels(parts: Seq<Seq<u8>>, used: int)
    requires
        label_fault(parts, used) is None,
    ensures
        used + wire_labels(parts).len() + 1 <= DNS_MAX_NAME_LEN,
    decreases parts.len(),
{
    if parts.len() > 0 {
        lemma_fitting_labels(parts.drop_first(), used + 1 + parts[0].len());
    }
}

/// A name is asked for only where it fits the wire limit: its labels, each
/// behind its length, and the root label.
pub proof fn queries_fit_the_wire(domain: Seq<char>)
    requires
        label_fault(labels(encode_utf8(domain)), 0) is None,
    ensures
        wire_labels(labels(encode_utf8(domain))).len() + 1 <= DNS_MAX_NAME_LEN,
        encode_utf8(domain).len() + 2 <= DNS_MAX_NAME_LEN,
{
    lemma_fitting_labels(labels(encode_utf8(domain)), 0);
    lemma_wire_len(encode_utf8(domain));
}

proof fn lemma_dot_at(s: Seq<u8>)
    ensures
        0 <= dot_at(s) <= s.len(),
        dot_at(s) < s.len() ==> s[dot_at(s)] == 46,
        forall|j: int| 0 <= j < dot_at(s) ==> s[j] != 46,
    decreases s.len(),
{
    if s.len() > 0 && s[0] != 46 {
        let rest = s.drop_first();
        lemma_dot_at(rest);
        assert forall|j: int| 0 <= j < dot_at(s) implies s[j] != 46 by {
            if j > 0 {
                assert(s[j] == rest[j - 1]);
            }
        }
        assert(s[dot_at(s)] == rest[dot_at(rest)] || dot_at(s) >= s.len());
    }
}

proof fn lemma_dot_is(s: Seq<u8>, i: int)
    requires
        0 <= i <= s.len(),
        forall|j: int| 0 <= j < i ==> s[j] != 46,
        i < s.len() ==> s[i] == 46,
    ensures
        dot_at(s) == i,
    decreases s.len(),
{
    if s.len() > 0 && i > 0 {
        lemma_dot_is(s.drop_first(), i - 1);
    }
}

/// Writes a query for the addresses of a name. A name that takes more than the
/// wire limit, its root label counted, is refused.
pub fn build_a_query(domain: &str, query_id: u16) -> (r: Result<Vec<u8>, QueryError>)
    ensures
        match r {
            Ok(query) => label_fault(labels(encode_utf8(domain@)), 0) is None && query@ == a_query(
                domain@,
                query_id,
            ) && query@.len() <= DNS_QUERY_BUFFER_LEN,
            Err(e) => label_fault(labels(encode_utf8(domain@)), 0) == Some(e),
        },
{
    let name = domain.as_bytes_vec();
    let mut out: Vec<u8> = vec![
        (query_id / 256) as u8,
        (query_id % 256) as u8,
        0x81,
        0,
        0,
        1,
        0,
        0,
        0,
        0,
        0,
        0,
    ];
    assert(out@ =~= query_header(query_id));
    let mut start: usize = 0;
    let mut used: usize = 0;
    let ghost header = out@;
    let ghost all = labels(name@);
    assert(name@.skip(0) =~= name@);
    assert(out@ + wire_labels(all) =~= header + wire_labels(all));
    loop
        invariant
            start <= name.len(),
            used <= DNS_MAX_NAME_LEN,
            header.len() == 12,
            all == labels(name@),
            out@.len() == 12 + used,
            out@ + wire_labels(labels(name@.skip(start as int))) == header + wire_labels(all),
            label_fault(labels(name@.skip(start as int)), used as int) == label_fault(all, 0),
            name@ == encode_utf8(domain@),
            header == query_header(query_id),
        decreases name.len() - start,
    {
        let ghost rest = name@.skip(start as int);
        let mut end: usize = start;
        while end < name.len() && name[end] != 46
            invariant
                start <= end <= name.len(),
                forall|j: int| start <= j < end ==> name@[j] != 46,
            decreases name.len() - end,
        {
            end += 1;
        }
        let n: usize = end - start;
        proof {
            assert forall|j: int| 0 <= j < n implies rest[j] != 46 by {
                assert(rest[j] == name@[start + j]);
            }
            lemma_dot_is(rest, n as int);
            assert(labels(rest)[0] =~= rest.take(n as int));
            assert(rest.take(n as int) =~= name@.subrange(start as int, end as int));
        }
        if n == 0 {
            return Err(QueryError::EmptyLabel);
        }
        if n > DNS_MAX_LABEL_LEN {
            return Err(QueryError::LongLabel);
        }
        if used + 1 + n > DNS_MAX_NAME_LEN {
            return Err(QueryError::LongName);
        }
        let ghost before = out@;
        out.push(n as u8);
        let mut i: usize = start;
        while i < end
            invariant
                start <= i <= end <= name.len(),
                out@ == before + seq![n as u8] + name@.subrange(start as int, i as int),
            decreases end - i,
        {
            out.push(name[i]);
            i += 1;
            assert(out@ =~= before + seq![n as u8] + name@.subrange(start as int, i as int));
        }
        used = used + 1 + n;
        if end == name.len() {
            proof {
                reveal_with_fuel(wire_labels, 2);
                reveal_with_fuel(label_fault, 2);
                assert(labels(rest) =~= seq![rest]);
                assert(rest.take(n as int) =~= rest);
                assert(labels(rest).drop_first() =~= Seq::<Seq<u8>>::empty());
                assert(wire_labels(labels(rest)) =~= seq![n as u8] + rest);
                assert(out@ =~= before + wire_labels(labels(rest)));
                assert(out@ =~= header + wire_labels(all));
                lemma_wire_len(name@);
            }
            if used + 1 > DNS_MAX_NAME_LEN {
                return Err(QueryError::LongName);
            }
            out.push(0);
            out.push(0);
            out.push(1);
            out.push(0);
            out.push(1);
            assert(out@ =~= a_query(domain@, query_id));
            return Ok(out);
        }
        proof {
            let tail = name@.skip(end + 1);
            assert(rest.skip(n + 1) =~= tail);
            assert(labels(rest).drop_first() =~= labels(tail));
            assert(before + wire_labels(labels(rest)) =~= out@ + wire_labels(labels(tail)));
        }
        start = end + 1;
    }
}

// ---------------------------------------------------------------------------
// The DNS answer
// ---------------------------------------------------------------------------

/// Where a name in a message ends: behind its root label or behind a pointer.
pub open spec fn name_end(message: Seq<u8>, offset: int) -> Option<int>
    decreases message.len() - offset,
{
    if offset < 0 || offset >= message.len() {
        None
    } else if message[offset] >= 0xc0 {
        Some(offset + 2)
    } else if message[offset] == 0 {
        Some(offset + 1)
    } else if offset + 1 + message[offset] > message.len() {
        None
    } else {
        name_end(message, offset + 1 + message[offset])
    }
}

/// Steps over a name in a message.
pub fn skip_dns_name(message: &[u8], offset: usize) -> (r: Option<usize>)
    requires
        message@.len() <= usize::MAX - 0x2_0000,
    ensures
        match r {
            Some(end) => name_end(message@, offset as int) == Some(end as int) && offset < end
                && end <= message@.len() + 1,
            None => name_end(message@, offset as int) is None,
        },
{
    let mut at: usize = offset;
    loop
        invariant
            offset <= at,
            at > offset ==> at <= message.len() + 0xc0,
            message@.len() <= usize::MAX - 0x2_0000,
            name_end(message@, at as int) == name_end(message@, offset as int),
        decreases message.len() + 0xc0 + offset - at,
    {
        if at >= message.len() {
            return None;
        }
        let length: u8 = message[at];
        if length >= 0xc0 {
            return Some(at + 2);
        }
        if length == 0 {
            return Some(at + 1);
        }
        at = at + 1 + length as usize;
    }
}

/// Why an answer is of no use.
#[derive(Clone, Copy, Debug, PartialEq, Eq, Structural)]
pub enum AnswerError {
    /// The response is shorter than its header.
    Short,
    /// The response answers another query.
    WrongId,
    /// The message is no response.
    NotResponse,
    /// The response was cut short.
    Truncated,
    /// The server reports a failure.
    Rcode(u16),
    /// A name in the questions is malformed.
    BadQuestion,
    /// The questions overrun the response.
    QuestionOverrun,
    /// A name in the answers is malformed.
    BadAnswer,
    /// The head of an answer overruns the response.
    HeaderOverrun,
    /// An answer overruns the response.
    RecordOverrun,
    /// There is no address among the answers.
    NoAddress,
}

/// The number in two octets of a message.
pub open spec fn u16_at(message: Seq<u8>, i: int) -> int {
    256 * message[i] + message[i + 1]
}

/// Where the answers begin, behind so many questions.
pub open spec fn questions_end(message: Seq<u8>, count: nat, offset: int) -> Result<
    int,
    AnswerError,
>
    decreases count,
{
    if count == 0 {
        Ok(offset)
    } else {
        match name_end(message, offset) {
            None => Err(AnswerError::BadQuestion),
            Some(end) => if end + DNS_QUESTION_TAIL_LEN > message.len() {
                Err(AnswerError::QuestionOverrun)
            } else {
                questions_end(message, (count - 1) as nat, end + DNS_QUESTION_TAIL_LEN)
            },
        }
    }
}

/// The first address among so many answers.
pub open spec fn first_address(message: Seq<u8>, count: nat, offset: int) -> Result<
    Ipv4Addr,
    AnswerError,
>
    decreases count,
{
    if count == 0 {
        Err(AnswerError::NoAddress)
    } else {
        match name_end(message, offset) {
            None => Err(AnswerError::BadAnswer),
            Some(at) => if at + DNS_ANSWER_FIXED_LEN > message.len() {
                Err(AnswerError::HeaderOverrun)
            } else {
                let rdata = at + DNS_ANSWER_FIXED_LEN;
                let length = u16_at(message, at + 8);
                if rdata + length > message.len() {
                    Err(AnswerError::RecordOverrun)
                } else if u16_at(message, at) == DNS_TYPE_A && length == 4 {
                    Ok(
                        Ipv4Addr {
                            a: message[rdata],
                            b: message[rdata + 1],
                            c: message[rdata + 2],
                            d: message[rdata + 3],
                        },
                    )
                } else {
                    first_address(message, (count - 1) as nat, rdata + length)
                }
            },
        }
    }
}

/// The address in a response to a query.
pub open spec fn answer(message: Seq<u8>, id: u16) -> Result<Ipv4Addr, AnswerError> {
    if message.len() < DNS_HEADER_LEN {
        Err(AnswerError::Short)
    } else if u16_at(message, 0) != id {
        Err(AnswerError::WrongId)
    } else if message[2] < 0x80 {
        Err(AnswerError::NotResponse)
    } else if message[2] / 2 % 2 == 1 {
        Err(AnswerError::Truncated)
    } else if message[3] % 16 != 0 {
        Err(AnswerError::Rcode((message[3] % 16) as u16))
    } else {
        match questions_end(message, u16_at(message, 4) as nat, DNS_HEADER_LEN as int) {
            Err(e) => Err(e),
            Ok(offset) => first_address(message, u16_at(message, 6) as nat, offset),
        }
    }
}

fn read_u16(message: &[u8], i: usize) -> (r: u16)
    requires
        i + 1 < message@.len(),
    ensures
        r == u16_at(message@, i as int),
{
    256 * message[i] as u16 + message[i + 1] as u16
}

/// Reads the first address out of a response to a query.
pub fn parse_dns_a_response(message: &[u8], query_id: u16) -> (r: Result<Ipv4Addr, AnswerError>)
    requires
        message@.len() <= usize::MAX - 0x2_0000,
    ensures
        r == answer(message@, query_id),
{
    if message.len() < DNS_HEADER_LEN {
        return Err(AnswerError::Short);
    }
    if read_u16(message, 0) != query_id {
        return Err(AnswerError::WrongId);
    }
    if message[2] < 0x80 {
        return Err(AnswerError::NotResponse);
    }
    if message[2] / 2 % 2 == 1 {
        return Err(AnswerError::Truncated);
    }
    if message[3] % 16 != 0 {
        return Err(AnswerError::Rcode((message[3] % 16) as u16));
    }
    let mut questions: u16 = read_u16(message, 4);
    let mut answers: u16 = read_u16(message, 6);
    let mut offset: usize = DNS_HEADER_LEN;
    while questions > 0
        invariant
            message@.len() <= usize::MAX - 0x2_0000,
            offset <= message@.len(),
            questions_end(message@, questions as nat, offset as int) == questions_end(
                message@,
                u16_at(message@, 4) as nat,
                DNS_HEADER_LEN as int,
            ),
            answer(message@, query_id) == (match questions_end(
                message@,
                u16_at(message@, 4) as nat,
                DNS_HEADER_LEN as int,
            ) {
                Err(e) => Err(e),
                Ok(offset) => first_address(message@, u16_at(message@, 6) as nat, offset),
            }),
            answers == u16_at(message@, 6),
        decreases questions,
    {
        match skip_dns_name(message, offset) {
            None => {
                return Err(AnswerError::BadQuestion);
            },
            Some(end) => {
                offset = end + DNS_QUESTION_TAIL_LEN;
                if offset > message.len() {
                    return Err(AnswerError::QuestionOverrun);
                }
            },
        }
        questions -= 1;
    }
    while answers > 0
        invariant
            message@.len() <= usize::MAX - 0x2_0000,
            offset <= message@.len(),
            answer(message@, query_id) == first_address(message@, answers as nat, offset as int),
        decreases answers,
    {
        let at: usize = match skip_dns_name(message, offset) {
            None => {
                return Err(AnswerError::BadAnswer);
            },
            Some(at) => at,
        };
        let rdata: usize = at + DNS_ANSWER_FIXED_LEN;
        if rdata > message.len() {
            return Err(AnswerError::HeaderOverrun);
        }
        let kind: u16 = read_u16(message, at);
        let length: usize = read_u16(message, at + 8) as usize;
        let end: usize = rdata + length;
        if end > message.len() {
            return Err(AnswerError::RecordOverrun);
        }
        if kind == DNS_TYPE_A && length == 4 {
            return Ok(
                Ipv4Addr::new(
                    message[rdata],
                    message[rdata + 1],
                    message[rdata + 2],
                    message[rdata + 3],
                ),
            );
        }
        offset = end;
        answers -= 1;
    }
    Err(AnswerError::NoAddress)
}

/// A query that was written is not mistaken for its answer as long as another
/// query is waited for.
pub proof fn answer_needs_its_query(message: Seq<u8>, id: u16, other: u16)
    requires
        answer(message, id) is Ok,
        other != id,
    ensures
        answer(message, other) == Err::<Ipv4Addr, _>(AnswerError::WrongId),
{
}

proof fn lemma_name_end(pre: Seq<u8>, parts: Seq<Seq<u8>>, used: int, tail: Seq<u8>)
    requires
        label_fault(parts, used) is None,
    ensures
        name_end(pre + wire_labels(parts) + seq![0u8] + tail, pre.len() as int) == Some(
            (pre.len() + wire_labels(parts).len() + 1) as int,
        ),
    decreases parts.len(),
{
    let m = pre + wire_labels(parts) + seq![0u8] + tail;
    if parts.len() == 0 {
        assert(m[pre.len() as int] == 0);
    } else {
        let n = parts[0].len();
        let more = pre + seq![n as u8] + parts[0];
        assert(m =~= more + wire_labels(parts.drop_first()) + seq![0u8] + tail);
        assert(m[pre.len() as int] == n as u8);
        lemma_name_end(more, parts.drop_first(), used + 1 + n, tail);
    }
}

/// The name in a query ends right before the four bytes that close the
/// question.
pub proof fn query_name_is_skipped(domain: Seq<char>, id: u16)
    requires
        label_fault(labels(encode_utf8(domain)), 0) is None,
    ensures
        name_end(a_query(domain, id), DNS_HEADER_LEN as int) == Some(
            a_query(domain, id).len() - DNS_QUESTION_TAIL_LEN,
        ),
{
    let parts = labels(encode_utf8(domain));
    let tail = seq![0u8, 1u8, 0u8, 1u8];
    lemma_name_end(query_header(id), parts, 0, tail);
    assert(a_query(domain, id) =~= query_header(id) + wire_labels(parts) + seq![0u8] + tail);
}

/// The id of the next query: a counter against the clock.
pub fn next_dns_query_id(counter: u16, nanos: u32) -> (id: u16)
    ensures
        id == counter ^ ((nanos % 0x10000) as u16),
{
    counter ^ ((nanos % 0x10000) as u16)
}

// ---------------------------------------------------------------------------
// Endpoints and the cached address
// ---------------------------------------------------------------------------

/// Why the body of an endpoint is no address.
#[derive(Clone, Debug)]
pub enum IpBodyError {
    /// The body is too long.
    TooLong,
    /// The body is not valid UTF-8.
    NotText,
    /// The body is no address.
    NoAddress(String),
}

/// Whether a failure is the one that a body brings.
pub open spec fn body_refused(e: IpBodyError, body: Seq<u8>) -> bool {
    if body.len() > MAX_IP_BODY_BYTES {
        e is TooLong
    } else if !valid_utf8(body) {
        e is NotText
    } else {
        e matches IpBodyError::NoAddress(text) && text@ == decode_utf8(body) && canonical_ip(
            trimmed(decode_utf8(body)),
        ) is None
    }
}

/// Reads the address in the body of an endpoint, in its canonical form.
pub fn parse_ip_body(body: &[u8]) -> (r: Result<String, IpBodyError>)
    ensures
        match r {
            Ok(ip) => body@.len() <= MAX_IP_BODY_BYTES && valid_utf8(body@) && canonical_ip(
                trimmed(decode_utf8(body@)),
            ) == Some(ip@),
            Err(e) => body_refused(e, body@),
        },
{
    if body.len() > MAX_IP_BODY_BYTES {
        return Err(IpBodyError::TooLong);
    }
    let text = match utf8_string(slice_to_vec(body)) {
        Some(text) => text,
        None => {
            return Err(IpBodyError::NotText);
        },
    };
    let cs = chars_of(text.as_str());
    match IpAddr::parse(trim(cs.as_slice())) {
        Some(ip) => Ok(ip.to_text()),
        None => Err(IpBodyError::NoAddress(text)),
    }
}

/// Takes a chunk of an endpoint's body, unless it grows too long.
pub fn feed_ip_body(body: &mut Vec<u8>, chunk: &[u8]) -> (fits: bool)
    ensures
        fits == (old(body)@.len() + chunk@.len() <= MAX_IP_BODY_BYTES),
        final(body)@ == (if fits {
            old(body)@ + chunk@
        } else {
            old(body)@
        }),
{
    if chunk.len() > MAX_IP_BODY_BYTES || body.len() > MAX_IP_BODY_BYTES - chunk.len() {
        return false;
    }
    let ghost before = body@;
    let mut i: usize = 0;
    while i < chunk.len()
        invariant
            i <= chunk.len(),
            body@ == before + chunk@.take(i as int),
        decreases chunk.len() - i,
    {
        body.push(chunk[i]);
        assert(body@ =~= before + chunk@.take(i + 1));
        i += 1;
    }
    assert(chunk@.take(chunk.len() as int) =~= chunk@);
    true
}

/// The address in a cache file that is not too old.
pub open spec fn cached_ip(age: u64, body: Seq<char>) -> Option<Seq<char>> {
    if age <= PUBLIC_IP_CACHE_TTL && (read_ip(trimmed(body)) is Some || read_ip6(trimmed(body)) is Some) {
        Some(trimmed(body))
    } else {
        None
    }
}

/// Reads the address in a cache file of an age in milliseconds.
pub fn load_cached_public_ip(age: u64, body: &str) -> (r: Option<String>)
    ensures
        match r {
            Some(ip) => cached_ip(age, body@) == Some(ip@),
            None => cached_ip(age, body@) is None,
        },
{
    if age > PUBLIC_IP_CACHE_TTL {
        return None;
    }
    let cs = chars_of(body);
    let t = trim(cs.as_slice());
    match IpAddr::parse(t) {
        Some(_) => Some(string_of(t)),
        None => None,
    }
}

/// What a cache file holds for an address.
pub open spec fn ip_file_text(ip: Seq<char>) -> Seq<char> {
    ip + "\n"@
}

/// What a cache file holds for an address.
pub fn store_public_ip(ip: &str) -> (s: String)
    ensures
        s@ == ip_file_text(ip@),
{
    let mut s = ip.to_owned();
    s.append("\n");
    s
}

/// Whether there is no white space in a text.
pub open spec fn unspaced(s: Seq<char>) -> bool {
    forall|j: int| 0 <= j < s.len() ==> !is_space(#[trigger] s[j])
}

proof fn lemma_fields_unspaced(s: Seq<char>, c: char)
    requires
        !is_space(c),
        forall|k: int| 0 <= k < fields(s, c).len() ==> unspaced(#[trigger] fields(s, c)[k]),
    ensures
        unspaced(s),
    decreases s.len(),
{
    lemma_find_char(s, c);
    let i = find_char(s, c);
    if i < s.len() {
        let rest = s.skip(i + 1);
        assert(fields(s, c)[0] == s.take(i));
        assert forall|k: int| 0 <= k < fields(rest, c).len() implies unspaced(
            #[trigger] fields(rest, c)[k],
        ) by {
            assert(fields(s, c)[k + 1] == fields(rest, c)[k]);
        }
        lemma_fields_unspaced(rest, c);
        assert forall|j: int| 0 <= j < s.len() implies !is_space(#[trigger] s[j]) by {
            if j < i {
                assert(s.take(i)[j] == s[j]);
            } else if j > i {
                assert(rest[j - i - 1] == s[j]);
            }
        }
    } else {
        assert(fields(s, c)[0] == s);
    }
}

proof fn lemma_ip_unspaced(s: Seq<char>)
    requires
        read_ip(s) is Some,
    ensures
        unspaced(s),
        s.len() > 0,
{
    let parts = fields(s, '.');
    assert forall|k: int| 0 <= k < parts.len() implies unspaced(#[trigger] parts[k]) by {
        assert(read_octet(parts[k]) is Some);
    }
    lemma_fields_unspaced(s, '.');
    if s.len() == 0 {
        lemma_find_char(s, '.');
        assert(parts.len() == 1);
    }
}

proof fn lemma_hex_unspaced(s: Seq<char>)
    requires
        hex_number(s) is Some,
    ensures
        unspaced(s),
    decreases s.len(),
{
    if s.len() > 0 {
        lemma_hex_unspaced(s.drop_last());
        assert forall|j: int| 0 <= j < s.len() implies !is_space(#[trigger] s[j]) by {
            if j < s.len() - 1 {
                assert(s.drop_last()[j] == s[j]);
            }
        }
    }
}

proof fn lemma_groups_unspaced(parts: Seq<Seq<char>>, v4: bool, k: int)
    requires
        field_groups(parts, v4) is Some,
        0 <= k < parts.len(),
    ensures
        unspaced(parts[k]),
    decreases parts.len(),
{
    if parts.len() == 1 && v4 && read_ip(parts[0]) is Some {
        lemma_ip_unspaced(parts[0]);
    } else if k == 0 {
        lemma_hex_unspaced(parts[0]);
    } else {
        lemma_groups_unspaced(parts.drop_first(), v4, k - 1);
    }
}

proof fn lemma_group_text_unspaced(s: Seq<char>, v4: bool)
    requires
        read_groups(s, v4) is Some,
    ensures
        unspaced(s),
{
    if s.len() > 0 {
        let parts = fields(s, ':');
        assert forall|k: int| 0 <= k < parts.len() implies unspaced(#[trigger] parts[k]) by {
            lemma_groups_unspaced(parts, v4, k);
        }
        lemma_fields_unspaced(s, ':');
    }
}

proof fn lemma_gap(s: Seq<char>, i: int)
    requires
        0 <= i,
    ensures
        gap_from(s, i) < s.len() ==> i <= gap_from(s, i) && gap_from(s, i) + 1 < s.len()
            && s[gap_from(s, i)] == ':' && s[gap_from(s, i) + 1] == ':',
    decreases s.len() - i,
{
    if i + 1 < s.len() && !(s[i] == ':' && s[i + 1] == ':') {
        lemma_gap(s, i + 1);
    }
}

proof fn lemma_ip6_unspaced(s: Seq<char>)
    requires
        read_ip6(s) is Some,
    ensures
        unspaced(s),
        s.len() > 0,
{
    let i = gap_from(s, 0);
    if i < s.len() {
        lemma_gap(s, 0);
        let head = s.take(i);
        let tail = s.skip(i + 2);
        lemma_group_text_unspaced(head, false);
        lemma_group_text_unspaced(tail, true);
        assert forall|j: int| 0 <= j < s.len() implies !is_space(#[trigger] s[j]) by {
            if j < i {
                assert(head[j] == s[j]);
            } else if j > i + 1 {
                assert(tail[j - i - 2] == s[j]);
            }
        }
    } else {
        lemma_group_text_unspaced(s, true);
    }
}

/// A fresh cache file gives the address back that was stored.
pub proof fn stored_ip_loads(ip: Seq<char>, age: u64)
    requires
        age <= PUBLIC_IP_CACHE_TTL,
        read_ip(ip) is Some || read_ip6(ip) is Some,
    ensures
        cached_ip(age, ip_file_text(ip)) == Some(ip),
{
    reveal_strlit("\n");
    if read_ip(ip) is Some {
        lemma_ip_unspaced(ip);
    } else {
        lemma_ip6_unspaced(ip);
    }
    let t = ip_file_text(ip);
    assert(t =~= ip.push('\n'));
    assert(!is_space(ip[0]));
    assert(!is_space(ip.last()));
    assert(t[0] == ip[0]);
    assert(trimmed_start(t) == t);
    assert(t.last() == '\n');
    assert(t.drop_last() =~= ip);
    assert(trimmed_end(t) == trimmed_end(ip));
}

/// The name of the file next to a cache file that is written first.
pub fn temporary_ip_name(name: &str, pid: u32) -> (s: String)
    ensures
        s@ == "."@ + name@ + ".tmp-"@ + decimal(pid as nat),
{
    let mut s = ".".to_owned();
    s.append(name);
    s.append(".tmp-");
    push_decimal(&mut s, pid as u64);
    s
}

/// What a source of the address came back with.
#[derive(Clone, Debug)]
pub enum SourceReply {
    Found(String),
    Failed(String),
}

/// The race of several sources for the address: the first that finds it wins,
/// and the race is lost once all have failed.
#[derive(Clone, Debug)]
pub struct Race {
    /// What went wrong so far.
    pub errors: Vec<String>,
    /// Sources that have not come back.
    pub pending: usize,
}

/// Where a race stands.
#[derive(Clone, Debug)]
pub enum RaceResult {
    Won(String),
    Lost(String),
    Running,
}

impl Race {
    /// A race of so many sources.
    pub fn new(sources: usize) -> (r: Self)
        ensures
            r.pending == sources,
            r.errors@.len() == 0,
    {
        Race { errors: Vec::new(), pending: sources }
    }

    /// Takes what a source came back with. What is lost is told with all
    /// failures behind a prefix.
    pub fn finish(&mut self, reply: SourceReply, prefix: &str) -> (r: RaceResult)
        requires
            old(self).pending > 0,
        ensures
            final(self).pending == old(self).pending - 1,
            match reply {
                SourceReply::Found(ip) => (r matches RaceResult::Won(w) && w@ == ip@) && texts(
                    final(self).errors@,
                ) == texts(old(self).errors@),
                SourceReply::Failed(why) => {
                    &&& texts(final(self).errors@) == texts(old(self).errors@).push(why@)
                    &&& if final(self).pending == 0 {
                        r matches RaceResult::Lost(w) && w@ == prefix@ + joined(
                            texts(final(self).errors@),
                            "; "@,
                        )
                    } else {
                        r is Running
                    }
                },
            },
    {
        self.pending = self.pending - 1;
        match reply {
            SourceReply::Found(ip) => RaceResult::Won(ip),
            SourceReply::Failed(why) => {
                proof {
                    lemma_texts_push(self.errors@, why);
                }
                self.errors.push(why);
                if self.pending == 0 {
                    let mut s = prefix.to_owned();
                    s.append(join(&self.errors, "; ").as_str());
                    RaceResult::Lost(s)
                } else {
                    RaceResult::Running
                }
            },
        }
    }
}

/// What is done with the outcome of the live sources.
#[derive(Clone, Debug)]
pub enum Resolution {
    /// The address was found: it is stored and used.
    Fresh(String),
    /// A cached address stands in.
    Cached(String),
    /// There is none.
    Unknown,
}

/// Decides between the outcome of the live sources and the cached address,
/// which is a last resort.
pub fn resolve_public_ip(live: Option<String>, cached: Option<String>) -> (r: Resolution)
    ensures
        match r {
            Resolution::Fresh(ip) => live matches Some(l) && l@ == ip@,
            Resolution::Cached(ip) => live is None && (cached matches Some(c) && c@ == ip@),
            Resolution::Unknown => live is None && cached is None,
        },
{
    match live {
        Some(ip) => Resolution::Fresh(ip),
        None => match cached {
            Some(ip) => Resolution::Cached(ip),
            None => Resolution::Unknown,
        },
    }
}

/// The address that is kept for the life of the process: successes only.
#[derive(Clone, Debug)]
pub struct MyIp {
    pub known: Option<String>,
}

impl MyIp {
    /// Nothing is known yet.
    pub fn new() -> (m: Self)
        ensures
            m.known is None,
    {
        MyIp { known: None }
    }

    /// The known address.
    pub fn cached_my_ip(&self) -> (r: Option<String>)
        ensures
            r.deep_view() == self.known.deep_view(),
    {
        match &self.known {
            Some(ip) => Some(ip.clone()),
            None => None,
        }
    }

    /// Keeps the first address that is found.
    pub fn learn(&mut self, ip: Option<String>)
        ensures
            final(self).known.deep_view() == (if old(self).known is Some {
                old(self).known.deep_view()
            } else {
                ip.deep_view()
            }),
    {
        if self.known.is_none() {
            self.known = ip;
        }
    }
}

/// The labels of a name stand between its dots.
pub proof fn labels_stand_between_dots(a: Seq<u8>, rest: Seq<u8>)
    requires
        forall|j: int| 0 <= j < a.len() ==> a[j] != 46,
    ensures
        labels(a + seq![46u8] + rest) == seq![a] + labels(rest),
        labels(a) == seq![a],
{
    let s = a + seq![46u8] + rest;
    lemma_dot_is(s, a.len() as int);
    assert(s.take(a.len() as int) =~= a);
    assert(s.skip(a.len() as int + 1) =~= rest);
    lemma_dot_is(a, a.len() as int);
}

/// A name is asked for exactly where each label has one to 63 bytes and the
/// whole of it fits into 255.
pub proof fn names_have_their_limits(parts: Seq<Seq<u8>>, used: int)
    requires
        used >= 0,
    ensures
        label_fault(parts, used) is None <==> (forall|i: int|
            0 <= i < parts.len() ==> 1 <= (#[trigger] parts[i]).len() <= 63) && used
            + wire_labels(parts).len() + 1 <= 255,
        parts.len() > 0 && parts[0].len() == 0 ==> label_fault(parts, used) == Some(
            QueryError::EmptyLabel,
        ),
        parts.len() > 0 && parts[0].len() > 63 ==> label_fault(parts, used) == Some(
            QueryError::LongLabel,
        ),
        label_fault(parts, used) == Some(QueryError::LongName) ==> used + wire_labels(parts).len()
            + 1 > 255,
    decreases parts.len(),
{
    if parts.len() > 0 {
        let rest = parts.drop_first();
        let n = parts[0].len() as int;
        names_have_their_limits(rest, used + 1 + n);
        assert(wire_labels(parts).len() == 1 + n + wire_labels(rest).len());
        assert(forall|i: int| 0 <= i < rest.len() ==> #[trigger] rest[i] == parts[i + 1]);
        if label_fault(parts, used) is None {
            assert forall|i: int| 0 <= i < parts.len() implies 1 <= (
            #[trigger] parts[i]).len() <= 63 by {
                if i > 0 {
                    assert(rest[i - 1] == parts[i]);
                }
            }
        }
        if (forall|i: int| 0 <= i < parts.len() ==> 1 <= (#[trigger] parts[i]).len() <= 63) {
            assert(1 <= parts[0].len() <= 63);
            assert forall|i: int| 0 <= i < rest.len() implies 1 <= (#[trigger] rest[i]).len()
                <= 63 by {
                assert(rest[i] == parts[i + 1]);
            }
        }
    }
}

/// A query begins with its number and asks one question: for the addresses of
/// the name, each of its labels behind its length.
pub proof fn queries_ask_for_an_address(domain: Seq<char>, id: u16, label: Seq<u8>, more: Seq<Seq<u8>>)
    ensures
        ({
            let q = a_query(domain, id);
            let n = q.len();
            &&& n >= 17
            &&& q[0] * 256 + q[1] == id
            &&& q[2] == 0x81 && q[3] == 0
            &&& q[4] == 0 && q[5] == 1
            &&& q[6] == 0 && q[7] == 0 && q[8] == 0 && q[9] == 0 && q[10] == 0 && q[11] == 0
            &&& q.skip(n - 5) == seq![0u8, 0u8, 1u8, 0u8, 1u8]
            &&& q.subrange(12, n - 5) == wire_labels(labels(encode_utf8(domain)))
        }),
        label.len() <= 255 ==> wire_labels(seq![label] + more) == seq![label.len() as u8] + label
            + wire_labels(more),
{
    let q = a_query(domain, id);
    let w = wire_labels(labels(encode_utf8(domain)));
    assert(q.skip(q.len() - 5) =~= seq![0u8, 0u8, 1u8, 0u8, 1u8]);
    assert(q.subrange(12, q.len() - 5) =~= w);
    assert((seq![label] + more).drop_first() =~= more);
}

/// A response to the query with one question and one answer, an address record
/// of four octets, gives that address.
pub proof fn answers_give_their_address(m: Seq<u8>, id: u16, question: int, record: int)
    requires
        m.len() >= 12,
        256 * m[0] + m[1] == id,
        m[2] >= 0x80,
        m[2] / 2 % 2 == 0,
        m[3] % 16 == 0,
        m[4] == 0 && m[5] == 1,
        m[6] == 0 && m[7] == 1,
        name_end(m, 12) == Some(question),
        0 <= question,
        name_end(m, question + 4) == Some(record),
        0 <= record,
        record + 14 <= m.len(),
        question + 4 <= m.len(),
        m[record] == 0 && m[record + 1] == 1,
        m[record + 8] == 0 && m[record + 9] == 4,
    ensures
        answer(m, id) == Ok::<_, AnswerError>(
            Ipv4Addr {
                a: m[record + 10],
                b: m[record + 11],
                c: m[record + 12],
                d: m[record + 13],
            },
        ),
{
    reveal_with_fuel(questions_end, 2);
    reveal_with_fuel(first_address, 2);
}

/// A record that is no address is passed over, and a response without one is
/// refused.
pub proof fn other_records_are_passed_over(m: Seq<u8>, count: nat, offset: int, at: int)
    requires
        count > 0,
        name_end(m, offset) == Some(at),
        0 <= at,
        at + 10 <= m.len(),
        at + 10 + u16_at(m, at + 8) <= m.len(),
        u16_at(m, at) != 1,
    ensures
        first_address(m, count, offset) == first_address(
            m,
            (count - 1) as nat,
            at + 10 + u16_at(m, at + 8),
        ),
        first_address(m, 0, offset) == Err::<Ipv4Addr, _>(AnswerError::NoAddress),
{
}

/// A message that is too short, of another query, no response, cut off or a
/// failure is refused as such.
pub proof fn useless_answers_are_refused(m: Seq<u8>, id: u16)
    ensures
        m.len() < 12 ==> answer(m, id) == Err::<Ipv4Addr, _>(AnswerError::Short),
        m.len() >= 12 && 256 * m[0] + m[1] != id ==> answer(m, id) == Err::<Ipv4Addr, _>(
            AnswerError::WrongId,
        ),
        m.len() >= 12 && 256 * m[0] + m[1] == id && m[2] < 128 ==> answer(m, id) == Err::<
            Ipv4Addr,
            _,
        >(AnswerError::NotResponse),
        m.len() >= 12 && 256 * m[0] + m[1] == id && m[2] >= 128 && m[2] / 2 % 2 == 1 ==> answer(
            m,
            id,
        ) == Err::<Ipv4Addr, _>(AnswerError::Truncated),
        m.len() >= 12 && 256 * m[0] + m[1] == id && m[2] >= 128 && m[2] / 2 % 2 == 0 && m[3] % 16
            != 0 ==> answer(m, id) == Err::<Ipv4Addr, _>(AnswerError::Rcode((m[3] % 16) as u16)),
{
}

/// A name in a message ends behind its root label or behind a pointer, and its
/// labels are stepped over by their length.
pub proof fn names_are_stepped_over(m: Seq<u8>, offset: int)
    requires
        0 <= offset < m.len(),
    ensures
        m[offset] == 0 ==> name_end(m, offset) == Some(offset + 1),
        m[offset] >= 192 ==> name_end(m, offset) == Some(offset + 2),
        0 < m[offset] < 192 && offset + 1 + m[offset] <= m.len() ==> name_end(m, offset)
            == name_end(m, offset + 1 + m[offset]),
        0 < m[offset] < 192 && offset + 1 + m[offset] > m.len() ==> name_end(m, offset) is None,
        name_end(m, m.len() as int) is None,
{
}

/// A cached address is used for a day, and only where it is one.
pub proof fn cached_addresses_last_a_day(age: u64, body: Seq<char>)
    ensures
        age > 24 * 60 * 60 * 1000 ==> cached_ip(age, body) is None,
        age <= 24 * 60 * 60 * 1000 && read_ip(trimmed(body)) is Some ==> cached_ip(age, body)
            == Some(trimmed(body)),
        read_ip(trimmed(body)) is None && read_ip6(trimmed(body)) is None ==> cached_ip(age, body)
            is None,
{
}

/// An address in the body of an endpoint is read in its canonical form, without
/// the blanks around it; a body that is too long, no text, or no address is
/// refused as that.
pub proof fn bodies_are_refused_by_their_fault(e: IpBodyError, body: Seq<u8>)
    requires
        body_refused(e, body),
    ensures
        body.len() > 64 ==> e is TooLong,
        body.len() <= 64 && !valid_utf8(body) ==> e is NotText,
        body.len() <= 64 && valid_utf8(body) ==> e is NoAddress && (e->NoAddress_0)@ == decode_utf8(
            body,
        ) && canonical_ip(trimmed(decode_utf8(body))) is None,
{
}

/// The endpoints that are asked are three, all over TLS, and how long the
/// answers may take and last.
pub proof fn lookups_have_their_limits(i: int)
    requires
        0 <= i < ip_endpoints().len(),
    ensures
        ip_endpoints().len() == 3,
        ip_endpoints()[i].len() > 8,
        ip_endpoints()[i].take(8) == "https://"@,
        MAX_IP_BODY_BYTES == 64,
        LOOKUP_TIMEOUT == 5_000,
        MY_IP_LOOKUP_TIMEOUT == 10_000,
        PUBLIC_IP_CACHE_TTL == 24 * 3_600_000,
        DNS_PORT == 53,
        DNS_HEADER_LEN == 12,
        DNS_MAX_NAME_LEN == 255,
        DNS_MAX_LABEL_LEN == 63,
{
    reveal_strlit("https://");
    reveal_strlit("https://api.ipify.org");
    reveal_strlit("https://ifconfig.me/ip");
    reveal_strlit("https://icanhazip.com");
    assert(ip_endpoints()[i].take(8) =~= "https://"@);
}

} // verus!
