//! Relay client connections through pooled upstreams.

use crate::negotiators::https::{
    authority_text, connect_text, ends_head, head_ends_at, parse_response, response_head,
    tunnel_verdict, write_authority, write_connect, RESPONSE_HEADERS,
};
use crate::negotiators::Negotiator;
use crate::providers::models::{parse_uri, uri_parts};
use crate::proxy::models::{Protocol, Proxy, ProxyType};
use crate::rotator::{bytes_text, dur_text, fmt_bytes, fmt_dur, ServeEvent};
use crate::text::{
    chars_of, copy_str, decimal, eq_ignore_case, lowered, parse_u16, push_decimal, read_number,
    same, string_of,
};
use vstd::prelude::*;
use vstd::slice::slice_subrange;
use vstd::string::*;
use vstd::utf8::*;

verus! {

/// Bytes from which on no more of a request head is read.
pub const REQUEST_HEAD_LIMIT: usize = 16 * 1024;

/// How many headers of a request are read.
pub const HTTPARSE_MAX_HEADERS: usize = 64;

/// Bytes that the response to a CONNECT may have.
pub const PROXY_RESPONSE_LIMIT: usize = 16 * 1024;

/// Port of a request target without one.
pub const DEFAULT_TARGET_PORT: u16 = 80;

// ---------------------------------------------------------------------------
// Replies
// ---------------------------------------------------------------------------

/// What the endpoint answers by itself.
#[derive(Clone, Copy, Debug, PartialEq, Eq, Structural)]
pub enum Reply {
    Established,
    BadRequest,
    NoProxy,
    BadGateway,
    Unauthorized,
}

/// A reply as text.
pub open spec fn reply_text(r: Reply) -> Seq<char> {
    match r {
        Reply::Established => "HTTP/1.1 200 Connection established\r\n\r\n"@,
        Reply::BadRequest => "HTTP/1.1 400 Bad Request\r\nContent-Length: 0\r\nConnection: close\r\n\r\n"@,
        Reply::NoProxy => "HTTP/1.1 503 Service Unavailable\r\nContent-Length: 0\r\nConnection: close\r\n\r\n"@,
        Reply::BadGateway => "HTTP/1.1 502 Bad Gateway\r\nContent-Length: 0\r\nConnection: close\r\n\r\n"@,
        Reply::Unauthorized => "HTTP/1.1 407 Proxy Authentication Required\r\nProxy-Authenticate: Basic realm=\"flx\"\r\nContent-Length: 0\r\nConnection: close\r\n\r\n"@,
    }
}

/// The bytes of a reply.
pub fn reply_bytes(r: Reply) -> (b: Vec<u8>)
    ensures
        b@ == encode_utf8(reply_text(r)),
{
    match r {
        Reply::Established => "HTTP/1.1 200 Connection established\r\n\r\n".as_bytes_vec(),
        Reply::BadRequest => "HTTP/1.1 400 Bad Request\r\nContent-Length: 0\r\nConnection: close\r\n\r\n".as_bytes_vec(),
        Reply::NoProxy => "HTTP/1.1 503 Service Unavailable\r\nContent-Length: 0\r\nConnection: close\r\n\r\n".as_bytes_vec(),
        Reply::BadGateway => "HTTP/1.1 502 Bad Gateway\r\nContent-Length: 0\r\nConnection: close\r\n\r\n".as_bytes_vec(),
        Reply::Unauthorized => "HTTP/1.1 407 Proxy Authentication Required\r\nProxy-Authenticate: Basic realm=\"flx\"\r\nContent-Length: 0\r\nConnection: close\r\n\r\n".as_bytes_vec(),
    }
}

// ---------------------------------------------------------------------------
// Reading a request
// ---------------------------------------------------------------------------

/// Why a request head was refused.
#[derive(Clone, Copy, Debug, PartialEq, Eq, Structural)]
pub enum RequestError {
    /// The head goes on for too long.
    TooLong,
    /// The client closed before sending a full request head.
    Closed,
    /// The head cannot be read.
    Malformed,
    /// The head is incomplete.
    Incomplete,
    /// There is no method.
    NoMethod,
    /// There is no path.
    NoPath,
    /// The CONNECT authority has no port.
    NoPort,
    /// The CONNECT authority has an invalid port.
    BadPort,
    /// The request target is malformed.
    BadTarget,
    /// The request target has no host.
    NoHost,
}

/// The end of the first head in some bytes.
pub fn find_head_end(bytes: &[u8]) -> (r: Option<usize>)
    ensures
        match r {
            Some(end) => head_ends_at(bytes@, end as int) && forall|e: int|
                e < end ==> !head_ends_at(bytes@, e),
            None => forall|e: int| !head_ends_at(bytes@, e),
        },
{
    let n: usize = bytes.len();
    if n < 4 {
        return None;
    }
    let mut end: usize = 4;
    loop
        invariant
            4 <= end <= n,
            n == bytes.len(),
            forall|e: int| e < end ==> !head_ends_at(bytes@, e),
        decreases n - end,
    {
        if bytes[end - 4] == 13 && bytes[end - 3] == 10 && bytes[end - 2] == 13 && bytes[end - 1]
            == 10 {
            return Some(end);
        }
        if end == n {
            return None;
        }
        end += 1;
    }
}

/// The part of a request that was read so far.
pub struct RequestHead {
    pub bytes: Vec<u8>,
}

impl RequestHead {
    /// Nothing was read yet.
    pub fn new() -> (h: Self)
        ensures
            h.bytes@.len() == 0,
    {
        RequestHead { bytes: Vec::new() }
    }

    /// Whether no more may be read.
    pub fn is_full(&self) -> (r: bool)
        ensures
            r == (self.bytes@.len() > REQUEST_HEAD_LIMIT),
    {
        self.bytes.len() > REQUEST_HEAD_LIMIT
    }

    /// Takes what was read, nothing at the end of the stream: where the head
    /// ends, once it does.
    pub fn feed(&mut self, chunk: &[u8]) -> (r: Result<Option<usize>, RequestError>)
        ensures
            match r {
                Err(e) => {
                    &&& final(self).bytes@ == old(self).bytes@
                    &&& if old(self).bytes@.len() > REQUEST_HEAD_LIMIT {
                        e == RequestError::TooLong
                    } else {
                        chunk@.len() == 0 && e == RequestError::Closed
                    }
                },
                Ok(found) => {
                    &&& old(self).bytes@.len() <= REQUEST_HEAD_LIMIT
                    &&& chunk@.len() > 0
                    &&& final(self).bytes@ == old(self).bytes@ + chunk@
                    &&& match found {
                        Some(end) => head_ends_at(final(self).bytes@, end as int) && forall|e: int|
                            e < end ==> !head_ends_at(final(self).bytes@, e),
                        None => forall|e: int| !head_ends_at(final(self).bytes@, e),
                    }
                },
            },
    {
        if self.bytes.len() > REQUEST_HEAD_LIMIT {
            return Err(RequestError::TooLong);
        }
        if chunk.len() == 0 {
            return Err(RequestError::Closed);
        }
        let ghost before = self.bytes@;
        let mut i: usize = 0;
        while i < chunk.len()
            invariant
                i <= chunk.len(),
                self.bytes@ == before + chunk@.take(i as int),
            decreases chunk.len() - i,
        {
            self.bytes.push(chunk[i]);
            assert(self.bytes@ =~= before + chunk@.take(i + 1));
            i += 1;
        }
        assert(chunk@.take(chunk.len() as int) =~= chunk@);
        Ok(find_head_end(self.bytes.as_slice()))
    }
}

/// However a request comes in pieces, its head ends in one place: bytes behind
/// a head do not move its end.
pub proof fn head_end_is_stable(bytes: Seq<u8>, more: Seq<u8>, end: int)
    requires
        head_ends_at(bytes, end),
        forall|e: int| e < end ==> !head_ends_at(bytes, e),
    ensures
        head_ends_at(bytes + more, end),
        forall|e: int| e < end ==> !head_ends_at(bytes + more, e),
{
    assert forall|e: int| e < end implies !head_ends_at(bytes + more, e) by {
        if head_ends_at(bytes + more, e) {
            assert(head_ends_at(bytes, e));
        }
    }
}

/// A text without the leading ones of a character.
pub open spec fn without_leading(s: Seq<char>, c: char) -> Seq<char>
    decreases s.len(),
{
    if s.len() > 0 && s[0] == c {
        without_leading(s.drop_first(), c)
    } else {
        s
    }
}

/// A text without the trailing ones of a character.
pub open spec fn without_trailing(s: Seq<char>, c: char) -> Seq<char>
    decreases s.len(),
{
    if s.len() > 0 && s.last() == c {
        without_trailing(s.drop_last(), c)
    } else {
        s
    }
}

/// A host without the brackets around an IPv6 address.
pub open spec fn bare_host(s: Seq<char>) -> Seq<char> {
    without_trailing(without_leading(s, '['), ']')
}

fn strip_brackets(s: &[char]) -> (r: String)
    ensures
        r@ == bare_host(s@),
{
    let mut from: usize = 0;
    assert(s@.skip(0) =~= s@);
    while from < s.len() && s[from] == '['
        invariant
            from <= s.len(),
            without_leading(s@.skip(from as int), '[') == without_leading(s@, '['),
        decreases s.len() - from,
    {
        assert(s@.skip(from as int).drop_first() =~= s@.skip(from + 1));
        from += 1;
    }
    let ghost led = without_leading(s@, '[');
    assert(led == s@.skip(from as int));
    let mut to: usize = s.len();
    assert(s@.subrange(from as int, to as int) =~= led);
    while to > from && s[to - 1] == ']'
        invariant
            from <= to <= s.len(),
            without_trailing(s@.subrange(from as int, to as int), ']') == without_trailing(
                led,
                ']',
            ),
        decreases to,
    {
        assert(s@.subrange(from as int, to as int).drop_last() =~= s@.subrange(
            from as int,
            to - 1,
        ));
        to -= 1;
    }
    string_of(slice_subrange(s, from, to))
}

/// The last place of a character, or -1.
pub open spec fn last_place(s: Seq<char>, c: char) -> int
    decreases s.len(),
{
    if s.len() == 0 {
        -1
    } else if s.last() == c {
        s.len() - 1
    } else {
        last_place(s.drop_last(), c)
    }
}

/// Host and port of an authority, or why it is none.
pub open spec fn read_authority(s: Seq<char>) -> Result<(Seq<char>, u16), RequestError> {
    let i = last_place(s, ':');
    if i < 0 {
        Err(RequestError::NoPort)
    } else {
        match read_number(s.skip(i + 1), u16::MAX as nat) {
            Some(port) => Ok((bare_host(s.take(i)), port as u16)),
            None => Err(RequestError::BadPort),
        }
    }
}

fn find_last(s: &[char], c: char) -> (r: Option<usize>)
    ensures
        match r {
            Some(i) => last_place(s@, c) == i && i < s@.len(),
            None => last_place(s@, c) < 0,
        },
{
    let mut n: usize = s.len();
    assert(s@.take(n as int) =~= s@);
    while n > 0
        invariant
            n <= s.len(),
            last_place(s@.take(n as int), c) == last_place(s@, c),
        decreases n,
    {
        if s[n - 1] == c {
            return Some(n - 1);
        }
        assert(s@.take(n as int).drop_last() =~= s@.take(n - 1));
        n -= 1;
    }
    None
}

/// Reads host and port of a CONNECT authority.
pub fn parse_authority(authority: &str) -> (r: Result<(String, u16), RequestError>)
    ensures
        match r {
            Ok((host, port)) => read_authority(authority@) == Ok::<_, RequestError>((host@, port)),
            Err(e) => read_authority(authority@) == Err::<(Seq<char>, u16), _>(e),
        },
{
    let cs = chars_of(authority);
    let s = cs.as_slice();
    let i: usize = match find_last(s, ':') {
        Some(i) => i,
        None => {
            return Err(RequestError::NoPort);
        },
    };
    let port = slice_subrange(s, i + 1, s.len());
    assert(port@ =~= s@.skip(i + 1));
    let host = slice_subrange(s, 0, i);
    assert(host@ =~= s@.take(i as int));
    match parse_u16(port) {
        Some(p) => Ok((strip_brackets(host), p)),
        None => Err(RequestError::BadPort),
    }
}

/// How far the head of a request reaches, its method, its path and its
/// headers, where they are there; none where the head goes on behind the
/// bytes, and no answer where it is malformed.
pub uninterp spec fn request_head(bytes: Seq<u8>, headers: usize) -> Option<
    Option<(usize, Option<Seq<char>>, Option<Seq<char>>, Seq<(Seq<char>, Seq<u8>)>)>,
>;

/// `httparse::Request::parse` with room for so many headers: whether the bytes
/// hold a whole request head, how far it reaches, its method, its path, and
/// the names and values of its headers in order. All of it is a function of
/// the bytes and the room.
#[verifier::external_body]
fn parse_head(bytes: &[u8], headers: usize) -> (r: Option<
    Option<(usize, Option<String>, Option<String>, Vec<(String, Vec<u8>)>)>,
>)
    requires
        headers <= HTTPARSE_MAX_HEADERS,
    ensures
        r.deep_view() == request_head(bytes@, headers),
{
    let mut room = vec![httparse::EMPTY_HEADER; headers];
    let mut request = httparse::Request::new(&mut room);
    match request.parse(bytes) {
        Ok(httparse::Status::Complete(n)) => {
            let fields = request.headers.iter().map(|h| (h.name.to_owned(), h.value.to_vec()));
            let path = request.path.map(str::to_owned);
            Some(Some((n, request.method.map(str::to_owned), path, fields.collect())))
        },
        Ok(httparse::Status::Partial) => Some(None),
        Err(_) => None,
    }
}

/// The Base64 text of some bytes.
pub uninterp spec fn base64_text(bytes: Seq<u8>) -> Seq<char>;

/// `base64::Engine::encode` of the standard engine: the text is a function of
/// the bytes.
#[verifier::external_body]
fn encode_base64(bytes: &[u8]) -> (r: String)
    ensures
        r@ == base64_text(bytes@),
{
    base64::Engine::encode(&base64::engine::general_purpose::STANDARD, bytes)
}

/// The header value that a user and a password call for.
pub open spec fn basic_auth(user: Seq<char>, pass: Seq<char>) -> Seq<u8> {
    encode_utf8("Basic "@ + base64_text(encode_utf8(user + ":"@ + pass)))
}

/// The header value that a user and a password call for.
pub fn expected_auth(user: &str, pass: &str) -> (r: Vec<u8>)
    ensures
        r@ == basic_auth(user@, pass@),
{
    let mut plain = copy_str(user);
    plain.append(":");
    plain.append(pass);
    let bytes = plain.as_str().as_bytes_vec();
    let encoded = encode_base64(bytes.as_slice());
    let mut value = "Basic ".to_owned();
    value.append(encoded.as_str());
    value.as_str().as_bytes_vec()
}

/// Whether one of the headers carries the expected authorization.
pub open spec fn carries_auth(headers: Seq<(Seq<char>, Seq<u8>)>, expected: Seq<u8>) -> bool {
    exists|i: int|
        0 <= i < headers.len() && lowered((#[trigger] headers[i]).0) == lowered(
            "proxy-authorization"@,
        ) && headers[i].1 == expected
}

/// Whether a request may be served: nothing is expected, or it is there.
pub open spec fn authorized(
    headers: Seq<(Seq<char>, Seq<u8>)>,
    expected: Option<Seq<u8>>,
) -> bool {
    match expected {
        Some(value) => carries_auth(headers, value),
        None => true,
    }
}

fn same_bytes(a: &[u8], b: &[u8]) -> (r: bool)
    ensures
        r == (a@ == b@),
{
    if a.len() != b.len() {
        return false;
    }
    let mut i: usize = 0;
    while i < a.len()
        invariant
            a.len() == b.len(),
            i <= a.len(),
            forall|j: int| 0 <= j < i ==> a@[j] == b@[j],
        decreases a.len() - i,
    {
        if a[i] != b[i] {
            return false;
        }
        i += 1;
    }
    assert(a@ =~= b@);
    true
}

fn is_authorized(headers: &Vec<(String, Vec<u8>)>, expected: Option<&[u8]>) -> (r: bool)
    ensures
        r == authorized(
            headers.deep_view(),
            match expected {
                Some(value) => Some(value@),
                None => None,
            },
        ),
{
    let value = match expected {
        Some(value) => value,
        None => {
            return true;
        },
    };
    let ghost all = headers.deep_view();
    let mut i: usize = 0;
    while i < headers.len()
        invariant
            i <= headers.len(),
            expected == Some(value),
            all == headers.deep_view(),
            forall|j: int|
                0 <= j < i ==> !(lowered((#[trigger] all[j]).0) == lowered("proxy-authorization"@)
                    && all[j].1 == value@),
        decreases headers.len() - i,
    {
        assert(all[i as int] == headers@[i as int].deep_view());
        assert(headers@[i as int].1.deep_view() =~= headers@[i as int].1@);
        if eq_ignore_case(headers[i].0.as_str(), "proxy-authorization") && same_bytes(
            headers[i].1.as_slice(),
            value,
        ) {
            assert(lowered(all[i as int].0) == lowered("proxy-authorization"@));
            assert(all[i as int].1 == value@);
            return true;
        }
        i += 1;
    }
    false
}

/// A request that was read.
#[derive(Clone, Debug)]
pub struct ClientRequest {
    pub tunnel: bool,
    pub method: String,
    pub host: String,
    pub port: u16,
    pub authorized: bool,
    /// Forward full requests or CONNECT tails upstream.
    pub forward: Vec<u8>,
}

/// A request as plain values.
#[verifier::ext_equal]
pub struct RequestText {
    pub tunnel: bool,
    pub method: Seq<char>,
    pub host: Seq<char>,
    pub port: u16,
    pub authorized: bool,
    pub forward: Seq<u8>,
}

impl View for ClientRequest {
    type V = RequestText;

    open spec fn view(&self) -> RequestText {
        RequestText {
            tunnel: self.tunnel,
            method: self.method@,
            host: self.host@,
            port: self.port,
            authorized: self.authorized,
            forward: self.forward@,
        }
    }
}

/// Host and port of the target of a request that is forwarded as it is.
pub open spec fn forward_target(
    uri: Option<(Seq<char>, Option<Seq<char>>, Option<Seq<char>>, Option<u16>)>,
) -> Result<(Seq<char>, u16), RequestError> {
    match uri {
        None => Err(RequestError::BadTarget),
        Some((_, _, None, _)) => Err(RequestError::NoHost),
        Some((_, _, Some(host), port)) => Ok(
            (
                bare_host(host),
                match port {
                    Some(p) => p,
                    None => DEFAULT_TARGET_PORT,
                },
            ),
        ),
    }
}

/// The request in some bytes with a parsed head and a parsed path. A tunnel
/// goes on with what follows the head, any other request with all of it.
pub open spec fn request_of(
    bytes: Seq<u8>,
    head_end: int,
    head: Option<Option<(usize, Option<Seq<char>>, Option<Seq<char>>, Seq<(Seq<char>, Seq<u8>)>)>>,
    uri: Option<(Seq<char>, Option<Seq<char>>, Option<Seq<char>>, Option<u16>)>,
    expected: Option<Seq<u8>>,
) -> Result<RequestText, RequestError> {
    match head {
        None => Err(RequestError::Malformed),
        Some(None) => Err(RequestError::Incomplete),
        Some(Some((_, None, _, _))) => Err(RequestError::NoMethod),
        Some(Some((_, Some(_), None, _))) => Err(RequestError::NoPath),
        Some(Some((consumed, Some(method), Some(path), headers))) => {
            let tunnel = method == "CONNECT"@;
            let target = if tunnel {
                read_authority(path)
            } else {
                forward_target(uri)
            };
            let body = if consumed < head_end {
                consumed as int
            } else {
                head_end
            };
            match target {
                Err(e) => Err(e),
                Ok((host, port)) => Ok(
                    RequestText {
                        tunnel,
                        method,
                        host,
                        port,
                        authorized: authorized(headers, expected),
                        forward: if tunnel {
                            bytes.skip(body)
                        } else {
                            bytes
                        },
                    },
                ),
            }
        },
    }
}

/// The address in the path of a parsed head.
pub open spec fn path_uri(
    head: Option<Option<(usize, Option<Seq<char>>, Option<Seq<char>>, Seq<(Seq<char>, Seq<u8>)>)>>,
) -> Option<(Seq<char>, Option<Seq<char>>, Option<Seq<char>>, Option<u16>)> {
    match head {
        Some(Some((_, _, Some(path), _))) => uri_parts(path),
        _ => None,
    }
}

fn drop_front(bytes: Vec<u8>, n: usize) -> (r: Vec<u8>)
    requires
        n <= bytes@.len(),
    ensures
        r@ == bytes@.skip(n as int),
{
    let mut r: Vec<u8> = Vec::new();
    let mut i: usize = n;
    while i < bytes.len()
        invariant
            n <= i <= bytes.len(),
            r@ == bytes@.subrange(n as int, i as int),
        decreases bytes.len() - i,
    {
        r.push(bytes[i]);
        i += 1;
        assert(r@ =~= bytes@.subrange(n as int, i as int));
    }
    assert(r@ =~= bytes@.skip(n as int));
    r
}

/// Makes the request out of its bytes, its parsed head and, for requests that
/// are forwarded as they are, its parsed path.
pub fn make_request(
    bytes: Vec<u8>,
    head_end: usize,
    head: Option<Option<(usize, Option<String>, Option<String>, Vec<(String, Vec<u8>)>)>>,
    uri: Option<(String, Option<String>, Option<String>, Option<u16>)>,
    expected: Option<&[u8]>,
) -> (r: Result<ClientRequest, RequestError>)
    requires
        head_end <= bytes@.len(),
    ensures
        ({
            let made = request_of(
                bytes@,
                head_end as int,
                head.deep_view(),
                uri.deep_view(),
                match expected {
                    Some(value) => Some(value@),
                    None => None,
                },
            );
            match r {
                Ok(request) => made == Ok::<_, RequestError>(request@),
                Err(e) => made == Err::<RequestText, _>(e),
            }
        }),
{
    let (consumed, method, path, headers) = match head {
        None => {
            return Err(RequestError::Malformed);
        },
        Some(None) => {
            return Err(RequestError::Incomplete);
        },
        Some(Some(parts)) => parts,
    };
    let method = match method {
        None => {
            return Err(RequestError::NoMethod);
        },
        Some(method) => method,
    };
    let path = match path {
        None => {
            return Err(RequestError::NoPath);
        },
        Some(path) => path,
    };
    let authorized = is_authorized(&headers, expected);
    let tunnel = same(method.as_str(), "CONNECT");
    let (host, port) = if tunnel {
        match parse_authority(path.as_str()) {
            Ok(target) => target,
            Err(e) => {
                return Err(e);
            },
        }
    } else {
        match uri {
            None => {
                return Err(RequestError::BadTarget);
            },
            Some((_, _, None, _)) => {
                return Err(RequestError::NoHost);
            },
            Some((_, _, Some(host), port)) => {
                let cs = chars_of(host.as_str());
                let number: u16 = match port {
                    Some(p) => p,
                    None => DEFAULT_TARGET_PORT,
                };
                (strip_brackets(cs.as_slice()), number)
            },
        }
    };
    let body: usize = if consumed < head_end {
        consumed
    } else {
        head_end
    };
    let forward = if tunnel {
        drop_front(bytes, body)
    } else {
        bytes
    };
    Ok(ClientRequest { tunnel, method, host, port, authorized, forward })
}

/// Reads the request whose head ends at a place in some bytes.
pub fn read_request(bytes: Vec<u8>, head_end: usize, expected: Option<&[u8]>) -> (r: Result<
    ClientRequest,
    RequestError,
>)
    requires
        head_end <= bytes@.len(),
    ensures
        ({
            let head = request_head(bytes@, HTTPARSE_MAX_HEADERS);
            let made = request_of(
                bytes@,
                head_end as int,
                head,
                path_uri(head),
                match expected {
                    Some(value) => Some(value@),
                    None => None,
                },
            );
            match r {
                Ok(request) => made == Ok::<_, RequestError>(request@),
                Err(e) => made == Err::<RequestText, _>(e),
            }
        }),
{
    let head = parse_head(bytes.as_slice(), HTTPARSE_MAX_HEADERS);
    let uri = match &head {
        Some(Some((_, _, Some(path), _))) => parse_uri(path.as_str()),
        _ => None,
    };
    make_request(bytes, head_end, head, uri, expected)
}

// ---------------------------------------------------------------------------
// Upstreams
// ---------------------------------------------------------------------------

/// How an upstream is brought to the target.
#[derive(Clone, Copy, Debug, PartialEq, Eq, Structural)]
pub enum Handshake {
    Socks4,
    Socks5,
    /// A tunnel with the CONNECT method to an HTTPS proxy.
    HttpsConnect,
    /// A tunnel with the CONNECT method to an HTTP proxy.
    HttpConnect,
    /// None: the request goes out as it is.
    Direct,
}

/// Whether a protocol has a handshake of its own.
pub open spec fn has_handshake(p: Protocol) -> bool {
    p is Socks4 || p is Socks5 || p is Https
}

/// The first of some validated types that has a handshake of its own.
pub open spec fn first_handshake(types: Seq<ProxyType>) -> Option<Protocol>
    decreases types.len(),
{
    if types.len() == 0 {
        None
    } else if has_handshake(types[0].protocol) {
        Some(types[0].protocol)
    } else {
        first_handshake(types.drop_first())
    }
}

/// The protocol that an upstream is spoken to in: the first validated one with
/// a handshake, else the first advertised one.
pub open spec fn upstream_protocol(p: Proxy) -> Option<Protocol> {
    match first_handshake(p.proxy_types@) {
        Some(protocol) => Some(protocol),
        None => if p.expected_types@.len() > 0 {
            Some(p.expected_types@[0])
        } else {
            None
        },
    }
}

/// The handshake for a protocol.
pub open spec fn handshake_of(protocol: Option<Protocol>, tunnel: bool) -> Handshake {
    match protocol {
        Some(Protocol::Socks4) => Handshake::Socks4,
        Some(Protocol::Socks5) => Handshake::Socks5,
        Some(Protocol::Https(_)) => if tunnel {
            Handshake::HttpsConnect
        } else {
            Handshake::Direct
        },
        _ => if tunnel {
            Handshake::HttpConnect
        } else {
            Handshake::Direct
        },
    }
}

/// Picks the handshake that brings an upstream to the target.
pub fn handshake_for(proxy: &Proxy, tunnel: bool) -> (r: Handshake)
    ensures
        r == handshake_of(upstream_protocol(*proxy), tunnel),
{
    let mut i: usize = 0;
    let types = &proxy.proxy_types;
    assert(types@.skip(0) =~= types@);
    while i < types.len()
        invariant
            i <= types.len(),
            types@ == proxy.proxy_types@,
            first_handshake(types@.skip(i as int)) == first_handshake(types@),
        decreases types.len() - i,
    {
        assert(types@.skip(i as int).drop_first() =~= types@.skip(i + 1));
        match types[i].protocol {
            Protocol::Socks4 => {
                return Handshake::Socks4;
            },
            Protocol::Socks5 => {
                return Handshake::Socks5;
            },
            Protocol::Https(_) => {
                return if tunnel {
                    Handshake::HttpsConnect
                } else {
                    Handshake::Direct
                };
            },
            _ => {},
        }
        i += 1;
    }
    if proxy.expected_types.len() > 0 {
        match proxy.expected_types[0] {
            Protocol::Socks4 => Handshake::Socks4,
            Protocol::Socks5 => Handshake::Socks5,
            Protocol::Https(_) => if tunnel {
                Handshake::HttpsConnect
            } else {
                Handshake::Direct
            },
            _ => if tunnel {
                Handshake::HttpConnect
            } else {
                Handshake::Direct
            },
        }
    } else if tunnel {
        Handshake::HttpConnect
    } else {
        Handshake::Direct
    }
}

/// The negotiator that runs a handshake and the scheme of the address that it
/// is given, where it takes one.
pub open spec fn negotiation_of(handshake: Handshake) -> Option<(Negotiator, Seq<char>)> {
    match handshake {
        Handshake::Socks4 => Some((Negotiator::Socks4, "http"@)),
        Handshake::Socks5 => Some((Negotiator::Socks5, "http"@)),
        Handshake::HttpsConnect => Some((Negotiator::Https, "https"@)),
        Handshake::HttpConnect | Handshake::Direct => None,
    }
}

/// Picks the negotiator that runs a handshake and the scheme of the address
/// that it is given.
pub fn negotiation_for(handshake: Handshake) -> (r: Option<(Negotiator, &'static str)>)
    ensures
        match r {
            Some((negotiator, scheme)) => negotiation_of(handshake) == Some((negotiator, scheme@)),
            None => negotiation_of(handshake) is None,
        },
{
    match handshake {
        Handshake::Socks4 => Some((Negotiator::Socks4, "http")),
        Handshake::Socks5 => Some((Negotiator::Socks5, "http")),
        Handshake::HttpsConnect => Some((Negotiator::Https, "https")),
        Handshake::HttpConnect | Handshake::Direct => None,
    }
}

/// The address of a target, as a handshake wants it.
pub open spec fn target_address(scheme: Seq<char>, host: Seq<char>, port: u16) -> Seq<char> {
    scheme + "://"@ + host + ":"@ + decimal(port as nat) + "/"@
}

/// Writes the address of a target, as a handshake wants it.
pub fn target_uri(scheme: &str, host: &str, port: u16) -> (s: String)
    ensures
        s@ == target_address(scheme@, host@, port),
{
    let mut s = copy_str(scheme);
    s.append("://");
    s.append(host);
    s.append(":");
    push_decimal(&mut s, port as u64);
    s.append("/");
    s
}

/// What asks an HTTP proxy for a tunnel.
pub open spec fn tunnel_request(host: Seq<char>, port: u16) -> Seq<char> {
    connect_text(authority_text(host, port), "Proxy-Connection"@)
}

/// The request that asks an HTTP proxy for a tunnel.
pub fn connect_request(host: &str, port: u16) -> (r: Vec<u8>)
    ensures
        r@ == encode_utf8(connect_text(authority_text(host@, port), "Proxy-Connection"@)),
        r@ == encode_utf8(tunnel_request(host@, port)),
{
    let authority = write_authority(host, port);
    write_connect(authority.as_str(), "Proxy-Connection").as_str().as_bytes_vec()
}

/// Why a tunnel through an HTTP proxy does not stand.
#[derive(Clone, Copy, Debug, PartialEq, Eq, Structural)]
pub enum ConnectError {
    /// The upstream closed during the handshake.
    Closed,
    /// The response exceeds the header limit.
    TooLong,
    /// The response cannot be read or is incomplete.
    Malformed,
    /// The response has another status than 200.
    Status(u16),
}

/// Takes one line of the response, nothing at the end of the stream: whether
/// its head is complete.
pub fn feed_response(response: &mut Vec<u8>, line: &[u8]) -> (r: Result<bool, ConnectError>)
    ensures
        match r {
            Ok(done) => {
                &&& line@.len() > 0
                &&& old(response)@.len() + line@.len() <= PROXY_RESPONSE_LIMIT
                &&& final(response)@ == old(response)@ + line@
                &&& done == head_ends_at(final(response)@, final(response)@.len() as int)
            },
            Err(e) => final(response)@ == old(response)@ && if line@.len() == 0 {
                e == ConnectError::Closed
            } else {
                old(response)@.len() + line@.len() > PROXY_RESPONSE_LIMIT && e
                    == ConnectError::TooLong
            },
        },
{
    if line.len() == 0 {
        return Err(ConnectError::Closed);
    }
    if line.len() > PROXY_RESPONSE_LIMIT || response.len() > PROXY_RESPONSE_LIMIT - line.len() {
        return Err(ConnectError::TooLong);
    }
    let ghost before = response@;
    let mut i: usize = 0;
    while i < line.len()
        invariant
            i <= line.len(),
            response@ == before + line@.take(i as int),
        decreases line.len() - i,
    {
        response.push(line[i]);
        assert(response@ =~= before + line@.take(i + 1));
        i += 1;
    }
    assert(line@.take(line.len() as int) =~= line@);
    Ok(ends_head(response.as_slice()))
}

/// Judges the status of a parsed response: only 200 opens the tunnel.
pub fn judge_connect(head: Option<Option<(Option<u16>, Option<String>)>>) -> (r: Result<
    u16,
    ConnectError,
>)
    ensures
        r == connect_verdict(head.deep_view()),
{
    match head {
        Some(Some((code, _))) => {
            let status: u16 = match code {
                Some(c) => c,
                None => 0,
            };
            if status == 200 {
                Ok(status)
            } else {
                Err(ConnectError::Status(status))
            }
        },
        _ => Err(ConnectError::Malformed),
    }
}

/// What a parsed response head says of a tunnel.
pub open spec fn connect_verdict(
    head: Option<Option<(Option<u16>, Option<Seq<char>>)>>,
) -> Result<u16, ConnectError> {
    match tunnel_verdict(head) {
        Some(code) => if code == 200 {
            Ok(code)
        } else {
            Err(ConnectError::Status(code))
        },
        None => Err(ConnectError::Malformed),
    }
}

/// Judges a complete response head.
pub fn check_connect(response: &[u8]) -> (r: Result<u16, ConnectError>)
    ensures
        r == connect_verdict(response_head(response@, RESPONSE_HEADERS)),
{
    judge_connect(parse_response(response, RESPONSE_HEADERS))
}

// ---------------------------------------------------------------------------
// Traces
// ---------------------------------------------------------------------------

/// What a trace line reports.
#[derive(Clone, Debug)]
pub enum Trace {
    /// A client was accepted.
    Accepted(String),
    /// The request head was read within so many nanoseconds.
    HeadRead(u64),
    /// An upstream was picked; so many of so many are ready.
    Picked(String, usize, usize),
    /// The upstream was connected within so many nanoseconds.
    Connected(u64),
    /// A handshake took so many nanoseconds.
    Shaken(Handshake, u64),
    /// The upstream answered a CONNECT.
    Status(u16),
    /// A request goes to its target.
    Request(String, String),
    /// So many bytes went up and down within so many nanoseconds.
    Relayed(u64, u64, u64),
}

/// How a handshake is called.
pub open spec fn handshake_name(h: Handshake) -> Seq<char> {
    match h {
        Handshake::Socks4 => "socks4"@,
        Handshake::Socks5 => "socks5"@,
        Handshake::HttpsConnect => "https-connect"@,
        Handshake::HttpConnect => "http-connect"@,
        Handshake::Direct => "direct"@,
    }
}

/// A trace line.
pub open spec fn trace_text(t: Trace) -> Seq<char> {
    match t {
        Trace::Accepted(client) => "* accepted "@ + client@,
        Trace::HeadRead(ns) => "* head read "@ + dur_text(ns as int),
        Trace::Picked(via, ready, size) => "* picked upstream "@ + via@ + " (pool "@ + decimal(
            ready as nat,
        ) + "/"@ + decimal(size as nat) + ")"@,
        Trace::Connected(ns) => "* TCP connect "@ + dur_text(ns as int),
        Trace::Shaken(h, ns) => if h is Direct {
            "* direct forward (no handshake)"@
        } else {
            "* handshake "@ + handshake_name(h) + " "@ + dur_text(ns as int)
        },
        Trace::Status(code) => "< HTTP/1.1 "@ + decimal(code as nat),
        Trace::Request(method, target) => "> "@ + method@ + " "@ + target@,
        Trace::Relayed(up, down, ns) => "* relay done up "@ + bytes_text(up as int) + " down "@
            + bytes_text(down as int) + " in "@ + dur_text(ns as int),
    }
}

impl Trace {
    /// The trace line.
    pub fn to_text(&self) -> (s: String)
        ensures
            s@ == trace_text(*self),
    {
        match self {
            Trace::Accepted(client) => {
                let mut s = "* accepted ".to_owned();
                s.append(client.as_str());
                s
            },
            Trace::HeadRead(ns) => {
                let mut s = "* head read ".to_owned();
                s.append(fmt_dur(*ns).as_str());
                s
            },
            Trace::Picked(via, ready, size) => {
                let mut s = "* picked upstream ".to_owned();
                s.append(via.as_str());
                s.append(" (pool ");
                push_decimal(&mut s, *ready as u64);
                s.append("/");
                push_decimal(&mut s, *size as u64);
                s.append(")");
                s
            },
            Trace::Connected(ns) => {
                let mut s = "* TCP connect ".to_owned();
                s.append(fmt_dur(*ns).as_str());
                s
            },
            Trace::Shaken(h, ns) => {
                let name = match h {
                    Handshake::Socks4 => "socks4",
                    Handshake::Socks5 => "socks5",
                    Handshake::HttpsConnect => "https-connect",
                    Handshake::HttpConnect => "http-connect",
                    Handshake::Direct => {
                        return "* direct forward (no handshake)".to_owned();
                    },
                };
                let mut s = "* handshake ".to_owned();
                s.append(name);
                s.append(" ");
                s.append(fmt_dur(*ns).as_str());
                s
            },
            Trace::Status(code) => {
                let mut s = "< HTTP/1.1 ".to_owned();
                push_decimal(&mut s, *code as u64);
                s
            },
            Trace::Request(method, target) => {
                let mut s = "> ".to_owned();
                s.append(method.as_str());
                s.append(" ");
                s.append(target.as_str());
                s
            },
            Trace::Relayed(up, down, ns) => {
                let mut s = "* relay done up ".to_owned();
                s.append(fmt_bytes(*up).as_str());
                s.append(" down ");
                s.append(fmt_bytes(*down).as_str());
                s.append(" in ");
                s.append(fmt_dur(*ns).as_str());
                s
            },
        }
    }
}

// ---------------------------------------------------------------------------
// A connection
// ---------------------------------------------------------------------------

/// How a connection ended.
#[derive(Clone, Copy, Debug, PartialEq, Eq, Structural)]
pub enum Outcome {
    Relayed,
    BadRequest,
    AuthRequired,
    NoProxy,
    BadGateway,
    RelayFailed,
}

/// Where a connection stands.
#[derive(Clone, Copy, Debug, PartialEq, Eq, Structural)]
pub enum ConnectionState {
    /// The request head is being read.
    Reading,
    /// An upstream is being picked.
    Picking(bool),
    /// The upstream is being brought to the target.
    Opening(bool),
    /// The first bytes are being sent.
    Sending,
    /// Bytes go both ways.
    Relaying,
    /// The connection is over.
    Over,
}

/// What happened on a connection.
#[derive(Clone, Copy, Debug, PartialEq, Eq, Structural)]
pub enum ConnectionEvent {
    /// The head could not be read, or not in time.
    HeadFailed,
    /// A head was read, of a tunnel or not, with the authorization or not.
    HeadRead(bool, bool),
    /// An upstream was picked, or none is ready.
    Picked(bool),
    /// The upstream stands before the target, or does not.
    Opened(bool),
    /// The first bytes went out to the client and to the upstream, or not.
    Sent(bool, bool),
    /// The relay came to its end; an error on it counts as one.
    RelayEnded,
    /// The relay ran out of time.
    RelayTimedOut,
}

/// What a connection asks for.
#[derive(Clone, Copy, Debug, PartialEq, Eq, Structural)]
pub enum ConnectionAction {
    /// Answer the client.
    Answer(Reply),
    /// Report the request.
    ReportIncoming,
    /// Pick an upstream.
    Pick,
    /// Bring the upstream to the target.
    Open,
    /// Send the upstream what is to be forwarded.
    Forward,
    /// Let bytes go both ways.
    Relay,
    /// Credit the upstream.
    Credit,
    /// Count a failure of the upstream.
    Blame,
    /// Report the end, with or without an upstream.
    ReportCompleted(Outcome, bool),
}

/// The next state of a connection and what it asks for, in order.
pub open spec fn connection_step(state: ConnectionState, event: ConnectionEvent) -> (
    ConnectionState,
    Seq<ConnectionAction>,
) {
    match (state, event) {
        (ConnectionState::Reading, ConnectionEvent::HeadFailed) => (
            ConnectionState::Over,
            seq![
                ConnectionAction::Answer(Reply::BadRequest),
                ConnectionAction::ReportCompleted(Outcome::BadRequest, false),
            ],
        ),
        (ConnectionState::Reading, ConnectionEvent::HeadRead(tunnel, authorized)) => if authorized {
            (
                ConnectionState::Picking(tunnel),
                seq![ConnectionAction::ReportIncoming, ConnectionAction::Pick],
            )
        } else {
            (
                ConnectionState::Over,
                seq![
                    ConnectionAction::ReportIncoming,
                    ConnectionAction::Answer(Reply::Unauthorized),
                    ConnectionAction::ReportCompleted(Outcome::AuthRequired, false),
                ],
            )
        },
        (ConnectionState::Picking(tunnel), ConnectionEvent::Picked(found)) => if found {
            (ConnectionState::Opening(tunnel), seq![ConnectionAction::Open])
        } else {
            (
                ConnectionState::Over,
                seq![
                    ConnectionAction::Answer(Reply::NoProxy),
                    ConnectionAction::ReportCompleted(Outcome::NoProxy, false),
                ],
            )
        },
        (ConnectionState::Opening(tunnel), ConnectionEvent::Opened(opened)) => if opened {
            (
                ConnectionState::Sending,
                if tunnel {
                    seq![ConnectionAction::Answer(Reply::Established), ConnectionAction::Forward]
                } else {
                    seq![ConnectionAction::Forward]
                },
            )
        } else if tunnel {
            (
                ConnectionState::Over,
                seq![
                    ConnectionAction::Blame,
                    ConnectionAction::Answer(Reply::BadGateway),
                    ConnectionAction::ReportCompleted(Outcome::BadGateway, true),
                ],
            )
        } else {
            (
                ConnectionState::Over,
                seq![
                    ConnectionAction::Blame,
                    ConnectionAction::Answer(Reply::NoProxy),
                    ConnectionAction::ReportCompleted(Outcome::NoProxy, true),
                ],
            )
        },
        (ConnectionState::Sending, ConnectionEvent::Sent(answered, forwarded)) => if answered
            && forwarded {
            (ConnectionState::Relaying, seq![ConnectionAction::Relay])
        } else {
            (
                ConnectionState::Over,
                seq![
                    ConnectionAction::Blame,
                    ConnectionAction::ReportCompleted(Outcome::RelayFailed, true),
                ],
            )
        },
        (ConnectionState::Relaying, ConnectionEvent::RelayEnded) => (
            ConnectionState::Over,
            seq![
                ConnectionAction::Credit,
                ConnectionAction::ReportCompleted(Outcome::Relayed, true),
            ],
        ),
        (ConnectionState::Relaying, ConnectionEvent::RelayTimedOut) => (
            ConnectionState::Over,
            seq![
                ConnectionAction::Blame,
                ConnectionAction::ReportCompleted(Outcome::RelayFailed, true),
            ],
        ),
        _ => (state, Seq::empty()),
    }
}

/// Takes what happened on a connection.
pub fn handle_connection(state: ConnectionState, event: ConnectionEvent) -> (r: (
    ConnectionState,
    Vec<ConnectionAction>,
))
    ensures
        r.0 == connection_step(state, event).0,
        r.1@ == connection_step(state, event).1,
{
    match (state, event) {
        (ConnectionState::Reading, ConnectionEvent::HeadFailed) => (
            ConnectionState::Over,
            vec![
                ConnectionAction::Answer(Reply::BadRequest),
                ConnectionAction::ReportCompleted(Outcome::BadRequest, false),
            ],
        ),
        (ConnectionState::Reading, ConnectionEvent::HeadRead(tunnel, authorized)) => {
            if authorized {
                (
                    ConnectionState::Picking(tunnel),
                    vec![ConnectionAction::ReportIncoming, ConnectionAction::Pick],
                )
            } else {
                (
                    ConnectionState::Over,
                    vec![
                        ConnectionAction::ReportIncoming,
                        ConnectionAction::Answer(Reply::Unauthorized),
                        ConnectionAction::ReportCompleted(Outcome::AuthRequired, false),
                    ],
                )
            }
        },
        (ConnectionState::Picking(tunnel), ConnectionEvent::Picked(found)) => {
            if found {
                (ConnectionState::Opening(tunnel), vec![ConnectionAction::Open])
            } else {
                (
                    ConnectionState::Over,
                    vec![
                        ConnectionAction::Answer(Reply::NoProxy),
                        ConnectionAction::ReportCompleted(Outcome::NoProxy, false),
                    ],
                )
            }
        },
        (ConnectionState::Opening(tunnel), ConnectionEvent::Opened(opened)) => {
            if opened && tunnel {
                (
                    ConnectionState::Sending,
                    vec![ConnectionAction::Answer(Reply::Established), ConnectionAction::Forward],
                )
            } else if opened {
                (ConnectionState::Sending, vec![ConnectionAction::Forward])
            } else if tunnel {
                (
                    ConnectionState::Over,
                    vec![
                        ConnectionAction::Blame,
                        ConnectionAction::Answer(Reply::BadGateway),
                        ConnectionAction::ReportCompleted(Outcome::BadGateway, true),
                    ],
                )
            } else {
                (
                    ConnectionState::Over,
                    vec![
                        ConnectionAction::Blame,
                        ConnectionAction::Answer(Reply::NoProxy),
                        ConnectionAction::ReportCompleted(Outcome::NoProxy, true),
                    ],
                )
            }
        },
        (ConnectionState::Sending, ConnectionEvent::Sent(answered, forwarded)) => {
            if answered && forwarded {
                (ConnectionState::Relaying, vec![ConnectionAction::Relay])
            } else {
                (
                    ConnectionState::Over,
                    vec![
                        ConnectionAction::Blame,
                        ConnectionAction::ReportCompleted(Outcome::RelayFailed, true),
                    ],
                )
            }
        },
        (ConnectionState::Relaying, ConnectionEvent::RelayEnded) => (
            ConnectionState::Over,
            vec![
                ConnectionAction::Credit,
                ConnectionAction::ReportCompleted(Outcome::Relayed, true),
            ],
        ),
        (ConnectionState::Relaying, ConnectionEvent::RelayTimedOut) => (
            ConnectionState::Over,
            vec![
                ConnectionAction::Blame,
                ConnectionAction::ReportCompleted(Outcome::RelayFailed, true),
            ],
        ),
        _ => (state, Vec::new()),
    }
}

/// Every connection is reported as completed once: the step that ends it ends
/// with that report, no other step has one, and nothing follows.
pub proof fn completes_once(state: ConnectionState, event: ConnectionEvent)
    ensures
        ({
            let (next, actions) = connection_step(state, event);
            &&& state is Over ==> next is Over && actions.len() == 0
            &&& (next is Over && !(state is Over)) ==> actions.len() > 0
                && actions.last() is ReportCompleted
            &&& forall|i: int|
                0 <= i < actions.len() && (#[trigger] actions[i]) is ReportCompleted ==> i
                    == actions.len() - 1 && next is Over
        }),
{
}

/// A request without the authorization is answered 407, and neither picks nor
/// reaches an upstream.
pub proof fn refused_request_reaches_nobody(tunnel: bool)
    ensures
        ({
            let (next, actions) = connection_step(
                ConnectionState::Reading,
                ConnectionEvent::HeadRead(tunnel, false),
            );
            &&& next is Over
            &&& actions.contains(ConnectionAction::Answer(Reply::Unauthorized))
            &&& !actions.contains(ConnectionAction::Pick)
            &&& !actions.contains(ConnectionAction::Open)
            &&& !actions.contains(ConnectionAction::Forward)
            &&& !actions.contains(ConnectionAction::Relay)
        }),
{
    let (next, actions) = connection_step(
        ConnectionState::Reading,
        ConnectionEvent::HeadRead(tunnel, false),
    );
    assert(actions[1] == ConnectionAction::Answer(Reply::Unauthorized));
}

/// A picked upstream is credited or blamed once, as the connection ends: it is
/// credited for a finished relay and blamed for everything else.
pub proof fn upstream_is_judged_once(state: ConnectionState, event: ConnectionEvent)
    requires
        state is Opening || state is Sending || state is Relaying,
    ensures
        ({
            let (next, actions) = connection_step(state, event);
            &&& next is Over <==> (actions.len() > 0 && (actions[0] is Credit
                || actions[0] is Blame))
            &&& forall|i: int|
                0 < i < actions.len() ==> !((#[trigger] actions[i]) is Credit)
                    && !(actions[i] is Blame)
            &&& next is Over ==> (actions[0] is Credit <==> actions.last()
                == ConnectionAction::ReportCompleted(Outcome::Relayed, true))
        }),
{
}

/// Why a connection failed, where it did.
pub open spec fn outcome_reason(o: Outcome) -> Option<Seq<char>> {
    match o {
        Outcome::Relayed => None,
        Outcome::BadRequest => Some("bad request"@),
        Outcome::AuthRequired => Some("auth required"@),
        Outcome::NoProxy => Some("no proxy"@),
        Outcome::BadGateway => Some("bad gateway"@),
        Outcome::RelayFailed => Some("relay failed"@),
    }
}

/// The authority of a request's target.
pub open spec fn target_name(r: RequestText) -> Seq<char> {
    r.host + ":"@ + decimal(r.port as nat)
}

fn name_target(request: &ClientRequest) -> (s: String)
    ensures
        s@ == target_name(request@),
{
    let mut s = copy_str(request.host.as_str());
    s.append(":");
    push_decimal(&mut s, request.port as u64);
    s
}

fn copy_option(t: &Option<String>) -> (r: Option<String>)
    ensures
        r.deep_view() == t.deep_view(),
{
    match t {
        Some(s) => Some(copy_str(s.as_str())),
        None => None,
    }
}

/// The event for a request that came in.
pub fn incoming_event(id: u64, client: &Option<String>, request: &ClientRequest) -> (e: ServeEvent)
    ensures
        e matches ServeEvent::Incoming { id: i, client: c, method, target } && i == id
            && c.deep_view() == client.deep_view() && method@ == request@.method && target@
            == target_name(request@),
{
    ServeEvent::Incoming {
        id,
        client: copy_option(client),
        method: copy_str(request.method.as_str()),
        target: name_target(request),
    }
}

/// The event for a connection that ended; without a request the method and the
/// target are dashes.
pub fn completed_event(
    id: u64,
    client: &Option<String>,
    request: Option<&ClientRequest>,
    upstream: &Option<String>,
    outcome: Outcome,
    elapsed: u64,
) -> (e: ServeEvent)
    ensures
        e matches ServeEvent::Completed {
            id: i,
            client: c,
            method,
            target,
            upstream: u,
            ok,
            reason,
            elapsed: t,
        } && i == id && c.deep_view() == client.deep_view() && u.deep_view() == upstream.deep_view()
            && ok == (outcome is Relayed) && reason.deep_view() == outcome_reason(outcome) && t
            == elapsed && match request {
            Some(r) => method@ == r@.method && target@ == target_name(r@),
            None => method@ == "-"@ && target@ == "-"@,
        },
{
    let (method, target) = match request {
        Some(r) => (copy_str(r.method.as_str()), name_target(r)),
        None => ("-".to_owned(), "-".to_owned()),
    };
    let reason = match outcome {
        Outcome::Relayed => None,
        Outcome::BadRequest => Some("bad request".to_owned()),
        Outcome::AuthRequired => Some("auth required".to_owned()),
        Outcome::NoProxy => Some("no proxy".to_owned()),
        Outcome::BadGateway => Some("bad gateway".to_owned()),
        Outcome::RelayFailed => Some("relay failed".to_owned()),
    };
    let ok = match outcome {
        Outcome::Relayed => true,
        _ => false,
    };
    ServeEvent::Completed {
        id,
        client: copy_option(client),
        method,
        target,
        upstream: copy_option(upstream),
        ok,
        reason,
        elapsed,
    }
}

proof fn lemma_first_handshake(types: Seq<ProxyType>, i: int)
    requires
        0 <= i < types.len(),
        types[i].protocol is Socks4 || types[i].protocol is Socks5 || types[i].protocol is Https,
        forall|j: int|
            0 <= j < i ==> (#[trigger] types[j]).protocol is Http || types[j].protocol is Connect,
    ensures
        first_handshake(types) == Some(types[i].protocol),
    decreases types.len(),
{
    if i > 0 {
        let rest = types.drop_first();
        assert(types[0].protocol is Http || types[0].protocol is Connect);
        assert forall|j: int| 0 <= j < i - 1 implies (#[trigger] rest[j]).protocol is Http
            || rest[j].protocol is Connect by {
            assert(rest[j] == types[j + 1]);
        }
        assert(rest[i - 1] == types[i]);
        lemma_first_handshake(rest, i - 1);
    }
}

/// The first validated type with a handshake of its own decides, whatever was
/// advertised: a SOCKS proxy is spoken to in its own version of SOCKS, and an
/// HTTPS proxy through a tunnel where one was asked for.
pub proof fn validated_types_choose_the_handshake(p: Proxy, i: int, tunnel: bool)
    requires
        0 <= i < p.proxy_types@.len(),
        forall|j: int|
            0 <= j < i ==> (#[trigger] p.proxy_types@[j]).protocol is Http
                || p.proxy_types@[j].protocol is Connect,
    ensures
        p.proxy_types@[i].protocol is Socks4 ==> handshake_of(upstream_protocol(p), tunnel)
            == Handshake::Socks4,
        p.proxy_types@[i].protocol is Socks5 ==> handshake_of(upstream_protocol(p), tunnel)
            == Handshake::Socks5,
        p.proxy_types@[i].protocol is Https && tunnel ==> handshake_of(upstream_protocol(p), tunnel)
            == Handshake::HttpsConnect,
        p.proxy_types@[i].protocol is Https && !tunnel ==> handshake_of(
            upstream_protocol(p),
            tunnel,
        ) == Handshake::Direct,
{
    let types = p.proxy_types@;
    if types[i].protocol is Socks4 || types[i].protocol is Socks5 || types[i].protocol is Https {
        lemma_first_handshake(types, i);
    }
}

proof fn lemma_no_handshake(types: Seq<ProxyType>)
    requires
        forall|j: int|
            0 <= j < types.len() ==> (#[trigger] types[j]).protocol is Http
                || types[j].protocol is Connect,
    ensures
        first_handshake(types) is None,
    decreases types.len(),
{
    if types.len() > 0 {
        let rest = types.drop_first();
        assert(types[0].protocol is Http || types[0].protocol is Connect);
        assert forall|j: int| 0 <= j < rest.len() implies (#[trigger] rest[j]).protocol is Http
            || rest[j].protocol is Connect by {
            assert(rest[j] == types[j + 1]);
        }
        lemma_no_handshake(rest);
    }
}

/// Where no validated type has a handshake of its own, the first advertised one
/// decides; without one the upstream is spoken to as an HTTP proxy.
pub proof fn advertised_types_choose_else(p: Proxy, tunnel: bool)
    requires
        forall|j: int|
            0 <= j < p.proxy_types@.len() ==> (#[trigger] p.proxy_types@[j]).protocol is Http
                || p.proxy_types@[j].protocol is Connect,
    ensures
        ({
            let shake = handshake_of(upstream_protocol(p), tunnel);
            let plain = if tunnel {
                Handshake::HttpConnect
            } else {
                Handshake::Direct
            };
            &&& p.expected_types@.len() == 0 ==> shake == plain
            &&& p.expected_types@.len() > 0 && p.expected_types@[0] is Http ==> shake == plain
            &&& p.expected_types@.len() > 0 && p.expected_types@[0] is Connect ==> shake == plain
            &&& p.expected_types@.len() > 0 && p.expected_types@[0] is Socks4 ==> shake
                == Handshake::Socks4
            &&& p.expected_types@.len() > 0 && p.expected_types@[0] is Socks5 ==> shake
                == Handshake::Socks5
            &&& p.expected_types@.len() > 0 && p.expected_types@[0] is Https ==> shake == if tunnel {
                Handshake::HttpsConnect
            } else {
                Handshake::Direct
            }
        }),
{
    lemma_no_handshake(p.proxy_types@);
}

/// A handshake is run by the negotiator of its protocol, and asks an HTTPS
/// proxy for an HTTPS address; without a handshake nobody negotiates.
pub proof fn negotiators_run_their_handshake(h: Handshake)
    ensures
        negotiation_of(h) matches Some((n, scheme)) ==> {
            &&& n == Negotiator::Socks4 <==> h == Handshake::Socks4
            &&& n == Negotiator::Socks5 <==> h == Handshake::Socks5
            &&& n == Negotiator::Https <==> h == Handshake::HttpsConnect
            &&& n != Negotiator::Http
            &&& scheme == if h == Handshake::HttpsConnect {
                "https"@
            } else {
                "http"@
            }
        },
        negotiation_of(h) is None <==> h == Handshake::HttpConnect || h == Handshake::Direct,
{
}

proof fn lemma_last_place(a: Seq<char>, c: char, b: Seq<char>)
    requires
        forall|j: int| 0 <= j < b.len() ==> #[trigger] b[j] != c,
    ensures
        last_place(a + seq![c] + b, c) == a.len(),
        last_place(b, c) == -1,
    decreases b.len(),
{
    let s = a + seq![c] + b;
    if b.len() > 0 {
        assert(s.last() == b.last());
        assert(b.last() != c);
        assert(s.drop_last() =~= a + seq![c] + b.drop_last());
        lemma_last_place(a, c, b.drop_last());
    } else {
        assert(s.last() == c);
    }
}

/// Host and port of an authority are what stands before and behind its last
/// colon, the host without the brackets of an IPv6 address; an authority
/// without a port, or with one that is no number up to 65535, is refused.
pub proof fn authorities_read_back(host: Seq<char>, port: u16, rest: Seq<char>)
    ensures
        host.len() > 0 && host[0] != '[' && host.last() != ']' ==> read_authority(
            host + ":"@ + decimal(port as nat),
        ) == Ok::<_, RequestError>((host, port)),
        host.len() > 0 && host[0] != '[' && host.last() != ']' ==> read_authority(
            "["@ + host + "]:"@ + decimal(port as nat),
        ) == Ok::<_, RequestError>((host, port)),
        (forall|j: int| 0 <= j < rest.len() ==> #[trigger] rest[j] != ':') ==> read_authority(rest)
            == Err::<(Seq<char>, u16), _>(RequestError::NoPort),
        (forall|j: int| 0 <= j < rest.len() ==> #[trigger] rest[j] != ':') && read_number(
            rest,
            65535,
        ) is None ==> read_authority(host + ":"@ + rest) == Err::<(Seq<char>, u16), _>(
            RequestError::BadPort,
        ),
{
    reveal_strlit(":");
    reveal_strlit("[");
    reveal_strlit("]:");
    assert(":"@ =~= seq![':']);
    let d = decimal(port as nat);
    crate::text::decimal_reads_back(port as nat, 65535);
    crate::text::digits_are_no_marks(port as nat, ':');
    let s = host + ":"@ + d;
    lemma_last_place(host, ':', d);
    assert(s.skip(host.len() as int + 1) =~= d);
    assert(s.take(host.len() as int) =~= host);
    let boxed = "["@ + host + seq![']'];
    let t = "["@ + host + "]:"@ + d;
    assert(t =~= boxed + seq![':'] + d);
    lemma_last_place(boxed, ':', d);
    assert(t.skip(boxed.len() as int + 1) =~= d);
    assert(t.take(boxed.len() as int) =~= boxed);
    if host.len() > 0 && host[0] != '[' && host.last() != ']' {
        assert(without_leading(host, '[') == host);
        assert(without_trailing(host, ']') == host);
        assert(boxed.drop_first() =~= host + seq![']']);
        let half = host + seq![']'];
        assert(half[0] == host[0]);
        assert(without_leading(half, '[') == half);
        assert(without_leading(boxed, '[') == half);
        assert(half.drop_last() =~= host);
        assert(without_trailing(half, ']') == host);
    }
    if forall|j: int| 0 <= j < rest.len() ==> #[trigger] rest[j] != ':' {
        lemma_last_place(host, ':', rest);
        let u = host + ":"@ + rest;
        assert(u.skip(host.len() as int + 1) =~= rest);
    }
}

/// A CONNECT asks for a tunnel, and what stands behind its head is passed on;
/// any other request is passed on whole, to port 80 where it names none.
pub proof fn requests_keep_their_bytes(
    bytes: Seq<u8>,
    head_end: usize,
    method: Seq<char>,
    path: Seq<char>,
    headers: Seq<(Seq<char>, Seq<u8>)>,
    host: Seq<char>,
    port: Option<u16>,
    expected: Option<Seq<u8>>,
)
    requires
        head_end <= bytes.len(),
    ensures
        ({
            let head = Some(Some((head_end, Some(method), Some(path), headers)));
            let uri = Some((path, None::<Seq<char>>, Some(host), port));
            let made = request_of(bytes, head_end as int, head, uri, expected);
            &&& method != "CONNECT"@ ==> made is Ok
            &&& made matches Ok(r) ==> {
                &&& r.method == method
                &&& r.tunnel <==> method == "CONNECT"@
                &&& r.tunnel ==> r.forward == bytes.skip(head_end as int)
                &&& !r.tunnel ==> r.forward == bytes
                &&& !r.tunnel && port is None ==> r.port == 80
                &&& !r.tunnel && port is Some ==> r.port == port->0
                &&& !r.tunnel && host.len() > 0 && host[0] != '[' && host.last() != ']' ==> r.host
                    == host
                &&& r.tunnel ==> read_authority(path) == Ok::<_, RequestError>((r.host, r.port))
                &&& expected is None ==> r.authorized
                &&& headers.len() == 0 && expected is Some ==> !r.authorized
            }
        }),
{
}

/// A request carries its authorization where a header of that name, in any
/// case, has exactly the expected value, wherever it stands; other headers do
/// not count.
pub proof fn authorization_is_looked_for(
    a: Seq<(Seq<char>, Seq<u8>)>,
    name: Seq<char>,
    value: Seq<u8>,
    b: Seq<(Seq<char>, Seq<u8>)>,
    expected: Seq<u8>,
)
    ensures
        lowered(name) == lowered("proxy-authorization"@) && value == expected ==> authorized(
            a + seq![(name, value)] + b,
            Some(expected),
        ),
        (lowered(name) != lowered("proxy-authorization"@) || value != expected) ==> (authorized(
            a + seq![(name, value)] + b,
            Some(expected),
        ) <==> authorized(a + b, Some(expected))),
        !authorized(Seq::empty(), Some(expected)),
        authorized(a, None),
{
    let with = a + seq![(name, value)] + b;
    let without = a + b;
    let n = a.len() as int;
    assert(with[n] == (name, value));
    if carries_auth(with, expected) && (lowered(name) != lowered("proxy-authorization"@) || value
        != expected) {
        let i = choose|i: int|
            0 <= i < with.len() && lowered((#[trigger] with[i]).0) == lowered(
                "proxy-authorization"@,
            ) && with[i].1 == expected;
        if i < n {
            assert(without[i] == with[i]);
        } else {
            assert(i > n);
            assert(without[i - 1] == with[i]);
        }
    }
    if carries_auth(without, expected) {
        let i = choose|i: int|
            0 <= i < without.len() && lowered((#[trigger] without[i]).0) == lowered(
                "proxy-authorization"@,
            ) && without[i].1 == expected;
        if i < n {
            assert(with[i] == without[i]);
        } else {
            assert(with[i + 1] == without[i]);
        }
    }
}

/// A tunnel stands with status 200 and with no other.
pub proof fn only_200_opens_a_tunnel(code: Option<u16>, reason: Option<Seq<char>>)
    ensures
        connect_verdict(Some(Some((code, reason)))) is Ok <==> code == Some(200u16),
        code is Some && code != Some(200u16) ==> connect_verdict(Some(Some((code, reason))))
            == Err::<u16, _>(ConnectError::Status(code->0)),
        connect_verdict(None) == Err::<u16, _>(ConnectError::Malformed),
        connect_verdict(Some(None)) == Err::<u16, _>(ConnectError::Malformed),
{
}

/// A connection on which everything goes well: the request is reported, an
/// upstream is picked and opened, a tunnel is confirmed to the client before
/// anything is forwarded, and the upstream is credited at the end.
pub proof fn good_connections_are_relayed(tunnel: bool)
    ensures
        ({
            let one = connection_step(
                ConnectionState::Reading,
                ConnectionEvent::HeadRead(tunnel, true),
            );
            let two = connection_step(one.0, ConnectionEvent::Picked(true));
            let three = connection_step(two.0, ConnectionEvent::Opened(true));
            let four = connection_step(three.0, ConnectionEvent::Sent(true, true));
            let five = connection_step(four.0, ConnectionEvent::RelayEnded);
            &&& one.1 == seq![ConnectionAction::ReportIncoming, ConnectionAction::Pick]
            &&& two.1 == seq![ConnectionAction::Open]
            &&& tunnel ==> three.1 == seq![
                ConnectionAction::Answer(Reply::Established),
                ConnectionAction::Forward,
            ]
            &&& !tunnel ==> three.1 == seq![ConnectionAction::Forward]
            &&& four.1 == seq![ConnectionAction::Relay]
            &&& five == (
                ConnectionState::Over,
                seq![
                    ConnectionAction::Credit,
                    ConnectionAction::ReportCompleted(Outcome::Relayed, true),
                ],
            )
        }),
{
}

/// What a client is answered where something fails: 400 for a head that cannot
/// be read, 503 without an upstream, 502 where a tunnel does not open and 503
/// where a request does not get through; and every upstream that fails is
/// blamed.
pub proof fn failures_are_answered(answered: bool, forwarded: bool)
    requires
        !(answered && forwarded),
    ensures
        connection_step(ConnectionState::Reading, ConnectionEvent::HeadFailed) == (
            ConnectionState::Over,
            seq![
                ConnectionAction::Answer(Reply::BadRequest),
                ConnectionAction::ReportCompleted(Outcome::BadRequest, false),
            ],
        ),
        forall|tunnel: bool|
            #[trigger] connection_step(
                ConnectionState::Picking(tunnel),
                ConnectionEvent::Picked(false),
            ) == (
                ConnectionState::Over,
                seq![
                    ConnectionAction::Answer(Reply::NoProxy),
                    ConnectionAction::ReportCompleted(Outcome::NoProxy, false),
                ],
            ),
        connection_step(ConnectionState::Opening(true), ConnectionEvent::Opened(false)) == (
            ConnectionState::Over,
            seq![
                ConnectionAction::Blame,
                ConnectionAction::Answer(Reply::BadGateway),
                ConnectionAction::ReportCompleted(Outcome::BadGateway, true),
            ],
        ),
        connection_step(ConnectionState::Opening(false), ConnectionEvent::Opened(false)) == (
            ConnectionState::Over,
            seq![
                ConnectionAction::Blame,
                ConnectionAction::Answer(Reply::NoProxy),
                ConnectionAction::ReportCompleted(Outcome::NoProxy, true),
            ],
        ),
        connection_step(ConnectionState::Sending, ConnectionEvent::Sent(answered, forwarded)) == (
            ConnectionState::Over,
            seq![
                ConnectionAction::Blame,
                ConnectionAction::ReportCompleted(Outcome::RelayFailed, true),
            ],
        ),
        connection_step(ConnectionState::Relaying, ConnectionEvent::RelayTimedOut) == (
            ConnectionState::Over,
            seq![
                ConnectionAction::Blame,
                ConnectionAction::ReportCompleted(Outcome::RelayFailed, true),
            ],
        ),
{
}

/// Each reply has its own status, and ends its head.
pub proof fn replies_have_their_status(r: Reply)
    ensures
        reply_text(r).len() > 12,
        reply_text(r).take(12) == match r {
            Reply::Established => "HTTP/1.1 200"@,
            Reply::BadRequest => "HTTP/1.1 400"@,
            Reply::NoProxy => "HTTP/1.1 503"@,
            Reply::BadGateway => "HTTP/1.1 502"@,
            Reply::Unauthorized => "HTTP/1.1 407"@,
        },
        reply_text(r).skip(reply_text(r).len() - 4) == "\r\n\r\n"@,
{
    reveal_strlit("HTTP/1.1 200 Connection established\r\n\r\n");
    reveal_strlit("HTTP/1.1 400 Bad Request\r\nContent-Length: 0\r\nConnection: close\r\n\r\n");
    reveal_strlit("HTTP/1.1 503 Service Unavailable\r\nContent-Length: 0\r\nConnection: close\r\n\r\n");
    reveal_strlit("HTTP/1.1 502 Bad Gateway\r\nContent-Length: 0\r\nConnection: close\r\n\r\n");
    reveal_strlit("HTTP/1.1 407 Proxy Authentication Required\r\nProxy-Authenticate: Basic realm=\"flx\"\r\nContent-Length: 0\r\nConnection: close\r\n\r\n");
    reveal_strlit("HTTP/1.1 200");
    reveal_strlit("HTTP/1.1 400");
    reveal_strlit("HTTP/1.1 503");
    reveal_strlit("HTTP/1.1 502");
    reveal_strlit("HTTP/1.1 407");
    reveal_strlit("\r\n\r\n");
    let s = reply_text(r);
    match r {
        Reply::Established => {
            assert(s.take(12) =~= "HTTP/1.1 200"@);
        },
        Reply::BadRequest => {
            assert(s.take(12) =~= "HTTP/1.1 400"@);
        },
        Reply::NoProxy => {
            assert(s.take(12) =~= "HTTP/1.1 503"@);
        },
        Reply::BadGateway => {
            assert(s.take(12) =~= "HTTP/1.1 502"@);
        },
        Reply::Unauthorized => {
            assert(s.take(12) =~= "HTTP/1.1 407"@);
        },
    }
    assert(s.skip(s.len() - 4) =~= "\r\n\r\n"@);
}

/// A head ends behind its first empty line, and nowhere else.
pub proof fn heads_end_with_an_empty_line(head: Seq<u8>, bytes: Seq<u8>, end: int)
    ensures
        head_ends_at(head + seq![13u8, 10u8, 13u8, 10u8], head.len() as int + 4),
        head_ends_at(bytes, end) ==> 4 <= end <= bytes.len() && bytes.subrange(end - 4, end) == seq![
            13u8,
            10u8,
            13u8,
            10u8,
        ],
        REQUEST_HEAD_LIMIT == 16384,
        PROXY_RESPONSE_LIMIT == 16384,
        HTTPARSE_MAX_HEADERS == 64,
        RESPONSE_HEADERS == 32,
{
    if head_ends_at(bytes, end) {
        assert(bytes.subrange(end - 4, end) =~= seq![13u8, 10u8, 13u8, 10u8]);
    }
}

/// Why a request is refused: a head that is malformed or not complete, one
/// without a method or a path, and a target that is no address or has no host.
/// A tunnel goes on behind what was parsed of its head, or behind the place
/// where it ends, whichever comes first.
pub proof fn bad_heads_are_refused(
    bytes: Seq<u8>,
    head_end: usize,
    consumed: usize,
    method: Seq<char>,
    path: Seq<char>,
    headers: Seq<(Seq<char>, Seq<u8>)>,
    port: Option<u16>,
    expected: Option<Seq<u8>>,
)
    requires
        head_end <= bytes.len(),
    ensures
        ({
            let e = head_end as int;
            let whole = Some(Some((consumed, Some(method), Some(path), headers)));
            let hostless = Some((path, None::<Seq<char>>, None::<Seq<char>>, port));
            &&& request_of(bytes, e, None, None, expected) == Err::<RequestText, _>(
                RequestError::Malformed,
            )
            &&& request_of(bytes, e, Some(None), None, expected) == Err::<RequestText, _>(
                RequestError::Incomplete,
            )
            &&& request_of(
                bytes,
                e,
                Some(Some((consumed, None, Some(path), headers))),
                None,
                expected,
            ) == Err::<RequestText, _>(RequestError::NoMethod)
            &&& request_of(
                bytes,
                e,
                Some(Some((consumed, Some(method), None, headers))),
                None,
                expected,
            ) == Err::<RequestText, _>(RequestError::NoPath)
            &&& method != "CONNECT"@ ==> request_of(bytes, e, whole, None, expected) == Err::<
                RequestText,
                _,
            >(RequestError::BadTarget)
            &&& method != "CONNECT"@ ==> request_of(bytes, e, whole, hostless, expected) == Err::<
                RequestText,
                _,
            >(RequestError::NoHost)
            &&& method == "CONNECT"@ && read_authority(path) is Err ==> request_of(
                bytes,
                e,
                whole,
                None,
                expected,
            ) == Err::<RequestText, _>(read_authority(path)->Err_0)
            &&& method == "CONNECT"@ && read_authority(path) is Ok ==> ({
                let made = request_of(bytes, e, whole, None, expected);
                &&& made is Ok
                &&& consumed <= head_end ==> (made->Ok_0).forward == bytes.skip(consumed as int)
                &&& consumed > head_end ==> (made->Ok_0).forward == bytes.skip(e)
            })
        }),
{
}

/// The expected authorization is that of the user and the password with a colon
/// between them, and its scheme is named before it.
pub proof fn credentials_are_joined_by_a_colon(user: Seq<char>, pass: Seq<char>)
    ensures
        basic_auth(user, pass) == encode_utf8(
            seq!['B', 'a', 's', 'i', 'c', ' '] + base64_text(encode_utf8(user + seq![':'] + pass)),
        ),
{
    reveal_strlit("Basic ");
    reveal_strlit(":");
    assert("Basic "@ =~= seq!['B', 'a', 's', 'i', 'c', ' ']);
    assert(":"@ =~= seq![':']);
}

/// The address that a handshake is given names the scheme, the host and the
/// port, in that order; a target is called by host and port.
pub proof fn targets_are_written_out(scheme: Seq<char>, r: RequestText)
    ensures
        target_name(r) == r.host + seq![':'] + decimal(r.port as nat),
        target_address(scheme, r.host, r.port) == scheme + seq![':', '/', '/'] + target_name(r)
            + seq!['/'],
{
    reveal_strlit("://");
    reveal_strlit(":");
    reveal_strlit("/");
    assert("://"@ =~= seq![':', '/', '/']);
    assert(":"@ =~= seq![':']);
    assert("/"@ =~= seq!['/']);
    assert(target_address(scheme, r.host, r.port) =~= scheme + seq![':', '/', '/'] + target_name(r)
        + seq!['/']);
}

/// A failure is told by its reason, another one for each, and a connection that
/// went well has none.
pub proof fn failures_have_their_reason(a: Outcome, b: Outcome)
    ensures
        outcome_reason(a) is None <==> a is Relayed,
        outcome_reason(a) == outcome_reason(b) ==> a == b,
        outcome_reason(Outcome::NoProxy) == Some("no proxy"@),
        outcome_reason(Outcome::BadGateway) == Some("bad gateway"@),
        outcome_reason(Outcome::AuthRequired) == Some("auth required"@),
{
    reveal_strlit("bad request");
    reveal_strlit("auth required");
    reveal_strlit("no proxy");
    reveal_strlit("bad gateway");
    reveal_strlit("relay failed");
    assert("bad request"@.len() == 11 && "auth required"@.len() == 13 && "no proxy"@.len() == 8);
    assert("bad gateway"@.len() == 11 && "relay failed"@.len() == 12);
    assert("bad request"@[4] == 'r' && "bad gateway"@[4] == 'g');
}

/// A trace tells what it reports, in the order in which it happened.
pub proof fn traces_tell_what_happened(t: Trace)
    ensures
        t is Picked ==> trace_text(t) == "* picked upstream "@ + t->Picked_0@ + " (pool "@ + decimal(
            t->Picked_1 as nat,
        ) + seq!['/'] + decimal(t->Picked_2 as nat) + seq![')'],
        t is Relayed ==> trace_text(t) == "* relay done up "@ + bytes_text(t->Relayed_0 as int)
            + " down "@ + bytes_text(t->Relayed_1 as int) + " in "@ + dur_text(t->Relayed_2 as int),
        t is Request ==> trace_text(t) == "> "@ + t->Request_0@ + seq![' '] + t->Request_1@,
        t is Status ==> trace_text(t) == "< HTTP/1.1 "@ + decimal(t->Status_0 as nat),
        t is Connected ==> trace_text(t) == "* TCP connect "@ + dur_text(t->Connected_0 as int),
        t is HeadRead ==> trace_text(t) == "* head read "@ + dur_text(t->HeadRead_0 as int),
        t is Accepted ==> trace_text(t) == "* accepted "@ + t->Accepted_0@,
{
    reveal_strlit("/");
    reveal_strlit(")");
    reveal_strlit(" ");
    assert("/"@ =~= seq!['/']);
    assert(")"@ =~= seq![')']);
    assert(" "@ =~= seq![' ']);
}

/// A tunnel is asked for by the authority of its target, in the request line and
/// in the host header, and the connection to the proxy is kept.
pub proof fn tunnels_name_their_target(host: Seq<char>, port: u16)
    ensures
        ({
            let target = authority_text(host, port);
            tunnel_request(host, port) == "CONNECT "@ + target + " HTTP/1.1\r\nHost: "@ + target
                + "\r\nProxy-Connection: keep-alive\r\n\r\n"@
        }),
{
    reveal_strlit("\r\n");
    reveal_strlit("Proxy-Connection");
    reveal_strlit(": keep-alive\r\n\r\n");
    reveal_strlit("\r\nProxy-Connection: keep-alive\r\n\r\n");
    let target = authority_text(host, port);
    let head = "CONNECT "@ + target + " HTTP/1.1\r\nHost: "@ + target;
    let tail = "\r\n"@ + "Proxy-Connection"@ + ": keep-alive\r\n\r\n"@;
    assert(tail =~= "\r\nProxy-Connection: keep-alive\r\n\r\n"@);
    assert(tunnel_request(host, port) =~= head + tail);
}

/// Every one of a character is taken off an end, and nothing else is.
pub proof fn ends_are_taken_off(s: Seq<char>, c: char)
    ensures
        without_leading(seq![c] + s, c) == without_leading(s, c),
        without_trailing(s + seq![c], c) == without_trailing(s, c),
        s.len() == 0 || s[0] != c ==> without_leading(s, c) == s,
        s.len() == 0 || s.last() != c ==> without_trailing(s, c) == s,
{
    assert((seq![c] + s).drop_first() =~= s);
    assert((s + seq![c]).drop_last() =~= s);
}

} // verus!
