//! Tunnels through HTTP proxies with the CONNECT method.

use crate::negotiators::{NegotiationError, NegotiatorTrait, Target};
use crate::text::{chars_of, contains, decimal, holds, lines, lines_end_at_line_feeds, push_decimal, same};
use vstd::prelude::*;
use vstd::string::*;
use vstd::utf8::*;

verus! {

/// Negotiates tunnels to HTTPS targets.
pub struct HttpsNegotiator;

impl NegotiatorTrait for HttpsNegotiator {
    open spec fn tls(&self) -> bool {
        true
    }

    fn with_tls(&self) -> (r: bool) {
        true
    }
}

/// Bytes of headers that a CONNECT response may have.
pub const RESPONSE_LIMIT: usize = 16 * 1024;

/// How many headers of a CONNECT response are read.
pub const RESPONSE_HEADERS: usize = 32;

/// Port of a target without one.
pub const DEFAULT_TUNNEL_PORT: u16 = 443;

/// The authority of an endpoint: a host with a colon stands in brackets.
pub open spec fn authority_text(host: Seq<char>, port: u16) -> Seq<char> {
    if holds(host, ":"@) {
        "["@ + host + "]:"@ + decimal(port as nat)
    } else {
        host + ":"@ + decimal(port as nat)
    }
}

/// A CONNECT request with the header that keeps the connection.
pub open spec fn connect_text(authority: Seq<char>, header: Seq<char>) -> Seq<char> {
    "CONNECT "@ + authority + " HTTP/1.1\r\nHost: "@ + authority + "\r\n"@ + header
        + ": keep-alive\r\n\r\n"@
}

/// Writes the authority of an endpoint.
pub fn write_authority(host: &str, port: u16) -> (s: String)
    ensures
        s@ == authority_text(host@, port),
{
    let cs = chars_of(host);
    let mut s = String::new();
    if contains(cs.as_slice(), ":") {
        s.append("[");
        s.append(host);
        s.append("]:");
    } else {
        s.append(host);
        s.append(":");
    }
    push_decimal(&mut s, port as u64);
    assert(s@ =~= authority_text(host@, port));
    s
}

/// Writes a CONNECT request.
pub fn write_connect(authority: &str, header: &str) -> (s: String)
    ensures
        s@ == connect_text(authority@, header@),
{
    let mut s = "CONNECT ".to_owned();
    s.append(authority);
    s.append(" HTTP/1.1\r\nHost: ");
    s.append(authority);
    s.append("\r\n");
    s.append(header);
    s.append(": keep-alive\r\n\r\n");
    s
}

/// Whether the headers of a message end at a place.
pub open spec fn head_ends_at(bytes: Seq<u8>, end: int) -> bool {
    4 <= end <= bytes.len() && bytes[end - 4] == 13 && bytes[end - 3] == 10 && bytes[end - 2] == 13
        && bytes[end - 1] == 10
}

/// Whether the last bytes of a message end its headers.
pub fn ends_head(bytes: &[u8]) -> (r: bool)
    ensures
        r == head_ends_at(bytes@, bytes@.len() as int),
{
    let n: usize = bytes.len();
    n >= 4 && bytes[n - 4] == 13 && bytes[n - 3] == 10 && bytes[n - 2] == 13 && bytes[n - 1] == 10
}

/// The status code and the reason of a response, where they are there; none
/// where the head goes on behind the bytes, and no answer where it is
/// malformed.
pub uninterp spec fn response_head(bytes: Seq<u8>, headers: usize) -> Option<
    Option<(Option<u16>, Option<Seq<char>>)>,
>;

/// `httparse::Response::parse` with room for so many headers: whether the
/// bytes hold a whole response head, and its code and its reason. All of it is
/// a function of the bytes and the room.
#[verifier::external_body]
pub(crate) fn parse_response(bytes: &[u8], headers: usize) -> (r: Option<
    Option<(Option<u16>, Option<String>)>,
>)
    requires
        headers <= RESPONSE_HEADERS,
    ensures
        r.deep_view() == response_head(bytes@, headers),
{
    let mut room = vec![httparse::EMPTY_HEADER; headers];
    let mut response = httparse::Response::new(&mut room);
    match response.parse(bytes) {
        Ok(httparse::Status::Complete(_)) => {
            Some(Some((response.code, response.reason.map(str::to_owned))))
        },
        Ok(httparse::Status::Partial) => Some(None),
        Err(_) => None,
    }
}

/// What a parsed response head says of a tunnel: it stands with status 200.
pub open spec fn tunnel_verdict(head: Option<Option<(Option<u16>, Option<Seq<char>>)>>) -> Option<
    u16,
> {
    match head {
        Some(Some((Some(code), _))) => Some(code),
        Some(Some((None, _))) => Some(0),
        _ => None,
    }
}

/// Whether a failure is the one that a response head brings.
pub open spec fn tunnel_refused(
    e: NegotiationError,
    head: Option<Option<(Option<u16>, Option<Seq<char>>)>>,
) -> bool {
    match head {
        None => e is Malformed,
        Some(None) => e is Incomplete,
        Some(Some((code, reason))) => {
            let status = match code {
                Some(c) => c,
                None => 0u16,
            };
            &&& status != 200
            &&& (e matches NegotiationError::Status(c, why) && c == status && why@ == match reason {
                Some(text) => text,
                None => "Unknown reason"@,
            })
        },
    }
}

/// Judges a parsed response head.
pub fn judge_response(head: Option<Option<(Option<u16>, Option<String>)>>) -> (r: Result<
    (),
    NegotiationError,
>)
    ensures
        match r {
            Ok(()) => tunnel_verdict(head.deep_view()) == Some(200u16),
            Err(e) => tunnel_refused(e, head.deep_view()),
        },
{
    match head {
        None => Err(NegotiationError::Malformed),
        Some(None) => Err(NegotiationError::Incomplete),
        Some(Some((code, reason))) => {
            let status: u16 = match code {
                Some(c) => c,
                None => 0,
            };
            if status == 200 {
                Ok(())
            } else {
                let why = match reason {
                    Some(text) => text,
                    None => "Unknown reason".to_owned(),
                };
                Err(NegotiationError::Status(status, why))
            }
        },
    }
}

impl HttpsNegotiator {
    /// Writes the authority of an endpoint.
    pub fn write_authority(host: &str, port: u16) -> (s: String)
        ensures
            s@ == authority_text(host@, port),
    {
        write_authority(host, port)
    }

    /// Writes a CONNECT request.
    pub fn write_connect_request(authority: &str) -> (s: String)
        ensures
            s@ == connect_text(authority@, "Connection"@),
    {
        write_connect(authority, "Connection")
    }

    /// What to send for a target; nothing where it has no host.
    pub fn begin(target: &Target) -> (r: Result<Option<Vec<u8>>, NegotiationError>)
        ensures
            match r {
                Ok(None) => target@.host is None,
                Ok(Some(packet)) => target@.host is Some && target@.scheme == Some("https"@)
                    && packet@ == encode_utf8(
                    connect_text(
                        authority_text(
                            target@.host->0,
                            match target@.port {
                                Some(p) => p,
                                None => DEFAULT_TUNNEL_PORT,
                            },
                        ),
                        "Connection"@,
                    ),
                ),
                Err(e) => target@.host is Some && target@.scheme != Some("https"@) && e
                    == NegotiationError::NotHttps,
            },
    {
        match &target.host {
            Some(host) => {
                let port: u16 = match target.port {
                    Some(p) => p,
                    None => DEFAULT_TUNNEL_PORT,
                };
                let https = match &target.scheme {
                    Some(scheme) => same(scheme.as_str(), "https"),
                    None => false,
                };
                if !https {
                    return Err(NegotiationError::NotHttps);
                }
                let authority = write_authority(host.as_str(), port);
                let request = HttpsNegotiator::write_connect_request(authority.as_str());
                Ok(Some(request.as_str().as_bytes_vec()))
            },
            None => Ok(None),
        }
    }

    /// Takes one byte of the response: whether its head is complete.
    ///
    /// Bytes come one by one, so that none behind the head is lost to the
    /// tunnel.
    pub fn feed(head: &mut Vec<u8>, byte: u8) -> (r: Result<bool, NegotiationError>)
        ensures
            match r {
                Ok(done) => old(head)@.len() < RESPONSE_LIMIT && final(head)@ == old(head)@.push(
                    byte,
                ) && done == head_ends_at(final(head)@, final(head)@.len() as int),
                Err(e) => old(head)@.len() >= RESPONSE_LIMIT && e
                    == NegotiationError::HeadersTooLong && final(head)@ == old(head)@,
            },
    {
        if head.len() >= RESPONSE_LIMIT {
            return Err(NegotiationError::HeadersTooLong);
        }
        head.push(byte);
        Ok(ends_head(head.as_slice()))
    }

    /// Judges a complete response head.
    pub fn check_response(head: &[u8]) -> (r: Result<(), NegotiationError>)
        ensures
            match r {
                Ok(()) => tunnel_verdict(response_head(head@, RESPONSE_HEADERS)) == Some(200u16),
                Err(e) => tunnel_refused(e, response_head(head@, RESPONSE_HEADERS)),
            },
    {
        judge_response(parse_response(head, RESPONSE_HEADERS))
    }
}

/// A tunnel is asked for on its first line, with the host named on the second
/// and the connection kept on the third.
pub proof fn tunnels_are_asked_for(authority: Seq<char>, header: Seq<char>)
    requires
        forall|j: int| 0 <= j < authority.len() ==> authority[j] != '\n',
        forall|j: int| 0 <= j < header.len() ==> header[j] != '\n',
    ensures
        lines(connect_text(authority, header)) == seq![
            "CONNECT "@ + authority + " HTTP/1.1"@,
            "Host: "@ + authority,
            header + ": keep-alive"@,
            Seq::<char>::empty(),
        ],
{
    reveal_strlit("CONNECT ");
    reveal_strlit(" HTTP/1.1");
    reveal_strlit("Host: ");
    reveal_strlit(": keep-alive");
    reveal_strlit(" HTTP/1.1\r\nHost: ");
    reveal_strlit("\r\n");
    reveal_strlit(": keep-alive\r\n\r\n");
    let first = "CONNECT "@ + authority + " HTTP/1.1"@ + seq!['\r'];
    let second = "Host: "@ + authority + seq!['\r'];
    let third = header + ": keep-alive"@ + seq!['\r'];
    let fourth = seq!['\r'];
    let feed = seq!['\n'];
    let none = Seq::<char>::empty();
    let tail3 = fourth + feed + none;
    let tail2 = third + feed + tail3;
    let tail1 = second + feed + tail2;
    assert(connect_text(authority, header) =~= first + feed + tail1);
    lines_end_at_line_feeds(first, tail1);
    lines_end_at_line_feeds(second, tail2);
    lines_end_at_line_feeds(third, tail3);
    lines_end_at_line_feeds(fourth, none);
    assert(first.drop_last() =~= "CONNECT "@ + authority + " HTTP/1.1"@);
    assert(second.drop_last() =~= "Host: "@ + authority);
    assert(third.drop_last() =~= header + ": keep-alive"@);
    assert(fourth.drop_last() =~= none);
    assert(lines(connect_text(authority, header)) =~= seq![
        "CONNECT "@ + authority + " HTTP/1.1"@,
        "Host: "@ + authority,
        header + ": keep-alive"@,
        none,
    ]);
}

/// A response opens the tunnel with the status 200 and with no other.
pub proof fn only_200_stands(code: Option<u16>, reason: Option<Seq<char>>, e: NegotiationError)
    ensures
        tunnel_verdict(Some(Some((code, reason)))) == Some(200u16) <==> code == Some(200u16),
        tunnel_verdict(None) is None && tunnel_verdict(Some(None)) is None,
        tunnel_refused(e, Some(Some((code, reason)))) ==> code != Some(200u16) && e is Status,
        tunnel_refused(e, None) <==> e is Malformed,
        tunnel_refused(e, Some(None)) <==> e is Incomplete,
{
}

/// An authority that was written is read again as its host and port; a host
/// with a colon stands in brackets.
pub proof fn written_authorities_read_back(host: Seq<char>, port: u16)
    requires
        host.len() > 0,
        host[0] != '[',
        host.last() != ']',
    ensures
        crate::rotator::server::read_authority(authority_text(host, port)) == Ok::<
            _,
            crate::rotator::server::RequestError,
        >((host, port)),
        holds(host, ":"@) ==> authority_text(host, port)[0] == '[',
{
    reveal_strlit("[");
    crate::rotator::server::authorities_read_back(host, port, Seq::empty());
}

} // verus!
