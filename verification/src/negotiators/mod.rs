//! Negotiate proxy handshakes per protocol.

pub mod http;
pub mod https;
pub mod socks4;
pub mod socks5;

pub use crate::negotiators::http::HttpNegotiator;
pub use crate::negotiators::https::HttpsNegotiator;
pub use crate::negotiators::socks4::Socks4Negotiator;
pub use crate::negotiators::socks5::Socks5Negotiator;

use crate::providers::models::{parse_uri, uri_parts};
use crate::proxy::models::Protocol;
use crate::text::{decimal, push_decimal, same};
use vstd::prelude::*;

verus! {

/// What every negotiator answers.
pub trait NegotiatorTrait {
    /// Whether the stream behind the handshake is upgraded to TLS.
    spec fn tls(&self) -> bool;

    /// Report whether negotiation requires TLS upgrade.
    fn with_tls(&self) -> (r: bool)
        ensures
            r == self.tls(),
    ;
}

/// Which handshake brings a proxy to the target.
#[derive(Clone, Copy, Debug, PartialEq, Eq, Structural)]
pub enum Negotiator {
    Http,
    Https,
    Socks4,
    Socks5,
}

impl NegotiatorTrait for Negotiator {
    open spec fn tls(&self) -> bool {
        match self {
            Negotiator::Http => HttpNegotiator.tls(),
            Negotiator::Https => HttpsNegotiator.tls(),
            Negotiator::Socks4 => Socks4Negotiator.tls(),
            Negotiator::Socks5 => Socks5Negotiator.tls(),
        }
    }

    fn with_tls(&self) -> (r: bool) {
        match self {
            Negotiator::Http => HttpNegotiator.with_tls(),
            Negotiator::Https => HttpsNegotiator.with_tls(),
            Negotiator::Socks4 => Socks4Negotiator.with_tls(),
            Negotiator::Socks5 => Socks5Negotiator.with_tls(),
        }
    }
}

impl Negotiator {
    /// The handshake that a protocol asks for; what has none of its own is
    /// spoken to as plain HTTP.
    pub open spec fn speaks(protocol: Option<Protocol>) -> Negotiator {
        match protocol {
            Some(Protocol::Socks4) => Negotiator::Socks4,
            Some(Protocol::Socks5) => Negotiator::Socks5,
            Some(Protocol::Https(_)) => Negotiator::Https,
            _ => Negotiator::Http,
        }
    }

    /// Picks the handshake that a protocol asks for.
    pub fn for_protocol(protocol: Option<Protocol>) -> (r: Negotiator)
        ensures
            r == Negotiator::speaks(protocol),
    {
        match protocol {
            Some(Protocol::Socks4) => Negotiator::Socks4,
            Some(Protocol::Socks5) => Negotiator::Socks5,
            Some(Protocol::Https(_)) => Negotiator::Https,
            _ => Negotiator::Http,
        }
    }
}

/// The endpoint that a request is meant for.
#[derive(Clone, Debug)]
pub struct Target {
    pub scheme: Option<String>,
    pub host: Option<String>,
    pub port: Option<u16>,
}

/// An endpoint as plain values.
#[verifier::ext_equal]
pub struct TargetText {
    pub scheme: Option<Seq<char>>,
    pub host: Option<Seq<char>>,
    pub port: Option<u16>,
}

impl View for Target {
    type V = TargetText;

    open spec fn view(&self) -> TargetText {
        TargetText {
            scheme: self.scheme.deep_view(),
            host: self.host.deep_view(),
            port: self.port,
        }
    }
}

/// The endpoint in an address, where the address is one.
pub open spec fn target_text(url: Seq<char>) -> Option<TargetText> {
    match uri_parts(url) {
        Some((_, scheme, host, port)) => Some(TargetText { scheme, host, port }),
        None => None,
    }
}

impl Target {
    /// Reads the endpoint out of an address.
    pub fn parse(url: &str) -> (r: Option<Self>)
        ensures
            match r {
                Some(t) => target_text(url@) == Some(t@),
                None => target_text(url@) is None,
            },
    {
        match parse_uri(url) {
            Some((_, scheme, host, port)) => {
                let t = Target { scheme, host, port };
                assert(t@ =~= target_text(url@)->0);
                Some(t)
            },
            None => None,
        }
    }
}

/// The port that a scheme stands for.
pub open spec fn scheme_port(scheme: Option<Seq<char>>) -> Option<u16> {
    match scheme {
        Some(s) => if s == "http"@ {
            Some(80)
        } else if s == "https"@ {
            Some(443)
        } else {
            None
        },
        None => None,
    }
}

/// The port of an endpoint: its own, or that of its scheme.
pub open spec fn target_port(t: TargetText) -> Option<u16> {
    match t.port {
        Some(p) => Some(p),
        None => scheme_port(t.scheme),
    }
}

/// The port of an endpoint: its own, or that of its scheme.
pub fn port_of(t: &Target) -> (r: Option<u16>)
    ensures
        r == target_port(t@),
{
    match t.port {
        Some(p) => Some(p),
        None => match &t.scheme {
            Some(s) => {
                proof {
                    reveal_strlit("http");
                    reveal_strlit("https");
                }
                if same(s.as_str(), "http") {
                    Some(80)
                } else if same(s.as_str(), "https") {
                    Some(443)
                } else {
                    None
                }
            },
            None => None,
        },
    }
}

/// A number in network order.
pub open spec fn be16(n: u16) -> Seq<u8> {
    seq![(n / 256) as u8, (n % 256) as u8]
}

/// Why a handshake failed.
#[derive(Clone, Debug)]
pub enum NegotiationError {
    /// The target has no host.
    NoHost(&'static str),
    /// The target has no port.
    NoPort(&'static str),
    /// The reply is of another version.
    BadVersion,
    /// The SOCKS4 request was rejected or failed.
    Rejected,
    /// The SOCKS4 server cannot reach identd on the client.
    NoIdentd,
    /// The client and identd report different users.
    IdentdMismatch,
    /// The SOCKS4 reply has an unknown code.
    BadCode(u8),
    /// The SOCKS5 server wants authentication.
    AuthRequired,
    /// The SOCKS5 reply reports a failure.
    BadData,
    /// The target's name does not fit a SOCKS5 request.
    NameTooLong,
    /// The SOCKS5 reply has an unknown kind of address.
    BadAddressType(u8),
    /// The target is no HTTPS address.
    NotHttps,
    /// The headers of a CONNECT response go on for too long.
    HeadersTooLong,
    /// The CONNECT response cannot be read.
    Malformed,
    /// The CONNECT response is incomplete.
    Incomplete,
    /// The CONNECT response has another status than 200.
    Status(u16, String),
}

/// A failed handshake in words.
pub open spec fn negotiation_text(e: NegotiationError) -> Seq<char> {
    match e {
        NegotiationError::NoHost(name) => name@ + " target URI has no host"@,
        NegotiationError::NoPort(name) => name@ + " target URI has no port"@,
        NegotiationError::BadVersion => "InvalidData: invalid response version"@,
        NegotiationError::Rejected => "Other: Request rejected or failed"@,
        NegotiationError::NoIdentd => "PermissionDenied: Request rejected because SOCKS server cannot connect to identd on the client"@,
        NegotiationError::IdentdMismatch => "PermissionDenied: Request rejected because the client program and identd report different user IDs"@,
        NegotiationError::BadCode(code) => "InvalidData: invalid response code: "@ + decimal(
            code as nat,
        ),
        NegotiationError::AuthRequired => "PermissionDenied: authentication is required"@,
        NegotiationError::BadData => "InvalidData: invalid response data"@,
        NegotiationError::NameTooLong => "SOCKS5 target hostname exceeds 255 bytes"@,
        NegotiationError::BadAddressType(kind) => "InvalidData: invalid response ATYP: "@ + decimal(
            kind as nat,
        ),
        NegotiationError::NotHttps => "Scheme is empty or not https"@,
        NegotiationError::HeadersTooLong => "HTTPS proxy response headers exceed limit"@,
        NegotiationError::Malformed => "HTTPS proxy returned a malformed CONNECT response"@,
        NegotiationError::Incomplete => "HTTPS proxy returned incomplete CONNECT response"@,
        NegotiationError::Status(code, reason) => "Got response "@ + decimal(code as nat) + ": "@
            + reason@ + ". Expecting 200 OK"@,
    }
}

impl NegotiationError {
    /// The failure in words.
    pub fn to_text(&self) -> (s: String)
        ensures
            s@ == negotiation_text(*self),
    {
        match self {
            NegotiationError::NoHost(name) => {
                let mut s = (*name).to_owned();
                s.append(" target URI has no host");
                s
            },
            NegotiationError::NoPort(name) => {
                let mut s = (*name).to_owned();
                s.append(" target URI has no port");
                s
            },
            NegotiationError::BadVersion => "InvalidData: invalid response version".to_owned(),
            NegotiationError::Rejected => "Other: Request rejected or failed".to_owned(),
            NegotiationError::NoIdentd => "PermissionDenied: Request rejected because SOCKS server cannot connect to identd on the client".to_owned(),
            NegotiationError::IdentdMismatch => "PermissionDenied: Request rejected because the client program and identd report different user IDs".to_owned(),
            NegotiationError::BadCode(code) => {
                let mut s = "InvalidData: invalid response code: ".to_owned();
                push_decimal(&mut s, *code as u64);
                s
            },
            NegotiationError::AuthRequired => "PermissionDenied: authentication is required".to_owned(),
            NegotiationError::BadData => "InvalidData: invalid response data".to_owned(),
            NegotiationError::NameTooLong => "SOCKS5 target hostname exceeds 255 bytes".to_owned(),
            NegotiationError::BadAddressType(kind) => {
                let mut s = "InvalidData: invalid response ATYP: ".to_owned();
                push_decimal(&mut s, *kind as u64);
                s
            },
            NegotiationError::NotHttps => "Scheme is empty or not https".to_owned(),
            NegotiationError::HeadersTooLong => "HTTPS proxy response headers exceed limit".to_owned(),
            NegotiationError::Malformed => "HTTPS proxy returned a malformed CONNECT response".to_owned(),
            NegotiationError::Incomplete => "HTTPS proxy returned incomplete CONNECT response".to_owned(),
            NegotiationError::Status(code, reason) => {
                let mut s = "Got response ".to_owned();
                push_decimal(&mut s, *code as u64);
                s.append(": ");
                s.append(reason.as_str());
                s.append(". Expecting 200 OK");
                s
            },
        }
    }
}

/// Each protocol is spoken to in its own handshake, and only HTTPS goes on to
/// TLS.
pub proof fn protocols_have_their_negotiator(protocol: Option<Protocol>)
    ensures
        Negotiator::speaks(protocol) == Negotiator::Socks4 <==> protocol == Some(Protocol::Socks4),
        Negotiator::speaks(protocol) == Negotiator::Socks5 <==> protocol == Some(Protocol::Socks5),
        Negotiator::speaks(protocol) == Negotiator::Https <==> protocol is Some
            && protocol->0 is Https,
        Negotiator::speaks(protocol).tls() <==> protocol is Some && protocol->0 is Https,
{
}

/// An endpoint's own port is used; else the one of its scheme, 80 for HTTP and
/// 443 for HTTPS; another scheme has none.
pub proof fn schemes_have_their_port(t: TargetText)
    ensures
        t.port is Some ==> target_port(t) == t.port,
        t.port is None && t.scheme == Some("http"@) ==> target_port(t) == Some(80u16),
        t.port is None && t.scheme == Some("https"@) ==> target_port(t) == Some(443u16),
        t.port is None && t.scheme != Some("http"@) && t.scheme != Some("https"@) ==> target_port(
            t,
        ) is None,
{
    reveal_strlit("http");
    reveal_strlit("https");
    assert("http"@.len() == 4 && "https"@.len() == 5);
}

/// A number in network order has its high byte first.
pub proof fn numbers_go_high_byte_first(n: u16)
    ensures
        be16(n).len() == 2,
        be16(n)[0] * 256 + be16(n)[1] == n,
{
}

/// Only the way to an HTTPS target goes on in TLS.
pub proof fn only_https_goes_on_in_tls(n: Negotiator)
    ensures
        n.tls() <==> n == Negotiator::Https,
        HttpsNegotiator.tls(),
        !HttpNegotiator.tls(),
        !Socks4Negotiator.tls(),
        !Socks5Negotiator.tls(),
{
}

} // verus!
