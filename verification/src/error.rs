//! The library's error types.

use vstd::prelude::*;

verus! {

/// Top-level library error. Each variant holds the text of what went wrong;
/// match on it to decide whether to retry or to give up.
#[derive(Clone, Debug)]
pub enum FlxError {
    /// Fetching from providers failed; safe to retry with backoff.
    Fetch(String),
    /// Validation startup failed (bad config or dead judges).
    Validate(String),
    /// GeoIP lookup or database sync failed; results may lack country data.
    Geo(String),
    /// File or cache I/O failed.
    Io(String),
    /// Invalid builder combination (e.g. no validation target selected).
    Config(String),
    /// Proxy text could not be parsed.
    Parse(String),
}

/// What a top-level error reads: its kind, then its cause.
pub open spec fn flx_error_text(e: FlxError) -> Seq<char> {
    match e {
        FlxError::Fetch(m) => "fetch error: "@ + m@,
        FlxError::Validate(m) => "validation error: "@ + m@,
        FlxError::Geo(m) => "geo lookup error: "@ + m@,
        FlxError::Io(m) => "io error: "@ + m@,
        FlxError::Config(m) => "configuration error: "@ + m@,
        FlxError::Parse(m) => "parse error: "@ + m@,
    }
}

impl FlxError {
    /// The error as a message.
    pub fn to_text(&self) -> (s: String)
        ensures
            s@ == flx_error_text(*self),
    {
        let (kind, message) = match self {
            FlxError::Fetch(m) => ("fetch error: ", m),
            FlxError::Validate(m) => ("validation error: ", m),
            FlxError::Geo(m) => ("geo lookup error: ", m),
            FlxError::Io(m) => ("io error: ", m),
            FlxError::Config(m) => ("configuration error: ", m),
            FlxError::Parse(m) => ("parse error: ", m),
        };
        let mut s = kind.to_owned();
        s.append(message.as_str());
        s
    }
}

/// Rejects malformed proxy text.
#[derive(Clone, Debug)]
pub enum ProxyParseError {
    /// Reports a missing separator.
    MissingSeparator(String),
    /// Reports an invalid IP address.
    InvalidIp(String),
    /// Reports an invalid port.
    InvalidPort(String),
}

/// What a rejected proxy text is answered.
pub open spec fn proxy_error_text(e: ProxyParseError) -> Seq<char> {
    match e {
        ProxyParseError::MissingSeparator(v) => "missing `:` separator in proxy `"@ + v@ + "`"@,
        ProxyParseError::InvalidIp(v) => "invalid IP address `"@ + v@ + "`"@,
        ProxyParseError::InvalidPort(v) => "invalid port `"@ + v@ + "`"@,
    }
}

impl ProxyParseError {
    /// The error as a message.
    pub fn to_text(&self) -> (s: String)
        ensures
            s@ == proxy_error_text(*self),
    {
        let (kind, value) = match self {
            ProxyParseError::MissingSeparator(v) => ("missing `:` separator in proxy `", v),
            ProxyParseError::InvalidIp(v) => ("invalid IP address `", v),
            ProxyParseError::InvalidPort(v) => ("invalid port `", v),
        };
        let mut s = kind.to_owned();
        s.append(value.as_str());
        s.append("`");
        s
    }
}

/// Rejects malformed protocol text.
#[derive(Clone, Debug)]
pub enum ProtocolParseError {
    /// Reports an unknown protocol.
    Unknown(String),
    /// Reports an invalid CONNECT port.
    InvalidConnectPort(String),
    /// Reports an anonymity level that is none of the known ones.
    UnknownAnonymity(String),
}

/// What a rejected protocol text is answered.
pub open spec fn protocol_error_text(e: ProtocolParseError) -> Seq<char> {
    match e {
        ProtocolParseError::Unknown(v) => "unknown protocol `"@ + v@ + "`"@,
        ProtocolParseError::InvalidConnectPort(v) => "invalid CONNECT port `"@ + v@ + "`"@,
        ProtocolParseError::UnknownAnonymity(v) => "unknown anonymity level `"@ + v@ + "`"@,
    }
}

impl ProtocolParseError {
    /// The error as a message.
    pub fn to_text(&self) -> (s: String)
        ensures
            s@ == protocol_error_text(*self),
    {
        let (kind, value) = match self {
            ProtocolParseError::Unknown(v) => ("unknown protocol `", v),
            ProtocolParseError::InvalidConnectPort(v) => ("invalid CONNECT port `", v),
            ProtocolParseError::UnknownAnonymity(v) => ("unknown anonymity level `", v),
        };
        let mut s = kind.to_owned();
        s.append(value.as_str());
        s.append("`");
        s
    }
}

/// An error is told by its kind and its cause, and a rejected text is quoted.
pub proof fn errors_tell_their_cause(e: FlxError, p: ProxyParseError, q: ProtocolParseError)
    ensures
        e is Fetch ==> flx_error_text(e) == "fetch error: "@ + e->Fetch_0@,
        e is Validate ==> flx_error_text(e) == "validation error: "@ + e->Validate_0@,
        e is Geo ==> flx_error_text(e) == "geo lookup error: "@ + e->Geo_0@,
        e is Io ==> flx_error_text(e) == "io error: "@ + e->Io_0@,
        e is Config ==> flx_error_text(e) == "configuration error: "@ + e->Config_0@,
        e is Parse ==> flx_error_text(e) == "parse error: "@ + e->Parse_0@,
        p is MissingSeparator ==> proxy_error_text(p) == "missing `:` separator in proxy `"@
            + p->MissingSeparator_0@ + seq!['`'],
        p is InvalidIp ==> proxy_error_text(p) == "invalid IP address `"@ + p->InvalidIp_0@ + seq![
            '`',
        ],
        p is InvalidPort ==> proxy_error_text(p) == "invalid port `"@ + p->InvalidPort_0@ + seq![
            '`',
        ],
        q is Unknown ==> protocol_error_text(q) == "unknown protocol `"@ + q->Unknown_0@ + seq!['`'],
        q is InvalidConnectPort ==> protocol_error_text(q) == "invalid CONNECT port `"@
            + q->InvalidConnectPort_0@ + seq!['`'],
        q is UnknownAnonymity ==> protocol_error_text(q) == "unknown anonymity level `"@
            + q->UnknownAnonymity_0@ + seq!['`'],
{
    reveal_strlit("`");
    assert("`"@ =~= seq!['`']);
}

} // verus!
