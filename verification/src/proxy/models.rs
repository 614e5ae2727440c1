//! Validated proxy endpoint models.
//!
//! `Proxy` is the unit passed through fetch, validate and filter. `Protocol`
//! selects the validation path, `Anonymity` ranks HTTP(S) privacy, and
//! `RuntimeStats` tracks response-time samples.

use crate::double::{
    double_of, nearest, round_half_even, rounding_stays_near, units_of, Double,
};
use crate::error::{ProtocolParseError, ProxyParseError};
use crate::geolookup::models::{empty_geo, GeoData};
use crate::net::{ip_text, lemma_fields_cons, lemma_fields_one, Ipv4Addr};
use crate::providers::parsers::{pair_of, parse_pair, protocol_from_str, protocol_named};
use crate::text::{
    begins, chars_of, decimal, eq_ignore_case, fields, is_space, lowered, parse_u16, push_decimal,
    push_wide, read_number, same, split, starts_with, string_of, texts, trim, trim_str, trimmed,
    trimming_takes_the_outer_blanks,
};
use vstd::prelude::*;
use vstd::slice::slice_subrange;

verus! {

/// Running response-time statistics for one proxy, in microseconds.
#[derive(Clone, Copy, Debug, PartialEq, Eq, Structural)]
pub struct RuntimeStats {
    /// Number of recorded samples.
    pub count: u32,
    /// Sum of all samples.
    pub total: u128,
    /// Fastest sample.
    pub min: u64,
    /// Slowest sample.
    pub max: u64,
}

impl RuntimeStats {
    /// The sum lies between `count` times the fastest and the slowest sample.
    pub open spec fn wf(self) -> bool {
        &&& self.count * self.min <= self.total
        &&& self.total <= self.count * self.max
        &&& self.min <= self.max
        &&& self.count == 0 ==> self.max == 0
    }

    /// The statistics after one more sample.
    pub open spec fn with(self, sample: u64) -> RuntimeStats {
        RuntimeStats {
            count: (self.count + 1) as u32,
            total: (self.total + sample) as u128,
            min: if self.count == 0 || sample < self.min {
                sample
            } else {
                self.min
            },
            max: if sample > self.max {
                sample
            } else {
                self.max
            },
        }
    }

    /// Records one timing sample.
    pub fn record(&mut self, sample: u64)
        requires
            old(self).wf(),
            old(self).count < u32::MAX,
        ensures
            *final(self) == old(self).with(sample),
            final(self).wf(),
    {
        let ghost before = *self;
        assert(before.count * before.max <= u32::MAX * u64::MAX) by (nonlinear_arith)
            requires
                before.count <= u32::MAX,
                before.max <= u64::MAX,
        ;
        self.count = self.count + 1;
        self.total = self.total + sample as u128;
        if self.count == 1 || sample < self.min {
            self.min = sample;
        }
        if sample > self.max {
            self.max = sample;
        }
        proof {
            lemma_record_wf(before, sample);
        }
    }

    /// Returns the mean sample, or zero when unsampled.
    pub fn avg(&self) -> (r: Mean)
        requires
            self.wf(),
        ensures
            r == average(*self),
            r.wf(),
    {
        proof {
            lemma_average_between(*self);
        }
        if self.count == 0 {
            Mean { total: 0, count: 1 }
        } else {
            Mean { total: self.total, count: self.count }
        }
    }
}

/// A mean of microseconds: so many over so many samples.
#[derive(Clone, Copy, Debug, PartialEq, Eq, Structural)]
pub struct Mean {
    /// Sum of the samples.
    pub total: u128,
    /// Number of samples.
    pub count: u32,
}

impl Mean {
    /// There is a sample, and none is longer than a sample can be.
    pub open spec fn wf(self) -> bool {
        &&& self.count > 0
        &&& self.total <= self.count * u64::MAX
    }

    /// The mean of one sample.
    pub fn of(micros: u64) -> (m: Mean)
        ensures
            m == (Mean { total: micros as u128, count: 1 }),
            m.wf(),
    {
        Mean { total: micros as u128, count: 1 }
    }

    /// Whether the mean is so many microseconds or more.
    pub fn at_least(self, micros: u64) -> (r: bool)
        ensures
            r == (self.total >= micros * self.count),
    {
        proof {
            lemma_samples(micros, self.count);
        }
        self.total >= micros as u128 * self.count as u128
    }

    /// Whether the mean is so many microseconds or less.
    pub fn at_most(self, micros: u64) -> (r: bool)
        ensures
            r == (self.total <= micros * self.count),
    {
        proof {
            lemma_samples(micros, self.count);
        }
        self.total <= micros as u128 * self.count as u128
    }

    /// The mean in whole microseconds, to the nearest; a tie goes to the even
    /// one.
    pub open spec fn micros_spec(self) -> int {
        round_half_even(self.total as int, self.count as int)
    }

    /// The mean in whole microseconds, to the nearest; a tie goes to the even
    /// one.
    pub fn micros(self) -> (r: u64)
        requires
            self.wf(),
        ensures
            r == self.micros_spec(),
    {
        proof {
            lemma_samples(u64::MAX, self.count);
            rounding_stays_near(self.total as int, self.count as int);
            let r = self.micros_spec();
            assert(r <= u64::MAX) by (nonlinear_arith)
                requires
                    2 * (r * self.count) <= 2 * self.total + self.count,
                    self.total <= self.count * u64::MAX,
                    self.count > 0,
            ;
        }
        nearest(self.total, self.count as u128) as u64
    }

    /// The double nearest to the mean in seconds.
    pub open spec fn seconds_spec(self) -> (int, int) {
        double_of(self.total as int, self.count * 1_000_000)
    }

    /// The double nearest to the mean in seconds.
    pub fn seconds(self) -> (r: Double)
        requires
            self.wf(),
        ensures
            r@ == self.seconds_spec(),
            r.wf(),
            -126 <= r.exponent <= 0,
    {
        proof {
            lemma_samples(u64::MAX, self.count);
        }
        Double::nearest_to(self.total, self.count as u128 * 1_000_000)
    }
}

proof fn lemma_samples(micros: u64, count: u32)
    ensures
        0 <= micros * count <= u64::MAX * u32::MAX,
        micros * count == count * micros,
{
    assert(0 <= micros * count <= u64::MAX * u32::MAX && micros * count == count * micros)
        by (nonlinear_arith)
        requires
            0 <= micros <= u64::MAX,
            0 <= count <= u32::MAX,
    ;
}

/// The mean sample, or zero when unsampled.
pub open spec fn average(r: RuntimeStats) -> Mean {
    if r.count == 0 {
        Mean { total: 0, count: 1 }
    } else {
        Mean { total: r.total, count: r.count }
    }
}

proof fn lemma_record_wf(r: RuntimeStats, sample: u64)
    requires
        r.wf(),
        r.count < u32::MAX,
    ensures
        r.with(sample).wf(),
        r.total + sample <= u128::MAX,
{
    let n = r.with(sample);
    assert(r.count * r.max <= u32::MAX * u64::MAX) by (nonlinear_arith)
        requires
            r.count <= u32::MAX,
            r.max <= u64::MAX,
    ;
    assert((r.count + 1) * n.min <= r.count * r.min + sample) by (nonlinear_arith)
        requires
            r.count >= 0,
            n.min <= sample,
            r.count > 0 ==> n.min <= r.min,
    ;
    assert(r.count * r.max + sample <= (r.count + 1) * n.max) by (nonlinear_arith)
        requires
            r.count >= 0,
            sample <= n.max,
            r.max <= n.max,
    ;
}

/// The mean of the samples lies between the fastest and the slowest.
pub proof fn lemma_average_between(r: RuntimeStats)
    requires
        r.wf(),
    ensures
        average(r).wf(),
        r.count > 0 ==> average(r).count * r.min <= average(r).total <= average(r).count * r.max,
{
    assert(r.count * r.max <= r.count * u64::MAX) by (nonlinear_arith)
        requires
            0 <= r.max <= u64::MAX,
            r.count >= 0,
    ;
}

impl Default for RuntimeStats {
    fn default() -> (r: Self)
        ensures
            r == (RuntimeStats { count: 0, total: 0, min: 0, max: 0 }),
            r.wf(),
    {
        RuntimeStats { count: 0, total: 0, min: 0, max: 0 }
    }
}

/// HTTP(S) anonymity level, ordered by its rank.
///
/// Unknown levels match any requested level on the same family.
#[derive(Clone, Copy, Debug, PartialEq, Eq, Hash, Structural)]
pub enum Anonymity {
    /// Server sees neither client IP nor proxy usage.
    Elite,
    /// Server sees the request came via a proxy.
    Transparent,
    /// Server sees a proxy was used but not the client IP.
    Anonymous,
    /// Anonymity was not advertised or not yet probed.
    Unknown,
}

/// Rank of an anonymity level, from least to most anonymous; unknown is last,
/// so that unclassified candidates are not silently preferred.
pub open spec fn rank_of(a: Anonymity) -> u8 {
    match a {
        Anonymity::Transparent => 0,
        Anonymity::Anonymous => 1,
        Anonymity::Elite => 2,
        Anonymity::Unknown => 3,
    }
}

impl Anonymity {
    /// Ranks anonymity from least to most anonymous.
    pub fn rank(self) -> (r: u8)
        ensures
            r == rank_of(self),
    {
        match self {
            Anonymity::Transparent => 0,
            Anonymity::Anonymous => 1,
            Anonymity::Elite => 2,
            Anonymity::Unknown => 3,
        }
    }
}

/// Two levels of the same rank are the same level.
pub proof fn rank_tells_levels_apart(a: Anonymity, b: Anonymity)
    ensures
        rank_of(a) == rank_of(b) ==> a == b,
        rank_of(Anonymity::Transparent) < rank_of(Anonymity::Anonymous),
        rank_of(Anonymity::Anonymous) < rank_of(Anonymity::Elite),
        rank_of(Anonymity::Elite) < rank_of(Anonymity::Unknown),
{
}

/// Proxy protocol under test; selects the validation path.
#[derive(Clone, Copy, Debug, PartialEq, Eq, Hash, Structural)]
pub enum Protocol {
    /// Plain HTTP proxy with an anonymity level.
    Http(Anonymity),
    /// HTTP CONNECT tunnel with an anonymity level.
    Https(Anonymity),
    /// SOCKS4 proxy.
    Socks4,
    /// SOCKS5 proxy.
    Socks5,
    /// Raw CONNECT tunnel to a port.
    Connect(u16),
}

/// The level as a protocol's text form names it.
pub open spec fn level_suffix(a: Anonymity) -> Seq<char> {
    match a {
        Anonymity::Unknown => ""@,
        Anonymity::Elite => ": Elite"@,
        Anonymity::Transparent => ": Transparent"@,
        Anonymity::Anonymous => ": Anonymous"@,
    }
}

/// A protocol as text.
pub open spec fn protocol_text(p: Protocol) -> Seq<char> {
    match p {
        Protocol::Http(a) => "HTTP"@ + level_suffix(a),
        Protocol::Https(a) => "HTTPS"@ + level_suffix(a),
        Protocol::Socks4 => "SOCKS4"@,
        Protocol::Socks5 => "SOCKS5"@,
        Protocol::Connect(port) => "CONNECT:"@ + decimal(port as nat),
    }
}

/// The level that a qualifier names, up to case and surrounding white space;
/// no qualifier, or an empty one, names none.
pub open spec fn level_named(qualifier: Option<Seq<char>>) -> Option<Anonymity> {
    match qualifier {
        None => Some(Anonymity::Unknown),
        Some(q) => {
            let level = lowered(trimmed(q));
            if trimmed(q).len() == 0 {
                Some(Anonymity::Unknown)
            } else if level == lowered("transparent"@) {
                Some(Anonymity::Transparent)
            } else if level == lowered("anonymous"@) {
                Some(Anonymity::Anonymous)
            } else if level == lowered("elite"@) {
                Some(Anonymity::Elite)
            } else {
                None
            }
        },
    }
}

/// Reads an anonymity qualifier.
pub fn parse_anonymity(qualifier: Option<&str>) -> (r: Result<Anonymity, ProtocolParseError>)
    ensures
        match qualifier {
            None => r == Ok::<Anonymity, ProtocolParseError>(Anonymity::Unknown),
            Some(q) => match r {
                Ok(a) => level_named(Some(q@)) == Some(a),
                Err(e) => level_named(Some(q@)) is None
                    && (e matches ProtocolParseError::UnknownAnonymity(v) && v@ == trimmed(q@)),
            },
        },
{
    match qualifier {
        None => Ok(Anonymity::Unknown),
        Some(q) => {
            let level = trim_str(q);
            if level.as_str().is_empty() {
                Ok(Anonymity::Unknown)
            } else if eq_ignore_case(level.as_str(), "transparent") {
                Ok(Anonymity::Transparent)
            } else if eq_ignore_case(level.as_str(), "anonymous") {
                Ok(Anonymity::Anonymous)
            } else if eq_ignore_case(level.as_str(), "elite") {
                Ok(Anonymity::Elite)
            } else {
                Err(ProtocolParseError::UnknownAnonymity(level))
            }
        },
    }
}

/// The second field of a text split at colons.
pub open spec fn qualifier_of(s: Seq<char>) -> Option<Seq<char>> {
    if fields(s, ':').len() > 1 {
        Some(fields(s, ':')[1])
    } else {
        None
    }
}

/// The protocol that a text names, as `FAMILY` or `FAMILY:qualifier`.
pub open spec fn read_protocol(s: Seq<char>) -> Option<Protocol> {
    let head = fields(s, ':')[0];
    if head == "HTTP"@ {
        match level_named(qualifier_of(s)) {
            Some(a) => Some(Protocol::Http(a)),
            None => None,
        }
    } else if head == "HTTPS"@ {
        match level_named(qualifier_of(s)) {
            Some(a) => Some(Protocol::Https(a)),
            None => None,
        }
    } else if head == "SOCKS4"@ {
        Some(Protocol::Socks4)
    } else if head == "SOCKS5"@ {
        Some(Protocol::Socks5)
    } else if head == "CONNECT"@ {
        match qualifier_of(s) {
            Some(q) => match read_number(q, u16::MAX as nat) {
                Some(n) => Some(Protocol::Connect(n as u16)),
                None => None,
            },
            None => None,
        }
    } else {
        None
    }
}

/// How a text that names no protocol is refused.
pub open spec fn protocol_refused(s: Seq<char>, e: ProtocolParseError) -> bool {
    let head = fields(s, ':')[0];
    if head == "HTTP"@ || head == "HTTPS"@ {
        e matches ProtocolParseError::UnknownAnonymity(v) && v@ == trimmed(qualifier_of(s)->0)
    } else if head == "CONNECT"@ {
        e matches ProtocolParseError::InvalidConnectPort(v) && v@ == s
    } else {
        e matches ProtocolParseError::Unknown(v) && v@ == s
    }
}

impl Protocol {
    /// Reads a protocol from its text form.
    pub fn parse(s: &str) -> (r: Result<Protocol, ProtocolParseError>)
        ensures
            match r {
                Ok(p) => read_protocol(s@) == Some(p),
                Err(e) => read_protocol(s@) is None && protocol_refused(s@, e),
            },
    {
        let cs = chars_of(s);
        let parts = split(cs.as_slice(), ':');
        assert(texts(parts@).len() == parts.len());
        proof {
            lemma_fields_nonempty(s@, ':');
        }
        assert(texts(parts@)[0] == parts@[0]@);
        let head = parts[0].as_str();
        let qualifier: Option<&str> = if parts.len() > 1 {
            assert(texts(parts@)[1] == parts@[1]@);
            Some(parts[1].as_str())
        } else {
            None
        };
        if same(head, "HTTP") {
            match parse_anonymity(qualifier) {
                Ok(a) => Ok(Protocol::Http(a)),
                Err(e) => Err(e),
            }
        } else if same(head, "HTTPS") {
            match parse_anonymity(qualifier) {
                Ok(a) => Ok(Protocol::Https(a)),
                Err(e) => Err(e),
            }
        } else if same(head, "SOCKS4") {
            Ok(Protocol::Socks4)
        } else if same(head, "SOCKS5") {
            Ok(Protocol::Socks5)
        } else if same(head, "CONNECT") {
            let port: Option<u16> = match qualifier {
                Some(q) => parse_u16(chars_of(q).as_slice()),
                None => None,
            };
            match port {
                Some(p) => Ok(Protocol::Connect(p)),
                None => Err(ProtocolParseError::InvalidConnectPort(s.to_owned())),
            }
        } else {
            Err(ProtocolParseError::Unknown(s.to_owned()))
        }
    }

    /// The protocol as text.
    pub fn to_text(self) -> (s: String)
        ensures
            s@ == protocol_text(self),
    {
        match self {
            Protocol::Http(a) => {
                let mut s = "HTTP".to_owned();
                push_level(&mut s, a);
                s
            },
            Protocol::Https(a) => {
                let mut s = "HTTPS".to_owned();
                push_level(&mut s, a);
                s
            },
            Protocol::Socks4 => "SOCKS4".to_owned(),
            Protocol::Socks5 => "SOCKS5".to_owned(),
            Protocol::Connect(port) => {
                let mut s = "CONNECT:".to_owned();
                push_decimal(&mut s, port as u64);
                s
            },
        }
    }
}

/// Splitting always gives a first field.
pub proof fn lemma_fields_nonempty(s: Seq<char>, c: char)
    ensures
        fields(s, c).len() > 0,
{
}

fn push_level(s: &mut String, a: Anonymity)
    ensures
        final(s)@ == old(s)@ + level_suffix(a),
{
    match a {
        Anonymity::Unknown => s.append(""),
        Anonymity::Elite => s.append(": Elite"),
        Anonymity::Transparent => s.append(": Transparent"),
        Anonymity::Anonymous => s.append(": Anonymous"),
    }
}

impl core::str::FromStr for Protocol {
    type Err = ProtocolParseError;

    fn from_str(s: &str) -> Result<Self, Self::Err> {
        Protocol::parse(s)
    }
}

/// One validated protocol on a proxy.
#[derive(Clone, Copy, Debug, PartialEq, Eq, Structural)]
pub struct ProxyType {
    /// Protocol that passed validation.
    pub protocol: Protocol,
    /// Whether this protocol was checked.
    pub checked: bool,
    /// Unix timestamp of the check, in milliseconds.
    pub checked_on: u64,
}

impl ProxyType {
    /// Creates an unchecked protocol entry.
    pub fn new(protocol: Protocol) -> (r: Self)
        ensures
            r == (ProxyType { protocol, checked: false, checked_on: 0 }),
    {
        ProxyType { protocol, checked: false, checked_on: 0 }
    }

    /// Creates an entry that was checked at the given Unix time.
    pub fn checked(protocol: Protocol, checked_on: u64) -> (r: Self)
        ensures
            r == (ProxyType { protocol, checked: true, checked_on }),
    {
        ProxyType { protocol, checked: true, checked_on }
    }
}

/// Proxy endpoint with geo and timing metadata.
///
/// Read from `ip:port` or scheme-prefixed text; bare lines leave
/// `expected_types` empty until the caller assigns defaults.
#[derive(Clone, Debug)]
pub struct Proxy {
    /// Proxy IPv4 address.
    pub ip: Ipv4Addr,
    /// Proxy TCP port.
    pub port: u16,
    /// GeoIP record; empty when lookup is disabled.
    pub geo: GeoData,
    /// Response-time samples across validations.
    pub runtimes: RuntimeStats,
    /// Protocols to probe; empty means "assign caller defaults".
    pub expected_types: Vec<Protocol>,
    /// Protocols that passed validation.
    pub proxy_types: Vec<ProxyType>,
    /// The cached `ip:port` text.
    pub text: String,
}

/// The text form of an endpoint, `ip:port`.
pub open spec fn endpoint_text(ip: Ipv4Addr, port: u16) -> Seq<char> {
    ip_text(ip) + ":"@ + decimal(port as nat)
}

/// A proxy that nothing but its endpoint and advertised protocols is known of.
pub open spec fn fresh_proxy(p: Proxy, ip: Ipv4Addr, port: u16, expected: Seq<Protocol>) -> bool {
    &&& p.ip == ip
    &&& p.port == port
    &&& p.as_text_spec() == endpoint_text(ip, port)
    &&& empty_geo(p.geo)
    &&& p.runtimes == RuntimeStats { count: 0, total: 0, min: 0, max: 0 }
    &&& p.expected_types@ == expected
    &&& p.proxy_types@.len() == 0
}

impl Proxy {
    /// The cached text form.
    pub open spec fn as_text_spec(self) -> Seq<char> {
        self.text@
    }

    /// The cached text agrees with the endpoint.
    pub open spec fn wf(self) -> bool {
        &&& self.as_text_spec() == endpoint_text(self.ip, self.port)
        &&& self.runtimes.wf()
    }

    /// Creates an endpoint with empty geo, timings, and type sets.
    pub fn new(ip: Ipv4Addr, port: u16) -> (p: Self)
        ensures
            fresh_proxy(p, ip, port, Seq::empty()),
            p.wf(),
    {
        Proxy::with_expected_types(ip, port, Vec::new())
    }

    /// Creates an endpoint with the protocols to probe for it.
    pub fn with_expected_types(ip: Ipv4Addr, port: u16, expected_types: Vec<Protocol>) -> (p: Self)
        ensures
            fresh_proxy(p, ip, port, expected_types@),
            p.wf(),
    {
        let mut text = ip.to_text();
        text.append(":");
        push_decimal(&mut text, port as u64);
        Proxy {
            ip,
            port,
            geo: GeoData::default(),
            runtimes: RuntimeStats::default(),
            expected_types,
            proxy_types: Vec::new(),
            text,
        }
    }

    /// Reports the fastest response time, or zero when unsampled.
    pub fn min_response_time(&self) -> (r: u64)
        ensures
            r == if self.runtimes.count == 0 {
                0
            } else {
                self.runtimes.min
            },
    {
        if self.runtimes.count == 0 {
            0
        } else {
            self.runtimes.min
        }
    }

    /// Reports the slowest response time, or zero when unsampled.
    pub fn max_response_time(&self) -> (r: u64)
        ensures
            r == self.runtimes.max,
    {
        self.runtimes.max
    }

    /// Counts recorded response-time samples.
    pub fn sample_count(&self) -> (r: u32)
        ensures
            r == self.runtimes.count,
    {
        self.runtimes.count
    }

    /// Returns the mean response time, or zero when unsampled.
    pub fn avg_response_time(&self) -> (r: Mean)
        requires
            self.wf(),
        ensures
            r == average(self.runtimes),
            r.wf(),
    {
        self.runtimes.avg()
    }

    /// The proxy as `ip:port` text.
    pub fn as_text(&self) -> (s: &str)
        ensures
            s@ == self.as_text_spec(),
    {
        self.text.as_str()
    }

    /// Replaces the geo record.
    pub fn set_geo(&mut self, geo: GeoData)
        ensures
            *final(self) == (Proxy { geo, ..*old(self) }),
    {
        self.geo = geo;
    }

    /// A copy to probe: what is known of the endpoint, without the protocols
    /// that were advertised or found.
    pub fn validation_probe(&self) -> (p: Self)
        ensures
            p.ip == self.ip,
            p.port == self.port,
            same_geo(p.geo, self.geo),
            p.runtimes == self.runtimes,
            p.expected_types@.len() == 0,
            p.proxy_types@.len() == 0,
            p.as_text_spec() == self.as_text_spec(),
    {
        Proxy {
            ip: self.ip,
            port: self.port,
            geo: copy_geo(&self.geo),
            runtimes: self.runtimes,
            expected_types: Vec::new(),
            proxy_types: Vec::new(),
            text: self.text.clone(),
        }
    }

    /// A copy of the proxy.
    pub fn duplicate(&self) -> (p: Self)
        ensures
            same_proxy(p, *self),
    {
        let expected = copy_protocols(&self.expected_types);
        let found = copy_types(&self.proxy_types);
        Proxy {
            ip: self.ip,
            port: self.port,
            geo: copy_geo(&self.geo),
            runtimes: self.runtimes,
            expected_types: expected,
            proxy_types: found,
            text: self.text.clone(),
        }
    }
}

/// Two proxies of which the same is known.
pub open spec fn same_proxy(p: Proxy, q: Proxy) -> bool {
    &&& p.ip == q.ip
    &&& p.port == q.port
    &&& same_geo(p.geo, q.geo)
    &&& p.runtimes == q.runtimes
    &&& p.expected_types@ == q.expected_types@
    &&& p.proxy_types@ == q.proxy_types@
    &&& p.as_text_spec() == q.as_text_spec()
}

/// Two optional texts that read the same.
pub open spec fn same_text(a: Option<String>, b: Option<String>) -> bool {
    match (a, b) {
        (Some(x), Some(y)) => x@ == y@,
        (None, None) => true,
        _ => false,
    }
}

/// Two records that say the same.
pub open spec fn same_geo(g: GeoData, h: GeoData) -> bool {
    &&& same_text(g.iso_code, h.iso_code)
    &&& same_text(g.name, h.name)
    &&& same_text(g.region_iso_code, h.region_iso_code)
    &&& same_text(g.region_name, h.region_name)
    &&& same_text(g.city_name, h.city_name)
    &&& g.asn == h.asn
    &&& same_text(g.aso, h.aso)
    &&& g.ip_type == h.ip_type
    &&& same_text(g.continent_code, h.continent_code)
    &&& same_text(g.continent_name, h.continent_name)
    &&& g.latitude == h.latitude
    &&& g.longitude == h.longitude
    &&& same_text(g.timezone, h.timezone)
    &&& same_text(g.zip, h.zip)
}

/// Copies an optional text.
pub fn copy_text(t: &Option<String>) -> (r: Option<String>)
    ensures
        same_text(r, *t),
{
    match t {
        Some(s) => Some(s.clone()),
        None => None,
    }
}

/// Copies a geo record.
pub fn copy_geo(g: &GeoData) -> (r: GeoData)
    ensures
        same_geo(r, *g),
{
    GeoData {
        iso_code: copy_text(&g.iso_code),
        name: copy_text(&g.name),
        region_iso_code: copy_text(&g.region_iso_code),
        region_name: copy_text(&g.region_name),
        city_name: copy_text(&g.city_name),
        asn: g.asn,
        aso: copy_text(&g.aso),
        ip_type: g.ip_type,
        continent_code: copy_text(&g.continent_code),
        continent_name: copy_text(&g.continent_name),
        latitude: g.latitude,
        longitude: g.longitude,
        timezone: copy_text(&g.timezone),
        zip: copy_text(&g.zip),
    }
}

/// Copies a list of protocols.
pub fn copy_protocols(v: &Vec<Protocol>) -> (r: Vec<Protocol>)
    ensures
        r@ == v@,
{
    let mut r: Vec<Protocol> = Vec::new();
    let mut i: usize = 0;
    while i < v.len()
        invariant
            i <= v.len(),
            r@ == v@.take(i as int),
        decreases v.len() - i,
    {
        r.push(v[i]);
        i += 1;
    }
    assert(v@.take(v.len() as int) =~= v@);
    r
}

/// Copies a list of validated types.
pub fn copy_types(v: &Vec<ProxyType>) -> (r: Vec<ProxyType>)
    ensures
        r@ == v@,
{
    let mut r: Vec<ProxyType> = Vec::new();
    let mut i: usize = 0;
    while i < v.len()
        invariant
            i <= v.len(),
            r@ == v@.take(i as int),
        decreases v.len() - i,
    {
        r.push(v[i]);
        i += 1;
    }
    assert(v@.take(v.len() as int) =~= v@);
    r
}

impl Default for Proxy {
    fn default() -> (p: Self)
        ensures
            fresh_proxy(p, (Ipv4Addr { a: 0, b: 0, c: 0, d: 0 }), 0, Seq::empty()),
    {
        Proxy::new(Ipv4Addr::new(0, 0, 0, 0), 0)
    }
}

/// What comes before the endpoint in a scheme-prefixed text.
pub open spec fn scheme_of(s: Seq<char>) -> Option<Seq<char>> {
    if begins(s, "http://"@) {
        Some("http"@)
    } else if begins(s, "https://"@) {
        Some("https"@)
    } else if begins(s, "socks4://"@) {
        Some("socks4"@)
    } else if begins(s, "socks5://"@) {
        Some("socks5"@)
    } else {
        None
    }
}

/// A text without its scheme prefix.
pub open spec fn without_scheme(s: Seq<char>) -> Seq<char> {
    if begins(s, "http://"@) {
        s.skip("http://"@.len() as int)
    } else if begins(s, "https://"@) {
        s.skip("https://"@.len() as int)
    } else if begins(s, "socks4://"@) {
        s.skip("socks4://"@.len() as int)
    } else if begins(s, "socks5://"@) {
        s.skip("socks5://"@.len() as int)
    } else {
        s
    }
}

/// The protocols that a scheme advertises.
pub open spec fn advertised(scheme: Option<Seq<char>>) -> Seq<Protocol> {
    match scheme {
        Some(name) => match protocol_named(name) {
            Some(p) => seq![p],
            None => Seq::empty(),
        },
        None => Seq::empty(),
    }
}

fn strip_scheme<'a>(s: &'a [char], prefix: &str) -> (r: Option<&'a [char]>)
    ensures
        match r {
            Some(rest) => begins(s@, prefix@) && rest@ == s@.skip(prefix@.len() as int),
            None => !begins(s@, prefix@),
        },
{
    let p = chars_of(prefix);
    if starts_with(s, prefix) {
        let rest = slice_subrange(s, p.len(), s.len());
        assert(rest@ =~= s@.skip(prefix@.len() as int));
        Some(rest)
    } else {
        None
    }
}

impl Proxy {
    /// Reads a proxy from `1.2.3.4:8080` or scheme-prefixed text.
    pub fn parse(s: &str) -> (r: Result<Proxy, ProxyParseError>)
        ensures
            match pair_of(without_scheme(trimmed(s@))) {
                Some((ip, port)) => r is Ok && fresh_proxy(
                    r->Ok_0,
                    ip,
                    port,
                    advertised(scheme_of(trimmed(s@))),
                ) && r->Ok_0.wf(),
                None => r matches Err(ProxyParseError::MissingSeparator(v)) && v@ == trimmed(s@),
            },
    {
        let cs = chars_of(s);
        let t = trim(cs.as_slice());
        let (scheme, rest): (Option<&str>, &[char]) = if let Some(rest) = strip_scheme(
            t,
            "http://",
        ) {
            (Some("http"), rest)
        } else if let Some(rest) = strip_scheme(t, "https://") {
            (Some("https"), rest)
        } else if let Some(rest) = strip_scheme(t, "socks4://") {
            (Some("socks4"), rest)
        } else if let Some(rest) = strip_scheme(t, "socks5://") {
            (Some("socks5"), rest)
        } else {
            (None, t)
        };
        match parse_pair(rest) {
            Some((ip, port)) => {
                let mut expected: Vec<Protocol> = Vec::new();
                if let Some(name) = scheme {
                    if let Some(protocol) = protocol_from_str(name) {
                        expected.push(protocol);
                    }
                }
                assert(expected@ =~= advertised(scheme_of(trimmed(s@))));
                Ok(Proxy::with_expected_types(ip, port, expected))
            },
            None => Err(ProxyParseError::MissingSeparator(string_of(t))),
        }
    }

    /// The proxy on one line: country, mean response time, validated types
    /// and endpoint.
    pub fn to_text(&self) -> (s: String)
        requires
            self.wf(),
        ensures
            s@ == proxy_line(*self),
    {
        let mut s = "<Proxy ".to_owned();
        match &self.geo.iso_code {
            Some(code) => s.append(code.as_str()),
            None => s.append("--"),
        }
        s.append(" ");
        push_seconds(&mut s, self.avg_response_time());
        s.append("s [");
        if self.proxy_types.len() == 0 {
            s.append("--");
        } else {
            let list = protocol_list(&self.proxy_types);
            s.append(list.as_str());
        }
        s.append("] ");
        s.append(self.text.as_str());
        s.append(">");
        s
    }
}

impl core::str::FromStr for Proxy {
    type Err = ProxyParseError;

    fn from_str(s: &str) -> Result<Self, Self::Err> {
        Proxy::parse(s)
    }
}

/// The text forms of validated types.
pub open spec fn type_texts(v: Seq<ProxyType>) -> Seq<Seq<char>> {
    Seq::new(v.len(), |i: int| protocol_text(v[i].protocol))
}

/// The validated types on one line, separated by commas.
pub fn protocol_list(v: &Vec<ProxyType>) -> (s: String)
    ensures
        s@ == crate::text::joined(type_texts(v@), ", "@),
{
    let mut names: Vec<String> = Vec::new();
    let mut i: usize = 0;
    while i < v.len()
        invariant
            i <= v.len(),
            texts(names@) == type_texts(v@).take(i as int),
        decreases v.len() - i,
    {
        let name = v[i].protocol.to_text();
        proof {
            crate::text::lemma_texts_push(names@, name);
        }
        names.push(name);
        i += 1;
        assert(texts(names@) =~= type_texts(v@).take(i as int));
    }
    assert(type_texts(v@).take(v.len() as int) =~= type_texts(v@));
    crate::text::join(&names, ", ")
}

/// Seconds with two decimals.
pub open spec fn seconds_text(m: Mean) -> Seq<char> {
    let h = units_of(m.seconds_spec(), 100);
    decimal((h / 100) as nat) + "."@ + decimal((h / 10 % 10) as nat) + decimal((h % 10) as nat)
}

/// Appends a mean response time as seconds with two decimals.
pub fn push_seconds(s: &mut String, m: Mean)
    requires
        m.wf(),
    ensures
        final(s)@ == old(s)@ + seconds_text(m),
{
    let h: u128 = m.seconds().to_units(100);
    let ghost before = s@;
    push_wide(s, h / 100);
    s.append(".");
    push_wide(s, h / 10 % 10);
    push_wide(s, h % 10);
    assert(s@ =~= before + seconds_text(m));
}

/// A proxy on one line.
pub open spec fn proxy_line(p: Proxy) -> Seq<char> {
    "<Proxy "@ + match p.geo.iso_code {
        Some(code) => code@,
        None => "--"@,
    } + " "@ + seconds_text(average(p.runtimes)) + "s ["@ + (if p.proxy_types@.len() == 0 {
        "--"@
    } else {
        crate::text::joined(type_texts(p.proxy_types@), ", "@)
    }) + "] "@ + p.as_text_spec() + ">"@
}

/// Recording counts each sample once and keeps the fastest and the slowest, in
/// whatever order the samples come.
pub proof fn samples_are_recorded(r: RuntimeStats, a: u64, b: u64)
    requires
        r.wf(),
        r.count < u32::MAX - 1,
    ensures
        r.with(a).count == r.count + 1,
        r.with(a).total == r.total + a,
        r.with(a).min <= a <= r.with(a).max,
        r.count > 0 ==> r.with(a).min <= r.min && r.with(a).max >= r.max,
        r.count > 0 ==> r.with(a).min == r.min || r.with(a).min == a,
        r.with(a).max == r.max || r.with(a).max == a,
        r.count == 0 ==> r.with(a).min == a && r.with(a).max == a,
        r.count == 0 ==> average(r.with(a)) == (Mean { total: a as u128, count: 1 }),
        r.with(a).with(b) == r.with(b).with(a),
{
    lemma_record_wf(r, a);
    lemma_record_wf(r, b);
    lemma_record_wf(r.with(a), b);
    lemma_record_wf(r.with(b), a);
    assert(r.count == 0 ==> r.count * r.max == 0) by (nonlinear_arith);
}

/// The mean is the sum over the number of samples, and nothing without any.
pub proof fn means_are_sums_over_counts(r: RuntimeStats)
    ensures
        r.count > 0 ==> average(r).total == r.total && average(r).count == r.count,
        r.count == 0 ==> average(r).total == 0 && average(r).count == 1,
{
}

/// A protocol's text names that protocol.
pub proof fn protocols_read_back(p: Protocol)
    ensures
        read_protocol(protocol_text(p)) == Some(p),
{
    reveal_strlit("HTTP");
    reveal_strlit("HTTPS");
    reveal_strlit("SOCKS4");
    reveal_strlit("SOCKS5");
    reveal_strlit("CONNECT");
    reveal_strlit("CONNECT:");
    reveal_strlit("");
    assert("HTTP"@.len() == 4 && "HTTPS"@.len() == 5 && "SOCKS4"@.len() == 6 && "SOCKS5"@.len() == 6
        && "CONNECT"@.len() == 7);
    assert("SOCKS4"@[5] != "SOCKS5"@[5]);
    match p {
        Protocol::Http(a) => {
            lemma_level_reads_back("HTTP"@, a);
        },
        Protocol::Https(a) => {
            lemma_level_reads_back("HTTPS"@, a);
        },
        Protocol::Socks4 => {
            crate::net::lemma_fields_one("SOCKS4"@, ':');
        },
        Protocol::Socks5 => {
            crate::net::lemma_fields_one("SOCKS5"@, ':');
        },
        Protocol::Connect(port) => {
            let d = decimal(port as nat);
            crate::text::decimal_reads_back(port as nat, 65535);
            crate::text::digits_are_no_marks(port as nat, ':');
            crate::net::lemma_fields_cons("CONNECT"@, ':', d);
            crate::net::lemma_fields_one(d, ':');
            assert("CONNECT:"@ + d =~= "CONNECT"@ + seq![':'] + d);
        },
    }
}

proof fn lemma_level_reads_back(head: Seq<char>, a: Anonymity)
    requires
        forall|j: int| 0 <= j < head.len() ==> head[j] != ':',
    ensures
        fields(head + level_suffix(a), ':')[0] == head,
        level_named(qualifier_of(head + level_suffix(a))) == Some(a),
{
    reveal_strlit("");
    reveal_strlit(": Elite");
    reveal_strlit(": Transparent");
    reveal_strlit(": Anonymous");
    reveal_strlit(" Elite");
    reveal_strlit(" Transparent");
    reveal_strlit(" Anonymous");
    reveal_strlit("elite");
    reveal_strlit("transparent");
    reveal_strlit("anonymous");
    let s = head + level_suffix(a);
    match a {
        Anonymity::Unknown => {
            assert(s =~= head);
            crate::net::lemma_fields_one(head, ':');
        },
        Anonymity::Elite => {
            lemma_word_behind_blank(head, " Elite"@);
            assert(s =~= head + seq![':'] + " Elite"@);
            assert(lowered(" Elite"@.skip(1)) =~= lowered("elite"@));
            lemma_levels_differ();
        },
        Anonymity::Transparent => {
            lemma_word_behind_blank(head, " Transparent"@);
            assert(s =~= head + seq![':'] + " Transparent"@);
            assert(lowered(" Transparent"@.skip(1)) =~= lowered("transparent"@));
        },
        Anonymity::Anonymous => {
            lemma_word_behind_blank(head, " Anonymous"@);
            assert(s =~= head + seq![':'] + " Anonymous"@);
            assert(lowered(" Anonymous"@.skip(1)) =~= lowered("anonymous"@));
            lemma_levels_differ();
        },
    }
}

proof fn lemma_levels_differ()
    ensures
        lowered("elite"@).len() == 5,
        lowered("transparent"@).len() == 11,
        lowered("anonymous"@).len() == 9,
{
    reveal_strlit("elite");
    reveal_strlit("transparent");
    reveal_strlit("anonymous");
}

proof fn lemma_word_behind_blank(head: Seq<char>, w: Seq<char>)
    requires
        forall|j: int| 0 <= j < head.len() ==> head[j] != ':',
        w.len() > 1,
        w[0] == ' ',
        forall|j: int|
            0 < j < w.len() ==> 'A' <= #[trigger] w[j] <= 'Z' || 'a' <= w[j] <= 'z',
    ensures
        fields(head + seq![':'] + w, ':') == seq![head, w],
        trimmed(w) == w.skip(1),
{
    crate::net::lemma_fields_cons(head, ':', w);
    crate::net::lemma_fields_one(w, ':');
    assert(fields(head + seq![':'] + w, ':') =~= seq![head, w]);
    let t = w.skip(1);
    let last = w[w.len() - 1];
    assert(w.drop_first() =~= t);
    assert(t[0] == w[1]);
    assert(t.last() == last);
    assert(crate::text::trimmed_start(w) == crate::text::trimmed_start(w.drop_first()));
    assert(crate::text::trimmed_start(t) == t);
    assert(crate::text::trimmed_end(t) == t);
}

/// A qualifier names a level by its word, in any case and between blanks; an
/// unknown word names none.
pub proof fn qualifiers_name_levels(q: Seq<char>)
    ensures
        level_named(None) == Some(Anonymity::Unknown),
        trimmed(q).len() == 0 ==> level_named(Some(q)) == Some(Anonymity::Unknown),
        trimmed(q).len() > 0 && lowered(trimmed(q)) == lowered("elite"@) ==> level_named(Some(q))
            == Some(Anonymity::Elite),
        trimmed(q).len() > 0 && lowered(trimmed(q)) == lowered("anonymous"@) ==> level_named(Some(q))
            == Some(Anonymity::Anonymous),
        trimmed(q).len() > 0 && lowered(trimmed(q)) == lowered("transparent"@) ==> level_named(
            Some(q),
        ) == Some(Anonymity::Transparent),
        trimmed(q).len() > 0 && lowered(trimmed(q)) != lowered("elite"@) && lowered(trimmed(q))
            != lowered("anonymous"@) && lowered(trimmed(q)) != lowered("transparent"@)
            ==> level_named(Some(q)) is None,
{
    lemma_levels_differ();
}

/// A text that begins with a scheme is what stands behind it, of the protocol
/// that the scheme names; a text that begins with a digit has none, and
/// advertises nothing.
pub proof fn schemes_are_taken_off(rest: Seq<char>)
    ensures
        without_scheme("http://"@ + rest) == rest,
        advertised(scheme_of("http://"@ + rest)) == seq![Protocol::Http(Anonymity::Unknown)],
        without_scheme("https://"@ + rest) == rest,
        advertised(scheme_of("https://"@ + rest)) == seq![Protocol::Https(Anonymity::Unknown)],
        without_scheme("socks4://"@ + rest) == rest,
        advertised(scheme_of("socks4://"@ + rest)) == seq![Protocol::Socks4],
        without_scheme("socks5://"@ + rest) == rest,
        advertised(scheme_of("socks5://"@ + rest)) == seq![Protocol::Socks5],
        rest.len() > 0 && '0' <= rest[0] <= '9' ==> without_scheme(rest) == rest && advertised(
            scheme_of(rest),
        ).len() == 0,
{
    lemma_http_scheme(rest);
    lemma_https_scheme(rest);
    lemma_socks_schemes(rest);
    lemma_scheme_names();
    reveal_strlit("http://");
    reveal_strlit("https://");
    reveal_strlit("socks4://");
    reveal_strlit("socks5://");
    if rest.len() > 0 && '0' <= rest[0] <= '9' {
        if begins(rest, "http://"@) {
            assert(rest.subrange(0, 7)[0] == rest[0]);
        }
        if begins(rest, "https://"@) {
            assert(rest.subrange(0, 8)[0] == rest[0]);
        }
        if begins(rest, "socks4://"@) {
            assert(rest.subrange(0, 9)[0] == rest[0]);
        }
        if begins(rest, "socks5://"@) {
            assert(rest.subrange(0, 9)[0] == rest[0]);
        }
    }
}

proof fn lemma_scheme_names()
    ensures
        protocol_named("http"@) == Some(Protocol::Http(Anonymity::Unknown)),
        protocol_named("https"@) == Some(Protocol::Https(Anonymity::Unknown)),
        protocol_named("socks4"@) == Some(Protocol::Socks4),
        protocol_named("socks5"@) == Some(Protocol::Socks5),
{
    reveal_strlit("http");
    reveal_strlit("https");
    reveal_strlit("ssl");
    reveal_strlit("socks4");
    reveal_strlit("socks5");
    lemma_bare_word("http"@);
    lemma_bare_word("https"@);
    lemma_bare_word("socks4"@);
    lemma_bare_word("socks5"@);
    assert(lowered("http"@) =~= "http"@);
    assert(lowered("https"@) =~= "https"@);
    assert(lowered("socks4"@) =~= "socks4"@);
    assert(lowered("socks5"@) =~= "socks5"@);
    assert("http"@.len() == 4 && "https"@.len() == 5 && "ssl"@.len() == 3);
    assert("socks4"@.len() == 6 && "socks5"@.len() == 6);
    assert("socks4"@[5] == '4' && "socks5"@[5] == '5');
}

proof fn lemma_bare_word(s: Seq<char>)
    requires
        s.len() > 0,
        !is_space(s[0]),
        !is_space(s.last()),
    ensures
        trimmed(s) == s,
{
    let r = trimming_takes_the_outer_blanks(s);
    if r.0 > 0 {
        assert(is_space(s[0]));
    }
    if r.1 < s.len() {
        assert(is_space(s[s.len() - 1]));
    }
    assert(trimmed(s) =~= s);
}

proof fn lemma_http_scheme(rest: Seq<char>)
    ensures
        without_scheme("http://"@ + rest) == rest,
        scheme_of("http://"@ + rest) == Some("http"@),
{
    reveal_strlit("http://");
    let s = "http://"@ + rest;
    assert(s.subrange(0, 7) =~= "http://"@);
    assert(s.skip(7) =~= rest);
}

proof fn lemma_https_scheme(rest: Seq<char>)
    ensures
        without_scheme("https://"@ + rest) == rest,
        scheme_of("https://"@ + rest) == Some("https"@),
{
    reveal_strlit("http://");
    reveal_strlit("https://");
    let s = "https://"@ + rest;
    if begins(s, "http://"@) {
        assert(s.subrange(0, 7)[4] == s[4]);
        assert("http://"@[4] == ':');
        assert(s[4] == 's');
    }
    assert(s.subrange(0, 8) =~= "https://"@);
    assert(s.skip(8) =~= rest);
}

proof fn lemma_socks_schemes(rest: Seq<char>)
    ensures
        without_scheme("socks4://"@ + rest) == rest,
        scheme_of("socks4://"@ + rest) == Some("socks4"@),
        without_scheme("socks5://"@ + rest) == rest,
        scheme_of("socks5://"@ + rest) == Some("socks5"@),
{
    reveal_strlit("http://");
    reveal_strlit("https://");
    reveal_strlit("socks4://");
    reveal_strlit("socks5://");
    let s = "socks4://"@ + rest;
    let t = "socks5://"@ + rest;
    if begins(s, "http://"@) {
        assert(s.subrange(0, 7)[0] == s[0]);
    }
    if begins(s, "https://"@) {
        assert(s.subrange(0, 8)[0] == s[0]);
    }
    if begins(t, "http://"@) {
        assert(t.subrange(0, 7)[0] == t[0]);
    }
    if begins(t, "https://"@) {
        assert(t.subrange(0, 8)[0] == t[0]);
    }
    if begins(t, "socks4://"@) {
        assert(t.subrange(0, 9)[5] == t[5]);
        assert("socks4://"@[5] == '4');
        assert(t[5] == '5');
    }
    assert(s.subrange(0, 9) =~= "socks4://"@);
    assert(s.skip(9) =~= rest);
    assert(t.subrange(0, 9) =~= "socks5://"@);
    assert(t.skip(9) =~= rest);
}

/// A proxy on one line tells its country, its mean response time, what it was
/// validated for and its endpoint; what is not known is two hyphens.
pub proof fn proxies_are_told_on_one_line(p: Proxy)
    ensures
        ({
            let country = if p.geo.iso_code is Some {
                p.geo.iso_code->0@
            } else {
                seq!['-', '-']
            };
            let types = if p.proxy_types@.len() > 0 {
                crate::text::joined(type_texts(p.proxy_types@), ", "@)
            } else {
                seq!['-', '-']
            };
            proxy_line(p) == "<Proxy "@ + country + seq![' '] + seconds_text(average(p.runtimes))
                + "s ["@ + types + "] "@ + p.as_text_spec() + seq!['>']
        }),
{
    reveal_strlit("--");
    reveal_strlit(" ");
    reveal_strlit(">");
    assert("--"@ =~= seq!['-', '-']);
    assert(" "@ =~= seq![' ']);
    assert(">"@ =~= seq!['>']);
}

/// A text that names no protocol is refused by its fault: a family with levels
/// by the level that is none, a tunnel by its port, and anything else as a
/// whole.
pub proof fn refusals_name_the_fault(head: Seq<char>, q: Seq<char>, e: ProtocolParseError)
    requires
        forall|j: int| 0 <= j < head.len() ==> head[j] != ':',
        forall|j: int| 0 <= j < q.len() ==> q[j] != ':',
        protocol_refused(head + seq![':'] + q, e),
    ensures
        head == "HTTP"@ || head == "HTTPS"@ ==> e is UnknownAnonymity && (e->UnknownAnonymity_0)@
            == trimmed(q),
        head == "CONNECT"@ ==> e is InvalidConnectPort && (e->InvalidConnectPort_0)@ == head
            + seq![':'] + q,
        head.len() < 4 || head.len() == 6 ==> e is Unknown && (e->Unknown_0)@ == head + seq![':']
            + q,
{
    reveal_strlit("HTTP");
    reveal_strlit("HTTPS");
    reveal_strlit("CONNECT");
    assert("HTTP"@.len() == 4 && "HTTPS"@.len() == 5 && "CONNECT"@.len() == 7);
    lemma_fields_cons(head, ':', q);
    lemma_fields_one(q, ':');
    let parts = fields(head + seq![':'] + q, ':');
    assert(parts[0] == head && parts[1] == q);
}

} // verus!
