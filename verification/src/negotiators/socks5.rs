//! The SOCKS5 handshake without authentication.

use crate::ipv6::{group_octets, read_ip6, IpAddr};
use crate::negotiators::{be16, port_of, target_port, NegotiationError, NegotiatorTrait, Target, TargetText};
use crate::net::read_ip;
use crate::text::chars_of;
use vstd::prelude::*;
use vstd::string::*;
use vstd::utf8::*;

verus! {

/// Negotiates SOCKS5 proxy connections.
pub struct Socks5Negotiator;

impl NegotiatorTrait for Socks5Negotiator {
    open spec fn tls(&self) -> bool {
        false
    }

    fn with_tls(&self) -> (r: bool) {
        false
    }
}

/// The address part of a CONNECT request: its kind, then the octets of an
/// address or the length and the bytes of a name.
pub open spec fn socks5_address(host: Seq<char>) -> Option<Seq<u8>> {
    match read_ip(host) {
        Some(ip) => Some(seq![1u8, ip.a, ip.b, ip.c, ip.d]),
        None => match read_ip6(host) {
            Some(g) => Some(seq![4u8] + group_octets(g)),
            None => if encode_utf8(host).len() <= 255 {
                Some(seq![3u8, encode_utf8(host).len() as u8] + encode_utf8(host))
            } else {
                None
            },
        },
    }
}

/// A CONNECT request; `None` where the name does not fit.
pub open spec fn socks5_request(host: Seq<char>, port: u16) -> Option<Seq<u8>> {
    match socks5_address(host) {
        Some(address) => Some(seq![5u8, 1u8, 0u8] + address + be16(port)),
        None => None,
    }
}

/// What the handshake waits for.
#[derive(Clone, Copy, Debug, PartialEq, Eq, Structural)]
pub enum Socks5Stage {
    /// The server's choice of a method.
    Method,
    /// The head of the reply to the request.
    Reply,
    /// The length of the bound name.
    Length,
    /// The bound address and port, of so many bytes.
    Tail(usize),
    /// Nothing: the tunnel stands.
    Done,
}

/// How many bytes a stage waits for.
pub open spec fn bytes_awaited(stage: Socks5Stage) -> int {
    match stage {
        Socks5Stage::Method => 2,
        Socks5Stage::Reply => 4,
        Socks5Stage::Length => 1,
        Socks5Stage::Tail(n) => n as int,
        Socks5Stage::Done => 0,
    }
}

/// The next stage and the bytes to send, or the failure.
pub open spec fn socks5_step(stage: Socks5Stage, bytes: Seq<u8>, target: TargetText) -> Result<
    (Socks5Stage, Seq<u8>),
    NegotiationError,
> {
    match stage {
        Socks5Stage::Method => if bytes[0] != 5 {
            Err(NegotiationError::BadVersion)
        } else if bytes[1] == 0xff {
            Err(NegotiationError::AuthRequired)
        } else if bytes[1] != 0 {
            Err(NegotiationError::BadData)
        } else if target.host is None {
            Err(NegotiationError::NoHost("SOCKS5"))
        } else if target_port(target) is None {
            Err(NegotiationError::NoPort("SOCKS5"))
        } else {
            match socks5_request(target.host->0, target_port(target)->0) {
                Some(request) => Ok((Socks5Stage::Reply, request)),
                None => Err(NegotiationError::NameTooLong),
            }
        },
        Socks5Stage::Reply => if bytes[0] != 5 {
            Err(NegotiationError::BadVersion)
        } else if bytes[1] != 0 {
            Err(NegotiationError::BadData)
        } else if bytes[3] == 1 {
            Ok((Socks5Stage::Tail(6), Seq::empty()))
        } else if bytes[3] == 4 {
            Ok((Socks5Stage::Tail(18), Seq::empty()))
        } else if bytes[3] == 3 {
            Ok((Socks5Stage::Length, Seq::empty()))
        } else {
            Err(NegotiationError::BadAddressType(bytes[3]))
        },
        Socks5Stage::Length => Ok((Socks5Stage::Tail((bytes[0] + 2) as usize), Seq::empty())),
        Socks5Stage::Tail(_) => Ok((Socks5Stage::Done, Seq::empty())),
        Socks5Stage::Done => Ok((Socks5Stage::Done, Seq::empty())),
    }
}

impl Socks5Negotiator {
    /// Writes a CONNECT request.
    pub fn build_connect_request(host: &str, port: u16) -> (r: Result<Vec<u8>, NegotiationError>)
        ensures
            match r {
                Ok(packet) => socks5_request(host@, port) == Some(packet@),
                Err(e) => socks5_request(host@, port) is None && e == NegotiationError::NameTooLong,
            },
    {
        let mut packet: Vec<u8> = vec![5, 1, 0];
        let cs = chars_of(host);
        match IpAddr::parse(cs.as_slice()) {
            Some(IpAddr::V4(ip)) => {
                packet.push(1);
                packet.push(ip.a);
                packet.push(ip.b);
                packet.push(ip.c);
                packet.push(ip.d);
            },
            Some(IpAddr::V6(ip)) => {
                packet.push(4);
                let mut octets = ip.octets();
                packet.append(&mut octets);
            },
            None => {
                let mut name = host.as_bytes_vec();
                if name.len() > 255 {
                    return Err(NegotiationError::NameTooLong);
                }
                packet.push(3);
                packet.push(name.len() as u8);
                packet.append(&mut name);
            },
        }
        packet.push((port / 256) as u8);
        packet.push((port % 256) as u8);
        assert(packet@ =~= socks5_request(host@, port)->0);
        Ok(packet)
    }

    /// What to send first: the one method that is offered.
    pub fn begin() -> (r: Vec<u8>)
        ensures
            r@ == seq![5u8, 1u8, 0u8],
    {
        let r: Vec<u8> = vec![5, 1, 0];
        assert(r@ =~= seq![5u8, 1u8, 0u8]);
        r
    }

    /// How many bytes to read for a stage.
    pub fn awaited(stage: Socks5Stage) -> (n: usize)
        ensures
            n == bytes_awaited(stage),
    {
        match stage {
            Socks5Stage::Method => 2,
            Socks5Stage::Reply => 4,
            Socks5Stage::Length => 1,
            Socks5Stage::Tail(n) => n,
            Socks5Stage::Done => 0,
        }
    }

    /// Takes the bytes that a stage waited for.
    pub fn advance(stage: Socks5Stage, bytes: &[u8], target: &Target) -> (r: Result<
        (Socks5Stage, Vec<u8>),
        NegotiationError,
    >)
        requires
            bytes@.len() == bytes_awaited(stage),
        ensures
            match r {
                Ok((next, send)) => socks5_step(stage, bytes@, target@) == Ok::<
                    _,
                    NegotiationError,
                >((next, send@)),
                Err(e) => socks5_step(stage, bytes@, target@) == Err::<(Socks5Stage, Seq<u8>), _>(e),
            },
    {
        match stage {
            Socks5Stage::Method => {
                if bytes[0] != 5 {
                    return Err(NegotiationError::BadVersion);
                }
                if bytes[1] == 0xff {
                    return Err(NegotiationError::AuthRequired);
                }
                if bytes[1] != 0 {
                    return Err(NegotiationError::BadData);
                }
                match &target.host {
                    Some(host) => match port_of(target) {
                        Some(port) => match Socks5Negotiator::build_connect_request(
                            host.as_str(),
                            port,
                        ) {
                            Ok(request) => Ok((Socks5Stage::Reply, request)),
                            Err(e) => Err(e),
                        },
                        None => Err(NegotiationError::NoPort("SOCKS5")),
                    },
                    None => Err(NegotiationError::NoHost("SOCKS5")),
                }
            },
            Socks5Stage::Reply => {
                if bytes[0] != 5 {
                    return Err(NegotiationError::BadVersion);
                }
                if bytes[1] != 0 {
                    return Err(NegotiationError::BadData);
                }
                let kind: u8 = bytes[3];
                let next = if kind == 1 {
                    Socks5Stage::Tail(6)
                } else if kind == 4 {
                    Socks5Stage::Tail(18)
                } else if kind == 3 {
                    Socks5Stage::Length
                } else {
                    return Err(NegotiationError::BadAddressType(kind));
                };
                let send: Vec<u8> = Vec::new();
                assert(send@ =~= Seq::<u8>::empty());
                Ok((next, send))
            },
            Socks5Stage::Length => {
                let send: Vec<u8> = Vec::new();
                assert(send@ =~= Seq::<u8>::empty());
                Ok((Socks5Stage::Tail(bytes[0] as usize + 2), send))
            },
            _ => {
                let send: Vec<u8> = Vec::new();
                assert(send@ =~= Seq::<u8>::empty());
                Ok((Socks5Stage::Done, send))
            },
        }
    }
}

/// The stage that comes behind others in the handshake.
pub open spec fn stage_rank(stage: Socks5Stage) -> int {
    match stage {
        Socks5Stage::Method => 0,
        Socks5Stage::Reply => 1,
        Socks5Stage::Length => 2,
        Socks5Stage::Tail(_) => 3,
        Socks5Stage::Done => 4,
    }
}

/// The handshake comes to an end: every step that does not fail moves on to a
/// later stage, and a tunnel that stands needs no more bytes.
pub proof fn handshake_moves_on(stage: Socks5Stage, bytes: Seq<u8>, target: TargetText)
    ensures
        match socks5_step(stage, bytes, target) {
            Ok((next, _)) => stage_rank(next) > stage_rank(stage) || (stage is Done && next is Done),
            Err(_) => stage is Method || stage is Reply,
        },
{
}

/// Nothing but a SOCKS5 server that takes the offered method is sent a
/// request.
pub proof fn request_needs_consent(bytes: Seq<u8>, target: TargetText)
    requires
        bytes.len() == 2,
    ensures
        socks5_step(Socks5Stage::Method, bytes, target) is Ok ==> bytes =~= seq![5u8, 0u8],
{
}

/// A request asks for an address by its octets, for a name by its length and
/// its bytes, and ends in the port in network order.
pub proof fn socks5_asks_for_the_target(ip: crate::net::Ipv4Addr, host: Seq<char>, port: u16)
    ensures
        ({
            let r = socks5_request(crate::net::ip_text(ip), port)->0;
            &&& socks5_request(crate::net::ip_text(ip), port) is Some
            &&& r.len() == 10
            &&& r[0] == 5 && r[1] == 1 && r[2] == 0 && r[3] == 1
            &&& r[4] == ip.a && r[5] == ip.b && r[6] == ip.c && r[7] == ip.d
            &&& r[8] * 256 + r[9] == port
        }),
        read_ip(host) is None && read_ip6(host) is None && encode_utf8(host).len() <= 255 ==> {
            let r = socks5_request(host, port)->0;
            let name = encode_utf8(host);
            &&& socks5_request(host, port) is Some
            &&& r.len() == 7 + name.len()
            &&& r[0] == 5 && r[1] == 1 && r[2] == 0 && r[3] == 3
            &&& r[4] == name.len()
            &&& r.subrange(5, 5 + name.len() as int) == name
            &&& r[5 + name.len() as int] * 256 + r[6 + name.len() as int] == port
        },
        read_ip(host) is None && read_ip6(host) is None && encode_utf8(host).len() > 255
            ==> socks5_request(host, port) is None,
        read_ip(host) is None && read_ip6(host) is Some ==> {
            let r = socks5_request(host, port)->0;
            let octets = group_octets(read_ip6(host)->0);
            &&& socks5_request(host, port) is Some
            &&& r[0] == 5 && r[1] == 1 && r[2] == 0 && r[3] == 4
            &&& r.subrange(4, 4 + octets.len() as int) == octets
            &&& r.len() == 6 + octets.len()
            &&& r[4 + octets.len() as int] * 256 + r[5 + octets.len() as int] == port
        },
{
    crate::net::ip_text_reads_back(ip);
    let r = socks5_request(host, port)->0;
    if read_ip(host) is None && read_ip6(host) is None && encode_utf8(host).len() <= 255 {
        let name = encode_utf8(host);
        assert(r.subrange(5, 5 + name.len() as int) =~= name);
    }
    if read_ip(host) is None && read_ip6(host) is Some {
        let octets = group_octets(read_ip6(host)->0);
        assert(r.subrange(4, 4 + octets.len() as int) =~= octets);
    }
}

/// A server that takes the offered method is sent the request for the target;
/// one that wants another, or speaks another version, is not.
pub proof fn socks5_requests_follow_consent(bytes: Seq<u8>, target: TargetText)
    requires
        bytes.len() == 2,
    ensures
        bytes[0] == 5 && bytes[1] == 0 && target.host is Some && target_port(target) is Some
            && socks5_request(target.host->0, target_port(target)->0) is Some ==> socks5_step(
            Socks5Stage::Method,
            bytes,
            target,
        ) == Ok::<_, NegotiationError>(
            (Socks5Stage::Reply, socks5_request(target.host->0, target_port(target)->0)->0),
        ),
        bytes[0] != 5 ==> socks5_step(Socks5Stage::Method, bytes, target) == Err::<
            (Socks5Stage, Seq<u8>),
            _,
        >(NegotiationError::BadVersion),
        bytes[0] == 5 && bytes[1] == 0xff ==> socks5_step(Socks5Stage::Method, bytes, target)
            == Err::<(Socks5Stage, Seq<u8>), _>(NegotiationError::AuthRequired),
        bytes[0] == 5 && bytes[1] != 0xff && bytes[1] != 0 ==> socks5_step(
            Socks5Stage::Method,
            bytes,
            target,
        ) == Err::<(Socks5Stage, Seq<u8>), _>(NegotiationError::BadData),
{
}

/// A reply stands for an open tunnel where its version is five and its code
/// zero, and exactly the address that it announces, with its port, is read
/// behind it.
pub proof fn socks5_replies_are_read_to_their_end(bytes: Seq<u8>, n: u8, target: TargetText)
    requires
        bytes.len() == 4,
    ensures
        socks5_step(Socks5Stage::Reply, bytes, target) is Ok <==> bytes[0] == 5 && bytes[1] == 0
            && (bytes[3] == 1 || bytes[3] == 3 || bytes[3] == 4),
        socks5_step(Socks5Stage::Reply, bytes, target) matches Ok((next, send)) ==> {
            &&& send.len() == 0
            &&& bytes[3] == 1 ==> bytes_awaited(next) == 4 + 2 && next is Tail
            &&& bytes[3] == 4 ==> bytes_awaited(next) == 16 + 2 && next is Tail
            &&& bytes[3] == 3 ==> bytes_awaited(next) == 1 && next is Length
        },
        socks5_step(Socks5Stage::Length, seq![n], target) matches Ok((next, send)) && send.len()
            == 0 && next is Tail && bytes_awaited(next) == n + 2,
        bytes_awaited(Socks5Stage::Method) == 2,
        bytes_awaited(Socks5Stage::Reply) == 4,
{
}

} // verus!
