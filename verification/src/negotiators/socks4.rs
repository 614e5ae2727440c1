//! The SOCKS4 handshake, with names resolved by the proxy.

use crate::negotiators::{be16, port_of, target_port, NegotiationError, NegotiatorTrait, Target};
use crate::net::{read_ip, Ipv4Addr};
use crate::text::chars_of;
use vstd::prelude::*;
use vstd::string::*;
use vstd::utf8::*;

verus! {

/// Negotiates SOCKS4 proxy connections.
pub struct Socks4Negotiator;

impl NegotiatorTrait for Socks4Negotiator {
    open spec fn tls(&self) -> bool {
        false
    }

    fn with_tls(&self) -> (r: bool) {
        false
    }
}

/// A CONNECT request: the address where the host is one, else a stand-in and
/// the name behind the empty user.
pub open spec fn socks4_request(host: Seq<char>, port: u16) -> Seq<u8> {
    match read_ip(host) {
        Some(ip) => seq![4u8, 1u8] + be16(port) + seq![ip.a, ip.b, ip.c, ip.d] + seq![0u8],
        None => seq![4u8, 1u8] + be16(port) + seq![0u8, 0u8, 0u8, 1u8, 0u8] + encode_utf8(host)
            + seq![0u8],
    }
}

/// What the reply to a request says.
pub open spec fn socks4_reply(reply: Seq<u8>) -> Result<(), NegotiationError> {
    if reply[0] != 0 {
        Err(NegotiationError::BadVersion)
    } else if reply[1] == 90 {
        Ok(())
    } else if reply[1] == 91 {
        Err(NegotiationError::Rejected)
    } else if reply[1] == 92 {
        Err(NegotiationError::NoIdentd)
    } else if reply[1] == 93 {
        Err(NegotiationError::IdentdMismatch)
    } else {
        Err(NegotiationError::BadCode(reply[1]))
    }
}

/// Bytes of the reply to a request.
pub const SOCKS4_REPLY_LEN: usize = 8;

impl Socks4Negotiator {
    /// Writes a CONNECT request.
    pub fn build_connect_request(host: &str, port: u16) -> (r: Vec<u8>)
        ensures
            r@ == socks4_request(host@, port),
    {
        let mut packet: Vec<u8> = vec![4, 1, (port / 256) as u8, (port % 256) as u8];
        let cs = chars_of(host);
        match Ipv4Addr::parse(cs.as_slice()) {
            Some(ip) => {
                packet.push(ip.a);
                packet.push(ip.b);
                packet.push(ip.c);
                packet.push(ip.d);
                packet.push(0);
            },
            None => {
                packet.push(0);
                packet.push(0);
                packet.push(0);
                packet.push(1);
                packet.push(0);
                let mut name = host.as_bytes_vec();
                packet.append(&mut name);
                packet.push(0);
            },
        }
        assert(packet@ =~= socks4_request(host@, port));
        packet
    }

    /// What to send for a target.
    pub fn begin(target: &Target) -> (r: Result<Vec<u8>, NegotiationError>)
        ensures
            match r {
                Ok(packet) => target@.host is Some && target_port(target@) is Some && packet@
                    == socks4_request(target@.host->0, target_port(target@)->0),
                Err(e) => if target@.host is None {
                    e == NegotiationError::NoHost("SOCKS4")
                } else {
                    target_port(target@) is None && e == NegotiationError::NoPort("SOCKS4")
                },
            },
    {
        match &target.host {
            Some(host) => match port_of(target) {
                Some(port) => Ok(Socks4Negotiator::build_connect_request(host.as_str(), port)),
                None => Err(NegotiationError::NoPort("SOCKS4")),
            },
            None => Err(NegotiationError::NoHost("SOCKS4")),
        }
    }

    /// Judges the reply to a request.
    pub fn check_reply(reply: &[u8]) -> (r: Result<(), NegotiationError>)
        requires
            reply@.len() == SOCKS4_REPLY_LEN,
        ensures
            r == socks4_reply(reply@),
    {
        if reply[0] != 0 {
            return Err(NegotiationError::BadVersion);
        }
        let code: u8 = reply[1];
        if code == 90 {
            Ok(())
        } else if code == 91 {
            Err(NegotiationError::Rejected)
        } else if code == 92 {
            Err(NegotiationError::NoIdentd)
        } else if code == 93 {
            Err(NegotiationError::IdentdMismatch)
        } else {
            Err(NegotiationError::BadCode(code))
        }
    }
}

/// A request asks for the port in network order, and for the address octet by
/// octet where the host is one.
pub proof fn socks4_asks_for_the_address(ip: crate::net::Ipv4Addr, port: u16)
    ensures
        ({
            let r = socks4_request(crate::net::ip_text(ip), port);
            &&& r.len() == 9
            &&& r[0] == 4 && r[1] == 1
            &&& r[2] * 256 + r[3] == port
            &&& r[4] == ip.a && r[5] == ip.b && r[6] == ip.c && r[7] == ip.d
            &&& r[8] == 0
        }),
{
    crate::net::ip_text_reads_back(ip);
}

/// A host that is no address is asked for by its name, behind an address that
/// says so, between zeros.
pub proof fn socks4_asks_for_the_name(host: Seq<char>, port: u16)
    requires
        read_ip(host) is None,
    ensures
        ({
            let r = socks4_request(host, port);
            let name = encode_utf8(host);
            &&& r.len() == 10 + name.len()
            &&& r[0] == 4 && r[1] == 1
            &&& r[2] * 256 + r[3] == port
            &&& r[4] == 0 && r[5] == 0 && r[6] == 0 && r[7] == 1 && r[8] == 0
            &&& r.subrange(9, 9 + name.len() as int) == name
            &&& r[9 + name.len() as int] == 0
        }),
{
    let r = socks4_request(host, port);
    let name = encode_utf8(host);
    assert(r.subrange(9, 9 + name.len() as int) =~= name);
}

/// A request is granted by the code 90 behind a zero, and by nothing else; each
/// refusal has its own code.
pub proof fn socks4_is_granted_by_90(reply: Seq<u8>)
    requires
        reply.len() == 8,
    ensures
        socks4_reply(reply) is Ok <==> reply[0] == 0 && reply[1] == 90,
        reply[0] != 0 ==> socks4_reply(reply) == Err::<(), _>(NegotiationError::BadVersion),
        reply[0] == 0 && reply[1] == 91 ==> socks4_reply(reply) == Err::<(), _>(
            NegotiationError::Rejected,
        ),
        reply[0] == 0 && reply[1] == 92 ==> socks4_reply(reply) == Err::<(), _>(
            NegotiationError::NoIdentd,
        ),
        reply[0] == 0 && reply[1] == 93 ==> socks4_reply(reply) == Err::<(), _>(
            NegotiationError::IdentdMismatch,
        ),
        reply[0] == 0 && (reply[1] < 90 || reply[1] > 93) ==> socks4_reply(reply) == Err::<(), _>(
            NegotiationError::BadCode(reply[1]),
        ),
{
}

} // verus!
