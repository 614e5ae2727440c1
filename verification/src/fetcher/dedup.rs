//! Remembering which endpoints were seen, up to a limit.

use crate::net::Ipv4Addr;
use crate::proxy::models::{rank_of, rank_tells_levels_apart, Protocol};
use std::collections::hash_map::DefaultHasher;
use std::collections::VecDeque;
use std::hash::Hasher;
use vstd::prelude::*;
use vstd::std_specs::hash::DefaultHasherAdditionalSpecFns;

verus! {

/// Endpoints that are remembered at once.
pub const MAX_DEDUP_ENDPOINTS: usize = 100_000;

/// An endpoint as it is remembered: address, port and the hash of the
/// protocols that it advertises.
pub type EndpointKey = (u32, u16, u64);

/// A protocol in four bytes: its kind, its level and its port.
pub open spec fn protocol_code(p: Protocol) -> Seq<u8> {
    match p {
        Protocol::Http(a) => seq![0u8, rank_of(a), 0u8, 0u8],
        Protocol::Https(a) => seq![1u8, rank_of(a), 0u8, 0u8],
        Protocol::Socks4 => seq![2u8, 0u8, 0u8, 0u8],
        Protocol::Socks5 => seq![3u8, 0u8, 0u8, 0u8],
        Protocol::Connect(port) => seq![4u8, 0u8, (port / 256) as u8, (port % 256) as u8],
    }
}

/// A list of protocols in bytes.
pub open spec fn protocol_bytes(protocols: Seq<Protocol>) -> Seq<u8>
    decreases protocols.len(),
{
    if protocols.len() == 0 {
        Seq::empty()
    } else {
        protocol_bytes(protocols.drop_last()) + protocol_code(protocols.last())
    }
}

/// Lists in bytes are told apart as the lists are.
pub proof fn bytes_tell_lists_apart(a: Seq<Protocol>, b: Seq<Protocol>)
    ensures
        protocol_bytes(a) == protocol_bytes(b) <==> a == b,
    decreases a.len(),
{
    lemma_bytes_len(a);
    lemma_bytes_len(b);
    if protocol_bytes(a) == protocol_bytes(b) {
        assert(a.len() == b.len());
        if a.len() > 0 {
            let n = protocol_bytes(a.drop_last()).len() as int;
            lemma_bytes_len(a.drop_last());
            lemma_bytes_len(b.drop_last());
            assert(protocol_bytes(a).take(n) =~= protocol_bytes(a.drop_last()));
            assert(protocol_bytes(b).take(n) =~= protocol_bytes(b.drop_last()));
            assert(protocol_bytes(a).skip(n) =~= protocol_code(a.last()));
            assert(protocol_bytes(b).skip(n) =~= protocol_code(b.last()));
            bytes_tell_lists_apart(a.drop_last(), b.drop_last());
            lemma_code(a.last(), b.last());
            assert(a =~= a.drop_last().push(a.last()));
            assert(b =~= b.drop_last().push(b.last()));
        } else {
            assert(a =~= b);
        }
    }
}

proof fn lemma_code(p: Protocol, q: Protocol)
    requires
        protocol_code(p) == protocol_code(q),
    ensures
        p == q,
{
    let c = protocol_code(p);
    let d = protocol_code(q);
    assert(c[0] == d[0] && c[1] == d[1] && c[2] == d[2] && c[3] == d[3]);
    match (p, q) {
        (Protocol::Http(x), Protocol::Http(y)) => rank_tells_levels_apart(x, y),
        (Protocol::Https(x), Protocol::Https(y)) => rank_tells_levels_apart(x, y),
        _ => {},
    }
}

proof fn lemma_bytes_len(protocols: Seq<Protocol>)
    ensures
        protocol_bytes(protocols).len() == 4 * protocols.len(),
    decreases protocols.len(),
{
    if protocols.len() > 0 {
        lemma_bytes_len(protocols.drop_last());
    }
}

fn write_protocols(protocols: &[Protocol]) -> (r: Vec<u8>)
    ensures
        r@ == protocol_bytes(protocols@),
{
    let mut r: Vec<u8> = Vec::new();
    let mut i: usize = 0;
    assert(protocols@.take(0) =~= Seq::<Protocol>::empty());
    while i < protocols.len()
        invariant
            i <= protocols.len(),
            r@ == protocol_bytes(protocols@.take(i as int)),
        decreases protocols.len() - i,
    {
        assert(protocols@.take(i + 1).drop_last() =~= protocols@.take(i as int));
        let ghost before = r@;
        let (kind, rank, port): (u8, u8, u16) = match protocols[i] {
            Protocol::Http(a) => (0, a.rank(), 0),
            Protocol::Https(a) => (1, a.rank(), 0),
            Protocol::Socks4 => (2, 0, 0),
            Protocol::Socks5 => (3, 0, 0),
            Protocol::Connect(port) => (4, 0, port),
        };
        r.push(kind);
        r.push(rank);
        r.push((port / 256) as u8);
        r.push((port % 256) as u8);
        assert(r@ =~= before + protocol_code(protocols@[i as int]));
        i += 1;
    }
    assert(protocols@.take(protocols.len() as int) =~= protocols@);
    r
}

/// The hash that stands for a list of advertised protocols: what a fresh hasher
/// makes of its bytes. Every such hasher starts alike.
pub open spec fn hash_of_protocols(protocols: Seq<Protocol>) -> u64 {
    DefaultHasher::spec_finish(seq![protocol_bytes(protocols)])
}

/// The hash that stands for a list of advertised protocols.
pub fn protocol_hash(protocols: &[Protocol]) -> (r: u64)
    ensures
        r == hash_of_protocols(protocols@),
{
    let bytes = write_protocols(protocols);
    let mut hasher = DefaultHasher::new();
    hasher.write(bytes.as_slice());
    assert(hasher@ =~= seq![protocol_bytes(protocols@)]);
    hasher.finish()
}

/// An address as a number.
pub open spec fn ip_number(ip: Ipv4Addr) -> int {
    ip.a * 16777216 + ip.b * 65536 + ip.c * 256 + ip.d
}

/// The key of an endpoint and its advertised protocols.
pub open spec fn key_of(ip: Ipv4Addr, port: u16, hash: u64) -> EndpointKey {
    (ip_number(ip) as u32, port, hash)
}

/// The key of an endpoint and the hash of its advertised protocols.
pub fn endpoint_key(ip: Ipv4Addr, port: u16, hash: u64) -> (k: EndpointKey)
    ensures
        k == key_of(ip, port, hash),
{
    let n: u32 = ip.a as u32 * 16777216 + ip.b as u32 * 65536 + ip.c as u32 * 256 + ip.d as u32;
    (n, port, hash)
}

/// Keys tell endpoints apart.
pub proof fn keys_tell_endpoints_apart(a: Ipv4Addr, p: u16, h: u64, b: Ipv4Addr, q: u16, g: u64)
    ensures
        key_of(a, p, h) == key_of(b, q, g) <==> a == b && p == q && h == g,
{
    lemma_octets(a);
    lemma_octets(b);
}

proof fn lemma_octets(ip: Ipv4Addr)
    ensures
        0 <= ip_number(ip) <= u32::MAX,
        ip_number(ip) % 256 == ip.d,
        ip_number(ip) / 256 % 256 == ip.c,
        ip_number(ip) / 65536 % 256 == ip.b,
        ip_number(ip) / 16777216 == ip.a,
{
    let n = ip_number(ip);
    assert(n / 256 == ip.a * 65536 + ip.b * 256 + ip.c);
    assert(n / 65536 == ip.a * 256 + ip.b);
    assert(n / 16777216 == ip.a);
}

/// The set of keys.
#[verifier::external_body]
pub struct SeenSet {
    set: hashbrown::HashSet<EndpointKey>,
}

/// The keys that a set holds.
pub uninterp spec fn seen_keys(s: SeenSet) -> Set<EndpointKey>;

impl SeenSet {
    /// `hashbrown::HashSet::new`: nothing is in the set.
    #[verifier::external_body]
    fn new() -> (s: Self)
        ensures
            seen_keys(s) == Set::<EndpointKey>::empty(),
    {
        SeenSet { set: hashbrown::HashSet::new() }
    }

    /// `hashbrown::HashSet::contains`: whether the key is in the set.
    #[verifier::external_body]
    fn contains(&self, key: EndpointKey) -> (r: bool)
        ensures
            r == seen_keys(*self).contains(key),
    {
        self.set.contains(&key)
    }

    /// `hashbrown::HashSet::insert`: the key is in the set, with those before;
    /// tells whether it is new.
    #[verifier::external_body]
    fn insert(&mut self, key: EndpointKey) -> (r: bool)
        ensures
            seen_keys(*final(self)) == seen_keys(*old(self)).insert(key),
            r == !seen_keys(*old(self)).contains(key),
    {
        self.set.insert(key)
    }

    /// `hashbrown::HashSet::remove`: the key is in the set no more; tells
    /// whether it was.
    #[verifier::external_body]
    fn remove(&mut self, key: EndpointKey) -> (r: bool)
        ensures
            seen_keys(*final(self)) == seen_keys(*old(self)).remove(key),
            r == seen_keys(*old(self)).contains(key),
    {
        self.set.remove(&key)
    }
}

/// The endpoints seen last, oldest first, up to a limit.
pub struct DedupTable {
    pub seen: SeenSet,
    pub order: VecDeque<EndpointKey>,
    pub capacity: usize,
}

/// The keys left when room is made for one more.
pub open spec fn after_making_room(keys: Seq<EndpointKey>, capacity: usize) -> Seq<EndpointKey> {
    if keys.len() >= capacity && keys.len() > 0 {
        keys.drop_first()
    } else {
        keys
    }
}

impl DedupTable {
    /// The remembered keys, oldest first.
    pub open spec fn view(&self) -> Seq<EndpointKey> {
        self.order@
    }

    /// The set and the queue hold the same keys, none twice, and no more than
    /// the limit (but one where the limit is zero).
    pub open spec fn wf(&self) -> bool {
        &&& self.order@.no_duplicates()
        &&& forall|k: EndpointKey| #[trigger]
            seen_keys(self.seen).contains(k) <==> self.order@.contains(k)
        &&& self.order@.len() <= self.capacity || (self.capacity == 0 && self.order@.len() == 1)
    }

    /// An empty table with the usual limit.
    pub fn new() -> (t: Self)
        ensures
            t.wf(),
            t@.len() == 0,
            t.capacity == MAX_DEDUP_ENDPOINTS,
    {
        DedupTable::with_capacity(MAX_DEDUP_ENDPOINTS)
    }

    /// An empty table with the given limit.
    pub fn with_capacity(capacity: usize) -> (t: Self)
        ensures
            t.wf(),
            t@.len() == 0,
            t.capacity == capacity,
    {
        DedupTable { seen: SeenSet::new(), order: VecDeque::new(), capacity }
    }

    /// Remembers an endpoint, unless it is remembered already; the one seen
    /// longest ago makes room where the table is full.
    pub fn insert(&mut self, endpoint: EndpointKey) -> (r: bool)
        requires
            old(self).wf(),
        ensures
            final(self).wf(),
            final(self).capacity == old(self).capacity,
            r == !old(self)@.contains(endpoint),
            r ==> final(self)@ == after_making_room(old(self)@, old(self).capacity).push(endpoint),
            !r ==> final(self)@ == old(self)@,
    {
        if self.seen.contains(endpoint) {
            return false;
        }
        let ghost before = self.order@;
        if self.order.len() >= self.capacity {
            if let Some(oldest) = self.order.pop_front() {
                self.seen.remove(oldest);
                proof {
                    assert(self.order@ =~= before.drop_first());
                    lemma_drop_first(before);
                }
            }
        }
        let ghost kept = self.order@;
        assert(kept =~= after_making_room(before, self.capacity));
        assert(!kept.contains(endpoint)) by {
            if kept.contains(endpoint) {
                let i = choose|i: int| 0 <= i < kept.len() && kept[i] == endpoint;
                if before.len() >= self.capacity && before.len() > 0 {
                    assert(before[i + 1] == endpoint);
                } else {
                    assert(before[i] == endpoint);
                }
            }
        }
        self.seen.insert(endpoint);
        self.order.push_back(endpoint);
        proof {
            lemma_push(kept, endpoint);
            assert(self.order@ =~= kept.push(endpoint));
        }
        true
    }
}

proof fn lemma_drop_first(s: Seq<EndpointKey>)
    requires
        s.len() > 0,
        s.no_duplicates(),
    ensures
        s.drop_first().no_duplicates(),
        forall|k: EndpointKey| #[trigger]
            s.drop_first().contains(k) <==> s.contains(k) && k != s[0],
{
    assert forall|k: EndpointKey| #[trigger]
        s.drop_first().contains(k) <==> s.contains(k) && k != s[0] by {
        if s.drop_first().contains(k) {
            let i = choose|i: int| 0 <= i < s.drop_first().len() && s.drop_first()[i] == k;
            assert(s[i + 1] == k);
        }
        if s.contains(k) && k != s[0] {
            let i = choose|i: int| 0 <= i < s.len() && s[i] == k;
            assert(s.drop_first()[i - 1] == k);
        }
    }
}

proof fn lemma_push(s: Seq<EndpointKey>, x: EndpointKey)
    requires
        s.no_duplicates(),
        !s.contains(x),
    ensures
        s.push(x).no_duplicates(),
        forall|k: EndpointKey| #[trigger] s.push(x).contains(k) <==> s.contains(k) || k == x,
{
    assert forall|k: EndpointKey| #[trigger]
        s.push(x).contains(k) <==> s.contains(k) || k == x by {
        if s.push(x).contains(k) {
            let i = choose|i: int| 0 <= i < s.push(x).len() && s.push(x)[i] == k;
            if i < s.len() {
                assert(s[i] == k);
            }
        }
        if s.contains(k) {
            let i = choose|i: int| 0 <= i < s.len() && s[i] == k;
            assert(s.push(x)[i] == k);
        }
        if k == x {
            assert(s.push(x)[s.len() as int] == k);
        }
    }
}

/// An endpoint that was just remembered is refused, and it is the last to make
/// room.
pub proof fn remembered_until_pushed_out(keys: Seq<EndpointKey>, capacity: usize, key: EndpointKey)
    requires
        capacity > 0,
        keys.len() <= capacity,
    ensures
        after_making_room(keys, capacity).push(key).contains(key),
        after_making_room(keys, capacity).push(key).len() <= capacity,
        after_making_room(keys, capacity).push(key).last() == key,
{
    let s = after_making_room(keys, capacity).push(key);
    assert(s[s.len() - 1] == key);
}

/// A table forgets nothing before it is full, and then only the endpoint that
/// was seen longest ago.
pub proof fn only_the_oldest_is_forgotten(keys: Seq<EndpointKey>, capacity: usize, i: int)
    requires
        0 <= i < keys.len() <= capacity,
        keys.no_duplicates(),
    ensures
        keys.len() < capacity || i > 0 ==> after_making_room(keys, capacity).contains(keys[i]),
        keys.len() == capacity ==> !after_making_room(keys, capacity).contains(keys[0]),
        after_making_room(keys, capacity).len() < capacity,
{
    let kept = after_making_room(keys, capacity);
    if keys.len() < capacity {
        assert(kept[i] == keys[i]);
    } else {
        if i > 0 {
            assert(kept[i - 1] == keys[i]);
        }
        if kept.contains(keys[0]) {
            let j = choose|j: int| 0 <= j < kept.len() && kept[j] == keys[0];
            assert(keys[j + 1] == keys[0]);
        }
    }
}

} // verus!
