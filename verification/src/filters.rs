//! Filtering and ordering of validated proxies.

use crate::order::{
    distinct_below, in_order, positions_follow_their_keys, ratio_less, sort_positions, text_less, Key,
};
use crate::proxy::models::{
    average, copy_text, rank_of, same_text, Anonymity, Mean, Protocol, Proxy, ProxyType,
};
use vstd::prelude::*;

verus! {

/// Field a buffered sort orders by.
#[derive(Clone, Copy, Debug, PartialEq, Eq, Structural)]
pub enum SortKey {
    /// Aggregated average response time, fastest first when ascending.
    AvgResponseTime,
    /// GeoIP country code.
    Country,
    /// Best anonymity rank across validated types.
    Anonymity,
}

/// Direction a buffered sort applies to its key.
#[derive(Clone, Copy, Debug, PartialEq, Eq, Structural)]
pub enum SortOrder {
    Asc,
    Desc,
}

/// The anonymity level of a protocol that has one.
pub open spec fn level_of(p: Protocol) -> Option<Anonymity> {
    match p {
        Protocol::Http(a) => Some(a),
        Protocol::Https(a) => Some(a),
        _ => None,
    }
}

/// The rank of a protocol; one without an anonymity level counts as unknown.
pub open spec fn protocol_rank(p: Protocol) -> u8 {
    match level_of(p) {
        Some(a) => rank_of(a),
        None => rank_of(Anonymity::Unknown),
    }
}

/// The best rank among validated types, where there are any.
pub open spec fn best_rank(types: Seq<ProxyType>) -> Option<u8>
    decreases types.len(),
{
    if types.len() == 0 {
        None
    } else {
        let last = protocol_rank(types.last().protocol);
        match best_rank(types.drop_last()) {
            Some(best) if best >= last => Some(best),
            _ => Some(last),
        }
    }
}

/// The best rank of a proxy; without a validated type it counts as unknown.
pub open spec fn proxy_rank(p: Proxy) -> u8 {
    match best_rank(p.proxy_types@) {
        Some(rank) => rank,
        None => rank_of(Anonymity::Unknown),
    }
}

/// The anonymity level of a protocol that has one.
pub fn level(p: Protocol) -> (r: Option<Anonymity>)
    ensures
        r == level_of(p),
{
    match p {
        Protocol::Http(a) => Some(a),
        Protocol::Https(a) => Some(a),
        _ => None,
    }
}

/// Best anonymity rank across a proxy's validated types; types without an
/// anonymity level (SOCKS, CONNECT) count as `Unknown`.
pub fn proxy_anonymity_rank(proxy: &Proxy) -> (r: u8)
    ensures
        r == proxy_rank(*proxy),
{
    let types = &proxy.proxy_types;
    let mut best: Option<u8> = None;
    let mut i: usize = 0;
    assert(types@.take(0) =~= Seq::<ProxyType>::empty());
    while i < types.len()
        invariant
            i <= types.len(),
            best == best_rank(types@.take(i as int)),
        decreases types.len() - i,
    {
        assert(types@.take(i + 1).drop_last() =~= types@.take(i as int));
        let rank: u8 = match level(types[i].protocol) {
            Some(a) => a.rank(),
            None => Anonymity::Unknown.rank(),
        };
        best = match best {
            Some(b) if b >= rank => Some(b),
            _ => Some(rank),
        };
        i += 1;
    }
    assert(types@.take(types.len() as int) =~= types@);
    match best {
        Some(rank) => rank,
        None => Anonymity::Unknown.rank(),
    }
}

proof fn lemma_best_rank(types: Seq<ProxyType>)
    requires
        types.len() > 0,
    ensures
        best_rank(types) matches Some(best) && (forall|k: int|
            0 <= k < types.len() ==> protocol_rank((#[trigger] types[k]).protocol) <= best) && (
        exists|k: int|
            0 <= k < types.len() && protocol_rank((#[trigger] types[k]).protocol) == best),
    decreases types.len(),
{
    let rest = types.drop_last();
    let last = types.len() - 1;
    assert(protocol_rank(types[last].protocol) <= best_rank(types)->0);
    if rest.len() > 0 {
        lemma_best_rank(rest);
        assert forall|k: int| 0 <= k < types.len() implies protocol_rank(
            (#[trigger] types[k]).protocol,
        ) <= best_rank(types)->0 by {
            if k < last {
                assert(rest[k] == types[k]);
            }
        }
        let k = choose|k: int|
            0 <= k < rest.len() && protocol_rank((#[trigger] rest[k]).protocol) == best_rank(
                rest,
            )->0;
        assert(types[k] == rest[k]);
    }
}

/// The rank of a proxy is the best of its validated types: none of them has a
/// better one, and one of them has it. A SOCKS or CONNECT type among them has
/// no level and so makes it the highest rank there is.
pub proof fn rank_is_the_best(p: Proxy, k: int)
    requires
        0 <= k < p.proxy_types@.len(),
    ensures
        protocol_rank(p.proxy_types@[k].protocol) <= proxy_rank(p),
        exists|j: int|
            0 <= j < p.proxy_types@.len() && protocol_rank((#[trigger] p.proxy_types@[j]).protocol)
                == proxy_rank(p),
        level_of(p.proxy_types@[k].protocol) is None ==> proxy_rank(p) == rank_of(
            Anonymity::Unknown,
        ),
{
    lemma_best_rank(p.proxy_types@);
}

/// The form of a protocol without its anonymity level.
pub open spec fn family_of(p: Protocol) -> Protocol {
    match p {
        Protocol::Http(_) => Protocol::Http(Anonymity::Unknown),
        Protocol::Https(_) => Protocol::Https(Anonymity::Unknown),
        other => other,
    }
}

/// Maps any protocol to the anonymity-agnostic form of its family, so an
/// exclude-type filter naming `HTTP` also drops `HTTP:Elite` results.
pub fn protocol_family(protocol: Protocol) -> (r: Protocol)
    ensures
        r == family_of(protocol),
{
    match protocol {
        Protocol::Http(_) => Protocol::Http(Anonymity::Unknown),
        Protocol::Https(_) => Protocol::Https(Anonymity::Unknown),
        other => other,
    }
}

/// Mapping to the family twice changes nothing more.
pub proof fn family_of_a_family(p: Protocol)
    ensures
        family_of(family_of(p)) == family_of(p),
{
}

/// The protocols that a proxy is judged by: the validated ones, or the
/// advertised ones where nothing was validated.
pub open spec fn judged_types(p: Proxy) -> Seq<Protocol> {
    if p.proxy_types@.len() == 0 {
        p.expected_types@
    } else {
        p.proxy_types@.map_values(|t: ProxyType| t.protocol)
    }
}

/// Whether a protocol is of an excluded family.
pub open spec fn family_excluded(excluded: Seq<Protocol>, p: Protocol) -> bool {
    exists|i: int| 0 <= i < excluded.len() && family_of(#[trigger] excluded[i]) == family_of(p)
}

/// Whether a proxy speaks a protocol of an excluded family.
pub open spec fn excluded_proxy(excluded: Seq<Protocol>, p: Proxy) -> bool {
    exists|k: int|
        0 <= k < judged_types(p).len() && family_excluded(excluded, #[trigger] judged_types(p)[k])
}

fn names_family(excluded: &Vec<Protocol>, p: Protocol) -> (r: bool)
    ensures
        r == family_excluded(excluded@, p),
{
    let mut i: usize = 0;
    while i < excluded.len()
        invariant
            i <= excluded.len(),
            forall|j: int| 0 <= j < i ==> family_of(#[trigger] excluded@[j]) != family_of(p),
        decreases excluded.len() - i,
    {
        if protocol_family(excluded[i]) == protocol_family(p) {
            assert(family_of(excluded@[i as int]) == family_of(p));
            return true;
        }
        i += 1;
    }
    false
}

/// Whether a proxy speaks a protocol of an excluded family. Unvalidated
/// proxies are judged by their advertised types.
pub fn is_excluded(excluded: &Vec<Protocol>, proxy: &Proxy) -> (r: bool)
    ensures
        r == excluded_proxy(excluded@, *proxy),
{
    let ghost judged = judged_types(*proxy);
    let validated = proxy.proxy_types.len() > 0;
    let n: usize = if validated {
        proxy.proxy_types.len()
    } else {
        proxy.expected_types.len()
    };
    let mut i: usize = 0;
    while i < n
        invariant
            i <= n,
            validated == (proxy.proxy_types@.len() > 0),
            n == judged.len(),
            judged == judged_types(*proxy),
            forall|j: int| 0 <= j < i ==> !family_excluded(excluded@, #[trigger] judged[j]),
        decreases n - i,
    {
        let p = if validated {
            proxy.proxy_types[i].protocol
        } else {
            proxy.expected_types[i]
        };
        assert(p == judged[i as int]);
        if names_family(excluded, p) {
            return true;
        }
        i += 1;
    }
    false
}

/// An exclusion does not look at anonymity: whatever level it names, it drops
/// the same proxies.
pub proof fn exclusion_ignores_levels(a: Anonymity, b: Anonymity, p: Proxy)
    ensures
        excluded_proxy(seq![Protocol::Http(a)], p) == excluded_proxy(seq![Protocol::Http(b)], p),
        excluded_proxy(seq![Protocol::Https(a)], p) == excluded_proxy(seq![Protocol::Https(b)], p),
{
    assert forall|q: Protocol|
        #![trigger family_of(q)]
        family_excluded(seq![Protocol::Http(a)], q) == family_excluded(
            seq![Protocol::Http(b)],
            q,
        ) && family_excluded(seq![Protocol::Https(a)], q) == family_excluded(
            seq![Protocol::Https(b)],
            q,
        ) by {
        lemma_family_single(Protocol::Http(a), q);
        lemma_family_single(Protocol::Http(b), q);
        lemma_family_single(Protocol::Https(a), q);
        lemma_family_single(Protocol::Https(b), q);
    }
    let judged = judged_types(p);
    assert forall|k: int| 0 <= k < judged.len() implies family_excluded(
        seq![Protocol::Http(a)],
        #[trigger] judged[k],
    ) == family_excluded(seq![Protocol::Http(b)], judged[k]) && family_excluded(
        seq![Protocol::Https(a)],
        judged[k],
    ) == family_excluded(seq![Protocol::Https(b)], judged[k]) by {
        assert(family_of(judged[k]) == family_of(judged[k]));
    }
}

proof fn lemma_family_single(p: Protocol, q: Protocol)
    ensures
        family_excluded(seq![p], q) == (family_of(p) == family_of(q)),
{
    assert(seq![p][0] == p);
}

/// Whether the best level of a proxy is no worse than another.
pub open spec fn reaches_level(p: Proxy, min: Anonymity) -> bool {
    rank_of(min) <= proxy_rank(p)
}

/// Whether a proxy's best anonymity rank reaches `min`. SOCKS and CONNECT
/// count as `Anonymity::Unknown`, the highest rank.
pub fn filter_min_anonymity(proxy: &Proxy, min: Anonymity) -> (r: bool)
    ensures
        r == reaches_level(*proxy, min),
        r == (proxy_rank(*proxy) >= rank_of(min)),
{
    proxy_anonymity_rank(proxy) >= min.rank()
}

/// Whether one of the validated types has one of the named levels.
pub open spec fn has_level(p: Proxy, levels: Seq<Anonymity>) -> bool {
    exists|k: int|
        0 <= k < p.proxy_types@.len() && (level_of((#[trigger] p.proxy_types@[k]).protocol) matches
            Some(a) && levels.contains(a))
}

/// Whether a proxy has at least one HTTP/HTTPS type whose anonymity is in
/// `levels`.
pub fn filter_levels(proxy: &Proxy, levels: &Vec<Anonymity>) -> (r: bool)
    ensures
        r == has_level(*proxy, levels@),
{
    let types = &proxy.proxy_types;
    let mut i: usize = 0;
    while i < types.len()
        invariant
            i <= types.len(),
            types@ == proxy.proxy_types@,
            forall|k: int|
                0 <= k < i ==> !(level_of((#[trigger] types@[k]).protocol) matches Some(a)
                    && levels@.contains(a)),
        decreases types.len() - i,
    {
        if let Some(a) = level(types[i].protocol) {
            let mut j: usize = 0;
            while j < levels.len()
                invariant
                    j <= levels.len(),
                    i < types.len(),
                    types@ == proxy.proxy_types@,
                    level_of(types@[i as int].protocol) == Some(a),
                    forall|m: int| 0 <= m < j ==> levels@[m] != a,
                decreases levels.len() - j,
            {
                if levels[j] == a {
                    assert(levels@[j as int] == a);
                    assert(level_of(proxy.proxy_types@[i as int].protocol) == Some(a));
                    return true;
                }
                j += 1;
            }
        }
        i += 1;
    }
    false
}

/// Whether a mean is so many microseconds or more.
pub open spec fn is_slow(m: Mean, micros: int) -> bool {
    m.total >= micros * m.count
}

/// Whether a mean is so many microseconds or less.
pub open spec fn is_fast(m: Mean, micros: int) -> bool {
    m.total <= micros * m.count
}

/// Whether a proxy's average response time is at least so many microseconds.
pub fn filter_min_response_time(proxy: &Proxy, micros: u64) -> (r: bool)
    requires
        proxy.wf(),
    ensures
        r == is_slow(average(proxy.runtimes), micros as int),
        r == (average(proxy.runtimes).total >= micros * average(proxy.runtimes).count),
{
    proxy.avg_response_time().at_least(micros)
}

/// Whether a proxy's average response time is at most so many microseconds.
pub fn filter_max_response_time(proxy: &Proxy, micros: u64) -> (r: bool)
    requires
        proxy.wf(),
    ensures
        r == is_fast(average(proxy.runtimes), micros as int),
        r == (average(proxy.runtimes).total <= micros * average(proxy.runtimes).count),
{
    proxy.avg_response_time().at_most(micros)
}

/// Where a proxy is fast enough, so is every one that comes no later in the
/// order of mean response times.
pub proof fn faster_ones_pass_too(a: Proxy, b: Proxy, micros: u64)
    requires
        a.wf(),
        b.wf(),
        average(b.runtimes).total <= micros * average(b.runtimes).count,
        !ratio_less(
            average(b.runtimes).total,
            average(b.runtimes).count,
            average(a.runtimes).total,
            average(a.runtimes).count,
        ),
    ensures
        average(a.runtimes).total <= micros * average(a.runtimes).count,
{
    let (s, c) = (average(a.runtimes).total as int, average(a.runtimes).count as int);
    let (t, d) = (average(b.runtimes).total as int, average(b.runtimes).count as int);
    let m = micros as int;
    assert(s <= m * c) by (nonlinear_arith)
        requires
            t <= m * d,
            s * d <= t * c,
            c > 0,
            d > 0,
    {
        assert(t * c <= (m * d) * c);
        assert((m * c) * d == (m * d) * c);
        assert(s * d <= (m * c) * d);
    }
}

// ---------------------------------------------------------------------------
// Sorting
// ---------------------------------------------------------------------------

/// Whether a key is the one that a proxy is ordered by.
pub open spec fn is_key(k: Key, p: Proxy, by: SortKey) -> bool {
    match by {
        SortKey::AvgResponseTime => k matches Key::Ratio(n, d) && n == average(p.runtimes).total && d
            == average(p.runtimes).count,
        SortKey::Country => k matches Key::Text(t) && same_text(t, p.geo.iso_code),
        SortKey::Anonymity => k matches Key::Number(n) && n == proxy_rank(p),
    }
}

/// Whether keys are those that proxies are ordered by.
pub open spec fn are_keys(keys: Seq<Key>, proxies: Seq<Proxy>, by: SortKey) -> bool {
    &&& keys.len() == proxies.len()
    &&& forall|i: int| 0 <= i < keys.len() ==> is_key(#[trigger] keys[i], proxies[i], by)
}

/// Whether the second list holds the proxies of the first in the order of
/// their keys, equal ones as they came.
pub open spec fn sorted_from(before: Seq<Proxy>, after: Seq<Proxy>, by: SortKey) -> bool {
    exists|keys: Seq<Key>, order: Seq<usize>| #[trigger]
        sorted_by(before, after, by, keys, order)
}

/// Whether a list was put in an order that keys call for.
pub open spec fn sorted_by(
    before: Seq<Proxy>,
    after: Seq<Proxy>,
    by: SortKey,
    keys: Seq<Key>,
    order: Seq<usize>,
) -> bool {
    &&& are_keys(keys, before, by)
    &&& order.len() == before.len()
    &&& distinct_below(order, before.len() as int)
    &&& in_order(order, keys, false)
    &&& after.len() == before.len()
    &&& forall|i: int| 0 <= i < after.len() ==> (#[trigger] after[i]) == before[order[i] as int]
}

fn sort_keys(proxies: &Vec<Proxy>, by: SortKey) -> (keys: Vec<Key>)
    requires
        forall|i: int| 0 <= i < proxies@.len() ==> (#[trigger] proxies@[i]).wf(),
    ensures
        are_keys(keys@, proxies@, by),
{
    let mut keys: Vec<Key> = Vec::new();
    let mut i: usize = 0;
    while i < proxies.len()
        invariant
            i <= proxies.len(),
            keys@.len() == i,
            forall|j: int| 0 <= j < proxies@.len() ==> (#[trigger] proxies@[j]).wf(),
            forall|j: int| 0 <= j < i ==> is_key(#[trigger] keys@[j], proxies@[j], by),
        decreases proxies.len() - i,
    {
        assert(proxies@[i as int].wf());
        let key = match by {
            SortKey::AvgResponseTime => {
                let mean = proxies[i].avg_response_time();
                Key::Ratio(mean.total, mean.count)
            },
            SortKey::Country => Key::Text(copy_text(&proxies[i].geo.iso_code)),
            SortKey::Anonymity => Key::Number(proxy_anonymity_rank(&proxies[i]) as u64),
        };
        keys.push(key);
        i += 1;
    }
    keys
}

/// The positions of so many items, in order.
pub(crate) fn positions(n: usize) -> (v: Vec<usize>)
    ensures
        v@.len() == n,
        forall|i: int| 0 <= i < n ==> (#[trigger] v@[i]) == i,
{
    let mut v: Vec<usize> = Vec::new();
    let mut i: usize = 0;
    while i < n
        invariant
            i <= n,
            v@.len() == i,
            forall|j: int| 0 <= j < i ==> (#[trigger] v@[j]) == j,
        decreases n - i,
    {
        v.push(i);
        i += 1;
    }
    v
}

/// Takes items out in the order of some positions.
fn arrange(items: Vec<Proxy>, order: &Vec<usize>) -> (r: Vec<Proxy>)
    requires
        distinct_below(order@, items@.len() as int),
    ensures
        r@.len() == order@.len(),
        forall|i: int| 0 <= i < r@.len() ==> (#[trigger] r@[i]) == items@[order@[i] as int],
{
    let mut slots: Vec<Option<Proxy>> = Vec::new();
    for p in it: items
        invariant
            slots@.len() == it.index(),
            forall|j: int| 0 <= j < it.index() ==> (#[trigger] slots@[j]) == Some(it.seq()[j]),
    {
        slots.push(Some(p));
    }
    let mut r: Vec<Proxy> = Vec::new();
    let mut i: usize = 0;
    while i < order.len()
        invariant
            i <= order.len(),
            r@.len() == i,
            slots@.len() == items@.len(),
            distinct_below(order@, items@.len() as int),
            forall|j: int| 0 <= j < i ==> (#[trigger] r@[j]) == items@[order@[j] as int],
            forall|k: int|
                0 <= k < slots@.len() && !order@.take(i as int).contains(k as usize) ==> (
                #[trigger] slots@[k]) == Some(items@[k]),
        decreases order.len() - i,
    {
        let k: usize = order[i];
        proof {
            if order@.take(i as int).contains(k) {
                let j = choose|j: int| 0 <= j < i && order@.take(i as int)[j] == k;
                assert(order@[j] == order@[i as int]);
            }
            assert(slots@[k as int] == Some(items@[k as int]));
        }
        let ghost before = slots@;
        let taken = slots[k].take();
        if let Some(p) = taken {
            r.push(p);
        }
        proof {
            assert forall|m: int|
                0 <= m < slots@.len() && !order@.take(i + 1).contains(m as usize) implies (
            #[trigger] slots@[m]) == Some(items@[m]) by {
                assert(order@.take(i + 1)[i as int] == k);
                assert(m != k);
                if order@.take(i as int).contains(m as usize) {
                    let j = choose|j: int| 0 <= j < i && order@.take(i as int)[j] == m as usize;
                    assert(order@.take(i + 1)[j] == m as usize);
                }
                assert(slots@[m] == before[m]);
            }
        }
        i += 1;
    }
    r
}

fn reverse(items: Vec<Proxy>) -> (r: Vec<Proxy>)
    ensures
        r@ == items@.reverse(),
{
    let n: usize = items.len();
    let mut order: Vec<usize> = Vec::new();
    let mut i: usize = 0;
    while i < n
        invariant
            i <= n,
            order@.len() == i,
            forall|j: int| 0 <= j < i ==> (#[trigger] order@[j]) == n - 1 - j,
        decreases n - i,
    {
        order.push(n - 1 - i);
        i += 1;
    }
    let r = arrange(items, &order);
    assert(r@ =~= items@.reverse());
    r
}

/// Sorts proxies in place by `key`. Equal ones keep their order; downwards is
/// upwards turned round.
pub fn sort_proxies(proxies: &mut Vec<Proxy>, key: SortKey, order: SortOrder)
    requires
        forall|i: int| 0 <= i < old(proxies)@.len() ==> (#[trigger] old(proxies)@[i]).wf(),
    ensures
        match order {
            SortOrder::Asc => sorted_from(old(proxies)@, final(proxies)@, key),
            SortOrder::Desc => sorted_from(old(proxies)@, final(proxies)@.reverse(), key),
        },
{
    let ghost before = proxies@;
    let keys = sort_keys(proxies, key);
    let all = positions(proxies.len());
    let places = sort_positions(&keys, false, &all);
    proof {
        crate::order::lemma_same_items(all@, places@, proxies@.len() as int);
    }
    let mut items: Vec<Proxy> = Vec::new();
    std::mem::swap(proxies, &mut items);
    let sorted = arrange(items, &places);
    assert(sorted_by(before, sorted@, key, keys@, places@));
    match order {
        SortOrder::Asc => {
            *proxies = sorted;
        },
        SortOrder::Desc => {
            let turned = reverse(sorted);
            assert(turned@.reverse() =~= sorted@);
            *proxies = turned;
        },
    }
}

// ---------------------------------------------------------------------------
// Shuffling
// ---------------------------------------------------------------------------

/// Stands in for a clock that cannot be read, and for a state of zero.
pub const XSHIFT_GOLDEN: u64 = 0x9e37_79b9_7f4a_7c15;

/// The state behind a state of the generator.
pub open spec fn xorshift(state: u64) -> u64 {
    let a = state ^ (state << 13u64);
    let b = a ^ (a >> 7u64);
    b ^ (b << 17u64)
}

/// The first state, from the clock in nanoseconds and the process id.
pub open spec fn first_state(nanos: Option<u64>, pid: u32) -> u64 {
    let clock = match nanos {
        Some(n) => n,
        None => XSHIFT_GOLDEN,
    };
    let state = clock ^ (pid as u64);
    if state == 0 {
        XSHIFT_GOLDEN
    } else {
        state
    }
}

/// A list with two places exchanged.
pub open spec fn swapped<T>(s: Seq<T>, i: int, j: int) -> Seq<T> {
    s.update(i, s[j]).update(j, s[i])
}

/// A list shuffled from place `i` down: each place is exchanged with one at or
/// below it that the generator names.
pub open spec fn shuffled<T>(s: Seq<T>, state: u64, i: int) -> Seq<T>
    decreases i,
{
    if i <= 0 {
        s
    } else {
        let next = xorshift(state);
        shuffled(swapped(s, i, next as int % (i + 1)), next, i - 1)
    }
}

/// The first state of the generator.
pub fn shuffle_seed(nanos: Option<u64>, pid: u32) -> (r: u64)
    ensures
        r == first_state(nanos, pid),
{
    let clock: u64 = match nanos {
        Some(n) => n,
        None => XSHIFT_GOLDEN,
    };
    let state: u64 = clock ^ (pid as u64);
    if state == 0 {
        XSHIFT_GOLDEN
    } else {
        state
    }
}

/// Fisher-Yates shuffle driven by a xorshift64 generator.
pub fn shuffle_proxies(proxies: &mut Vec<Proxy>, seed: u64)
    ensures
        final(proxies)@ == shuffled(old(proxies)@, seed, old(proxies)@.len() - 1),
{
    let ghost before = proxies@;
    let n: usize = proxies.len();
    if n < 2 {
        return;
    }
    let mut order = positions(n);
    let ghost start = order@;
    let mut state: u64 = seed;
    let mut i: usize = n - 1;
    while i > 0
        invariant
            i < n,
            order@.len() == n,
            shuffled(order@, state, i as int) == shuffled(start, seed, n - 1),
            distinct_below(order@, n as int),
        decreases i,
    {
        let a: u64 = state ^ (state << 13u64);
        let b: u64 = a ^ (a >> 7u64);
        state = b ^ (b << 17u64);
        let j: usize = (state % (i as u64 + 1)) as usize;
        let ghost old_order = order@;
        let x: usize = order[i];
        let y: usize = order[j];
        order.set(i, y);
        order.set(j, x);
        assert(order@ =~= swapped(old_order, i as int, j as int));
        i -= 1;
    }
    let mut items: Vec<Proxy> = Vec::new();
    std::mem::swap(proxies, &mut items);
    let r = arrange(items, &order);
    proof {
        lemma_shuffle_map(start, before, seed, n - 1);
        assert(r@ =~= order@.map_values(|k: usize| before[k as int]));
        assert(start.map_values(|k: usize| before[k as int]) =~= before);
    }
    *proxies = r;
}

/// A shuffle exchanges places, whatever stands there.
proof fn lemma_shuffle_map(s: Seq<usize>, items: Seq<Proxy>, state: u64, i: int)
    requires
        i < s.len(),
    ensures
        shuffled(s, state, i).map_values(|k: usize| items[k as int]) == shuffled(
            s.map_values(|k: usize| items[k as int]),
            state,
            i,
        ),
    decreases i,
{
    let f = |k: usize| items[k as int];
    if i > 0 {
        let next = xorshift(state);
        let j = next as int % (i + 1);
        assert(0 <= j <= i) by {
            vstd::arithmetic::div_mod::lemma_mod_bound(next as int, i + 1);
        }
        lemma_shuffle_map(swapped(s, i, j), items, next, i - 1);
        assert(swapped(s, i, j).map_values(f) =~= swapped(s.map_values(f), i, j));
    }
}

/// A shuffle keeps every item.
pub proof fn shuffle_keeps_everything<T>(s: Seq<T>, state: u64, i: int)
    requires
        i < s.len(),
    ensures
        shuffled(s, state, i).to_multiset() == s.to_multiset(),
        shuffled(s, state, i).len() == s.len(),
    decreases i,
{
    broadcast use vstd::seq_lib::group_to_multiset_ensures;

    if i > 0 {
        let next = xorshift(state);
        let j = next as int % (i + 1);
        assert(0 <= j <= i) by {
            vstd::arithmetic::div_mod::lemma_mod_bound(next as int, i + 1);
        }
        let t = swapped(s, i, j);
        shuffle_keeps_everything(t, next, i - 1);
        assert(t.to_multiset() =~= s.to_multiset());
    }
}

/// Two protocols are of one family where they differ in their level at most.
pub proof fn families_are_kinds(a: Protocol, b: Protocol)
    ensures
        family_of(a) == family_of(b) <==> (a is Http && b is Http) || (a is Https && b is Https)
            || a == b,
{
}

/// A proxy is excluded exactly where one of its validated types is of an
/// excluded family, or, where nothing was validated, one of its advertised
/// types.
pub proof fn excluded_families_are_dropped(excluded: Seq<Protocol>, p: Proxy)
    ensures
        p.proxy_types@.len() > 0 ==> (excluded_proxy(excluded, p) <==> exists|k: int, i: int|
            0 <= k < p.proxy_types@.len() && 0 <= i < excluded.len() && family_of(
                (#[trigger] p.proxy_types@[k]).protocol,
            ) == family_of(#[trigger] excluded[i])),
        p.proxy_types@.len() == 0 ==> (excluded_proxy(excluded, p) <==> exists|k: int, i: int|
            0 <= k < p.expected_types@.len() && 0 <= i < excluded.len() && family_of(
                #[trigger] p.expected_types@[k],
            ) == family_of(#[trigger] excluded[i])),
        !excluded_proxy(Seq::empty(), p),
{
    let types = judged_types(p);
    if p.proxy_types@.len() > 0 {
        assert(forall|k: int|
            0 <= k < types.len() ==> #[trigger] types[k] == p.proxy_types@[k].protocol);
        if excluded_proxy(excluded, p) {
            let k = choose|k: int|
                0 <= k < types.len() && family_excluded(excluded, #[trigger] types[k]);
            let i = choose|i: int|
                0 <= i < excluded.len() && family_of(#[trigger] excluded[i]) == family_of(types[k]);
            assert(family_of(p.proxy_types@[k].protocol) == family_of(excluded[i]));
        }
        if exists|k: int, i: int|
            0 <= k < p.proxy_types@.len() && 0 <= i < excluded.len() && family_of(
                (#[trigger] p.proxy_types@[k]).protocol,
            ) == family_of(#[trigger] excluded[i]) {
            let (k, i) = choose|k: int, i: int|
                0 <= k < p.proxy_types@.len() && 0 <= i < excluded.len() && family_of(
                    (#[trigger] p.proxy_types@[k]).protocol,
                ) == family_of(#[trigger] excluded[i]);
            assert(family_excluded(excluded, types[k]));
        }
    } else {
        if excluded_proxy(excluded, p) {
            let k = choose|k: int|
                0 <= k < types.len() && family_excluded(excluded, #[trigger] types[k]);
            let i = choose|i: int|
                0 <= i < excluded.len() && family_of(#[trigger] excluded[i]) == family_of(types[k]);
            assert(family_of(p.expected_types@[k]) == family_of(excluded[i]));
        }
        if exists|k: int, i: int|
            0 <= k < p.expected_types@.len() && 0 <= i < excluded.len() && family_of(
                #[trigger] p.expected_types@[k],
            ) == family_of(#[trigger] excluded[i]) {
            let (k, i) = choose|k: int, i: int|
                0 <= k < p.expected_types@.len() && 0 <= i < excluded.len() && family_of(
                    #[trigger] p.expected_types@[k],
                ) == family_of(#[trigger] excluded[i]);
            assert(family_excluded(excluded, types[k]));
        }
    }
}

/// A proxy passes by a level where a validated HTTP or HTTPS type has it; its
/// other types do not count.
pub proof fn levels_are_asked_for(p: Proxy, k: int, a: Anonymity, levels: Seq<Anonymity>)
    requires
        0 <= k < p.proxy_types@.len(),
    ensures
        p.proxy_types@[k].protocol == Protocol::Http(a) && levels.contains(a) ==> has_level(
            p,
            levels,
        ),
        p.proxy_types@[k].protocol == Protocol::Https(a) && levels.contains(a) ==> has_level(
            p,
            levels,
        ),
        has_level(p, levels) ==> exists|j: int|
            0 <= j < p.proxy_types@.len() && match (#[trigger] p.proxy_types@[j]).protocol {
                Protocol::Http(b) => levels.contains(b),
                Protocol::Https(b) => levels.contains(b),
                _ => false,
            },
        !has_level(p, Seq::empty()),
{
    let t = p.proxy_types@[k];
    if has_level(p, levels) {
        let j = choose|j: int|
            0 <= j < p.proxy_types@.len() && (level_of((#[trigger] p.proxy_types@[j]).protocol)
                matches Some(b) && levels.contains(b));
        assert(level_of(p.proxy_types@[j].protocol) is Some);
    }
}

/// A sorted list is in order by what it is sorted by: no later proxy has the
/// lesser mean response time, the earlier country code or the lower rank.
pub proof fn sorted_lists_are_in_order(
    before: Seq<Proxy>,
    after: Seq<Proxy>,
    by: SortKey,
    i: int,
    j: int,
)
    requires
        sorted_from(before, after, by),
        forall|k: int| 0 <= k < before.len() ==> (#[trigger] before[k]).wf(),
        0 <= i < j < after.len(),
    ensures
        by == SortKey::AvgResponseTime ==> average(after[i].runtimes).total * average(
            after[j].runtimes,
        ).count <= average(after[j].runtimes).total * average(after[i].runtimes).count,
        by == SortKey::Anonymity ==> proxy_rank(after[i]) <= proxy_rank(after[j]),
        by == SortKey::Country ==> (after[j].geo.iso_code matches Some(late) ==> (
        after[i].geo.iso_code matches Some(early) ==> !text_less(late@, early@))),
        by == SortKey::Country && after[j].geo.iso_code is None ==> after[i].geo.iso_code is None,
        before.len() == after.len(),
        exists|k: int| 0 <= k < before.len() && after[i] == #[trigger] before[k],
{
    let (keys, order) = choose|keys: Seq<Key>, order: Seq<usize>| #[trigger]
        sorted_by(before, after, by, keys, order);
    let a = order[i] as int;
    let b = order[j] as int;
    positions_follow_their_keys(order, keys, false, i, j);
    assert(after[i] == before[a] && after[j] == before[b]);
    assert(is_key(keys[a], before[a], by) && is_key(keys[b], before[b], by));
}

/// Sorting keeps every proxy, and those that are alike in the order in which
/// they came.
pub proof fn sorting_keeps_every_proxy(
    before: Seq<Proxy>,
    after: Seq<Proxy>,
    by: SortKey,
    k: int,
)
    requires
        sorted_from(before, after, by),
        0 <= k < before.len(),
    ensures
        after.contains(before[k]),
        after.len() == before.len(),
{
    let (keys, order) = choose|keys: Seq<Key>, order: Seq<usize>| #[trigger]
        sorted_by(before, after, by, keys, order);
    lemma_hits_everything(order, before.len() as int, k);
    let i = choose|i: int| 0 <= i < order.len() && order[i] == k;
    assert(after[i] == before[k]);
}

proof fn lemma_hits_everything(order: Seq<usize>, n: int, k: int)
    requires
        distinct_below(order, n),
        order.len() == n,
        0 <= k < n,
    ensures
        exists|i: int| 0 <= i < order.len() && order[i] == k,
{
    let all = vstd::set_lib::set_int_range(0, n);
    let ints = order.map_values(|x: usize| x as int);
    vstd::set_lib::lemma_int_range(0, n);
    assert(ints.no_duplicates()) by {
        assert forall|a: int, b: int|
            0 <= a < ints.len() && 0 <= b < ints.len() && a != b implies ints[a] != ints[b] by {
            assert(order[a] != order[b]);
        }
    }
    ints.unique_seq_to_set();
    assert(ints.to_set().subset_of(all)) by {
        assert forall|x: int| ints.to_set().contains(x) implies all.contains(x) by {
            let a = choose|a: int| 0 <= a < ints.len() && ints[a] == x;
            assert(order[a] < n);
        }
    }
    vstd::set_lib::lemma_subset_equality(ints.to_set(), all);
    assert(ints.to_set().contains(k));
    let a = choose|a: int| 0 <= a < ints.len() && ints[a] == k;
    assert(order[a] == k);
}

/// The last place of a shuffled list is given the item that the generator
/// names; what is left is shuffled on with its next state.
pub proof fn shuffles_follow_the_generator<T>(s: Seq<T>, state: u64, i: int)
    requires
        0 < i < s.len(),
    ensures
        shuffled(s, state, i)[i] == s[xorshift(state) as int % (i + 1)],
        forall|k: int| i < k < s.len() ==> #[trigger] shuffled(s, state, i)[k] == s[k],
        shuffled(s, state, 0) == s,
{
    let next = xorshift(state);
    let t = swapped(s, i, next as int % (i + 1));
    assert(0 <= next as int % (i + 1) <= i);
    lemma_shuffle_above(t, next, i - 1);
}

proof fn lemma_shuffle_above<T>(s: Seq<T>, state: u64, i: int)
    requires
        i < s.len(),
    ensures
        shuffled(s, state, i).len() == s.len(),
        forall|k: int| i < k < s.len() ==> #[trigger] shuffled(s, state, i)[k] == s[k],
    decreases i,
{
    if i > 0 {
        let next = xorshift(state);
        let j = next as int % (i + 1);
        assert(0 <= j <= i);
        lemma_shuffle_above(swapped(s, i, j), next, i - 1);
    }
}

/// The generator never comes to a stop, and neither does it start at one; a
/// clock that can be read and the process tell its start.
pub proof fn the_generator_goes_on(state: u64, nanos: u64, pid: u32)
    ensures
        state != 0 ==> xorshift(state) != 0,
        first_state(Some(nanos), pid) != 0,
        first_state(None, pid) != 0,
        nanos ^ (pid as u64) != 0 ==> first_state(Some(nanos), pid) == nanos ^ (pid as u64),
{
    let a = state ^ (state << 13u64);
    let b = a ^ (a >> 7u64);
    assert(state != 0 ==> state ^ (state << 13u64) != 0) by (bit_vector);
    assert(a != 0 ==> a ^ (a >> 7u64) != 0) by (bit_vector);
    assert(b != 0 ==> b ^ (b << 17u64) != 0) by (bit_vector);
}

/// A proxy reaches a level where one of its validated types does, and does not
/// where none of them does. A type without levels reaches all of them, and so
/// does a proxy of which nothing was validated.
pub proof fn one_type_reaches_the_level(p: Proxy, k: int, min: Anonymity)
    ensures
        p.proxy_types@.len() == 0 ==> reaches_level(p, min),
        0 <= k < p.proxy_types@.len() && level_of(p.proxy_types@[k].protocol) is None
            ==> reaches_level(p, min),
        0 <= k < p.proxy_types@.len() && level_of(p.proxy_types@[k].protocol) is Some && rank_of(
            level_of(p.proxy_types@[k].protocol)->0,
        ) >= rank_of(min) ==> reaches_level(p, min),
        p.proxy_types@.len() > 0 && (forall|j: int|
            0 <= j < p.proxy_types@.len() ==> level_of((#[trigger] p.proxy_types@[j]).protocol)
                is Some && rank_of(level_of(p.proxy_types@[j].protocol)->0) < rank_of(min))
            ==> !reaches_level(p, min),
        rank_of(Anonymity::Transparent) < rank_of(Anonymity::Anonymous) < rank_of(Anonymity::Elite)
            < rank_of(Anonymity::Unknown),
{
    if p.proxy_types@.len() > 0 {
        lemma_best_rank(p.proxy_types@);
        let j = choose|j: int|
            0 <= j < p.proxy_types@.len() && protocol_rank((#[trigger] p.proxy_types@[j]).protocol)
                == best_rank(p.proxy_types@)->0;
        assert(0 <= j < p.proxy_types@.len());
    }
}

/// A mean is held against a bound by its value: one of whole microseconds is
/// slow from the bound on and fast up to it, and what is above a whole counts.
pub proof fn means_are_held_against_bounds(m: Mean, whole: int, above: int, micros: int)
    requires
        m.count > 0,
        m.total == whole * m.count + above,
        0 <= above < m.count,
    ensures
        is_slow(m, micros) <==> whole >= micros,
        is_fast(m, micros) <==> whole < micros || (whole == micros && above == 0),
{
    let n = m.count as int;
    let t = m.total as int;
    if whole >= micros {
        assert(t >= micros * n) by (nonlinear_arith)
            requires
                t == whole * n + above,
                above >= 0,
                whole >= micros,
                n > 0,
        ;
    } else {
        assert(t < micros * n) by (nonlinear_arith)
            requires
                t == whole * n + above,
                above < n,
                whole + 1 <= micros,
                n > 0,
        ;
    }
    if whole > micros {
        assert(t > micros * n) by (nonlinear_arith)
            requires
                t == whole * n + above,
                above >= 0,
                whole >= micros + 1,
                n > 0,
        ;
    }
}

} // verus!
