//! The rotating pool of validated proxies.

use crate::proxy::models::{same_proxy, Proxy};
use crate::rotator::{Strategy, COOLDOWN, MAX_CONSECUTIVE_FAILURES, MAX_POOL_SIZE};
use crate::text::same;
use std::collections::hash_map::RandomState;
use std::hash::BuildHasher;
use vstd::prelude::*;

verus! {

/// A pooled proxy and its health.
pub struct PoolEntry {
    pub proxy: Proxy,
    /// Failures since the last success.
    pub failures: u32,
    /// The moment, in milliseconds, until which the proxy rests.
    pub cooldown_until: Option<u64>,
}

/// Whether a pooled proxy may be picked at a moment.
pub open spec fn available(e: PoolEntry, now: u64) -> bool {
    e.cooldown_until matches Some(until) ==> now >= until
}

impl PoolEntry {
    /// Whether the proxy may be picked at a moment.
    pub fn is_available(&self, now: u64) -> (r: bool)
        ensures
            r == available(*self, now),
    {
        match self.cooldown_until {
            Some(until) => now >= until,
            None => true,
        }
    }
}

/// Pool of validated proxies with rotation and health tracking.
pub struct RotatorPool {
    pub entries: Vec<PoolEntry>,
    pub cursor: usize,
    pub strategy: Strategy,
}

/// The position of the entry with a text form, or the number of entries.
pub open spec fn entry_at(entries: Seq<PoolEntry>, text: Seq<char>) -> int
    decreases entries.len(),
{
    if entries.len() == 0 || entries[0].proxy.as_text_spec() == text {
        0
    } else {
        1 + entry_at(entries.drop_first(), text)
    }
}

/// How many entries may be picked at a moment.
pub open spec fn ready_count(entries: Seq<PoolEntry>, now: u64) -> nat
    decreases entries.len(),
{
    if entries.len() == 0 {
        0
    } else {
        ready_count(entries.drop_last(), now) + (if available(entries.last(), now) {
            1nat
        } else {
            0nat
        })
    }
}

/// The first position from `start` on, around the pool, that may be picked at
/// a moment; the first `k` were passed over.
pub open spec fn scan(entries: Seq<PoolEntry>, start: int, k: int, now: u64) -> Option<int>
    decreases entries.len() - k,
{
    if k < 0 || k >= entries.len() {
        None
    } else {
        let i = (start + k) % entries.len() as int;
        if available(entries[i], now) {
            Some(i)
        } else {
            scan(entries, start, k + 1, now)
        }
    }
}

/// An entry that another failure was counted on.
pub open spec fn failed_entry(e: PoolEntry, now: u64) -> PoolEntry {
    PoolEntry {
        failures: (e.failures + 1) as u32,
        cooldown_until: Some((now + COOLDOWN) as u64),
        ..e
    }
}

/// An entry that worked.
pub open spec fn healthy_entry(e: PoolEntry) -> PoolEntry {
    PoolEntry { failures: 0, cooldown_until: None, ..e }
}

/// The entries once a failure was reported: the proxy rests, or leaves the
/// pool where it failed too often, and those behind it move up.
pub open spec fn after_failure(entries: Seq<PoolEntry>, text: Seq<char>, now: u64) -> Seq<
    PoolEntry,
> {
    let i = entry_at(entries, text);
    if i >= entries.len() {
        entries
    } else if entries[i].failures + 1 >= MAX_CONSECUTIVE_FAILURES {
        entries.remove(i)
    } else {
        entries.update(i, failed_entry(entries[i], now))
    }
}

/// The entries once a success was reported.
pub open spec fn after_success(entries: Seq<PoolEntry>, text: Seq<char>) -> Seq<PoolEntry> {
    let i = entry_at(entries, text);
    if i >= entries.len() {
        entries
    } else {
        entries.update(i, healthy_entry(entries[i]))
    }
}

pub proof fn lemma_entry_at(entries: Seq<PoolEntry>, text: Seq<char>, i: int)
    requires
        0 <= i <= entries.len(),
        forall|j: int| 0 <= j < i ==> (#[trigger] entries[j]).proxy.as_text_spec() != text,
        i < entries.len() ==> entries[i].proxy.as_text_spec() == text,
    ensures
        entry_at(entries, text) == i,
    decreases entries.len(),
{
    if entries.len() > 0 && i > 0 {
        assert(entries[0].proxy.as_text_spec() != text);
        let rest = entries.drop_first();
        assert forall|j: int| 0 <= j < i - 1 implies (#[trigger] rest[j]).proxy.as_text_spec()
            != text by {
            assert(rest[j] == entries[j + 1]);
        }
        lemma_entry_at(rest, text, i - 1);
    }
}

/// Entries within the cap, no endpoint twice, none failed too often.
pub open spec fn sound_entries(entries: Seq<PoolEntry>) -> bool {
    &&& entries.len() <= MAX_POOL_SIZE
    &&& forall|i: int, j: int|
        0 <= i < j < entries.len() ==> (#[trigger] entries[i]).proxy.as_text_spec() != (
        #[trigger] entries[j]).proxy.as_text_spec()
    &&& forall|i: int|
        0 <= i < entries.len() ==> (#[trigger] entries[i]).failures < MAX_CONSECUTIVE_FAILURES
}

/// `RandomState::new`: a hasher state with keys of its own.
#[verifier::external_body]
fn fresh_state() -> (r: RandomState) {
    RandomState::new()
}

/// `BuildHasher::hash_one`: the hash of a number, which rests on the keys of
/// the state.
#[verifier::external_body]
fn hash_of_one(state: &RandomState, number: usize) -> (r: u64) {
    state.hash_one(number)
}

/// A random number below a limit.
pub fn random_below(total: usize) -> (r: usize)
    requires
        total > 0,
    ensures
        r < total,
{
    (hash_of_one(&fresh_state(), total) % total as u64) as usize
}

impl RotatorPool {
    /// The pool is within its cap, holds no endpoint twice, and nothing that
    /// failed too often.
    pub open spec fn wf(self) -> bool {
        sound_entries(self.entries@)
    }

    /// An empty pool.
    pub fn new(strategy: Strategy) -> (p: Self)
        ensures
            p.wf(),
            p.entries@.len() == 0,
            p.cursor == 0,
            p.strategy == strategy,
    {
        RotatorPool { entries: Vec::new(), cursor: 0, strategy }
    }

    fn position(&self, text: &str) -> (i: usize)
        ensures
            i == entry_at(self.entries@, text@),
            i <= self.entries@.len(),
            i < self.entries@.len() ==> self.entries@[i as int].proxy.as_text_spec() == text@,
            forall|j: int|
                0 <= j < i ==> (#[trigger] self.entries@[j]).proxy.as_text_spec() != text@,
    {
        let mut i: usize = 0;
        while i < self.entries.len() && !same(self.entries[i].proxy.as_text(), text)
            invariant
                i <= self.entries@.len(),
                forall|j: int|
                    0 <= j < i ==> (#[trigger] self.entries@[j]).proxy.as_text_spec() != text@,
            decreases self.entries@.len() - i,
        {
            i += 1;
        }
        proof {
            lemma_entry_at(self.entries@, text@, i as int);
        }
        i
    }

    /// Adds a proxy, rejecting duplicates and entries beyond the pool cap.
    pub fn add(&mut self, proxy: Proxy) -> (added: bool)
        requires
            old(self).wf(),
        ensures
            final(self).wf(),
            final(self).cursor == old(self).cursor,
            final(self).strategy == old(self).strategy,
            added == (old(self).entries@.len() < MAX_POOL_SIZE && entry_at(
                old(self).entries@,
                proxy.as_text_spec(),
            ) == old(self).entries@.len()),
            added ==> final(self).entries@ == old(self).entries@.push(
                PoolEntry { proxy, failures: 0, cooldown_until: None },
            ),
            !added ==> final(self).entries@ == old(self).entries@,
    {
        if self.entries.len() >= MAX_POOL_SIZE {
            return false;
        }
        if self.position(proxy.as_text()) < self.entries.len() {
            return false;
        }
        self.entries.push(PoolEntry { proxy, failures: 0, cooldown_until: None });
        true
    }

    /// Number of pooled proxies.
    pub fn len(&self) -> (n: usize)
        ensures
            n == self.entries@.len(),
    {
        self.entries.len()
    }

    /// Whether nothing is pooled.
    pub fn is_empty(&self) -> (r: bool)
        ensures
            r == (self.entries@.len() == 0),
    {
        self.entries.len() == 0
    }

    /// Number of proxies outside their failure cooldown.
    pub fn ready(&self, now: u64) -> (n: usize)
        requires
            self.wf(),
        ensures
            n == ready_count(self.entries@, now),
    {
        let mut n: usize = 0;
        let mut i: usize = 0;
        assert(self.entries@.take(0) =~= Seq::<PoolEntry>::empty());
        while i < self.entries.len()
            invariant
                i <= self.entries@.len(),
                n <= i,
                n == ready_count(self.entries@.take(i as int), now),
            decreases self.entries@.len() - i,
        {
            assert(self.entries@.take(i + 1).drop_last() =~= self.entries@.take(i as int));
            if self.entries[i].is_available(now) {
                n += 1;
            }
            i += 1;
        }
        assert(self.entries@.take(self.entries@.len() as int) =~= self.entries@);
        n
    }

    /// Picks the first available proxy from a position on, around the pool.
    pub fn pick_from(&self, start: usize, now: u64) -> (r: Option<usize>)
        requires
            self.wf(),
            start < self.entries@.len(),
        ensures
            match r {
                Some(i) => scan(self.entries@, start as int, 0, now) == Some(i as int) && i
                    < self.entries@.len(),
                None => scan(self.entries@, start as int, 0, now) is None,
            },
    {
        let total: usize = self.entries.len();
        let mut k: usize = 0;
        while k < total
            invariant
                k <= total,
                total == self.entries@.len(),
                total <= MAX_POOL_SIZE,
                start < total,
                scan(self.entries@, start as int, k as int, now) == scan(
                    self.entries@,
                    start as int,
                    0,
                    now,
                ),
            decreases total - k,
        {
            let i: usize = (start + k) % total;
            if self.entries[i].is_available(now) {
                return Some(i);
            }
            k += 1;
        }
        None
    }

    /// Picks the next available proxy, scanning past those that rest. The
    /// cursor moves on with every pick in turn.
    pub fn pick(&mut self, now: u64) -> (r: Option<Proxy>)
        requires
            old(self).wf(),
        ensures
            final(self).wf(),
            final(self).entries@ == old(self).entries@,
            final(self).strategy == old(self).strategy,
            old(self).entries@.len() == 0 ==> r is None && final(self).cursor == old(self).cursor,
            old(self).entries@.len() > 0 ==> match old(self).strategy {
                Strategy::RoundRobin => {
                    &&& final(self).cursor == old(self).cursor.wrapping_add(1)
                    &&& picked(
                        r,
                        old(self).entries@,
                        scan(
                            old(self).entries@,
                            old(self).cursor as int % old(self).entries@.len() as int,
                            0,
                            now,
                        ),
                    )
                },
                Strategy::Random => {
                    &&& final(self).cursor == old(self).cursor
                    &&& exists|start: int|
                        0 <= start < old(self).entries@.len() && picked(
                            r,
                            old(self).entries@,
                            #[trigger] scan(old(self).entries@, start, 0, now),
                        )
                },
            },
    {
        let total: usize = self.entries.len();
        if total == 0 {
            return None;
        }
        let start: usize = match self.strategy {
            Strategy::Random => random_below(total),
            Strategy::RoundRobin => {
                let start: usize = self.cursor % total;
                self.cursor = self.cursor.wrapping_add(1);
                start
            },
        };
        let ghost result = scan(self.entries@, start as int, 0, now);
        match self.pick_from(start, now) {
            Some(i) => Some(self.entries[i].proxy.duplicate()),
            None => None,
        }
    }

    /// Clears a proxy's failures.
    pub fn report_success(&mut self, proxy: &Proxy)
        requires
            old(self).wf(),
        ensures
            final(self).wf(),
            final(self).entries@ == after_success(old(self).entries@, proxy.as_text_spec()),
            final(self).cursor == old(self).cursor,
            final(self).strategy == old(self).strategy,
    {
        let i: usize = self.position(proxy.as_text());
        if i < self.entries.len() {
            let ghost before = self.entries@;
            self.entries[i].failures = 0;
            self.entries[i].cooldown_until = None;
            proof {
                assert(self.entries@ =~= before.update(i as int, healthy_entry(before[i as int])));
                lemma_update_sound(before, i as int, healthy_entry(before[i as int]));
            }
        }
    }

    /// Counts a failure; repeated failures cool the proxy down and finally
    /// evict it so dead endpoints cannot dominate the rotation.
    pub fn report_failure(&mut self, proxy: &Proxy, now: u64)
        requires
            old(self).wf(),
            now <= u64::MAX - COOLDOWN,
        ensures
            final(self).wf(),
            final(self).entries@ == after_failure(old(self).entries@, proxy.as_text_spec(), now),
            final(self).cursor == old(self).cursor,
            final(self).strategy == old(self).strategy,
    {
        let i: usize = self.position(proxy.as_text());
        if i >= self.entries.len() {
            return;
        }
        let ghost before = self.entries@;
        assert(before[i as int].failures < MAX_CONSECUTIVE_FAILURES);
        let failures: u32 = self.entries[i].failures + 1;
        if failures >= MAX_CONSECUTIVE_FAILURES {
            self.entries.remove(i);
            proof {
                lemma_remove_sound(before, i as int);
            }
        } else {
            self.entries[i].failures = failures;
            self.entries[i].cooldown_until = Some(now + COOLDOWN);
            proof {
                let e = failed_entry(before[i as int], now);
                assert(self.entries@ =~= before.update(i as int, e));
                lemma_update_sound(before, i as int, e);
            }
        }
    }
}

/// Whether a pick gave the proxy at a position, or none.
pub open spec fn picked(r: Option<Proxy>, entries: Seq<PoolEntry>, at: Option<int>) -> bool {
    match at {
        Some(i) => r matches Some(p) && same_proxy(p, entries[i].proxy),
        None => r is None,
    }
}

proof fn lemma_update_sound(entries: Seq<PoolEntry>, i: int, e: PoolEntry)
    requires
        sound_entries(entries),
        0 <= i < entries.len(),
        e.proxy == entries[i].proxy,
        e.failures < MAX_CONSECUTIVE_FAILURES,
    ensures
        sound_entries(entries.update(i, e)),
{
    let w = entries.update(i, e);
    assert forall|a: int, b: int| 0 <= a < b < w.len() implies (
    #[trigger] w[a]).proxy.as_text_spec() != (#[trigger] w[b]).proxy.as_text_spec() by {
        assert(w[a].proxy == entries[a].proxy);
        assert(w[b].proxy == entries[b].proxy);
    }
}

proof fn lemma_remove_sound(entries: Seq<PoolEntry>, i: int)
    requires
        sound_entries(entries),
        0 <= i < entries.len(),
    ensures
        sound_entries(entries.remove(i)),
{
    let w = entries.remove(i);
    assert forall|a: int, b: int| 0 <= a < b < w.len() implies (
    #[trigger] w[a]).proxy.as_text_spec() != (#[trigger] w[b]).proxy.as_text_spec() by {
        let x = if a < i {
            a
        } else {
            a + 1
        };
        let y = if b < i {
            b
        } else {
            b + 1
        };
        assert(w[a] == entries[x]);
        assert(w[b] == entries[y]);
    }
}

// ---------------------------------------------------------------------------
// Laws
// ---------------------------------------------------------------------------

/// Where nothing rests, a scan takes the position that it starts from, and the
/// next turn the position behind it: picks in turn go through the pool in the
/// order of its entries, round and round.
pub proof fn turns_follow_insertion(entries: Seq<PoolEntry>, cursor: nat, now: u64)
    requires
        entries.len() > 0,
        forall|i: int| 0 <= i < entries.len() ==> available(#[trigger] entries[i], now),
    ensures
        ({
            let n = entries.len();
            let turn = (cursor % n) as int;
            let next = if turn + 1 == n {
                0
            } else {
                turn + 1
            };
            &&& scan(entries, turn, 0, now) == Some(turn)
            &&& ((cursor + 1) % n) as int == next
            &&& scan(entries, next, 0, now) == Some(next)
        }),
{
    let n = entries.len();
    let turn = (cursor % n) as int;
    let next = if turn + 1 == n {
        0
    } else {
        turn + 1
    };
    vstd::arithmetic::div_mod::lemma_small_mod(turn as nat, n);
    vstd::arithmetic::div_mod::lemma_small_mod(next as nat, n);
    vstd::arithmetic::div_mod::lemma_add_mod_noop(cursor as int, 1, n as int);
    vstd::arithmetic::div_mod::lemma_add_mod_noop(turn, 1, n as int);
    vstd::arithmetic::div_mod::lemma_mod_self_0(n as int);
    assert(available(entries[turn], now));
    assert(available(entries[next], now));
}

/// Failures never reorder the pool: the proxies that stay keep the order in
/// which they came, and those behind one that leaves move up by one place.
pub proof fn failures_keep_the_order(entries: Seq<PoolEntry>, text: Seq<char>, now: u64, j: int)
    requires
        0 <= j < after_failure(entries, text, now).len(),
    ensures
        ({
            let after = after_failure(entries, text, now);
            let i = entry_at(entries, text);
            if after.len() == entries.len() {
                after[j].proxy == entries[j].proxy
            } else {
                after.len() == entries.len() - 1 && after[j] == entries[if j < i {
                    j
                } else {
                    j + 1
                }]
            }
        }),
{
    lemma_entry_bounds(entries, text);
}

proof fn lemma_scan_result(entries: Seq<PoolEntry>, start: int, k: int, now: u64)
    requires
        0 <= k,
        0 <= start,
    ensures
        scan(entries, start, k, now) matches Some(i) ==> 0 <= i < entries.len() && available(
            entries[i],
            now,
        ),
    decreases entries.len() - k,
{
    if k < entries.len() {
        let i = (start + k) % entries.len() as int;
        lemma_scan_result(entries, start, k + 1, now);
    }
}

proof fn lemma_scan_none(entries: Seq<PoolEntry>, start: int, k: int, j: int, now: u64)
    requires
        0 <= start < entries.len(),
        0 <= k <= j < entries.len(),
        scan(entries, start, k, now) is None,
    ensures
        !available(entries[(start + j) % entries.len() as int], now),
    decreases j - k,
{
    if k < j {
        lemma_scan_none(entries, start, k + 1, j, now);
    }
}

/// A scan gives an available proxy of the pool, and gives none only where all
/// of them rest.
pub proof fn scan_finds_what_is_there(entries: Seq<PoolEntry>, start: int, now: u64, j: int)
    requires
        0 <= start < entries.len(),
        0 <= j < entries.len(),
    ensures
        match scan(entries, start, 0, now) {
            Some(i) => 0 <= i < entries.len() && available(entries[i], now),
            None => !available(entries[j], now),
        },
{
    lemma_scan_result(entries, start, 0, now);
    if scan(entries, start, 0, now) is None {
        let n = entries.len() as int;
        let k = if j >= start {
            j - start
        } else {
            j - start + n
        };
        lemma_scan_none(entries, start, 0, k, now);
        assert((start + k) % n == j) by {
            if j >= start {
                vstd::arithmetic::div_mod::lemma_small_mod(j as nat, n as nat);
            } else {
                vstd::arithmetic::div_mod::lemma_mod_add_multiples_vanish(j, n);
                vstd::arithmetic::div_mod::lemma_small_mod(j as nat, n as nat);
            }
        }
    }
}

proof fn lemma_entry_bounds(entries: Seq<PoolEntry>, text: Seq<char>)
    ensures
        0 <= entry_at(entries, text) <= entries.len(),
    decreases entries.len(),
{
    if entries.len() > 0 {
        lemma_entry_bounds(entries.drop_first(), text);
    }
}

proof fn lemma_found_again(entries: Seq<PoolEntry>, text: Seq<char>, e: PoolEntry)
    requires
        entry_at(entries, text) < entries.len(),
        e.proxy == entries[entry_at(entries, text)].proxy,
    ensures
        entry_at(entries.update(entry_at(entries, text), e), text) == entry_at(entries, text),
        0 <= entry_at(entries, text),
        entries[entry_at(entries, text)].proxy.as_text_spec() == text,
    decreases entries.len(),
{
    lemma_entry_bounds(entries, text);
    if entries[0].proxy.as_text_spec() != text {
        let rest = entries.drop_first();
        lemma_entry_bounds(rest, text);
        lemma_found_again(rest, text, e);
        let i = entry_at(entries, text);
        assert(entries.update(i, e).drop_first() =~= rest.update(i - 1, e));
        assert(entries.update(i, e)[0] == entries[0]);
    }
}

/// A proxy in good health that fails three times in a row leaves the pool; up
/// to then it stays.
pub proof fn third_failure_evicts(
    entries: Seq<PoolEntry>,
    text: Seq<char>,
    t1: u64,
    t2: u64,
    t3: u64,
)
    requires
        entry_at(entries, text) < entries.len(),
        entries[entry_at(entries, text)].failures == 0,
    ensures
        after_failure(entries, text, t1).len() == entries.len(),
        after_failure(after_failure(entries, text, t1), text, t2).len() == entries.len(),
        after_failure(after_failure(after_failure(entries, text, t1), text, t2), text, t3).len()
            == entries.len() - 1,
{
    let i = entry_at(entries, text);
    lemma_found_again(entries, text, failed_entry(entries[i], t1));
    let one = after_failure(entries, text, t1);
    assert(one[i].failures == 1);
    lemma_found_again(one, text, failed_entry(one[i], t2));
    let two = after_failure(one, text, t2);
    assert(two[i].failures == 2);
}

/// A success forgets the failures before it: the next failure counts as the
/// first, and the proxy may be picked at once.
pub proof fn success_forgets_failures(entries: Seq<PoolEntry>, text: Seq<char>, now: u64)
    requires
        entry_at(entries, text) < entries.len(),
    ensures
        ({
            let i = entry_at(entries, text);
            let healed = after_success(entries, text);
            &&& available(healed[i], now)
            &&& after_failure(healed, text, now).len() == entries.len()
            &&& after_failure(healed, text, now)[i].failures == 1
        }),
{
    let i = entry_at(entries, text);
    lemma_found_again(entries, text, healthy_entry(entries[i]));
}

/// A proxy that failed, and stays, rests for a minute and may then be picked
/// again; one that never failed may be picked at any time.
pub proof fn failed_proxies_rest_a_minute(e: PoolEntry, now: u64, later: u64)
    requires
        now <= u64::MAX - 60_000,
        e.failures < u32::MAX,
    ensures
        available(failed_entry(e, now), later) <==> later >= now + 60_000,
        failed_entry(e, now).failures == e.failures + 1,
        failed_entry(e, now).proxy == e.proxy,
        e.cooldown_until is None ==> available(e, later),
        e.cooldown_until matches Some(until) ==> (available(e, later) <==> later >= until),
        healthy_entry(e).failures == 0 && healthy_entry(e).cooldown_until is None
            && healthy_entry(e).proxy == e.proxy,
{
}

/// A proxy leaves the pool with its third failure in a row and not before; a
/// report on one proxy leaves every other as it was.
pub proof fn reports_change_their_proxy_only(
    entries: Seq<PoolEntry>,
    text: Seq<char>,
    now: u64,
    i: int,
)
    requires
        sound_entries(entries),
        0 <= i < entries.len(),
    ensures
        entries[i].proxy.as_text_spec() == text && entries[i].failures >= 2 ==> after_failure(
            entries,
            text,
            now,
        ) == entries.remove(i),
        entries[i].proxy.as_text_spec() == text && entries[i].failures < 2 ==> after_failure(
            entries,
            text,
            now,
        ) == entries.update(
            i,
            PoolEntry {
                failures: (entries[i].failures + 1) as u32,
                cooldown_until: Some((now + 60_000) as u64),
                ..entries[i]
            },
        ),
        entries[i].proxy.as_text_spec() == text ==> after_success(entries, text) == entries.update(
            i,
            PoolEntry { failures: 0, cooldown_until: None, ..entries[i] },
        ),
        (forall|j: int|
            0 <= j < entries.len() ==> (#[trigger] entries[j]).proxy.as_text_spec() != text)
            ==> after_failure(entries, text, now) == entries && after_success(entries, text)
            == entries,
        entries.len() <= 25,
        entries[i].failures < 3,
{
    if entries[i].proxy.as_text_spec() == text {
        lemma_entry_at(entries, text, i);
    }
    if forall|j: int|
        0 <= j < entries.len() ==> (#[trigger] entries[j]).proxy.as_text_spec() != text {
        lemma_entry_at(entries, text, entries.len() as int);
    }
}

/// The pool is gone through from the starting place on, round to the place
/// before it, and the first proxy that may be picked is taken.
pub proof fn the_next_ready_proxy_is_taken(
    entries: Seq<PoolEntry>,
    start: int,
    passed: int,
    now: u64,
)
    requires
        0 <= start < entries.len(),
        0 <= passed < entries.len(),
        available(entries[(start + passed) % entries.len() as int], now),
        forall|k: int|
            0 <= k < passed ==> !available(
                #[trigger] entries[(start + k) % entries.len() as int],
                now,
            ),
    ensures
        scan(entries, start, 0, now) == Some((start + passed) % entries.len() as int),
{
    lemma_passes(entries, start, 0, passed, now);
}

proof fn lemma_passes(entries: Seq<PoolEntry>, start: int, from: int, passed: int, now: u64)
    requires
        0 <= start < entries.len(),
        0 <= from <= passed < entries.len(),
        available(entries[(start + passed) % entries.len() as int], now),
        forall|k: int|
            0 <= k < passed ==> !available(
                #[trigger] entries[(start + k) % entries.len() as int],
                now,
            ),
    ensures
        scan(entries, start, from, now) == Some((start + passed) % entries.len() as int),
    decreases passed - from,
{
    if from < passed {
        assert(!available(entries[(start + from) % entries.len() as int], now));
        lemma_passes(entries, start, from + 1, passed, now);
    }
}

/// The ready proxies are counted one by one.
pub proof fn ready_proxies_are_counted(a: Seq<PoolEntry>, e: PoolEntry, b: Seq<PoolEntry>, now: u64)
    ensures
        ready_count(a + b, now) == ready_count(a, now) + ready_count(b, now),
        ready_count(seq![e], now) == if available(e, now) {
            1nat
        } else {
            0nat
        },
        ready_count(Seq::empty(), now) == 0,
        ready_count(a, now) <= a.len(),
    decreases a.len() + b.len(),
{
    let one = seq![e];
    assert(one.drop_last() =~= Seq::<PoolEntry>::empty());
    assert(one.last() == e);
    assert(ready_count(one.drop_last(), now) == 0);
    if a.len() > 0 {
        ready_proxies_are_counted(a.drop_last(), e, Seq::empty(), now);
    }
    if b.len() == 0 {
        assert(a + b =~= a);
    } else {
        ready_proxies_are_counted(a, e, b.drop_last(), now);
        assert((a + b).drop_last() =~= a + b.drop_last());
        assert((a + b).last() == b.last());
    }
}

/// A picked proxy is one of the pool that does not rest, and there is one
/// wherever some proxy does not.
pub proof fn picks_come_from_the_pool(
    r: Option<Proxy>,
    entries: Seq<PoolEntry>,
    start: int,
    now: u64,
    j: int,
)
    requires
        0 <= start < entries.len(),
        0 <= j < entries.len(),
        picked(r, entries, scan(entries, start, 0, now)),
    ensures
        r matches Some(p) ==> exists|i: int|
            0 <= i < entries.len() && available(#[trigger] entries[i], now) && same_proxy(
                p,
                entries[i].proxy,
            ),
        available(entries[j], now) ==> r is Some,
{
    scan_finds_what_is_there(entries, start, now, j);
}

} // verus!
