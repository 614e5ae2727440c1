//! One phase of gathering: the work on a single source.

use crate::providers::models::Source;

use crate::proxy::models::Protocol;
use crate::text::{chars_of, contains, holds, occurs_at, same};
use vstd::prelude::*;

verus! {

/// Times that a fetch is tried.
pub const MAX_FETCH_ATTEMPTS: usize = 2;

/// Milliseconds between two tries.
pub const FETCH_RETRY_BACKOFF: u64 = 250;

/// Fetch-phase transitions reported to consumers.
///
/// Primary providers run first; fallback mirrors replay only what primary
/// missed.
#[derive(Clone, Copy, Debug, PartialEq, Eq, Structural)]
pub enum FetchStage {
    /// Primary provider set is being scraped.
    Primary,
    /// Fallback mirrors are being scraped.
    Fallback,
    /// All fetch phases finished.
    Done,
}

/// The list of one protocol.
pub fn protocol_arc(protocol: Protocol) -> (v: Vec<Protocol>)
    ensures
        v@ == seq![protocol],
{
    let v = vec![protocol];
    assert(v@ =~= seq![protocol]);
    v
}

/// Whether a failure may pass.
pub open spec fn may_pass(broken: bool, message: Seq<char>) -> bool {
    broken || holds(message, "returned HTTP 429"@) || holds(message, "returned HTTP 5"@)
}

/// Whether a failed fetch is worth another try: a connection that broke or
/// timed out, or a response that says so.
pub fn is_transient(broken: bool, message: &str) -> (r: bool)
    ensures
        r == may_pass(broken, message@),
        r == (broken || holds(message@, "returned HTTP 5"@) || holds(
            message@,
            "returned HTTP 429"@,
        )),
{
    if broken {
        return true;
    }
    let cs = chars_of(message);
    contains(cs.as_slice(), "returned HTTP 5") || contains(cs.as_slice(), "returned HTTP 429")
}

/// The host that requests to a source are counted under: its host, or the
/// whole address where it has none.
pub open spec fn host_of(s: Source) -> Seq<char> {
    match s.host {
        Some(h) => h@,
        None => s.url@,
    }
}

/// The host that requests to a source are counted under.
pub fn source_host(source: &Source) -> (r: String)
    ensures
        r@ == host_of(*source),
{
    match &source.host {
        Some(h) => h.clone(),
        None => source.url.clone(),
    }
}

// ---------------------------------------------------------------------------
// Spacing requests to a host
// ---------------------------------------------------------------------------

/// The next free moment of each host, in milliseconds.
pub struct Throttle {
    pub slots: Vec<(String, u64)>,
}

/// The next free moments as a map from hosts.
pub open spec fn slot_map(v: Seq<(String, u64)>) -> Map<Seq<char>, u64>
    decreases v.len(),
{
    if v.len() == 0 {
        Map::empty()
    } else {
        slot_map(v.drop_last()).insert(v.last().0@, v.last().1)
    }
}

/// When a host's next request may go out.
pub open spec fn available_at(slots: Map<Seq<char>, u64>, host: Seq<char>, now: u64) -> u64 {
    if slots.dom().contains(host) && slots[host] > now {
        slots[host]
    } else {
        now
    }
}

/// The moment behind a request; a delay beyond all time adds nothing.
pub open spec fn slot_after(at: u64, delay: u64) -> u64 {
    if at + delay <= u64::MAX {
        (at + delay) as u64
    } else {
        at
    }
}

impl Throttle {
    /// The next free moment of each host that was asked before.
    pub open spec fn view(&self) -> Map<Seq<char>, u64> {
        slot_map(self.slots@)
    }

    /// Every host has one next moment.
    pub open spec fn wf(&self) -> bool {
        forall|i: int, j: int|
            0 <= i < j < self.slots@.len() ==> self.slots@[i].0@ != self.slots@[j].0@
    }

    /// No host was asked yet.
    pub fn new() -> (t: Self)
        ensures
            t.wf(),
            t@ == Map::<Seq<char>, u64>::empty(),
    {
        Throttle { slots: Vec::new() }
    }

    /// Takes the next free moment of a host for a request, and puts the one
    /// after it off by the delay.
    pub fn reserve(&mut self, host: &str, now: u64, delay: u64) -> (at: u64)
        requires
            old(self).wf(),
        ensures
            final(self).wf(),
            at == available_at(old(self)@, host@, now),
            final(self)@ == old(self)@.insert(host@, slot_after(at, delay)),
    {
        let mut i: usize = 0;
        while i < self.slots.len()
            invariant
                i <= self.slots.len(),
                self.slots@ == old(self).slots@,
                old(self).wf(),
                forall|j: int| 0 <= j < i ==> self.slots@[j].0@ != host@,
            decreases self.slots.len() - i,
        {
            if same(self.slots[i].0.as_str(), host) {
                let ghost before = self.slots@;
                proof {
                    lemma_slot_map(before, i as int);
                }
                let previous: u64 = self.slots[i].1;
                let at: u64 = if previous > now {
                    previous
                } else {
                    now
                };
                let next: u64 = match at.checked_add(delay) {
                    Some(t) => t,
                    None => at,
                };
                let name = self.slots[i].0.clone();
                let ghost name_text = name@;
                self.slots.set(i, (name, next));
                proof {
                    assert(self.slots@ =~= before.update(i as int, self.slots@[i as int]));
                    lemma_slot_update(before, i as int, self.slots@[i as int]);
                }
                return at;
            }
            i += 1;
        }
        let next: u64 = match now.checked_add(delay) {
            Some(t) => t,
            None => now,
        };
        let ghost before = self.slots@;
        proof {
            lemma_slot_absent(before, host@);
        }
        let name = host.to_owned();
        self.slots.push((name, next));
        assert(self.slots@.drop_last() =~= before);
        now
    }
}

proof fn lemma_slot_absent(v: Seq<(String, u64)>, host: Seq<char>)
    requires
        forall|j: int| 0 <= j < v.len() ==> v[j].0@ != host,
    ensures
        !slot_map(v).dom().contains(host),
    decreases v.len(),
{
    if v.len() > 0 {
        lemma_slot_absent(v.drop_last(), host);
        assert(v.last().0@ != host);
    }
}

proof fn lemma_slot_map(v: Seq<(String, u64)>, i: int)
    requires
        0 <= i < v.len(),
        forall|a: int, b: int| 0 <= a < b < v.len() ==> v[a].0@ != v[b].0@,
    ensures
        slot_map(v).dom().contains(v[i].0@),
        slot_map(v)[v[i].0@] == v[i].1,
    decreases v.len(),
{
    if i < v.len() - 1 {
        lemma_slot_map(v.drop_last(), i);
        assert(v[i].0@ != v[v.len() - 1].0@);
    }
}

proof fn lemma_slot_update(v: Seq<(String, u64)>, i: int, x: (String, u64))
    requires
        0 <= i < v.len(),
        x.0@ == v[i].0@,
        forall|a: int, b: int| 0 <= a < b < v.len() ==> v[a].0@ != v[b].0@,
    ensures
        slot_map(v.update(i, x)) == slot_map(v).insert(x.0@, x.1),
    decreases v.len(),
{
    let w = v.update(i, x);
    if i < v.len() - 1 {
        lemma_slot_update(v.drop_last(), i, x);
        assert(w.drop_last() =~= v.drop_last().update(i, x));
        assert(w.last() == v.last());
        assert(v[i].0@ != v[v.len() - 1].0@);
        assert(slot_map(w) =~= slot_map(v).insert(x.0@, x.1));
    } else {
        assert(w.drop_last() =~= v.drop_last());
        assert(slot_map(w) =~= slot_map(v).insert(x.0@, x.1));
    }
}

/// Two requests to one host in a row are at least the delay apart, as far as
/// time goes.
pub proof fn requests_are_spaced(
    slots: Map<Seq<char>, u64>,
    host: Seq<char>,
    now: u64,
    later: u64,
    delay: u64,
)
    requires
        available_at(slots, host, now) + delay <= u64::MAX,
    ensures
        available_at(
            slots.insert(host, slot_after(available_at(slots, host, now), delay)),
            host,
            later,
        ) >= available_at(slots, host, now) + delay,
{
}

// ---------------------------------------------------------------------------
// The work on one source
// ---------------------------------------------------------------------------

/// Where the work on a source stands.
#[derive(Clone, Copy, Debug, PartialEq, Eq, Structural)]
pub enum WorkState {
    /// The cache is asked.
    Loading,
    /// The source is fetched, for the given time.
    Fetching(usize),
    /// The fetch waits before it is tried for the given time.
    Backoff(usize),
    /// The body is read.
    Reading,
    /// The rows are stored.
    Storing,
    /// The rows are handed on.
    Delivering,
    /// The work is done.
    Done,
}

/// What happens during the work on a source.
#[derive(Clone, Copy, Debug, PartialEq, Eq, Structural)]
pub enum WorkEvent {
    /// The cache gave rows, or not.
    Loaded(bool),
    /// The body came.
    Fetched,
    /// The fetch failed; whether it is worth another try.
    FetchFailed(bool),
    /// The wait is over.
    Waited,
    /// The body was read, or could not be.
    Read(bool),
    /// The rows were stored, or there is no cache.
    Stored,
    /// A row was taken by the consumer, or the consumer is gone.
    Sent(bool),
    /// No row is left.
    AllSent,
}

/// What the work on a source does next.
#[derive(Clone, Copy, Debug, PartialEq, Eq, Structural)]
pub enum WorkAction {
    /// Ask the cache.
    LoadCache,
    /// Wait for the host's next free moment, then fetch.
    ThrottleAndFetch,
    /// Fetch.
    Fetch,
    /// Wait the given milliseconds.
    Sleep(u64),
    /// Read the body.
    ReadBody,
    /// Store the rows where there is a cache.
    StoreRows,
    /// Hand the next row on.
    Deliver,
    /// Go on waiting.
    Wait,
    /// End without an error.
    Succeed,
    /// End with the error that came.
    Fail,
}

/// How the work on a source begins.
pub open spec fn work_begins(stopped: bool) -> (WorkState, WorkAction) {
    if stopped {
        (WorkState::Done, WorkAction::Succeed)
    } else {
        (WorkState::Loading, WorkAction::LoadCache)
    }
}

/// How the work on a source goes on.
pub open spec fn work_goes_on(
    offline: bool,
    stopped: bool,
    state: WorkState,
    event: WorkEvent,
) -> (WorkState, WorkAction) {
    match (state, event) {
        (WorkState::Loading, WorkEvent::Loaded(true)) => if stopped {
            (WorkState::Done, WorkAction::Succeed)
        } else {
            (WorkState::Delivering, WorkAction::Deliver)
        },
        (WorkState::Loading, WorkEvent::Loaded(false)) => if offline {
            (WorkState::Done, WorkAction::Succeed)
        } else {
            (WorkState::Fetching(1), WorkAction::ThrottleAndFetch)
        },
        (WorkState::Fetching(_), WorkEvent::Fetched) => (
            WorkState::Reading,
            WorkAction::ReadBody,
        ),
        (WorkState::Fetching(n), WorkEvent::FetchFailed(transient)) => if transient && n
            < MAX_FETCH_ATTEMPTS {
            (WorkState::Backoff((n + 1) as usize), WorkAction::Sleep(FETCH_RETRY_BACKOFF))
        } else {
            (WorkState::Done, WorkAction::Fail)
        },
        (WorkState::Backoff(n), WorkEvent::Waited) => (WorkState::Fetching(n), WorkAction::Fetch),
        (WorkState::Reading, WorkEvent::Read(true)) => (WorkState::Storing, WorkAction::StoreRows),
        (WorkState::Reading, WorkEvent::Read(false)) => (WorkState::Done, WorkAction::Fail),
        (WorkState::Storing, WorkEvent::Stored) => if stopped {
            (WorkState::Done, WorkAction::Succeed)
        } else {
            (WorkState::Delivering, WorkAction::Deliver)
        },
        (WorkState::Delivering, WorkEvent::Sent(true)) => (
            WorkState::Delivering,
            WorkAction::Deliver,
        ),
        (WorkState::Delivering, WorkEvent::Sent(false)) => (WorkState::Done, WorkAction::Succeed),
        (WorkState::Delivering, WorkEvent::AllSent) => (WorkState::Done, WorkAction::Succeed),
        _ => (state, WorkAction::Wait),
    }
}

/// Begins the work on a source.
pub fn begin_work(stopped: bool) -> (r: (WorkState, WorkAction))
    ensures
        r == work_begins(stopped),
{
    if stopped {
        (WorkState::Done, WorkAction::Succeed)
    } else {
        (WorkState::Loading, WorkAction::LoadCache)
    }
}

/// Decides how the work on a source goes on. Cached rows are served without a
/// request; a source without them is fetched, and once more where the failure
/// is worth it; a consumer that has enough, or is gone, ends the work.
pub fn do_work(offline: bool, stopped: bool, state: WorkState, event: WorkEvent) -> (r: (
    WorkState,
    WorkAction,
))
    ensures
        r == work_goes_on(offline, stopped, state, event),
{
    match state {
        WorkState::Loading => match event {
            WorkEvent::Loaded(true) => if stopped {
                (WorkState::Done, WorkAction::Succeed)
            } else {
                (WorkState::Delivering, WorkAction::Deliver)
            },
            WorkEvent::Loaded(false) => if offline {
                (WorkState::Done, WorkAction::Succeed)
            } else {
                (WorkState::Fetching(1), WorkAction::ThrottleAndFetch)
            },
            _ => (state, WorkAction::Wait),
        },
        WorkState::Fetching(n) => match event {
            WorkEvent::Fetched => (WorkState::Reading, WorkAction::ReadBody),
            WorkEvent::FetchFailed(transient) => if transient && n < MAX_FETCH_ATTEMPTS {
                (WorkState::Backoff(n + 1), WorkAction::Sleep(FETCH_RETRY_BACKOFF))
            } else {
                (WorkState::Done, WorkAction::Fail)
            },
            _ => (state, WorkAction::Wait),
        },
        WorkState::Backoff(n) => match event {
            WorkEvent::Waited => (WorkState::Fetching(n), WorkAction::Fetch),
            _ => (state, WorkAction::Wait),
        },
        WorkState::Reading => match event {
            WorkEvent::Read(true) => (WorkState::Storing, WorkAction::StoreRows),
            WorkEvent::Read(false) => (WorkState::Done, WorkAction::Fail),
            _ => (state, WorkAction::Wait),
        },
        WorkState::Storing => match event {
            WorkEvent::Stored => if stopped {
                (WorkState::Done, WorkAction::Succeed)
            } else {
                (WorkState::Delivering, WorkAction::Deliver)
            },
            _ => (state, WorkAction::Wait),
        },
        WorkState::Delivering => match event {
            WorkEvent::Sent(true) => (WorkState::Delivering, WorkAction::Deliver),
            WorkEvent::Sent(false) => (WorkState::Done, WorkAction::Succeed),
            WorkEvent::AllSent => (WorkState::Done, WorkAction::Succeed),
            _ => (state, WorkAction::Wait),
        },
        WorkState::Done => (state, WorkAction::Wait),
    }
}

/// The state behind some events, each with whether the consumer had enough.
pub open spec fn work_state(offline: bool, events: Seq<(WorkEvent, bool)>) -> WorkState
    decreases events.len(),
{
    if events.len() == 0 {
        WorkState::Loading
    } else {
        work_goes_on(
            offline,
            events.last().1,
            work_state(offline, events.drop_last()),
            events.last().0,
        ).0
    }
}

/// How often the source was fetched during some events.
pub open spec fn fetches(offline: bool, events: Seq<(WorkEvent, bool)>) -> nat
    decreases events.len(),
{
    if events.len() == 0 {
        0
    } else {
        let before = fetches(offline, events.drop_last());
        match work_goes_on(
            offline,
            events.last().1,
            work_state(offline, events.drop_last()),
            events.last().0,
        ).1 {
            WorkAction::ThrottleAndFetch | WorkAction::Fetch => before + 1,
            _ => before,
        }
    }
}

/// Whatever happens, a source is fetched twice at most, and never offline.
pub proof fn fetched_twice_at_most(offline: bool, events: Seq<(WorkEvent, bool)>)
    ensures
        fetches(offline, events) <= MAX_FETCH_ATTEMPTS,
        offline ==> fetches(offline, events) == 0,
        match work_state(offline, events) {
            WorkState::Loading => fetches(offline, events) == 0,
            WorkState::Fetching(n) => 1 <= n <= MAX_FETCH_ATTEMPTS && fetches(offline, events) == n,
            WorkState::Backoff(n) => 2 <= n <= MAX_FETCH_ATTEMPTS && fetches(offline, events) + 1
                == n,
            _ => true,
        },
    decreases events.len(),
{
    if events.len() > 0 {
        fetched_twice_at_most(offline, events.drop_last());
    }
}

/// A host that was not asked before, or long enough ago, is asked at once; else
/// at its next free moment. Asking one host does not hold up another.
pub proof fn hosts_wait_for_themselves(
    slots: Map<Seq<char>, u64>,
    host: Seq<char>,
    other: Seq<char>,
    now: u64,
    slot: u64,
)
    ensures
        !slots.dom().contains(host) ==> available_at(slots, host, now) == now,
        slots.dom().contains(host) && slots[host] <= now ==> available_at(slots, host, now) == now,
        slots.dom().contains(host) && slots[host] > now ==> available_at(slots, host, now)
            == slots[host],
        host != other ==> available_at(slots.insert(other, slot), host, now) == available_at(
            slots,
            host,
            now,
        ),
        available_at(slots.insert(host, slot), host, now) == if slot > now {
            slot
        } else {
            now
        },
{
}

/// The moment behind a request is the delay later.
pub proof fn delays_are_kept(at: u64, delay: u64)
    ensures
        at + delay <= u64::MAX ==> slot_after(at, delay) == at + delay,
        slot_after(at, delay) >= at,
{
}

/// Cached rows are delivered without a request. Without them the source is
/// fetched, read, stored and delivered; offline nothing is fetched.
pub proof fn work_goes_its_way(stopped: bool)
    ensures
        work_begins(false) == (WorkState::Loading, WorkAction::LoadCache),
        work_begins(true) == (WorkState::Done, WorkAction::Succeed),
        forall|offline: bool|
            #[trigger] work_goes_on(offline, false, WorkState::Loading, WorkEvent::Loaded(true))
                == (WorkState::Delivering, WorkAction::Deliver),
        work_goes_on(false, stopped, WorkState::Loading, WorkEvent::Loaded(false)) == (
            WorkState::Fetching(1),
            WorkAction::ThrottleAndFetch,
        ),
        work_goes_on(true, stopped, WorkState::Loading, WorkEvent::Loaded(false)) == (
            WorkState::Done,
            WorkAction::Succeed,
        ),
        forall|offline: bool, n: usize|
            #[trigger] work_goes_on(offline, stopped, WorkState::Fetching(n), WorkEvent::Fetched)
                == (WorkState::Reading, WorkAction::ReadBody),
        forall|offline: bool|
            #[trigger] work_goes_on(offline, stopped, WorkState::Reading, WorkEvent::Read(true))
                == (WorkState::Storing, WorkAction::StoreRows),
        forall|offline: bool|
            #[trigger] work_goes_on(offline, stopped, WorkState::Reading, WorkEvent::Read(false))
                == (WorkState::Done, WorkAction::Fail),
        forall|offline: bool|
            #[trigger] work_goes_on(offline, false, WorkState::Storing, WorkEvent::Stored) == (
                WorkState::Delivering,
                WorkAction::Deliver,
            ),
        forall|offline: bool|
            #[trigger] work_goes_on(offline, stopped, WorkState::Delivering, WorkEvent::Sent(true))
                == (WorkState::Delivering, WorkAction::Deliver),
        forall|offline: bool|
            #[trigger] work_goes_on(offline, stopped, WorkState::Delivering, WorkEvent::Sent(false))
                == (WorkState::Done, WorkAction::Succeed),
        forall|offline: bool|
            #[trigger] work_goes_on(offline, stopped, WorkState::Delivering, WorkEvent::AllSent)
                == (WorkState::Done, WorkAction::Succeed),
{
}

/// A consumer that has enough is delivered nothing more.
pub proof fn enough_is_enough(offline: bool)
    ensures
        work_goes_on(offline, true, WorkState::Loading, WorkEvent::Loaded(true)) == (
            WorkState::Done,
            WorkAction::Succeed,
        ),
        work_goes_on(offline, true, WorkState::Storing, WorkEvent::Stored) == (
            WorkState::Done,
            WorkAction::Succeed,
        ),
{
}

/// A first fetch that fails for the moment is tried again after a quarter of a
/// second; a second failure, or one that will not pass, ends the work.
pub proof fn failures_are_tried_once_more(offline: bool, stopped: bool)
    ensures
        ({
            let failed = work_goes_on(
                offline,
                stopped,
                WorkState::Fetching(1),
                WorkEvent::FetchFailed(true),
            );
            let again = work_goes_on(offline, stopped, failed.0, WorkEvent::Waited);
            let twice = work_goes_on(offline, stopped, again.0, WorkEvent::FetchFailed(true));
            &&& failed.1 == WorkAction::Sleep(250)
            &&& again == (WorkState::Fetching(2), WorkAction::Fetch)
            &&& twice == (WorkState::Done, WorkAction::Fail)
        }),
        forall|n: usize|
            #[trigger] work_goes_on(
                offline,
                stopped,
                WorkState::Fetching(n),
                WorkEvent::FetchFailed(false),
            ) == (WorkState::Done, WorkAction::Fail),
{
}

/// Requests are counted under the host of a source, or its address where it has
/// none.
pub proof fn hosts_are_told_by_their_source(s: Source)
    ensures
        s.host matches Some(h) ==> host_of(s) == h@,
        s.host is None ==> host_of(s) == s.url@,
{
}

proof fn lemma_other_status(code: char, b: Seq<char>)
    requires
        code != '5',
        code != '4',
        b.len() == 2,
    ensures
        !may_pass(false, "returned HTTP "@ + seq![code] + b),
{
    reveal_strlit("returned HTTP 5");
    reveal_strlit("returned HTTP 429");
    reveal_strlit("returned HTTP ");
    let u = "returned HTTP "@ + seq![code] + b;
    assert(u.len() == 17 && u[14] == code);
    assert(u[0] == 'r' && u[1] == 'e' && u[2] == 't');
    assert forall|i: int| !occurs_at(u, "returned HTTP 5"@, i) by {
        if occurs_at(u, "returned HTTP 5"@, i) {
            let w = u.subrange(i, i + 15);
            assert(w[0] == u[i] && w[14] == u[i + 14]);
            assert(i == 0 || i == 1 || i == 2);
        }
    }
    assert forall|i: int| !occurs_at(u, "returned HTTP 429"@, i) by {
        if occurs_at(u, "returned HTTP 429"@, i) {
            let w = u.subrange(i, i + 17);
            assert(i == 0);
            assert(w[14] == u[14]);
        }
    }
}

/// A broken connection may pass, and so may a response of the server's fault or
/// one that asks for patience, whatever stands around it; another status, told
/// at the end of a message that tells no other, does not.
pub proof fn server_faults_may_pass(a: Seq<char>, b: Seq<char>, message: Seq<char>, code: char)
    ensures
        may_pass(true, message),
        may_pass(false, a + "returned HTTP 5"@ + b),
        may_pass(false, a + "returned HTTP 429"@ + b),
        code != '5' && code != '4' && a.len() == 0 && b.len() == 2 ==> !may_pass(
            false,
            a + "returned HTTP "@ + seq![code] + b,
        ),
        MAX_FETCH_ATTEMPTS == 2,
        FETCH_RETRY_BACKOFF == 250,
{
    reveal_strlit("returned HTTP 5");
    reveal_strlit("returned HTTP 429");
    reveal_strlit("returned HTTP ");
    let n = a.len() as int;
    let s = a + "returned HTTP 5"@ + b;
    assert(s.subrange(n, n + 15) =~= "returned HTTP 5"@);
    assert(occurs_at(s, "returned HTTP 5"@, n));
    let t = a + "returned HTTP 429"@ + b;
    assert(t.subrange(n, n + 17) =~= "returned HTTP 429"@);
    assert(occurs_at(t, "returned HTTP 429"@, n));
    if code != '5' && code != '4' && a.len() == 0 && b.len() == 2 {
        assert(a =~= Seq::<char>::empty());
        let u = "returned HTTP "@ + seq![code] + b;
        assert(a + "returned HTTP "@ + seq![code] + b =~= u);
        lemma_other_status(code, b);
    }
}

} // verus!
