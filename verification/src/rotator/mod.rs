//! Serving validated proxies through a local rotating endpoint.

pub mod pool;
pub mod server;

use crate::double::{double_of, units_of, Double};
use crate::text::{decimal, push_decimal, push_wide, same};
use vstd::prelude::*;

verus! {

/// Default address that the rotating endpoint is bound to.
pub const DEFAULT_BIND: &'static str = "127.0.0.1";

/// Default port for the rotating endpoint.
pub const DEFAULT_PORT: u16 = 8080;

/// Cap on pooled proxies; the feeder refills up to it.
pub const MAX_POOL_SIZE: usize = 25;

/// Bound on queued serve events; excess events drop instead of blocking relays.
pub const EVENT_CHANNEL_CAPACITY: usize = 1024;

/// Default pool capacity.
pub const DEFAULT_POOL_SIZE: usize = MAX_POOL_SIZE;

/// Proxies that must be ready before serving.
pub const DEFAULT_MIN_READY: usize = 1;

/// Default pool refill interval in seconds.
pub const DEFAULT_REFRESH_SECS: u64 = 300;

/// Milliseconds that a connection may take from end to end.
pub const DEFAULT_REQUEST_TIMEOUT: u64 = 30_000;

/// Failures in a row from which a proxy leaves the pool.
pub const MAX_CONSECUTIVE_FAILURES: u32 = 3;

/// Milliseconds that a proxy rests behind a failure.
pub const COOLDOWN: u64 = 60_000;

/// Milliseconds that a request head may take.
pub const REQUEST_HEAD_TIMEOUT: u64 = 10_000;

/// Milliseconds that the endpoint waits for ready proxies.
pub const READY_WAIT_TIMEOUT: u64 = 120_000;

/// Milliseconds between two looks at the pool.
pub const READY_POLL_INTERVAL: u64 = 100;

/// Upstream rotation strategy.
#[derive(Clone, Copy, Debug, PartialEq, Eq, Structural)]
pub enum Strategy {
    /// Cycle upstreams in insertion order.
    RoundRobin,
    /// Pick a random start offset per connection.
    Random,
}

/// How a strategy is spelled.
pub open spec fn strategy_text(s: Strategy) -> Seq<char> {
    match s {
        Strategy::RoundRobin => "round-robin"@,
        Strategy::Random => "random"@,
    }
}

/// The strategy that a text spells.
pub open spec fn read_strategy(s: Seq<char>) -> Option<Strategy> {
    if s == "round-robin"@ {
        Some(Strategy::RoundRobin)
    } else if s == "random"@ {
        Some(Strategy::Random)
    } else {
        None
    }
}

impl Strategy {
    /// Parses `round-robin` or `random`, or `None` for anything else.
    pub fn parse(value: &str) -> (r: Option<Self>)
        ensures
            r == read_strategy(value@),
    {
        if same(value, "round-robin") {
            Some(Strategy::RoundRobin)
        } else if same(value, "random") {
            Some(Strategy::Random)
        } else {
            None
        }
    }

    /// Returns the CLI spelling (`round-robin` or `random`).
    pub fn as_str(&self) -> (s: &'static str)
        ensures
            s@ == strategy_text(*self),
    {
        match self {
            Strategy::RoundRobin => "round-robin",
            Strategy::Random => "random",
        }
    }
}

/// Reading a strategy's spelling gives the strategy back.
pub proof fn strategy_reads_back(s: Strategy)
    ensures
        read_strategy(strategy_text(s)) == Some(s),
{
    reveal_strlit("round-robin");
    reveal_strlit("random");
    assert("round-robin"@.len() != "random"@.len());
}

/// Options for the rotating proxy endpoint.
#[derive(Clone, Debug)]
pub struct ServeOptions {
    /// Address to bind the local endpoint to.
    pub bind: String,
    /// Port to bind the local endpoint to.
    pub port: u16,
    /// Upstream rotation strategy.
    pub strategy: Strategy,
    /// Maximum pooled proxies; capped at `MAX_POOL_SIZE`.
    pub pool_size: usize,
    /// Proxies required before serving connections.
    pub min_ready: usize,
    /// Pool refill interval in seconds.
    pub refresh_secs: u64,
    /// Require Basic proxy auth from clients.
    pub auth: Option<(String, String)>,
    /// End-to-end budget per connection, in milliseconds.
    pub request_timeout: u64,
    /// Emit per-phase trace lines.
    pub trace: bool,
}

impl Default for ServeOptions {
    fn default() -> (r: Self)
        ensures
            r.bind@ == DEFAULT_BIND@,
            r.port == DEFAULT_PORT,
            r.strategy == Strategy::RoundRobin,
            r.pool_size == DEFAULT_POOL_SIZE,
            r.min_ready == DEFAULT_MIN_READY,
            r.refresh_secs == DEFAULT_REFRESH_SECS,
            r.auth is None,
            r.request_timeout == DEFAULT_REQUEST_TIMEOUT,
            !r.trace,
    {
        ServeOptions {
            bind: DEFAULT_BIND.to_owned(),
            port: DEFAULT_PORT,
            strategy: Strategy::RoundRobin,
            pool_size: DEFAULT_POOL_SIZE,
            min_ready: DEFAULT_MIN_READY,
            refresh_secs: DEFAULT_REFRESH_SECS,
            auth: None,
            request_timeout: DEFAULT_REQUEST_TIMEOUT,
            trace: false,
        }
    }
}

/// A number of tenths with its decimal point.
pub open spec fn tenths_text(tenths: int) -> Seq<char> {
    decimal((tenths / 10) as nat) + "."@ + decimal((tenths % 10) as nat)
}

fn push_tenths(s: &mut String, tenths: u128)
    ensures
        final(s)@ == old(s)@ + tenths_text(tenths as int),
{
    let ghost before = s@;
    push_wide(s, tenths / 10);
    s.append(".");
    push_wide(s, tenths % 10);
    assert(s@ =~= before + tenths_text(tenths as int));
}

/// A duration in words: milliseconds below a second, seconds with one decimal
/// below a minute, else minutes and seconds.
pub open spec fn dur_text(nanos: int) -> Seq<char> {
    if nanos < 1_000_000_000 {
        decimal((nanos / 1_000_000) as nat) + "ms"@
    } else if nanos < 60_000_000_000 {
        tenths_text(units_of(double_of(nanos, 1_000_000_000), 10)) + "s"@
    } else {
        decimal((nanos / 60_000_000_000) as nat) + "m "@ + decimal(
            (nanos / 1_000_000_000 % 60) as nat,
        ) + "s"@
    }
}

/// Format durations, given in nanoseconds, as ms, s, or minutes.
pub fn fmt_dur(nanos: u64) -> (s: String)
    ensures
        s@ == dur_text(nanos as int),
{
    let mut s = String::new();
    if nanos < 1_000_000_000 {
        push_decimal(&mut s, nanos / 1_000_000);
        s.append("ms");
    } else if nanos < 60_000_000_000 {
        push_tenths(&mut s, Double::nearest_to(nanos as u128, 1_000_000_000).to_units(10));
        s.append("s");
    } else {
        push_decimal(&mut s, nanos / 60_000_000_000);
        s.append("m ");
        push_decimal(&mut s, nanos / 1_000_000_000 % 60);
        s.append("s");
    }
    assert(s@ =~= dur_text(nanos as int));
    s
}

/// A byte count in words: bytes, or kilobytes or megabytes with one decimal.
pub open spec fn bytes_text(bytes: int) -> Seq<char> {
    if bytes < 1024 {
        decimal(bytes as nat) + "B"@
    } else if bytes < 1048576 {
        tenths_text(units_of(double_of(bytes, 1024), 10)) + "KB"@
    } else {
        tenths_text(units_of(double_of(bytes, 1048576), 10)) + "MB"@
    }
}

/// Format byte counts as B, KB, or MB.
pub fn fmt_bytes(bytes: u64) -> (s: String)
    ensures
        s@ == bytes_text(bytes as int),
{
    let mut s = String::new();
    if bytes < 1024 {
        push_decimal(&mut s, bytes);
        s.append("B");
    } else if bytes < 1048576 {
        push_tenths(&mut s, Double::nearest_to(bytes as u128, 1024).to_units(10));
        s.append("KB");
    } else {
        push_tenths(&mut s, Double::nearest_to(bytes as u128, 1048576).to_units(10));
        s.append("MB");
    }
    assert(s@ =~= bytes_text(bytes as int));
    s
}

/// One client connection seen by the rotating endpoint.
///
/// Targets are `host:port` authorities only, never paths or queries.
#[derive(Clone, Debug)]
pub enum ServeEvent {
    /// A parseable request head arrived from a client.
    Incoming {
        /// Connection sequence number.
        id: u64,
        /// Client socket address, if known.
        client: Option<String>,
        /// Request method (e.g. `GET`, `CONNECT`).
        method: String,
        /// Request target authority (`host:port`).
        target: String,
    },
    /// The connection reached an upstream outcome.
    Completed {
        /// Connection sequence number.
        id: u64,
        /// Client socket address, if known.
        client: Option<String>,
        /// Request method (e.g. `GET`, `CONNECT`).
        method: String,
        /// Request target authority (`host:port`).
        target: String,
        /// Upstream proxy that served it, if any.
        upstream: Option<String>,
        /// Whether the exchange succeeded.
        ok: bool,
        /// Failure reason when `ok` is false.
        reason: Option<String>,
        /// Nanoseconds from accept to completion.
        elapsed: u64,
    },
    /// One trace line for an in-flight connection.
    Trace {
        /// Connection sequence number.
        id: u64,
        /// Rendered trace line.
        text: String,
    },
}

/// An optional text, or a stand-in.
pub open spec fn text_or(t: Option<String>, other: Seq<char>) -> Seq<char> {
    match t {
        Some(s) => s@,
        None => other,
    }
}

/// An event on one line.
pub open spec fn event_text(e: ServeEvent) -> Seq<char> {
    match e {
        ServeEvent::Incoming { id, client, method, target } => "[#"@ + decimal(id as nat) + "] → "@
            + method@ + " "@ + target@ + " from "@ + text_or(client, "-"@),
        ServeEvent::Completed { id, client, method, target, upstream, ok, reason, elapsed } => if ok {
            "[#"@ + decimal(id as nat) + "] ✓ "@ + method@ + " "@ + target@ + " via "@ + text_or(
                upstream,
                "-"@,
            ) + " "@ + dur_text(elapsed as int)
        } else {
            "[#"@ + decimal(id as nat) + "] ✗ "@ + method@ + " "@ + target@ + " via "@ + text_or(
                upstream,
                "-"@,
            ) + " FAIL "@ + text_or(reason, "failed"@) + " "@ + dur_text(elapsed as int)
        },
        ServeEvent::Trace { id, text } => "[#"@ + decimal(id as nat) + "] "@ + text@,
    }
}

fn push_or(s: &mut String, t: &Option<String>, other: &str)
    ensures
        final(s)@ == old(s)@ + text_or(*t, other@),
{
    match t {
        Some(text) => s.append(text.as_str()),
        None => s.append(other),
    }
}

impl ServeEvent {
    /// The event on one line.
    pub fn to_text(&self) -> (s: String)
        ensures
            s@ == event_text(*self),
    {
        let mut s = "[#".to_owned();
        match self {
            ServeEvent::Incoming { id, client, method, target } => {
                push_decimal(&mut s, *id);
                s.append("] → ");
                s.append(method.as_str());
                s.append(" ");
                s.append(target.as_str());
                s.append(" from ");
                push_or(&mut s, client, "-");
            },
            ServeEvent::Completed { id, client: _, method, target, upstream, ok, reason, elapsed } => {
                push_decimal(&mut s, *id);
                if *ok {
                    s.append("] ✓ ");
                } else {
                    s.append("] ✗ ");
                }
                s.append(method.as_str());
                s.append(" ");
                s.append(target.as_str());
                s.append(" via ");
                push_or(&mut s, upstream, "-");
                if !*ok {
                    s.append(" FAIL ");
                    push_or(&mut s, reason, "failed");
                }
                s.append(" ");
                let time = fmt_dur(*elapsed);
                s.append(time.as_str());
            },
            ServeEvent::Trace { id, text } => {
                push_decimal(&mut s, *id);
                s.append("] ");
                s.append(text.as_str());
            },
        }
        s
    }
}

/// Readiness target, never above what the feeder will actually pool.
pub open spec fn ready_goal(pool_size: int, min_ready: int) -> int {
    let pooled = if pool_size < 1 {
        1
    } else {
        pool_size
    };
    let goal = if min_ready < pooled {
        min_ready
    } else {
        pooled
    };
    if goal < MAX_POOL_SIZE {
        goal
    } else {
        MAX_POOL_SIZE as int
    }
}

/// Readiness target, never above what the feeder will actually pool.
pub fn ready_target(pool_size: usize, min_ready: usize) -> (r: usize)
    ensures
        r == ready_goal(pool_size as int, min_ready as int),
{
    let pooled: usize = if pool_size < 1 {
        1
    } else {
        pool_size
    };
    let goal: usize = if min_ready < pooled {
        min_ready
    } else {
        pooled
    };
    if goal < MAX_POOL_SIZE {
        goal
    } else {
        MAX_POOL_SIZE
    }
}

/// Whether there is nothing more to wait for.
pub open spec fn waited_enough(at_once: bool, ready: int, min_ready: int, waited: int) -> bool {
    at_once || ready >= min_ready || waited >= READY_WAIT_TIMEOUT
}

/// Whether the endpoint may serve: nothing is to be waited for, enough proxies
/// are ready, or it has waited long enough.
pub fn may_serve(at_once: bool, ready: usize, min_ready: usize, waited: u64) -> (r: bool)
    ensures
        r == (at_once || ready >= min_ready || waited >= READY_WAIT_TIMEOUT),
        r == waited_enough(at_once, ready as int, min_ready as int, waited as int),
{
    at_once || ready >= min_ready || waited >= READY_WAIT_TIMEOUT
}

/// Serving waits for as many proxies as were asked for, but for no more than
/// the pool will hold.
pub proof fn the_goal_can_be_reached(pool_size: int, min_ready: int)
    requires
        pool_size >= 0,
        min_ready >= 0,
    ensures
        ready_goal(pool_size, min_ready) <= 25,
        ready_goal(pool_size, min_ready) <= min_ready,
        ready_goal(pool_size, min_ready) <= pool_size || ready_goal(pool_size, min_ready) <= 1,
        min_ready <= 25 && min_ready <= pool_size ==> ready_goal(pool_size, min_ready)
            == min_ready,
        min_ready >= 25 && pool_size >= 25 ==> ready_goal(pool_size, min_ready) == 25,
        min_ready >= pool_size && 1 <= pool_size <= 25 ==> ready_goal(pool_size, min_ready)
            == pool_size,
        min_ready >= 1 && pool_size == 0 ==> ready_goal(pool_size, min_ready) == 1,
{
}

/// A duration is told in whole milliseconds below a second, and from a minute
/// on in minutes and the seconds left of them.
pub proof fn durations_are_told_in_their_units(nanos: int, minutes: nat, seconds: nat, whole: nat)
    requires
        nanos >= 0,
        seconds < 60,
    ensures
        nanos < 1_000_000_000 ==> dur_text(nanos) == decimal((nanos / 1_000_000) as nat) + "ms"@,
        minutes > 0 && 0 <= nanos - (minutes * 60 + seconds) * 1_000_000_000 < 1_000_000_000
            ==> dur_text(nanos) == decimal(minutes) + "m "@ + decimal(seconds) + "s"@,
        1 <= whole < 60 ==> dur_text(whole as int * 1_000_000_000) == decimal(whole) + ".0s"@,
{
    if minutes > 0 && 0 <= nanos - (minutes * 60 + seconds) * 1_000_000_000 < 1_000_000_000 {
        let n = (minutes * 60 + seconds) as int;
        assert(nanos / 1_000_000_000 == n);
        assert(n % 60 == seconds);
        assert(nanos / 60_000_000_000 == minutes);
        assert(nanos >= 60_000_000_000);
    }
    if 1 <= whole < 60 {
        crate::double::whole_numbers_are_exact(whole as int, 1_000_000_000, 10);
        assert((whole * 10) / 10 == whole && (whole * 10) % 10 == 0);
        reveal_strlit(".");
        reveal_strlit("s");
        reveal_strlit(".0s");
        crate::text::decimal_reads_back(0, 0);
        assert(decimal(0) =~= seq!['0']);
        assert(dur_text(whole as int * 1_000_000_000) =~= decimal(whole) + ".0s"@);
    }
}

/// A byte count is told in bytes below a kilobyte, and a whole number of
/// kilobytes or megabytes as that number.
pub proof fn byte_counts_are_told_in_their_units(n: nat)
    ensures
        n < 1024 ==> bytes_text(n as int) == decimal(n) + "B"@,
        1 <= n < 1024 ==> bytes_text(n as int * 1024) == decimal(n) + ".0KB"@,
        1 <= n < 0x10_0000_0000 ==> bytes_text(n as int * 1048576) == decimal(n) + ".0MB"@,
{
    reveal_strlit(".");
    reveal_strlit("KB");
    reveal_strlit("MB");
    reveal_strlit(".0KB");
    reveal_strlit(".0MB");
    assert(decimal(0) =~= seq!['0']);
    assert((n * 10) / 10 == n && (n * 10) % 10 == 0);
    if 1 <= n < 1024 {
        crate::double::whole_numbers_are_exact(n as int, 1024, 10);
        assert(bytes_text(n as int * 1024) =~= decimal(n) + ".0KB"@);
    }
    if 1 <= n < 0x10_0000_0000 {
        crate::double::whole_numbers_are_exact(n as int, 1048576, 10);
        assert(bytes_text(n as int * 1048576) =~= decimal(n) + ".0MB"@);
    }
}

/// What the endpoint goes by where nothing else is said.
pub proof fn limits_of_the_pool()
    ensures
        MAX_POOL_SIZE == 25,
        DEFAULT_POOL_SIZE == 25,
        DEFAULT_MIN_READY == 1,
        DEFAULT_PORT == 8080,
        DEFAULT_REFRESH_SECS == 300,
        DEFAULT_REQUEST_TIMEOUT == 30_000,
        MAX_CONSECUTIVE_FAILURES == 3,
        COOLDOWN == 60_000,
        READY_WAIT_TIMEOUT == 120_000,
        DEFAULT_BIND@ == "127.0.0.1"@,
{
}

/// An endpoint that is not to serve at once waits for enough proxies, but two
/// minutes at the most.
pub proof fn endpoints_wait_for_proxies(ready: int, min_ready: int, waited: int)
    ensures
        waited_enough(true, ready, min_ready, waited),
        waited < 120_000 ==> (waited_enough(false, ready, min_ready, waited) <==> ready
            >= min_ready),
        waited >= 120_000 ==> waited_enough(false, ready, min_ready, waited),
        REQUEST_HEAD_TIMEOUT == 10_000,
        READY_POLL_INTERVAL == 100,
        EVENT_CHANNEL_CAPACITY == 1024,
{
}

/// An event is told by its connection, what was asked of whom, and, once it is
/// over, by way of which upstream and in what time; a failure with its reason.
pub proof fn events_are_told(e: ServeEvent)
    ensures
        e matches ServeEvent::Incoming { id, client, method, target } ==> event_text(e) == "[#"@
            + decimal(id as nat) + "] → "@ + method@ + " "@ + target@ + " from "@ + (if client is Some {
            client->0@
        } else {
            "-"@
        }),
        e matches ServeEvent::Completed {
            id,
            client,
            method,
            target,
            upstream,
            ok,
            reason,
            elapsed,
        } ==> event_text(e) == "[#"@ + decimal(id as nat) + (if ok {
            "] ✓ "@
        } else {
            "] ✗ "@
        }) + method@ + " "@ + target@ + " via "@ + (if upstream is Some {
            upstream->0@
        } else {
            "-"@
        }) + (if ok {
            " "@
        } else {
            " FAIL "@ + (if reason is Some {
                reason->0@
            } else {
                "failed"@
            }) + " "@
        }) + dur_text(elapsed as int),
        e matches ServeEvent::Trace { id, text } ==> event_text(e) == "[#"@ + decimal(id as nat)
            + "] "@ + text@,
{
    match e {
        ServeEvent::Completed { id, client, method, target, upstream, ok, reason, elapsed } => {
            let head = "[#"@ + decimal(id as nat) + (if ok {
                "] ✓ "@
            } else {
                "] ✗ "@
            }) + method@ + " "@ + target@ + " via "@ + (if upstream is Some {
                upstream->0@
            } else {
                "-"@
            });
            if !ok {
                let why = if reason is Some {
                    reason->0@
                } else {
                    "failed"@
                };
                assert(event_text(e) =~= head + (" FAIL "@ + why + " "@) + dur_text(elapsed as int));
            }
        },
        _ => {},
    }
}

} // verus!
