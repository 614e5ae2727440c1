//! Sending a request directly or through a proxy: the order of its phases, the
//! time each may take, and what is recorded of it.

use crate::proxy::models::{average, Proxy, RuntimeStats};
use crate::text::{chars_of, copy_str};
use vstd::prelude::*;

verus! {

/// Milliseconds that a connection is kept alive for its response.
pub const CONNECTION_LINGER: u64 = 30_000;

/// A value with the timing samples collected while it was made.
#[derive(Clone, Debug)]
pub struct ProxyRuntimes<T> {
    /// Wrapped value, usually a socket or HTTP response.
    pub inner: T,
    /// Timing samples collected while producing the value.
    pub runtimes: RuntimeStats,
}

impl<T> ProxyRuntimes<T> {
    /// Records the average runtime onto the proxy when a sample exists.
    pub fn apply(&self, proxy: &mut Proxy)
        requires
            self.runtimes.wf(),
            old(proxy).wf(),
            old(proxy).runtimes.count < u32::MAX,
        ensures
            final(proxy).wf(),
            *final(proxy) == (Proxy {
                runtimes: if average(self.runtimes).total > 0 {
                    old(proxy).runtimes.with(average(self.runtimes).micros_spec() as u64)
                } else {
                    old(proxy).runtimes
                },
                ..*old(proxy)
            }),
    {
        let avg = self.runtimes.avg();
        if avg.total > 0 {
            proxy.runtimes.record(avg.micros());
        }
    }
}

/// Transport switches of one request.
#[derive(Clone, Copy, Debug, PartialEq, Eq, Structural)]
pub struct SendOptions {
    /// Wraps the socket in TLS before the HTTP/1 handshake.
    pub tls: bool,
    /// Skips TLS certificate verification.
    pub insecure: bool,
}

/// The name that a TLS handshake asks for: the target's, which a request has
/// to have.
pub fn sni_host(host: Option<&str>) -> (r: Option<String>)
    ensures
        match r {
            Some(h) => host is Some && host->0@.len() > 0 && h@ == host->0@,
            None => host is None || host->0@.len() == 0,
        },
{
    match host {
        Some(h) => if chars_of(h).len() > 0 {
            Some(copy_str(h))
        } else {
            None
        },
        None => None,
    }
}

/// What a request asks of its connection.
#[derive(Clone, Copy, Debug, PartialEq, Eq, Structural)]
pub struct RequestPlan {
    /// Whether the tunnel carries TLS, where a proxy is to be negotiated with.
    pub negotiator: Option<bool>,
    /// Whether the target is asked for by `https`.
    pub https: bool,
    pub insecure: bool,
}

/// What a request does next, and in how many milliseconds at most.
#[derive(Clone, Copy, Debug, PartialEq, Eq, Structural)]
pub enum RequestStep {
    Connect(u64),
    Negotiate(u64),
    Send(u64, SendOptions),
    Done,
    Failed(RequestError),
}

/// Why a request failed.
#[derive(Clone, Copy, Debug, PartialEq, Eq, Structural)]
pub enum RequestError {
    /// The time was over before the connection was tried.
    LateConnect,
    ConnectTimedOut,
    ConnectFailed,
    NegotiationTimedOut,
    NegotiationFailed,
    /// The time was over before the request could be sent.
    LateSend,
    SendTimedOut,
    SendFailed,
}

/// What a failed request is reported as. The time of a request over TLS runs
/// out in words of its own.
pub open spec fn request_error_text(e: RequestError, host: Seq<char>, tls: bool) -> Seq<char> {
    match e {
        RequestError::LateConnect => "proxy request timed out before TCP connect"@,
        RequestError::ConnectTimedOut => "timed out connecting to "@ + host,
        RequestError::ConnectFailed => "failed to connect to "@ + host,
        RequestError::NegotiationTimedOut => "proxy negotiation with "@ + host + " timed out"@,
        RequestError::NegotiationFailed => "failed to negotiate with proxy "@ + host,
        RequestError::LateSend => "proxy request timed out before send"@,
        RequestError::SendTimedOut => if tls {
            "timed out sending request over TLS"@
        } else {
            "timed out sending request"@
        },
        RequestError::SendFailed => if tls {
            "failed to send request over TLS connection"@
        } else {
            "failed to send request to proxy"@
        },
    }
}

impl RequestError {
    /// What a failed request to a host is reported as.
    pub fn to_text(&self, host: &str, tls: bool) -> (s: String)
        ensures
            s@ == request_error_text(*self, host@, tls),
    {
        match self {
            RequestError::LateConnect => copy_str("proxy request timed out before TCP connect"),
            RequestError::ConnectTimedOut => {
                let mut s = copy_str("timed out connecting to ");
                s.append(host);
                s
            },
            RequestError::ConnectFailed => {
                let mut s = copy_str("failed to connect to ");
                s.append(host);
                s
            },
            RequestError::NegotiationTimedOut => {
                let mut s = copy_str("proxy negotiation with ");
                s.append(host);
                s.append(" timed out");
                s
            },
            RequestError::NegotiationFailed => {
                let mut s = copy_str("failed to negotiate with proxy ");
                s.append(host);
                s
            },
            RequestError::LateSend => copy_str("proxy request timed out before send"),
            RequestError::SendTimedOut => if tls {
                copy_str("timed out sending request over TLS")
            } else {
                copy_str("timed out sending request")
            },
            RequestError::SendFailed => if tls {
                copy_str("failed to send request over TLS connection")
            } else {
                copy_str("failed to send request to proxy")
            },
        }
    }
}

/// What came of a step.
#[derive(Clone, Copy, Debug, PartialEq, Eq, Structural)]
pub enum StepResult {
    Succeeded,
    Failed,
    TimedOut,
}

/// The milliseconds that are left until a deadline, where it has not passed.
pub open spec fn left_until(deadline: u64, now: u64) -> Option<u64> {
    if now <= deadline {
        Some((deadline - now) as u64)
    } else {
        None
    }
}

fn remaining(deadline: u64, now: u64) -> (r: Option<u64>)
    ensures
        r == left_until(deadline, now),
{
    if now <= deadline {
        Some(deadline - now)
    } else {
        None
    }
}

/// How a request is sent: over TLS where the tunnel carries it or the target
/// asks for it.
pub open spec fn switches(plan: RequestPlan) -> SendOptions {
    SendOptions {
        tls: plan.negotiator == Some(true) || plan.https,
        insecure: plan.insecure,
    }
}

/// The first step of a request.
pub open spec fn begun(left: Option<u64>) -> RequestStep {
    match left {
        Some(t) => RequestStep::Connect(t),
        None => RequestStep::Failed(RequestError::LateConnect),
    }
}

/// The step that sends a request.
pub open spec fn sending(plan: RequestPlan, left: Option<u64>) -> RequestStep {
    match left {
        Some(t) => RequestStep::Send(t, switches(plan)),
        None => RequestStep::Failed(RequestError::LateSend),
    }
}

/// What follows a step: connect, negotiate where there is a proxy, send. One
/// deadline is shared by all of them.
pub open spec fn step_after(
    plan: RequestPlan,
    step: RequestStep,
    result: StepResult,
    left: Option<u64>,
) -> RequestStep {
    match step {
        RequestStep::Connect(_) => match result {
            StepResult::Succeeded => match plan.negotiator {
                Some(_) => match left {
                    Some(t) => RequestStep::Negotiate(t),
                    None => RequestStep::Failed(RequestError::NegotiationTimedOut),
                },
                None => sending(plan, left),
            },
            StepResult::Failed => RequestStep::Failed(RequestError::ConnectFailed),
            StepResult::TimedOut => RequestStep::Failed(RequestError::ConnectTimedOut),
        },
        RequestStep::Negotiate(_) => match result {
            StepResult::Succeeded => sending(plan, left),
            StepResult::Failed => RequestStep::Failed(RequestError::NegotiationFailed),
            StepResult::TimedOut => RequestStep::Failed(RequestError::NegotiationTimedOut),
        },
        RequestStep::Send(_, _) => match result {
            StepResult::Succeeded => RequestStep::Done,
            StepResult::Failed => RequestStep::Failed(RequestError::SendFailed),
            StepResult::TimedOut => RequestStep::Failed(RequestError::SendTimedOut),
        },
        RequestStep::Done => RequestStep::Done,
        RequestStep::Failed(e) => RequestStep::Failed(e),
    }
}

/// The first step of a request that has to be answered by a deadline.
pub fn begin_request(deadline: u64, now: u64) -> (r: RequestStep)
    ensures
        r == begun(left_until(deadline, now)),
{
    match remaining(deadline, now) {
        Some(t) => RequestStep::Connect(t),
        None => RequestStep::Failed(RequestError::LateConnect),
    }
}

/// What a request does after a step, given what came of it.
pub fn send_request(
    plan: RequestPlan,
    step: RequestStep,
    result: StepResult,
    deadline: u64,
    now: u64,
) -> (r: RequestStep)
    ensures
        r == step_after(plan, step, result, left_until(deadline, now)),
{
    let left = remaining(deadline, now);
    let tunnelled = match plan.negotiator {
        Some(with_tls) => with_tls,
        None => false,
    };
    let options = SendOptions { tls: tunnelled || plan.https, insecure: plan.insecure };
    let send = match left {
        Some(t) => RequestStep::Send(t, options),
        None => RequestStep::Failed(RequestError::LateSend),
    };
    match step {
        RequestStep::Connect(_) => match result {
            StepResult::Succeeded => match plan.negotiator {
                Some(_) => match left {
                    Some(t) => RequestStep::Negotiate(t),
                    None => RequestStep::Failed(RequestError::NegotiationTimedOut),
                },
                None => send,
            },
            StepResult::Failed => RequestStep::Failed(RequestError::ConnectFailed),
            StepResult::TimedOut => RequestStep::Failed(RequestError::ConnectTimedOut),
        },
        RequestStep::Negotiate(_) => match result {
            StepResult::Succeeded => send,
            StepResult::Failed => RequestStep::Failed(RequestError::NegotiationFailed),
            StepResult::TimedOut => RequestStep::Failed(RequestError::NegotiationTimedOut),
        },
        RequestStep::Send(_, _) => match result {
            StepResult::Succeeded => RequestStep::Done,
            StepResult::Failed => RequestStep::Failed(RequestError::SendFailed),
            StepResult::TimedOut => RequestStep::Failed(RequestError::SendTimedOut),
        },
        RequestStep::Done => RequestStep::Done,
        RequestStep::Failed(e) => RequestStep::Failed(e),
    }
}

/// Nothing is sent through a proxy that has not been negotiated with.
pub proof fn nothing_is_sent_before_the_handshake(
    plan: RequestPlan,
    step: RequestStep,
    result: StepResult,
    left: Option<u64>,
)
    requires
        plan.negotiator is Some,
        step_after(plan, step, result, left) is Send,
    ensures
        step is Negotiate && result == StepResult::Succeeded,
        step_after(plan, step, result, left)->Send_1 == switches(plan),
{
}

/// A request that goes well is connected, negotiated where there is a proxy to
/// negotiate with, and sent, each within what is left of the time.
pub proof fn requests_go_their_way(plan: RequestPlan, t: u64, left: u64)
    ensures
        begun(Some(t)) == RequestStep::Connect(t),
        plan.negotiator is Some ==> step_after(
            plan,
            RequestStep::Connect(t),
            StepResult::Succeeded,
            Some(left),
        ) == RequestStep::Negotiate(left),
        plan.negotiator is None ==> step_after(
            plan,
            RequestStep::Connect(t),
            StepResult::Succeeded,
            Some(left),
        ) == RequestStep::Send(left, switches(plan)),
        step_after(plan, RequestStep::Negotiate(t), StepResult::Succeeded, Some(left))
            == RequestStep::Send(left, switches(plan)),
        step_after(plan, RequestStep::Send(t, switches(plan)), StepResult::Succeeded, Some(left))
            == RequestStep::Done,
        switches(plan).tls <==> plan.https || plan.negotiator == Some(true),
        switches(plan).insecure == plan.insecure,
{
}

/// A request fails by the step that failed, or that came too late.
pub proof fn requests_fail_by_their_step(
    plan: RequestPlan,
    t: u64,
    options: SendOptions,
    left: Option<u64>,
)
    ensures
        begun(None) == RequestStep::Failed(RequestError::LateConnect),
        step_after(plan, RequestStep::Connect(t), StepResult::Failed, left) == RequestStep::Failed(
            RequestError::ConnectFailed,
        ),
        step_after(plan, RequestStep::Connect(t), StepResult::TimedOut, left)
            == RequestStep::Failed(RequestError::ConnectTimedOut),
        plan.negotiator is Some ==> step_after(
            plan,
            RequestStep::Connect(t),
            StepResult::Succeeded,
            None,
        ) == RequestStep::Failed(RequestError::NegotiationTimedOut),
        plan.negotiator is None ==> step_after(
            plan,
            RequestStep::Connect(t),
            StepResult::Succeeded,
            None,
        ) == RequestStep::Failed(RequestError::LateSend),
        step_after(plan, RequestStep::Negotiate(t), StepResult::Failed, left)
            == RequestStep::Failed(RequestError::NegotiationFailed),
        step_after(plan, RequestStep::Negotiate(t), StepResult::TimedOut, left)
            == RequestStep::Failed(RequestError::NegotiationTimedOut),
        step_after(plan, RequestStep::Negotiate(t), StepResult::Succeeded, None)
            == RequestStep::Failed(RequestError::LateSend),
        step_after(plan, RequestStep::Send(t, options), StepResult::Failed, left)
            == RequestStep::Failed(RequestError::SendFailed),
        step_after(plan, RequestStep::Send(t, options), StepResult::TimedOut, left)
            == RequestStep::Failed(RequestError::SendTimedOut),
{
}

/// The steps share one deadline: what is left is what the clock leaves, and
/// nothing behind it.
pub proof fn the_deadline_is_shared(deadline: u64, now: u64)
    ensures
        now <= deadline ==> left_until(deadline, now) == Some((deadline - now) as u64),
        now > deadline ==> left_until(deadline, now) is None,
{
}

} // verus!
