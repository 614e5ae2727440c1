//! What a run of the pipeline decides: which rows it emits, when a pass is
//! over, whether a second one follows, and what it adds up to.

use crate::fetcher::phase::FetchStage;
use crate::proxy::models::{Anonymity, Protocol};
use crate::text::{decimal, push_decimal};
use crate::tui::app::{minus, RunSummary};
use vstd::prelude::*;

verus! {

/// Bound on queued proxy rows; overflow backpressures the pipeline.
pub const ENGINE_CHANNEL_CAPACITY: usize = 256;

/// What a run is started with.
#[derive(Clone, Debug)]
pub struct RunSpec {
    /// Whether candidates are validated rather than scraped only.
    pub validates: bool,
    /// Whether candidates come from files.
    pub from_files: bool,
    /// Rows after which the run is over; zero means no bound.
    pub limit: usize,
    /// Output format.
    pub format: String,
}

impl RunSpec {
    /// Whether this is a validating (`find`) run rather than a plain scrape.
    pub fn is_find(&self) -> (r: bool)
        ensures
            r == self.validates,
    {
        self.validates
    }
}

/// Coarse pipeline phase shown in the dashboard header.
#[derive(Clone, Copy, Debug, PartialEq, Eq, Structural)]
pub enum Phase {
    Starting,
    Preparing,
    FetchingPrimary,
    FetchingFallback,
    Gathering,
    CheckingJudges,
    ValidatingPass(u8),
    Finished,
    Failed,
}

/// A phase in words.
pub open spec fn phase_text(p: Phase) -> Seq<char> {
    match p {
        Phase::Starting => "starting"@,
        Phase::Preparing => "preparing"@,
        Phase::FetchingPrimary => "primary sources"@,
        Phase::FetchingFallback => "fallback sources"@,
        Phase::Gathering => "gathering"@,
        Phase::CheckingJudges => "checking judges"@,
        Phase::ValidatingPass(pass) => "validating pass "@ + decimal(pass as nat),
        Phase::Finished => "done"@,
        Phase::Failed => "failed"@,
    }
}

impl Phase {
    /// The phase in words.
    pub fn label(self) -> (s: String)
        ensures
            s@ == phase_text(self),
    {
        match self {
            Phase::Starting => "starting".to_owned(),
            Phase::Preparing => "preparing".to_owned(),
            Phase::FetchingPrimary => "primary sources".to_owned(),
            Phase::FetchingFallback => "fallback sources".to_owned(),
            Phase::Gathering => "gathering".to_owned(),
            Phase::CheckingJudges => "checking judges".to_owned(),
            Phase::ValidatingPass(pass) => {
                let mut s = "validating pass ".to_owned();
                push_decimal(&mut s, pass as u64);
                s
            },
            Phase::Finished => "done".to_owned(),
            Phase::Failed => "failed".to_owned(),
        }
    }
}

/// The phase that a run begins with: candidates from files go to the judges at
/// once.
pub open spec fn opening_phase(validates: bool, from_files: bool) -> Phase {
    if validates && from_files {
        Phase::CheckingJudges
    } else {
        Phase::Preparing
    }
}

/// The phase that a run begins with.
pub fn first_phase(spec: &RunSpec) -> (r: Phase)
    ensures
        r == opening_phase(spec.validates, spec.from_files),
{
    if spec.validates && spec.from_files {
        Phase::CheckingJudges
    } else {
        Phase::Preparing
    }
}

/// The phase that a stage of the fetcher stands for. Behind the last one a
/// validating run checks its judges, and a scrape gathers.
pub open spec fn stage_phase(stage: FetchStage, validates: bool) -> Phase {
    match stage {
        FetchStage::Primary => Phase::FetchingPrimary,
        FetchStage::Fallback => Phase::FetchingFallback,
        FetchStage::Done => if validates {
            Phase::CheckingJudges
        } else {
            Phase::Gathering
        },
    }
}

/// The phase that a stage of the fetcher stands for.
pub fn phase_of_stage(stage: FetchStage, validates: bool) -> (r: Phase)
    ensures
        r == stage_phase(stage, validates),
{
    match stage {
        FetchStage::Primary => Phase::FetchingPrimary,
        FetchStage::Fallback => Phase::FetchingFallback,
        FetchStage::Done => if validates {
            Phase::CheckingJudges
        } else {
            Phase::Gathering
        },
    }
}

/// How far a validation has come.
#[derive(Clone, Copy, Debug, PartialEq, Eq, Structural)]
pub struct Progress {
    pub done: usize,
    pub total: usize,
    pub passed: usize,
    /// The share that is done, as a part of a whole.
    pub part: u32,
    pub whole: u32,
}

/// State the UI polls each tick instead of receiving events for.
#[derive(Clone, Debug)]
pub struct LiveState {
    pub phase: Phase,
    /// When the current phase began, so the spinner delay is per phase rather
    /// than per run.
    pub phase_started: u64,
    pub gathered: usize,
    pub progress: Option<Progress>,
    /// Whether the run is held up, once it can be.
    pub gate: Option<bool>,
    pub error: Option<String>,
}

impl LiveState {
    /// A run that has just started.
    pub fn new(now: u64) -> (s: Self)
        ensures
            s.phase == Phase::Starting,
            s.phase_started == now,
            s.gathered == 0,
            s.progress is None,
            s.gate is None,
            s.error is None,
    {
        LiveState {
            phase: Phase::Starting,
            phase_started: now,
            gathered: 0,
            progress: None,
            gate: None,
            error: None,
        }
    }

    /// Whether the run is held up.
    pub fn paused(&self) -> (r: bool)
        ensures
            r == (self.gate == Some(true)),
    {
        match self.gate {
            Some(paused) => paused,
            None => false,
        }
    }

    /// Holds the run up, or lets it go on, once that can be done.
    pub fn toggle_pause(&mut self)
        ensures
            *final(self) == (LiveState {
                gate: match old(self).gate {
                    Some(paused) => Some(!paused),
                    None => None,
                },
                ..*old(self)
            }),
    {
        if let Some(paused) = self.gate {
            self.gate = Some(!paused);
        }
    }

    /// How long the current phase has been running, in nanoseconds.
    pub fn phase_elapsed(&self, now: u64) -> (r: u64)
        ensures
            r == minus(now as int, self.phase_started as int),
    {
        now.saturating_sub(self.phase_started)
    }

    /// Moves to `phase` and restarts its clock.
    pub fn enter(&mut self, phase: Phase, now: u64)
        ensures
            *final(self) == (LiveState { phase, phase_started: now, ..*old(self) }),
    {
        self.phase = phase;
        self.phase_started = now;
    }
}

// ---------------------------------------------------------------------------
// Passes
// ---------------------------------------------------------------------------

/// Whether a row may be emitted under the active per-type quotas.
#[derive(Clone, Copy, Debug, PartialEq, Eq, Structural)]
pub enum QuotaDecision {
    Emit,
    Skip,
    Stop,
}

/// What quotas decide on a row that they take or do not, satisfied or not.
pub open spec fn quota_verdict(takes: bool, satisfied: bool) -> QuotaDecision {
    if takes {
        QuotaDecision::Emit
    } else if satisfied {
        QuotaDecision::Stop
    } else {
        QuotaDecision::Skip
    }
}

/// What quotas decide on a row that they take or do not, satisfied or not.
pub fn quota_decision(takes: bool, satisfied: bool) -> (r: QuotaDecision)
    ensures
        r == quota_verdict(takes, satisfied),
{
    if takes {
        QuotaDecision::Emit
    } else if satisfied {
        QuotaDecision::Stop
    } else {
        QuotaDecision::Skip
    }
}

/// One pass over candidates.
#[derive(Clone, Copy, Debug, PartialEq, Eq, Structural)]
pub struct Pass {
    /// Rows after which the pass is over; zero means no bound.
    pub limit: usize,
    /// Rows that were emitted.
    pub emitted: usize,
    pub over: bool,
}

/// What a pass does with a row.
#[derive(Clone, Copy, Debug, PartialEq, Eq, Structural)]
pub enum RowAction {
    Send,
    Drop,
    /// The pass is over.
    End,
}

/// What a pass does with a row that the filter lets through or not.
pub open spec fn row_action(p: Pass, passes_filter: bool, quota: QuotaDecision) -> RowAction {
    if p.over {
        RowAction::End
    } else if !passes_filter {
        RowAction::Drop
    } else {
        match quota {
            QuotaDecision::Emit => RowAction::Send,
            QuotaDecision::Skip => RowAction::Drop,
            QuotaDecision::Stop => RowAction::End,
        }
    }
}

/// A pass behind a row that was sent, or could not be.
pub open spec fn row_sent(p: Pass, delivered: bool, saturated: bool) -> Pass {
    if !delivered {
        Pass { over: true, ..p }
    } else {
        let emitted = (p.emitted + 1) as usize;
        Pass { emitted, over: (p.limit > 0 && emitted >= p.limit) || saturated, ..p }
    }
}

impl Pass {
    /// A pass that has emitted no more than it may.
    pub open spec fn wf(self) -> bool {
        self.limit > 0 ==> self.emitted <= self.limit && (self.emitted == self.limit ==> self.over)
    }

    /// A pass that has not begun.
    pub fn new(limit: usize) -> (p: Self)
        ensures
            p == (Pass { limit, emitted: 0, over: false }),
            p.wf(),
    {
        Pass { limit, emitted: 0, over: false }
    }

    /// Decides on a row. Quotas are asked for rows that the filter lets
    /// through only.
    pub fn offer(&mut self, passes_filter: bool, quota: QuotaDecision) -> (r: RowAction)
        ensures
            r == row_action(*old(self), passes_filter, quota),
            *final(self) == (Pass { over: r == RowAction::End, ..*old(self) }),
    {
        if self.over {
            return RowAction::End;
        }
        if !passes_filter {
            return RowAction::Drop;
        }
        match quota {
            QuotaDecision::Emit => RowAction::Send,
            QuotaDecision::Skip => RowAction::Drop,
            QuotaDecision::Stop => {
                self.over = true;
                RowAction::End
            },
        }
    }

    /// Takes whether a row was delivered, and whether the quotas are used up.
    pub fn sent(&mut self, delivered: bool, saturated: bool)
        requires
            old(self).wf(),
            !old(self).over,
            old(self).emitted < usize::MAX,
        ensures
            *final(self) == row_sent(*old(self), delivered, saturated),
            final(self).wf(),
    {
        if !delivered {
            self.over = true;
            return;
        }
        self.emitted = self.emitted + 1;
        if self.limit > 0 && self.emitted >= self.limit {
            self.over = true;
        }
        if saturated {
            self.over = true;
        }
    }
}

/// A bounded pass never emits more rows than its bound: with the bound reached
/// it sends no row more.
pub proof fn pass_keeps_its_bound(p: Pass, passes_filter: bool, quota: QuotaDecision)
    requires
        p.wf(),
        p.limit > 0,
        p.emitted == p.limit,
    ensures
        row_action(p, passes_filter, quota) == RowAction::End,
{
}

/// The protocols that a run asks for: plain HTTP where neither types nor groups
/// were named.
pub open spec fn asked_protocols(types: Seq<Protocol>, has_groups: bool) -> Seq<Protocol> {
    if types.len() == 0 && !has_groups {
        seq![Protocol::Http(Anonymity::Unknown)]
    } else {
        types
    }
}

/// The protocols that a run asks for.
pub fn requested_protocols(types: Vec<Protocol>, has_groups: bool) -> (r: Vec<Protocol>)
    ensures
        r@ == asked_protocols(types@, has_groups),
{
    if types.len() == 0 && !has_groups {
        let r = vec![Protocol::Http(Anonymity::Unknown)];
        assert(r@ =~= seq![Protocol::Http(Anonymity::Unknown)]);
        r
    } else {
        types
    }
}

/// The bound of the second pass: what the first left of it. Zero means no
/// bound.
pub open spec fn remaining_limit(limit: usize, has_quotas: bool, emitted: usize, passed: usize) -> usize {
    if limit > 0 {
        minus(
            limit as int,
            if has_quotas {
                emitted as int
            } else {
                passed as int
            },
        ) as usize
    } else {
        0
    }
}

/// The bound of the second pass.
pub fn second_limit(limit: usize, has_quotas: bool, emitted: usize, passed: usize) -> (r: usize)
    ensures
        r == remaining_limit(limit, has_quotas, emitted, passed),
{
    if limit > 0 {
        limit.saturating_sub(
            if has_quotas {
                emitted
            } else {
                passed
            },
        )
    } else {
        0
    }
}

/// Probes that did not pass.
pub open spec fn failed_probes(p: Progress) -> int {
    minus(p.done as int, p.passed as int)
}

/// Where a validating run stands.
#[derive(Clone, Copy, Debug, PartialEq, Eq, Structural)]
pub enum FindState {
    /// The first pass goes on.
    First(Pass),
    /// The second pass goes on, with the tally of the first.
    Second {
        valid: usize,
        failed: usize,
        pass: Pass,
    },
    /// The run is over, with its tally.
    Over {
        valid: usize,
        failed: usize,
    },
}

/// The state behind the first pass: a second one follows where it is wanted
/// and there are candidates.
pub open spec fn first_done(
    limit: usize,
    has_quotas: bool,
    pass: Pass,
    progress: Progress,
    fallback: bool,
    candidates: nat,
) -> FindState {
    let failed = failed_probes(progress) as usize;
    if fallback && candidates > 0 {
        FindState::Second {
            valid: pass.emitted,
            failed,
            pass: Pass {
                limit: remaining_limit(limit, has_quotas, pass.emitted, progress.passed),
                emitted: 0,
                over: false,
            },
        }
    } else {
        FindState::Over { valid: pass.emitted, failed }
    }
}

/// Ends the first pass.
pub fn finish_first(
    limit: usize,
    has_quotas: bool,
    pass: Pass,
    progress: Progress,
    fallback: bool,
    candidates: usize,
) -> (r: FindState)
    ensures
        r == first_done(limit, has_quotas, pass, progress, fallback, candidates as nat),
{
    let failed: usize = progress.done.saturating_sub(progress.passed);
    if fallback && candidates > 0 {
        FindState::Second {
            valid: pass.emitted,
            failed,
            pass: Pass::new(second_limit(limit, has_quotas, pass.emitted, progress.passed)),
        }
    } else {
        FindState::Over { valid: pass.emitted, failed }
    }
}

/// Ends the second pass: both passes add up.
pub fn finish_second(valid: usize, failed: usize, pass: Pass, progress: Progress) -> (r: FindState)
    requires
        valid + pass.emitted <= usize::MAX,
        failed + failed_probes(progress) <= usize::MAX,
    ensures
        r == (FindState::Over {
            valid: (valid + pass.emitted) as usize,
            failed: (failed + failed_probes(progress)) as usize,
        }),
{
    FindState::Over {
        valid: valid + pass.emitted,
        failed: failed + progress.done.saturating_sub(progress.passed),
    }
}

/// What a validating run is bound by.
#[derive(Clone, Copy, Debug, PartialEq, Eq, Structural)]
pub struct FindRules {
    /// Rows after which the run is over; zero means no bound.
    pub limit: usize,
    pub has_quotas: bool,
}

/// What happened in a validating run.
#[derive(Clone, Copy, Debug, PartialEq, Eq, Structural)]
pub enum FindEvent {
    /// A validated row came out, which the filter lets through or not and the
    /// quotas take or not.
    Row {
        passes_filter: bool,
        quota: QuotaDecision,
    },
    /// A row was delivered or not, and the quotas are used up or not.
    Sent {
        delivered: bool,
        saturated: bool,
    },
    /// The pass is over; a second one is wanted or not.
    PassEnded {
        progress: Progress,
        fallback: bool,
        candidates: usize,
    },
}

/// What a validating run asks for.
#[derive(Clone, Copy, Debug, PartialEq, Eq, Structural)]
pub enum FindAction {
    /// Deliver the row.
    Deliver,
    /// Wait for the next row.
    Next,
    /// End the pass.
    EndPass,
    /// Validate the recorded candidates once more.
    StartSecond,
    /// Report the end.
    Finish,
}

/// What is asked for behind a decision on a row.
pub open spec fn asked_for(r: RowAction) -> FindAction {
    match r {
        RowAction::Send => FindAction::Deliver,
        RowAction::Drop => FindAction::Next,
        RowAction::End => FindAction::EndPass,
    }
}

/// A pass behind what happened in it, and what is asked for.
pub open spec fn pass_step(p: Pass, event: FindEvent) -> (Pass, FindAction) {
    match event {
        FindEvent::Row { passes_filter, quota } => {
            let r = row_action(p, passes_filter, quota);
            (Pass { over: r == RowAction::End, ..p }, asked_for(r))
        },
        FindEvent::Sent { delivered, saturated } => {
            let next = row_sent(p, delivered, saturated);
            (
                next,
                if next.over {
                    FindAction::EndPass
                } else {
                    FindAction::Next
                },
            )
        },
        FindEvent::PassEnded { .. } => (p, FindAction::EndPass),
    }
}

/// The next state of a validating run, and what it asks for.
pub open spec fn find_step(rules: FindRules, state: FindState, event: FindEvent) -> (
    FindState,
    FindAction,
) {
    match state {
        FindState::First(pass) => match event {
            FindEvent::PassEnded { progress, fallback, candidates } => {
                let next = first_done(
                    rules.limit,
                    rules.has_quotas,
                    pass,
                    progress,
                    fallback,
                    candidates as nat,
                );
                (
                    next,
                    if next is Second {
                        FindAction::StartSecond
                    } else {
                        FindAction::Finish
                    },
                )
            },
            _ => {
                let (next, action) = pass_step(pass, event);
                (FindState::First(next), action)
            },
        },
        FindState::Second { valid, failed, pass } => match event {
            FindEvent::PassEnded { progress, .. } => (
                FindState::Over {
                    valid: (valid + pass.emitted) as usize,
                    failed: (failed + failed_probes(progress)) as usize,
                },
                FindAction::Finish,
            ),
            _ => {
                let (next, action) = pass_step(pass, event);
                (FindState::Second { valid, failed, pass: next }, action)
            },
        },
        FindState::Over { .. } => (state, FindAction::Finish),
    }
}

/// Whether a run's numbers are sound and leave room for an event.
pub open spec fn find_ready(state: FindState, event: FindEvent) -> bool {
    &&& match state {
        FindState::First(pass) => pass.wf() && pass.emitted < usize::MAX && (event is Sent
            ==> !pass.over),
        FindState::Second { valid, failed, pass } => pass.wf() && pass.emitted < usize::MAX && (
        event is Sent ==> !pass.over) && valid + pass.emitted <= usize::MAX,
        FindState::Over { .. } => true,
    }
    &&& (state matches FindState::Second { failed, .. } && event matches FindEvent::PassEnded {
        progress,
        ..
    }) ==> failed_sum(state, event) <= usize::MAX
}

/// The failed probes of both passes.
pub open spec fn failed_sum(state: FindState, event: FindEvent) -> int {
    match (state, event) {
        (FindState::Second { failed, .. }, FindEvent::PassEnded { progress, .. }) => failed
            + failed_probes(progress),
        _ => 0,
    }
}

fn step_pass(pass: Pass, event: FindEvent) -> (r: (Pass, FindAction))
    requires
        pass.wf(),
        pass.emitted < usize::MAX,
        event is Sent ==> !pass.over,
    ensures
        r == pass_step(pass, event),
{
    let mut next = pass;
    match event {
        FindEvent::Row { passes_filter, quota } => {
            let action = match next.offer(passes_filter, quota) {
                RowAction::Send => FindAction::Deliver,
                RowAction::Drop => FindAction::Next,
                RowAction::End => FindAction::EndPass,
            };
            (next, action)
        },
        FindEvent::Sent { delivered, saturated } => {
            next.sent(delivered, saturated);
            let action = if next.over {
                FindAction::EndPass
            } else {
                FindAction::Next
            };
            (next, action)
        },
        FindEvent::PassEnded { .. } => (next, FindAction::EndPass),
    }
}

/// Takes what happened in a validating run.
pub fn run_find(rules: FindRules, state: FindState, event: FindEvent) -> (r: (FindState, FindAction))
    requires
        find_ready(state, event),
    ensures
        r == find_step(rules, state, event),
{
    match state {
        FindState::First(pass) => match event {
            FindEvent::PassEnded { progress, fallback, candidates } => {
                let next = finish_first(
                    rules.limit,
                    rules.has_quotas,
                    pass,
                    progress,
                    fallback,
                    candidates,
                );
                let action = match next {
                    FindState::Second { .. } => FindAction::StartSecond,
                    _ => FindAction::Finish,
                };
                (next, action)
            },
            _ => {
                let (next, action) = step_pass(pass, event);
                (FindState::First(next), action)
            },
        },
        FindState::Second { valid, failed, pass } => match event {
            FindEvent::PassEnded { progress, .. } => {
                (finish_second(valid, failed, pass, progress), FindAction::Finish)
            },
            _ => {
                let (next, action) = step_pass(pass, event);
                (FindState::Second { valid, failed, pass: next }, action)
            },
        },
        FindState::Over { .. } => (state, FindAction::Finish),
    }
}

/// The phase that a validating run shows.
pub open spec fn find_phase(state: FindState) -> Phase {
    match state {
        FindState::First(_) => Phase::ValidatingPass(1),
        FindState::Second { .. } => Phase::ValidatingPass(2),
        FindState::Over { .. } => Phase::Finished,
    }
}

/// The phase that a validating run shows.
pub fn phase_of_find(state: FindState) -> (r: Phase)
    ensures
        r == find_phase(state),
{
    match state {
        FindState::First(_) => Phase::ValidatingPass(1),
        FindState::Second { .. } => Phase::ValidatingPass(2),
        FindState::Over { .. } => Phase::Finished,
    }
}

/// A run makes two passes at the most: it never goes back to the first one, and
/// from the second there is no way but its end.
pub proof fn two_passes_at_most(rules: FindRules, state: FindState, event: FindEvent)
    ensures
        ({
            let (next, action) = find_step(rules, state, event);
            &&& !(state is First) ==> !(next is First)
            &&& state is Over ==> next == state
            &&& action == FindAction::StartSecond ==> state is First
            &&& state is Second ==> next is Second || next is Over
        }),
{
}

/// What a run in a state adds up to.
pub open spec fn tally(
    validates: bool,
    state: FindState,
    gathered: usize,
    elapsed: u64,
) -> Option<RunSummary> {
    match state {
        FindState::Over { valid, failed } => Some(
            RunSummary {
                gathered,
                valid,
                failed: if validates {
                    failed
                } else {
                    0
                },
                elapsed,
            },
        ),
        _ => None,
    }
}

/// What a run adds up to. A scrape has no failed probes.
pub fn run_summary(validates: bool, state: FindState, gathered: usize, elapsed: u64) -> (r: Option<
    RunSummary,
>)
    ensures
        r == tally(validates, state, gathered, elapsed),
        r == (match state {
            FindState::Over { valid, failed } => Some(
                RunSummary {
                    gathered,
                    valid,
                    failed: if validates {
                        failed
                    } else {
                        0
                    },
                    elapsed,
                },
            ),
            _ => None,
        }),
{
    match state {
        FindState::Over { valid, failed } => Some(
            RunSummary {
                gathered,
                valid,
                failed: if validates {
                    failed
                } else {
                    0
                },
                elapsed,
            },
        ),
        _ => None,
    }
}

/// With a bound on the rows and quotas, both passes together emit no more rows
/// than the bound, as long as the first pass left something of it.
pub proof fn passes_share_the_bound(
    limit: usize,
    first: Pass,
    second: Pass,
    progress: Progress,
    candidates: nat,
)
    requires
        limit > 0,
        first.limit == limit,
        first.wf(),
        first.emitted < limit,
        second.wf(),
        first_done(limit, true, first, progress, true, candidates) matches FindState::Second {
            pass,
            ..
        } && second.limit == pass.limit,
    ensures
        first.emitted + second.emitted <= limit,
{
}

/// In either pass a row goes out where the filter and the quotas let it, is
/// passed over where one of them does not, and ends the pass where the quotas
/// are satisfied; nothing is counted yet.
pub proof fn rows_go_their_way(
    rules: FindRules,
    pass: Pass,
    valid: usize,
    failed: usize,
    passes_filter: bool,
    quota: QuotaDecision,
)
    requires
        !pass.over,
    ensures
        ({
            let row = FindEvent::Row { passes_filter, quota };
            let first = find_step(rules, FindState::First(pass), row);
            let second = find_step(rules, FindState::Second { valid, failed, pass }, row);
            let ends = passes_filter && quota is Stop;
            &&& first.1 == second.1
            &&& first.1 is Deliver <==> passes_filter && quota is Emit
            &&& first.1 is Next <==> !passes_filter || quota is Skip
            &&& first.1 is EndPass <==> ends
            &&& first.0 == FindState::First(
                Pass { limit: pass.limit, emitted: pass.emitted, over: ends },
            )
            &&& second.0 == (FindState::Second {
                valid,
                failed,
                pass: Pass { limit: pass.limit, emitted: pass.emitted, over: ends },
            })
        }),
{
}

/// A row that was delivered is counted once, and the pass goes on until its
/// bound is reached or the quotas are satisfied; one that could not be
/// delivered is not counted, and ends the pass.
pub proof fn delivered_rows_are_counted(
    rules: FindRules,
    pass: Pass,
    valid: usize,
    failed: usize,
    saturated: bool,
)
    requires
        !pass.over,
        pass.emitted < usize::MAX,
    ensures
        ({
            let state = FindState::First(pass);
            let sent = find_step(rules, state, FindEvent::Sent { delivered: true, saturated });
            let lost = find_step(rules, state, FindEvent::Sent { delivered: false, saturated });
            let later = find_step(
                rules,
                FindState::Second { valid, failed, pass },
                FindEvent::Sent { delivered: true, saturated },
            );
            let full = pass.limit != 0 && pass.emitted + 1 >= pass.limit;
            &&& sent.0 is First && sent.0->First_0.emitted == pass.emitted + 1
            &&& sent.0->First_0.limit == pass.limit
            &&& sent.0->First_0.over == (full || saturated)
            &&& sent.1 == (if full || saturated {
                FindAction::EndPass
            } else {
                FindAction::Next
            })
            &&& lost.0 == FindState::First(
                Pass { limit: pass.limit, emitted: pass.emitted, over: true },
            )
            &&& lost.1 == FindAction::EndPass
            &&& later.0 == (FindState::Second { valid, failed, pass: sent.0->First_0 })
            &&& later.1 == sent.1
        }),
{
}

/// Behind the first pass the rows that it emitted are the valid ones and the
/// probes that did not pass the failed ones. A second pass is started exactly
/// where one is wanted and has candidates, with what is left of the bound: as
/// counted by rows under quotas, and by passed probes without.
pub proof fn first_pass_is_followed_up(
    rules: FindRules,
    pass: Pass,
    progress: Progress,
    fallback: bool,
    candidates: usize,
)
    requires
        progress.passed <= progress.done,
    ensures
        ({
            let (next, action) = find_step(
                rules,
                FindState::First(pass),
                FindEvent::PassEnded { progress, fallback, candidates },
            );
            let failed = (progress.done - progress.passed) as usize;
            let used = if rules.has_quotas {
                pass.emitted
            } else {
                progress.passed
            };
            &&& action == (if fallback && candidates > 0 {
                FindAction::StartSecond
            } else {
                FindAction::Finish
            })
            &&& !(fallback && candidates > 0) ==> next == (FindState::Over {
                valid: pass.emitted,
                failed,
            })
            &&& fallback && candidates > 0 ==> {
                &&& next is Second
                &&& next->Second_valid == pass.emitted
                &&& next->Second_failed == failed
                &&& next->Second_pass.emitted == 0
                &&& !next->Second_pass.over
                &&& rules.limit == 0 ==> next->Second_pass.limit == 0
                &&& rules.limit >= used ==> next->Second_pass.limit == rules.limit - used || rules.limit
                    == 0
                &&& rules.limit < used ==> next->Second_pass.limit == 0
            }
        }),
{
}

/// Both passes add up: the rows that each emitted, and the probes of each that
/// did not pass.
pub proof fn passes_add_up(
    rules: FindRules,
    pass: Pass,
    valid: usize,
    failed: usize,
    progress: Progress,
    fallback: bool,
    candidates: usize,
)
    requires
        progress.passed <= progress.done,
        valid + pass.emitted <= usize::MAX,
        failed + progress.done - progress.passed <= usize::MAX,
    ensures
        ({
            let (next, action) = find_step(
                rules,
                FindState::Second { valid, failed, pass },
                FindEvent::PassEnded { progress, fallback, candidates },
            );
            &&& action == FindAction::Finish
            &&& next is Over
            &&& next->Over_valid == valid + pass.emitted
            &&& next->Over_failed + progress.passed == failed + progress.done
        }),
{
}

/// The quotas have a row emitted where they take it, whether they are satisfied
/// or not, and end a pass only where they take nothing more.
pub proof fn quotas_decide(takes: bool, satisfied: bool)
    ensures
        quota_verdict(takes, satisfied) is Emit <==> takes,
        quota_verdict(takes, satisfied) is Stop <==> !takes && satisfied,
        quota_verdict(takes, satisfied) is Skip <==> !takes && !satisfied,
{
}

/// Candidates from files that are validated go to the judges at once, and all
/// others are prepared for; behind the last stage of the fetcher a validating
/// run checks its judges, and the passes are numbered.
pub proof fn phases_follow_the_work(
    validates: bool,
    from_files: bool,
    first: Pass,
    valid: usize,
    failed: usize,
)
    ensures
        opening_phase(validates, from_files) is CheckingJudges <==> validates && from_files,
        opening_phase(validates, from_files) is Preparing <==> !(validates && from_files),
        stage_phase(FetchStage::Primary, validates) is FetchingPrimary,
        stage_phase(FetchStage::Fallback, validates) is FetchingFallback,
        stage_phase(FetchStage::Done, true) is CheckingJudges,
        stage_phase(FetchStage::Done, false) is Gathering,
        find_phase(FindState::First(first)) == Phase::ValidatingPass(1),
        find_phase(FindState::Second { valid, failed, pass: first }) == Phase::ValidatingPass(2),
        find_phase(FindState::Over { valid, failed }) is Finished,
{
}

/// What was named is asked for as it was named; plain HTTP of any level stands
/// in only where nothing was named, in a list or in groups.
pub proof fn named_types_are_asked_for(types: Seq<Protocol>, has_groups: bool)
    ensures
        types.len() > 0 || has_groups ==> asked_protocols(types, has_groups) == types,
        asked_protocols(Seq::empty(), false) == seq![Protocol::Http(Anonymity::Unknown)],
{
}

/// Only a run that is over adds up, to what its passes made; a scrape counts no
/// failures.
pub proof fn runs_add_up_at_the_end(
    validates: bool,
    state: FindState,
    gathered: usize,
    elapsed: u64,
)
    ensures
        tally(validates, state, gathered, elapsed) is Some <==> state is Over,
        state is Over ==> ({
            let t = tally(validates, state, gathered, elapsed)->0;
            &&& t.gathered == gathered && t.elapsed == elapsed
            &&& t.valid == state->Over_valid
            &&& validates ==> t.failed == state->Over_failed
            &&& !validates ==> t.failed == 0
        }),
{
}

} // verus!
