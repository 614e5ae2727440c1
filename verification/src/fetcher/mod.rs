//! Gathering proxies from providers: what is fetched, in which phases, and
//! which candidates are kept.

pub mod cache;
pub mod config;
pub mod dedup;
pub mod phase;

use crate::fetcher::config::{country_codes, Config, CountrySet};
use crate::fetcher::dedup::{
    MAX_DEDUP_ENDPOINTS,
    after_making_room, endpoint_key, hash_of_protocols, key_of, protocol_hash, DedupTable,
};
use crate::fetcher::phase::FetchStage;
use crate::geolookup::ip_type::IpType;
use crate::geolookup::models::GeoData;
use crate::net::Ipv4Addr;
use crate::providers::models::{
    common_types, source_text, source_texts, uri_parts, ProviderTier, ScrapeMode, Source,
    SourceText,
};
use crate::providers::{
    all_providers, registry, select_providers, selected, CustomUrlProvider, Provider,
    ProxyProvider,
};
use crate::proxy::models::Proxy;
use crate::text::{join, joined, lemma_texts_push, list_contains, texts};
use vstd::prelude::*;

verus! {

/// Proxies that wait between the sources and the consumer.
pub const FETCH_CHANNEL_CAPACITY: usize = 2_048;

/// Milliseconds for the primary provider phase before the fallback decides.
pub const PRIMARY_PHASE_TIMEOUT: u64 = 30_000;

// ---------------------------------------------------------------------------
// What is fetched
// ---------------------------------------------------------------------------

/// Why gathering does not start.
#[derive(Clone, Debug)]
pub enum GatherError {
    /// No fetch may run.
    NoConcurrency,
    /// Countries are filtered, but nothing looks them up.
    CountryNeedsGeo,
    /// Addresses are classed, but nothing looks them up.
    IpTypeNeedsGeo,
    /// A provider to keep is none of the known ones.
    UnknownProvider { name: String, known: Vec<String> },
    /// An extra source has no address.
    InvalidSource { url: String },
}

/// What a start that was refused is answered.
pub open spec fn gather_error_text(e: GatherError) -> Seq<char> {
    match e {
        GatherError::NoConcurrency => "config.concurrency_limit must be greater than zero"@,
        GatherError::CountryNeedsGeo =>
            "country filter requires enable_geo_lookup=true (GeoIP lookup is currently disabled)"@,
        GatherError::IpTypeNeedsGeo =>
            "ip-type detection requires enable_geo_lookup=true (GeoIP lookup is currently disabled)"@,
        GatherError::UnknownProvider { name, known } => "unknown provider `"@ + name@
            + "` (available: "@ + joined(texts(known@), ", "@) + ")"@,
        GatherError::InvalidSource { url } => "invalid custom source URL `"@ + url@ + "`"@,
    }
}

impl GatherError {
    /// The error as a message.
    pub fn to_text(&self) -> (s: String)
        ensures
            s@ == gather_error_text(*self),
    {
        match self {
            GatherError::NoConcurrency =>
                "config.concurrency_limit must be greater than zero".to_owned(),
            GatherError::CountryNeedsGeo =>
                "country filter requires enable_geo_lookup=true (GeoIP lookup is currently disabled)".to_owned(),
            GatherError::IpTypeNeedsGeo =>
                "ip-type detection requires enable_geo_lookup=true (GeoIP lookup is currently disabled)".to_owned(),
            GatherError::UnknownProvider { name, known } => {
                let mut s = "unknown provider `".to_owned();
                s.append(name.as_str());
                s.append("` (available: ");
                let list = join(known, ", ");
                s.append(list.as_str());
                s.append(")");
                s
            },
            GatherError::InvalidSource { url } => {
                let mut s = "invalid custom source URL `".to_owned();
                s.append(url.as_str());
                s.append("`");
                s
            },
        }
    }
}

/// Whether a configuration is refused, and why. A filter that needs the GeoIP
/// lookup is refused without it, instead of silently dropping every proxy.
pub open spec fn config_refused(c: Config) -> Option<GatherError> {
    if c.concurrency_limit == 0 {
        Some(GatherError::NoConcurrency)
    } else if (c.countries@.len() > 0 || c.excluded_countries@.len() > 0) && !c.enable_geo_lookup {
        Some(GatherError::CountryNeedsGeo)
    } else if (c.enable_ip_type || c.ip_type_filter is Some) && !c.enable_geo_lookup {
        Some(GatherError::IpTypeNeedsGeo)
    } else {
        None
    }
}

/// Checks a configuration before anything is opened.
pub fn check_config(config: &Config) -> (r: Result<(), GatherError>)
    ensures
        match r {
            Ok(_) => config_refused(*config) is None,
            Err(e) => config_refused(*config) == Some(e),
        },
{
    if config.concurrency_limit == 0 {
        return Err(GatherError::NoConcurrency);
    }
    if (config.countries.len() > 0 || config.excluded_countries.len() > 0)
        && !config.enable_geo_lookup {
        return Err(GatherError::CountryNeedsGeo);
    }
    if (config.enable_ip_type || config.ip_type_filter.is_some()) && !config.enable_geo_lookup {
        return Err(GatherError::IpTypeNeedsGeo);
    }
    Ok(())
}

/// What is fetched: first the primary sources, then the fallback ones.
pub struct GatherPlan {
    pub primary: Vec<Source>,
    pub fallback: Vec<Source>,
}

/// The names of some providers.
pub open spec fn names_of(providers: Seq<Provider>) -> Seq<Seq<char>> {
    Seq::new(providers.len(), |i: int| providers[i].called())
}

/// The names that a selection may use.
pub open spec fn known_names(has_custom: bool) -> Seq<Seq<char>> {
    if has_custom {
        names_of(registry()).push("custom"@)
    } else {
        names_of(registry())
    }
}

/// The first of some names that is none of the known ones.
pub open spec fn first_unknown(names: Seq<Seq<char>>, known: Seq<Seq<char>>) -> Option<Seq<char>>
    decreases names.len(),
{
    if names.len() == 0 {
        None
    } else if !known.contains(names[0]) {
        Some(names[0])
    } else {
        first_unknown(names.drop_first(), known)
    }
}

/// The first of some texts that is no address.
pub open spec fn first_invalid(urls: Seq<Seq<char>>) -> Option<Seq<char>>
    decreases urls.len(),
{
    if urls.len() == 0 {
        None
    } else if uri_parts(urls[0]) is None {
        Some(urls[0])
    } else {
        first_invalid(urls.drop_first())
    }
}

/// What a source says once the time limit of the run is applied.
pub open spec fn timed(s: SourceText, timeout: Option<u64>) -> SourceText {
    match timeout {
        Some(t) => SourceText { timeout: t, ..s },
        None => s,
    }
}

/// What several sources say once the time limit of the run is applied.
pub open spec fn all_timed(v: Seq<SourceText>, timeout: Option<u64>) -> Seq<SourceText> {
    Seq::new(v.len(), |i: int| timed(v[i], timeout))
}

/// The sources of the providers of one tier, in order.
pub open spec fn tier_sources(
    providers: Seq<Provider>,
    tier: ProviderTier,
    timeout: Option<u64>,
) -> Seq<SourceText>
    decreases providers.len(),
{
    if providers.len() == 0 {
        Seq::empty()
    } else {
        tier_sources(providers.drop_last(), tier, timeout) + (if providers.last().asked() == tier {
            all_timed(providers.last().offers(), timeout)
        } else {
            Seq::empty()
        })
    }
}

/// The sources of extra addresses, in order.
pub open spec fn custom_sources(urls: Seq<Seq<char>>, timeout: Option<u64>) -> Seq<SourceText> {
    Seq::new(
        urls.len(),
        |i: int|
            timed(
                SourceText {
                    url: (uri_parts(urls[i])->0).0,
                    host: (uri_parts(urls[i])->0).2,
                    types: common_types(),
                    timeout: 3000,
                    mode: ScrapeMode::Plaintext,
                },
                timeout,
            ),
    )
}

fn push_sources(sources: Vec<Source>, timeout: Option<u64>, out: &mut Vec<Source>)
    ensures
        source_texts(final(out)@) == source_texts(old(out)@) + all_timed(
            source_texts(sources@),
            timeout,
        ),
{
    let ghost before = source_texts(out@);
    let ghost all = sources@;
    let ghost want = all_timed(source_texts(all), timeout);
    assert(before + want.take(0) =~= before);
    for source in it: sources
        invariant
            it.seq() == all,
            want == all_timed(source_texts(all), timeout),
            source_texts(out@) == before + want.take(it.index() as int),
    {
        let ghost i = it.index() as int;
        let ghost old_out = out@;
        assert(source_texts(all)[i] == source_text(source));
        let one = match timeout {
            Some(t) => source.with_timeout(t),
            None => source,
        };
        assert(source_text(one) == want[i]);
        out.push(one);
        assert(source_texts(out@) =~= source_texts(old_out).push(source_text(one)));
        assert(source_texts(out@) =~= before + want.take(i + 1));
    }
    assert(want.take(all.len() as int) =~= want);
}

fn provider_names(providers: &Vec<Provider>) -> (r: Vec<String>)
    ensures
        texts(r@) == names_of(providers@),
{
    let mut r: Vec<String> = Vec::new();
    let mut i: usize = 0;
    while i < providers.len()
        invariant
            i <= providers.len(),
            texts(r@) == names_of(providers@).take(i as int),
        decreases providers.len() - i,
    {
        let name = providers[i].name().to_owned();
        proof {
            lemma_texts_push(r@, name);
        }
        r.push(name);
        i += 1;
        assert(texts(r@) =~= names_of(providers@).take(i as int));
    }
    assert(names_of(providers@).take(providers.len() as int) =~= names_of(providers@));
    r
}

/// Decides what is fetched. A name to keep that no provider has, and an extra
/// address that cannot be read, are refused.
pub fn plan_sources(config: &Config) -> (r: Result<GatherPlan, GatherError>)
    ensures
        ({
            let known = known_names(config.custom_sources@.len() > 0);
            let unknown = first_unknown(texts(config.providers@), known);
            let invalid = first_invalid(texts(config.custom_sources@));
            let chosen = selected(
                registry(),
                texts(config.providers@),
                texts(config.excluded_providers@),
            );
            match r {
                Ok(plan) => {
                    &&& unknown is None
                    &&& invalid is None
                    &&& source_texts(plan.primary@) == tier_sources(
                        chosen,
                        ProviderTier::Primary,
                        config.provider_timeout,
                    ) + custom_sources(texts(config.custom_sources@), config.provider_timeout)
                    &&& source_texts(plan.fallback@) == tier_sources(
                        chosen,
                        ProviderTier::Fallback,
                        config.provider_timeout,
                    )
                },
                Err(e) => if unknown is Some {
                    e matches GatherError::UnknownProvider { name, known: list } && Some(name@)
                        == unknown && texts(list@) == known
                } else {
                    e matches GatherError::InvalidSource { url } && Some(url@) == invalid
                },
            }
        }),
{
    let all = all_providers();
    let mut known = provider_names(&all);
    if config.custom_sources.len() > 0 {
        let extra = "custom".to_owned();
        proof {
            lemma_texts_push(known@, extra);
        }
        known.push(extra);
    }
    let ghost names = texts(config.providers@);
    let ghost known_view = known_names(config.custom_sources@.len() > 0);
    let chosen = select_providers(all, &config.providers, &config.excluded_providers);
    let mut i: usize = 0;
    assert(names.skip(0) =~= names);
    while i < config.providers.len()
        invariant
            i <= config.providers.len(),
            names == texts(config.providers@),
            known_view == known_names(config.custom_sources@.len() > 0),
            texts(known@) == known_view,
            first_unknown(names.skip(i as int), known_view) == first_unknown(names, known_view),
        decreases config.providers.len() - i,
    {
        let ghost rest = names.skip(i as int);
        assert(rest[0] == config.providers@[i as int]@);
        assert(rest.drop_first() =~= names.skip(i + 1));
        if !list_contains(&known, config.providers[i].as_str()) {
            let name = config.providers[i].clone();
            return Err(GatherError::UnknownProvider { name, known });
        }
        i += 1;
    }
    let mut primary: Vec<Source> = Vec::new();
    let mut fallback: Vec<Source> = Vec::new();
    let timeout = config.provider_timeout;
    let ghost picked = chosen@;
    let mut j: usize = 0;
    assert(picked.take(0) =~= Seq::<Provider>::empty());
    assert(source_texts(primary@) =~= Seq::<SourceText>::empty());
    assert(source_texts(fallback@) =~= Seq::<SourceText>::empty());
    while j < chosen.len()
        invariant
            j <= chosen.len(),
            picked == chosen@,
            timeout == config.provider_timeout,
            source_texts(primary@) == tier_sources(
                picked.take(j as int),
                ProviderTier::Primary,
                timeout,
            ),
            source_texts(fallback@) == tier_sources(
                picked.take(j as int),
                ProviderTier::Fallback,
                timeout,
            ),
        decreases chosen.len() - j,
    {
        let ghost done = picked.take(j + 1);
        assert(done.drop_last() =~= picked.take(j as int));
        assert(done.last() == chosen@[j as int]);
        let sources = chosen[j].sources();
        let ghost before_primary = source_texts(primary@);
        let ghost before_fallback = source_texts(fallback@);
        match chosen[j].tier() {
            ProviderTier::Primary => {
                push_sources(sources, timeout, &mut primary);
                assert(before_fallback + Seq::<SourceText>::empty() =~= before_fallback);
            },
            ProviderTier::Fallback => {
                push_sources(sources, timeout, &mut fallback);
                assert(before_primary + Seq::<SourceText>::empty() =~= before_primary);
            },
        }
        j += 1;
    }
    assert(picked.take(chosen.len() as int) =~= picked);
    let ghost urls = texts(config.custom_sources@);
    let ghost builtin = source_texts(primary@);
    let ghost want = custom_sources(urls, timeout);
    let mut k: usize = 0;
    assert(urls.skip(0) =~= urls);
    assert(builtin + want.take(0) =~= builtin);
    while k < config.custom_sources.len()
        invariant
            k <= config.custom_sources.len(),
            urls == texts(config.custom_sources@),
            timeout == config.provider_timeout,
            want == custom_sources(urls, timeout),
            first_invalid(urls.skip(k as int)) == first_invalid(urls),
            source_texts(primary@) == builtin + want.take(k as int),
            first_unknown(names, known_view) is None,
            names == texts(config.providers@),
            known_view == known_names(config.custom_sources@.len() > 0),
        decreases config.custom_sources.len() - k,
    {
        let ghost rest = urls.skip(k as int);
        assert(rest[0] == config.custom_sources@[k as int]@);
        assert(rest.drop_first() =~= urls.skip(k + 1));
        match CustomUrlProvider::new(config.custom_sources[k].as_str()) {
            Ok(provider) => {
                let sources = provider.sources();
                let ghost before = source_texts(primary@);
                push_sources(sources, timeout, &mut primary);
                proof {
                    let one = all_timed(provider.offers(), timeout);
                    assert(one =~~= seq![want[k as int]]);
                    assert(before + one =~= builtin + want.take(k + 1));
                }
            },
            Err(_) => {
                return Err(
                    GatherError::InvalidSource { url: config.custom_sources[k].clone() },
                );
            },
        }
        k += 1;
    }
    assert(want.take(config.custom_sources.len() as int) =~= want);
    Ok(GatherPlan { primary, fallback })
}

// ---------------------------------------------------------------------------
// The phases
// ---------------------------------------------------------------------------

/// Where a gathering run stands.
#[derive(Clone, Copy, Debug, PartialEq, Eq, Structural)]
pub enum GatherState {
    /// The primary sources are fetched.
    Primary,
    /// The primary sources are being aborted.
    AbortingPrimary,
    /// The consumer takes what the primary sources found.
    Draining,
    /// The fallback sources are fetched.
    Fallback,
    /// The fallback sources are being aborted.
    AbortingFallback,
    /// Nothing is fetched any more.
    Done,
}

/// What happens during a gathering run.
#[derive(Clone, Copy, Debug, PartialEq, Eq, Structural)]
pub enum GatherEvent {
    /// Every task of the running phase has ended.
    TasksEnded,
    /// The consumer has asked to stop.
    StopSignal,
    /// The time for the running phase is over.
    TimedOut,
    /// The consumer has taken everything; this many proxies were accepted.
    Drained(usize),
}

/// What a run does next.
#[derive(Clone, Copy, Debug, PartialEq, Eq, Structural)]
pub enum GatherAction {
    /// Report the stage, start the sources of the tier, and wait for them, for
    /// the given time at most.
    Start(FetchStage, ProviderTier, Option<u64>),
    /// Abort every task and wait for their end.
    AbortAll,
    /// Wait until the consumer has taken everything.
    AwaitDrain,
    /// Go on waiting.
    Wait,
    /// Report the last stage and end.
    End(FetchStage),
}

/// What the decisions of a run depend on.
#[derive(Clone, Copy, Debug, PartialEq, Eq, Structural)]
pub struct GatherRules {
    /// Proxies from which the fallback is skipped.
    pub fallback_threshold: Option<usize>,
    /// Milliseconds that the fallback phase may take.
    pub fallback_phase_timeout: Option<u64>,
}

/// How a run begins.
pub open spec fn run_begins() -> (GatherState, GatherAction) {
    (
        GatherState::Primary,
        GatherAction::Start(FetchStage::Primary, ProviderTier::Primary, Some(PRIMARY_PHASE_TIMEOUT)),
    )
}

/// How a run goes on behind the primary phase: it ends where the consumer has
/// asked to stop, and else waits for the consumer.
pub open spec fn after_primary(stopped: bool) -> (GatherState, GatherAction) {
    if stopped {
        (GatherState::Done, GatherAction::End(FetchStage::Done))
    } else {
        (GatherState::Draining, GatherAction::AwaitDrain)
    }
}

/// How a run goes on.
pub open spec fn run_goes_on(
    rules: GatherRules,
    state: GatherState,
    event: GatherEvent,
    stopped: bool,
) -> (GatherState, GatherAction) {
    match (state, event) {
        (GatherState::Primary, GatherEvent::TasksEnded) => after_primary(stopped),
        (GatherState::Primary, GatherEvent::StopSignal) => (
            GatherState::AbortingPrimary,
            GatherAction::AbortAll,
        ),
        (GatherState::Primary, GatherEvent::TimedOut) => (
            GatherState::AbortingPrimary,
            GatherAction::AbortAll,
        ),
        (GatherState::AbortingPrimary, GatherEvent::TasksEnded) => after_primary(stopped),
        (GatherState::Draining, GatherEvent::Drained(found)) => if rules.fallback_threshold is Some
            && found >= rules.fallback_threshold->0 {
            (GatherState::Done, GatherAction::End(FetchStage::Done))
        } else {
            (
                GatherState::Fallback,
                GatherAction::Start(
                    FetchStage::Fallback,
                    ProviderTier::Fallback,
                    rules.fallback_phase_timeout,
                ),
            )
        },
        (GatherState::Fallback, GatherEvent::TasksEnded) => (
            GatherState::Done,
            GatherAction::End(FetchStage::Done),
        ),
        (GatherState::Fallback, GatherEvent::TimedOut) => (
            GatherState::AbortingFallback,
            GatherAction::AbortAll,
        ),
        (GatherState::AbortingFallback, GatherEvent::TasksEnded) => (
            GatherState::Done,
            GatherAction::End(FetchStage::Done),
        ),
        _ => (state, GatherAction::Wait),
    }
}

/// Begins a gathering run.
pub fn begin_gathering() -> (r: (GatherState, GatherAction))
    ensures
        r == run_begins(),
{
    (
        GatherState::Primary,
        GatherAction::Start(FetchStage::Primary, ProviderTier::Primary, Some(PRIMARY_PHASE_TIMEOUT)),
    )
}

/// Decides how a gathering run goes on. The primary phase runs to its end, or
/// until its time is over or the consumer has enough; the fallback phase
/// follows only where fewer proxies than the threshold were then accepted.
pub fn gather(
    rules: GatherRules,
    state: GatherState,
    event: GatherEvent,
    stopped: bool,
) -> (r: (GatherState, GatherAction))
    ensures
        r == run_goes_on(rules, state, event, stopped),
{
    match state {
        GatherState::Primary | GatherState::AbortingPrimary => {
            let ended = match event {
                GatherEvent::TasksEnded => true,
                _ => false,
            };
            let cut = match event {
                GatherEvent::StopSignal | GatherEvent::TimedOut => state == GatherState::Primary,
                _ => false,
            };
            if ended {
                if stopped {
                    (GatherState::Done, GatherAction::End(FetchStage::Done))
                } else {
                    (GatherState::Draining, GatherAction::AwaitDrain)
                }
            } else if cut {
                (GatherState::AbortingPrimary, GatherAction::AbortAll)
            } else {
                (state, GatherAction::Wait)
            }
        },
        GatherState::Draining => match event {
            GatherEvent::Drained(found) => {
                let enough = match rules.fallback_threshold {
                    Some(threshold) => found >= threshold,
                    None => false,
                };
                if enough {
                    (GatherState::Done, GatherAction::End(FetchStage::Done))
                } else {
                    (
                        GatherState::Fallback,
                        GatherAction::Start(
                            FetchStage::Fallback,
                            ProviderTier::Fallback,
                            rules.fallback_phase_timeout,
                        ),
                    )
                }
            },
            _ => (state, GatherAction::Wait),
        },
        GatherState::Fallback => match event {
            GatherEvent::TasksEnded => (GatherState::Done, GatherAction::End(FetchStage::Done)),
            GatherEvent::TimedOut => (GatherState::AbortingFallback, GatherAction::AbortAll),
            _ => (state, GatherAction::Wait),
        },
        GatherState::AbortingFallback => match event {
            GatherEvent::TasksEnded => (GatherState::Done, GatherAction::End(FetchStage::Done)),
            _ => (state, GatherAction::Wait),
        },
        GatherState::Done => (state, GatherAction::Wait),
    }
}

/// The states that a run passes through for some events, each with whether the
/// consumer had asked to stop by then.
pub open spec fn run_state(
    rules: GatherRules,
    events: Seq<(GatherEvent, bool)>,
) -> GatherState
    decreases events.len(),
{
    if events.len() == 0 {
        run_begins().0
    } else {
        run_goes_on(
            rules,
            run_state(rules, events.drop_last()),
            events.last().0,
            events.last().1,
        ).0
    }
}

/// The stages that a run reports for some events, in order.
pub open spec fn run_stages(
    rules: GatherRules,
    events: Seq<(GatherEvent, bool)>,
) -> Seq<FetchStage>
    decreases events.len(),
{
    if events.len() == 0 {
        seq![FetchStage::Primary]
    } else {
        let before = run_stages(rules, events.drop_last());
        match run_goes_on(
            rules,
            run_state(rules, events.drop_last()),
            events.last().0,
            events.last().1,
        ).1 {
            GatherAction::Start(stage, _, _) => before.push(stage),
            GatherAction::End(stage) => before.push(stage),
            _ => before,
        }
    }
}

/// Whatever happens, the stages are reported in order and each once: the
/// primary one, then the fallback one unless it is skipped, then the end; and
/// the end is reported exactly when the run is over.
pub proof fn stages_come_in_order(rules: GatherRules, events: Seq<(GatherEvent, bool)>)
    ensures
        ({
            let stages = run_stages(rules, events);
            match run_state(rules, events) {
                GatherState::Primary | GatherState::AbortingPrimary | GatherState::Draining =>
                    stages == seq![FetchStage::Primary],
                GatherState::Fallback | GatherState::AbortingFallback => stages
                    == seq![FetchStage::Primary, FetchStage::Fallback],
                GatherState::Done => stages == seq![FetchStage::Primary, FetchStage::Done]
                    || stages == seq![FetchStage::Primary, FetchStage::Fallback, FetchStage::Done],
            }
        }),
    decreases events.len(),
{
    if events.len() > 0 {
        stages_come_in_order(rules, events.drop_last());
        let stages = run_stages(rules, events);
        match run_state(rules, events) {
            GatherState::Primary | GatherState::AbortingPrimary | GatherState::Draining => {
                assert(stages =~= seq![FetchStage::Primary]);
            },
            GatherState::Fallback | GatherState::AbortingFallback => {
                assert(stages =~= seq![FetchStage::Primary, FetchStage::Fallback]);
            },
            GatherState::Done => {
                assert(stages =~= seq![FetchStage::Primary, FetchStage::Done] || stages =~= seq![
                    FetchStage::Primary,
                    FetchStage::Fallback,
                    FetchStage::Done,
                ]);
            },
        }
    }
}

/// The fallback starts only behind the primary phase, and only where the
/// threshold was not reached.
pub proof fn fallback_needs_too_few(
    rules: GatherRules,
    state: GatherState,
    event: GatherEvent,
    stopped: bool,
)
    requires
        run_goes_on(rules, state, event, stopped).1 matches GatherAction::Start(_, tier, _)
            && tier == ProviderTier::Fallback,
    ensures
        state == GatherState::Draining,
        event matches GatherEvent::Drained(found) && (rules.fallback_threshold matches Some(t)
            ==> found < t),
{
}

/// Once over, a run stays over.
pub proof fn done_stays_done(rules: GatherRules, event: GatherEvent, stopped: bool)
    ensures
        run_goes_on(rules, GatherState::Done, event, stopped) == (
            GatherState::Done,
            GatherAction::Wait,
        ),
{
}

// ---------------------------------------------------------------------------
// Which candidates are kept
// ---------------------------------------------------------------------------

/// What candidates are held against, and what was kept.
pub struct AcceptContext {
    /// The endpoints seen so far.
    pub unique_ips: DedupTable,
    /// Whether an endpoint is kept once only.
    pub enforce_unique_ip: bool,
    /// The countries to keep; none means all.
    pub countries: CountrySet,
    /// The countries to drop.
    pub excluded_countries: CountrySet,
    /// The class of addresses to keep.
    pub ip_type_filter: Option<IpType>,
    /// Candidates kept by this consumer.
    pub counter: usize,
    /// Candidates kept, as the phases see it.
    pub accepted: usize,
}

/// Whether a looked-up record passes the country filters.
pub open spec fn country_passes(
    keep: Set<Seq<char>>,
    drop: Set<Seq<char>>,
    geo: GeoData,
) -> bool {
    &&& keep != Set::<Seq<char>>::empty() ==> (geo.iso_code matches Some(code) && keep.contains(
        code@,
    ))
    &&& !(geo.iso_code matches Some(code) && drop.contains(code@))
}

impl AcceptContext {
    /// The table of endpoints is sound.
    pub open spec fn wf(self) -> bool {
        self.unique_ips.wf()
    }

    /// Whether a candidate was seen before.
    pub open spec fn seen_before(self, proxy: Proxy) -> bool {
        self.enforce_unique_ip && self.unique_ips@.contains(
            key_of(proxy.ip, proxy.port, hash_of_protocols(proxy.expected_types@)),
        )
    }

    /// Whether a candidate passes the filters: the country filters judge a
    /// looked-up record only.
    pub open spec fn passes(self, own: GeoData, looked_up: Option<GeoData>) -> bool {
        &&& looked_up matches Some(geo) ==> country_passes(
            country_codes(self.countries),
            country_codes(self.excluded_countries),
            geo,
        )
        &&& self.ip_type_filter matches Some(want) ==> (match looked_up {
            Some(geo) => geo.ip_type,
            None => own.ip_type,
        }) == want
    }

    /// The filters are the same.
    pub open spec fn same_rules(self, other: AcceptContext) -> bool {
        &&& self.enforce_unique_ip == other.enforce_unique_ip
        &&& self.countries == other.countries
        &&& self.excluded_countries == other.excluded_countries
        &&& self.ip_type_filter == other.ip_type_filter
    }

    /// The endpoints remembered once a candidate was held against them.
    pub open spec fn remembers(self, before: AcceptContext, proxy: Proxy) -> bool {
        if before.enforce_unique_ip && !before.seen_before(proxy) {
            self.unique_ips@ == after_making_room(
                before.unique_ips@,
                before.unique_ips.capacity,
            ).push(key_of(proxy.ip, proxy.port, hash_of_protocols(proxy.expected_types@)))
        } else {
            self.unique_ips@ == before.unique_ips@
        }
    }
}

/// A proxy with another record.
pub open spec fn located(p: Proxy, q: Proxy, geo: Option<GeoData>) -> bool {
    p == match geo {
        Some(g) => Proxy { geo: g, ..q },
        None => q,
    }
}

/// Holds a candidate against the filters. One that was seen before is dropped
/// without a lookup, which need not even be able to answer for it; one that
/// passes is kept with the record that the lookup gave, and counted.
pub fn accept_proxy<F: FnOnce(Ipv4Addr) -> Option<GeoData>>(
    ctx: &mut AcceptContext,
    proxy: Proxy,
    lookup: F,
) -> (r: Option<Proxy>)
    requires
        old(ctx).wf(),
        old(ctx).counter < usize::MAX,
        old(ctx).accepted < usize::MAX,
        !old(ctx).seen_before(proxy) ==> call_requires(lookup, (proxy.ip,)),
    ensures
        final(ctx).wf(),
        final(ctx).same_rules(*old(ctx)),
        final(ctx).unique_ips.capacity == old(ctx).unique_ips.capacity,
        final(ctx).remembers(*old(ctx), proxy),
        old(ctx).seen_before(proxy) ==> r is None,
        !old(ctx).seen_before(proxy) ==> exists|geo: Option<GeoData>| #[trigger]
            call_ensures(lookup, (proxy.ip,), geo) && match r {
                Some(p) => old(ctx).passes(proxy.geo, geo) && located(p, proxy, geo),
                None => !old(ctx).passes(proxy.geo, geo),
            },
        r is Some ==> final(ctx).counter == old(ctx).counter + 1 && final(ctx).accepted
            == old(ctx).accepted + 1,
        r is None ==> final(ctx).counter == old(ctx).counter && final(ctx).accepted
            == old(ctx).accepted,
{
    let ghost before = *ctx;
    let ghost first = proxy;
    if ctx.enforce_unique_ip {
        let hash: u64 = protocol_hash(proxy.expected_types.as_slice());
        let key = endpoint_key(proxy.ip, proxy.port, hash);
        if !ctx.unique_ips.insert(key) {
            return None;
        }
    }
    let geo = lookup(proxy.ip);
    let ghost found = geo;
    let mut kept = proxy;
    if let Some(record) = geo {
        let code: Option<&String> = match &record.iso_code {
            Some(c) => Some(c),
            None => None,
        };
        let wanted = match code {
            Some(c) => ctx.countries.contains(c.as_str()),
            None => false,
        };
        if !ctx.countries.is_empty() && !wanted {
            assert(!before.passes(first.geo, found));
            return None;
        }
        let unwanted = match code {
            Some(c) => ctx.excluded_countries.contains(c.as_str()),
            None => false,
        };
        if unwanted {
            assert(!before.passes(first.geo, found));
            return None;
        }
        kept.set_geo(record);
    }
    if let Some(want) = ctx.ip_type_filter {
        if kept.geo.ip_type != want {
            assert(!before.passes(first.geo, found));
            return None;
        }
    }
    ctx.counter = ctx.counter + 1;
    ctx.accepted = ctx.accepted + 1;
    assert(located(kept, first, found));
    Some(kept)
}

/// The consumer's side of a gathering run.
pub struct ProxyFetcher {
    /// What candidates are held against.
    pub ctx: AcceptContext,
    /// Kept candidates from which the run is asked to stop.
    pub threshold: Option<usize>,
    /// Whether the run was asked to stop.
    pub stop_signaled: bool,
    /// A candidate taken ahead.
    pub prefetched: Option<Proxy>,
}

impl ProxyFetcher {
    /// A consumer of a run with the given configuration.
    pub fn new(config: &Config) -> (f: Self)
        ensures
            f.ctx.wf(),
            f.ctx.unique_ips@.len() == 0,
            f.ctx.unique_ips.capacity == MAX_DEDUP_ENDPOINTS,
            f.ctx.enforce_unique_ip == config.enforce_unique_ip,
            country_codes(f.ctx.countries) == config::normal_codes(texts(config.countries@)),
            country_codes(f.ctx.excluded_countries) == config::normal_codes(
                texts(config.excluded_countries@),
            ),
            f.ctx.ip_type_filter == config.ip_type_filter,
            f.ctx.counter == 0,
            f.ctx.accepted == 0,
            f.threshold == config.fallback_threshold,
            !f.stop_signaled,
            f.prefetched is None,
    {
        ProxyFetcher {
            ctx: AcceptContext {
                unique_ips: DedupTable::new(),
                enforce_unique_ip: config.enforce_unique_ip,
                countries: config.normalized_countries(),
                excluded_countries: config.normalized_excluded_countries(),
                ip_type_filter: config.ip_type_filter,
                counter: 0,
                accepted: 0,
            },
            threshold: config.fallback_threshold,
            stop_signaled: false,
            prefetched: None,
        }
    }

    /// Whether the run is to be asked to stop now: for the first time that
    /// enough candidates are kept.
    pub open spec fn stops(self, accepted: int) -> bool {
        !self.stop_signaled && (self.threshold matches Some(t) && accepted >= t)
    }

    /// Holds a candidate against the filters, and tells whether the run is now
    /// to be asked to stop.
    pub fn accept<F: FnOnce(Ipv4Addr) -> Option<GeoData>>(
        &mut self,
        proxy: Proxy,
        lookup: F,
    ) -> (r: (Option<Proxy>, bool))
        requires
            old(self).ctx.wf(),
            old(self).ctx.counter < usize::MAX,
            old(self).ctx.accepted < usize::MAX,
            !old(self).ctx.seen_before(proxy) ==> call_requires(lookup, (proxy.ip,)),
        ensures
            final(self).ctx.wf(),
            final(self).ctx.same_rules(old(self).ctx),
            final(self).ctx.unique_ips.capacity == old(self).ctx.unique_ips.capacity,
            final(self).ctx.remembers(old(self).ctx, proxy),
            final(self).threshold == old(self).threshold,
            final(self).prefetched == old(self).prefetched,
            old(self).ctx.seen_before(proxy) ==> r.0 is None,
            !old(self).ctx.seen_before(proxy) ==> exists|geo: Option<GeoData>| #[trigger]
                call_ensures(lookup, (proxy.ip,), geo) && match r.0 {
                    Some(p) => old(self).ctx.passes(proxy.geo, geo) && located(p, proxy, geo),
                    None => !old(self).ctx.passes(proxy.geo, geo),
                },
            final(self).ctx.accepted == old(self).ctx.accepted + (if r.0 is Some {
                1int
            } else {
                0int
            }),
            final(self).ctx.counter == old(self).ctx.counter + (if r.0 is Some {
                1int
            } else {
                0int
            }),
            r.1 == (r.0 is Some && old(self).stops(old(self).ctx.accepted + 1)),
            final(self).stop_signaled == (old(self).stop_signaled || r.1),
    {
        let result = accept_proxy(&mut self.ctx, proxy, lookup);
        let mut signal = false;
        if result.is_some() {
            if let Some(threshold) = self.threshold {
                if self.ctx.accepted >= threshold && !self.stop_signaled {
                    self.stop_signaled = true;
                    signal = true;
                }
            }
        }
        (result, signal)
    }

    /// The candidate taken ahead, if any.
    pub fn take_prefetched(&mut self) -> (r: Option<Proxy>)
        ensures
            r == old(self).prefetched,
            final(self).prefetched is None,
            final(self).ctx == old(self).ctx,
            final(self).threshold == old(self).threshold,
            final(self).stop_signaled == old(self).stop_signaled,
    {
        self.prefetched.take()
    }

    /// Looks whether more candidates wait, behind one that was kept: the next
    /// one is kept ahead; where there is none, the consumer has taken
    /// everything, and tells so.
    pub fn check_drain(&mut self, next: Option<Proxy>) -> (drained: bool)
        ensures
            drained == (next is None),
            final(self).prefetched == match next {
                Some(p) => Some(p),
                None => old(self).prefetched,
            },
            final(self).ctx == old(self).ctx,
            final(self).threshold == old(self).threshold,
            final(self).stop_signaled == old(self).stop_signaled,
    {
        match next {
            Some(proxy) => {
                self.prefetched = Some(proxy);
                false
            },
            None => true,
        }
    }
}

/// Once the run was asked to stop, it is not asked again.
pub proof fn stop_is_asked_once(f: ProxyFetcher, accepted: int)
    requires
        f.stop_signaled,
    ensures
        !f.stops(accepted),
{
}

/// Whether the consumer has taken everything from the channel.
pub fn is_drained(capacity: usize, max_capacity: usize) -> (r: bool)
    ensures
        r == (capacity >= max_capacity),
{
    capacity >= max_capacity
}

/// Behind the primary phase the fallback sources are asked exactly where fewer
/// proxies than the threshold were accepted, or where there is no threshold;
/// else the run ends.
pub proof fn fallback_follows_too_few(rules: GatherRules, found: usize, stopped: bool)
    ensures
        rules.fallback_threshold is None ==> run_goes_on(
            rules,
            GatherState::Draining,
            GatherEvent::Drained(found),
            stopped,
        ) == (
            GatherState::Fallback,
            GatherAction::Start(
                FetchStage::Fallback,
                ProviderTier::Fallback,
                rules.fallback_phase_timeout,
            ),
        ),
        rules.fallback_threshold matches Some(t) && found < t ==> run_goes_on(
            rules,
            GatherState::Draining,
            GatherEvent::Drained(found),
            stopped,
        ) == (
            GatherState::Fallback,
            GatherAction::Start(
                FetchStage::Fallback,
                ProviderTier::Fallback,
                rules.fallback_phase_timeout,
            ),
        ),
        rules.fallback_threshold matches Some(t) && found >= t ==> run_goes_on(
            rules,
            GatherState::Draining,
            GatherEvent::Drained(found),
            stopped,
        ) == (GatherState::Done, GatherAction::End(FetchStage::Done)),
{
}

/// A phase that is cut short goes on as one that ended by itself, once its
/// tasks are aborted.
pub proof fn cut_phases_go_on_alike(rules: GatherRules, early: bool, stopped: bool)
    ensures
        ({
            let cut = run_goes_on(rules, GatherState::Primary, GatherEvent::TimedOut, early);
            let asked = run_goes_on(rules, GatherState::Primary, GatherEvent::StopSignal, early);
            let late = run_goes_on(rules, GatherState::Fallback, GatherEvent::TimedOut, early);
            &&& cut.1 == GatherAction::AbortAll
            &&& asked.1 == GatherAction::AbortAll
            &&& late.1 == GatherAction::AbortAll
            &&& run_goes_on(rules, cut.0, GatherEvent::TasksEnded, stopped) == run_goes_on(
                rules,
                GatherState::Primary,
                GatherEvent::TasksEnded,
                stopped,
            )
            &&& run_goes_on(rules, asked.0, GatherEvent::TasksEnded, stopped) == run_goes_on(
                rules,
                GatherState::Primary,
                GatherEvent::TasksEnded,
                stopped,
            )
            &&& run_goes_on(rules, late.0, GatherEvent::TasksEnded, stopped) == run_goes_on(
                rules,
                GatherState::Fallback,
                GatherEvent::TasksEnded,
                stopped,
            )
        }),
{
}

/// A run begins with the primary sources. When these have ended it waits for
/// the consumer, or ends where the consumer has asked to stop; when the
/// fallback sources have ended it ends.
pub proof fn phases_lead_on(rules: GatherRules, stopped: bool)
    ensures
        run_begins() == (
            GatherState::Primary,
            GatherAction::Start(FetchStage::Primary, ProviderTier::Primary, Some(30_000u64)),
        ),
        run_goes_on(rules, GatherState::Primary, GatherEvent::TasksEnded, false) == (
            GatherState::Draining,
            GatherAction::AwaitDrain,
        ),
        run_goes_on(rules, GatherState::Primary, GatherEvent::TasksEnded, true) == (
            GatherState::Done,
            GatherAction::End(FetchStage::Done),
        ),
        run_goes_on(rules, GatherState::Fallback, GatherEvent::TasksEnded, stopped) == (
            GatherState::Done,
            GatherAction::End(FetchStage::Done),
        ),
{
}

/// Whatever else happens is waited out: a run leaves a phase on the events of
/// that phase only.
pub proof fn other_events_are_waited_out(
    rules: GatherRules,
    state: GatherState,
    event: GatherEvent,
    stopped: bool,
)
    ensures
        (run_goes_on(rules, state, event, stopped) == (state, GatherAction::Wait)) == !({
            ||| state != GatherState::Done && state != GatherState::Draining && event
                == GatherEvent::TasksEnded
            ||| state == GatherState::Primary && event == GatherEvent::StopSignal
            ||| (state == GatherState::Primary || state == GatherState::Fallback) && event
                == GatherEvent::TimedOut
            ||| state == GatherState::Draining && event is Drained
        }),
{
}

/// Where countries to keep are named, a candidate with a looked-up record is
/// kept only with a code that is one of them; where countries to drop are
/// named, never with one of those; and these filters drop nothing else.
pub proof fn countries_are_kept_and_dropped(ctx: AcceptContext, own: GeoData, geo: GeoData)
    ensures
        country_codes(ctx.countries) != Set::<Seq<char>>::empty() && ctx.passes(own, Some(geo))
            ==> geo.iso_code is Some && country_codes(ctx.countries).contains(geo.iso_code->0@),
        country_codes(ctx.countries) != Set::<Seq<char>>::empty() && geo.iso_code is None
            ==> !ctx.passes(own, Some(geo)),
        geo.iso_code matches Some(code) && country_codes(ctx.countries)
            != Set::<Seq<char>>::empty() && !country_codes(ctx.countries).contains(code@)
            ==> !ctx.passes(own, Some(geo)),
        geo.iso_code matches Some(code) && country_codes(ctx.excluded_countries).contains(code@)
            ==> !ctx.passes(own, Some(geo)),
        ctx.ip_type_filter is None && geo.iso_code is Some && (country_codes(ctx.countries)
            == Set::<Seq<char>>::empty() || country_codes(ctx.countries).contains(
            geo.iso_code->0@,
        )) && !country_codes(ctx.excluded_countries).contains(geo.iso_code->0@) ==> ctx.passes(
            own,
            Some(geo),
        ),
        ctx.ip_type_filter is None && geo.iso_code is None && country_codes(ctx.countries)
            == Set::<Seq<char>>::empty() ==> ctx.passes(own, Some(geo)),
        ctx.ip_type_filter is None ==> ctx.passes(own, None),
{
}

/// Where a class of addresses is asked for, a candidate is kept only with that
/// class: the looked-up one, or its own where nothing was looked up. Without
/// country filters nothing else is asked of it.
pub proof fn classes_are_kept(ctx: AcceptContext, want: IpType, own: GeoData, geo: GeoData)
    requires
        ctx.ip_type_filter == Some(want),
    ensures
        ctx.passes(own, Some(geo)) ==> geo.ip_type == want,
        ctx.passes(own, None) <==> own.ip_type == want,
        country_codes(ctx.countries) == Set::<Seq<char>>::empty() && country_codes(
            ctx.excluded_countries,
        ) == Set::<Seq<char>>::empty() ==> (ctx.passes(own, Some(geo)) <==> geo.ip_type == want),
        ctx.passes(own, Some(geo)) <==> geo.ip_type == want && (AcceptContext {
            ip_type_filter: None,
            ..ctx
        }).passes(own, Some(geo)),
{
}

/// A candidate that was held against the table is seen before from then on,
/// with the same address, port and protocols; another address or port is not
/// taken for it, and nothing is dropped as a repeat where repeats are allowed.
pub proof fn endpoints_are_kept_once(
    before: AcceptContext,
    after: AcceptContext,
    first: Proxy,
    other: Proxy,
)
    requires
        before.wf(),
        after.same_rules(before),
        after.remembers(before, first),
    ensures
        before.enforce_unique_ip && other.ip == first.ip && other.port == first.port
            && other.expected_types@ == first.expected_types@ ==> after.seen_before(other),
        (other.ip != first.ip || other.port != first.port) && !before.seen_before(other)
            ==> !after.seen_before(other),
        before.enforce_unique_ip && before.unique_ips@.len() < before.unique_ips.capacity
            && before.seen_before(other) ==> after.seen_before(other),
        !before.enforce_unique_ip ==> !before.seen_before(other) && !after.seen_before(other),
{
    let key = key_of(first.ip, first.port, hash_of_protocols(first.expected_types@));
    let that = key_of(other.ip, other.port, hash_of_protocols(other.expected_types@));
    crate::fetcher::dedup::keys_tell_endpoints_apart(
        first.ip,
        first.port,
        hash_of_protocols(first.expected_types@),
        other.ip,
        other.port,
        hash_of_protocols(other.expected_types@),
    );
    let kept = after_making_room(before.unique_ips@, before.unique_ips.capacity);
    if before.enforce_unique_ip && !before.seen_before(first) {
        let now = kept.push(key);
        assert(now.last() == key);
        assert(now.contains(key)) by {
            assert(now[now.len() - 1] == key);
        }
        if now.contains(that) && that != key {
            let i = choose|i: int| 0 <= i < now.len() && now[i] == that;
            assert(kept[i] == that);
            assert(before.unique_ips@.contains(that));
        }
        if before.unique_ips@.len() < before.unique_ips.capacity && before.unique_ips@.contains(
            that,
        ) {
            let i = choose|i: int|
                0 <= i < before.unique_ips@.len() && before.unique_ips@[i] == that;
            assert(now[i] == that);
        }
    }
}

/// The run is asked to stop when as many candidates as the threshold are kept,
/// not before, and never without a threshold.
pub proof fn stop_is_asked_with_enough(f: ProxyFetcher, accepted: int)
    requires
        !f.stop_signaled,
    ensures
        f.threshold is None ==> !f.stops(accepted),
        f.threshold matches Some(t) ==> (f.stops(accepted) <==> accepted >= t),
{
}

/// A configuration is started exactly where something may run at once and
/// every filter that needs a lookup has one.
pub proof fn filters_need_their_lookup(c: Config)
    ensures
        config_refused(c) is None <==> c.concurrency_limit > 0 && (c.enable_geo_lookup || (
        c.countries@.len() == 0 && c.excluded_countries@.len() == 0 && !c.enable_ip_type
            && c.ip_type_filter is None)),
        c.concurrency_limit == 0 <==> config_refused(c) == Some(GatherError::NoConcurrency),
        c.concurrency_limit > 0 && !c.enable_geo_lookup && (c.countries@.len() > 0
            || c.excluded_countries@.len() > 0) ==> config_refused(c) == Some(
            GatherError::CountryNeedsGeo,
        ),
        config_refused(c) == Some(GatherError::IpTypeNeedsGeo) ==> c.countries@.len() == 0
            && c.excluded_countries@.len() == 0 && (c.enable_ip_type || c.ip_type_filter is Some),
{
}

/// The name that is refused is the first one that no provider has; without one
/// nothing is refused.
pub proof fn unknown_names_are_found(names: Seq<Seq<char>>, known: Seq<Seq<char>>)
    ensures
        first_unknown(names, known) is None <==> forall|i: int|
            0 <= i < names.len() ==> known.contains(#[trigger] names[i]),
        first_unknown(names, known) matches Some(name) ==> exists|i: int|
            0 <= i < names.len() && #[trigger] names[i] == name && !known.contains(name) && (
            forall|j: int| 0 <= j < i ==> known.contains(#[trigger] names[j])),
    decreases names.len(),
{
    if names.len() > 0 {
        let rest = names.drop_first();
        unknown_names_are_found(rest, known);
        if known.contains(names[0]) {
            assert(forall|i: int| 0 <= i < rest.len() ==> rest[i] == #[trigger] names[i + 1]);
            if first_unknown(rest, known) is None {
                assert forall|i: int| 0 <= i < names.len() implies known.contains(
                    #[trigger] names[i],
                ) by {
                    if i > 0 {
                        assert(rest[i - 1] == names[i]);
                    }
                }
            } else {
                let name = first_unknown(rest, known)->0;
                let i = choose|i: int|
                    0 <= i < rest.len() && #[trigger] rest[i] == name && !known.contains(name) && (
                    forall|j: int| 0 <= j < i ==> known.contains(#[trigger] rest[j]));
                assert(names[i + 1] == name);
                assert forall|j: int| 0 <= j < i + 1 implies known.contains(
                    #[trigger] names[j],
                ) by {
                    if j > 0 {
                        assert(rest[j - 1] == names[j]);
                    }
                }
            }
        } else {
            assert(names[0] == first_unknown(names, known)->0);
        }
    }
}

/// The address that is refused is the first one that cannot be read.
pub proof fn invalid_addresses_are_found(urls: Seq<Seq<char>>)
    ensures
        first_invalid(urls) is None <==> forall|i: int|
            0 <= i < urls.len() ==> uri_parts(#[trigger] urls[i]) is Some,
        first_invalid(urls) matches Some(url) ==> exists|i: int|
            0 <= i < urls.len() && #[trigger] urls[i] == url && uri_parts(url) is None && (
            forall|j: int| 0 <= j < i ==> uri_parts(#[trigger] urls[j]) is Some),
    decreases urls.len(),
{
    if urls.len() > 0 {
        let rest = urls.drop_first();
        invalid_addresses_are_found(rest);
        if uri_parts(urls[0]) is Some {
            assert(forall|i: int| 0 <= i < rest.len() ==> rest[i] == #[trigger] urls[i + 1]);
            if first_invalid(rest) is None {
                assert forall|i: int| 0 <= i < urls.len() implies uri_parts(
                    #[trigger] urls[i],
                ) is Some by {
                    if i > 0 {
                        assert(rest[i - 1] == urls[i]);
                    }
                }
            } else {
                let url = first_invalid(rest)->0;
                let i = choose|i: int|
                    0 <= i < rest.len() && #[trigger] rest[i] == url && uri_parts(url) is None && (
                    forall|j: int| 0 <= j < i ==> uri_parts(#[trigger] rest[j]) is Some);
                assert(urls[i + 1] == url);
                assert forall|j: int| 0 <= j < i + 1 implies uri_parts(
                    #[trigger] urls[j],
                ) is Some by {
                    if j > 0 {
                        assert(rest[j - 1] == urls[j]);
                    }
                }
            }
        } else {
            assert(urls[0] == first_invalid(urls)->0);
        }
    }
}

/// Every source of a chosen provider is fetched in the phase of its tier and
/// in that one only, in the order of the providers.
pub proof fn tiers_hold_their_sources(
    a: Seq<Provider>,
    p: Provider,
    b: Seq<Provider>,
    tier: ProviderTier,
    timeout: Option<u64>,
)
    ensures
        tier_sources(a + b, tier, timeout) == tier_sources(a, tier, timeout) + tier_sources(
            b,
            tier,
            timeout,
        ),
        p.asked() == tier ==> tier_sources(seq![p], tier, timeout).len() == p.offers().len(),
        p.asked() != tier ==> tier_sources(seq![p], tier, timeout).len() == 0,
        forall|i: int|
            0 <= i < p.offers().len() && p.asked() == tier ==> {
                let s = #[trigger] tier_sources(seq![p], tier, timeout)[i];
                &&& s.url == p.offers()[i].url
                &&& s.host == p.offers()[i].host
                &&& s.types == p.offers()[i].types
                &&& s.mode == p.offers()[i].mode
                &&& s.timeout == match timeout {
                    Some(t) => t,
                    None => p.offers()[i].timeout,
                }
            },
    decreases b.len(),
{
    assert(seq![p].drop_last() =~= Seq::<Provider>::empty());
    assert(tier_sources(seq![p].drop_last(), tier, timeout) =~= Seq::<SourceText>::empty());
    if b.len() == 0 {
        assert(a + b =~= a);
        assert(tier_sources(a, tier, timeout) + Seq::<SourceText>::empty() =~= tier_sources(
            a,
            tier,
            timeout,
        ));
    } else {
        tiers_hold_their_sources(a, p, b.drop_last(), tier, timeout);
        assert((a + b).drop_last() =~= a + b.drop_last());
        assert((a + b).last() == b.last());
        assert(tier_sources(a + b, tier, timeout) =~= tier_sources(a, tier, timeout)
            + tier_sources(b, tier, timeout));
    }
}

/// An extra address is fetched as a plain list of the common types, for the
/// time of the run or else for three seconds.
pub proof fn extra_addresses_are_fetched(urls: Seq<Seq<char>>, timeout: Option<u64>, i: int)
    requires
        0 <= i < urls.len(),
        uri_parts(urls[i]) is Some,
    ensures
        custom_sources(urls, timeout).len() == urls.len(),
        custom_sources(urls, timeout)[i].url == (uri_parts(urls[i])->0).0,
        custom_sources(urls, timeout)[i].mode == ScrapeMode::Plaintext,
        custom_sources(urls, timeout)[i].types == common_types(),
        custom_sources(urls, timeout)[i].timeout == match timeout {
            Some(t) => t,
            None => 3000,
        },
{
}

} // verus!
