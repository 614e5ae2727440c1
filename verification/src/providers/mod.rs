//! Proxy list providers: where lists are found and how they are read.

pub mod fetch;
pub mod free_proxy_cz;
pub mod free_proxy_list;
pub mod freeproxy_world;
pub mod gatherproxy;
pub mod geonode;
pub mod github;
pub mod hide_my_name;
pub mod models;
pub mod my_proxy;
pub mod openproxylist;
pub mod parsers;
pub mod proxies24;
pub mod proxy_db;
pub mod proxy_list_download;
pub mod proxylist_org;
pub mod proxynova;
pub mod proxyscrape;
pub mod spys_one;

use crate::error::FlxError;
use crate::providers::free_proxy_list::FreeProxyListProvider;
use crate::providers::freeproxy_world::FreeProxyWorldProvider;
use crate::providers::gatherproxy::GatherProxyProvider;
use crate::providers::geonode::GeonodeProvider;
use crate::providers::github::GithubRepoProvider;
use crate::providers::hide_my_name::HideMyNameProvider;
use crate::providers::models::{
    source_made, source_text, source_texts, ProviderTier, ScrapeMode, Source, SourceText,
};
use crate::providers::my_proxy::MyProxyProvider;
use crate::providers::openproxylist::OpenProxyListProvider;
use crate::providers::parsers::ParsedProxy;
use crate::providers::proxy_db::ProxyDbProvider;
use crate::providers::proxy_list_download::ProxyListDownloadProvider;
use crate::providers::proxylist_org::ProxyListOrgProvider;
use crate::providers::proxynova::ProxyNovaProvider;
use crate::providers::proxyscrape::ProxyscrapeProvider;
use crate::proxy::models::{copy_protocols, fresh_proxy, Protocol, Proxy};
use crate::text::{list_contains, texts};
use vstd::prelude::*;

verus! {

/// A place that proxy lists come from.
pub trait ProxyProvider {
    /// The provider's name.
    spec fn called(&self) -> Seq<char>;

    /// When the provider is asked.
    spec fn asked(&self) -> ProviderTier;

    /// What the provider's sources say.
    spec fn offers(&self) -> Seq<SourceText>;

    /// The provider's name.
    fn name(&self) -> (r: &'static str)
        ensures
            r@ == self.called(),
    ;

    /// When the provider is asked.
    fn tier(&self) -> (r: ProviderTier)
        ensures
            r == self.asked(),
    ;

    /// The provider's sources, without those whose address cannot be read.
    fn sources(&self) -> (r: Vec<Source>)
        ensures
            source_texts(r@) == self.offers(),
    ;
}

/// Provider that scrapes a single user-supplied plaintext URL.
#[derive(Clone, Debug)]
pub struct CustomUrlProvider(pub Source);

impl CustomUrlProvider {
    /// Creates a provider from a plaintext proxy-list URL.
    pub fn new(url: &str) -> (r: Result<Self, FlxError>)
        ensures
            match r {
                Ok(p) => source_made(Ok(p.0), url@, Seq::empty()),
                Err(e) => source_made(Err(e), url@, Seq::empty()),
            },
    {
        match Source::all(url) {
            Ok(source) => Ok(CustomUrlProvider(source)),
            Err(error) => Err(error),
        }
    }
}

impl ProxyProvider for CustomUrlProvider {
    open spec fn called(&self) -> Seq<char> {
        "custom"@
    }

    open spec fn asked(&self) -> ProviderTier {
        ProviderTier::Primary
    }

    open spec fn offers(&self) -> Seq<SourceText> {
        seq![source_text(self.0)]
    }

    fn name(&self) -> &'static str {
        "custom"
    }

    fn tier(&self) -> ProviderTier {
        ProviderTier::Primary
    }

    fn sources(&self) -> Vec<Source> {
        let v = vec![self.0.duplicate()];
        assert(source_texts(v@) =~= self.offers());
        v
    }
}

/// A provider of the registry, or one for an address that the user gave.
#[derive(Clone, Debug)]
pub enum Provider {
    Proxyscrape(ProxyscrapeProvider),
    OpenProxyList(OpenProxyListProvider),
    Geonode(GeonodeProvider),
    FreeProxyList(FreeProxyListProvider),
    FreeProxyWorld(FreeProxyWorldProvider),
    ProxyListOrg(ProxyListOrgProvider),
    MyProxy(MyProxyProvider),
    ProxyNova(ProxyNovaProvider),
    GatherProxy(GatherProxyProvider),
    HideMyName(HideMyNameProvider),
    ProxyDb(ProxyDbProvider),
    ProxyListDownload(ProxyListDownloadProvider),
    GithubRepo(GithubRepoProvider),
    Custom(CustomUrlProvider),
}

impl ProxyProvider for Provider {
    open spec fn called(&self) -> Seq<char> {
        match self {
            Provider::Proxyscrape(p) => p.called(),
            Provider::OpenProxyList(p) => p.called(),
            Provider::Geonode(p) => p.called(),
            Provider::FreeProxyList(p) => p.called(),
            Provider::FreeProxyWorld(p) => p.called(),
            Provider::ProxyListOrg(p) => p.called(),
            Provider::MyProxy(p) => p.called(),
            Provider::ProxyNova(p) => p.called(),
            Provider::GatherProxy(p) => p.called(),
            Provider::HideMyName(p) => p.called(),
            Provider::ProxyDb(p) => p.called(),
            Provider::ProxyListDownload(p) => p.called(),
            Provider::GithubRepo(p) => p.called(),
            Provider::Custom(p) => p.called(),
        }
    }

    open spec fn asked(&self) -> ProviderTier {
        match self {
            Provider::Proxyscrape(p) => p.asked(),
            Provider::OpenProxyList(p) => p.asked(),
            Provider::Geonode(p) => p.asked(),
            Provider::FreeProxyList(p) => p.asked(),
            Provider::FreeProxyWorld(p) => p.asked(),
            Provider::ProxyListOrg(p) => p.asked(),
            Provider::MyProxy(p) => p.asked(),
            Provider::ProxyNova(p) => p.asked(),
            Provider::GatherProxy(p) => p.asked(),
            Provider::HideMyName(p) => p.asked(),
            Provider::ProxyDb(p) => p.asked(),
            Provider::ProxyListDownload(p) => p.asked(),
            Provider::GithubRepo(p) => p.asked(),
            Provider::Custom(p) => p.asked(),
        }
    }

    open spec fn offers(&self) -> Seq<SourceText> {
        match self {
            Provider::Proxyscrape(p) => p.offers(),
            Provider::OpenProxyList(p) => p.offers(),
            Provider::Geonode(p) => p.offers(),
            Provider::FreeProxyList(p) => p.offers(),
            Provider::FreeProxyWorld(p) => p.offers(),
            Provider::ProxyListOrg(p) => p.offers(),
            Provider::MyProxy(p) => p.offers(),
            Provider::ProxyNova(p) => p.offers(),
            Provider::GatherProxy(p) => p.offers(),
            Provider::HideMyName(p) => p.offers(),
            Provider::ProxyDb(p) => p.offers(),
            Provider::ProxyListDownload(p) => p.offers(),
            Provider::GithubRepo(p) => p.offers(),
            Provider::Custom(p) => p.offers(),
        }
    }

    fn name(&self) -> &'static str {
        match self {
            Provider::Proxyscrape(p) => p.name(),
            Provider::OpenProxyList(p) => p.name(),
            Provider::Geonode(p) => p.name(),
            Provider::FreeProxyList(p) => p.name(),
            Provider::FreeProxyWorld(p) => p.name(),
            Provider::ProxyListOrg(p) => p.name(),
            Provider::MyProxy(p) => p.name(),
            Provider::ProxyNova(p) => p.name(),
            Provider::GatherProxy(p) => p.name(),
            Provider::HideMyName(p) => p.name(),
            Provider::ProxyDb(p) => p.name(),
            Provider::ProxyListDownload(p) => p.name(),
            Provider::GithubRepo(p) => p.name(),
            Provider::Custom(p) => p.name(),
        }
    }

    fn tier(&self) -> ProviderTier {
        match self {
            Provider::Proxyscrape(p) => p.tier(),
            Provider::OpenProxyList(p) => p.tier(),
            Provider::Geonode(p) => p.tier(),
            Provider::FreeProxyList(p) => p.tier(),
            Provider::FreeProxyWorld(p) => p.tier(),
            Provider::ProxyListOrg(p) => p.tier(),
            Provider::MyProxy(p) => p.tier(),
            Provider::ProxyNova(p) => p.tier(),
            Provider::GatherProxy(p) => p.tier(),
            Provider::HideMyName(p) => p.tier(),
            Provider::ProxyDb(p) => p.tier(),
            Provider::ProxyListDownload(p) => p.tier(),
            Provider::GithubRepo(p) => p.tier(),
            Provider::Custom(p) => p.tier(),
        }
    }

    fn sources(&self) -> Vec<Source> {
        match self {
            Provider::Proxyscrape(p) => p.sources(),
            Provider::OpenProxyList(p) => p.sources(),
            Provider::Geonode(p) => p.sources(),
            Provider::FreeProxyList(p) => p.sources(),
            Provider::FreeProxyWorld(p) => p.sources(),
            Provider::ProxyListOrg(p) => p.sources(),
            Provider::MyProxy(p) => p.sources(),
            Provider::ProxyNova(p) => p.sources(),
            Provider::GatherProxy(p) => p.sources(),
            Provider::HideMyName(p) => p.sources(),
            Provider::ProxyDb(p) => p.sources(),
            Provider::ProxyListDownload(p) => p.sources(),
            Provider::GithubRepo(p) => p.sources(),
            Provider::Custom(p) => p.sources(),
        }
    }
}

/// The registry: twelve primary providers, which are live websites and APIs,
/// then the aggregated mirrors. Seven more sites can be read besides the first
/// eight. Four of them are registered, those that are asked over HTTPS and given
/// fifteen seconds at the most: gatherproxy, hidemy.name, proxydb and
/// proxy-list-download. A slower site would hold the primary phase up, which
/// leaves out free-proxy.cz and spys.one, and what proxies24 answers over plain
/// HTTP can be altered on its way.
pub open spec fn registry() -> Seq<Provider> {
    seq![
        Provider::Proxyscrape(ProxyscrapeProvider),
        Provider::OpenProxyList(OpenProxyListProvider),
        Provider::Geonode(GeonodeProvider),
        Provider::FreeProxyList(FreeProxyListProvider),
        Provider::FreeProxyWorld(FreeProxyWorldProvider),
        Provider::ProxyListOrg(ProxyListOrgProvider),
        Provider::MyProxy(MyProxyProvider),
        Provider::ProxyNova(ProxyNovaProvider),
        Provider::GatherProxy(GatherProxyProvider),
        Provider::HideMyName(HideMyNameProvider),
        Provider::ProxyDb(ProxyDbProvider),
        Provider::ProxyListDownload(ProxyListDownloadProvider),
        Provider::GithubRepo(GithubRepoProvider),
    ]
}

/// The registered providers, in the order they are asked.
pub fn all_providers() -> (r: Vec<Provider>)
    ensures
        r@ == registry(),
{
    let r = vec![
        Provider::Proxyscrape(ProxyscrapeProvider),
        Provider::OpenProxyList(OpenProxyListProvider),
        Provider::Geonode(GeonodeProvider),
        Provider::FreeProxyList(FreeProxyListProvider),
        Provider::FreeProxyWorld(FreeProxyWorldProvider),
        Provider::ProxyListOrg(ProxyListOrgProvider),
        Provider::MyProxy(MyProxyProvider),
        Provider::ProxyNova(ProxyNovaProvider),
        Provider::GatherProxy(GatherProxyProvider),
        Provider::HideMyName(HideMyNameProvider),
        Provider::ProxyDb(ProxyDbProvider),
        Provider::ProxyListDownload(ProxyListDownloadProvider),
        Provider::GithubRepo(GithubRepoProvider),
    ];
    assert(r@ =~= registry());
    r
}

/// The registry has twelve primary providers and one fallback behind them, and
/// no two of them share a name.
pub proof fn registry_is_told_apart()
    ensures
        registry().len() == 13,
        forall|i: int|
            0 <= i < 12 ==> (#[trigger] registry()[i]).asked() == ProviderTier::Primary,
        registry()[12].asked() == ProviderTier::Fallback,
        registry()[12].called() == "github-raw"@,
        forall|i: int, j: int|
            0 <= i < j < 13 ==> (#[trigger] registry()[i]).called() != (
            #[trigger] registry()[j]).called(),
{
    reveal_strlit("proxyscrape");
    reveal_strlit("openproxylist");
    reveal_strlit("geonode");
    reveal_strlit("free-proxy-list");
    reveal_strlit("freeproxy-world");
    reveal_strlit("proxylist-org");
    reveal_strlit("my-proxy");
    reveal_strlit("proxynova");
    reveal_strlit("gatherproxy");
    reveal_strlit("hidemy.name");
    reveal_strlit("proxydb");
    reveal_strlit("proxy-list-download");
    reveal_strlit("github-raw");
    let mark = |s: Seq<char>| s.len() * 1000000 + s[0] as int * 1000 + s[4] as int;
    let marks = seq![
        11112121int,
        13111112int,
        7103111int,
        15102045int,
        15102112int,
        13112121int,
        8109114int,
        9112121int,
        11103101int,
        11104109int,
        7112121int,
        19112121int,
        10103117int,
    ];
    assert(mark(registry()[0].called()) == marks[0]);
    assert(mark(registry()[1].called()) == marks[1]);
    assert(mark(registry()[2].called()) == marks[2]);
    assert(mark(registry()[3].called()) == marks[3]);
    assert(mark(registry()[4].called()) == marks[4]);
    assert(mark(registry()[5].called()) == marks[5]);
    assert(mark(registry()[6].called()) == marks[6]);
    assert(mark(registry()[7].called()) == marks[7]);
    assert(mark(registry()[8].called()) == marks[8]);
    assert(mark(registry()[9].called()) == marks[9]);
    assert(mark(registry()[10].called()) == marks[10]);
    assert(mark(registry()[11].called()) == marks[11]);
    assert(mark(registry()[12].called()) == marks[12]);
    assert forall|i: int, j: int| 0 <= i < j < 13 implies (#[trigger] registry()[i]).called() != (
    #[trigger] registry()[j]).called() by {
        assert(marks[i] != marks[j]);
        assert(mark(registry()[i].called()) == marks[i]);
        assert(mark(registry()[j].called()) == marks[j]);
    }
}

/// Whether a provider is selected: named by the list of names to keep, where
/// there is one, and not by the list of names to drop.
pub open spec fn selects(wanted: Seq<Seq<char>>, unwanted: Seq<Seq<char>>, p: Provider) -> bool {
    (wanted.len() == 0 || wanted.contains(p.called())) && !unwanted.contains(p.called())
}

/// The selected providers, in order.
pub open spec fn selected(
    providers: Seq<Provider>,
    wanted: Seq<Seq<char>>,
    unwanted: Seq<Seq<char>>,
) -> Seq<Provider>
    decreases providers.len(),
{
    if providers.len() == 0 {
        Seq::empty()
    } else {
        let rest = selected(providers.drop_last(), wanted, unwanted);
        if selects(wanted, unwanted, providers.last()) {
            rest.push(providers.last())
        } else {
            rest
        }
    }
}

/// Keeps only the providers whose name is included by `wanted` (when
/// non-empty) and absent from `unwanted`.
pub fn select_providers(
    providers: Vec<Provider>,
    wanted: &Vec<String>,
    unwanted: &Vec<String>,
) -> (r: Vec<Provider>)
    ensures
        r@ == selected(providers@, texts(wanted@), texts(unwanted@)),
{
    let mut r: Vec<Provider> = Vec::new();
    let ghost all = providers@;
    let ghost keep = texts(wanted@);
    let ghost drop = texts(unwanted@);
    assert(all.take(0) =~= Seq::<Provider>::empty());
    for provider in it: providers
        invariant
            it.seq() == all,
            keep == texts(wanted@),
            drop == texts(unwanted@),
            r@ == selected(all.take(it.index() as int), keep, drop),
    {
        let ghost done = all.take(it.index() + 1);
        assert(done.drop_last() =~= all.take(it.index() as int));
        assert(done.last() == provider);
        let name = provider.name();
        let in_list = wanted.len() == 0 || list_contains(wanted, name);
        let excluded = list_contains(unwanted, name);
        if in_list && !excluded {
            r.push(provider);
        }
    }
    assert(all.take(all.len() as int) =~= all);
    r
}

/// Every provider that is kept was there before, is not one to drop, and is
/// one to keep where some are named: dropping wins over keeping.
pub proof fn dropping_wins(
    providers: Seq<Provider>,
    wanted: Seq<Seq<char>>,
    unwanted: Seq<Seq<char>>,
    i: int,
)
    requires
        0 <= i < selected(providers, wanted, unwanted).len(),
    ensures
        providers.contains(selected(providers, wanted, unwanted)[i]),
        !unwanted.contains(selected(providers, wanted, unwanted)[i].called()),
        wanted.len() > 0 ==> wanted.contains(
            selected(providers, wanted, unwanted)[i].called(),
        ),
    decreases providers.len(),
{
    let rest = selected(providers.drop_last(), wanted, unwanted);
    if i < rest.len() {
        dropping_wins(providers.drop_last(), wanted, unwanted, i);
        let p = rest[i];
        let j = choose|j: int| 0 <= j < providers.drop_last().len() && providers.drop_last()[j] == p;
        assert(providers[j] == p);
    } else {
        assert(providers.last() == providers[providers.len() - 1]);
    }
}

/// Without names to keep or drop, every provider stays.
pub proof fn no_names_keep_everything(providers: Seq<Provider>)
    ensures
        selected(providers, Seq::empty(), Seq::empty()) == providers,
    decreases providers.len(),
{
    if providers.len() > 0 {
        no_names_keep_everything(providers.drop_last());
        assert(providers.drop_last().push(providers.last()) =~= providers);
    } else {
        assert(providers =~= Seq::<Provider>::empty());
    }
}

// ---------------------------------------------------------------------------
// From rows to proxies
// ---------------------------------------------------------------------------

/// The protocols that a row stands for: its own, or else the source's.
pub open spec fn row_types(row: ParsedProxy, default_types: Seq<Protocol>) -> Seq<Protocol> {
    match row.2 {
        Some(p) => seq![p],
        None => default_types,
    }
}

/// Makes the proxy that a row stands for.
pub fn proxy_of_row(row: ParsedProxy, default_types: &Vec<Protocol>) -> (p: Proxy)
    ensures
        fresh_proxy(p, row.0, row.1, row_types(row, default_types@)),
        p.wf(),
{
    let expected = match row.2 {
        Some(protocol) => crate::fetcher::phase::protocol_arc(protocol),
        None => copy_protocols(default_types),
    };
    Proxy::with_expected_types(row.0, row.1, expected)
}

/// What comes of reading a body.
pub enum Reading {
    Rows(Vec<ParsedProxy>),
    /// The body is not in the form that it should have.
    Malformed,
    /// The body holds JSON objects, whose entries are read one by one.
    Entries,
}

/// The rows in a body that is read as a text.
pub open spec fn text_rows(mode: ScrapeMode, body: Seq<char>) -> Option<Seq<ParsedProxy>> {
    match mode {
        ScrapeMode::Plaintext => Some(
            parsers::line_rows(crate::text::lines(parsers::without_mark(body))),
        ),
        ScrapeMode::HtmlTable => Some(parsers::rows_of_tables(parsers::table_texts(body))),
        ScrapeMode::RegexPairs => Some(
            parsers::match_rows(
                parsers::found(parsers::regex_matches(parsers::pair_pattern(), body)),
            ),
        ),
        ScrapeMode::Base64Rows => Some(
            parsers::call_rows(
                parsers::found(parsers::regex_matches(parsers::call_pattern(), body)),
            ),
        ),
        ScrapeMode::GatherProxyJs => Some(
            parsers::match_rows(
                parsers::found(parsers::regex_matches(parsers::gather_pattern(), body)),
            ),
        ),
        ScrapeMode::JsonStringArray => {
            let (texts, whole) = parsers::array_texts(body);
            if whole {
                Some(parsers::rows_of_texts(texts))
            } else {
                None
            }
        },
        ScrapeMode::GeonodeJson | ScrapeMode::ProxyNovaJson => None,
    }
}

/// Whether a way of reading goes by the entries of JSON objects.
pub open spec fn by_entries(mode: ScrapeMode) -> bool {
    mode == ScrapeMode::GeonodeJson || mode == ScrapeMode::ProxyNovaJson
}

fn wants_all(_row: ParsedProxy) -> (more: bool)
    ensures
        more,
{
    true
}

/// Reads a body in the given way.
pub fn parse_text(mode: ScrapeMode, body: &str) -> (r: Reading)
    ensures
        match r {
            Reading::Rows(rows) => text_rows(mode, body@) == Some(rows@),
            Reading::Malformed => !by_entries(mode) && text_rows(mode, body@) is None,
            Reading::Entries => by_entries(mode),
        },
{
    match mode {
        ScrapeMode::Plaintext => Reading::Rows(parsers::visit_plaintext(body, wants_all)),
        ScrapeMode::HtmlTable => Reading::Rows(parsers::visit_html_table(body, wants_all)),
        ScrapeMode::RegexPairs => Reading::Rows(parsers::visit_regex_pairs(body, wants_all)),
        ScrapeMode::Base64Rows => Reading::Rows(parsers::visit_base64_rows(body, wants_all)),
        ScrapeMode::GatherProxyJs => Reading::Rows(parsers::visit_gatherproxy(body, wants_all)),
        ScrapeMode::JsonStringArray => match parsers::visit_json_strings(body, wants_all) {
            Ok(rows) => Reading::Rows(rows),
            Err(_) => Reading::Malformed,
        },
        ScrapeMode::GeonodeJson => Reading::Entries,
        ScrapeMode::ProxyNovaJson => Reading::Entries,
    }
}

/// A provider is kept exactly where it is named, or nothing is, and where it is
/// not named to be dropped; those that are kept keep their order.
pub proof fn named_providers_are_kept(
    a: Seq<Provider>,
    p: Provider,
    b: Seq<Provider>,
    wanted: Seq<Seq<char>>,
    unwanted: Seq<Seq<char>>,
)
    ensures
        (wanted.len() == 0 || wanted.contains(p.called())) && !unwanted.contains(p.called())
            ==> selected(a + seq![p] + b, wanted, unwanted) == selected(a, wanted, unwanted)
            + seq![p] + selected(b, wanted, unwanted),
        unwanted.contains(p.called()) || (wanted.len() > 0 && !wanted.contains(p.called()))
            ==> selected(a + seq![p] + b, wanted, unwanted) == selected(a, wanted, unwanted)
            + selected(b, wanted, unwanted),
{
    let one = seq![p];
    assert(one.drop_last() =~= Seq::<Provider>::empty());
    assert(selected(one.drop_last(), wanted, unwanted) =~= Seq::<Provider>::empty());
    assert(one.last() == p);
    lemma_selected_concat(a, one, wanted, unwanted);
    lemma_selected_concat(a + one, b, wanted, unwanted);
    if selects(wanted, unwanted, p) {
        assert(selected(one, wanted, unwanted) =~= one);
    } else {
        assert(selected(a, wanted, unwanted) + selected(one, wanted, unwanted) =~= selected(
            a,
            wanted,
            unwanted,
        ));
    }
}

proof fn lemma_selected_concat(
    a: Seq<Provider>,
    b: Seq<Provider>,
    wanted: Seq<Seq<char>>,
    unwanted: Seq<Seq<char>>,
)
    ensures
        selected(a + b, wanted, unwanted) == selected(a, wanted, unwanted) + selected(
            b,
            wanted,
            unwanted,
        ),
    decreases b.len(),
{
    if b.len() == 0 {
        assert(a + b =~= a);
        assert(selected(a, wanted, unwanted) + selected(b, wanted, unwanted) =~= selected(
            a,
            wanted,
            unwanted,
        ));
    } else {
        lemma_selected_concat(a, b.drop_last(), wanted, unwanted);
        assert((a + b).drop_last() =~= a + b.drop_last());
        assert((a + b).last() == b.last());
        assert(selected(a + b, wanted, unwanted) =~= selected(a, wanted, unwanted) + selected(
            b,
            wanted,
            unwanted,
        ));
    }
}

/// A row stands for the protocol that it names, and else for those of its
/// source.
pub proof fn rows_stand_for_their_types(
    ip: crate::net::Ipv4Addr,
    port: u16,
    p: Protocol,
    defaults: Seq<Protocol>,
)
    ensures
        row_types((ip, port, Some(p)), defaults) == seq![p],
        row_types((ip, port, None), defaults) == defaults,
{
}

/// A plain list is read line by line: each line with an endpoint gives it, and
/// what is behind the line is read alike.
pub proof fn plain_lists_give_their_endpoints(
    ip: crate::net::Ipv4Addr,
    port: u16,
    rest: Seq<char>,
)
    ensures
        text_rows(
            ScrapeMode::Plaintext,
            crate::proxy::models::endpoint_text(ip, port) + seq!['\n'] + rest,
        ) == Some(
            seq![(ip, port, None::<Protocol>)] + parsers::line_rows(crate::text::lines(rest)),
        ),
        rest.len() == 0 || rest[0] != '\u{feff}' ==> text_rows(ScrapeMode::Plaintext, rest)
            == Some(parsers::line_rows(crate::text::lines(rest))),
{
    let none = Seq::<char>::empty();
    let e = crate::proxy::models::endpoint_text(ip, port);
    let body = e + seq!['\n'] + rest;
    crate::source::endpoints_are_found_in_their_line(none, ip, port, none, none);
    assert(none + e + none + none =~= e);
    crate::source::endpoints_hold_plain_characters(ip, port);
    assert(body[0] == e[0]);
    parsers::only_the_mark_is_passed_over(body);
    parsers::only_the_mark_is_passed_over(rest);
    assert(e.last() == e[e.len() - 1]);
    crate::text::lines_end_at_line_feeds(e, rest);
    let empty = Seq::<Seq<char>>::empty();
    parsers::every_line_is_read(empty, e, crate::text::lines(rest));
    assert(empty + seq![e] + crate::text::lines(rest) =~= seq![e] + crate::text::lines(rest));
    assert(parsers::line_rows(seq![e] + crate::text::lines(rest)) =~= seq![
        (ip, port, None::<Protocol>),
    ] + parsers::line_rows(crate::text::lines(rest)));
}

/// Every other body is read in the way that its source asks for: its tables,
/// its matches, its calls or its texts, and a text array only where it is whole.
pub proof fn bodies_are_read_as_asked(body: Seq<char>)
    ensures
        text_rows(ScrapeMode::HtmlTable, body) == Some(
            parsers::rows_of_tables(parsers::table_texts(body)),
        ),
        parsers::regex_matches(parsers::pair_pattern(), body) matches Some(m) ==> text_rows(
            ScrapeMode::RegexPairs,
            body,
        ) == Some(parsers::match_rows(m)),
        parsers::regex_matches(parsers::gather_pattern(), body) matches Some(m) ==> text_rows(
            ScrapeMode::GatherProxyJs,
            body,
        ) == Some(parsers::match_rows(m)),
        parsers::regex_matches(parsers::call_pattern(), body) matches Some(m) ==> text_rows(
            ScrapeMode::Base64Rows,
            body,
        ) == Some(parsers::call_rows(m)),
        parsers::array_texts(body).1 ==> text_rows(ScrapeMode::JsonStringArray, body) == Some(
            parsers::line_rows(parsers::array_texts(body).0),
        ),
        !parsers::array_texts(body).1 ==> text_rows(ScrapeMode::JsonStringArray, body) is None,
        by_entries(ScrapeMode::GeonodeJson) && by_entries(ScrapeMode::ProxyNovaJson),
        !by_entries(ScrapeMode::Plaintext) && !by_entries(ScrapeMode::HtmlTable) && !by_entries(
            ScrapeMode::JsonStringArray,
        ),
{
    let empty = Seq::<Seq<char>>::empty();
    parsers::every_line_is_read(parsers::array_texts(body).0, Seq::empty(), empty);
}

} // verus!
