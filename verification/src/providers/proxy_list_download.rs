//! The proxy-list.download API, one list per protocol.

use crate::providers::models::{
    ProviderTier, ScrapeMode, Source, SourceText, EntryText, entry, entry_texts, only, sources_of, valid_entries,
};
use crate::providers::ProxyProvider;
use crate::proxy::models::{Anonymity, Protocol};
use vstd::prelude::*;

verus! {

/// The proxy-list.download API, one list per protocol.
#[derive(Clone, Copy, Debug)]
pub struct ProxyListDownloadProvider;

impl ProxyListDownloadProvider {
    /// The addresses that the provider tries.
    pub open spec fn listed(&self) -> Seq<EntryText> {
        seq![
            EntryText {
                url: "https://www.proxy-list.download/api/v1/get?type=http"@,
                types: seq![Protocol::Http(Anonymity::Unknown)],
                timeout: 15000,
                mode: ScrapeMode::JsonStringArray,
            },
            EntryText {
                url: "https://www.proxy-list.download/api/v1/get?type=https"@,
                types: seq![Protocol::Https(Anonymity::Unknown)],
                timeout: 15000,
                mode: ScrapeMode::JsonStringArray,
            },
            EntryText {
                url: "https://www.proxy-list.download/api/v1/get?type=socks4"@,
                types: seq![Protocol::Socks4],
                timeout: 15000,
                mode: ScrapeMode::JsonStringArray,
            },
            EntryText {
                url: "https://www.proxy-list.download/api/v1/get?type=socks5"@,
                types: seq![Protocol::Socks5],
                timeout: 15000,
                mode: ScrapeMode::JsonStringArray,
            },
        ]
    }
}

impl ProxyProvider for ProxyListDownloadProvider {
    open spec fn called(&self) -> Seq<char> {
        "proxy-list-download"@
    }

    open spec fn asked(&self) -> ProviderTier {
        ProviderTier::Primary
    }

    open spec fn offers(&self) -> Seq<SourceText> {
        valid_entries(self.listed())
    }

    fn name(&self) -> &'static str {
        "proxy-list-download"
    }

    fn tier(&self) -> ProviderTier {
        ProviderTier::Primary
    }

    fn sources(&self) -> Vec<Source> {
        let entries = vec![
            entry(
                "https://www.proxy-list.download/api/v1/get?type=http",
                only(Protocol::Http(Anonymity::Unknown)),
                15000,
                ScrapeMode::JsonStringArray,
            ),
            entry(
                "https://www.proxy-list.download/api/v1/get?type=https",
                only(Protocol::Https(Anonymity::Unknown)),
                15000,
                ScrapeMode::JsonStringArray,
            ),
            entry(
                "https://www.proxy-list.download/api/v1/get?type=socks4",
                only(Protocol::Socks4),
                15000,
                ScrapeMode::JsonStringArray,
            ),
            entry(
                "https://www.proxy-list.download/api/v1/get?type=socks5",
                only(Protocol::Socks5),
                15000,
                ScrapeMode::JsonStringArray,
            ),
        ];
        assert(entry_texts(entries@) =~~= self.listed());
        sources_of(entries)
    }
}

} // verus!
