//! The tables of the free-proxy-list family of sites.

use crate::providers::models::{
    ProviderTier, ScrapeMode, Source, SourceText, EntryText, entry, entry_texts, http_type_list, http_types, only, sources_of, valid_entries,
};
use crate::providers::ProxyProvider;
use crate::proxy::models::Protocol;
use vstd::prelude::*;

verus! {

/// The tables of the free-proxy-list family of sites.
#[derive(Clone, Copy, Debug)]
pub struct FreeProxyListProvider;

impl FreeProxyListProvider {
    /// The addresses that the provider tries.
    pub open spec fn listed(&self) -> Seq<EntryText> {
        seq![
            EntryText {
                url: "https://free-proxy-list.net/"@,
                types: http_types(),
                timeout: 15000,
                mode: ScrapeMode::HtmlTable,
            },
            EntryText {
                url: "https://www.sslproxies.org/"@,
                types: http_types(),
                timeout: 15000,
                mode: ScrapeMode::HtmlTable,
            },
            EntryText {
                url: "https://us-proxy.org/"@,
                types: http_types(),
                timeout: 15000,
                mode: ScrapeMode::HtmlTable,
            },
            EntryText {
                url: "https://www.socks-proxy.net/"@,
                types: seq![Protocol::Socks4],
                timeout: 15000,
                mode: ScrapeMode::HtmlTable,
            },
        ]
    }
}

impl ProxyProvider for FreeProxyListProvider {
    open spec fn called(&self) -> Seq<char> {
        "free-proxy-list"@
    }

    open spec fn asked(&self) -> ProviderTier {
        ProviderTier::Primary
    }

    open spec fn offers(&self) -> Seq<SourceText> {
        valid_entries(self.listed())
    }

    fn name(&self) -> &'static str {
        "free-proxy-list"
    }

    fn tier(&self) -> ProviderTier {
        ProviderTier::Primary
    }

    fn sources(&self) -> Vec<Source> {
        let entries = vec![
            entry(
                "https://free-proxy-list.net/",
                http_type_list(),
                15000,
                ScrapeMode::HtmlTable,
            ),
            entry(
                "https://www.sslproxies.org/",
                http_type_list(),
                15000,
                ScrapeMode::HtmlTable,
            ),
            entry(
                "https://us-proxy.org/",
                http_type_list(),
                15000,
                ScrapeMode::HtmlTable,
            ),
            entry(
                "https://www.socks-proxy.net/",
                only(Protocol::Socks4),
                15000,
                ScrapeMode::HtmlTable,
            ),
        ];
        assert(entry_texts(entries@) =~~= self.listed());
        sources_of(entries)
    }
}

} // verus!
