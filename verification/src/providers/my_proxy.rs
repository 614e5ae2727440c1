//! The my-proxy.com free list, which embeds `ip:port#CC` pairs in page text.

use crate::providers::models::{
    ProviderTier, ScrapeMode, Source, SourceText, EntryText, entry, entry_texts, only, sources_of, valid_entries,
};
use crate::providers::ProxyProvider;
use crate::proxy::models::{Anonymity, Protocol};
use vstd::prelude::*;

verus! {

/// The my-proxy.com free list, which embeds `ip:port#CC` pairs in page text.
#[derive(Clone, Copy, Debug)]
pub struct MyProxyProvider;

impl MyProxyProvider {
    /// The addresses that the provider tries.
    pub open spec fn listed(&self) -> Seq<EntryText> {
        seq![
            EntryText {
                url: "https://www.my-proxy.com/free-proxy-list.html"@,
                types: seq![Protocol::Http(Anonymity::Unknown)],
                timeout: 15000,
                mode: ScrapeMode::RegexPairs,
            },
        ]
    }
}

impl ProxyProvider for MyProxyProvider {
    open spec fn called(&self) -> Seq<char> {
        "my-proxy"@
    }

    open spec fn asked(&self) -> ProviderTier {
        ProviderTier::Primary
    }

    open spec fn offers(&self) -> Seq<SourceText> {
        valid_entries(self.listed())
    }

    fn name(&self) -> &'static str {
        "my-proxy"
    }

    fn tier(&self) -> ProviderTier {
        ProviderTier::Primary
    }

    fn sources(&self) -> Vec<Source> {
        let entries = vec![
            entry(
                "https://www.my-proxy.com/free-proxy-list.html",
                only(Protocol::Http(Anonymity::Unknown)),
                15000,
                ScrapeMode::RegexPairs,
            ),
        ];
        assert(entry_texts(entries@) =~~= self.listed());
        sources_of(entries)
    }
}

} // verus!
