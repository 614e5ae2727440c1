//! The proxynova.com API.

use crate::providers::models::{
    ProviderTier, ScrapeMode, Source, SourceText, EntryText, entry, entry_texts, http_type_list, http_types, sources_of, valid_entries,
};
use crate::providers::ProxyProvider;
use vstd::prelude::*;

verus! {

/// The proxynova.com API.
#[derive(Clone, Copy, Debug)]
pub struct ProxyNovaProvider;

impl ProxyNovaProvider {
    /// The addresses that the provider tries.
    pub open spec fn listed(&self) -> Seq<EntryText> {
        seq![
            EntryText {
                url: "https://api.proxynova.com/proxylist"@,
                types: http_types(),
                timeout: 15000,
                mode: ScrapeMode::ProxyNovaJson,
            },
        ]
    }
}

impl ProxyProvider for ProxyNovaProvider {
    open spec fn called(&self) -> Seq<char> {
        "proxynova"@
    }

    open spec fn asked(&self) -> ProviderTier {
        ProviderTier::Primary
    }

    open spec fn offers(&self) -> Seq<SourceText> {
        valid_entries(self.listed())
    }

    fn name(&self) -> &'static str {
        "proxynova"
    }

    fn tier(&self) -> ProviderTier {
        ProviderTier::Primary
    }

    fn sources(&self) -> Vec<Source> {
        let entries = vec![
            entry(
                "https://api.proxynova.com/proxylist",
                http_type_list(),
                15000,
                ScrapeMode::ProxyNovaJson,
            ),
        ];
        assert(entry_texts(entries@) =~~= self.listed());
        sources_of(entries)
    }
}

} // verus!
