//! The free-proxy.cz table.

use crate::providers::models::{
    ProviderTier, ScrapeMode, Source, SourceText, EntryText, entry, entry_texts, sources_of, valid_entries,
};
use crate::providers::ProxyProvider;
use vstd::prelude::*;

verus! {

/// The free-proxy.cz table.
#[derive(Clone, Copy, Debug)]
pub struct FreeProxyCzProvider;

impl FreeProxyCzProvider {
    /// The addresses that the provider tries.
    pub open spec fn listed(&self) -> Seq<EntryText> {
        seq![
            EntryText {
                url: "https://free-proxy.cz/en/"@,
                types: Seq::empty(),
                timeout: 20000,
                mode: ScrapeMode::HtmlTable,
            },
        ]
    }
}

impl ProxyProvider for FreeProxyCzProvider {
    open spec fn called(&self) -> Seq<char> {
        "free-proxy.cz"@
    }

    open spec fn asked(&self) -> ProviderTier {
        ProviderTier::Primary
    }

    open spec fn offers(&self) -> Seq<SourceText> {
        valid_entries(self.listed())
    }

    fn name(&self) -> &'static str {
        "free-proxy.cz"
    }

    fn tier(&self) -> ProviderTier {
        ProviderTier::Primary
    }

    fn sources(&self) -> Vec<Source> {
        let entries = vec![
            entry(
                "https://free-proxy.cz/en/",
                Vec::new(),
                20000,
                ScrapeMode::HtmlTable,
            ),
        ];
        assert(entry_texts(entries@) =~~= self.listed());
        sources_of(entries)
    }
}

} // verus!
