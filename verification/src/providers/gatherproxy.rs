//! The gatherproxy.com page, which inserts its rows by script.

use crate::providers::models::{
    ProviderTier, ScrapeMode, Source, SourceText, EntryText, entry, entry_texts, sources_of, valid_entries,
};
use crate::providers::ProxyProvider;
use vstd::prelude::*;

verus! {

/// The gatherproxy.com page, which inserts its rows by script.
#[derive(Clone, Copy, Debug)]
pub struct GatherProxyProvider;

impl GatherProxyProvider {
    /// The addresses that the provider tries.
    pub open spec fn listed(&self) -> Seq<EntryText> {
        seq![
            EntryText {
                url: "https://www.gatherproxy.com/"@,
                types: Seq::empty(),
                timeout: 10000,
                mode: ScrapeMode::GatherProxyJs,
            },
        ]
    }
}

impl ProxyProvider for GatherProxyProvider {
    open spec fn called(&self) -> Seq<char> {
        "gatherproxy"@
    }

    open spec fn asked(&self) -> ProviderTier {
        ProviderTier::Primary
    }

    open spec fn offers(&self) -> Seq<SourceText> {
        valid_entries(self.listed())
    }

    fn name(&self) -> &'static str {
        "gatherproxy"
    }

    fn tier(&self) -> ProviderTier {
        ProviderTier::Primary
    }

    fn sources(&self) -> Vec<Source> {
        let entries = vec![
            entry(
                "https://www.gatherproxy.com/",
                Vec::new(),
                10000,
                ScrapeMode::GatherProxyJs,
            ),
        ];
        assert(entry_texts(entries@) =~~= self.listed());
        sources_of(entries)
    }
}

} // verus!
