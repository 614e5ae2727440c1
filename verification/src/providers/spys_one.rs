//! The spys.one table.

use crate::providers::models::{
    ProviderTier, ScrapeMode, Source, SourceText, EntryText, entry, entry_texts, sources_of, valid_entries,
};
use crate::providers::ProxyProvider;
use vstd::prelude::*;

verus! {

/// The spys.one table.
#[derive(Clone, Copy, Debug)]
pub struct SpysOneProvider;

impl SpysOneProvider {
    /// The addresses that the provider tries.
    pub open spec fn listed(&self) -> Seq<EntryText> {
        seq![
            EntryText {
                url: "https://spys.one/en/free-proxy-list/"@,
                types: Seq::empty(),
                timeout: 20000,
                mode: ScrapeMode::HtmlTable,
            },
        ]
    }
}

impl ProxyProvider for SpysOneProvider {
    open spec fn called(&self) -> Seq<char> {
        "spys.one"@
    }

    open spec fn asked(&self) -> ProviderTier {
        ProviderTier::Primary
    }

    open spec fn offers(&self) -> Seq<SourceText> {
        valid_entries(self.listed())
    }

    fn name(&self) -> &'static str {
        "spys.one"
    }

    fn tier(&self) -> ProviderTier {
        ProviderTier::Primary
    }

    fn sources(&self) -> Vec<Source> {
        let entries = vec![
            entry(
                "https://spys.one/en/free-proxy-list/",
                Vec::new(),
                20000,
                ScrapeMode::HtmlTable,
            ),
        ];
        assert(entry_texts(entries@) =~~= self.listed());
        sources_of(entries)
    }
}

} // verus!
