//! The hidemy.name table.

use crate::providers::models::{
    ProviderTier, ScrapeMode, Source, SourceText, EntryText, entry, entry_texts, sources_of, valid_entries,
};
use crate::providers::ProxyProvider;
use vstd::prelude::*;

verus! {

/// The hidemy.name table.
#[derive(Clone, Copy, Debug)]
pub struct HideMyNameProvider;

impl HideMyNameProvider {
    /// The addresses that the provider tries.
    pub open spec fn listed(&self) -> Seq<EntryText> {
        seq![
            EntryText {
                url: "https://hidemy.name/en/proxy-list/"@,
                types: Seq::empty(),
                timeout: 15000,
                mode: ScrapeMode::HtmlTable,
            },
        ]
    }
}

impl ProxyProvider for HideMyNameProvider {
    open spec fn called(&self) -> Seq<char> {
        "hidemy.name"@
    }

    open spec fn asked(&self) -> ProviderTier {
        ProviderTier::Primary
    }

    open spec fn offers(&self) -> Seq<SourceText> {
        valid_entries(self.listed())
    }

    fn name(&self) -> &'static str {
        "hidemy.name"
    }

    fn tier(&self) -> ProviderTier {
        ProviderTier::Primary
    }

    fn sources(&self) -> Vec<Source> {
        let entries = vec![
            entry(
                "https://hidemy.name/en/proxy-list/",
                Vec::new(),
                15000,
                ScrapeMode::HtmlTable,
            ),
        ];
        assert(entry_texts(entries@) =~~= self.listed());
        sources_of(entries)
    }
}

} // verus!
