//! The proxies24.top table.

use crate::providers::models::{
    ProviderTier, ScrapeMode, Source, SourceText, EntryText, entry, entry_texts, sources_of, valid_entries,
};
use crate::providers::ProxyProvider;
use vstd::prelude::*;

verus! {

/// The proxies24.top table.
#[derive(Clone, Copy, Debug)]
pub struct Proxies24Provider;

impl Proxies24Provider {
    /// The addresses that the provider tries.
    pub open spec fn listed(&self) -> Seq<EntryText> {
        seq![
            EntryText {
                url: "http://www.proxies24.top/"@,
                types: Seq::empty(),
                timeout: 15000,
                mode: ScrapeMode::HtmlTable,
            },
        ]
    }
}

impl ProxyProvider for Proxies24Provider {
    open spec fn called(&self) -> Seq<char> {
        "proxies24"@
    }

    open spec fn asked(&self) -> ProviderTier {
        ProviderTier::Primary
    }

    open spec fn offers(&self) -> Seq<SourceText> {
        valid_entries(self.listed())
    }

    fn name(&self) -> &'static str {
        "proxies24"
    }

    fn tier(&self) -> ProviderTier {
        ProviderTier::Primary
    }

    fn sources(&self) -> Vec<Source> {
        let entries = vec![
            entry(
                "http://www.proxies24.top/",
                Vec::new(),
                15000,
                ScrapeMode::HtmlTable,
            ),
        ];
        assert(entry_texts(entries@) =~~= self.listed());
        sources_of(entries)
    }
}

} // verus!
