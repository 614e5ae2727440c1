//! The proxydb.net table, by offset.

use crate::providers::models::{
    ProviderTier, ScrapeMode, Source, SourceText, EntryText, entry, page_entries, paged, sources_of, valid_entries,
};
use crate::providers::ProxyProvider;
use vstd::prelude::*;

verus! {

/// The proxydb.net table, by offset.
#[derive(Clone, Copy, Debug)]
pub struct ProxyDbProvider;

impl ProxyDbProvider {
    /// The addresses that the provider tries.
    pub open spec fn listed(&self) -> Seq<EntryText> {
        page_entries(
            "https://proxydb.net/?offset="@,
            ""@,
            0,
            100,
            3,
            EntryText {
                url: ""@,
                types: Seq::empty(),
                timeout: 15000,
                mode: ScrapeMode::HtmlTable,
            },
        )
    }
}

impl ProxyProvider for ProxyDbProvider {
    open spec fn called(&self) -> Seq<char> {
        "proxydb"@
    }

    open spec fn asked(&self) -> ProviderTier {
        ProviderTier::Primary
    }

    open spec fn offers(&self) -> Seq<SourceText> {
        valid_entries(self.listed())
    }

    fn name(&self) -> &'static str {
        "proxydb"
    }

    fn tier(&self) -> ProviderTier {
        ProviderTier::Primary
    }

    fn sources(&self) -> Vec<Source> {
        let page = entry("", Vec::new(), 15000, ScrapeMode::HtmlTable);
        let entries = paged(
            "https://proxydb.net/?offset=",
            "",
            0,
            100,
            3,
            &page,
        );
        sources_of(entries)
    }
}

} // verus!
