//! The freeproxy.world paginated HTML table.

use crate::providers::models::{
    ProviderTier, ScrapeMode, Source, SourceText, EntryText, entry, http_type_list, http_types, page_entries, paged, sources_of, valid_entries,
};
use crate::providers::ProxyProvider;
use vstd::prelude::*;

verus! {

/// The freeproxy.world paginated HTML table.
#[derive(Clone, Copy, Debug)]
pub struct FreeProxyWorldProvider;

impl FreeProxyWorldProvider {
    /// The addresses that the provider tries.
    pub open spec fn listed(&self) -> Seq<EntryText> {
        page_entries(
            "https://freeproxy.world/?type=&anonymity=&country=&speed=&port=&page="@,
            ""@,
            1,
            1,
            15,
            EntryText {
                url: ""@,
                types: http_types(),
                timeout: 15000,
                mode: ScrapeMode::HtmlTable,
            },
        )
    }
}

impl ProxyProvider for FreeProxyWorldProvider {
    open spec fn called(&self) -> Seq<char> {
        "freeproxy-world"@
    }

    open spec fn asked(&self) -> ProviderTier {
        ProviderTier::Primary
    }

    open spec fn offers(&self) -> Seq<SourceText> {
        valid_entries(self.listed())
    }

    fn name(&self) -> &'static str {
        "freeproxy-world"
    }

    fn tier(&self) -> ProviderTier {
        ProviderTier::Primary
    }

    fn sources(&self) -> Vec<Source> {
        let page = entry("", http_type_list(), 15000, ScrapeMode::HtmlTable);
        let entries = paged(
            "https://freeproxy.world/?type=&anonymity=&country=&speed=&port=&page=",
            "",
            1,
            1,
            15,
            &page,
        );
        sources_of(entries)
    }
}

} // verus!
