//! The proxy-list.org pages, whose rows are encoded.

use crate::providers::models::{
    ProviderTier, ScrapeMode, Source, SourceText, EntryText, entry, http_type_list, http_types, page_entries, paged, sources_of, valid_entries,
};
use crate::providers::ProxyProvider;
use vstd::prelude::*;

verus! {

/// The proxy-list.org pages, whose rows are encoded.
#[derive(Clone, Copy, Debug)]
pub struct ProxyListOrgProvider;

impl ProxyListOrgProvider {
    /// The addresses that the provider tries.
    pub open spec fn listed(&self) -> Seq<EntryText> {
        page_entries(
            "https://proxy-list.org/english/index.php?p="@,
            ""@,
            1,
            1,
            10,
            EntryText {
                url: ""@,
                types: http_types(),
                timeout: 15000,
                mode: ScrapeMode::Base64Rows,
            },
        )
    }
}

impl ProxyProvider for ProxyListOrgProvider {
    open spec fn called(&self) -> Seq<char> {
        "proxylist-org"@
    }

    open spec fn asked(&self) -> ProviderTier {
        ProviderTier::Primary
    }

    open spec fn offers(&self) -> Seq<SourceText> {
        valid_entries(self.listed())
    }

    fn name(&self) -> &'static str {
        "proxylist-org"
    }

    fn tier(&self) -> ProviderTier {
        ProviderTier::Primary
    }

    fn sources(&self) -> Vec<Source> {
        let page = entry("", http_type_list(), 15000, ScrapeMode::Base64Rows);
        let entries = paged(
            "https://proxy-list.org/english/index.php?p=",
            "",
            1,
            1,
            10,
            &page,
        );
        sources_of(entries)
    }
}

} // verus!
