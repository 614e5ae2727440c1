//! The geonode API, five hundred rows to a page.

use crate::providers::models::{
    ProviderTier, ScrapeMode, Source, SourceText, EntryText, entry, page_entries, paged, sources_of, valid_entries,
};
use crate::providers::ProxyProvider;
use vstd::prelude::*;

verus! {

/// The geonode API, five hundred rows to a page.
#[derive(Clone, Copy, Debug)]
pub struct GeonodeProvider;

impl GeonodeProvider {
    /// The addresses that the provider tries.
    pub open spec fn listed(&self) -> Seq<EntryText> {
        page_entries(
            "https://proxylist.geonode.com/api/proxy-list?limit=500&page="@,
            "&sort_by=lastChecked&sort_type=desc"@,
            1,
            1,
            3,
            EntryText {
                url: ""@,
                types: Seq::empty(),
                timeout: 8000,
                mode: ScrapeMode::GeonodeJson,
            },
        )
    }
}

impl ProxyProvider for GeonodeProvider {
    open spec fn called(&self) -> Seq<char> {
        "geonode"@
    }

    open spec fn asked(&self) -> ProviderTier {
        ProviderTier::Primary
    }

    open spec fn offers(&self) -> Seq<SourceText> {
        valid_entries(self.listed())
    }

    fn name(&self) -> &'static str {
        "geonode"
    }

    fn tier(&self) -> ProviderTier {
        ProviderTier::Primary
    }

    fn sources(&self) -> Vec<Source> {
        let page = entry("", Vec::new(), 8000, ScrapeMode::GeonodeJson);
        let entries = paged(
            "https://proxylist.geonode.com/api/proxy-list?limit=500&page=",
            "&sort_by=lastChecked&sort_type=desc",
            1,
            1,
            3,
            &page,
        );
        sources_of(entries)
    }
}

} // verus!
