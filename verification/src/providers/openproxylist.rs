//! The openproxylist.xyz plain lists.

use crate::providers::models::{
    ProviderTier, ScrapeMode, Source, SourceText, EntryText, entry, entry_texts, http_type_list, http_types, only, sources_of, valid_entries,
};
use crate::providers::ProxyProvider;
use crate::proxy::models::Protocol;
use vstd::prelude::*;

verus! {

/// The openproxylist.xyz plain lists.
#[derive(Clone, Copy, Debug)]
pub struct OpenProxyListProvider;

impl OpenProxyListProvider {
    /// The addresses that the provider tries.
    pub open spec fn listed(&self) -> Seq<EntryText> {
        seq![
            EntryText {
                url: "https://api.openproxylist.xyz/http.txt"@,
                types: http_types(),
                timeout: 15000,
                mode: ScrapeMode::Plaintext,
            },
            EntryText {
                url: "https://api.openproxylist.xyz/socks4.txt"@,
                types: seq![Protocol::Socks4],
                timeout: 15000,
                mode: ScrapeMode::Plaintext,
            },
            EntryText {
                url: "https://api.openproxylist.xyz/socks5.txt"@,
                types: seq![Protocol::Socks5],
                timeout: 15000,
                mode: ScrapeMode::Plaintext,
            },
        ]
    }
}

impl ProxyProvider for OpenProxyListProvider {
    open spec fn called(&self) -> Seq<char> {
        "openproxylist"@
    }

    open spec fn asked(&self) -> ProviderTier {
        ProviderTier::Primary
    }

    open spec fn offers(&self) -> Seq<SourceText> {
        valid_entries(self.listed())
    }

    fn name(&self) -> &'static str {
        "openproxylist"
    }

    fn tier(&self) -> ProviderTier {
        ProviderTier::Primary
    }

    fn sources(&self) -> Vec<Source> {
        let entries = vec![
            entry(
                "https://api.openproxylist.xyz/http.txt",
                http_type_list(),
                15000,
                ScrapeMode::Plaintext,
            ),
            entry(
                "https://api.openproxylist.xyz/socks4.txt",
                only(Protocol::Socks4),
                15000,
                ScrapeMode::Plaintext,
            ),
            entry(
                "https://api.openproxylist.xyz/socks5.txt",
                only(Protocol::Socks5),
                15000,
                ScrapeMode::Plaintext,
            ),
        ];
        assert(entry_texts(entries@) =~~= self.listed());
        sources_of(entries)
    }
}

} // verus!
