//! The proxyscrape.com API.

use crate::providers::models::{
    ProviderTier, ScrapeMode, Source, SourceText, EntryText, entry, entry_texts, http_type_list, http_types, only, sources_of, valid_entries,
};
use crate::providers::ProxyProvider;
use crate::proxy::models::Protocol;
use vstd::prelude::*;

verus! {

/// The proxyscrape.com API.
#[derive(Clone, Copy, Debug)]
pub struct ProxyscrapeProvider;

impl ProxyscrapeProvider {
    /// The addresses that the provider tries.
    pub open spec fn listed(&self) -> Seq<EntryText> {
        seq![
            EntryText {
                url: "https://api.proxyscrape.com/v2/?request=displayproxies&protocol=http&timeout=10000&country=all&ssl=all&anonymity=all"@,
                types: http_types(),
                timeout: 20000,
                mode: ScrapeMode::Plaintext,
            },
            EntryText {
                url: "https://api.proxyscrape.com/v2/?request=displayproxies&protocol=socks4&timeout=10000&country=all"@,
                types: seq![Protocol::Socks4],
                timeout: 20000,
                mode: ScrapeMode::Plaintext,
            },
            EntryText {
                url: "https://api.proxyscrape.com/v2/?request=displayproxies&protocol=socks5&timeout=10000&country=all"@,
                types: seq![Protocol::Socks5],
                timeout: 20000,
                mode: ScrapeMode::Plaintext,
            },
        ]
    }
}

impl ProxyProvider for ProxyscrapeProvider {
    open spec fn called(&self) -> Seq<char> {
        "proxyscrape"@
    }

    open spec fn asked(&self) -> ProviderTier {
        ProviderTier::Primary
    }

    open spec fn offers(&self) -> Seq<SourceText> {
        valid_entries(self.listed())
    }

    fn name(&self) -> &'static str {
        "proxyscrape"
    }

    fn tier(&self) -> ProviderTier {
        ProviderTier::Primary
    }

    fn sources(&self) -> Vec<Source> {
        let entries = vec![
            entry(
                "https://api.proxyscrape.com/v2/?request=displayproxies&protocol=http&timeout=10000&country=all&ssl=all&anonymity=all",
                http_type_list(),
                20000,
                ScrapeMode::Plaintext,
            ),
            entry(
                "https://api.proxyscrape.com/v2/?request=displayproxies&protocol=socks4&timeout=10000&country=all",
                only(Protocol::Socks4),
                20000,
                ScrapeMode::Plaintext,
            ),
            entry(
                "https://api.proxyscrape.com/v2/?request=displayproxies&protocol=socks5&timeout=10000&country=all",
                only(Protocol::Socks5),
                20000,
                ScrapeMode::Plaintext,
            ),
        ];
        assert(entry_texts(entries@) =~~= self.listed());
        sources_of(entries)
    }
}

} // verus!
