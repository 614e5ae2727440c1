//! Lists kept in GitHub repositories.

use crate::providers::models::{
    entry_text, entry_texts, lemma_entry_texts_push, list_types, sources_of, types_listed, Entry, ProviderTier, ScrapeMode,
    Source, SourceText, EntryText, valid_entries,
};
use crate::providers::ProxyProvider;
use crate::proxy::models::{Anonymity, Protocol};
use crate::text::{holds, lowered, occurs_at};
use vstd::prelude::*;

verus! {

/// A provider for fetching proxy lists from GitHub repositories. These lists
/// are aggregated mirrors of the other providers, so they run only after every
/// primary source has been exhausted.
#[derive(Clone, Copy, Debug)]
pub struct GithubRepoProvider;

/// The path behind `raw.githubusercontent.com` and the protocol of every
/// known list.
pub open spec fn known_lists() -> Seq<(Seq<char>, Protocol)> {
    seq![
        ("TheSpeedX/PROXY-List/master/http.txt"@, Protocol::Http(Anonymity::Unknown)),
        ("TheSpeedX/PROXY-List/master/socks4.txt"@, Protocol::Socks4),
        ("TheSpeedX/PROXY-List/master/socks5.txt"@, Protocol::Socks5),
        ("monosans/proxy-list/main/proxies/http.txt"@, Protocol::Http(Anonymity::Unknown)),
        ("monosans/proxy-list/main/proxies/socks4.txt"@, Protocol::Socks4),
        ("monosans/proxy-list/main/proxies/socks5.txt"@, Protocol::Socks5),
        ("proxifly/free-proxy-list/main/proxies/protocols/http/data.txt"@, Protocol::Http(Anonymity::Unknown)),
        ("proxifly/free-proxy-list/main/proxies/protocols/socks4/data.txt"@, Protocol::Socks4),
        ("proxifly/free-proxy-list/main/proxies/protocols/socks5/data.txt"@, Protocol::Socks5),
        ("hookzof/socks5_list/master/proxy.txt"@, Protocol::Socks5),
        ("ShiftyTR/Proxy-List/master/http.txt"@, Protocol::Http(Anonymity::Unknown)),
        ("ErcinDedeoglu/proxies/main/proxies/http.txt"@, Protocol::Http(Anonymity::Unknown)),
        ("ErcinDedeoglu/proxies/main/proxies/socks4.txt"@, Protocol::Socks4),
        ("ErcinDedeoglu/proxies/main/proxies/socks5.txt"@, Protocol::Socks5),
        ("iplocate/free-proxy-list/main/protocols/http.txt"@, Protocol::Http(Anonymity::Unknown)),
        ("iplocate/free-proxy-list/main/protocols/https.txt"@, Protocol::Https(Anonymity::Unknown)),
        ("iplocate/free-proxy-list/main/protocols/socks4.txt"@, Protocol::Socks4),
        ("iplocate/free-proxy-list/main/protocols/socks5.txt"@, Protocol::Socks5),
        ("zloi-user/hideip.me/main/http.txt"@, Protocol::Http(Anonymity::Unknown)),
        ("zloi-user/hideip.me/main/socks4.txt"@, Protocol::Socks4),
        ("zloi-user/hideip.me/main/socks5.txt"@, Protocol::Socks5),
        ("roosterkid/openproxylist/main/HTTPS_RAW.txt"@, Protocol::Https(Anonymity::Unknown)),
        ("roosterkid/openproxylist/main/SOCKS4_RAW.txt"@, Protocol::Socks4),
        ("roosterkid/openproxylist/main/SOCKS5_RAW.txt"@, Protocol::Socks5),
        ("sunny9577/proxy-scraper/master/proxies.txt"@, Protocol::Http(Anonymity::Unknown)),
        ("databay-labs/free-proxy-list/master/http.txt"@, Protocol::Http(Anonymity::Unknown)),
        ("databay-labs/free-proxy-list/master/socks4.txt"@, Protocol::Socks4),
        ("databay-labs/free-proxy-list/master/socks5.txt"@, Protocol::Socks5),
        ("VPSLabCloud/VPSLab-Free-Proxy-List/main/http_all.txt"@, Protocol::Http(Anonymity::Unknown)),
        ("VPSLabCloud/VPSLab-Free-Proxy-List/main/socks4_all.txt"@, Protocol::Socks4),
        ("VPSLabCloud/VPSLab-Free-Proxy-List/main/socks5_all.txt"@, Protocol::Socks5),
    ]
}

fn known_list() -> (v: Vec<(&'static str, Protocol)>)
    ensures
        v.len() == known_lists().len(),
        forall|i: int|
            0 <= i < v.len() ==> (#[trigger] v@[i]).0@ == known_lists()[i].0 && v@[i].1
                == known_lists()[i].1,
{
    vec![
        ("TheSpeedX/PROXY-List/master/http.txt", Protocol::Http(Anonymity::Unknown)),
        ("TheSpeedX/PROXY-List/master/socks4.txt", Protocol::Socks4),
        ("TheSpeedX/PROXY-List/master/socks5.txt", Protocol::Socks5),
        ("monosans/proxy-list/main/proxies/http.txt", Protocol::Http(Anonymity::Unknown)),
        ("monosans/proxy-list/main/proxies/socks4.txt", Protocol::Socks4),
        ("monosans/proxy-list/main/proxies/socks5.txt", Protocol::Socks5),
        ("proxifly/free-proxy-list/main/proxies/protocols/http/data.txt", Protocol::Http(Anonymity::Unknown)),
        ("proxifly/free-proxy-list/main/proxies/protocols/socks4/data.txt", Protocol::Socks4),
        ("proxifly/free-proxy-list/main/proxies/protocols/socks5/data.txt", Protocol::Socks5),
        ("hookzof/socks5_list/master/proxy.txt", Protocol::Socks5),
        ("ShiftyTR/Proxy-List/master/http.txt", Protocol::Http(Anonymity::Unknown)),
        ("ErcinDedeoglu/proxies/main/proxies/http.txt", Protocol::Http(Anonymity::Unknown)),
        ("ErcinDedeoglu/proxies/main/proxies/socks4.txt", Protocol::Socks4),
        ("ErcinDedeoglu/proxies/main/proxies/socks5.txt", Protocol::Socks5),
        ("iplocate/free-proxy-list/main/protocols/http.txt", Protocol::Http(Anonymity::Unknown)),
        ("iplocate/free-proxy-list/main/protocols/https.txt", Protocol::Https(Anonymity::Unknown)),
        ("iplocate/free-proxy-list/main/protocols/socks4.txt", Protocol::Socks4),
        ("iplocate/free-proxy-list/main/protocols/socks5.txt", Protocol::Socks5),
        ("zloi-user/hideip.me/main/http.txt", Protocol::Http(Anonymity::Unknown)),
        ("zloi-user/hideip.me/main/socks4.txt", Protocol::Socks4),
        ("zloi-user/hideip.me/main/socks5.txt", Protocol::Socks5),
        ("roosterkid/openproxylist/main/HTTPS_RAW.txt", Protocol::Https(Anonymity::Unknown)),
        ("roosterkid/openproxylist/main/SOCKS4_RAW.txt", Protocol::Socks4),
        ("roosterkid/openproxylist/main/SOCKS5_RAW.txt", Protocol::Socks5),
        ("sunny9577/proxy-scraper/master/proxies.txt", Protocol::Http(Anonymity::Unknown)),
        ("databay-labs/free-proxy-list/master/http.txt", Protocol::Http(Anonymity::Unknown)),
        ("databay-labs/free-proxy-list/master/socks4.txt", Protocol::Socks4),
        ("databay-labs/free-proxy-list/master/socks5.txt", Protocol::Socks5),
        ("VPSLabCloud/VPSLab-Free-Proxy-List/main/http_all.txt", Protocol::Http(Anonymity::Unknown)),
        ("VPSLabCloud/VPSLab-Free-Proxy-List/main/socks4_all.txt", Protocol::Socks4),
        ("VPSLabCloud/VPSLab-Free-Proxy-List/main/socks5_all.txt", Protocol::Socks5),
    ]
}

/// What the source of a known list says.
pub open spec fn known_source(path: Seq<char>, protocol: Protocol) -> EntryText {
    EntryText {
        url: "https://raw.githubusercontent.com/"@ + path,
        types: list_types(protocol),
        timeout: 20000,
        mode: ScrapeMode::Plaintext,
    }
}

impl GithubRepoProvider {
    /// The addresses that the provider tries.
    pub open spec fn listed(&self) -> Seq<EntryText> {
        Seq::new(
            known_lists().len(),
            |i: int| known_source(known_lists()[i].0, known_lists()[i].1),
        )
    }
}

impl ProxyProvider for GithubRepoProvider {
    open spec fn called(&self) -> Seq<char> {
        "github-raw"@
    }

    open spec fn asked(&self) -> ProviderTier {
        ProviderTier::Fallback
    }

    open spec fn offers(&self) -> Seq<SourceText> {
        valid_entries(self.listed())
    }

    fn name(&self) -> &'static str {
        "github-raw"
    }

    fn tier(&self) -> ProviderTier {
        ProviderTier::Fallback
    }

    fn sources(&self) -> Vec<Source> {
        let lists = known_list();
        let ghost want = self.listed();
        let mut entries: Vec<Entry> = Vec::new();
        let mut i: usize = 0;
        while i < lists.len()
            invariant
                i <= lists.len(),
                want == self.listed(),
                lists.len() == known_lists().len(),
                forall|j: int|
                    0 <= j < lists.len() ==> (#[trigger] lists@[j]).0@ == known_lists()[j].0
                        && lists@[j].1 == known_lists()[j].1,
                entry_texts(entries@) == want.take(i as int),
            decreases lists.len() - i,
        {
            let (path, protocol) = lists[i];
            let mut url = "https://raw.githubusercontent.com/".to_owned();
            url.append(path);
            let one = Entry {
                url,
                types: types_listed(protocol),
                timeout: 20000,
                mode: ScrapeMode::Plaintext,
            };
            assert(lists@[i as int].0@ == known_lists()[i as int].0);
            proof {
                assert(entry_text(one) =~= want[i as int]);
                lemma_entry_texts_push(entries@, one);
            }
            entries.push(one);
            i += 1;
            assert(entry_texts(entries@) =~= want.take(i as int));
        }
        assert(want.take(lists.len() as int) =~= want);
        sources_of(entries)
    }
}

proof fn lemma_named_0()
    ensures
        holds(lowered("TheSpeedX/PROXY-List/master/socks4.txt"@), "socks4"@),
        holds(lowered("TheSpeedX/PROXY-List/master/socks5.txt"@), "socks5"@),
        holds(lowered("monosans/proxy-list/main/proxies/socks4.txt"@), "socks4"@),
        holds(lowered("monosans/proxy-list/main/proxies/socks5.txt"@), "socks5"@),
{
    reveal_strlit("socks4");
    reveal_strlit("socks5");
    reveal_strlit("TheSpeedX/PROXY-List/master/socks4.txt");
    reveal_strlit("TheSpeedX/PROXY-List/master/socks5.txt");
    reveal_strlit("monosans/proxy-list/main/proxies/socks4.txt");
    reveal_strlit("monosans/proxy-list/main/proxies/socks5.txt");
    assert(lowered("TheSpeedX/PROXY-List/master/socks4.txt"@).subrange(28, 34) =~= "socks4"@);
    assert(occurs_at(lowered("TheSpeedX/PROXY-List/master/socks4.txt"@), "socks4"@, 28));
    assert(lowered("TheSpeedX/PROXY-List/master/socks5.txt"@).subrange(28, 34) =~= "socks5"@);
    assert(occurs_at(lowered("TheSpeedX/PROXY-List/master/socks5.txt"@), "socks5"@, 28));
    assert(lowered("monosans/proxy-list/main/proxies/socks4.txt"@).subrange(33, 39) =~= "socks4"@);
    assert(occurs_at(lowered("monosans/proxy-list/main/proxies/socks4.txt"@), "socks4"@, 33));
    assert(lowered("monosans/proxy-list/main/proxies/socks5.txt"@).subrange(33, 39) =~= "socks5"@);
    assert(occurs_at(lowered("monosans/proxy-list/main/proxies/socks5.txt"@), "socks5"@, 33));
}

proof fn lemma_named_1()
    ensures
        holds(lowered("proxifly/free-proxy-list/main/proxies/protocols/socks4/data.txt"@), "socks4"@),
        holds(lowered("proxifly/free-proxy-list/main/proxies/protocols/socks5/data.txt"@), "socks5"@),
        holds(lowered("hookzof/socks5_list/master/proxy.txt"@), "socks5"@),
        holds(lowered("ErcinDedeoglu/proxies/main/proxies/socks4.txt"@), "socks4"@),
{
    reveal_strlit("socks4");
    reveal_strlit("socks5");
    reveal_strlit("proxifly/free-proxy-list/main/proxies/protocols/socks4/data.txt");
    reveal_strlit("proxifly/free-proxy-list/main/proxies/protocols/socks5/data.txt");
    reveal_strlit("hookzof/socks5_list/master/proxy.txt");
    reveal_strlit("ErcinDedeoglu/proxies/main/proxies/socks4.txt");
    assert(lowered("proxifly/free-proxy-list/main/proxies/protocols/socks4/data.txt"@).subrange(48, 54) =~= "socks4"@);
    assert(occurs_at(lowered("proxifly/free-proxy-list/main/proxies/protocols/socks4/data.txt"@), "socks4"@, 48));
    assert(lowered("proxifly/free-proxy-list/main/proxies/protocols/socks5/data.txt"@).subrange(48, 54) =~= "socks5"@);
    assert(occurs_at(lowered("proxifly/free-proxy-list/main/proxies/protocols/socks5/data.txt"@), "socks5"@, 48));
    assert(lowered("hookzof/socks5_list/master/proxy.txt"@).subrange(8, 14) =~= "socks5"@);
    assert(occurs_at(lowered("hookzof/socks5_list/master/proxy.txt"@), "socks5"@, 8));
    assert(lowered("ErcinDedeoglu/proxies/main/proxies/socks4.txt"@).subrange(35, 41) =~= "socks4"@);
    assert(occurs_at(lowered("ErcinDedeoglu/proxies/main/proxies/socks4.txt"@), "socks4"@, 35));
}

proof fn lemma_named_2()
    ensures
        holds(lowered("ErcinDedeoglu/proxies/main/proxies/socks5.txt"@), "socks5"@),
        holds(lowered("iplocate/free-proxy-list/main/protocols/https.txt"@), "https"@),
        holds(lowered("iplocate/free-proxy-list/main/protocols/socks4.txt"@), "socks4"@),
        holds(lowered("iplocate/free-proxy-list/main/protocols/socks5.txt"@), "socks5"@),
{
    reveal_strlit("https");
    reveal_strlit("socks4");
    reveal_strlit("socks5");
    reveal_strlit("ErcinDedeoglu/proxies/main/proxies/socks5.txt");
    reveal_strlit("iplocate/free-proxy-list/main/protocols/https.txt");
    reveal_strlit("iplocate/free-proxy-list/main/protocols/socks4.txt");
    reveal_strlit("iplocate/free-proxy-list/main/protocols/socks5.txt");
    assert(lowered("ErcinDedeoglu/proxies/main/proxies/socks5.txt"@).subrange(35, 41) =~= "socks5"@);
    assert(occurs_at(lowered("ErcinDedeoglu/proxies/main/proxies/socks5.txt"@), "socks5"@, 35));
    assert(lowered("iplocate/free-proxy-list/main/protocols/https.txt"@).subrange(40, 45) =~= "https"@);
    assert(occurs_at(lowered("iplocate/free-proxy-list/main/protocols/https.txt"@), "https"@, 40));
    assert(lowered("iplocate/free-proxy-list/main/protocols/socks4.txt"@).subrange(40, 46) =~= "socks4"@);
    assert(occurs_at(lowered("iplocate/free-proxy-list/main/protocols/socks4.txt"@), "socks4"@, 40));
    assert(lowered("iplocate/free-proxy-list/main/protocols/socks5.txt"@).subrange(40, 46) =~= "socks5"@);
    assert(occurs_at(lowered("iplocate/free-proxy-list/main/protocols/socks5.txt"@), "socks5"@, 40));
}

proof fn lemma_named_3()
    ensures
        holds(lowered("zloi-user/hideip.me/main/socks4.txt"@), "socks4"@),
        holds(lowered("zloi-user/hideip.me/main/socks5.txt"@), "socks5"@),
        holds(lowered("roosterkid/openproxylist/main/HTTPS_RAW.txt"@), "https"@),
        holds(lowered("roosterkid/openproxylist/main/SOCKS4_RAW.txt"@), "socks4"@),
{
    reveal_strlit("https");
    reveal_strlit("socks4");
    reveal_strlit("socks5");
    reveal_strlit("zloi-user/hideip.me/main/socks4.txt");
    reveal_strlit("zloi-user/hideip.me/main/socks5.txt");
    reveal_strlit("roosterkid/openproxylist/main/HTTPS_RAW.txt");
    reveal_strlit("roosterkid/openproxylist/main/SOCKS4_RAW.txt");
    assert(lowered("zloi-user/hideip.me/main/socks4.txt"@).subrange(25, 31) =~= "socks4"@);
    assert(occurs_at(lowered("zloi-user/hideip.me/main/socks4.txt"@), "socks4"@, 25));
    assert(lowered("zloi-user/hideip.me/main/socks5.txt"@).subrange(25, 31) =~= "socks5"@);
    assert(occurs_at(lowered("zloi-user/hideip.me/main/socks5.txt"@), "socks5"@, 25));
    assert(lowered("roosterkid/openproxylist/main/HTTPS_RAW.txt"@).subrange(30, 35) =~= "https"@);
    assert(occurs_at(lowered("roosterkid/openproxylist/main/HTTPS_RAW.txt"@), "https"@, 30));
    assert(lowered("roosterkid/openproxylist/main/SOCKS4_RAW.txt"@).subrange(30, 36) =~= "socks4"@);
    assert(occurs_at(lowered("roosterkid/openproxylist/main/SOCKS4_RAW.txt"@), "socks4"@, 30));
}

proof fn lemma_named_4()
    ensures
        holds(lowered("roosterkid/openproxylist/main/SOCKS5_RAW.txt"@), "socks5"@),
        holds(lowered("databay-labs/free-proxy-list/master/socks4.txt"@), "socks4"@),
        holds(lowered("databay-labs/free-proxy-list/master/socks5.txt"@), "socks5"@),
        holds(lowered("VPSLabCloud/VPSLab-Free-Proxy-List/main/socks4_all.txt"@), "socks4"@),
{
    reveal_strlit("socks4");
    reveal_strlit("socks5");
    reveal_strlit("roosterkid/openproxylist/main/SOCKS5_RAW.txt");
    reveal_strlit("databay-labs/free-proxy-list/master/socks4.txt");
    reveal_strlit("databay-labs/free-proxy-list/master/socks5.txt");
    reveal_strlit("VPSLabCloud/VPSLab-Free-Proxy-List/main/socks4_all.txt");
    assert(lowered("roosterkid/openproxylist/main/SOCKS5_RAW.txt"@).subrange(30, 36) =~= "socks5"@);
    assert(occurs_at(lowered("roosterkid/openproxylist/main/SOCKS5_RAW.txt"@), "socks5"@, 30));
    assert(lowered("databay-labs/free-proxy-list/master/socks4.txt"@).subrange(36, 42) =~= "socks4"@);
    assert(occurs_at(lowered("databay-labs/free-proxy-list/master/socks4.txt"@), "socks4"@, 36));
    assert(lowered("databay-labs/free-proxy-list/master/socks5.txt"@).subrange(36, 42) =~= "socks5"@);
    assert(occurs_at(lowered("databay-labs/free-proxy-list/master/socks5.txt"@), "socks5"@, 36));
    assert(lowered("VPSLabCloud/VPSLab-Free-Proxy-List/main/socks4_all.txt"@).subrange(40, 46) =~= "socks4"@);
    assert(occurs_at(lowered("VPSLabCloud/VPSLab-Free-Proxy-List/main/socks4_all.txt"@), "socks4"@, 40));
}

proof fn lemma_named_5()
    ensures
        holds(lowered("VPSLabCloud/VPSLab-Free-Proxy-List/main/socks5_all.txt"@), "socks5"@),
{
    reveal_strlit("socks5");
    reveal_strlit("VPSLabCloud/VPSLab-Free-Proxy-List/main/socks5_all.txt");
    assert(lowered("VPSLabCloud/VPSLab-Free-Proxy-List/main/socks5_all.txt"@).subrange(40, 46) =~= "socks5"@);
    assert(occurs_at(lowered("VPSLabCloud/VPSLab-Free-Proxy-List/main/socks5_all.txt"@), "socks5"@, 40));
}

/// A list of SOCKS or HTTPS proxies says so in its path.
pub proof fn paths_name_their_protocol(i: int)
    requires
        0 <= i < known_lists().len(),
    ensures
        ({
            let (path, protocol) = known_lists()[i];
            &&& protocol is Socks4 ==> holds(lowered(path), "socks4"@)
            &&& protocol is Socks5 ==> holds(lowered(path), "socks5"@)
            &&& protocol is Https ==> holds(lowered(path), "https"@)
            &&& !(protocol is Connect)
        }),
{
    lemma_named_0();
    lemma_named_1();
    lemma_named_2();
    lemma_named_3();
    lemma_named_4();
    lemma_named_5();
}

/// There are thirty-one lists; each is fetched from the raw files of its
/// repository, with twenty seconds to answer, as plain text, and stands for its
/// protocol: for both kinds of HTTP and for tunnels where it is one of them.
pub proof fn lists_are_raw_files(path: Seq<char>, a: Anonymity)
    ensures
        known_lists().len() == 31,
        known_source(path, Protocol::Socks4).url == "https://raw.githubusercontent.com/"@ + path,
        known_source(path, Protocol::Socks4).timeout == 20_000,
        known_source(path, Protocol::Socks4).mode is Plaintext,
        known_source(path, Protocol::Socks4).types == seq![Protocol::Socks4],
        known_source(path, Protocol::Socks5).types == seq![Protocol::Socks5],
        known_source(path, Protocol::Http(a)).types == known_source(path, Protocol::Https(a)).types,
        known_source(path, Protocol::Http(a)).types == seq![
            Protocol::Http(Anonymity::Unknown),
            Protocol::Https(Anonymity::Unknown),
            Protocol::Connect(80),
            Protocol::Connect(25),
            Protocol::Connect(443),
        ],
{
}

} // verus!
