//! Telling residential addresses from hosted and mobile ones.

use crate::text::{chars_of, contains, holds, lowered, string_of, to_lower};
use vstd::prelude::*;

verus! {

/// IP address class distinguishing residential from hosted networks.
#[derive(Clone, Copy, Debug, PartialEq, Eq, Hash, Structural)]
pub enum IpType {
    Residential,
    Datacenter,
    Mobile,
    Unknown,
}

impl Default for IpType {
    fn default() -> (r: Self)
        ensures
            r == IpType::Unknown,
    {
        IpType::Unknown
    }
}

/// Well-known cloud and hosting ASNs, in ascending order.
pub open spec fn hosting_asns() -> Seq<u32> {
    seq![
        174u32, 2906u32, 8075u32, 8560u32, 12222u32, 12876u32, 13335u32, 13415u32, 14061u32,
        14618u32, 15169u32, 16265u32, 16276u32, 16509u32, 16625u32, 19318u32, 19551u32,
        20454u32, 20473u32, 20940u32, 21859u32, 24940u32, 26496u32, 29802u32, 31898u32,
        33070u32, 35540u32, 36351u32, 40676u32, 42708u32, 46664u32, 47583u32, 49981u32,
        51167u32, 54113u32, 54290u32, 61157u32, 63949u32, 197540u32, 199524u32, 213230u32,
        396982u32,
    ]
}

/// Words in an organization's name that mark a hosting provider.
pub open spec fn hosting_keywords() -> Seq<Seq<char>> {
    seq![
        "amazon"@, "aws"@, "azure"@, "microsoft"@, "google"@, "oracle"@, "digitalocean"@,
        "hetzner"@, "ovh"@, "linode"@, "akamai"@, "cloudflare"@, "fastly"@, "vultr"@,
        "choopa"@, "leaseweb"@, "contabo"@, "ionos"@, "hostinger"@, "hostgator"@, "bluehost"@,
        "dreamhost"@, "scaleway"@, "rackspace"@, "softlayer"@, "equinix"@, "cogent"@,
        "zenlayer"@, "gcore"@, "psychz"@, "interserver"@, "hivelocity"@, "kamatera"@,
        "phoenixnap"@, "netcup"@, "incapsula"@, "hosting"@, "colo"@, "datacenter"@,
        "data center"@, "dedicated server"@, "vps"@, "cloud"@,
    ]
}

/// Words in an organization's name that mark a mobile carrier.
pub open spec fn mobile_keywords() -> Seq<Seq<char>> {
    seq![
        "mobile"@, "wireless"@, "cellular"@, "gsm"@, "lte"@, "telekom"@, "vodafone"@,
        "t-mobile"@, "verizon"@, "at&t mobility"@, "movistar"@, "claro"@, "oranj"@,
        "etisalat"@, "airtel"@, "mtn"@, "singtel"@, "indosat"@, "telkomsel"@, "smartfren"@,
        "xl axiata"@, "optus"@, "telstra"@, "docomo"@, "softbank"@, "sk telecom"@,
    ]
}

/// Whether a name holds one of the words, up to ASCII case.
pub open spec fn names_any(name: Seq<char>, keywords: Seq<Seq<char>>) -> bool {
    exists|i: int| 0 <= i < keywords.len() && holds(lowered(name), lowered(#[trigger] keywords[i]))
}

/// The views of a list of words.
pub open spec fn words_of(v: Seq<&str>) -> Seq<Seq<char>> {
    Seq::new(v.len(), |i: int| v[i]@)
}

fn hosting_asn_list() -> (v: Vec<u32>)
    ensures
        v@ == hosting_asns(),
{
    let v: Vec<u32> = vec![
        174, 2906, 8075, 8560, 12222, 12876, 13335, 13415, 14061, 14618, 15169, 16265, 16276,
        16509, 16625, 19318, 19551, 20454, 20473, 20940, 21859, 24940, 26496, 29802, 31898,
        33070, 35540, 36351, 40676, 42708, 46664, 47583, 49981, 51167, 54113, 54290, 61157,
        63949, 197540, 199524, 213230, 396982,
    ];
    assert(v@ =~= hosting_asns());
    v
}

fn hosting_keyword_list() -> (v: Vec<&'static str>)
    ensures
        words_of(v@) == hosting_keywords(),
{
    let v: Vec<&'static str> = vec![
        "amazon", "aws", "azure", "microsoft", "google", "oracle", "digitalocean", "hetzner",
        "ovh", "linode", "akamai", "cloudflare", "fastly", "vultr", "choopa", "leaseweb",
        "contabo", "ionos", "hostinger", "hostgator", "bluehost", "dreamhost", "scaleway",
        "rackspace", "softlayer", "equinix", "cogent", "zenlayer", "gcore", "psychz",
        "interserver", "hivelocity", "kamatera", "phoenixnap", "netcup", "incapsula",
        "hosting", "colo", "datacenter", "data center", "dedicated server", "vps", "cloud",
    ];
    assert(words_of(v@) =~= hosting_keywords());
    v
}

fn mobile_keyword_list() -> (v: Vec<&'static str>)
    ensures
        words_of(v@) == mobile_keywords(),
{
    let v: Vec<&'static str> = vec![
        "mobile", "wireless", "cellular", "gsm", "lte", "telekom", "vodafone", "t-mobile",
        "verizon", "at&t mobility", "movistar", "claro", "oranj", "etisalat", "airtel", "mtn",
        "singtel", "indosat", "telkomsel", "smartfren", "xl axiata", "optus", "telstra",
        "docomo", "softbank", "sk telecom",
    ];
    assert(words_of(v@) =~= mobile_keywords());
    v
}

/// Whether a name holds one of the keywords, up to ASCII case.
pub fn has_keyword(name: &str, keywords: &[&str]) -> (r: bool)
    ensures
        r == names_any(name@, words_of(keywords@)),
{
    let low = to_lower(chars_of(name).as_slice());
    let mut i: usize = 0;
    while i < keywords.len()
        invariant
            i <= keywords.len(),
            low@ == lowered(name@),
            forall|j: int|
                0 <= j < i ==> !holds(lowered(name@), lowered(#[trigger] words_of(keywords@)[j])),
        decreases keywords.len() - i,
    {
        let word = string_of(to_lower(chars_of(keywords[i]).as_slice()).as_slice());
        assert(words_of(keywords@)[i as int] == keywords@[i as int]@);
        if contains(low.as_slice(), word.as_str()) {
            return true;
        }
        i += 1;
    }
    false
}

/// Whether a name holds a hosting keyword.
pub fn has_hosting_keyword(name: &str) -> (r: bool)
    ensures
        r == names_any(name@, hosting_keywords()),
{
    has_keyword(name, hosting_keyword_list().as_slice())
}

/// Whether a name holds a mobile keyword.
pub fn has_mobile_keyword(name: &str) -> (r: bool)
    ensures
        r == names_any(name@, mobile_keywords()),
{
    has_keyword(name, mobile_keyword_list().as_slice())
}

fn is_hosting_asn(asn: u32) -> (r: bool)
    ensures
        r == hosting_asns().contains(asn),
{
    let list = hosting_asn_list();
    let mut i: usize = 0;
    while i < list.len()
        invariant
            i <= list.len(),
            forall|j: int| 0 <= j < i ==> list@[j] != asn,
            list@ == hosting_asns(),
        decreases list.len() - i,
    {
        if list[i] == asn {
            assert(hosting_asns()[i as int] == asn);
            return true;
        }
        i += 1;
    }
    false
}

/// The first of three names that is there.
pub open spec fn first_name(
    aso: Option<&str>,
    isp: Option<&str>,
    organization: Option<&str>,
) -> Option<Seq<char>> {
    match (aso, isp, organization) {
        (Some(n), _, _) => Some(n@),
        (None, Some(n), _) => Some(n@),
        (None, None, Some(n)) => Some(n@),
        (None, None, None) => None,
    }
}

/// How an address is classed: a mobile carrier's name decides first, then a
/// hosting ASN or name; any other known owner is residential.
pub open spec fn class_of(asn: Option<u32>, org: Option<Seq<char>>) -> IpType {
    if org is Some && names_any(org->0, mobile_keywords()) {
        IpType::Mobile
    } else if (asn is Some && hosting_asns().contains(asn->0)) || (org is Some && names_any(
        org->0,
        hosting_keywords(),
    )) {
        IpType::Datacenter
    } else if asn is Some || org is Some {
        IpType::Residential
    } else {
        IpType::Unknown
    }
}

impl IpType {
    /// Classifies a proxy IP from its ASN and carrier metadata.
    pub fn classify(
        asn: Option<u32>,
        aso: Option<&str>,
        isp: Option<&str>,
        organization: Option<&str>,
    ) -> (r: Self)
        ensures
            r == class_of(asn, first_name(aso, isp, organization)),
    {
        let org: Option<&str> = match aso {
            Some(n) => Some(n),
            None => match isp {
                Some(n) => Some(n),
                None => organization,
            },
        };
        if let Some(name) = org {
            if has_mobile_keyword(name) {
                return IpType::Mobile;
            }
        }
        if let Some(number) = asn {
            if is_hosting_asn(number) {
                return IpType::Datacenter;
            }
        }
        if let Some(name) = org {
            if has_hosting_keyword(name) {
                return IpType::Datacenter;
            }
        }
        if asn.is_some() || org.is_some() {
            return IpType::Residential;
        }
        IpType::Unknown
    }

    /// The class in lower case, as output formats write it.
    pub fn as_str(self) -> (s: &'static str)
        ensures
            s@ == ip_type_text(self),
    {
        match self {
            IpType::Residential => "residential",
            IpType::Datacenter => "datacenter",
            IpType::Mobile => "mobile",
            IpType::Unknown => "unknown",
        }
    }
}

/// The class in lower case.
pub open spec fn ip_type_text(t: IpType) -> Seq<char> {
    match t {
        IpType::Residential => "residential"@,
        IpType::Datacenter => "datacenter"@,
        IpType::Mobile => "mobile"@,
        IpType::Unknown => "unknown"@,
    }
}

/// A mobile carrier's name decides before everything else; then a hosting
/// network's number or name; any other owner is residential, and nothing is
/// known without one.
pub proof fn classes_go_by_their_owner(asn: Option<u32>, org: Option<Seq<char>>)
    ensures
        class_of(asn, org) == IpType::Mobile <==> org is Some && names_any(
            org->0,
            mobile_keywords(),
        ),
        org is Some && names_any(org->0, hosting_keywords()) && !names_any(
            org->0,
            mobile_keywords(),
        ) ==> class_of(asn, org) == IpType::Datacenter,
        asn is Some && hosting_asns().contains(asn->0) && (org is None || !names_any(
            org->0,
            mobile_keywords(),
        )) ==> class_of(asn, org) == IpType::Datacenter,
        class_of(asn, org) == IpType::Datacenter ==> (asn is Some && hosting_asns().contains(
            asn->0,
        )) || (org is Some && names_any(org->0, hosting_keywords())),
        class_of(asn, org) == IpType::Unknown <==> asn is None && org is None,
{
}

/// A name is recognised by a word that it holds anywhere, in any case.
pub proof fn names_are_recognised(
    before: Seq<char>,
    word: Seq<char>,
    after: Seq<char>,
    keywords: Seq<Seq<char>>,
    i: int,
)
    requires
        0 <= i < keywords.len(),
        lowered(word) == lowered(keywords[i]),
    ensures
        names_any(before + word + after, keywords),
        names_any(before, keywords) <==> names_any(lowered(before), keywords),
        !names_any(before, Seq::empty()),
{
    let s = before + word + after;
    let n = before.len() as int;
    assert(lowered(s).subrange(n, n + word.len()) =~= lowered(keywords[i]));
    assert(crate::text::occurs_at(lowered(s), lowered(keywords[i]), n));
    assert(holds(lowered(s), lowered(keywords[i])));
    assert(lowered(lowered(before)) =~= lowered(before));
}

/// The large clouds and hosts are among the hosting networks.
pub proof fn clouds_are_hosting()
    ensures
        hosting_asns().len() == 42,
        hosting_asns().contains(16509) && hosting_asns().contains(14618),
        hosting_asns().contains(15169) && hosting_asns().contains(396982),
        hosting_asns().contains(8075),
        hosting_asns().contains(13335),
        hosting_asns().contains(14061),
        hosting_asns().contains(16276),
        hosting_asns().contains(20473),
        hosting_asns().contains(20940),
        hosting_asns().contains(24940),
        hosting_asns().contains(31898),
        hosting_asns().contains(63949),
        forall|i: int, j: int|
            0 <= i < j < hosting_asns().len() ==> #[trigger] hosting_asns()[i]
                < #[trigger] hosting_asns()[j],
        hosting_keywords().len() == 43,
        mobile_keywords().len() == 26,
{
    let v = hosting_asns();
    assert(v[13] == 16509 && v[9] == 14618 && v[10] == 15169 && v[41] == 396982 && v[2] == 8075);
    assert(v[6] == 13335 && v[8] == 14061 && v[12] == 16276 && v[18] == 20473 && v[19] == 20940);
    assert(v[21] == 24940 && v[24] == 31898 && v[37] == 63949);
}

/// The owner's name is the network's; else the provider's; else the
/// organization's.
pub proof fn the_first_name_counts(a: &str, b: &str, c: &str)
    ensures
        forall|x: Option<&str>, y: Option<&str>| #[trigger] first_name(Some(a), x, y) == Some(a@),
        forall|y: Option<&str>| #[trigger] first_name(None, Some(b), y) == Some(b@),
        first_name(None, None, Some(c)) == Some(c@),
        first_name(None, None, None) is None,
{
}

/// The words that mark a mobile carrier, wherever they stand in a name.
pub proof fn carriers_are_recognised(before: Seq<char>, after: Seq<char>)
    ensures
        names_any(before + "mobile"@ + after, mobile_keywords()),
        names_any(before + "wireless"@ + after, mobile_keywords()),
        names_any(before + "cellular"@ + after, mobile_keywords()),
        names_any(before + "gsm"@ + after, mobile_keywords()),
        names_any(before + "lte"@ + after, mobile_keywords()),
        names_any(before + "telekom"@ + after, mobile_keywords()),
        names_any(before + "vodafone"@ + after, mobile_keywords()),
        names_any(before + "t-mobile"@ + after, mobile_keywords()),
        names_any(before + "verizon"@ + after, mobile_keywords()),
        names_any(before + "at&t mobility"@ + after, mobile_keywords()),
        names_any(before + "movistar"@ + after, mobile_keywords()),
        names_any(before + "claro"@ + after, mobile_keywords()),
        names_any(before + "oranj"@ + after, mobile_keywords()),
        names_any(before + "etisalat"@ + after, mobile_keywords()),
        names_any(before + "airtel"@ + after, mobile_keywords()),
        names_any(before + "mtn"@ + after, mobile_keywords()),
        names_any(before + "singtel"@ + after, mobile_keywords()),
        names_any(before + "indosat"@ + after, mobile_keywords()),
        names_any(before + "telkomsel"@ + after, mobile_keywords()),
        names_any(before + "smartfren"@ + after, mobile_keywords()),
        names_any(before + "xl axiata"@ + after, mobile_keywords()),
        names_any(before + "optus"@ + after, mobile_keywords()),
        names_any(before + "telstra"@ + after, mobile_keywords()),
        names_any(before + "docomo"@ + after, mobile_keywords()),
        names_any(before + "softbank"@ + after, mobile_keywords()),
        names_any(before + "sk telecom"@ + after, mobile_keywords()),
{
    names_are_recognised(before, "mobile"@, after, mobile_keywords(), 0);
    names_are_recognised(before, "wireless"@, after, mobile_keywords(), 1);
    names_are_recognised(before, "cellular"@, after, mobile_keywords(), 2);
    names_are_recognised(before, "gsm"@, after, mobile_keywords(), 3);
    names_are_recognised(before, "lte"@, after, mobile_keywords(), 4);
    names_are_recognised(before, "telekom"@, after, mobile_keywords(), 5);
    names_are_recognised(before, "vodafone"@, after, mobile_keywords(), 6);
    names_are_recognised(before, "t-mobile"@, after, mobile_keywords(), 7);
    names_are_recognised(before, "verizon"@, after, mobile_keywords(), 8);
    names_are_recognised(before, "at&t mobility"@, after, mobile_keywords(), 9);
    names_are_recognised(before, "movistar"@, after, mobile_keywords(), 10);
    names_are_recognised(before, "claro"@, after, mobile_keywords(), 11);
    names_are_recognised(before, "oranj"@, after, mobile_keywords(), 12);
    names_are_recognised(before, "etisalat"@, after, mobile_keywords(), 13);
    names_are_recognised(before, "airtel"@, after, mobile_keywords(), 14);
    names_are_recognised(before, "mtn"@, after, mobile_keywords(), 15);
    names_are_recognised(before, "singtel"@, after, mobile_keywords(), 16);
    names_are_recognised(before, "indosat"@, after, mobile_keywords(), 17);
    names_are_recognised(before, "telkomsel"@, after, mobile_keywords(), 18);
    names_are_recognised(before, "smartfren"@, after, mobile_keywords(), 19);
    names_are_recognised(before, "xl axiata"@, after, mobile_keywords(), 20);
    names_are_recognised(before, "optus"@, after, mobile_keywords(), 21);
    names_are_recognised(before, "telstra"@, after, mobile_keywords(), 22);
    names_are_recognised(before, "docomo"@, after, mobile_keywords(), 23);
    names_are_recognised(before, "softbank"@, after, mobile_keywords(), 24);
    names_are_recognised(before, "sk telecom"@, after, mobile_keywords(), 25);
}

/// The words that mark a hosting provider, wherever they stand in a name.
pub proof fn hosters_are_recognised(before: Seq<char>, after: Seq<char>)
    ensures
        names_any(before + "amazon"@ + after, hosting_keywords()),
        names_any(before + "aws"@ + after, hosting_keywords()),
        names_any(before + "azure"@ + after, hosting_keywords()),
        names_any(before + "microsoft"@ + after, hosting_keywords()),
        names_any(before + "google"@ + after, hosting_keywords()),
        names_any(before + "oracle"@ + after, hosting_keywords()),
        names_any(before + "digitalocean"@ + after, hosting_keywords()),
        names_any(before + "hetzner"@ + after, hosting_keywords()),
        names_any(before + "ovh"@ + after, hosting_keywords()),
        names_any(before + "linode"@ + after, hosting_keywords()),
        names_any(before + "akamai"@ + after, hosting_keywords()),
        names_any(before + "cloudflare"@ + after, hosting_keywords()),
        names_any(before + "fastly"@ + after, hosting_keywords()),
        names_any(before + "vultr"@ + after, hosting_keywords()),
        names_any(before + "choopa"@ + after, hosting_keywords()),
        names_any(before + "leaseweb"@ + after, hosting_keywords()),
        names_any(before + "contabo"@ + after, hosting_keywords()),
        names_any(before + "ionos"@ + after, hosting_keywords()),
        names_any(before + "hostinger"@ + after, hosting_keywords()),
        names_any(before + "hostgator"@ + after, hosting_keywords()),
        names_any(before + "bluehost"@ + after, hosting_keywords()),
        names_any(before + "dreamhost"@ + after, hosting_keywords()),
        names_any(before + "scaleway"@ + after, hosting_keywords()),
        names_any(before + "rackspace"@ + after, hosting_keywords()),
        names_any(before + "softlayer"@ + after, hosting_keywords()),
        names_any(before + "equinix"@ + after, hosting_keywords()),
        names_any(before + "cogent"@ + after, hosting_keywords()),
        names_any(before + "zenlayer"@ + after, hosting_keywords()),
        names_any(before + "gcore"@ + after, hosting_keywords()),
        names_any(before + "psychz"@ + after, hosting_keywords()),
        names_any(before + "interserver"@ + after, hosting_keywords()),
        names_any(before + "hivelocity"@ + after, hosting_keywords()),
        names_any(before + "kamatera"@ + after, hosting_keywords()),
        names_any(before + "phoenixnap"@ + after, hosting_keywords()),
        names_any(before + "netcup"@ + after, hosting_keywords()),
        names_any(before + "incapsula"@ + after, hosting_keywords()),
        names_any(before + "hosting"@ + after, hosting_keywords()),
        names_any(before + "colo"@ + after, hosting_keywords()),
        names_any(before + "datacenter"@ + after, hosting_keywords()),
        names_any(before + "data center"@ + after, hosting_keywords()),
        names_any(before + "dedicated server"@ + after, hosting_keywords()),
        names_any(before + "vps"@ + after, hosting_keywords()),
        names_any(before + "cloud"@ + after, hosting_keywords()),
{
    names_are_recognised(before, "amazon"@, after, hosting_keywords(), 0);
    names_are_recognised(before, "aws"@, after, hosting_keywords(), 1);
    names_are_recognised(before, "azure"@, after, hosting_keywords(), 2);
    names_are_recognised(before, "microsoft"@, after, hosting_keywords(), 3);
    names_are_recognised(before, "google"@, after, hosting_keywords(), 4);
    names_are_recognised(before, "oracle"@, after, hosting_keywords(), 5);
    names_are_recognised(before, "digitalocean"@, after, hosting_keywords(), 6);
    names_are_recognised(before, "hetzner"@, after, hosting_keywords(), 7);
    names_are_recognised(before, "ovh"@, after, hosting_keywords(), 8);
    names_are_recognised(before, "linode"@, after, hosting_keywords(), 9);
    names_are_recognised(before, "akamai"@, after, hosting_keywords(), 10);
    names_are_recognised(before, "cloudflare"@, after, hosting_keywords(), 11);
    names_are_recognised(before, "fastly"@, after, hosting_keywords(), 12);
    names_are_recognised(before, "vultr"@, after, hosting_keywords(), 13);
    names_are_recognised(before, "choopa"@, after, hosting_keywords(), 14);
    names_are_recognised(before, "leaseweb"@, after, hosting_keywords(), 15);
    names_are_recognised(before, "contabo"@, after, hosting_keywords(), 16);
    names_are_recognised(before, "ionos"@, after, hosting_keywords(), 17);
    names_are_recognised(before, "hostinger"@, after, hosting_keywords(), 18);
    names_are_recognised(before, "hostgator"@, after, hosting_keywords(), 19);
    names_are_recognised(before, "bluehost"@, after, hosting_keywords(), 20);
    names_are_recognised(before, "dreamhost"@, after, hosting_keywords(), 21);
    names_are_recognised(before, "scaleway"@, after, hosting_keywords(), 22);
    names_are_recognised(before, "rackspace"@, after, hosting_keywords(), 23);
    names_are_recognised(before, "softlayer"@, after, hosting_keywords(), 24);
    names_are_recognised(before, "equinix"@, after, hosting_keywords(), 25);
    names_are_recognised(before, "cogent"@, after, hosting_keywords(), 26);
    names_are_recognised(before, "zenlayer"@, after, hosting_keywords(), 27);
    names_are_recognised(before, "gcore"@, after, hosting_keywords(), 28);
    names_are_recognised(before, "psychz"@, after, hosting_keywords(), 29);
    names_are_recognised(before, "interserver"@, after, hosting_keywords(), 30);
    names_are_recognised(before, "hivelocity"@, after, hosting_keywords(), 31);
    names_are_recognised(before, "kamatera"@, after, hosting_keywords(), 32);
    names_are_recognised(before, "phoenixnap"@, after, hosting_keywords(), 33);
    names_are_recognised(before, "netcup"@, after, hosting_keywords(), 34);
    names_are_recognised(before, "incapsula"@, after, hosting_keywords(), 35);
    names_are_recognised(before, "hosting"@, after, hosting_keywords(), 36);
    names_are_recognised(before, "colo"@, after, hosting_keywords(), 37);
    names_are_recognised(before, "datacenter"@, after, hosting_keywords(), 38);
    names_are_recognised(before, "data center"@, after, hosting_keywords(), 39);
    names_are_recognised(before, "dedicated server"@, after, hosting_keywords(), 40);
    names_are_recognised(before, "vps"@, after, hosting_keywords(), 41);
    names_are_recognised(before, "cloud"@, after, hosting_keywords(), 42);
}

} // verus!
