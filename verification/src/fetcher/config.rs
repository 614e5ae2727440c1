//! How proxies are gathered.

use crate::geolookup::ip_type::IpType;
use crate::text::{chars_of, string_of, texts, trim, trimmed};
use vstd::prelude::*;

verus! {

/// Default concurrent provider fetches.
pub const DEFAULT_CONCURRENCY_LIMIT: usize = 25;

/// Default concurrent provider fetches per host.
pub const DEFAULT_HOST_CONCURRENCY_LIMIT: usize = 4;

/// Default source-cache freshness in minutes.
pub const DEFAULT_CACHE_TTL_MINUTES: u64 = 15;

/// Tuning knobs for provider scraping. Durations are in milliseconds.
#[derive(Clone, Debug)]
pub struct Config {
    /// Deduplicates candidates by endpoint and advertised protocols.
    pub enforce_unique_ip: bool,
    /// Caps concurrent provider fetches; must be non-zero.
    pub concurrency_limit: usize,
    /// Annotates candidates via GeoIP; required for country filters.
    pub enable_geo_lookup: bool,
    /// Classifies candidates' addresses; requires GeoIP lookup.
    pub enable_ip_type: bool,
    /// Keeps only addresses of one class; requires GeoIP lookup.
    pub ip_type_filter: Option<IpType>,
    /// Allowlist of ISO country codes; empty means no filtering.
    pub countries: Vec<String>,
    /// Denylist of ISO country codes; empty means no filtering.
    pub excluded_countries: Vec<String>,
    /// Skips fallback providers once this many proxies exist.
    pub fallback_threshold: Option<usize>,
    /// Bounds the fallback phase; `None` waits for all sources.
    pub fallback_phase_timeout: Option<u64>,
    /// Freshness window for cached source bodies; `None` disables the cache.
    pub cache_ttl: Option<u64>,
    /// Re-fetches sources instead of serving cached bodies.
    pub refresh_cache: bool,
    /// Provider allowlist by name; empty selects all built-ins.
    pub providers: Vec<String>,
    /// Provider denylist by name.
    pub excluded_providers: Vec<String>,
    /// Extra raw source URLs scraped alongside built-ins.
    pub custom_sources: Vec<String>,
    /// Serves cached bodies only, opening no network connections.
    pub offline: bool,
    /// Minimum spacing between requests to the same host; `None` disables it.
    pub fetch_delay: Option<u64>,
    /// Per-source fetch timeout override; `None` keeps each source default.
    pub provider_timeout: Option<u64>,
}

impl Default for Config {
    fn default() -> (r: Self)
        ensures
            r.enforce_unique_ip,
            r.concurrency_limit == DEFAULT_CONCURRENCY_LIMIT,
            !r.enable_geo_lookup,
            !r.enable_ip_type,
            r.ip_type_filter is None,
            r.countries@.len() == 0,
            r.excluded_countries@.len() == 0,
            r.fallback_threshold is None,
            r.fallback_phase_timeout is None,
            r.cache_ttl == Some((DEFAULT_CACHE_TTL_MINUTES * 60 * 1000) as u64),
            !r.refresh_cache,
            r.providers@.len() == 0,
            r.excluded_providers@.len() == 0,
            r.custom_sources@.len() == 0,
            !r.offline,
            r.fetch_delay is None,
            r.provider_timeout is None,
    {
        Config {
            enforce_unique_ip: true,
            concurrency_limit: DEFAULT_CONCURRENCY_LIMIT,
            enable_geo_lookup: false,
            enable_ip_type: false,
            ip_type_filter: None,
            countries: Vec::new(),
            excluded_countries: Vec::new(),
            fallback_threshold: None,
            fallback_phase_timeout: None,
            cache_ttl: Some(DEFAULT_CACHE_TTL_MINUTES * 60 * 1000),
            refresh_cache: false,
            providers: Vec::new(),
            excluded_providers: Vec::new(),
            custom_sources: Vec::new(),
            offline: false,
            fetch_delay: None,
            provider_timeout: None,
        }
    }
}

/// The ASCII upper case of a character; others stay.
pub open spec fn upper(c: char) -> char {
    if 'a' <= c <= 'z' {
        (c as u8 - 32) as char
    } else {
        c
    }
}

/// A text in ASCII upper case.
pub open spec fn uppered(s: Seq<char>) -> Seq<char> {
    Seq::new(s.len(), |i: int| upper(s[i]))
}

/// A text in ASCII upper case.
pub fn to_upper(s: &[char]) -> (r: Vec<char>)
    ensures
        r@ == uppered(s@),
{
    let mut r: Vec<char> = Vec::new();
    let mut i: usize = 0;
    while i < s.len()
        invariant
            i <= s.len(),
            r@ == uppered(s@).take(i as int),
        decreases s.len() - i,
    {
        let c = s[i];
        let u: char = if c >= 'a' && c <= 'z' {
            ((c as u8) - 32) as char
        } else {
            c
        };
        r.push(u);
        i += 1;
        assert(r@ =~= uppered(s@).take(i as int));
    }
    assert(uppered(s@).take(s.len() as int) =~= uppered(s@));
    r
}

/// A set of country codes.
#[verifier::external_body]
pub struct CountrySet {
    set: hashbrown::HashSet<String>,
}

/// The codes that a set holds.
pub uninterp spec fn country_codes(s: CountrySet) -> Set<Seq<char>>;

impl CountrySet {
    /// `hashbrown::HashSet::new`: nothing is in the set.
    #[verifier::external_body]
    pub(crate) fn new() -> (s: Self)
        ensures
            country_codes(s) == Set::<Seq<char>>::empty(),
    {
        CountrySet { set: hashbrown::HashSet::new() }
    }

    /// `hashbrown::HashSet::insert`: the code is in the set, with those before.
    #[verifier::external_body]
    pub(crate) fn insert(&mut self, code: String)
        ensures
            country_codes(*final(self)) == country_codes(*old(self)).insert(code@),
    {
        self.set.insert(code);
    }

    /// `hashbrown::HashSet::contains`: whether the code is in the set.
    #[verifier::external_body]
    pub(crate) fn has(&self, code: &str) -> (r: bool)
        ensures
            r == country_codes(*self).contains(code@),
    {
        self.set.contains(code)
    }

    /// `hashbrown::HashSet::is_empty`: whether nothing is in the set.
    #[verifier::external_body]
    fn vacant(&self) -> (r: bool)
        ensures
            r == (country_codes(*self) == Set::<Seq<char>>::empty()),
    {
        self.set.is_empty()
    }

    /// `hashbrown::HashSet::len`: how many codes are in the set.
    #[verifier::external_body]
    fn size(&self) -> (n: usize)
        ensures
            n == country_codes(*self).len(),
    {
        self.set.len()
    }

    /// Whether nothing is in the set.
    pub fn is_empty(&self) -> (r: bool)
        ensures
            r == (country_codes(*self) == Set::<Seq<char>>::empty()),
    {
        self.vacant()
    }

    /// How many codes are in the set.
    pub fn len(&self) -> (n: usize)
        ensures
            n == country_codes(*self).len(),
    {
        self.size()
    }

    /// Whether a code is in the set.
    pub fn contains(&self, code: &str) -> (r: bool)
        ensures
            r == country_codes(*self).contains(code@),
    {
        self.has(code)
    }
}

/// A country code as filters compare it.
pub open spec fn normal_code(code: Seq<char>) -> Seq<char> {
    uppered(trimmed(code))
}

/// Country codes as filters compare them: trimmed, in upper case, without
/// empty ones.
pub open spec fn normal_codes(codes: Seq<Seq<char>>) -> Set<Seq<char>> {
    Set::new(
        |c: Seq<char>|
            c.len() > 0 && exists|i: int|
                0 <= i < codes.len() && normal_code(#[trigger] codes[i]) == c,
    )
}

/// Normalizes a list of country codes.
pub fn normalize(codes: &Vec<String>) -> (r: CountrySet)
    ensures
        country_codes(r) == normal_codes(texts(codes@)),
{
    let mut set = CountrySet::new();
    let ghost all = texts(codes@);
    let mut i: usize = 0;
    assert(country_codes(set) =~= normal_codes(all.take(0)));
    while i < codes.len()
        invariant
            i <= codes.len(),
            all == texts(codes@),
            country_codes(set) == normal_codes(all.take(i as int)),
        decreases codes.len() - i,
    {
        let cs = chars_of(codes[i].as_str());
        let code = string_of(to_upper(trim(cs.as_slice())).as_slice());
        let ghost before = country_codes(set);
        let ghost done = all.take(i + 1);
        let ghost c = code@;
        assert(done[i as int] == codes@[i as int]@);
        assert(normal_code(done[i as int]) == c);
        if !code.as_str().is_empty() {
            set.insert(code);
        }
        proof {
            assert forall|x: Seq<char>|
                #![auto]
                country_codes(set).contains(x) <==> normal_codes(done).contains(x) by {
                if normal_codes(done).contains(x) {
                    let j = choose|j: int|
                        0 <= j < done.len() && normal_code(#[trigger] done[j]) == x;
                    if j < i {
                        assert(all.take(i as int)[j] == done[j]);
                        assert(normal_codes(all.take(i as int)).contains(x));
                    }
                }
                if before.contains(x) {
                    let j = choose|j: int|
                        0 <= j < all.take(i as int).len() && normal_code(
                            #[trigger] all.take(i as int)[j],
                        ) == x;
                    assert(done[j] == all.take(i as int)[j]);
                }
            }
            assert(country_codes(set) =~= normal_codes(done));
        }
        i += 1;
    }
    assert(all.take(codes.len() as int) =~= all);
    set
}

impl Config {
    /// Returns the trimmed, uppercased country allowlist with empties dropped.
    pub fn normalized_countries(&self) -> (r: CountrySet)
        ensures
            country_codes(r) == normal_codes(texts(self.countries@)),
    {
        normalize(&self.countries)
    }

    /// Returns the trimmed, uppercased country denylist with empties dropped.
    pub fn normalized_excluded_countries(&self) -> (r: CountrySet)
        ensures
            country_codes(r) == normal_codes(texts(self.excluded_countries@)),
    {
        normalize(&self.excluded_countries)
    }
}

/// Country codes are compared without the blanks around them and in upper
/// case; empty ones count for nothing, and no code is added.
pub proof fn codes_are_compared_in_upper_case(codes: Seq<Seq<char>>, i: int, c: Seq<char>)
    requires
        0 <= i < codes.len(),
    ensures
        trimmed(codes[i]).len() > 0 ==> normal_codes(codes).contains(uppered(trimmed(codes[i]))),
        normal_codes(codes).contains(c) ==> c.len() > 0 && exists|k: int|
            0 <= k < codes.len() && uppered(trimmed(#[trigger] codes[k])) == c,
        (forall|k: int| 0 <= k < codes.len() ==> trimmed(#[trigger] codes[k]).len() == 0)
            ==> normal_codes(codes) == Set::<Seq<char>>::empty(),
        normal_codes(Seq::empty()) == Set::<Seq<char>>::empty(),
{
    assert(normal_code(codes[i]) == uppered(trimmed(codes[i])));
    if normal_codes(codes).contains(c) {
        let k = choose|k: int| 0 <= k < codes.len() && normal_code(#[trigger] codes[k]) == c;
        assert(uppered(trimmed(codes[k])) == c);
    }
    if forall|k: int| 0 <= k < codes.len() ==> trimmed(#[trigger] codes[k]).len() == 0 {
        assert forall|d: Seq<char>| !normal_codes(codes).contains(d) by {
            if normal_codes(codes).contains(d) {
                let k = choose|k: int|
                    0 <= k < codes.len() && normal_code(#[trigger] codes[k]) == d;
                assert(trimmed(codes[k]).len() == 0);
            }
        }
        assert(normal_codes(codes) =~= Set::<Seq<char>>::empty());
    }
    assert(normal_codes(Seq::empty()) =~= Set::<Seq<char>>::empty());
}

/// Upper case exchanges the small ASCII letters one for one and leaves the rest.
pub proof fn upper_case_is_ascii(s: Seq<char>, i: int)
    requires
        0 <= i < s.len(),
    ensures
        uppered(s).len() == s.len(),
        97 <= s[i] as u32 <= 122 ==> uppered(s)[i] as u32 == s[i] as u32 - 32,
        !(97 <= s[i] as u32 <= 122) ==> uppered(s)[i] == s[i],
        uppered(uppered(s)) == uppered(s),
{
    assert(uppered(uppered(s)) =~= uppered(s));
}

} // verus!
