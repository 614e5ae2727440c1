//! Sources of proxy lists.

use crate::error::FlxError;
use crate::proxy::models::{copy_protocols, Anonymity, Protocol};
use crate::text::{decimal, push_decimal};
use vstd::prelude::*;

verus! {

/// How a provider's body is read.
#[derive(Clone, Copy, Debug, PartialEq, Eq, Structural)]
pub enum ScrapeMode {
    Plaintext,
    GeonodeJson,
    ProxyNovaJson,
    HtmlTable,
    RegexPairs,
    Base64Rows,
    JsonStringArray,
    GatherProxyJs,
}

/// When a provider is asked: primary ones first, fallback ones only for what
/// is then missing.
#[derive(Clone, Copy, Debug, PartialEq, Eq, Structural)]
pub enum ProviderTier {
    Primary,
    Fallback,
}

/// Default protocols together with the way a provider's body is read.
#[derive(Clone, Debug)]
pub struct ScrapeContext {
    pub default_types: Vec<Protocol>,
    pub mode: ScrapeMode,
}

/// One address to fetch a proxy list from.
#[derive(Clone, Debug)]
pub struct Source {
    /// The address, in the form that requests use.
    pub url: String,
    /// The host in the address.
    pub host: Option<String>,
    /// Protocols of rows that name none.
    pub default_types: Vec<Protocol>,
    /// Milliseconds that a fetch may take.
    pub timeout: u64,
    /// How the body is read.
    pub mode: ScrapeMode,
}

/// What a source says.
#[verifier::ext_equal]
pub struct SourceText {
    pub url: Seq<char>,
    pub host: Option<Seq<char>>,
    pub types: Seq<Protocol>,
    pub timeout: u64,
    pub mode: ScrapeMode,
}

/// What a source says.
pub open spec fn source_text(s: Source) -> SourceText {
    SourceText {
        url: s.url@,
        host: s.host.deep_view(),
        types: s.default_types@,
        timeout: s.timeout,
        mode: s.mode,
    }
}

/// What several sources say.
pub open spec fn source_texts(v: Seq<Source>) -> Seq<SourceText> {
    Seq::new(v.len(), |i: int| source_text(v[i]))
}

/// An address as a request line writes it, its scheme, its host and its port;
/// `None` where the text is no address.
pub uninterp spec fn uri_parts(url: Seq<char>) -> Option<
    (Seq<char>, Option<Seq<char>>, Option<Seq<char>>, Option<u16>),
>;

/// `hyper::Uri::from_str`, with the text form, the `scheme_str`, the `host`
/// and the `port_u16` of what it reads: all four are a function of the text.
#[verifier::external_body]
pub(crate) fn parse_uri(url: &str) -> (r: Option<
    (String, Option<String>, Option<String>, Option<u16>),
>)
    ensures
        r.deep_view() == uri_parts(url@),
{
    let uri = url.parse::<hyper::Uri>().ok()?;
    let scheme = uri.scheme_str().map(str::to_owned);
    Some((uri.to_string(), scheme, uri.host().map(str::to_owned), uri.port_u16()))
}

/// Protocols that a source without any of its own stands for.
pub open spec fn common_types() -> Seq<Protocol> {
    seq![
        Protocol::Http(Anonymity::Unknown),
        Protocol::Https(Anonymity::Unknown),
        Protocol::Socks4,
        Protocol::Socks5,
        Protocol::Connect(25),
        Protocol::Connect(80),
        Protocol::Connect(443),
    ]
}

/// Protocols of a list of HTTP proxies.
pub open spec fn http_types() -> Seq<Protocol> {
    seq![
        Protocol::Http(Anonymity::Unknown),
        Protocol::Https(Anonymity::Unknown),
        Protocol::Connect(80),
        Protocol::Connect(25),
        Protocol::Connect(443),
    ]
}

/// The protocols that a source stands for.
pub open spec fn types_or_common(types: Seq<Protocol>) -> Seq<Protocol> {
    if types.len() == 0 {
        common_types()
    } else {
        types
    }
}

/// What a source made from an address and protocols says, where the address
/// is one.
pub open spec fn made_source(
    url: Seq<char>,
    types: Seq<Protocol>,
    timeout: u64,
    mode: ScrapeMode,
) -> Option<SourceText> {
    match uri_parts(url) {
        Some(parts) => Some(
            SourceText {
                url: parts.0,
                host: parts.2,
                types: types_or_common(types),
                timeout,
                mode,
            },
        ),
        None => None,
    }
}

/// What making a source from a parsed address gives: the source, or an error
/// that names the address.
pub open spec fn source_read(
    r: Result<Source, FlxError>,
    url: Seq<char>,
    types: Seq<Protocol>,
    uri: Option<(Seq<char>, Option<Seq<char>>, Option<Seq<char>>, Option<u16>)>,
) -> bool {
    match r {
        Ok(s) => {
            &&& uri is Some
            &&& source_text(s) == SourceText {
                url: (uri->0).0,
                host: (uri->0).2,
                types: types_or_common(types),
                timeout: 3000,
                mode: ScrapeMode::Plaintext,
            }
        },
        Err(e) => uri is None && (e matches FlxError::Fetch(m) && m@ == "invalid provider url: "@
            + url),
    }
}

/// What making a source gives.
pub open spec fn source_made(r: Result<Source, FlxError>, url: Seq<char>, types: Seq<Protocol>) -> bool {
    source_read(r, url, types, uri_parts(url))
}

fn common_type_list() -> (v: Vec<Protocol>)
    ensures
        v@ == common_types(),
{
    let v = vec![
        Protocol::Http(Anonymity::Unknown),
        Protocol::Https(Anonymity::Unknown),
        Protocol::Socks4,
        Protocol::Socks5,
        Protocol::Connect(25),
        Protocol::Connect(80),
        Protocol::Connect(443),
    ];
    assert(v@ =~= common_types());
    v
}

/// Protocols of a list of HTTP proxies.
pub fn http_type_list() -> (v: Vec<Protocol>)
    ensures
        v@ == http_types(),
{
    let v = vec![
        Protocol::Http(Anonymity::Unknown),
        Protocol::Https(Anonymity::Unknown),
        Protocol::Connect(80),
        Protocol::Connect(25),
        Protocol::Connect(443),
    ];
    assert(v@ =~= http_types());
    v
}

impl Source {
    /// Makes a source from an address, read as plain text within three
    /// seconds.
    pub fn new(url: &str, types: Vec<Protocol>) -> (r: Result<Self, FlxError>)
        ensures
            source_made(r, url@, types@),
    {
        Source::from_uri(url, types, parse_uri(url))
    }

    /// Makes a source from an address and its parsed parts.
    pub fn from_uri(
        url: &str,
        types: Vec<Protocol>,
        uri: Option<(String, Option<String>, Option<String>, Option<u16>)>,
    ) -> (r: Result<Self, FlxError>)
        ensures
            source_read(r, url@, types@, uri.deep_view()),
    {
        match uri {
            Some((text, _, host, _)) => {
                let default_types = if types.len() == 0 {
                    common_type_list()
                } else {
                    types
                };
                Ok(
                    Source {
                        url: text,
                        host,
                        default_types,
                        timeout: 3000,
                        mode: ScrapeMode::Plaintext,
                    },
                )
            },
            None => {
                let mut message = "invalid provider url: ".to_owned();
                message.append(url);
                Err(FlxError::Fetch(message))
            },
        }
    }

    /// The same source, read in another way.
    pub fn with_mode(self, mode: ScrapeMode) -> (r: Self)
        ensures
            r == (Source { mode, ..self }),
    {
        let mut r = self;
        r.mode = mode;
        r
    }

    /// The same source with another time limit, in milliseconds.
    pub fn with_timeout(self, timeout: u64) -> (r: Self)
        ensures
            r == (Source { timeout, ..self }),
    {
        let mut r = self;
        r.timeout = timeout;
        r
    }

    /// A source of proxies of one protocol.
    pub fn typed(url: &str, protocol: Protocol) -> (r: Result<Self, FlxError>)
        ensures
            source_made(r, url@, seq![protocol]),
    {
        let types = vec![protocol];
        assert(types@ =~= seq![protocol]);
        Source::new(url, types)
    }

    /// A source that says nothing of its proxies' protocols.
    pub fn all(url: &str) -> (r: Result<Self, FlxError>)
        ensures
            source_made(r, url@, Seq::empty()),
    {
        Source::new(url, Vec::new())
    }

    /// A source of HTTP proxies.
    pub fn http(url: &str) -> (r: Result<Self, FlxError>)
        ensures
            source_made(r, url@, http_types()),
    {
        Source::new(url, http_type_list())
    }

    /// A source of SOCKS proxies.
    pub fn socks(url: &str) -> (r: Result<Self, FlxError>)
        ensures
            source_made(r, url@, seq![Protocol::Socks4, Protocol::Socks5]),
    {
        let types = vec![Protocol::Socks4, Protocol::Socks5];
        assert(types@ =~= seq![Protocol::Socks4, Protocol::Socks5]);
        Source::new(url, types)
    }

    /// A copy of the source.
    pub fn duplicate(&self) -> (r: Self)
        ensures
            source_text(r) == source_text(*self),
    {
        let url = self.url.clone();
        Source {
            url,
            host: crate::proxy::models::copy_text(&self.host),
            default_types: crate::proxy::models::copy_protocols(&self.default_types),
            timeout: self.timeout,
            mode: self.mode,
        }
    }
}

/// The sources that could be made, in order.
pub open spec fn made_of(v: Seq<Result<Source, FlxError>>) -> Seq<Source>
    decreases v.len(),
{
    if v.len() == 0 {
        Seq::empty()
    } else {
        match v.last() {
            Ok(s) => made_of(v.drop_last()).push(s),
            Err(_) => made_of(v.drop_last()),
        }
    }
}

/// Keeps the sources whose address could be read.
pub fn valid_sources(sources: Vec<Result<Source, FlxError>>) -> (r: Vec<Source>)
    ensures
        r@ == made_of(sources@),
{
    let mut r: Vec<Source> = Vec::new();
    let ghost all = sources@;
    assert(all.take(0) =~= Seq::<Result<Source, FlxError>>::empty());
    for item in it: sources
        invariant
            it.seq() == all,
            r@ == made_of(all.take(it.index() as int)),
    {
        let ghost done = all.take(it.index() + 1);
        assert(done.drop_last() =~= all.take(it.index() as int));
        assert(done.last() == item);
        match item {
            Ok(source) => {
                r.push(source);
            },
            Err(_) => {},
        }
    }
    assert(all.take(all.len() as int) =~= all);
    r
}

/// An address that a provider tries, before it is read.
pub struct Entry {
    pub url: String,
    pub types: Vec<Protocol>,
    pub timeout: u64,
    pub mode: ScrapeMode,
}

/// What an entry says.
#[verifier::ext_equal]
pub struct EntryText {
    pub url: Seq<char>,
    pub types: Seq<Protocol>,
    pub timeout: u64,
    pub mode: ScrapeMode,
}

/// What an entry says.
pub open spec fn entry_text(e: Entry) -> EntryText {
    EntryText { url: e.url@, types: e.types@, timeout: e.timeout, mode: e.mode }
}

/// What several entries say.
pub open spec fn entry_texts(v: Seq<Entry>) -> Seq<EntryText> {
    Seq::new(v.len(), |i: int| entry_text(v[i]))
}

pub proof fn lemma_entry_texts_push(v: Seq<Entry>, e: Entry)
    ensures
        entry_texts(v.push(e)) == entry_texts(v).push(entry_text(e)),
{
    assert(entry_texts(v.push(e)) =~= entry_texts(v).push(entry_text(e)));
}

/// The sources that entries make, in order; those whose address cannot be
/// read are left out.
pub open spec fn valid_entries(v: Seq<EntryText>) -> Seq<SourceText>
    decreases v.len(),
{
    if v.len() == 0 {
        Seq::empty()
    } else {
        let e = v.last();
        match made_source(e.url, e.types, e.timeout, e.mode) {
            Some(s) => valid_entries(v.drop_last()).push(s),
            None => valid_entries(v.drop_last()),
        }
    }
}

proof fn lemma_source_texts_push(v: Seq<Source>, s: Source)
    ensures
        source_texts(v.push(s)) == source_texts(v).push(source_text(s)),
{
    assert(source_texts(v.push(s)) =~= source_texts(v).push(source_text(s)));
}

/// Makes the sources of a list of entries.
pub fn sources_of(entries: Vec<Entry>) -> (r: Vec<Source>)
    ensures
        source_texts(r@) == valid_entries(entry_texts(entries@)),
{
    let mut made: Vec<Result<Source, FlxError>> = Vec::new();
    let ghost all = entry_texts(entries@);
    let ghost list = entries@;
    assert(all.take(0) =~= Seq::<EntryText>::empty());
    assert(source_texts(made_of(made@)) =~= Seq::<SourceText>::empty());
    for entry in it: entries
        invariant
            it.seq() == list,
            all == entry_texts(list),
            source_texts(made_of(made@)) == valid_entries(all.take(it.index() as int)),
    {
        let ghost done = all.take(it.index() + 1);
        assert(done.drop_last() =~= all.take(it.index() as int));
        assert(done.last() == entry_text(entry));
        let mode = entry.mode;
        let timeout: u64 = entry.timeout;
        let ghost before = made@;
        let one: Result<Source, FlxError> = match Source::new(entry.url.as_str(), entry.types) {
            Ok(source) => Ok(source.with_mode(mode).with_timeout(timeout)),
            Err(error) => Err(error),
        };
        made.push(one);
        proof {
            assert(made@.drop_last() =~= before);
            if made@.last() is Ok {
                lemma_source_texts_push(made_of(before), made@.last()->Ok_0);
            }
        }
    }
    assert(all.take(all.len() as int) =~= all);
    valid_sources(made)
}

/// An entry for one address.
pub fn entry(url: &str, types: Vec<Protocol>, timeout: u64, mode: ScrapeMode) -> (e: Entry)
    ensures
        entry_text(e) == (EntryText { url: url@, types: types@, timeout, mode }),
{
    Entry { url: url.to_owned(), types, timeout, mode }
}

/// One protocol as a list.
pub fn only(protocol: Protocol) -> (v: Vec<Protocol>)
    ensures
        v@ == seq![protocol],
{
    let v = vec![protocol];
    assert(v@ =~= seq![protocol]);
    v
}

/// The protocols of a list that names its sources by protocol: HTTP and HTTPS
/// lists hold HTTP proxies of every kind.
pub open spec fn list_types(protocol: Protocol) -> Seq<Protocol> {
    match protocol {
        Protocol::Http(_) => http_types(),
        Protocol::Https(_) => http_types(),
        _ => seq![protocol],
    }
}

/// The protocols of a list that names its sources by protocol.
pub fn types_listed(protocol: Protocol) -> (v: Vec<Protocol>)
    ensures
        v@ == list_types(protocol),
{
    match protocol {
        Protocol::Http(_) => http_type_list(),
        Protocol::Https(_) => http_type_list(),
        _ => only(protocol),
    }
}

/// Entries for the pages of a list, numbered from `start` in steps.
pub open spec fn page_entries(
    prefix: Seq<char>,
    suffix: Seq<char>,
    start: int,
    step: int,
    pages: int,
    rest: EntryText,
) -> Seq<EntryText> {
    Seq::new(
        pages as nat,
        |i: int|
            EntryText { url: prefix + decimal((start + i * step) as nat) + suffix, ..rest },
    )
}

/// Entries for the pages of a list, numbered from `start` in steps.
pub(crate) fn paged(
    prefix: &str,
    suffix: &str,
    start: u64,
    step: u64,
    pages: u64,
    rest: &Entry,
) -> (v: Vec<Entry>)
    requires
        start <= 1000,
        step <= 1000,
        pages <= 1000,
    ensures
        entry_texts(v@) == page_entries(
            prefix@,
            suffix@,
            start as int,
            step as int,
            pages as int,
            entry_text(*rest),
        ),
{
    let ghost want = page_entries(
        prefix@,
        suffix@,
        start as int,
        step as int,
        pages as int,
        entry_text(*rest),
    );
    let mut v: Vec<Entry> = Vec::new();
    let mut i: u64 = 0;
    while i < pages
        invariant
            i <= pages,
            start <= 1000,
            step <= 1000,
            pages <= 1000,
            want == page_entries(
                prefix@,
                suffix@,
                start as int,
                step as int,
                pages as int,
                entry_text(*rest),
            ),
            entry_texts(v@) == want.take(i as int),
        decreases pages - i,
    {
        assert(i * step <= 1000000) by (nonlinear_arith)
            requires
                i <= 1000,
                step <= 1000,
        ;
        let mut url = prefix.to_owned();
        push_decimal(&mut url, start + i * step);
        url.append(suffix);
        let one = Entry {
            url,
            types: copy_protocols(&rest.types),
            timeout: rest.timeout,
            mode: rest.mode,
        };
        proof {
            assert(entry_text(one) =~= want[i as int]);
            lemma_entry_texts_push(v@, one);
        }
        v.push(one);
        i += 1;
        assert(entry_texts(v@) =~= want.take(i as int));
    }
    assert(want.take(pages as int) =~= want);
    v
}

/// Every address that can be read makes a source, in order, with its own
/// protocols or else the common ones; the others make none.
pub proof fn readable_addresses_make_sources(a: Seq<EntryText>, e: EntryText, b: Seq<EntryText>)
    ensures
        valid_entries(a + b) == valid_entries(a) + valid_entries(b),
        uri_parts(e.url) is None ==> valid_entries(seq![e]) == Seq::<SourceText>::empty(),
        uri_parts(e.url) matches Some(parts) ==> valid_entries(seq![e]) == seq![
            SourceText {
                url: parts.0,
                host: parts.2,
                types: if e.types.len() == 0 {
                    common_types()
                } else {
                    e.types
                },
                timeout: e.timeout,
                mode: e.mode,
            },
        ],
    decreases b.len(),
{
    let one = seq![e];
    assert(one.drop_last() =~= Seq::<EntryText>::empty());
    assert(valid_entries(one.drop_last()) =~= Seq::<SourceText>::empty());
    assert(one.last() == e);
    if let Some(s) = made_source(e.url, e.types, e.timeout, e.mode) {
        assert(valid_entries(one) =~= seq![s]);
    }
    if b.len() == 0 {
        assert(a + b =~= a);
        assert(valid_entries(a) + valid_entries(b) =~= valid_entries(a));
    } else {
        readable_addresses_make_sources(a, e, b.drop_last());
        assert((a + b).drop_last() =~= a + b.drop_last());
        assert((a + b).last() == b.last());
        assert(valid_entries(a + b) =~= valid_entries(a) + valid_entries(b));
    }
}

/// A source without protocols of its own stands for HTTP and HTTPS at any
/// level, both versions of SOCKS, and tunnels to the mail, web and secure web
/// ports; a list of HTTP proxies for all of these but SOCKS.
pub proof fn common_types_are_these(p: Protocol)
    ensures
        common_types().contains(p) <==> p == Protocol::Http(Anonymity::Unknown) || p
            == Protocol::Https(Anonymity::Unknown) || p == Protocol::Socks4 || p
            == Protocol::Socks5 || p == Protocol::Connect(25) || p == Protocol::Connect(80) || p
            == Protocol::Connect(443),
        http_types().contains(p) <==> common_types().contains(p) && p != Protocol::Socks4 && p
            != Protocol::Socks5,
        list_types(p) == if p is Http || p is Https {
            http_types()
        } else {
            seq![p]
        },
{
    let c = common_types();
    let h = http_types();
    assert(c[0] == Protocol::Http(Anonymity::Unknown) && c[1] == Protocol::Https(
        Anonymity::Unknown,
    ) && c[2] == Protocol::Socks4 && c[3] == Protocol::Socks5 && c[4] == Protocol::Connect(25)
        && c[5] == Protocol::Connect(80) && c[6] == Protocol::Connect(443));
    assert(h[0] == Protocol::Http(Anonymity::Unknown) && h[1] == Protocol::Https(
        Anonymity::Unknown,
    ) && h[2] == Protocol::Connect(80) && h[3] == Protocol::Connect(25) && h[4]
        == Protocol::Connect(443));
}

/// The pages of a list are numbered in steps, each between the same texts.
pub proof fn pages_are_numbered(
    prefix: Seq<char>,
    suffix: Seq<char>,
    start: int,
    step: int,
    pages: nat,
    rest: EntryText,
    i: int,
)
    requires
        0 <= i < pages,
        start >= 0,
        step >= 0,
    ensures
        ({
            let v = page_entries(prefix, suffix, start, step, pages as int, rest);
            &&& v.len() == pages
            &&& v[i].url == prefix + decimal((start + i * step) as nat) + suffix
            &&& v[i].types == rest.types && v[i].mode == rest.mode && v[i].timeout == rest.timeout
        }),
{
}

/// A source is made where its address can be read, and only there: with that
/// address and its host, three seconds to answer, as a plain list, and with the
/// common protocols where none were named. The error names the address.
pub proof fn sources_go_by_their_address(
    r: Result<Source, FlxError>,
    url: Seq<char>,
    types: Seq<Protocol>,
    uri: Option<(Seq<char>, Option<Seq<char>>, Option<Seq<char>>, Option<u16>)>,
)
    requires
        source_read(r, url, types, uri),
    ensures
        r is Ok <==> uri is Some,
        r matches Ok(s) ==> {
            let parts = uri->0;
            &&& s.url@ == parts.0
            &&& s.host.deep_view() == parts.2
            &&& types.len() > 0 ==> s.default_types@ == types
            &&& types.len() == 0 ==> s.default_types@ == common_types()
            &&& s.timeout == 3000
            &&& s.mode is Plaintext
        },
        r matches Err(e) ==> e is Fetch && (e->Fetch_0)@ == "invalid provider url: "@ + url,
{
    if r is Ok {
        let s = r->Ok_0;
        assert(source_text(s).url == s.url@);
    }
}

/// Of several attempts the sources that came of them are kept, in order.
pub proof fn made_sources_are_kept(
    a: Seq<Result<Source, FlxError>>,
    b: Seq<Result<Source, FlxError>>,
    s: Source,
    e: FlxError,
)
    ensures
        made_of(a + b) == made_of(a) + made_of(b),
        made_of(seq![Ok::<Source, FlxError>(s)]) == seq![s],
        made_of(seq![Err::<Source, FlxError>(e)]) == Seq::<Source>::empty(),
    decreases b.len(),
{
    let one = seq![Ok::<Source, FlxError>(s)];
    let none = seq![Err::<Source, FlxError>(e)];
    assert(one.drop_last() =~= Seq::empty());
    assert(none.drop_last() =~= Seq::empty());
    assert(made_of(one.drop_last()) =~= Seq::<Source>::empty());
    assert(made_of(none.drop_last()) =~= Seq::<Source>::empty());
    assert(made_of(one) =~= seq![s]);
    if b.len() == 0 {
        assert(a + b =~= a);
    } else {
        made_sources_are_kept(a, b.drop_last(), s, e);
        assert((a + b).drop_last() =~= a + b.drop_last());
        assert((a + b).last() == b.last());
        assert(made_of(a + b) =~= made_of(a) + made_of(b));
    }
}

} // verus!
