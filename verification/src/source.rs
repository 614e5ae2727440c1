//! Reading proxies from text, line by line.

use crate::net::{
    ip_text, ip_text_reads_back, lemma_fields_cons, lemma_fields_one, read_ip, Ipv4Addr,
};
use crate::proxy::models::{
    advertised, endpoint_text, fresh_proxy, scheme_of, without_scheme, Anonymity, Protocol, Proxy,
};
use crate::providers::parsers::{
    ends_head, head_len, head_of, last_slashes, pair_of, words_name_protocols,
};
use crate::text::{
    all_digits, begins, chars_of, decimal, decimal_reads_back, fields, is_digit, is_space, lines, lowered,
    read_number, split_lines, texts, trim_str, trimmed, trimming_takes_the_outer_blanks,
};
use vstd::prelude::*;

verus! {

/// The protocols that a bare line stands for.
pub open spec fn file_defaults() -> Seq<Protocol> {
    seq![
        Protocol::Http(Anonymity::Unknown),
        Protocol::Https(Anonymity::Unknown),
        Protocol::Socks4,
        Protocol::Socks5,
    ]
}

/// The protocols that a bare line stands for.
pub fn file_default_protocols() -> (v: Vec<Protocol>)
    ensures
        v@ == file_defaults(),
{
    let v = vec![
        Protocol::Http(Anonymity::Unknown),
        Protocol::Https(Anonymity::Unknown),
        Protocol::Socks4,
        Protocol::Socks5,
    ];
    assert(v@ =~= file_defaults());
    v
}

/// The endpoint that a line writes, with or without a scheme before it.
pub open spec fn line_pair(line: Seq<char>) -> Option<(Ipv4Addr, u16)> {
    if trimmed(line).len() == 0 {
        None
    } else {
        pair_of(without_scheme(trimmed(trimmed(line))))
    }
}

/// The protocols that a line stands for: the one that its scheme pins, or all
/// of them where it has none.
pub open spec fn line_types(line: Seq<char>) -> Seq<Protocol> {
    let pinned = advertised(scheme_of(trimmed(trimmed(line))));
    if pinned.len() == 0 {
        file_defaults()
    } else {
        pinned
    }
}

/// Whether a proxy is what a line writes.
pub open spec fn from_line(p: Proxy, line: Seq<char>) -> bool {
    line_pair(line) matches Some((ip, port)) && fresh_proxy(p, ip, port, line_types(line)) && p.wf()
}

/// Reads proxies line by line.
///
/// Bare `ip:port` lines inherit all requested protocols; scheme-prefixed
/// lines (`socks5://…`) pin their own type.
pub struct ProxySource {
    pub lines: Vec<String>,
    pub at: usize,
}

impl ProxySource {
    /// The lines that are still to be read.
    pub open spec fn rest(self) -> Seq<Seq<char>> {
        texts(self.lines@).skip(self.at as int)
    }

    /// The place is within the lines.
    pub open spec fn wf(self) -> bool {
        self.at <= self.lines@.len()
    }

    /// A source of the lines of a text.
    pub fn from_text(text: &str) -> (r: Self)
        ensures
            r.wf(),
            r.rest() == lines(text@),
    {
        let cs = chars_of(text);
        let lines = split_lines(cs.as_slice());
        assert(texts(lines@).skip(0) =~= texts(lines@));
        ProxySource { lines, at: 0 }
    }

    /// The next proxy: that of the first line that writes one. Lines that are
    /// empty or write none are skipped.
    pub fn next(&mut self) -> (r: Option<Proxy>)
        requires
            old(self).wf(),
        ensures
            final(self).wf(),
            match r {
                Some(p) => exists|i: int|
                    0 <= i < old(self).rest().len() && from_line(p, #[trigger] old(self).rest()[i])
                        && (forall|j: int|
                        0 <= j < i ==> line_pair(#[trigger] old(self).rest()[j]) is None)
                        && final(self).rest() == old(self).rest().skip(i + 1),
                None => final(self).rest().len() == 0 && forall|j: int|
                    0 <= j < old(self).rest().len() ==> line_pair(
                        #[trigger] old(self).rest()[j],
                    ) is None,
            },
    {
        let ghost before = self.rest();
        let ghost start = self.at;
        assert(texts(self.lines@).len() == self.lines@.len());
        while self.at < self.lines.len()
            invariant
                start <= self.at <= self.lines@.len(),
                self.lines@ == old(self).lines@,
                before == texts(self.lines@).skip(start as int),
                before == old(self).rest(),
                texts(self.lines@).len() == self.lines@.len(),
                forall|j: int|
                    0 <= j < self.at - start ==> line_pair(#[trigger] before[j]) is None,
            decreases self.lines.len() - self.at,
        {
            let ghost i = self.at - start;
            let line = trim_str(self.lines[self.at].as_str());
            assert(before[i] == self.lines@[self.at as int]@);
            self.at = self.at + 1;
            if chars_of(line.as_str()).len() == 0 {
                continue;
            }
            if let Ok(proxy) = Proxy::parse(line.as_str()) {
                let mut proxy = proxy;
                if proxy.expected_types.len() == 0 {
                    proxy.expected_types = file_default_protocols();
                }
                assert(from_line(proxy, before[i]));
                assert(self.rest() =~= before.skip(i + 1));
                return Some(proxy);
            }
        }
        None
    }

    /// Every proxy that is still to be read.
    pub fn collect(self) -> (r: Vec<Proxy>)
        requires
            self.wf(),
        ensures
            r@.len() == read_lines(self.rest()).len(),
            forall|i: int|
                0 <= i < r@.len() ==> from_line(#[trigger] r@[i], read_lines(self.rest())[i]),
    {
        let mut source = self;
        let mut r: Vec<Proxy> = Vec::new();
        loop
            invariant
                source.wf(),
                r@.len() + read_lines(source.rest()).len() == read_lines(self.rest()).len(),
                forall|k: int|
                    0 <= k < read_lines(source.rest()).len() ==> read_lines(self.rest())[r@.len()
                        + k] == #[trigger] read_lines(source.rest())[k],
                forall|k: int|
                    0 <= k < r@.len() ==> from_line(#[trigger] r@[k], read_lines(self.rest())[k]),
            decreases source.rest().len(),
        {
            let ghost before = source.rest();
            match source.next() {
                None => {
                    proof {
                        lemma_none_read(before);
                    }
                    return r;
                },
                Some(proxy) => {
                    proof {
                        let i = choose|i: int|
                            0 <= i < before.len() && from_line(proxy, #[trigger] before[i]) && (
                            forall|j: int|
                                0 <= j < i ==> line_pair(#[trigger] before[j]) is None)
                                && source.rest() == before.skip(i + 1);
                        lemma_first_read(before, i);
                        let all = read_lines(self.rest());
                        assert(all[r@.len() as int] == read_lines(before)[0]);
                        assert forall|k: int| 0 <= k < read_lines(source.rest()).len() implies all[
                            r@.len() + 1 + k
                        ] == #[trigger] read_lines(source.rest())[k] by {
                            assert(read_lines(before)[k + 1] == read_lines(source.rest())[k]);
                        }
                    }
                    r.push(proxy);
                },
            }
        }
    }
}

/// The lines that write a proxy, in order.
pub open spec fn read_lines(all: Seq<Seq<char>>) -> Seq<Seq<char>>
    decreases all.len(),
{
    if all.len() == 0 {
        Seq::empty()
    } else if line_pair(all[0]) is Some {
        seq![all[0]] + read_lines(all.drop_first())
    } else {
        read_lines(all.drop_first())
    }
}

proof fn lemma_none_read(all: Seq<Seq<char>>)
    requires
        forall|j: int| 0 <= j < all.len() ==> line_pair(#[trigger] all[j]) is None,
    ensures
        read_lines(all).len() == 0,
    decreases all.len(),
{
    if all.len() > 0 {
        assert(line_pair(all[0]) is None);
        assert forall|j: int| 0 <= j < all.drop_first().len() implies line_pair(
            #[trigger] all.drop_first()[j],
        ) is None by {
            assert(all.drop_first()[j] == all[j + 1]);
        }
        lemma_none_read(all.drop_first());
    }
}

proof fn lemma_first_read(all: Seq<Seq<char>>, i: int)
    requires
        0 <= i < all.len(),
        line_pair(all[i]) is Some,
        forall|j: int| 0 <= j < i ==> line_pair(#[trigger] all[j]) is None,
    ensures
        read_lines(all) == seq![all[i]] + read_lines(all.skip(i + 1)),
    decreases all.len(),
{
    if i == 0 {
        assert(all.skip(1) =~= all.drop_first());
    } else {
        assert(line_pair(all[0]) is None);
        let tail = all.drop_first();
        assert forall|j: int| 0 <= j < i - 1 implies line_pair(#[trigger] tail[j]) is None by {
            assert(tail[j] == all[j + 1]);
        }
        assert(tail[i - 1] == all[i]);
        lemma_first_read(tail, i - 1);
        assert(tail.skip(i) =~= all.skip(i + 1));
    }
}

/// A character that a written endpoint can hold.
spec fn plain(c: char) -> bool {
    is_digit(c) || c == '.' || c == ':'
}

proof fn lemma_plain(s: Seq<char>)
    requires
        s.len() > 0,
        forall|i: int| 0 <= i < s.len() ==> plain(#[trigger] s[i]),
    ensures
        trimmed(s) == s,
{
    assert(plain(s[0]) && plain(s.last()));
}

proof fn lemma_plain_head(s: Seq<char>)
    requires
        forall|i: int| 0 <= i < s.len() ==> plain(#[trigger] s[i]),
    ensures
        head_len(s) == s.len(),
    decreases s.len(),
{
    if s.len() > 0 {
        assert(plain(s[0]));
        assert forall|i: int| 0 <= i < s.drop_first().len() implies plain(
            #[trigger] s.drop_first()[i],
        ) by {
            assert(s.drop_first()[i] == s[i + 1]);
        }
        lemma_plain_head(s.drop_first());
    }
}

proof fn lemma_plain_slashes(s: Seq<char>)
    requires
        forall|i: int| 0 <= i < s.len() ==> plain(#[trigger] s[i]),
    ensures
        last_slashes(s) == -1,
    decreases s.len(),
{
    if s.len() >= 2 {
        assert(plain(s.last()));
        assert forall|i: int| 0 <= i < s.drop_last().len() implies plain(
            #[trigger] s.drop_last()[i],
        ) by {
            assert(s.drop_last()[i] == s[i]);
        }
        lemma_plain_slashes(s.drop_last());
    }
}

proof fn lemma_ip_plain(ip: Ipv4Addr)
    ensures
        ip_text(ip).len() > 0,
        is_digit(ip_text(ip)[0]),
        forall|i: int|
            0 <= i < ip_text(ip).len() ==> is_digit(#[trigger] ip_text(ip)[i]) || ip_text(ip)[i]
                == '.',
{
    decimal_reads_back(ip.a as nat, 255);
    decimal_reads_back(ip.b as nat, 255);
    decimal_reads_back(ip.c as nat, 255);
    decimal_reads_back(ip.d as nat, 255);
    let s = ip_text(ip);
    let ab = decimal(ip.a as nat) + seq!['.'] + decimal(ip.b as nat) + seq!['.'];
    let abc = ab + decimal(ip.c as nat) + seq!['.'];
    assert(forall|i: int|
        0 <= i < ab.len() ==> is_digit(#[trigger] ab[i]) || ab[i] == '.');
    assert(forall|i: int|
        0 <= i < abc.len() ==> is_digit(#[trigger] abc[i]) || abc[i] == '.');
    assert(s =~= abc + decimal(ip.d as nat));
    assert(s[0] == decimal(ip.a as nat)[0]);
}

/// What was written as `ip:port` is read as that endpoint, and as a bare line
/// it stands for every protocol.
pub proof fn endpoints_read_back(ip: Ipv4Addr, port: u16)
    ensures
        line_pair(endpoint_text(ip, port)) == Some((ip, port)),
        line_types(endpoint_text(ip, port)) == file_defaults(),
{
    let a = ip_text(ip);
    let b = decimal(port as nat);
    let s = endpoint_text(ip, port);
    reveal_strlit(":");
    assert(":"@ =~= seq![':']);
    lemma_ip_plain(ip);
    decimal_reads_back(port as nat, 65535);
    assert forall|i: int| 0 <= i < s.len() implies plain(#[trigger] s[i]) by {
        if i < a.len() {
            assert(s[i] == a[i]);
        } else if i > a.len() {
            assert(s[i] == b[i - a.len() - 1]);
            assert(is_digit(b[i - a.len() - 1]));
        }
    }
    lemma_plain(s);
    lemma_plain_head(s);
    lemma_plain_slashes(s);
    assert(s.take(s.len() as int) =~= s);
    reveal_strlit("http://");
    reveal_strlit("https://");
    reveal_strlit("socks4://");
    reveal_strlit("socks5://");
    assert(s[0] == a[0]);
    assert(is_digit(s[0]));
    lemma_no_prefix(s, "http://"@);
    lemma_no_prefix(s, "https://"@);
    lemma_no_prefix(s, "socks4://"@);
    lemma_no_prefix(s, "socks5://"@);
    assert(without_scheme(s) == s);
    assert(head_of(s) == s);
    lemma_fields_one(b, ':');
    lemma_fields_cons(a, ':', b);
    assert(fields(s, ':') =~= seq![a, b]);
    lemma_plain(a);
    lemma_plain(b);
    ip_text_reads_back(ip);
}

proof fn lemma_no_prefix(s: Seq<char>, prefix: Seq<char>)
    requires
        s.len() > 0,
        prefix.len() > 0,
        s[0] != prefix[0],
    ensures
        !begins(s, prefix),
{
    if begins(s, prefix) {
        assert(s.subrange(0, prefix.len() as int)[0] == s[0]);
    }
}

/// An endpoint is found behind a scheme, and before further fields, a blank or
/// a note: nothing around it changes what is read.
pub proof fn endpoints_are_found_in_their_line(
    scheme: Seq<char>,
    ip: Ipv4Addr,
    port: u16,
    more: Seq<char>,
    note: Seq<char>,
)
    requires
        scheme.len() > 0 ==> scheme.len() > 2 && scheme[scheme.len() - 2] == '/'
            && scheme[scheme.len() - 1] == '/' && !is_space(scheme[0]),
        forall|i: int| 0 <= i < scheme.len() ==> !ends_head(#[trigger] scheme[i]),
        more.len() > 0 ==> more[0] == ':',
        forall|i: int|
            0 <= i < more.len() ==> !ends_head(#[trigger] more[i]) && more[i] != '/' && !is_space(
                more[i],
            ),
        note.len() > 0 ==> ends_head(note[0]),
    ensures
        pair_of(scheme + endpoint_text(ip, port) + more + note) == Some((ip, port)),
{
    let e = endpoint_text(ip, port) + more;
    lemma_endpoint_and_more(ip, port, more);
    lemma_head_is(scheme, e, note);
    assert(scheme + endpoint_text(ip, port) + more + note =~= scheme + e + note);
}

proof fn lemma_endpoint_and_more(ip: Ipv4Addr, port: u16, more: Seq<char>)
    requires
        more.len() > 0 ==> more[0] == ':',
        forall|i: int|
            0 <= i < more.len() ==> !ends_head(#[trigger] more[i]) && more[i] != '/' && !is_space(
                more[i],
            ),
    ensures
        ({
            let e = endpoint_text(ip, port) + more;
            &&& e.len() > 0
            &&& forall|i: int|
                0 <= i < e.len() ==> !ends_head(#[trigger] e[i]) && e[i] != '/' && !is_space(e[i])
            &&& fields(e, ':').len() >= 2
            &&& read_ip(trimmed(fields(e, ':')[0])) == Some(ip)
            &&& read_number(trimmed(fields(e, ':')[1]), 65535) == Some(port as nat)
        }),
{
    let a = ip_text(ip);
    let b = decimal(port as nat);
    let e = endpoint_text(ip, port) + more;
    reveal_strlit(":");
    assert(":"@ =~= seq![':']);
    lemma_ip_plain(ip);
    decimal_reads_back(port as nat, 65535);
    assert forall|i: int| 0 <= i < e.len() implies !ends_head(#[trigger] e[i]) && e[i] != '/'
        && !is_space(e[i]) by {
        if i < a.len() {
            assert(e[i] == a[i]);
        } else if i > a.len() && i < a.len() + 1 + b.len() {
            assert(e[i] == b[i - a.len() - 1]);
            assert(is_digit(b[i - a.len() - 1]));
        } else if i > a.len() {
            assert(e[i] == more[i - a.len() - 1 - b.len()]);
        }
    }
    lemma_digits_only(b);
    assert(forall|j: int| 0 <= j < b.len() ==> b[j] != ':');
    lemma_fields_cons(a, ':', b + more);
    assert(e =~= a + seq![':'] + (b + more));
    if more.len() == 0 {
        assert(b + more =~= b);
        lemma_fields_one(b, ':');
    } else {
        let tail = more.skip(1);
        assert(b + more =~= b + seq![':'] + tail);
        lemma_fields_cons(b, ':', tail);
    }
    assert(fields(e, ':')[0] == a && fields(e, ':')[1] == b);
    assert(forall|i: int| 0 <= i < a.len() ==> plain(#[trigger] a[i]));
    lemma_plain(a);
    lemma_plain(b);
    ip_text_reads_back(ip);
}

proof fn lemma_digits_only(b: Seq<char>)
    requires
        all_digits(b),
    ensures
        forall|j: int| 0 <= j < b.len() ==> plain(#[trigger] b[j]) && b[j] != ':',
{
    assert forall|j: int| 0 <= j < b.len() implies plain(#[trigger] b[j]) && b[j] != ':' by {
        assert(is_digit(b[j]));
    }
}

proof fn lemma_head_is(scheme: Seq<char>, e: Seq<char>, note: Seq<char>)
    requires
        scheme.len() > 0 ==> scheme.len() > 2 && scheme[scheme.len() - 2] == '/'
            && scheme[scheme.len() - 1] == '/' && !is_space(scheme[0]),
        forall|i: int| 0 <= i < scheme.len() ==> !ends_head(#[trigger] scheme[i]),
        e.len() > 0,
        forall|i: int|
            0 <= i < e.len() ==> !ends_head(#[trigger] e[i]) && e[i] != '/' && !is_space(e[i]),
        note.len() > 0 ==> ends_head(note[0]),
    ensures
        head_of(scheme + e + note) == e,
{
    let head = scheme + e;
    let s = head + note;
    let n = head.len() as int;
    assert forall|i: int| 0 <= i < n implies !ends_head(#[trigger] head[i]) by {
        if i < scheme.len() {
            assert(head[i] == scheme[i]);
        } else {
            assert(head[i] == e[i - scheme.len()]);
        }
    }
    let last = e[e.len() - 1];
    assert(head[n - 1] == last && !is_space(last));
    assert(!is_space(head[0])) by {
        if scheme.len() == 0 {
            assert(head[0] == e[0]);
        } else {
            assert(head[0] == scheme[0]);
        }
    }
    assert(s[0] == head[0] && s[n - 1] == head[n - 1]);
    let (x, y) = trimming_takes_the_outer_blanks(s);
    assert(x == 0) by {
        if x > 0 {
            assert(is_space(s[0]));
        }
    }
    let t = trimmed(s);
    assert(y >= n) by {
        if y < n {
            assert(is_space(s[n - 1]));
        }
    }
    assert(t =~= s.take(y));
    assert forall|i: int| 0 <= i < n implies !ends_head(#[trigger] t[i]) by {
        assert(t[i] == head[i]);
    }
    if n < t.len() {
        assert(t[n] == note[0]);
    }
    lemma_head_reaches(t, n);
    assert(t.take(n) =~= head);
    lemma_unblanked(head);
    lemma_last_slashes(scheme, e);
    assert(head.skip(scheme.len() as int) =~= e);
}

proof fn lemma_unblanked(s: Seq<char>)
    requires
        s.len() > 0,
        !is_space(s[0]),
        !is_space(s[s.len() - 1]),
    ensures
        trimmed(s) == s,
{
    assert(s.last() == s[s.len() - 1]);
}

proof fn lemma_head_reaches(s: Seq<char>, n: int)
    requires
        0 <= n <= s.len(),
        forall|i: int| 0 <= i < n ==> !ends_head(#[trigger] s[i]),
        n < s.len() ==> ends_head(s[n]),
    ensures
        head_len(s) == n,
    decreases s.len(),
{
    if n > 0 {
        let t = s.drop_first();
        assert forall|i: int| 0 <= i < n - 1 implies !ends_head(#[trigger] t[i]) by {
            assert(t[i] == s[i + 1]);
        }
        lemma_head_reaches(t, n - 1);
    }
}

proof fn lemma_last_slashes(scheme: Seq<char>, e: Seq<char>)
    requires
        scheme.len() > 0 ==> scheme.len() > 2 && scheme[scheme.len() - 2] == '/'
            && scheme[scheme.len() - 1] == '/',
        forall|i: int| 0 <= i < e.len() ==> #[trigger] e[i] != '/',
    ensures
        scheme.len() > 0 ==> last_slashes(scheme + e) == scheme.len() - 2,
        scheme.len() == 0 ==> last_slashes(scheme + e) == -1,
    decreases e.len(),
{
    let s = scheme + e;
    if e.len() == 0 {
        assert(s =~= scheme);
    } else if s.len() >= 2 {
        assert(s.last() == e.last());
        assert(s.drop_last() =~= scheme + e.drop_last());
        lemma_last_slashes(scheme, e.drop_last());
    }
}

/// A scheme pins the protocol of its line, and the endpoint is the one behind
/// it.
pub proof fn schemes_pin_their_protocol(ip: Ipv4Addr, port: u16)
    ensures
        line_pair("http://"@ + endpoint_text(ip, port)) == Some((ip, port)),
        line_types("http://"@ + endpoint_text(ip, port)) == seq![
            Protocol::Http(Anonymity::Unknown),
        ],
        line_pair("https://"@ + endpoint_text(ip, port)) == Some((ip, port)),
        line_types("https://"@ + endpoint_text(ip, port)) == seq![
            Protocol::Https(Anonymity::Unknown),
        ],
        line_pair("socks4://"@ + endpoint_text(ip, port)) == Some((ip, port)),
        line_types("socks4://"@ + endpoint_text(ip, port)) == seq![Protocol::Socks4],
        line_pair("socks5://"@ + endpoint_text(ip, port)) == Some((ip, port)),
        line_types("socks5://"@ + endpoint_text(ip, port)) == seq![Protocol::Socks5],
{
    lemma_http_pins(ip, port);
    lemma_https_pins(ip, port);
    lemma_socks4_pins(ip, port);
    lemma_socks5_pins(ip, port);
}

proof fn lemma_http_pins(ip: Ipv4Addr, port: u16)
    ensures
        line_pair("http://"@ + endpoint_text(ip, port)) == Some((ip, port)),
        line_types("http://"@ + endpoint_text(ip, port)) == seq![Protocol::Http(Anonymity::Unknown)],
{
    reveal_strlit("http://");
    reveal_strlit("http");
    let s = "http://"@ + endpoint_text(ip, port);
    lemma_behind_scheme("http://"@, ip, port);
    lemma_small_letters("http"@);
    words_name_protocols("http"@);
    assert(scheme_of(s) == Some("http"@));
    assert(advertised(Some("http"@)) == seq![Protocol::Http(Anonymity::Unknown)]);
}

proof fn lemma_https_pins(ip: Ipv4Addr, port: u16)
    ensures
        line_pair("https://"@ + endpoint_text(ip, port)) == Some((ip, port)),
        line_types("https://"@ + endpoint_text(ip, port)) == seq![Protocol::Https(Anonymity::Unknown)],
{
    reveal_strlit("https://");
    reveal_strlit("https");
    let s = "https://"@ + endpoint_text(ip, port);
    lemma_behind_scheme("https://"@, ip, port);
    reveal_strlit("http://");
    lemma_not_other(s, "http://"@, 4);
    lemma_small_letters("https"@);
    words_name_protocols("https"@);
    assert(scheme_of(s) == Some("https"@));
    assert(advertised(Some("https"@)) == seq![Protocol::Https(Anonymity::Unknown)]);
}

proof fn lemma_socks4_pins(ip: Ipv4Addr, port: u16)
    ensures
        line_pair("socks4://"@ + endpoint_text(ip, port)) == Some((ip, port)),
        line_types("socks4://"@ + endpoint_text(ip, port)) == seq![Protocol::Socks4],
{
    reveal_strlit("socks4://");
    reveal_strlit("socks4");
    let s = "socks4://"@ + endpoint_text(ip, port);
    lemma_behind_scheme("socks4://"@, ip, port);
    reveal_strlit("http://");
    lemma_not_other(s, "http://"@, 0);
    reveal_strlit("https://");
    lemma_not_other(s, "https://"@, 0);
    lemma_small_letters("socks4"@);
    words_name_protocols("socks4"@);
    assert(scheme_of(s) == Some("socks4"@));
    assert(advertised(Some("socks4"@)) == seq![Protocol::Socks4]);
}

proof fn lemma_socks5_pins(ip: Ipv4Addr, port: u16)
    ensures
        line_pair("socks5://"@ + endpoint_text(ip, port)) == Some((ip, port)),
        line_types("socks5://"@ + endpoint_text(ip, port)) == seq![Protocol::Socks5],
{
    reveal_strlit("socks5://");
    reveal_strlit("socks5");
    let s = "socks5://"@ + endpoint_text(ip, port);
    lemma_behind_scheme("socks5://"@, ip, port);
    reveal_strlit("http://");
    lemma_not_other(s, "http://"@, 0);
    reveal_strlit("https://");
    lemma_not_other(s, "https://"@, 0);
    reveal_strlit("socks4://");
    lemma_not_other(s, "socks4://"@, 5);
    lemma_small_letters("socks5"@);
    words_name_protocols("socks5"@);
    assert(scheme_of(s) == Some("socks5"@));
    assert(advertised(Some("socks5"@)) == seq![Protocol::Socks5]);
}

proof fn lemma_small_letters(s: Seq<char>)
    requires
        s.len() > 0,
        forall|i: int| 0 <= i < s.len() ==> 'a' <= #[trigger] s[i] <= 'z' || is_digit(s[i]),
    ensures
        lowered(trimmed(s)) == s,
{
    assert('a' <= s[0] <= 'z' || is_digit(s[0]));
    let last = s[s.len() - 1];
    assert('a' <= last <= 'z' || is_digit(last));
    assert(trimmed(s) == s);
    assert(lowered(s) =~= s);
}

proof fn lemma_not_other(s: Seq<char>, prefix: Seq<char>, i: int)
    requires
        0 <= i < prefix.len(),
        i < s.len(),
        s[i] != prefix[i],
    ensures
        !begins(s, prefix),
{
    if begins(s, prefix) {
        assert(s.subrange(0, prefix.len() as int)[i] == s[i]);
    }
}

proof fn lemma_behind_scheme(scheme: Seq<char>, ip: Ipv4Addr, port: u16)
    requires
        scheme.len() > 0,
        !is_space(scheme[0]),
    ensures
        ({
            let s = scheme + endpoint_text(ip, port);
            &&& trimmed(s) == s
            &&& s.len() > 0
            &&& begins(s, scheme)
            &&& s.skip(scheme.len() as int) == endpoint_text(ip, port)
            &&& pair_of(endpoint_text(ip, port)) == Some((ip, port))
        }),
{
    let e = endpoint_text(ip, port);
    let s = scheme + e;
    let b = decimal(port as nat);
    decimal_reads_back(port as nat, 65535);
    assert(s.last() == b.last());
    assert(is_digit(b[b.len() - 1]));
    assert(s[0] == scheme[0]);
    assert(trimmed(s) == s);
    assert(s.subrange(0, scheme.len() as int) =~= scheme);
    assert(s.skip(scheme.len() as int) =~= e);
    endpoints_are_found_in_their_line(Seq::empty(), ip, port, Seq::empty(), Seq::empty());
    assert(Seq::empty() + e + Seq::empty() + Seq::empty() =~= e);
}

/// Every line with an endpoint is read, in order, and the others are skipped.
pub proof fn every_written_line_is_read(a: Seq<Seq<char>>, line: Seq<char>, b: Seq<Seq<char>>)
    ensures
        read_lines(a + b) == read_lines(a) + read_lines(b),
        line_pair(line) is Some ==> read_lines(seq![line]) == seq![line],
        line_pair(line) is None ==> read_lines(seq![line]) == Seq::<Seq<char>>::empty(),
    decreases a.len(),
{
    let one = seq![line];
    assert(one.drop_first() =~= Seq::<Seq<char>>::empty());
    assert(read_lines(one.drop_first()) =~= Seq::<Seq<char>>::empty());
    if line_pair(line) is Some {
        assert(read_lines(one) =~= one);
    }
    if a.len() == 0 {
        assert(a + b =~= b);
        assert(read_lines(a) + read_lines(b) =~= read_lines(b));
    } else {
        every_written_line_is_read(a.drop_first(), line, b);
        assert((a + b).drop_first() =~= a.drop_first() + b);
        assert((a + b)[0] == a[0]);
        assert(read_lines(a + b) =~= read_lines(a) + read_lines(b));
    }
}

/// A written endpoint holds digits, dots and a colon, and begins and ends in a
/// digit.
pub proof fn endpoints_hold_plain_characters(ip: Ipv4Addr, port: u16)
    ensures
        ({
            let e = endpoint_text(ip, port);
            &&& e.len() > 0
            &&& is_digit(e[0])
            &&& is_digit(e[e.len() - 1])
            &&& forall|j: int|
                0 <= j < e.len() ==> is_digit(#[trigger] e[j]) || e[j] == '.' || e[j] == ':'
        }),
{
    let a = ip_text(ip);
    let b = decimal(port as nat);
    let e = endpoint_text(ip, port);
    reveal_strlit(":");
    lemma_ip_plain(ip);
    decimal_reads_back(port as nat, 65535);
    assert(e[0] == a[0]);
    assert(e[e.len() - 1] == b[b.len() - 1]);
    assert(is_digit(b[b.len() - 1]));
    assert forall|j: int| 0 <= j < e.len() implies is_digit(#[trigger] e[j]) || e[j] == '.' || e[j]
        == ':' by {
        if j < a.len() {
            assert(e[j] == a[j]);
        } else if j > a.len() {
            assert(e[j] == b[j - a.len() - 1]);
            assert(is_digit(b[j - a.len() - 1]));
        }
    }
}

} // verus!
