//! Fetching a provider's body: redirects, the size limit and decoding.
//!
//! `Fetch` decides; whoever sends the requests hands it each response head and
//! each piece of a body.

use crate::providers::parsers::utf8_string;
use crate::text::{list_contains, texts, lemma_texts_push};
use vstd::prelude::*;
use vstd::slice::slice_subrange;
use vstd::string::*;
use vstd::utf8::*;

verus! {

/// Bytes that a provider's body may have.
pub const MAX_SOURCE_BODY_BYTES: usize = 8388608;

/// Redirects that a fetch may follow.
pub const MAX_REDIRECTS: usize = 10;

/// Why a fetch is given up.
#[derive(Clone, Debug)]
pub enum FetchError {
    /// The address is none.
    InvalidUrl(String),
    /// A redirect leads to an address that was fetched before.
    RedirectLoop(String),
    /// A redirect's target is no text.
    LocationNotText(String),
    /// A redirect's target is no address.
    InvalidLocation(String, String),
    /// One redirect too many.
    TooManyRedirects,
    /// The body is too large.
    BodyTooLarge(String),
    /// The body is not UTF-8.
    NotUtf8,
}

/// An address in its canonical text form, where the text is an address.
pub uninterp spec fn url_form(text: Seq<char>) -> Option<Seq<char>>;

/// An address given relative to another, in canonical form.
pub uninterp spec fn url_joined(base: Seq<char>, text: Seq<char>) -> Option<Seq<char>>;

/// `url::Url::parse`: the canonical form is a function of the text.
#[verifier::external_body]
fn parse_url(text: &str) -> (r: Option<String>)
    ensures
        r.deep_view() == url_form(text@),
{
    url::Url::parse(text).ok().map(String::from)
}

/// `url::Url::join` on a base in canonical form: the canonical form of the
/// target is a function of both texts.
#[verifier::external_body]
fn join_url(base: &str, text: &str) -> (r: Option<String>)
    ensures
        r.deep_view() == url_joined(base@, text@),
{
    url::Url::parse(base).ok()?.join(text).ok().map(String::from)
}

// ---------------------------------------------------------------------------
// Decoding piece by piece
// ---------------------------------------------------------------------------

/// Bytes that begin a character and could be completed to it.
pub open spec fn begun_char(tail: Seq<u8>) -> bool {
    &&& 1 <= tail.len() <= 3
    &&& !valid_first_scalar(tail)
    &&& exists|more: Seq<u8>| #[trigger] valid_utf8(tail + more)
}

/// Bytes that are text up to a position, and behind it a begun character or
/// nothing.
pub open spec fn text_up_to(bytes: Seq<u8>, n: int) -> bool {
    &&& 0 <= n <= bytes.len()
    &&& valid_utf8(bytes.take(n))
    &&& n == bytes.len() || begun_char(bytes.skip(n))
}

/// `core::str::from_utf8` and the `valid_up_to` and `error_len` of its error:
/// how many leading bytes are text, where what follows them is nothing or a
/// character cut off at the end; `None` where some byte can belong to no text.
#[verifier::external_body]
fn text_prefix(bytes: &[u8]) -> (r: Option<usize>)
    ensures
        match r {
            Some(n) => text_up_to(bytes@, n as int),
            None => forall|n: int| !#[trigger] text_up_to(bytes@, n),
        },
{
    match core::str::from_utf8(bytes) {
        Ok(text) => Some(text.len()),
        Err(error) => match error.error_len() {
            None => Some(error.valid_up_to()),
            Some(_) => None,
        },
    }
}

/// Decoding bytes behind a text: the text grows by what they hold of complete
/// characters, and a begun one is left over.
pub open spec fn decoded_to(
    before: Seq<char>,
    bytes: Seq<u8>,
    after: Seq<char>,
    left: Seq<u8>,
) -> bool {
    exists|n: int| #[trigger]
        text_up_to(bytes, n) && after == before + decode_utf8(bytes.take(n)) && left == bytes.skip(
            n,
        )
}

/// The bytes that have come so far: those decoded, then those pending.
pub open spec fn received(content: Seq<char>, pending: Seq<u8>) -> Seq<u8> {
    encode_utf8(content) + pending
}

/// Decoding a text and encoding it again, in two parts.
pub proof fn lemma_encode_concat(a: Seq<char>, b: Seq<char>)
    ensures
        encode_utf8(a + b) == encode_utf8(a) + encode_utf8(b),
    decreases a.len(),
{
    if a.len() == 0 {
        assert(a + b =~= b);
        assert(encode_utf8(a) + encode_utf8(b) =~= encode_utf8(b));
    } else {
        lemma_encode_concat(a.drop_first(), b);
        assert((a + b).drop_first() =~= a.drop_first() + b);
        assert(encode_utf8(a + b) =~= encode_utf8(a) + encode_utf8(b));
    }
}

/// Decodes what came before and the next piece as far as it goes; a character
/// cut off at the end waits for the next piece. No byte is lost or added.
pub fn append_utf8(content: &mut String, pending: &mut Vec<u8>, bytes: &[u8]) -> (r: Result<
    (),
    FetchError,
>)
    requires
        old(pending)@.len() == 0 || begun_char(old(pending)@),
    ensures
        match r {
            Ok(_) => {
                &&& decoded_to(
                    old(content)@,
                    old(pending)@ + bytes@,
                    final(content)@,
                    final(pending)@,
                )
                &&& received(final(content)@, final(pending)@) == received(
                    old(content)@,
                    old(pending)@,
                ) + bytes@
                &&& final(pending)@.len() == 0 || begun_char(final(pending)@)
            },
            Err(e) => {
                &&& e is NotUtf8
                &&& final(content)@ == old(content)@
                &&& final(pending)@ == old(pending)@
                &&& forall|n: int| !#[trigger] text_up_to(old(pending)@ + bytes@, n)
            },
        },
{
    let mut buf: Vec<u8> = Vec::new();
    buf.extend_from_slice(pending.as_slice());
    buf.extend_from_slice(bytes);
    assert(buf@ =~= pending@ + bytes@);
    match text_prefix(buf.as_slice()) {
        None => Err(FetchError::NotUtf8),
        Some(n) => {
            let head = slice_subrange(buf.as_slice(), 0, n);
            let tail = slice_subrange(buf.as_slice(), n, buf.len());
            let ghost before = content@;
            let ghost waiting = pending@;
            assert(head@ =~= buf@.take(n as int));
            assert(tail@ =~= buf@.skip(n as int));
            let mut text_bytes: Vec<u8> = Vec::new();
            text_bytes.extend_from_slice(head);
            assert(text_bytes@ =~= head@);
            match utf8_string(text_bytes) {
                None => Err(FetchError::NotUtf8),
                Some(text) => {
                    content.append(text.as_str());
                    let mut rest: Vec<u8> = Vec::new();
                    rest.extend_from_slice(tail);
                    assert(rest@ =~= tail@);
                    *pending = rest;
                    proof {
                        lemma_encode_concat(before, text@);
                        decode_utf8_encode_utf8(head@);
                        assert(encode_utf8(text@) == head@);
                        assert(head@ + tail@ =~= waiting + bytes@);
                        assert(received(content@, pending@) =~= received(before, waiting)
                            + bytes@);
                        assert(text_up_to(waiting + bytes@, n as int));
                    }
                    Ok(())
                },
            }
        },
    }
}

// ---------------------------------------------------------------------------
// The fetch
// ---------------------------------------------------------------------------

/// A fetch under way.
pub struct Fetch {
    /// The address that is to be requested now.
    pub url: String,
    /// The address that sent us here.
    pub referer: Option<String>,
    /// The addresses requested so far, the current one last.
    pub visited: Vec<String>,
    /// Redirects followed so far.
    pub redirects: usize,
    /// The text decoded so far.
    pub content: String,
    /// The bytes of a character that is not complete yet.
    pub pending: Vec<u8>,
}

/// What comes next.
#[derive(Clone, Copy, Debug, PartialEq, Eq, Structural)]
pub enum FetchNext {
    /// The fetch was redirected: request the new address.
    Request,
    /// The response is final: read its body.
    ReadBody,
}

/// The target that a response names: its text, or nothing where it is no text.
pub type Location = Option<Option<String>>;

/// No text occurs twice in a list.
pub open spec fn no_repeat(v: Seq<Seq<char>>) -> bool {
    forall|i: int, j: int| 0 <= i < j < v.len() ==> v[i] != v[j]
}

impl Fetch {
    /// No address is requested twice, no more redirects are followed than
    /// allowed, and the body stays within its limit.
    pub open spec fn wf(self) -> bool {
        &&& self.visited@.len() == self.redirects + 1
        &&& self.redirects <= MAX_REDIRECTS
        &&& no_repeat(texts(self.visited@))
        &&& texts(self.visited@).last() == self.url@
        &&& self.pending@.len() == 0 || begun_char(self.pending@)
        &&& received(self.content@, self.pending@).len() <= MAX_SOURCE_BODY_BYTES + 3
    }

    /// Starts a fetch.
    pub fn start(url: &str) -> (r: Result<Fetch, FetchError>)
        ensures
            match r {
                Ok(f) => {
                    &&& f.wf()
                    &&& url_form(url@) == Some(f.url@)
                    &&& f.referer is None
                    &&& f.redirects == 0
                    &&& f.content@.len() == 0
                    &&& f.pending@.len() == 0
                },
                Err(e) => url_form(url@) is None && (e matches FetchError::InvalidUrl(u) && u@
                    == url@),
            },
    {
        match parse_url(url) {
            None => Err(FetchError::InvalidUrl(url.to_owned())),
            Some(form) => {
                let visited = vec![form.clone()];
                let f = Fetch {
                    url: form,
                    referer: None,
                    visited,
                    redirects: 0,
                    content: String::new(),
                    pending: Vec::new(),
                };
                assert(received(f.content@, f.pending@).len() == 0);
                Ok(f)
            },
        }
    }

    /// Whether a response is followed: a redirection status with a target.
    pub open spec fn redirected(status: u16, location: Location) -> bool {
        300 <= status <= 399 && location is Some
    }

    /// Takes the head of a response. A target that a redirection names is
    /// requested next, unless it is no text or no address, one too many, or
    /// was requested before.
    pub fn on_response(&mut self, status: u16, location: Location) -> (r: Result<
        FetchNext,
        FetchError,
    >)
        requires
            old(self).wf(),
        ensures
            final(self).wf(),
            final(self).content@ == old(self).content@,
            final(self).pending@ == old(self).pending@,
            !Fetch::redirected(status, location) ==> r == Ok::<FetchNext, FetchError>(
                FetchNext::ReadBody,
            ) && *final(self) == *old(self),
            Fetch::redirected(status, location) ==> match location->0 {
                None => r matches Err(FetchError::LocationNotText(u)) && u@ == old(self).url@,
                Some(target) => match url_joined(old(self).url@, target@) {
                    None => r matches Err(FetchError::InvalidLocation(u, t)) && u@
                        == old(self).url@ && t@ == target@,
                    Some(next) => if old(self).redirects >= MAX_REDIRECTS {
                        r matches Err(FetchError::TooManyRedirects)
                    } else if texts(old(self).visited@).contains(next) {
                        r matches Err(FetchError::RedirectLoop(u)) && u@ == next
                    } else {
                        &&& r == Ok::<FetchNext, FetchError>(FetchNext::Request)
                        &&& final(self).url@ == next
                        &&& final(self).referer matches Some(u) && u@ == old(self).url@
                        &&& final(self).redirects == old(self).redirects + 1
                        &&& texts(final(self).visited@) == texts(old(self).visited@).push(next)
                    },
                },
            },
            r is Err ==> *final(self) == *old(self),
    {
        if status < 300 || status > 399 {
            return Ok(FetchNext::ReadBody);
        }
        match location {
            None => Ok(FetchNext::ReadBody),
            Some(None) => Err(FetchError::LocationNotText(self.url.clone())),
            Some(Some(target)) => {
                let next = join_url(self.url.as_str(), target.as_str());
                self.redirect(target, next)
            },
        }
    }

    /// Takes the target that a redirection names, and the address that it
    /// makes where it makes one.
    pub fn redirect(&mut self, target: String, next: Option<String>) -> (r: Result<
        FetchNext,
        FetchError,
    >)
        requires
            old(self).wf(),
        ensures
            final(self).wf(),
            final(self).content@ == old(self).content@,
            final(self).pending@ == old(self).pending@,
            match next {
                None => r matches Err(FetchError::InvalidLocation(u, t)) && u@ == old(self).url@
                    && t@ == target@,
                Some(next) => if old(self).redirects >= MAX_REDIRECTS {
                    r matches Err(FetchError::TooManyRedirects)
                } else if texts(old(self).visited@).contains(next@) {
                    r matches Err(FetchError::RedirectLoop(u)) && u@ == next@
                } else {
                    &&& r == Ok::<FetchNext, FetchError>(FetchNext::Request)
                    &&& final(self).url@ == next@
                    &&& final(self).referer matches Some(u) && u@ == old(self).url@
                    &&& final(self).redirects == old(self).redirects + 1
                    &&& texts(final(self).visited@) == texts(old(self).visited@).push(next@)
                },
            },
            r is Err ==> *final(self) == *old(self),
    {
        match next {
            None => Err(FetchError::InvalidLocation(self.url.clone(), target)),
            Some(next) => {
                if self.redirects >= MAX_REDIRECTS {
                    return Err(FetchError::TooManyRedirects);
                }
                if list_contains(&self.visited, next.as_str()) {
                    return Err(FetchError::RedirectLoop(next));
                }
                let ghost before = texts(self.visited@);
                let again = next.clone();
                proof {
                    lemma_texts_push(self.visited@, again);
                    assert forall|i: int, j: int|
                        0 <= i < j < before.push(next@).len() implies before.push(next@)[i]
                        != before.push(next@)[j] by {
                        if j == before.len() {
                            assert(before.contains(before[i]));
                        }
                    }
                }
                self.visited.push(again);
                let from = self.url.clone();
                self.referer = Some(from);
                self.url = next;
                self.redirects = self.redirects + 1;
                Ok(FetchNext::Request)
            },
        }
    }

    /// Takes a piece of the body. It is refused where the text decoded so far
    /// and the piece are together over the limit, or where it breaks UTF-8.
    pub fn on_chunk(&mut self, chunk: &[u8]) -> (r: Result<(), FetchError>)
        requires
            old(self).wf(),
        ensures
            final(self).wf(),
            final(self).url == old(self).url,
            final(self).referer == old(self).referer,
            final(self).visited == old(self).visited,
            final(self).redirects == old(self).redirects,
            match r {
                Ok(_) => {
                    &&& encode_utf8(old(self).content@).len() + chunk@.len()
                        <= MAX_SOURCE_BODY_BYTES
                    &&& decoded_to(
                        old(self).content@,
                        old(self).pending@ + chunk@,
                        final(self).content@,
                        final(self).pending@,
                    )
                    &&& received(final(self).content@, final(self).pending@) == received(
                        old(self).content@,
                        old(self).pending@,
                    ) + chunk@
                },
                Err(e) => {
                    &&& final(self).content@ == old(self).content@
                    &&& final(self).pending@ == old(self).pending@
                    &&& if encode_utf8(old(self).content@).len() + chunk@.len()
                        > MAX_SOURCE_BODY_BYTES {
                        e matches FetchError::BodyTooLarge(u) && u@ == old(self).url@
                    } else {
                        e is NotUtf8 && forall|n: int|
                            !#[trigger] text_up_to(old(self).pending@ + chunk@, n)
                    }
                },
            },
    {
        proof {
            assert(received(self.content@, self.pending@).len() == encode_utf8(self.content@).len()
                + self.pending@.len());
        }
        let have: usize = self.content.as_str().len();
        if have > MAX_SOURCE_BODY_BYTES || chunk.len() > MAX_SOURCE_BODY_BYTES - have {
            return Err(FetchError::BodyTooLarge(self.url.clone()));
        }
        append_utf8(&mut self.content, &mut self.pending, chunk)
    }

    /// The whole body, where it does not end within a character.
    pub fn finish(self) -> (r: Result<String, FetchError>)
        requires
            self.wf(),
        ensures
            match r {
                Ok(text) => self.pending@.len() == 0 && text@ == self.content@
                    && encode_utf8(text@) == received(self.content@, self.pending@),
                Err(e) => self.pending@.len() > 0 && e is NotUtf8,
            },
    {
        if self.pending.len() > 0 {
            return Err(FetchError::NotUtf8);
        }
        assert(received(self.content@, self.pending@) =~= encode_utf8(self.content@));
        Ok(self.content)
    }
}

impl FetchError {
    /// The error as a message.
    pub fn to_text(&self) -> (s: String)
        ensures
            s@ == fetch_error_text(*self),
    {
        match self {
            FetchError::InvalidUrl(u) => quoted("invalid provider URL `", u.as_str()),
            FetchError::RedirectLoop(u) => {
                let mut s = "redirect loop detected at ".to_owned();
                s.append(u.as_str());
                s
            },
            FetchError::LocationNotText(u) => {
                let mut s = u.clone();
                s.append(" returned a non-utf8 Location header");
                s
            },
            FetchError::InvalidLocation(u, t) => {
                let mut s = u.clone();
                s.append(" returned invalid redirect Location `");
                s.append(t.as_str());
                s.append("`");
                s
            },
            FetchError::TooManyRedirects => "too many redirects (max 10)".to_owned(),
            FetchError::BodyTooLarge(u) => {
                let mut s = "response body from ".to_owned();
                s.append(u.as_str());
                s.append(" exceeds 8388608 bytes");
                s
            },
            FetchError::NotUtf8 => "provider response body is not valid UTF-8".to_owned(),
        }
    }
}

fn quoted(before: &str, value: &str) -> (s: String)
    ensures
        s@ == before@ + value@ + "`"@,
{
    let mut s = before.to_owned();
    s.append(value);
    s.append("`");
    s
}

/// What a fetch that was given up is answered.
pub open spec fn fetch_error_text(e: FetchError) -> Seq<char> {
    match e {
        FetchError::InvalidUrl(u) => "invalid provider URL `"@ + u@ + "`"@,
        FetchError::RedirectLoop(u) => "redirect loop detected at "@ + u@,
        FetchError::LocationNotText(u) => u@ + " returned a non-utf8 Location header"@,
        FetchError::InvalidLocation(u, t) => u@ + " returned invalid redirect Location `"@ + t@
            + "`"@,
        FetchError::TooManyRedirects => "too many redirects (max 10)"@,
        FetchError::BodyTooLarge(u) => "response body from "@ + u@ + " exceeds 8388608 bytes"@,
        FetchError::NotUtf8 => "provider response body is not valid UTF-8"@,
    }
}

/// A response leads elsewhere with a status of the three hundreds and a
/// location; no other does.
pub proof fn redirects_are_three_hundreds(status: u16, location: Location)
    ensures
        Fetch::redirected(status, location) <==> status / 100 == 3 && location is Some,
{
}

/// A fetch follows ten redirects and reads eight mebibytes, and no more; and
/// while it is under way no address is asked twice.
pub proof fn fetches_are_bounded(f: Fetch, i: int, j: int)
    requires
        f.wf(),
        0 <= i < j < f.visited@.len(),
    ensures
        f.redirects <= 10,
        f.visited@.len() <= 11,
        f.visited@[i]@ != f.visited@[j]@,
        received(f.content@, f.pending@).len() <= 8 * 1024 * 1024 + 3,
{
    assert(texts(f.visited@)[i] != texts(f.visited@)[j]);
}

/// Decoding loses no byte: what was decoded and what is left over are the bytes
/// that came, behind the text that was there; and what is left over is no more
/// than a begun character.
pub proof fn decoding_loses_nothing(
    before: Seq<char>,
    bytes: Seq<u8>,
    after: Seq<char>,
    left: Seq<u8>,
)
    requires
        decoded_to(before, bytes, after, left),
    ensures
        encode_utf8(after) + left == encode_utf8(before) + bytes,
        left.len() <= 3,
        before.is_prefix_of(after),
        left.len() > 0 ==> !valid_first_scalar(left),
{
    let n = choose|n: int| #[trigger]
        text_up_to(bytes, n) && after == before + decode_utf8(bytes.take(n)) && left == bytes.skip(
            n,
        );
    let head = bytes.take(n);
    decode_utf8_encode_utf8(head);
    lemma_encode_concat(before, decode_utf8(head));
    assert(head + bytes.skip(n) =~= bytes);
    assert(encode_utf8(after) + left =~= encode_utf8(before) + bytes);
}

} // verus!
