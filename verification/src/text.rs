//! Text as the library reads it: sequences of characters, taken apart by
//! separators, trimmed, compared and read as numbers.
//!
//! The executable functions work on slices of characters, so that a position
//! found in a text can be used to cut it.

use vstd::prelude::*;
use vstd::slice::slice_subrange;

verus! {

// ---------------------------------------------------------------------------
// Strings and their characters
// ---------------------------------------------------------------------------

/// `String::push`: the string grows by the one character.
pub assume_specification[ String::push ](s: &mut String, c: char)
    ensures
        final(s)@ == old(s)@.push(c),
;

/// The texts a list of strings holds.
pub open spec fn texts(v: Seq<String>) -> Seq<Seq<char>> {
    Seq::new(v.len(), |i: int| v[i]@)
}

pub proof fn lemma_texts_push(v: Seq<String>, s: String)
    ensures
        texts(v.push(s)) == texts(v).push(s@),
{
    assert(texts(v.push(s)) =~= texts(v).push(s@));
}

/// The characters of a string slice.
pub fn chars_of(s: &str) -> (v: Vec<char>)
    ensures
        v@ == s@,
{
    let mut v: Vec<char> = Vec::new();
    for c in it: s.chars()
        invariant
            it.seq() == s@,
            v@ == it.seq().take(it.index() as int),
    {
        v.push(c);
    }
    v
}

/// The string made of the given characters.
pub fn string_of(v: &[char]) -> (s: String)
    ensures
        s@ == v@,
{
    let mut s = String::new();
    push_chars(&mut s, v);
    s
}

/// Appends the given characters to a string.
pub fn push_chars(s: &mut String, v: &[char])
    ensures
        final(s)@ == old(s)@ + v@,
{
    let ghost before = s@;
    let mut i: usize = 0;
    while i < v.len()
        invariant
            i <= v.len(),
            s@ == before + v@.take(i as int),
        decreases v.len() - i,
    {
        s.push(v[i]);
        i += 1;
    }
    assert(v@.take(v.len() as int) == v@);
}

/// A copy of a string that reads the same.
pub fn copy_str(s: &str) -> (r: String)
    ensures
        r@ == s@,
{
    s.to_owned()
}

/// Copies a list of strings.
pub fn copy_strings(v: &Vec<String>) -> (r: Vec<String>)
    ensures
        texts(r@) == texts(v@),
{
    let mut r: Vec<String> = Vec::new();
    let mut i: usize = 0;
    while i < v.len()
        invariant
            i <= v.len(),
            texts(r@) == texts(v@).take(i as int),
        decreases v.len() - i,
    {
        proof {
            lemma_texts_push(r@, v@[i as int]);
        }
        r.push(v[i].clone());
        i += 1;
        assert(texts(r@) =~= texts(v@).take(i as int));
    }
    assert(texts(v@).take(v.len() as int) =~= texts(v@));
    r
}

/// Whether two strings read the same.
pub fn same(a: &str, b: &str) -> (r: bool)
    ensures
        r == (a@ == b@),
{
    let left = a.to_owned();
    let right = b.to_owned();
    left == right
}

/// Whether the characters read the same as the string.
pub fn reads(s: &[char], text: &str) -> (r: bool)
    ensures
        r == (s@ == text@),
{
    let t = chars_of(text);
    chars_eq(s, t.as_slice())
}

/// Whether two character slices are equal.
pub fn chars_eq(a: &[char], b: &[char]) -> (r: bool)
    ensures
        r == (a@ == b@),
{
    if a.len() != b.len() {
        return false;
    }
    let mut i: usize = 0;
    while i < a.len()
        invariant
            i <= a.len(),
            a.len() == b.len(),
            forall|j: int| 0 <= j < i ==> a@[j] == b@[j],
        decreases a.len() - i,
    {
        if a[i] != b[i] {
            assert(a@[i as int] != b@[i as int]);
            return false;
        }
        i += 1;
    }
    assert(a@ =~= b@);
    true
}

/// Position of the first string of a list that reads as given, or its length.
pub open spec fn index_of_text(v: Seq<Seq<char>>, t: Seq<char>) -> int
    decreases v.len(),
{
    if v.len() == 0 || v[0] == t {
        0
    } else {
        1 + index_of_text(v.drop_first(), t)
    }
}

pub proof fn lemma_index_of_text(v: Seq<Seq<char>>, t: Seq<char>, i: int)
    requires
        0 <= i <= v.len(),
        forall|j: int| 0 <= j < i ==> v[j] != t,
        i < v.len() ==> v[i] == t,
    ensures
        index_of_text(v, t) == i,
    decreases v.len(),
{
    if v.len() > 0 && i > 0 {
        assert(v[0] != t);
        let w = v.drop_first();
        assert forall|j: int| 0 <= j < i - 1 implies w[j] != t by {
            assert(w[j] == v[j + 1]);
        }
        lemma_index_of_text(w, t, i - 1);
    }
}

/// Whether some string of the list reads as given.
pub fn list_contains(v: &Vec<String>, t: &str) -> (r: bool)
    ensures
        r == texts(v@).contains(t@),
{
    let mut i: usize = 0;
    while i < v.len()
        invariant
            i <= v.len(),
            forall|j: int| 0 <= j < i ==> texts(v@)[j] != t@,
        decreases v.len() - i,
    {
        if same(v[i].as_str(), t) {
            assert(texts(v@)[i as int] == t@);
            return true;
        }
        i += 1;
    }
    false
}

// ---------------------------------------------------------------------------
// Character classes
// ---------------------------------------------------------------------------

/// The Unicode property `White_Space`.
pub open spec fn is_space(c: char) -> bool {
    let u = c as u32;
    ||| 0x9 <= u <= 0xd
    ||| u == 0x20
    ||| u == 0x85
    ||| u == 0xa0
    ||| u == 0x1680
    ||| 0x2000 <= u <= 0x200a
    ||| u == 0x2028
    ||| u == 0x2029
    ||| u == 0x202f
    ||| u == 0x205f
    ||| u == 0x3000
}

/// Whether a character is white space.
pub fn is_whitespace(c: char) -> (r: bool)
    ensures
        r == is_space(c),
{
    let u: u32 = c as u32;
    (0x9 <= u && u <= 0xd) || u == 0x20 || u == 0x85 || u == 0xa0 || u == 0x1680 || (0x2000 <= u
        && u <= 0x200a) || u == 0x2028 || u == 0x2029 || u == 0x202f || u == 0x205f || u == 0x3000
}

/// An ASCII decimal digit.
pub open spec fn is_digit(c: char) -> bool {
    '0' <= c <= '9'
}

/// Whether a character is an ASCII decimal digit.
pub fn is_ascii_digit(c: char) -> (r: bool)
    ensures
        r == is_digit(c),
{
    c >= '0' && c <= '9'
}

/// The ASCII lower case of a character; others stay.
pub open spec fn lower(c: char) -> char {
    if 'A' <= c <= 'Z' {
        (c as u8 + 32) as char
    } else {
        c
    }
}

/// The ASCII lower case of a character; others stay.
pub fn lower_char(c: char) -> (r: char)
    ensures
        r == lower(c),
{
    if c >= 'A' && c <= 'Z' {
        ((c as u8) + 32) as char
    } else {
        c
    }
}

/// A text in ASCII lower case.
pub open spec fn lowered(s: Seq<char>) -> Seq<char> {
    Seq::new(s.len(), |i: int| lower(s[i]))
}

/// A text in ASCII lower case.
pub fn to_lower(s: &[char]) -> (r: Vec<char>)
    ensures
        r@ == lowered(s@),
{
    let mut r: Vec<char> = Vec::new();
    let mut i: usize = 0;
    while i < s.len()
        invariant
            i <= s.len(),
            r@ == lowered(s@).take(i as int),
        decreases s.len() - i,
    {
        r.push(lower_char(s[i]));
        i += 1;
        assert(r@ =~= lowered(s@).take(i as int));
    }
    assert(lowered(s@).take(s.len() as int) =~= lowered(s@));
    r
}

/// Whether two texts are equal up to ASCII case.
pub fn eq_ignore_case(s: &str, t: &str) -> (r: bool)
    ensures
        r == (lowered(s@) == lowered(t@)),
{
    let a = to_lower(chars_of(s).as_slice());
    let b = to_lower(chars_of(t).as_slice());
    chars_eq(a.as_slice(), b.as_slice())
}

// ---------------------------------------------------------------------------
// Trimming
// ---------------------------------------------------------------------------

/// A text without its leading white space.
pub open spec fn trimmed_start(s: Seq<char>) -> Seq<char>
    decreases s.len(),
{
    if s.len() > 0 && is_space(s[0]) {
        trimmed_start(s.drop_first())
    } else {
        s
    }
}

/// A text without its trailing white space.
pub open spec fn trimmed_end(s: Seq<char>) -> Seq<char>
    decreases s.len(),
{
    if s.len() > 0 && is_space(s.last()) {
        trimmed_end(s.drop_last())
    } else {
        s
    }
}

/// A text without the white space around it.
pub open spec fn trimmed(s: Seq<char>) -> Seq<char> {
    trimmed_end(trimmed_start(s))
}

/// Cuts leading white space.
pub fn trim_start(s: &[char]) -> (r: &[char])
    ensures
        r@ == trimmed_start(s@),
{
    let mut i: usize = 0;
    assert(s@.subrange(0, s.len() as int) =~= s@);
    while i < s.len() && is_whitespace(s[i])
        invariant
            i <= s.len(),
            trimmed_start(s@.subrange(i as int, s.len() as int)) == trimmed_start(s@),
        decreases s.len() - i,
    {
        assert(s@.subrange(i as int, s.len() as int).drop_first() =~= s@.subrange(
            i + 1,
            s.len() as int,
        ));
        i += 1;
    }
    slice_subrange(s, i, s.len())
}

/// Cuts trailing white space.
pub fn trim_end(s: &[char]) -> (r: &[char])
    ensures
        r@ == trimmed_end(s@),
{
    let mut n: usize = s.len();
    assert(s@.subrange(0, s.len() as int) =~= s@);
    while n > 0 && is_whitespace(s[n - 1])
        invariant
            n <= s.len(),
            trimmed_end(s@.subrange(0, n as int)) == trimmed_end(s@),
        decreases n,
    {
        assert(s@.subrange(0, n as int).drop_last() =~= s@.subrange(0, n - 1));
        n -= 1;
    }
    slice_subrange(s, 0, n)
}

/// Cuts the white space around a text.
pub fn trim(s: &[char]) -> (r: &[char])
    ensures
        r@ == trimmed(s@),
{
    trim_end(trim_start(s))
}

/// The string between the white space around a text.
pub fn trim_str(s: &str) -> (r: String)
    ensures
        r@ == trimmed(s@),
{
    let v = chars_of(s);
    string_of(trim(v.as_slice()))
}

// ---------------------------------------------------------------------------
// Searching
// ---------------------------------------------------------------------------

/// Position of the first `c`, or the length where there is none.
pub open spec fn find_char(s: Seq<char>, c: char) -> int
    decreases s.len(),
{
    if s.len() == 0 || s[0] == c {
        0
    } else {
        1 + find_char(s.drop_first(), c)
    }
}

pub proof fn lemma_find_char(s: Seq<char>, c: char)
    ensures
        0 <= find_char(s, c) <= s.len(),
        forall|j: int| 0 <= j < find_char(s, c) ==> s[j] != c,
        find_char(s, c) < s.len() ==> s[find_char(s, c)] == c,
    decreases s.len(),
{
    if s.len() > 0 && s[0] != c {
        let t = s.drop_first();
        lemma_find_char(t, c);
        assert forall|j: int| 0 <= j < find_char(s, c) implies s[j] != c by {
            if j > 0 {
                assert(s[j] == t[j - 1]);
            }
        }
    }
}

pub proof fn lemma_find_char_is(s: Seq<char>, c: char, i: int)
    requires
        0 <= i <= s.len(),
        forall|j: int| 0 <= j < i ==> s[j] != c,
        i < s.len() ==> s[i] == c,
    ensures
        find_char(s, c) == i,
{
    lemma_find_char(s, c);
    if find_char(s, c) < i {
        assert(s[find_char(s, c)] != c);
    } else if i < find_char(s, c) {
        assert(s[i] != c);
    }
}

/// Position of the first `c`, or the length where there is none.
pub fn position(s: &[char], c: char) -> (i: usize)
    ensures
        i == find_char(s@, c),
        i <= s.len(),
{
    let mut i: usize = 0;
    while i < s.len() && s[i] != c
        invariant
            i <= s.len(),
            forall|j: int| 0 <= j < i ==> s@[j] != c,
        decreases s.len() - i,
    {
        i += 1;
    }
    proof {
        lemma_find_char_is(s@, c, i as int);
    }
    i
}

/// Whether `t` occurs in `s` at position `i`.
pub open spec fn occurs_at(s: Seq<char>, t: Seq<char>, i: int) -> bool {
    0 <= i && i + t.len() <= s.len() && s.subrange(i, i + t.len()) == t
}

/// Whether `t` occurs in `s`.
pub open spec fn holds(s: Seq<char>, t: Seq<char>) -> bool {
    exists|i: int| occurs_at(s, t, i)
}

/// Whether `t` is what `s` has at position `i`.
pub fn matches_at(s: &[char], t: &[char], i: usize) -> (r: bool)
    ensures
        r == occurs_at(s@, t@, i as int),
{
    if t.len() > s.len() || i > s.len() - t.len() {
        return false;
    }
    let mut j: usize = 0;
    while j < t.len()
        invariant
            j <= t.len(),
            i + t.len() <= s.len(),
            forall|k: int| 0 <= k < j ==> s@[i + k] == t@[k],
        decreases t.len() - j,
    {
        if s[i + j] != t[j] {
            assert(s@.subrange(i as int, i + t.len())[j as int] != t@[j as int]);
            return false;
        }
        j += 1;
    }
    assert(s@.subrange(i as int, i + t.len()) =~= t@);
    true
}

/// Position of the first occurrence of `t` in `s` at `from` or later.
pub fn find_from(s: &[char], t: &[char], from: usize) -> (r: Option<usize>)
    ensures
        match r {
            Some(i) => from <= i && occurs_at(s@, t@, i as int) && forall|j: int|
                from <= j < i ==> !occurs_at(s@, t@, j),
            None => forall|j: int| from <= j ==> !occurs_at(s@, t@, j),
        },
{
    let mut i: usize = from;
    while i <= s.len()
        invariant
            from <= i,
            forall|j: int| from <= j < i ==> !occurs_at(s@, t@, j),
        decreases s.len() + 1 - i,
    {
        if matches_at(s, t, i) {
            return Some(i);
        }
        if i == s.len() {
            return None;
        }
        i += 1;
    }
    None
}

/// Whether `t` occurs in `s`.
pub fn contains(s: &[char], t: &str) -> (r: bool)
    ensures
        r == holds(s@, t@),
{
    let needle = chars_of(t);
    match find_from(s, needle.as_slice(), 0) {
        Some(i) => {
            assert(occurs_at(s@, t@, i as int));
            true
        },
        None => {
            assert forall|j: int| !occurs_at(s@, t@, j) by {}
            false
        },
    }
}

/// Whether `t` begins `s`.
pub open spec fn begins(s: Seq<char>, t: Seq<char>) -> bool {
    occurs_at(s, t, 0)
}

/// Whether `t` begins `s`.
pub fn starts_with(s: &[char], t: &str) -> (r: bool)
    ensures
        r == begins(s@, t@),
{
    matches_at(s, chars_of(t).as_slice(), 0)
}

// ---------------------------------------------------------------------------
// Splitting
// ---------------------------------------------------------------------------

/// The fields of a text between the separators `c`; there is always one.
pub open spec fn fields(s: Seq<char>, c: char) -> Seq<Seq<char>>
    decreases s.len(),
{
    let i = find_char(s, c);
    if 0 <= i < s.len() {
        seq![s.take(i)] + fields(s.skip(i + 1), c)
    } else {
        seq![s]
    }
}

/// Splits a text at every `c`.
pub fn split(s: &[char], c: char) -> (r: Vec<String>)
    ensures
        texts(r@) == fields(s@, c),
{
    let mut r: Vec<String> = Vec::new();
    let mut rest: &[char] = s;
    assert(texts(r@) + fields(rest@, c) =~= fields(s@, c));
    loop
        invariant
            texts(r@) + fields(rest@, c) == fields(s@, c),
        decreases rest.len(),
    {
        let i: usize = position(rest, c);
        if i == rest.len() {
            let last = string_of(rest);
            proof {
                lemma_texts_push(r@, last);
                assert(texts(r@) + fields(rest@, c) =~= texts(r@).push(rest@));
            }
            r.push(last);
            return r;
        }
        let head = string_of(slice_subrange(rest, 0, i));
        let tail = slice_subrange(rest, i + 1, rest.len());
        proof {
            assert(rest@.subrange(0, i as int) =~= rest@.take(i as int));
            assert(rest@.subrange(i + 1, rest.len() as int) =~= rest@.skip(i + 1));
            lemma_texts_push(r@, head);
            assert(texts(r@) + fields(rest@, c) =~= texts(r@).push(head@) + fields(tail@, c));
        }
        r.push(head);
        rest = tail;
    }
}

/// Length of the leading run of characters that are not white space.
pub open spec fn word_len(s: Seq<char>) -> int
    decreases s.len(),
{
    if s.len() == 0 || is_space(s[0]) {
        0
    } else {
        1 + word_len(s.drop_first())
    }
}

pub proof fn lemma_word_len(s: Seq<char>)
    ensures
        0 <= word_len(s) <= s.len(),
        s.len() > 0 && !is_space(s[0]) ==> word_len(s) > 0,
    decreases s.len(),
{
    if s.len() > 0 {
        lemma_word_len(s.drop_first());
    }
}

pub proof fn lemma_trimmed_start_len(s: Seq<char>)
    ensures
        trimmed_start(s).len() <= s.len(),
        trimmed_start(s).len() > 0 ==> !is_space(trimmed_start(s)[0]),
    decreases s.len(),
{
    if s.len() > 0 && is_space(s[0]) {
        lemma_trimmed_start_len(s.drop_first());
    }
}

/// The words of a text: its maximal runs of characters that are not white
/// space.
pub open spec fn words(s: Seq<char>) -> Seq<Seq<char>>
    decreases s.len(),
{
    let t = trimmed_start(s);
    let n = word_len(t);
    if t.len() == 0 || t.len() > s.len() || n <= 0 || n > t.len() {
        Seq::empty()
    } else {
        seq![t.take(n)] + words(t.skip(n))
    }
}

/// Splits a text into its words.
pub fn split_words(s: &[char]) -> (r: Vec<String>)
    ensures
        texts(r@) == words(s@),
{
    let mut r: Vec<String> = Vec::new();
    let mut rest: &[char] = s;
    assert(texts(r@) + words(rest@) =~= words(s@));
    loop
        invariant
            texts(r@) + words(rest@) == words(s@),
        decreases rest.len(),
    {
        let t = trim_start(rest);
        proof {
            lemma_trimmed_start_len(rest@);
            lemma_word_len(t@);
        }
        if t.len() == 0 {
            assert(texts(r@) + words(rest@) =~= texts(r@));
            return r;
        }
        let mut n: usize = 0;
        assert(t@.skip(0) =~= t@);
        while n < t.len() && !is_whitespace(t[n])
            invariant
                n <= t.len(),
                n + word_len(t@.skip(n as int)) == word_len(t@),
            decreases t.len() - n,
        {
            assert(t@.skip(n as int).drop_first() =~= t@.skip(n + 1));
            n += 1;
        }
        let word = string_of(slice_subrange(t, 0, n));
        let tail = slice_subrange(t, n, t.len());
        proof {
            assert(t@.subrange(0, n as int) =~= t@.take(n as int));
            assert(t@.subrange(n as int, t.len() as int) =~= t@.skip(n as int));
            lemma_texts_push(r@, word);
            assert(texts(r@) + words(rest@) =~= texts(r@).push(word@) + words(tail@));
        }
        r.push(word);
        rest = tail;
    }
}

/// A line without the carriage return that ends it.
pub open spec fn without_return(s: Seq<char>) -> Seq<char> {
    if s.len() > 0 && s.last() == '\r' {
        s.drop_last()
    } else {
        s
    }
}

/// The lines of a text: a line feed, or a carriage return and a line feed,
/// ends each but the last.
pub open spec fn lines(s: Seq<char>) -> Seq<Seq<char>>
    decreases s.len(),
{
    let i = find_char(s, '\n');
    if s.len() == 0 {
        Seq::empty()
    } else if 0 <= i < s.len() {
        seq![without_return(s.take(i))] + lines(s.skip(i + 1))
    } else {
        seq![s]
    }
}

/// Splits a text into its lines.
pub fn split_lines(s: &[char]) -> (r: Vec<String>)
    ensures
        texts(r@) == lines(s@),
{
    let mut r: Vec<String> = Vec::new();
    let mut rest: &[char] = s;
    assert(texts(r@) + lines(rest@) =~= lines(s@));
    while rest.len() > 0
        invariant
            texts(r@) + lines(rest@) == lines(s@),
        decreases rest.len(),
    {
        let i: usize = position(rest, '\n');
        if i == rest.len() {
            let last = string_of(rest);
            proof {
                lemma_texts_push(r@, last);
                assert(texts(r@) + lines(rest@) =~= texts(r@).push(rest@));
            }
            r.push(last);
            return r;
        }
        let end: usize = if i > 0 && rest[i - 1] == '\r' {
            i - 1
        } else {
            i
        };
        let line = string_of(slice_subrange(rest, 0, end));
        let tail = slice_subrange(rest, i + 1, rest.len());
        proof {
            assert(rest@.subrange(0, end as int) =~= without_return(rest@.take(i as int)));
            assert(rest@.subrange(i + 1, rest.len() as int) =~= rest@.skip(i + 1));
            lemma_texts_push(r@, line);
            assert(texts(r@) + lines(rest@) =~= texts(r@).push(line@) + lines(tail@));
        }
        r.push(line);
        rest = tail;
    }
    assert(texts(r@) + lines(rest@) =~= texts(r@));
    r
}

/// Texts joined by a separator.
pub open spec fn joined(v: Seq<Seq<char>>, sep: Seq<char>) -> Seq<char>
    decreases v.len(),
{
    if v.len() == 0 {
        Seq::empty()
    } else if v.len() == 1 {
        v[0]
    } else {
        joined(v.drop_last(), sep) + sep + v.last()
    }
}

/// Joins texts by a separator.
pub fn join(v: &Vec<String>, sep: &str) -> (r: String)
    ensures
        r@ == joined(texts(v@), sep@),
{
    let mut r = String::new();
    let mut i: usize = 0;
    assert(texts(v@).take(0) =~= Seq::<Seq<char>>::empty());
    while i < v.len()
        invariant
            i <= v.len(),
            r@ == joined(texts(v@).take(i as int), sep@),
        decreases v.len() - i,
    {
        let ghost done = texts(v@).take(i + 1);
        proof {
            assert(done.drop_last() =~= texts(v@).take(i as int));
            assert(done.last() == v@[i as int]@);
        }
        if i > 0 {
            r.append(sep);
        }
        r.append(v[i].as_str());
        proof {
            if i == 0 {
                assert(r@ =~= v@[0]@);
            } else {
                assert(r@ =~= joined(done.drop_last(), sep@) + sep@ + done.last());
            }
        }
        i += 1;
    }
    assert(texts(v@).take(v.len() as int) =~= texts(v@));
    r
}

// ---------------------------------------------------------------------------
// Numbers
// ---------------------------------------------------------------------------

/// Whether a text consists of decimal digits alone.
pub open spec fn all_digits(s: Seq<char>) -> bool {
    forall|i: int| 0 <= i < s.len() ==> is_digit(#[trigger] s[i])
}

/// The number that decimal digits write.
pub open spec fn value_of(s: Seq<char>) -> nat
    decreases s.len(),
{
    if s.len() == 0 {
        0
    } else {
        value_of(s.drop_last()) * 10 + (s.last() as u32 - '0' as u32) as nat
    }
}

/// The number up to `max` that a text writes in decimal digits, with or
/// without a plus sign before them.
pub open spec fn read_number(s: Seq<char>, max: nat) -> Option<nat> {
    let body = if s.len() > 0 && s[0] == '+' {
        s.skip(1)
    } else {
        s
    };
    if body.len() > 0 && all_digits(body) && value_of(body) <= max {
        Some(value_of(body))
    } else {
        None
    }
}

pub proof fn lemma_value_grows(s: Seq<char>, i: int)
    requires
        all_digits(s),
        0 <= i <= s.len(),
    ensures
        value_of(s.take(i)) <= value_of(s),
    decreases s.len(),
{
    if i == s.len() {
        assert(s.take(i) =~= s);
    } else {
        let t = s.drop_last();
        assert(all_digits(t)) by {
            assert forall|j: int| 0 <= j < t.len() implies is_digit(#[trigger] t[j]) by {
                assert(t[j] == s[j]);
            }
        }
        lemma_value_grows(t, i);
        assert(t.take(i) =~= s.take(i));
        assert(is_digit(s.last()));
    }
}

/// Reads a text of decimal digits alone as a number up to `max`.
fn parse_digits(s: &[char], max: u64) -> (r: Option<u64>)
    ensures
        match r {
            Some(n) => s.len() > 0 && all_digits(s@) && value_of(s@) <= max && n == value_of(s@),
            None => !(s.len() > 0 && all_digits(s@) && value_of(s@) <= max),
        },
{
    if s.len() == 0 {
        return None;
    }
    let mut n: u64 = 0;
    let mut i: usize = 0;
    assert(s@.take(0) =~= Seq::<char>::empty());
    while i < s.len()
        invariant
            i <= s.len(),
            n <= max,
            n == value_of(s@.take(i as int)),
            forall|j: int| 0 <= j < i ==> is_digit(#[trigger] s@[j]),
        decreases s.len() - i,
    {
        let c = s[i];
        if !is_ascii_digit(c) {
            assert(!is_digit(s@[i as int]));
            return None;
        }
        let d: u64 = (c as u32 - '0' as u32) as u64;
        proof {
            assert(s@.take(i + 1).drop_last() =~= s@.take(i as int));
            assert(s@.take(i + 1).last() == c);
            if all_digits(s@) {
                lemma_value_grows(s@, i + 1);
            }
        }
        if n > (u64::MAX - d) / 10 || n * 10 + d > max {
            assert(value_of(s@.take(i + 1)) > max);
            return None;
        }
        n = n * 10 + d;
        i += 1;
    }
    assert(s@.take(s.len() as int) =~= s@);
    Some(n)
}

/// Reads a decimal number up to `max`, with or without a plus sign.
pub fn parse_number(s: &[char], max: u64) -> (r: Option<u64>)
    ensures
        match r {
            Some(n) => read_number(s@, max as nat) == Some(n as nat),
            None => read_number(s@, max as nat) is None,
        },
{
    if s.len() > 0 && s[0] == '+' {
        let body = slice_subrange(s, 1, s.len());
        assert(body@ =~= s@.skip(1));
        parse_digits(body, max)
    } else {
        parse_digits(s, max)
    }
}

/// Reads a decimal number of sixteen bits.
pub fn parse_u16(s: &[char]) -> (r: Option<u16>)
    ensures
        match r {
            Some(n) => read_number(s@, u16::MAX as nat) == Some(n as nat),
            None => read_number(s@, u16::MAX as nat) is None,
        },
{
    match parse_number(s, 0xffff) {
        Some(n) => Some(n as u16),
        None => None,
    }
}

/// The signed number of sixty-four bits that a text writes in decimal digits,
/// with or without a sign before them.
pub open spec fn read_signed(s: Seq<char>) -> Option<int> {
    if s.len() > 0 && s[0] == '-' {
        let body = s.skip(1);
        if body.len() > 0 && all_digits(body) && value_of(body) <= 0x8000_0000_0000_0000 {
            Some(-(value_of(body) as int))
        } else {
            None
        }
    } else {
        match read_number(s, i64::MAX as nat) {
            Some(n) => Some(n as int),
            None => None,
        }
    }
}

/// Reads a signed decimal number of sixty-four bits.
pub fn parse_i64(s: &[char]) -> (r: Option<i64>)
    ensures
        match r {
            Some(n) => read_signed(s@) == Some(n as int),
            None => read_signed(s@) is None,
        },
{
    if s.len() > 0 && s[0] == '-' {
        let body = slice_subrange(s, 1, s.len());
        assert(body@ =~= s@.skip(1));
        match parse_digits(body, 0x8000_0000_0000_0000) {
            Some(n) => {
                if n == 0x8000_0000_0000_0000 {
                    Some(i64::MIN)
                } else {
                    Some(-(n as i64))
                }
            },
            None => None,
        }
    } else {
        match parse_number(s, 0x7fff_ffff_ffff_ffff) {
            Some(n) => Some(n as i64),
            None => None,
        }
    }
}

/// The decimal digit of a number below ten.
pub open spec fn digit(n: nat) -> char {
    ('0' as u32 + n) as char
}

/// A number in decimal digits, without leading zeros.
pub open spec fn decimal(n: nat) -> Seq<char>
    decreases n,
{
    if n < 10 {
        seq![digit(n)]
    } else {
        decimal(n / 10).push(digit(n % 10))
    }
}

/// Writes the digits of a number in a list, least significant first.
fn push_digits(n: u64) -> (r: Vec<char>)
    ensures
        r@.reverse() == decimal(n as nat),
{
    let mut r: Vec<char> = Vec::new();
    let mut m: u64 = n;
    assert(decimal(m as nat) + r@.reverse() =~= decimal(n as nat));
    while m >= 10
        invariant
            decimal(m as nat) + r@.reverse() == decimal(n as nat),
        decreases m,
    {
        let d: char = (48u8 + (m % 10) as u8) as char;
        proof {
            assert(d == digit((m % 10) as nat));
            assert(r@.push(d).reverse() =~= seq![d] + r@.reverse());
            assert(decimal(m as nat) + r@.reverse() =~= decimal((m / 10) as nat) + r@.push(
                d,
            ).reverse());
        }
        r.push(d);
        m = m / 10;
    }
    let d: char = (48u8 + m as u8) as char;
    proof {
        assert(d == digit(m as nat));
        assert(r@.push(d).reverse() =~= seq![d] + r@.reverse());
        assert(decimal(m as nat) =~= seq![d]);
    }
    r.push(d);
    r
}

/// Appends a number in decimal digits.
pub fn push_decimal(s: &mut String, n: u64)
    ensures
        final(s)@ == old(s)@ + decimal(n as nat),
{
    let digits = push_digits(n);
    let ghost before = s@;
    let mut i: usize = digits.len();
    while i > 0
        invariant
            i <= digits.len(),
            s@ == before + digits@.reverse().take(digits.len() - i),
        decreases i,
    {
        i -= 1;
        s.push(digits[i]);
        assert(s@ =~= before + digits@.reverse().take(digits.len() - i));
    }
    assert(digits@.reverse().take(digits.len() as int) =~= digits@.reverse());
}

/// Appends a wide number in decimal digits.
pub fn push_wide(s: &mut String, n: u128)
    ensures
        final(s)@ == old(s)@ + decimal(n as nat),
    decreases n,
{
    if n <= u64::MAX as u128 {
        push_decimal(s, n as u64);
    } else {
        let ghost before = s@;
        push_wide(s, n / 10);
        push_decimal(s, (n % 10) as u64);
        assert(s@ =~= before + decimal(n as nat));
    }
}

/// A number in decimal digits.
pub fn to_decimal(n: u64) -> (s: String)
    ensures
        s@ == decimal(n as nat),
{
    let mut s = String::new();
    push_decimal(&mut s, n);
    assert(s@ =~= decimal(n as nat));
    s
}

/// Decimal digits write back the number that they were made from.
pub proof fn decimal_reads_back(n: nat, max: nat)
    requires
        n <= max,
    ensures
        decimal(n).len() > 0,
        all_digits(decimal(n)),
        value_of(decimal(n)) == n,
        read_number(decimal(n), max) == Some(n),
    decreases n,
{
    if n >= 10 {
        decimal_reads_back(n / 10, max);
        let s = decimal(n);
        assert(s.drop_last() =~= decimal(n / 10));
        assert(s.last() == digit(n % 10));
        assert forall|i: int| 0 <= i < s.len() implies is_digit(#[trigger] s[i]) by {
            if i < s.len() - 1 {
                assert(s[i] == decimal(n / 10)[i]);
            }
        }
    } else {
        let s = decimal(n);
        assert(s.drop_last() =~= Seq::<char>::empty());
        assert(value_of(s.drop_last()) == 0);
    }
    assert(is_digit(decimal(n)[0]));
}

/// Blanks are what ends words and is trimmed: among ASCII characters the space,
/// the tab, the line ends and the page breaks, and no letter, digit or mark.
pub proof fn blanks_are_no_letters(c: char)
    ensures
        is_space(' ') && is_space('\t') && is_space('\n') && is_space('\r'),
        (c as u32) < 128 ==> (is_space(c) <==> c as u32 == 32 || 9 <= c as u32 <= 13),
{
}

/// Lower case exchanges the ASCII capitals one for one and leaves the rest, so
/// that lowering twice changes nothing more.
pub proof fn lower_case_is_ascii(s: Seq<char>, i: int)
    requires
        0 <= i < s.len(),
    ensures
        lowered(s).len() == s.len(),
        65 <= s[i] as u32 <= 90 ==> lowered(s)[i] as u32 == s[i] as u32 + 32,
        !(65 <= s[i] as u32 <= 90) ==> lowered(s)[i] == s[i],
        lowered(lowered(s)) == lowered(s),
{
    assert(lowered(lowered(s)) =~= lowered(s));
}

proof fn lemma_trimmed_start(s: Seq<char>) -> (i: int)
    ensures
        0 <= i <= s.len(),
        trimmed_start(s) == s.skip(i),
        forall|k: int| 0 <= k < i ==> is_space(#[trigger] s[k]),
        i < s.len() ==> !is_space(s[i]),
    decreases s.len(),
{
    if s.len() > 0 && is_space(s[0]) {
        let j = lemma_trimmed_start(s.drop_first());
        assert(s.drop_first().skip(j) =~= s.skip(j + 1));
        assert forall|k: int| 0 <= k < j + 1 implies is_space(#[trigger] s[k]) by {
            if k > 0 {
                assert(s.drop_first()[k - 1] == s[k]);
            }
        }
        if j + 1 < s.len() {
            assert(s.drop_first()[j] == s[j + 1]);
        }
        j + 1
    } else {
        assert(s.skip(0) =~= s);
        0
    }
}

proof fn lemma_trimmed_end(s: Seq<char>) -> (j: int)
    ensures
        0 <= j <= s.len(),
        trimmed_end(s) == s.take(j),
        forall|k: int| j <= k < s.len() ==> is_space(#[trigger] s[k]),
        j > 0 ==> !is_space(s[j - 1]),
    decreases s.len(),
{
    if s.len() > 0 && is_space(s.last()) {
        let j = lemma_trimmed_end(s.drop_last());
        assert(s.drop_last().take(j) =~= s.take(j));
        assert forall|k: int| j <= k < s.len() implies is_space(#[trigger] s[k]) by {
            if k < s.len() - 1 {
                assert(s.drop_last()[k] == s[k]);
            }
        }
        if j > 0 {
            assert(s.drop_last()[j - 1] == s[j - 1]);
        }
        j
    } else {
        assert(s.take(s.len() as int) =~= s);
        s.len() as int
    }
}

/// A trimmed text is the text without the blanks at its two ends, and nothing
/// else is taken.
pub proof fn trimming_takes_the_outer_blanks(s: Seq<char>) -> (r: (int, int))
    ensures
        0 <= r.0 <= r.1 <= s.len(),
        trimmed(s) == s.subrange(r.0, r.1),
        forall|k: int| 0 <= k < r.0 || r.1 <= k < s.len() ==> is_space(#[trigger] s[k]),
        r.0 < r.1 ==> !is_space(s[r.0]) && !is_space(s[r.1 - 1]),
{
    let i = lemma_trimmed_start(s);
    let t = s.skip(i);
    let j = lemma_trimmed_end(t);
    assert(t.take(j) =~= s.subrange(i, i + j));
    assert forall|k: int| 0 <= k < i || i + j <= k < s.len() implies is_space(#[trigger] s[k]) by {
        if k >= i {
            assert(t[k - i] == s[k]);
        }
    }
    if j > 0 {
        assert(t[j - 1] == s[i + j - 1]);
        if is_space(s[i]) {
            assert(i < s.len());
        }
    }
    (i, i + j)
}

/// The fields of a text hold no separator, and with the separator between them
/// they are the text again.
pub proof fn fields_join_to_the_text(s: Seq<char>, c: char)
    ensures
        fields(s, c).len() > 0,
        joined(fields(s, c), seq![c]) == s,
        forall|i: int, j: int|
            0 <= i < fields(s, c).len() && 0 <= j < fields(s, c)[i].len() ==> (#[trigger] fields(
                s,
                c,
            )[i][j]) != c,
    decreases s.len(),
{
    lemma_find_char(s, c);
    let i = find_char(s, c);
    if 0 <= i < s.len() {
        let rest = s.skip(i + 1);
        fields_join_to_the_text(rest, c);
        let tail = fields(rest, c);
        lemma_joined_first(s.take(i), tail, seq![c]);
        assert(s.take(i) + seq![c] + rest =~= s);
        let all = seq![s.take(i)] + tail;
        assert forall|k: int, j: int| 0 <= k < all.len() && 0 <= j < all[k].len() implies (
        #[trigger] all[k][j]) != c by {
            if k > 0 {
                assert(all[k] == tail[k - 1]);
            } else {
                assert(all[k][j] == s[j]);
            }
        }
    }
}

/// Joining puts the separator between the first text and the rest, as between
/// all others.
pub proof fn lemma_joined_first(a: Seq<char>, v: Seq<Seq<char>>, sep: Seq<char>)
    requires
        v.len() > 0,
    ensures
        joined(seq![a] + v, sep) == a + sep + joined(v, sep),
    decreases v.len(),
{
    let all = seq![a] + v;
    if v.len() == 1 {
        assert(all.drop_last() =~= seq![a]);
        assert(joined(all.drop_last(), sep) == a);
        assert(all.last() == v[0]);
    } else {
        lemma_joined_first(a, v.drop_last(), sep);
        assert(all.drop_last() =~= seq![a] + v.drop_last());
        assert(all.last() == v.last());
        assert(joined(all, sep) =~= a + sep + joined(v, sep));
    }
}

/// A line ends before its line feed, without a carriage return there, and what
/// is behind is read alike; a last line may lack its line feed.
pub proof fn lines_end_at_line_feeds(a: Seq<char>, rest: Seq<char>)
    requires
        forall|j: int| 0 <= j < a.len() ==> a[j] != '\n',
    ensures
        lines(a + seq!['\n'] + rest) == seq![
            if a.len() > 0 && a.last() == '\r' {
                a.drop_last()
            } else {
                a
            },
        ] + lines(rest),
        a.len() > 0 ==> lines(a) == seq![a],
        lines(Seq::empty()) == Seq::<Seq<char>>::empty(),
{
    let s = a + seq!['\n'] + rest;
    lemma_find_char_is(s, '\n', a.len() as int);
    assert(s.take(a.len() as int) =~= a);
    assert(s.skip(a.len() as int + 1) =~= rest);
    lemma_find_char_is(a, '\n', a.len() as int);
}

/// A word reaches to the next blank, blanks before it are passed over, and
/// what is behind is read alike.
pub proof fn words_stand_between_blanks(w: Seq<char>, blank: char, rest: Seq<char>)
    requires
        w.len() > 0,
        forall|j: int| 0 <= j < w.len() ==> !is_space(#[trigger] w[j]),
        is_space(blank),
    ensures
        words(w + seq![blank] + rest) == seq![w] + words(rest),
        words(w) == seq![w],
        words(seq![blank] + rest) == words(rest),
        words(Seq::empty()) == Seq::<Seq<char>>::empty(),
{
    let s = w + seq![blank] + rest;
    let n = w.len() as int;
    assert(s[0] == w[0]);
    lemma_word_reaches(s, n);
    assert(s.take(n) =~= w);
    assert(s.skip(n) =~= seq![blank] + rest);
    lemma_word_reaches(w, n);
    assert(w.take(n) =~= w);
    assert(w.skip(n) =~= Seq::<char>::empty());
    assert(words(w.skip(n)) =~= Seq::<Seq<char>>::empty());
    let b = seq![blank] + rest;
    assert(b.drop_first() =~= rest);
    assert(trimmed_start(b) == trimmed_start(rest));
    lemma_trimmed_start_len(rest);
    lemma_word_len(trimmed_start(rest));
    assert(words(b) == words(rest));
    assert(!is_space(w[0]));
    assert(trimmed_start(s) == s);
    assert(words(s) == seq![w] + words(s.skip(n)));
}

proof fn lemma_word_reaches(s: Seq<char>, n: int)
    requires
        0 <= n <= s.len(),
        forall|j: int| 0 <= j < n ==> !is_space(#[trigger] s[j]),
        n < s.len() ==> is_space(s[n]),
    ensures
        word_len(s) == n,
    decreases s.len(),
{
    if n > 0 {
        let t = s.drop_first();
        assert forall|j: int| 0 <= j < n - 1 implies !is_space(#[trigger] t[j]) by {
            assert(t[j] == s[j + 1]);
        }
        lemma_word_reaches(t, n - 1);
    }
}

/// A number is read where its digits, behind a plus sign or none, do not mean
/// more than the limit; nothing else is one.
pub proof fn numbers_have_a_limit(n: nat, max: nat, s: Seq<char>)
    ensures
        n <= max ==> read_number(decimal(n), max) == Some(n),
        n <= max ==> read_number(seq!['+'] + decimal(n), max) == Some(n),
        n > max ==> read_number(decimal(n), max) is None,
        read_number(Seq::empty(), max) is None,
        read_number(s, max) matches Some(m) ==> m <= max && s.len() > 0 && (is_digit(s[0])
            || s[0] == '+'),
        (exists|i: int| 0 < i < s.len() && !is_digit(#[trigger] s[i])) ==> read_number(s, max)
            is None,
{
    decimal_reads_back(n, n);
    let d = decimal(n);
    let p = seq!['+'] + d;
    assert(p.skip(1) =~= d);
    assert(is_digit(d[0]));
    if exists|i: int| 0 < i < s.len() && !is_digit(#[trigger] s[i]) {
        let i = choose|i: int| 0 < i < s.len() && !is_digit(#[trigger] s[i]);
        assert(s.skip(1)[i - 1] == s[i]);
        assert(!all_digits(s) && !all_digits(s.skip(1)));
    }
}

/// Digits that begin with no zero, or are only one, are the number that they
/// mean, written again.
pub proof fn numbers_write_back(s: Seq<char>)
    requires
        s.len() > 0,
        all_digits(s),
        s.len() == 1 || s[0] != '0',
    ensures
        decimal(value_of(s)) == s,
        s[0] != '0' ==> value_of(s) > 0,
    decreases s.len(),
{
    let last = (s.last() as u32 - '0' as u32) as nat;
    assert(is_digit(s.last()));
    assert(last < 10);
    assert(digit(last) == s.last());
    let t = s.drop_last();
    if s.len() == 1 {
        assert(value_of(t) == 0);
        assert(value_of(s) == last);
        assert(s =~= seq![s.last()]);
        assert(is_digit(s[0]));
    } else {
        assert(all_digits(t)) by {
            assert forall|i: int| 0 <= i < t.len() implies is_digit(#[trigger] t[i]) by {
                assert(t[i] == s[i]);
            }
        }
        assert(t[0] == s[0]);
        numbers_write_back(t);
        assert(value_of(s) == value_of(t) * 10 + last);
        assert(value_of(s) >= 10);
        assert(value_of(s) / 10 == value_of(t) && value_of(s) % 10 == last);
        assert(s =~= t.push(s.last()));
    }
}

/// Texts that hold no separator come back from joining and splitting.
pub proof fn joined_texts_split_again(v: Seq<Seq<char>>, c: char)
    requires
        v.len() > 0,
        forall|i: int, j: int|
            0 <= i < v.len() && 0 <= j < v[i].len() ==> (#[trigger] v[i][j]) != c,
    ensures
        fields(joined(v, seq![c]), c) == v,
    decreases v.len(),
{
    let a = v[0];
    if v.len() == 1 {
        lemma_find_char_is(a, c, a.len() as int);
        assert(v =~= seq![a]);
    } else {
        let rest = v.drop_first();
        assert(v =~= seq![a] + rest);
        assert forall|i: int, j: int| 0 <= i < rest.len() && 0 <= j < rest[i].len() implies (
        #[trigger] rest[i][j]) != c by {
            assert(v[i + 1][j] == rest[i][j]);
        }
        joined_texts_split_again(rest, c);
        lemma_joined_first(a, rest, seq![c]);
        let s = joined(v, seq![c]);
        let tail = joined(rest, seq![c]);
        assert(s == a + seq![c] + tail);
        assert forall|j: int| 0 <= j < a.len() implies s[j] != c by {
            assert(v[0][j] != c);
        }
        lemma_find_char_is(s, c, a.len() as int);
        assert(s.take(a.len() as int) =~= a);
        assert(s.skip(a.len() as int + 1) =~= tail);
    }
}

/// A number's digits are no separators: neither a comma, nor a blank, nor any
/// other mark.
pub proof fn digits_are_no_marks(n: nat, c: char)
    requires
        !is_digit(c),
    ensures
        forall|j: int| 0 <= j < decimal(n).len() ==> (#[trigger] decimal(n)[j]) != c,
{
    decimal_reads_back(n, n);
    assert forall|j: int| 0 <= j < decimal(n).len() implies (#[trigger] decimal(n)[j]) != c by {
        assert(is_digit(decimal(n)[j]));
    }
}

} // verus!
