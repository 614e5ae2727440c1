//! Release numbers: which of two is newer, and which one a manifest names.

use crate::text::{
    begins, chars_of, fields, is_ascii_digit, is_digit, lines, parse_number, read_number, split, split_lines,
    starts_with, string_of, texts, trim, trim_start, trimmed, trimmed_start,
};
use vstd::prelude::*;
use vstd::slice::slice_subrange;

verus! {

/// Where the manifest of the latest release is kept.
pub const VERSION_CHECK_URL: &'static str = "https://raw.githubusercontent.com/mzyui/flx/main/Cargo.toml";

/// Milliseconds that a version check may take.
pub const VERSION_CHECK_TIMEOUT: u64 = 5_000;

/// A text without every leading `c`.
pub open spec fn without_leading(s: Seq<char>, c: char) -> Seq<char>
    decreases s.len(),
{
    if s.len() > 0 && s[0] == c {
        without_leading(s.drop_first(), c)
    } else {
        s
    }
}

/// A text without every trailing `c`.
pub open spec fn without_trailing(s: Seq<char>, c: char) -> Seq<char>
    decreases s.len(),
{
    if s.len() > 0 && s.last() == c {
        without_trailing(s.drop_last(), c)
    } else {
        s
    }
}

fn cut_leading(s: &[char], c: char) -> (r: &[char])
    ensures
        r@ == without_leading(s@, c),
{
    let mut i: usize = 0;
    assert(s@.skip(0) =~= s@);
    while i < s.len() && s[i] == c
        invariant
            i <= s.len(),
            without_leading(s@.skip(i as int), c) == without_leading(s@, c),
        decreases s.len() - i,
    {
        assert(s@.skip(i as int).drop_first() =~= s@.skip(i + 1));
        i += 1;
    }
    assert(s@.subrange(i as int, s.len() as int) =~= s@.skip(i as int));
    slice_subrange(s, i, s.len())
}

fn cut_trailing(s: &[char], c: char) -> (r: &[char])
    ensures
        r@ == without_trailing(s@, c),
{
    let mut n: usize = s.len();
    assert(s@.take(n as int) =~= s@);
    while n > 0 && s[n - 1] == c
        invariant
            n <= s.len(),
            without_trailing(s@.take(n as int), c) == without_trailing(s@, c),
        decreases n,
    {
        assert(s@.take(n as int).drop_last() =~= s@.take(n - 1));
        n -= 1;
    }
    assert(s@.subrange(0, n as int) =~= s@.take(n as int));
    slice_subrange(s, 0, n)
}

/// The digits that a text begins with.
pub open spec fn leading_digits(s: Seq<char>) -> Seq<char>
    decreases s.len(),
{
    if s.len() > 0 && is_digit(s[0]) {
        seq![s[0]] + leading_digits(s.drop_first())
    } else {
        Seq::empty()
    }
}

fn digits_of(s: &[char]) -> (r: &[char])
    ensures
        r@ == leading_digits(s@),
{
    let mut n: usize = 0;
    assert(s@.skip(0) =~= s@);
    assert(s@.take(0) + leading_digits(s@) =~= leading_digits(s@));
    while n < s.len() && is_ascii_digit(s[n])
        invariant
            n <= s.len(),
            s@.take(n as int) + leading_digits(s@.skip(n as int)) == leading_digits(s@),
        decreases s.len() - n,
    {
        let ghost rest = s@.skip(n as int);
        assert(rest.drop_first() =~= s@.skip(n + 1));
        assert(s@.take(n as int) + leading_digits(rest) =~= s@.take(n + 1) + leading_digits(
            s@.skip(n + 1),
        ));
        n += 1;
    }
    assert(s@.take(n as int) + Seq::<char>::empty() =~= s@.take(n as int));
    assert(s@.subrange(0, n as int) =~= s@.take(n as int));
    slice_subrange(s, 0, n)
}

/// The numbers that the parts of a release number begin with; a part that
/// begins with none is left out.
pub open spec fn numbers_of(parts: Seq<Seq<char>>) -> Seq<nat>
    decreases parts.len(),
{
    if parts.len() == 0 {
        Seq::empty()
    } else {
        let before = numbers_of(parts.drop_last());
        match read_number(leading_digits(parts.last()), u64::MAX as nat) {
            Some(n) => before.push(n),
            None => before,
        }
    }
}

/// The numbers of a release, with or without a `v` before them.
pub open spec fn release(version: Seq<char>) -> Seq<nat> {
    numbers_of(fields(without_leading(trimmed(version), 'v'), '.'))
}

fn parse(version: &str) -> (r: Vec<u64>)
    ensures
        r@.map_values(|n: u64| n as nat) == release(version@),
{
    let cs = chars_of(version);
    let parts = split(cut_leading(trim(cs.as_slice()), 'v'), '.');
    let ghost all = texts(parts@);
    let mut r: Vec<u64> = Vec::new();
    let mut i: usize = 0;
    assert(r@.map_values(|n: u64| n as nat) =~= numbers_of(all.take(0)));
    while i < parts.len()
        invariant
            i <= parts.len(),
            all == texts(parts@),
            r@.map_values(|n: u64| n as nat) == numbers_of(all.take(i as int)),
        decreases parts.len() - i,
    {
        proof {
            assert(all.take(i + 1).drop_last() =~= all.take(i as int));
            assert(all.take(i + 1).last() == parts@[i as int]@);
        }
        let part = chars_of(parts[i].as_str());
        if let Some(n) = parse_number(digits_of(part.as_slice()), u64::MAX) {
            let ghost before = r@;
            r.push(n);
            assert(r@.map_values(|n: u64| n as nat) =~= before.map_values(|n: u64| n as nat).push(
                n as nat,
            ));
        }
        i += 1;
    }
    assert(all.take(all.len() as int) =~= all);
    r
}

/// Whether one list of numbers is a newer release than another: the first
/// number that differs is larger, or it goes on where the other ends.
pub open spec fn newer(current: Seq<nat>, latest: Seq<nat>) -> bool
    decreases current.len(),
{
    if latest.len() == 0 {
        false
    } else if current.len() == 0 {
        true
    } else if current[0] != latest[0] {
        latest[0] > current[0]
    } else {
        newer(current.drop_first(), latest.drop_first())
    }
}

/// Whether `latest` is a newer release than `current`.
pub fn check_version(current: &str, latest: &str) -> (r: bool)
    ensures
        r == newer(release(current@), release(latest@)),
{
    let ours = parse(current);
    let theirs = parse(latest);
    let ghost a = release(current@);
    let ghost b = release(latest@);
    let mut i: usize = 0;
    assert(a.len() == ours.len() && b.len() == theirs.len());
    assert(a.skip(0) =~= a && b.skip(0) =~= b);
    while i < ours.len() && i < theirs.len()
        invariant
            i <= ours.len(),
            i <= theirs.len(),
            a == release(current@),
            b == release(latest@),
            a == ours@.map_values(|n: u64| n as nat),
            b == theirs@.map_values(|n: u64| n as nat),
            newer(a.skip(i as int), b.skip(i as int)) == newer(a, b),
        decreases ours.len() - i,
    {
        assert(a.skip(i as int)[0] == ours@[i as int] && b.skip(i as int)[0] == theirs@[i as int]);
        if ours[i] != theirs[i] {
            return theirs[i] > ours[i];
        }
        assert(a.skip(i as int).drop_first() =~= a.skip(i + 1));
        assert(b.skip(i as int).drop_first() =~= b.skip(i + 1));
        i += 1;
    }
    theirs.len() > ours.len()
}

/// The first line of a manifest that begins with `version`.
pub open spec fn version_line(all: Seq<Seq<char>>) -> Option<Seq<char>>
    decreases all.len(),
{
    if all.len() == 0 {
        None
    } else {
        if begins(trimmed_start(all[0]), "version"@) {
            Some(all[0])
        } else {
            version_line(all.drop_first())
        }
    }
}

/// A text without the quotation marks around it.
pub open spec fn unquoted(s: Seq<char>) -> Seq<char> {
    let inner = without_trailing(without_leading(trimmed(s), '"'), '"');
    without_trailing(without_leading(inner, '\''), '\'')
}

/// The release that a manifest names: what stands between the first and the
/// second `=` of its first line that begins with `version`.
pub open spec fn named_version(body: Seq<char>) -> Option<Seq<char>> {
    match version_line(lines(body)) {
        Some(line) => if fields(line, '=').len() > 1 {
            Some(unquoted(fields(line, '=')[1]))
        } else {
            None
        },
        None => None,
    }
}

/// The release that a manifest names.
pub fn manifest_version(body: &str) -> (r: Option<String>)
    ensures
        match r {
            Some(v) => named_version(body@) == Some(v@),
            None => named_version(body@) is None,
        },
{
    let cs = chars_of(body);
    let all = split_lines(cs.as_slice());
    let ghost ls = lines(body@);
    let mut i: usize = 0;
    assert(ls.skip(0) =~= ls);
    while i < all.len()
        invariant
            i <= all.len(),
            ls == texts(all@),
            ls == lines(body@),
            version_line(ls.skip(i as int)) == version_line(ls),
        decreases all.len() - i,
    {
        let line = chars_of(all[i].as_str());
        assert(ls.skip(i as int)[0] == line@);
        if starts_with(trim_start(line.as_slice()), "version") {
            let parts = split(line.as_slice(), '=');
            assert(texts(parts@).len() == parts.len());
            if parts.len() > 1 {
                let value = chars_of(parts[1].as_str());
                assert(texts(parts@)[1] == value@);
                let inner = cut_trailing(cut_leading(trim(value.as_slice()), '"'), '"');
                return Some(string_of(cut_trailing(cut_leading(inner, '\''), '\'')));
            }
            return None;
        }
        assert(ls.skip(i as int).drop_first() =~= ls.skip(i + 1));
        i += 1;
    }
    None
}

/// Being newer orders the releases: none is newer than itself, of two at most
/// one is the newer, and it carries over.
pub proof fn newer_is_an_order(a: Seq<nat>, b: Seq<nat>, c: Seq<nat>)
    ensures
        !newer(a, a),
        newer(a, b) ==> !newer(b, a),
        newer(a, b) && newer(b, c) ==> newer(a, c),
        a != b ==> newer(a, b) || newer(b, a),
    decreases a.len() + b.len() + c.len(),
{
    if a.len() > 0 {
        let x = a.drop_first();
        newer_is_an_order(
            x,
            if b.len() > 0 {
                b.drop_first()
            } else {
                b
            },
            if c.len() > 0 {
                c.drop_first()
            } else {
                c
            },
        );
        if b.len() > 0 && a[0] == b[0] && x == b.drop_first() {
            assert(a =~= b) by {
                assert forall|i: int| 0 <= i < a.len() && i < b.len() implies a[i] == b[i] by {
                    if i > 0 {
                        assert(x[i - 1] == b.drop_first()[i - 1]);
                    }
                }
                assert(x.len() == b.drop_first().len());
            }
        }
    } else {
        if b.len() == 0 {
            assert(a =~= b);
        }
    }
}

/// Of two releases the one with the greater number at the first difference is
/// newer; one that goes on behind the numbers of the other is newer too.
pub proof fn the_first_difference_decides(a: Seq<nat>, b: Seq<nat>, k: int)
    requires
        0 <= k <= a.len(),
        k <= b.len(),
        forall|j: int| 0 <= j < k ==> a[j] == b[j],
    ensures
        k < a.len() && k < b.len() && a[k] != b[k] ==> (newer(a, b) <==> b[k] > a[k]),
        k == a.len() && k < b.len() ==> newer(a, b),
        k == b.len() ==> !newer(a, b),
    decreases k,
{
    if k > 0 {
        let x = a.drop_first();
        let y = b.drop_first();
        assert(a[0] == b[0]);
        assert forall|j: int| 0 <= j < k - 1 implies x[j] == y[j] by {
            assert(a[j + 1] == b[j + 1]);
        }
        the_first_difference_decides(x, y, k - 1);
    }
}

proof fn lemma_digits_lead(s: Seq<char>)
    requires
        crate::text::all_digits(s),
    ensures
        leading_digits(s) == s,
    decreases s.len(),
{
    if s.len() > 0 {
        assert(is_digit(s[0]));
        let t = s.drop_first();
        assert forall|i: int| 0 <= i < t.len() implies is_digit(#[trigger] t[i]) by {
            assert(t[i] == s[i + 1]);
        }
        lemma_digits_lead(t);
        assert(seq![s[0]] + t =~= s);
    }
}

/// The three numbers of a release are read between its dots, with or without a
/// v in front.
pub proof fn releases_are_read(a: u64, b: u64, c: u64)
    ensures
        ({
            let text = crate::text::decimal(a as nat) + seq!['.'] + crate::text::decimal(b as nat)
                + seq!['.'] + crate::text::decimal(c as nat);
            &&& release(text) == seq![a as nat, b as nat, c as nat]
            &&& release(seq!['v'] + text) == seq![a as nat, b as nat, c as nat]
        }),
{
    let x = crate::text::decimal(a as nat);
    let y = crate::text::decimal(b as nat);
    let z = crate::text::decimal(c as nat);
    let dot = seq!['.'];
    let text = x + dot + y + dot + z;
    crate::text::decimal_reads_back(a as nat, u64::MAX as nat);
    crate::text::decimal_reads_back(b as nat, u64::MAX as nat);
    crate::text::decimal_reads_back(c as nat, u64::MAX as nat);
    crate::text::digits_are_no_marks(a as nat, '.');
    crate::text::digits_are_no_marks(b as nat, '.');
    crate::text::digits_are_no_marks(c as nat, '.');
    crate::net::lemma_fields_cons(x, '.', y + dot + z);
    crate::net::lemma_fields_cons(y, '.', z);
    crate::net::lemma_fields_one(z, '.');
    assert(text =~= x + dot + (y + dot + z));
    let parts = seq![x, y, z];
    assert(fields(text, '.') =~= parts);
    lemma_digits_lead(x);
    lemma_digits_lead(y);
    lemma_digits_lead(z);
    let two = parts.drop_last();
    let one = two.drop_last();
    assert(one.drop_last() =~= Seq::<Seq<char>>::empty());
    assert(numbers_of(one.drop_last()) =~= Seq::<nat>::empty());
    assert(numbers_of(one) =~= seq![a as nat]);
    assert(two.last() == y);
    assert(numbers_of(two) =~= seq![a as nat, b as nat]);
    assert(numbers_of(parts) =~= seq![a as nat, b as nat, c as nat]);
    assert(is_digit(x[0]));
    assert(is_digit(z[z.len() - 1]));
    assert(text[0] == x[0]);
    assert(text[text.len() - 1] == z[z.len() - 1]);
    lemma_no_blanks_around(text);
    assert(without_leading(text, 'v') == text);
    let with = seq!['v'] + text;
    assert(with[with.len() - 1] == text[text.len() - 1]);
    lemma_no_blanks_around(with);
    assert(with.drop_first() =~= text);
    assert(without_leading(with, 'v') == without_leading(with.drop_first(), 'v'));
}

proof fn lemma_no_blanks_around(s: Seq<char>)
    requires
        s.len() > 0,
        !crate::text::is_space(s[0]),
        !crate::text::is_space(s[s.len() - 1]),
    ensures
        trimmed(s) == s,
{
    assert(s.last() == s[s.len() - 1]);
}

/// A manifest names the release of its first version line, without its quotes.
pub proof fn manifests_name_their_release(v: Seq<char>, rest: Seq<char>)
    requires
        v.len() > 0,
        forall|i: int|
            0 <= i < v.len() ==> is_digit(#[trigger] v[i]) || v[i] == '.',
    ensures
        named_version("version = \""@ + v + "\"\n"@ + rest) == Some(v),
{
    reveal_strlit("version = \"");
    reveal_strlit("\"\n");
    reveal_strlit("version");
    let line = "version = \""@ + v + seq!['"'];
    let body = "version = \""@ + v + "\"\n"@ + rest;
    assert(body =~= line + seq!['\n'] + rest);
    assert forall|j: int| 0 <= j < line.len() implies line[j] != '\n' by {
        if 11 <= j < 11 + v.len() {
            assert(line[j] == v[j - 11]);
        }
    }
    crate::text::lines_end_at_line_feeds(line, rest);
    assert(line.last() == '"');
    let all = lines(body);
    assert(all[0] == line);
    assert(line[0] == 'v');
    assert(trimmed_start(line) == line);
    assert(line.subrange(0, 7) =~= "version"@);
    assert(begins(line, "version"@));
    let name = "version "@;
    reveal_strlit("version ");
    let value = seq![' ', '"'] + v + seq!['"'];
    assert(line =~= name + seq!['='] + value);
    assert forall|j: int| 0 <= j < value.len() implies value[j] != '=' by {
        if 2 <= j < 2 + v.len() {
            assert(value[j] == v[j - 2]);
        }
    }
    crate::net::lemma_fields_cons(name, '=', value);
    crate::net::lemma_fields_one(value, '=');
    assert(fields(line, '=') =~= seq![name, value]);
    let quoted = seq!['"'] + v + seq!['"'];
    assert(value.drop_first() =~= quoted);
    assert(quoted[0] == '"' && quoted.last() == '"');
    assert(trimmed_start(value) == trimmed_start(value.drop_first()));
    assert(trimmed_start(quoted) == quoted);
    assert(crate::text::trimmed_end(quoted) == quoted);
    assert(trimmed(value) == quoted);
    let open = v + seq!['"'];
    assert(quoted.drop_first() =~= open);
    assert(open[0] == v[0]);
    assert(is_digit(v[0]) || v[0] == '.');
    let last = v[v.len() - 1];
    assert(is_digit(last) || last == '.');
    assert(without_leading(open, '"') == open);
    assert(without_leading(quoted, '"') == open);
    assert(open.drop_last() =~= v);
    assert(v.last() == last);
    assert(without_trailing(v, '"') == v);
    assert(without_trailing(open, '"') == v);
    assert(without_leading(v, '\'') == v);
    assert(without_trailing(v, '\'') == v);
}

/// Every one of a character is taken off an end, and nothing else is.
pub proof fn ends_are_taken_off(s: Seq<char>, c: char)
    ensures
        without_leading(seq![c] + s, c) == without_leading(s, c),
        without_trailing(s + seq![c], c) == without_trailing(s, c),
        s.len() == 0 || s[0] != c ==> without_leading(s, c) == s,
        s.len() == 0 || s.last() != c ==> without_trailing(s, c) == s,
{
    assert((seq![c] + s).drop_first() =~= s);
    assert((s + seq![c]).drop_last() =~= s);
}

} // verus!
