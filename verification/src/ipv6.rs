//! IPv6 addresses and addresses of either kind: their text forms.

use crate::net::{
    ip_text, ip_text_reads_back, lemma_fields_cons, lemma_fields_one, only_its_text_is_an_address,
    read_ip, Ipv4Addr,
};
use crate::text::{
    chars_of, decimal, digits_are_no_marks, fields, joined, joined_texts_split_again, split, texts,
};
use vstd::prelude::*;
use vstd::slice::slice_subrange;

verus! {

/// An IPv6 address as its eight groups.
#[derive(Clone, Copy, Debug)]
pub struct Ipv6Addr {
    pub groups: [u16; 8],
}

/// An address of either kind.
#[derive(Clone, Copy, Debug)]
pub enum IpAddr {
    V4(Ipv4Addr),
    V6(Ipv6Addr),
}

// ---------------------------------------------------------------------------
// Reading
// ---------------------------------------------------------------------------

/// The value of a hexadecimal digit.
pub open spec fn hex_value(c: char) -> Option<u16> {
    if '0' <= c <= '9' {
        Some((c as u32 - 48) as u16)
    } else if 'a' <= c <= 'f' {
        Some((c as u32 - 87) as u16)
    } else if 'A' <= c <= 'F' {
        Some((c as u32 - 55) as u16)
    } else {
        None
    }
}

/// The number that hexadecimal digits write.
pub open spec fn hex_number(s: Seq<char>) -> Option<int>
    decreases s.len(),
{
    if s.len() == 0 {
        Some(0)
    } else {
        match (hex_number(s.drop_last()), hex_value(s.last())) {
            (Some(n), Some(d)) => Some(16 * n + d),
            _ => None,
        }
    }
}

/// The group that a text writes: one to four hexadecimal digits.
pub open spec fn read_group(s: Seq<char>) -> Option<u16> {
    if 1 <= s.len() <= 4 {
        match hex_number(s) {
            Some(n) => Some(n as u16),
            None => None,
        }
    } else {
        None
    }
}

/// An IPv4 address as the last two groups of an address.
pub open spec fn v4_groups(ip: Ipv4Addr) -> Seq<u16> {
    seq![(256 * ip.a + ip.b) as u16, (256 * ip.c + ip.d) as u16]
}

/// The groups that fields write; where it is allowed, the last field may be
/// an IPv4 address.
pub open spec fn field_groups(parts: Seq<Seq<char>>, v4: bool) -> Option<Seq<u16>>
    decreases parts.len(),
{
    if parts.len() == 0 {
        Some(Seq::empty())
    } else if parts.len() == 1 && v4 && read_ip(parts[0]) is Some {
        Some(v4_groups(read_ip(parts[0])->0))
    } else {
        match (read_group(parts[0]), field_groups(parts.drop_first(), v4)) {
            (Some(g), Some(rest)) => Some(seq![g] + rest),
            _ => None,
        }
    }
}

/// The groups that a text writes between colons; an empty text has none.
pub open spec fn read_groups(s: Seq<char>, v4: bool) -> Option<Seq<u16>> {
    if s.len() == 0 {
        Some(Seq::empty())
    } else {
        field_groups(fields(s, ':'), v4)
    }
}

/// Some groups of zero.
pub open spec fn zeros(n: int) -> Seq<u16> {
    Seq::new(n as nat, |i: int| 0u16)
}

/// The groups of an address around its first `::`, which stands for one group
/// of zero at the least.
pub open spec fn joined_groups(a: Option<Seq<u16>>, b: Option<Seq<u16>>) -> Option<Seq<u16>> {
    match (a, b) {
        (Some(a), Some(b)) => if a.len() + b.len() <= 7 {
            Some(a + zeros(8 - a.len() - b.len()) + b)
        } else {
            None
        },
        _ => None,
    }
}

/// The place of the first `::` from a place on, or the length.
pub open spec fn gap_from(s: Seq<char>, i: int) -> int
    decreases s.len() - i,
{
    if i < 0 || i + 1 >= s.len() {
        s.len() as int
    } else if s[i] == ':' && s[i + 1] == ':' {
        i
    } else {
        gap_from(s, i + 1)
    }
}

/// The eight groups of the IPv6 address that a text writes.
pub open spec fn read_ip6(s: Seq<char>) -> Option<Seq<u16>> {
    let i = gap_from(s, 0);
    if i < s.len() {
        joined_groups(read_groups(s.take(i), false), read_groups(s.skip(i + 2), true))
    } else {
        match read_groups(s, true) {
            Some(g) => if g.len() == 8 {
                Some(g)
            } else {
                None
            },
            None => None,
        }
    }
}

fn hex_of(c: char) -> (r: Option<u16>)
    ensures
        r == hex_value(c),
{
    if '0' <= c && c <= '9' {
        Some((c as u32 - 48) as u16)
    } else if 'a' <= c && c <= 'f' {
        Some((c as u32 - 87) as u16)
    } else if 'A' <= c && c <= 'F' {
        Some((c as u32 - 55) as u16)
    } else {
        None
    }
}

fn parse_group(s: &[char]) -> (r: Option<u16>)
    ensures
        r == read_group(s@),
{
    if s.len() == 0 || s.len() > 4 {
        return None;
    }
    let mut n: u32 = 0;
    let mut i: usize = 0;
    while i < s.len()
        invariant
            i <= s.len() <= 4,
            hex_number(s@.take(i as int)) == Some(n as int),
            i == 0 ==> n == 0,
            i == 1 ==> n <= 15,
            i == 2 ==> n <= 255,
            i == 3 ==> n <= 4095,
            i == 4 ==> n <= 65535,
        decreases s.len() - i,
    {
        assert(s@.take(i + 1).drop_last() =~= s@.take(i as int));
        match hex_of(s[i]) {
            Some(d) => {
                n = 16 * n + d as u32;
            },
            None => {
                proof {
                    lemma_hex_prefix(s@, i + 1);
                }
                return None;
            },
        }
        i += 1;
    }
    assert(s@.take(s.len() as int) =~= s@);
    Some(n as u16)
}

proof fn lemma_hex_prefix(s: Seq<char>, i: int)
    requires
        0 <= i <= s.len(),
        hex_number(s.take(i)) is None,
    ensures
        hex_number(s) is None,
    decreases s.len() - i,
{
    if i < s.len() {
        assert(s.take(i + 1).drop_last() =~= s.take(i));
        lemma_hex_prefix(s, i + 1);
    } else {
        assert(s.take(i) =~= s);
    }
}

fn parse_groups(s: &[char], v4: bool) -> (r: Option<Vec<u16>>)
    ensures
        match r {
            Some(g) => read_groups(s@, v4) == Some(g@),
            None => read_groups(s@, v4) is None,
        },
{
    let mut groups: Vec<u16> = Vec::new();
    if s.len() == 0 {
        assert(groups@ =~= Seq::<u16>::empty());
        return Some(groups);
    }
    let parts = split(s, ':');
    let ghost all = texts(parts@);
    let mut i: usize = 0;
    assert(all.skip(0) =~= all);
    while i < parts.len()
        invariant
            i <= parts.len(),
            all == texts(parts@),
            all == fields(s@, ':'),
            s.len() > 0,
            field_groups(all, v4) == match field_groups(all.skip(i as int), v4) {
                Some(rest) => Some(groups@ + rest),
                None => None,
            },
        decreases parts.len() - i,
    {
        let part = chars_of(parts[i].as_str());
        let ghost rest = all.skip(i as int);
        assert(rest[0] == part@);
        assert(rest.drop_first() =~= all.skip(i + 1));
        if i + 1 == parts.len() && v4 {
            if let Some(ip) = Ipv4Addr::parse(part.as_slice()) {
                groups.push(256 * ip.a as u16 + ip.b as u16);
                groups.push(256 * ip.c as u16 + ip.d as u16);
                return Some(groups);
            }
        }
        match parse_group(part.as_slice()) {
            Some(g) => {
                let ghost before = groups@;
                groups.push(g);
                proof {
                    match field_groups(all.skip(i + 1), v4) {
                        Some(more) => {
                            assert(before + (seq![g] + more) =~= groups@ + more);
                        },
                        None => {},
                    }
                }
            },
            None => {
                return None;
            },
        }
        i += 1;
    }
    assert(groups@ + Seq::<u16>::empty() =~= groups@);
    Some(groups)
}

fn find_gap(s: &[char]) -> (i: usize)
    ensures
        i == gap_from(s@, 0),
        i < s.len() ==> i + 2 <= s.len(),
{
    let mut i: usize = 0;
    while i < s.len() && i + 1 < s.len()
        invariant
            i <= s.len(),
            gap_from(s@, i as int) == gap_from(s@, 0),
        decreases s.len() - i,
    {
        if s[i] == ':' && s[i + 1] == ':' {
            return i;
        }
        i += 1;
    }
    s.len()
}

impl Ipv6Addr {
    /// The address with the given groups.
    fn of_groups(g: &Vec<u16>) -> (r: Self)
        requires
            g.len() == 8,
        ensures
            r.groups@ == g@,
    {
        let groups = [g[0], g[1], g[2], g[3], g[4], g[5], g[6], g[7]];
        assert(groups@ =~= g@);
        Ipv6Addr { groups }
    }

    /// Reads an address from its text form.
    pub fn parse(s: &[char]) -> (r: Option<Self>)
        ensures
            match r {
                Some(ip) => read_ip6(s@) == Some(ip.groups@),
                None => read_ip6(s@) is None,
            },
    {
        let i: usize = find_gap(s);
        if i < s.len() {
            let head = slice_subrange(s, 0, i);
            let tail = slice_subrange(s, i + 2, s.len());
            assert(head@ =~= s@.take(i as int));
            assert(tail@ =~= s@.skip(i + 2));
            match (parse_groups(head, false), parse_groups(tail, true)) {
                (Some(a), Some(b)) => {
                    if a.len() > 7 || b.len() > 7 || a.len() + b.len() > 7 {
                        return None;
                    }
                    let mut g = a;
                    while g.len() + b.len() < 8
                        invariant
                            a.len() <= g.len(),
                            g.len() + b.len() <= 8,
                            g@ == a@ + zeros(g.len() - a.len()),
                        decreases 8 - g.len(),
                    {
                        g.push(0);
                        assert(g@ =~= a@ + zeros(g.len() - a.len()));
                    }
                    let mut j: usize = 0;
                    let ghost head = g@;
                    while j < b.len()
                        invariant
                            j <= b.len(),
                            head.len() + b.len() == 8,
                            g@ == head + b@.take(j as int),
                        decreases b.len() - j,
                    {
                        g.push(b[j]);
                        j += 1;
                        assert(g@ =~= head + b@.take(j as int));
                    }
                    assert(b@.take(b.len() as int) =~= b@);
                    Some(Ipv6Addr::of_groups(&g))
                },
                _ => None,
            }
        } else {
            match parse_groups(s, true) {
                Some(g) => if g.len() == 8 {
                    Some(Ipv6Addr::of_groups(&g))
                } else {
                    None
                },
                None => None,
            }
        }
    }

    /// The sixteen octets in network order.
    pub fn octets(self) -> (r: Vec<u8>)
        ensures
            r@ == group_octets(self.groups@),
    {
        let mut r: Vec<u8> = Vec::new();
        let mut i: usize = 0;
        while i < 8
            invariant
                i <= 8,
                r@ == group_octets(self.groups@.take(i as int)),
            decreases 8 - i,
        {
            let g: u16 = self.groups[i];
            assert(self.groups@.take(i + 1).drop_last() =~= self.groups@.take(i as int));
            r.push((g / 256) as u8);
            r.push((g % 256) as u8);
            assert(r@ =~= group_octets(self.groups@.take(i + 1)));
            i += 1;
        }
        assert(self.groups@.take(8) =~= self.groups@);
        r
    }
}

/// Groups as octets, the higher one of each first.
pub open spec fn group_octets(g: Seq<u16>) -> Seq<u8>
    decreases g.len(),
{
    if g.len() == 0 {
        Seq::empty()
    } else {
        group_octets(g.drop_last()) + seq![(g.last() / 256) as u8, (g.last() % 256) as u8]
    }
}

// ---------------------------------------------------------------------------
// Writing
// ---------------------------------------------------------------------------

/// The lower-case hexadecimal digit of a number below sixteen.
pub open spec fn hex_char(n: int) -> char {
    if n < 10 {
        (48 + n) as char
    } else {
        (87 + n) as char
    }
}

/// A number in hexadecimal digits, without leading zeros.
pub open spec fn hex_text(n: int) -> Seq<char>
    decreases n,
{
    if n < 16 {
        seq![hex_char(n)]
    } else {
        hex_text(n / 16).push(hex_char(n % 16))
    }
}

fn char_of_hex(n: u16) -> (c: char)
    requires
        n < 16,
    ensures
        c == hex_char(n as int),
{
    if n < 10 {
        (48u8 + n as u8) as char
    } else {
        (87u8 + n as u8) as char
    }
}

fn push_hex(s: &mut String, n: u16)
    ensures
        final(s)@ == old(s)@ + hex_text(n as int),
    decreases n,
{
    let ghost before = s@;
    if n >= 16 {
        push_hex(s, n / 16);
    }
    s.push(char_of_hex(n % 16));
    assert(s@ =~= before + hex_text(n as int));
}

/// Groups in hexadecimal between colons.
pub open spec fn groups_text(g: Seq<u16>) -> Seq<char>
    decreases g.len(),
{
    if g.len() == 0 {
        Seq::empty()
    } else if g.len() == 1 {
        hex_text(g[0] as int)
    } else {
        groups_text(g.drop_last()) + seq![':'] + hex_text(g.last() as int)
    }
}

/// How many groups of zero stand from a place on.
pub open spec fn zeros_from(g: Seq<u16>, i: int) -> int
    decreases g.len() - i,
{
    if i < 0 || i >= g.len() || g[i] != 0 {
        0
    } else {
        1 + zeros_from(g, i + 1)
    }
}

/// Where the longest run of zeros from a place on begins; the first of several.
pub open spec fn run_start(g: Seq<u16>, i: int) -> int
    decreases g.len() - i,
{
    if i < 0 || i >= g.len() {
        g.len() as int
    } else {
        let rest = run_start(g, i + 1);
        if zeros_from(g, i) >= zeros_from(g, rest) {
            i
        } else {
            rest
        }
    }
}

/// Whether an address is an IPv4 address in IPv6 form.
pub open spec fn is_mapped(g: Seq<u16>) -> bool {
    g.len() == 8 && g[0] == 0 && g[1] == 0 && g[2] == 0 && g[3] == 0 && g[4] == 0 && g[5] == 0xffff
}

/// The IPv4 address in the last two groups.
pub open spec fn mapped_ip(g: Seq<u16>) -> Ipv4Addr {
    Ipv4Addr {
        a: (g[6] / 256) as u8,
        b: (g[6] % 256) as u8,
        c: (g[7] / 256) as u8,
        d: (g[7] % 256) as u8,
    }
}

/// An address in its canonical form: the longest run of two zeros or more
/// shrinks to `::`.
pub open spec fn ip6_text(g: Seq<u16>) -> Seq<char> {
    let i = run_start(g, 0);
    let n = zeros_from(g, i);
    if is_mapped(g) {
        "::ffff:"@ + ip_text(mapped_ip(g))
    } else if n > 1 {
        groups_text(g.take(i)) + "::"@ + groups_text(g.skip(i + n))
    } else {
        groups_text(g)
    }
}

fn push_groups(s: &mut String, g: &[u16])
    ensures
        final(s)@ == old(s)@ + groups_text(g@),
{
    let ghost before = s@;
    let mut i: usize = 0;
    assert(g@.take(0) =~= Seq::<u16>::empty());
    assert(s@ =~= before + groups_text(g@.take(0)));
    while i < g.len()
        invariant
            i <= g.len(),
            s@ == before + groups_text(g@.take(i as int)),
        decreases g.len() - i,
    {
        if i > 0 {
            s.push(':');
        }
        push_hex(s, g[i]);
        assert(g@.take(i + 1).drop_last() =~= g@.take(i as int));
        assert(s@ =~= before + groups_text(g@.take(i + 1)));
        i += 1;
    }
    assert(g@.take(g.len() as int) =~= g@);
}

fn count_zeros(g: &[u16], i: usize) -> (n: usize)
    requires
        i <= g.len(),
    ensures
        n == zeros_from(g@, i as int),
        n <= g.len() - i,
    decreases g.len() - i,
{
    if i == g.len() || g[i] != 0 {
        0
    } else {
        1 + count_zeros(g, i + 1)
    }
}

fn longest_run(g: &[u16], i: usize) -> (r: (usize, usize))
    requires
        i <= g.len(),
    ensures
        r.0 == run_start(g@, i as int),
        r.1 == zeros_from(g@, r.0 as int),
        r.0 + r.1 <= g.len(),
    decreases g.len() - i,
{
    if i == g.len() {
        (i, 0)
    } else {
        let rest = longest_run(g, i + 1);
        let here: usize = count_zeros(g, i);
        if here >= rest.1 {
            (i, here)
        } else {
            rest
        }
    }
}

impl Ipv6Addr {
    /// The address in its canonical form.
    pub fn to_text(self) -> (s: String)
        ensures
            s@ == ip6_text(self.groups@),
    {
        let g = self.groups.as_slice();
        if g[0] == 0 && g[1] == 0 && g[2] == 0 && g[3] == 0 && g[4] == 0 && g[5] == 0xffff {
            let mut s = "::ffff:".to_owned();
            let ip = Ipv4Addr::new(
                (g[6] / 256) as u8,
                (g[6] % 256) as u8,
                (g[7] / 256) as u8,
                (g[7] % 256) as u8,
            );
            ip.push_text(&mut s);
            return s;
        }
        let (i, n) = longest_run(g, 0);
        let mut s = String::new();
        if n > 1 {
            push_groups(&mut s, slice_subrange(g, 0, i));
            s.append("::");
            push_groups(&mut s, slice_subrange(g, i + n, g.len()));
            assert(g@.subrange(0, i as int) =~= g@.take(i as int));
            assert(g@.subrange(i + n, g.len() as int) =~= g@.skip(i + n));
        } else {
            push_groups(&mut s, g);
        }
        assert(s@ =~= ip6_text(self.groups@));
        s
    }
}

/// The canonical form of the address that a text writes, of either kind.
pub open spec fn canonical_ip(s: Seq<char>) -> Option<Seq<char>> {
    match read_ip(s) {
        Some(ip) => Some(ip_text(ip)),
        None => match read_ip6(s) {
            Some(g) => Some(ip6_text(g)),
            None => None,
        },
    }
}

impl IpAddr {
    /// Reads an address of either kind.
    pub fn parse(s: &[char]) -> (r: Option<Self>)
        ensures
            match r {
                Some(IpAddr::V4(ip)) => read_ip(s@) == Some(ip),
                Some(IpAddr::V6(ip)) => read_ip(s@) is None && read_ip6(s@) == Some(ip.groups@),
                None => read_ip(s@) is None && read_ip6(s@) is None,
            },
    {
        match Ipv4Addr::parse(s) {
            Some(ip) => Some(IpAddr::V4(ip)),
            None => match Ipv6Addr::parse(s) {
                Some(ip) => Some(IpAddr::V6(ip)),
                None => None,
            },
        }
    }

    /// The address in its canonical form.
    pub fn to_text(self) -> (s: String)
        ensures
            s@ == (match self {
                IpAddr::V4(ip) => ip_text(ip),
                IpAddr::V6(ip) => ip6_text(ip.groups@),
            }),
    {
        match self {
            IpAddr::V4(ip) => ip.to_text(),
            IpAddr::V6(ip) => ip.to_text(),
        }
    }
}

/// The octets of an address are those of its groups, the higher one of each
/// first.
pub proof fn octets_go_high_byte_first(g: Seq<u16>, i: int)
    requires
        0 <= i < g.len(),
    ensures
        group_octets(g).len() == 2 * g.len(),
        group_octets(g)[2 * i] * 256 + group_octets(g)[2 * i + 1] == g[i],
    decreases g.len(),
{
    let rest = g.drop_last();
    lemma_octet_count(rest);
    if i < rest.len() {
        octets_go_high_byte_first(rest, i);
        assert(group_octets(g)[2 * i] == group_octets(rest)[2 * i]);
        assert(group_octets(g)[2 * i + 1] == group_octets(rest)[2 * i + 1]);
    }
}

proof fn lemma_octet_count(g: Seq<u16>)
    ensures
        group_octets(g).len() == 2 * g.len(),
    decreases g.len(),
{
    if g.len() > 0 {
        lemma_octet_count(g.drop_last());
    }
}

/// Whether a text is made of lower-case hexadecimal digits.
pub open spec fn all_hex(s: Seq<char>) -> bool {
    forall|j: int| 0 <= j < s.len() ==> '0' <= #[trigger] s[j] <= '9' || 'a' <= s[j] <= 'f'
}

/// A group is written in one to four digits, and read back from them.
pub proof fn groups_read_back(n: u16)
    ensures
        1 <= hex_text(n as int).len() <= 4,
        all_hex(hex_text(n as int)),
        read_group(hex_text(n as int)) == Some(n),
        n >= 16 ==> hex_text(n as int)[0] != '0',
{
    lemma_hex(n as int);
    reveal_with_fuel(hex_text, 5);
}

proof fn lemma_hex(n: int)
    requires
        0 <= n,
    ensures
        hex_number(hex_text(n)) == Some(n),
        all_hex(hex_text(n)),
    decreases n,
{
    let s = hex_text(n);
    if n < 16 {
        assert(s.drop_last() =~= Seq::<char>::empty());
        assert(hex_number(s.drop_last()) == Some(0int));
        assert(s.last() == hex_char(n));
    } else {
        lemma_hex(n / 16);
        assert(s.drop_last() =~= hex_text(n / 16));
        assert(s.last() == hex_char(n % 16));
        assert forall|j: int| 0 <= j < s.len() implies '0' <= #[trigger] s[j] <= '9' || 'a' <= s[j]
            <= 'f' by {
            if j < s.len() - 1 {
                assert(s[j] == hex_text(n / 16)[j]);
            }
        }
    }
}

spec fn group_texts(g: Seq<u16>) -> Seq<Seq<char>> {
    g.map_values(|n: u16| hex_text(n as int))
}

proof fn lemma_groups_joined(g: Seq<u16>)
    ensures
        groups_text(g) == joined(group_texts(g), seq![':']),
    decreases g.len(),
{
    if g.len() > 1 {
        lemma_groups_joined(g.drop_last());
        assert(group_texts(g).drop_last() =~= group_texts(g.drop_last()));
    }
}

proof fn lemma_group_fields(g: Seq<u16>)
    requires
        g.len() > 0,
    ensures
        fields(groups_text(g), ':') == group_texts(g),
        groups_text(g).len() > 0,
{
    let v = group_texts(g);
    assert forall|i: int, j: int| 0 <= i < v.len() && 0 <= j < v[i].len() implies (
    #[trigger] v[i][j]) != ':' by {
        groups_read_back(g[i]);
        assert(v[i] == hex_text(g[i] as int));
    }
    joined_texts_split_again(v, ':');
    lemma_groups_joined(g);
    lemma_no_gap(g);
}

/// Groups between colons neither begin nor end with one, and have no two in a
/// row.
proof fn lemma_no_gap(g: Seq<u16>)
    requires
        g.len() > 0,
    ensures
        groups_text(g).len() > 0,
        groups_text(g)[0] != ':',
        groups_text(g).last() != ':',
        forall|j: int|
            0 <= j < groups_text(g).len() - 1 ==> !(#[trigger] groups_text(g)[j] == ':' && groups_text(
                g,
            )[j + 1] == ':'),
    decreases g.len(),
{
    let last = hex_text(g.last() as int);
    groups_read_back(g.last());
    if g.len() == 1 {
        assert(groups_text(g) == last);
        assert(g[0] == g.last());
    } else {
        lemma_no_gap(g.drop_last());
        let before = groups_text(g.drop_last());
        let all = groups_text(g);
        assert(all == before + seq![':'] + last);
        assert(all.last() == last.last());
        assert(all[0] == before[0]);
        assert forall|j: int| 0 <= j < all.len() - 1 implies !(#[trigger] all[j] == ':' && all[j + 1]
            == ':') by {
            let n = before.len() as int;
            if j + 1 < n {
                assert(all[j] == before[j] && all[j + 1] == before[j + 1]);
            } else if j + 1 == n {
                assert(all[j] == before.last());
            } else if j == n {
                assert(all[j + 1] == last[0]);
            } else {
                assert(all[j] == last[j - n - 1]);
            }
        }
    }
}

proof fn lemma_field_groups(g: Seq<u16>, v4: bool)
    ensures
        field_groups(group_texts(g), v4) == Some(g),
    decreases g.len(),
{
    let v = group_texts(g);
    if g.len() == 0 {
        assert(g =~= Seq::<u16>::empty());
    } else {
        groups_read_back(g[0]);
        let a = hex_text(g[0] as int);
        assert(v[0] == a);
        lemma_fields_one(a, '.');
        assert(read_ip(a) is None);
        assert(v.drop_first() =~= group_texts(g.drop_first()));
        lemma_field_groups(g.drop_first(), v4);
        assert(seq![g[0]] + g.drop_first() =~= g);
    }
}

proof fn lemma_read_groups(g: Seq<u16>, v4: bool)
    ensures
        read_groups(groups_text(g), v4) == Some(g),
{
    if g.len() == 0 {
        assert(g =~= Seq::<u16>::empty());
    } else {
        lemma_group_fields(g);
        lemma_field_groups(g, v4);
    }
}

proof fn lemma_gap(s: Seq<char>, i: int, k: int)
    requires
        0 <= i <= k,
        k + 1 < s.len() || k == s.len(),
        k < s.len() ==> s[k] == ':' && s[k + 1] == ':',
        forall|j: int| i <= j < k && j + 1 < s.len() ==> !(#[trigger] s[j] == ':' && s[j + 1] == ':'),
    ensures
        gap_from(s, i) == k,
    decreases k - i,
{
    if i < k && i + 1 < s.len() {
        assert(!(s[i] == ':' && s[i + 1] == ':'));
        lemma_gap(s, i + 1, k);
    }
}

proof fn lemma_zeros(g: Seq<u16>, i: int)
    requires
        0 <= i <= g.len(),
    ensures
        0 <= zeros_from(g, i) <= g.len() - i,
        forall|k: int| i <= k < i + zeros_from(g, i) ==> #[trigger] g[k] == 0,
        i + zeros_from(g, i) < g.len() ==> g[i + zeros_from(g, i)] != 0,
    decreases g.len() - i,
{
    if i < g.len() && g[i] == 0 {
        lemma_zeros(g, i + 1);
    }
}

/// The run of zeros that shrinks is the longest, and the first of those that
/// are as long.
pub proof fn the_longest_run_shrinks(g: Seq<u16>, i: int, j: int)
    requires
        0 <= i <= j < g.len(),
    ensures
        i <= run_start(g, i) < g.len(),
        zeros_from(g, j) <= zeros_from(g, run_start(g, i)),
        j < run_start(g, i) ==> zeros_from(g, j) < zeros_from(g, run_start(g, i)),
    decreases g.len() - i,
{
    lemma_zeros(g, i);
    if i + 1 < g.len() {
        if j > i {
            the_longest_run_shrinks(g, i + 1, j);
        } else {
            the_longest_run_shrinks(g, i + 1, i + 1);
        }
    } else {
        assert(run_start(g, i + 1) == g.len());
        assert(zeros_from(g, g.len() as int) == 0);
    }
}

/// An address is read back from the text that it is written as.
#[verifier::spinoff_prover]
pub proof fn addresses_read_back(g: Seq<u16>)
    requires
        g.len() == 8,
    ensures
        read_ip6(ip6_text(g)) == Some(g),
{
    reveal_strlit("::ffff:");
    reveal_strlit("::");
    let i = run_start(g, 0);
    let n = zeros_from(g, i);
    the_longest_run_shrinks(g, 0, 0);
    lemma_zeros(g, i);
    let s = ip6_text(g);
    if is_mapped(g) {
        lemma_mapped_reads_back(g);
    } else if n > 1 {
        let a = g.take(i);
        let b = g.skip(i + n);
        let at = groups_text(a);
        let bt = groups_text(b);
        assert("::"@ =~= seq![':', ':']);
        assert(s == at + seq![':', ':'] + bt);
        if a.len() > 0 {
            lemma_no_gap(a);
        } else {
            assert(at.len() == 0);
        }
        assert forall|j: int| 0 <= j < at.len() && j + 1 < s.len() implies !(#[trigger] s[j] == ':'
            && s[j + 1] == ':') by {
            assert(s[j] == at[j]);
            if j + 1 < at.len() {
                assert(s[j + 1] == at[j + 1]);
            } else {
                assert(at[j] == at.last());
            }
        }
        assert(s[at.len() as int] == ':' && s[at.len() as int + 1] == ':');
        lemma_gap(s, 0, at.len() as int);
        assert(s.take(at.len() as int) =~= at);
        assert(s.skip(at.len() as int + 2) =~= bt);
        lemma_read_groups(a, false);
        lemma_read_groups(b, true);
        assert(a + zeros(8 - a.len() - b.len()) + b =~= g);
    } else {
        lemma_no_gap(g);
        lemma_gap(s, 0, s.len() as int);
        lemma_read_groups(g, true);
    }
}

proof fn lemma_mapped_reads_back(g: Seq<u16>)
    requires
        is_mapped(g),
    ensures
        read_ip6("::ffff:"@ + ip_text(mapped_ip(g))) == Some(g),
{
    reveal_strlit("::ffff:");
    let ip = mapped_ip(g);
    let t = ip_text(ip);
    let s = "::ffff:"@ + t;
    lemma_gap(s, 0, 0);
    assert(s.take(0) =~= Seq::<char>::empty());
    let mark = seq!['f', 'f', 'f', 'f'];
    let behind = s.skip(2);
    assert(behind =~= mark + seq![':'] + t);
    lemma_ip_has_no_colon(ip);
    lemma_fields_one(t, ':');
    lemma_fields_cons(mark, ':', t);
    let parts = fields(behind, ':');
    assert(parts =~= seq![mark, t]);
    ip_text_reads_back(ip);
    let one = parts.drop_first();
    assert(one =~= seq![t]);
    assert(field_groups(one, true) == Some(v4_groups(ip)));
    reveal_with_fuel(hex_number, 5);
    assert(mark.drop_last().drop_last().drop_last().drop_last().len() == 0);
    assert(hex_number(mark) == Some(0xffffint));
    assert(read_group(mark) == Some(0xffffu16));
    assert(field_groups(parts, true) == Some(seq![0xffffu16] + v4_groups(ip)));
    let b = seq![0xffffu16] + v4_groups(ip);
    assert(256 * ip.a + ip.b == g[6]);
    assert(256 * ip.c + ip.d == g[7]);
    assert(Seq::<u16>::empty() + zeros(5) + b =~= g);
}

proof fn lemma_ip_has_no_colon(ip: Ipv4Addr)
    ensures
        forall|j: int| 0 <= j < ip_text(ip).len() ==> (#[trigger] ip_text(ip)[j]) != ':',
{
    digits_are_no_marks(ip.a as nat, ':');
    digits_are_no_marks(ip.b as nat, ':');
    digits_are_no_marks(ip.c as nat, ':');
    digits_are_no_marks(ip.d as nat, ':');
    let a = decimal(ip.a as nat);
    let b = decimal(ip.b as nat);
    let c = decimal(ip.c as nat);
    let d = decimal(ip.d as nat);
    let t = ip_text(ip);
    assert forall|j: int| 0 <= j < t.len() implies (#[trigger] t[j]) != ':' by {
        let m = a.len() as int;
        let n = m + 1 + b.len();
        let o = n + 1 + c.len();
        if j < m {
            assert(t[j] == a[j]);
        } else if m < j < n {
            assert(t[j] == b[j - m - 1]);
        } else if n < j < o {
            assert(t[j] == c[j - n - 1]);
        } else if o < j {
            assert(t[j] == d[j - o - 1]);
        }
    }
}

/// An IPv6 address that is not an IPv4 address in disguise is its groups between
/// colons, in order; two or more zeros in a row shrink to two colons once.
pub proof fn addresses_are_their_groups(g: Seq<u16>)
    requires
        g.len() == 8,
        !is_mapped(g),
    ensures
        (forall|k: int| 0 <= k < 7 ==> !(#[trigger] g[k] == 0 && g[k + 1] == 0)) ==> ip6_text(g)
            == groups_text(g),
        ({
            let i = run_start(g, 0);
            let n = zeros_from(g, i);
            n > 1 ==> ip6_text(g) == groups_text(g.take(i)) + seq![':', ':'] + groups_text(
                g.skip(i + n),
            )
        }),
{
    reveal_strlit("::");
    assert("::"@ =~= seq![':', ':']);
    let i = run_start(g, 0);
    the_longest_run_shrinks(g, 0, 0);
    lemma_zeros(g, i);
    if zeros_from(g, i) > 1 {
        assert(g[i] == 0);
        assert(g[i + 1] == 0);
    }
}

/// The canonical form of an address is its own canonical form.
pub proof fn canonical_forms_stay(s: Seq<char>, t: Seq<char>)
    requires
        canonical_ip(s) == Some(t),
    ensures
        canonical_ip(t) == Some(t),
{
    match read_ip(s) {
        Some(ip) => {
            ip_text_reads_back(ip);
        },
        None => {
            let g = read_ip6(s)->0;
            lemma_eight(s);
            addresses_read_back(g);
            lemma_has_colon(g);
            if read_ip(t) is Some {
                let ip = read_ip(t)->0;
                only_its_text_is_an_address(t, ip);
                lemma_ip_has_no_colon(ip);
            }
        },
    }
}

proof fn lemma_eight(s: Seq<char>)
    ensures
        read_ip6(s) is Some ==> read_ip6(s)->0.len() == 8,
{
}

proof fn lemma_has_colon(g: Seq<u16>)
    requires
        g.len() == 8,
    ensures
        exists|j: int| 0 <= j < ip6_text(g).len() && #[trigger] ip6_text(g)[j] == ':',
{
    reveal_strlit("::ffff:");
    reveal_strlit("::");
    let s = ip6_text(g);
    let i = run_start(g, 0);
    let n = zeros_from(g, i);
    if is_mapped(g) {
        assert(s[0] == ':');
    } else if n > 1 {
        let a = groups_text(g.take(i));
        assert(s[a.len() as int] == ':');
    } else {
        let a = groups_text(g.drop_last());
        assert(s[a.len() as int] == ':');
    }
}

/// Hexadecimal digits are read in either case, each more significant than those
/// behind it.
pub proof fn digits_count_by_their_place(s: Seq<char>, c: char, n: int)
    requires
        hex_number(s) == Some(n),
    ensures
        '0' <= c <= '9' ==> hex_number(s.push(c)) == Some(16 * n + (c as u32 - '0' as u32)),
        'a' <= c <= 'f' ==> hex_number(s.push(c)) == Some(16 * n + 10 + (c as u32 - 'a' as u32)),
        'A' <= c <= 'F' ==> hex_number(s.push(c)) == Some(16 * n + 10 + (c as u32 - 'A' as u32)),
        !('0' <= c <= '9') && !('a' <= c <= 'f') && !('A' <= c <= 'F') ==> hex_number(
            s.push(c),
        ) is None,
        hex_number(Seq::empty()) == Some(0int),
{
    assert(s.push(c).drop_last() =~= s);
}

} // verus!
