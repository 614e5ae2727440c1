//! IPv4 addresses: their text form and their order.

use crate::text::{
    all_digits, chars_of, decimal, decimal_reads_back, fields, fields_join_to_the_text, is_digit,
    joined, lemma_find_char_is, numbers_write_back, parse_number, push_decimal, split, texts,
    value_of,
};
use vstd::prelude::*;

verus! {

/// An IPv4 address, from the most significant octet to the least.
#[derive(Clone, Copy, Debug, PartialEq, Eq, Hash, Structural)]
pub struct Ipv4Addr {
    pub a: u8,
    pub b: u8,
    pub c: u8,
    pub d: u8,
}

/// The octet that a text writes: up to three digits, without a leading zero.
pub open spec fn read_octet(s: Seq<char>) -> Option<u8> {
    if 1 <= s.len() <= 3 && all_digits(s) && (s.len() > 1 ==> s[0] != '0') && value_of(s) <= 255 {
        Some(value_of(s) as u8)
    } else {
        None
    }
}

/// The address that a text writes: four octets between dots.
pub open spec fn read_ip(s: Seq<char>) -> Option<Ipv4Addr> {
    let parts = fields(s, '.');
    if parts.len() == 4 && read_octet(parts[0]) is Some && read_octet(parts[1]) is Some
        && read_octet(parts[2]) is Some && read_octet(parts[3]) is Some {
        Some(
            Ipv4Addr {
                a: read_octet(parts[0])->0,
                b: read_octet(parts[1])->0,
                c: read_octet(parts[2])->0,
                d: read_octet(parts[3])->0,
            },
        )
    } else {
        None
    }
}

/// An address written as four decimal octets between dots.
pub open spec fn ip_text(ip: Ipv4Addr) -> Seq<char> {
    decimal(ip.a as nat) + seq!['.'] + decimal(ip.b as nat) + seq!['.'] + decimal(ip.c as nat)
        + seq!['.'] + decimal(ip.d as nat)
}

/// Reads one octet.
fn parse_octet(s: &str) -> (r: Option<u8>)
    ensures
        r == read_octet(s@),
{
    let cs = chars_of(s);
    if cs.len() == 0 || cs.len() > 3 {
        return None;
    }
    if cs.len() > 1 && cs[0] == '0' {
        return None;
    }
    if cs[0] == '+' {
        assert(!is_digit(s@[0]));
        return None;
    }
    match parse_number(cs.as_slice(), 255) {
        Some(n) => Some(n as u8),
        None => None,
    }
}

impl Ipv4Addr {
    /// The address with the given octets.
    pub fn new(a: u8, b: u8, c: u8, d: u8) -> (ip: Self)
        ensures
            ip == (Ipv4Addr { a, b, c, d }),
    {
        Ipv4Addr { a, b, c, d }
    }

    /// Reads an address from its text form.
    pub fn parse(s: &[char]) -> (r: Option<Self>)
        ensures
            r == read_ip(s@),
    {
        let parts = split(s, '.');
        assert(texts(parts@).len() == parts.len());
        if parts.len() != 4 {
            return None;
        }
        assert(texts(parts@)[0] == parts@[0]@);
        assert(texts(parts@)[1] == parts@[1]@);
        assert(texts(parts@)[2] == parts@[2]@);
        assert(texts(parts@)[3] == parts@[3]@);
        let a = parse_octet(parts[0].as_str());
        let b = parse_octet(parts[1].as_str());
        let c = parse_octet(parts[2].as_str());
        let d = parse_octet(parts[3].as_str());
        match (a, b, c, d) {
            (Some(a), Some(b), Some(c), Some(d)) => Some(Ipv4Addr { a, b, c, d }),
            _ => None,
        }
    }

    /// The four octets in network order.
    pub fn octets(self) -> (r: [u8; 4])
        ensures
            r@ == seq![self.a, self.b, self.c, self.d],
    {
        let r = [self.a, self.b, self.c, self.d];
        assert(r@ =~= seq![self.a, self.b, self.c, self.d]);
        r
    }

    /// Appends the text form of the address.
    pub fn push_text(self, s: &mut String)
        ensures
            final(s)@ == old(s)@ + ip_text(self),
    {
        let ghost before = s@;
        push_decimal(s, self.a as u64);
        s.push('.');
        push_decimal(s, self.b as u64);
        s.push('.');
        push_decimal(s, self.c as u64);
        s.push('.');
        push_decimal(s, self.d as u64);
        assert(s@ =~= before + ip_text(self));
    }

    /// The address as four decimal octets between dots.
    pub fn to_text(self) -> (s: String)
        ensures
            s@ == ip_text(self),
    {
        let mut s = String::new();
        self.push_text(&mut s);
        assert(s@ =~= ip_text(self));
        s
    }
}

/// A field, then the separator, splits off as the first field.
pub proof fn lemma_fields_cons(a: Seq<char>, c: char, b: Seq<char>)
    requires
        forall|j: int| 0 <= j < a.len() ==> a[j] != c,
    ensures
        fields(a + seq![c] + b, c) == seq![a] + fields(b, c),
{
    let s = a + seq![c] + b;
    lemma_find_char_is(s, c, a.len() as int);
    assert(s.take(a.len() as int) =~= a);
    assert(s.skip(a.len() as int + 1) =~= b);
}

/// A text without the separator is its only field.
pub proof fn lemma_fields_one(a: Seq<char>, c: char)
    requires
        forall|j: int| 0 <= j < a.len() ==> a[j] != c,
    ensures
        fields(a, c) == seq![a],
{
    lemma_find_char_is(a, c, a.len() as int);
}

proof fn lemma_octet_text(n: u8)
    ensures
        read_octet(decimal(n as nat)) == Some(n),
        forall|j: int| 0 <= j < decimal(n as nat).len() ==> decimal(n as nat)[j] != '.',
{
    let s = decimal(n as nat);
    decimal_reads_back(n as nat, 255);
    reveal_with_fuel(decimal, 4);
    assert forall|j: int| 0 <= j < s.len() implies s[j] != '.' by {
        assert(is_digit(s[j]));
    }
}

/// Reading the text form of an address gives the address back.
pub proof fn ip_text_reads_back(ip: Ipv4Addr)
    ensures
        read_ip(ip_text(ip)) == Some(ip),
{
    let a = decimal(ip.a as nat);
    let b = decimal(ip.b as nat);
    let c = decimal(ip.c as nat);
    let d = decimal(ip.d as nat);
    lemma_octet_text(ip.a);
    lemma_octet_text(ip.b);
    lemma_octet_text(ip.c);
    lemma_octet_text(ip.d);
    lemma_fields_one(d, '.');
    lemma_fields_cons(c, '.', d);
    lemma_fields_cons(b, '.', c + seq!['.'] + d);
    let dot: Seq<char> = seq!['.'];
    assert(b + dot + (c + dot + d) =~= b + dot + c + dot + d);
    lemma_fields_cons(a, '.', b + dot + c + dot + d);
    assert(a + dot + (b + dot + c + dot + d) =~= ip_text(ip));
    assert(fields(ip_text(ip), '.') =~= seq![a, b, c, d]);
}

/// An address is read from its own text form and from no other text.
pub proof fn only_its_text_is_an_address(s: Seq<char>, ip: Ipv4Addr)
    ensures
        read_ip(s) == Some(ip) <==> s == ip_text(ip),
{
    ip_text_reads_back(ip);
    if read_ip(s) == Some(ip) {
        let parts = fields(s, '.');
        fields_join_to_the_text(s, '.');
        lemma_octet_writes_back(parts[0]);
        lemma_octet_writes_back(parts[1]);
        lemma_octet_writes_back(parts[2]);
        lemma_octet_writes_back(parts[3]);
        let dot = seq!['.'];
        let three = parts.drop_last();
        let two = three.drop_last();
        let one = two.drop_last();
        assert(one =~= seq![parts[0]]);
        assert(joined(one, dot) == parts[0]);
        assert(two.last() == parts[1]);
        assert(joined(two, dot) == parts[0] + dot + parts[1]);
        assert(three.last() == parts[2]);
        assert(joined(three, dot) == parts[0] + dot + parts[1] + dot + parts[2]);
        assert(joined(parts, dot) == parts[0] + dot + parts[1] + dot + parts[2] + dot + parts[3]);
    }
}

proof fn lemma_octet_writes_back(s: Seq<char>)
    requires
        read_octet(s) is Some,
    ensures
        decimal(read_octet(s)->0 as nat) == s,
{
    numbers_write_back(s);
}

} // verus!
