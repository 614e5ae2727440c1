//! Cached rows of proxy lists: the file format, its name and its freshness.

use crate::net::Ipv4Addr;
use crate::providers::parsers::ParsedProxy;
use crate::proxy::models::{Anonymity, Protocol};
use crate::text::{chars_of, contains, decimal, holds, occurs_at, push_decimal};
use vstd::arithmetic::div_mod::lemma_div_denominator;
use vstd::prelude::*;
use vstd::string::*;
use vstd::utf8::encode_utf8;

verus! {

/// Age, in milliseconds, from which an abandoned temporary file is removed.
pub const ORPHANED_TMP_MAX_AGE: u64 = 3600000;

/// Where rows are cached and how long they stay fresh.
#[derive(Clone, Debug)]
pub struct Cache {
    /// The directory of the cache files.
    pub dir: String,
    /// Milliseconds that rows stay fresh.
    pub ttl: u64,
    /// Whether cached rows are passed over.
    pub refresh: bool,
}

// ---------------------------------------------------------------------------
// Codes
// ---------------------------------------------------------------------------

/// The code of an anonymity level.
pub open spec fn level_code(a: Anonymity) -> u8 {
    match a {
        Anonymity::Elite => 0,
        Anonymity::Transparent => 1,
        Anonymity::Anonymous => 2,
        Anonymity::Unknown => 3,
    }
}

/// The code of an anonymity level.
pub fn anon_code(anonymity: Anonymity) -> (r: u8)
    ensures
        r == level_code(anonymity),
{
    match anonymity {
        Anonymity::Elite => 0,
        Anonymity::Transparent => 1,
        Anonymity::Anonymous => 2,
        Anonymity::Unknown => 3,
    }
}

/// The anonymity level of a code.
pub open spec fn level_of_code(code: int) -> Option<Anonymity> {
    if code == 0 {
        Some(Anonymity::Elite)
    } else if code == 1 {
        Some(Anonymity::Transparent)
    } else if code == 2 {
        Some(Anonymity::Anonymous)
    } else if code == 3 {
        Some(Anonymity::Unknown)
    } else {
        None
    }
}

/// The anonymity level of a code.
pub fn anon_from_code(code: u8) -> (r: Option<Anonymity>)
    ensures
        r == level_of_code(code as int),
{
    match code {
        0 => Some(Anonymity::Elite),
        1 => Some(Anonymity::Transparent),
        2 => Some(Anonymity::Anonymous),
        3 => Some(Anonymity::Unknown),
        _ => None,
    }
}

/// The code of a protocol; a CONNECT port comes behind its code.
pub open spec fn code_of(p: Protocol) -> u8 {
    match p {
        Protocol::Http(a) => (1 + level_code(a)) as u8,
        Protocol::Https(a) => (5 + level_code(a)) as u8,
        Protocol::Socks4 => 9,
        Protocol::Socks5 => 10,
        Protocol::Connect(_) => 11,
    }
}

/// The code of a protocol, where there is one.
pub fn protocol_code(protocol: Option<Protocol>) -> (r: Option<u8>)
    ensures
        r == match protocol {
            Some(p) => Some(code_of(p)),
            None => None,
        },
{
    match protocol {
        None => None,
        Some(Protocol::Http(a)) => Some(1 + anon_code(a)),
        Some(Protocol::Https(a)) => Some(5 + anon_code(a)),
        Some(Protocol::Socks4) => Some(9),
        Some(Protocol::Socks5) => Some(10),
        Some(Protocol::Connect(_)) => Some(11),
    }
}

/// The protocol of a code that stands alone.
pub open spec fn protocol_of_code(code: int) -> Option<Protocol> {
    if 1 <= code <= 4 {
        match level_of_code(code - 1) {
            Some(a) => Some(Protocol::Http(a)),
            None => None,
        }
    } else if 5 <= code <= 8 {
        match level_of_code(code - 5) {
            Some(a) => Some(Protocol::Https(a)),
            None => None,
        }
    } else if code == 9 {
        Some(Protocol::Socks4)
    } else if code == 10 {
        Some(Protocol::Socks5)
    } else {
        None
    }
}

/// The protocol of a code that stands alone; `None` for codes that name none.
pub fn protocol_from_code(code: u8) -> (r: Option<Protocol>)
    ensures
        r == protocol_of_code(code as int),
{
    if 1 <= code && code <= 4 {
        match anon_from_code(code - 1) {
            Some(a) => Some(Protocol::Http(a)),
            None => None,
        }
    } else if 5 <= code && code <= 8 {
        match anon_from_code(code - 5) {
            Some(a) => Some(Protocol::Https(a)),
            None => None,
        }
    } else if code == 9 {
        Some(Protocol::Socks4)
    } else if code == 10 {
        Some(Protocol::Socks5)
    } else {
        None
    }
}

/// Every protocol but CONNECT is the protocol of its code.
pub proof fn codes_read_back(p: Protocol)
    ensures
        p is Connect || protocol_of_code(code_of(p) as int) == Some(p),
        1 <= code_of(p) <= 11,
        code_of(p) == 11 <==> p is Connect,
{
}

// ---------------------------------------------------------------------------
// Rows as bytes
// ---------------------------------------------------------------------------

/// The bytes that begin a cache file.
pub open spec fn magic() -> Seq<u8> {
    seq![0x46u8, 0x4c, 0x58, 0x50, 0x43, 0x57, 0x30, 0x32]
}

/// A number of sixteen bits, its low byte first.
pub open spec fn two_bytes(n: u16) -> Seq<u8> {
    seq![(n % 256) as u8, (n / 256) as u8]
}

/// The number of sixteen bits that two bytes write, the low one first.
pub open spec fn from_two(lo: u8, hi: u8) -> u16 {
    (lo + 256 * hi) as u16
}

/// A number of thirty-two bits, its low byte first; higher bits are dropped.
pub open spec fn four_bytes(n: int) -> Seq<u8> {
    seq![
        (n % 256) as u8,
        (n / 256 % 256) as u8,
        (n / 65536 % 256) as u8,
        (n / 16777216 % 256) as u8,
    ]
}

/// The number that four bytes write, the low one first.
pub open spec fn from_four(s: Seq<u8>) -> int {
    s[0] + 256 * s[1] + 65536 * s[2] + 16777216 * s[3]
}

/// A row as bytes: address, port, protocol code and, behind the code of a
/// CONNECT tunnel, its port.
pub open spec fn row_bytes(row: ParsedProxy) -> Seq<u8> {
    seq![row.0.a, row.0.b, row.0.c, row.0.d] + two_bytes(row.1) + match row.2 {
        None => seq![0u8],
        Some(Protocol::Connect(p)) => seq![11u8] + two_bytes(p),
        Some(p) => seq![code_of(p)],
    }
}

/// Rows as bytes, one behind the other.
pub open spec fn rows_bytes(rows: Seq<ParsedProxy>) -> Seq<u8>
    decreases rows.len(),
{
    if rows.len() == 0 {
        Seq::empty()
    } else {
        rows_bytes(rows.drop_last()) + row_bytes(rows.last())
    }
}

/// A cache file: its first bytes, the number of rows, the rows.
pub open spec fn file_bytes(rows: Seq<ParsedProxy>) -> Seq<u8> {
    magic() + four_bytes(rows.len() as int) + rows_bytes(rows)
}

/// The first row in some bytes, and how many of them it takes.
pub open spec fn first_row(s: Seq<u8>) -> Option<(ParsedProxy, int)> {
    if s.len() < 7 {
        None
    } else {
        let ip = Ipv4Addr { a: s[0], b: s[1], c: s[2], d: s[3] };
        let port = from_two(s[4], s[5]);
        if s[6] == 11 {
            if s.len() < 9 {
                None
            } else {
                Some(((ip, port, Some(Protocol::Connect(from_two(s[7], s[8])))), 9))
            }
        } else {
            Some(((ip, port, protocol_of_code(s[6] as int)), 7))
        }
    }
}

/// The first `n` rows in some bytes; `None` where they end before that.
pub open spec fn first_rows(s: Seq<u8>, n: nat) -> Option<Seq<ParsedProxy>>
    decreases n,
{
    if n == 0 {
        Some(Seq::empty())
    } else {
        match first_row(s) {
            None => None,
            Some((row, k)) => match first_rows(s.skip(k), (n - 1) as nat) {
                None => None,
                Some(rows) => Some(seq![row] + rows),
            },
        }
    }
}

/// The rows of a cache file; bytes behind the last row are passed over.
pub open spec fn file_rows(s: Seq<u8>) -> Option<Seq<ParsedProxy>> {
    if s.len() < 12 || s.take(8) != magic() {
        None
    } else {
        first_rows(s.skip(12), from_four(s.subrange(8, 12)) as nat)
    }
}

fn push_two(body: &mut Vec<u8>, n: u16)
    ensures
        final(body)@ == old(body)@ + two_bytes(n),
{
    let ghost before = body@;
    body.push((n % 256) as u8);
    body.push((n / 256) as u8);
    assert(body@ =~= before + two_bytes(n));
}

fn push_row(body: &mut Vec<u8>, row: ParsedProxy)
    ensures
        final(body)@ == old(body)@ + row_bytes(row),
{
    let ghost before = body@;
    body.push(row.0.a);
    body.push(row.0.b);
    body.push(row.0.c);
    body.push(row.0.d);
    push_two(body, row.1);
    match row.2 {
        None => {
            body.push(0);
        },
        Some(Protocol::Connect(p)) => {
            body.push(11);
            push_two(body, p);
        },
        Some(p) => {
            let code: u8 = match protocol_code(Some(p)) {
                Some(c) => c,
                None => 0,
            };
            body.push(code);
        },
    }
    assert(body@ =~= before + row_bytes(row));
}

/// Writes the cache file of some rows; `None` where there are none, which are
/// never cached.
pub fn encode_rows(rows: &Vec<ParsedProxy>) -> (r: Option<Vec<u8>>)
    ensures
        match r {
            Some(body) => rows@.len() > 0 && body@ == file_bytes(rows@),
            None => rows@.len() == 0,
        },
{
    if rows.len() == 0 {
        return None;
    }
    let mut body: Vec<u8> = vec![0x46, 0x4c, 0x58, 0x50, 0x43, 0x57, 0x30, 0x32];
    assert(body@ =~= magic());
    let n: u64 = rows.len() as u64;
    body.push((n % 256) as u8);
    body.push((n / 256 % 256) as u8);
    body.push((n / 65536 % 256) as u8);
    body.push((n / 16777216 % 256) as u8);
    let ghost head = magic() + four_bytes(rows@.len() as int);
    assert(body@ =~= head);
    let mut i: usize = 0;
    assert(rows@.take(0) =~= Seq::<ParsedProxy>::empty());
    assert(body@ =~= head + rows_bytes(rows@.take(0)));
    while i < rows.len()
        invariant
            i <= rows.len(),
            body@ == head + rows_bytes(rows@.take(i as int)),
        decreases rows.len() - i,
    {
        assert(rows@.take(i + 1).drop_last() =~= rows@.take(i as int));
        push_row(&mut body, rows[i]);
        assert(body@ =~= head + rows_bytes(rows@.take(i + 1)));
        i += 1;
    }
    assert(rows@.take(rows.len() as int) =~= rows@);
    Some(body)
}

/// Reads a cache file.
pub fn decode_rows(body: &[u8]) -> (r: Option<Vec<ParsedProxy>>)
    ensures
        match r {
            Some(rows) => file_rows(body@) == Some(rows@),
            None => file_rows(body@) is None,
        },
{
    if body.len() < 12 {
        return None;
    }
    let is_magic = body[0] == 0x46 && body[1] == 0x4c && body[2] == 0x58 && body[3] == 0x50
        && body[4] == 0x43 && body[5] == 0x57 && body[6] == 0x30 && body[7] == 0x32;
    assert(is_magic == (body@.take(8) == magic())) by {
        if is_magic {
            assert(body@.take(8) =~= magic());
        } else {
            assert(body@.take(8)[0] == body@[0] && body@.take(8)[1] == body@[1] && body@.take(8)[2]
                == body@[2] && body@.take(8)[3] == body@[3] && body@.take(8)[4] == body@[4]
                && body@.take(8)[5] == body@[5] && body@.take(8)[6] == body@[6]
                && body@.take(8)[7] == body@[7]);
        }
    }
    if !is_magic {
        return None;
    }
    let n: u64 = body[8] as u64 + 256 * (body[9] as u64) + 65536 * (body[10] as u64) + 16777216 * (
    body[11] as u64);
    let ghost total = from_four(body@.subrange(8, 12)) as nat;
    assert(n == total);
    let ghost all = first_rows(body@.skip(12), total);
    let mut rows: Vec<ParsedProxy> = Vec::new();
    let mut cursor: usize = 12;
    let mut left: u64 = n;
    assert(forall|t: Seq<ParsedProxy>| #[trigger] (rows@ + t) =~= t);
    while left > 0
        invariant
            12 <= cursor <= body.len(),
            all == first_rows(body@.skip(12), total),
            file_rows(body@) == all,
            match first_rows(body@.skip(cursor as int), left as nat) {
                None => all is None,
                Some(t) => all == Some(rows@ + t),
            },
        decreases left,
    {
        let ghost rest = body@.skip(cursor as int);
        if body.len() - cursor < 7 {
            return None;
        }
        let ip = Ipv4Addr::new(
            body[cursor],
            body[cursor + 1],
            body[cursor + 2],
            body[cursor + 3],
        );
        assert(rest[0] == body@[cursor as int] && rest[1] == body@[cursor + 1] && rest[2]
            == body@[cursor + 2] && rest[3] == body@[cursor + 3] && rest[4] == body@[cursor + 4]
            && rest[5] == body@[cursor + 5] && rest[6] == body@[cursor + 6]);
        let port: u16 = body[cursor + 4] as u16 + 256 * (body[cursor + 5] as u16);
        let code: u8 = body[cursor + 6];
        let mut taken: usize = 7;
        let protocol: Option<Protocol> = if code == 11 {
            if body.len() - cursor < 9 {
                return None;
            }
            assert(rest[7] == body@[cursor + 7] && rest[8] == body@[cursor + 8]);
            taken = 9;
            Some(
                Protocol::Connect(body[cursor + 7] as u16 + 256 * (body[cursor + 8] as u16)),
            )
        } else {
            protocol_from_code(code)
        };
        let row: ParsedProxy = (ip, port, protocol);
        let ghost before = rows@;
        proof {
            assert(first_row(rest) == Some((row, taken as int)));
            assert(rest.skip(taken as int) =~= body@.skip(cursor + taken));
            match first_rows(body@.skip(cursor + taken), (left - 1) as nat) {
                None => {},
                Some(t) => {
                    assert(before + (seq![row] + t) =~= before.push(row) + t);
                },
            }
        }
        rows.push(row);
        cursor = cursor + taken;
        left = left - 1;
    }
    assert(rows@ + Seq::<ParsedProxy>::empty() =~= rows@);
    Some(rows)
}

// ---------------------------------------------------------------------------
// What is written is read back
// ---------------------------------------------------------------------------

proof fn lemma_row_reads_back(row: ParsedProxy, junk: Seq<u8>)
    ensures
        first_row(row_bytes(row) + junk) == Some((row, row_bytes(row).len() as int)),
{
    let s = row_bytes(row) + junk;
    assert(two_bytes(row.1)[0] == s[4] && two_bytes(row.1)[1] == s[5]);
    assert(from_two(s[4], s[5]) == row.1);
    match row.2 {
        None => {},
        Some(p) => {
            codes_read_back(p);
            if let Protocol::Connect(port) = p {
                assert(two_bytes(port)[0] == s[7] && two_bytes(port)[1] == s[8]);
                assert(from_two(s[7], s[8]) == port);
            }
        },
    }
}

proof fn lemma_rows_bytes_front(rows: Seq<ParsedProxy>)
    requires
        rows.len() > 0,
    ensures
        rows_bytes(rows) == row_bytes(rows[0]) + rows_bytes(rows.drop_first()),
    decreases rows.len(),
{
    if rows.len() == 1 {
        assert(rows.drop_last() =~= Seq::<ParsedProxy>::empty());
        assert(rows.drop_first() =~= Seq::<ParsedProxy>::empty());
        assert(rows_bytes(rows) =~= row_bytes(rows[0]) + rows_bytes(rows.drop_first()));
    } else {
        lemma_rows_bytes_front(rows.drop_last());
        assert(rows.drop_last().drop_first() =~= rows.drop_first().drop_last());
        assert(rows_bytes(rows) =~= row_bytes(rows[0]) + rows_bytes(rows.drop_first()));
    }
}

proof fn lemma_rows_read_back(rows: Seq<ParsedProxy>, junk: Seq<u8>)
    ensures
        first_rows(rows_bytes(rows) + junk, rows.len()) == Some(rows),
    decreases rows.len(),
{
    if rows.len() > 0 {
        lemma_rows_bytes_front(rows);
        let rest = rows.drop_first();
        lemma_rows_read_back(rest, junk);
        lemma_row_reads_back(rows[0], rows_bytes(rest) + junk);
        let s = rows_bytes(rows) + junk;
        assert(s =~= row_bytes(rows[0]) + (rows_bytes(rest) + junk));
        assert(s.skip(row_bytes(rows[0]).len() as int) =~= rows_bytes(rest) + junk);
        assert(seq![rows[0]] + rest =~= rows);
    } else {
        assert(rows =~= Seq::<ParsedProxy>::empty());
    }
}

proof fn lemma_four_bytes(n: int)
    requires
        0 <= n < 0x1_0000_0000,
    ensures
        from_four(four_bytes(n)) == n,
{
    let s = four_bytes(n);
    let a = n / 256;
    let b = a / 256;
    let c = b / 256;
    lemma_div_denominator(n, 256, 256);
    lemma_div_denominator(n, 65536, 256);
    assert(n / 65536 == b);
    assert(n / 16777216 == c);
    assert(0 <= c < 256);
    assert(s[0] as int == n % 256 && s[1] as int == a % 256);
    assert(s[2] as int == b % 256 && s[3] as int == c);
    assert(n == 256 * a + n % 256 && a == 256 * b + a % 256 && b == 256 * c + b % 256);
}

/// Reading a cache file gives back the rows that were written to it, whatever
/// comes behind them.
pub proof fn rows_read_back(rows: Seq<ParsedProxy>, junk: Seq<u8>)
    requires
        rows.len() <= u32::MAX,
    ensures
        file_rows(file_bytes(rows) + junk) == Some(rows),
{
    let s = file_bytes(rows) + junk;
    lemma_four_bytes(rows.len() as int);
    assert(s.take(8) =~= magic());
    assert(s.subrange(8, 12) =~= four_bytes(rows.len() as int));
    assert(s.skip(12) =~= rows_bytes(rows) + junk);
    lemma_rows_read_back(rows, junk);
}

proof fn lemma_cut_rows_refused(rows: Seq<ParsedProxy>, k: int)
    requires
        0 <= k < rows_bytes(rows).len(),
    ensures
        first_rows(rows_bytes(rows).take(k), rows.len()) is None,
    decreases rows.len(),
{
    lemma_rows_bytes_front(rows);
    let rest = rows.drop_first();
    let head = row_bytes(rows[0]);
    let s = rows_bytes(rows).take(k);
    if k < head.len() {
        assert(s =~= head.take(k));
        if k >= 7 {
            assert(s[6] == head[6]);
        }
    } else {
        lemma_row_reads_back(rows[0], rows_bytes(rest).take(k - head.len()));
        assert(s =~= head + rows_bytes(rest).take(k - head.len()));
        assert(s.skip(head.len() as int) =~= rows_bytes(rest).take(k - head.len()));
        lemma_cut_rows_refused(rest, k - head.len());
    }
}

/// A cache file that was cut off anywhere is refused.
pub proof fn cut_file_is_refused(rows: Seq<ParsedProxy>, k: int)
    requires
        rows.len() <= u32::MAX,
        0 <= k < file_bytes(rows).len(),
    ensures
        file_rows(file_bytes(rows).take(k)) is None,
{
    let s = file_bytes(rows).take(k);
    if k >= 12 {
        lemma_four_bytes(rows.len() as int);
        assert(s.subrange(8, 12) =~= four_bytes(rows.len() as int));
        assert(s.skip(12) =~= rows_bytes(rows).take(k - 12));
        lemma_cut_rows_refused(rows, k - 12);
    }
}

// ---------------------------------------------------------------------------
// Names and freshness
// ---------------------------------------------------------------------------

/// The 64-bit FNV-1a hash of some bytes.
pub open spec fn fnv(bytes: Seq<u8>) -> u64
    decreases bytes.len(),
{
    if bytes.len() == 0 {
        0xcbf2_9ce4_8422_2325
    } else {
        (fnv(bytes.drop_last()) ^ (bytes.last() as u64)).wrapping_mul(0x0000_0100_0000_01b3)
    }
}

/// A hexadecimal digit in lower case.
pub open spec fn hex_digit(n: int) -> char {
    if n < 10 {
        ('0' as u32 + n) as char
    } else {
        ('a' as u32 + n - 10) as char
    }
}

/// The last `n` hexadecimal digits of a number.
pub open spec fn hex_digits(h: nat, n: nat) -> Seq<char>
    decreases n,
{
    if n == 0 {
        Seq::empty()
    } else {
        hex_digits(h / 16, (n - 1) as nat).push(hex_digit((h % 16) as int))
    }
}

fn push_hex(s: &mut String, h: u64, n: u32)
    ensures
        final(s)@ == old(s)@ + hex_digits(h as nat, n as nat),
    decreases n,
{
    let ghost before = s@;
    if n > 0 {
        push_hex(s, h / 16, n - 1);
        let d: u8 = (h % 16) as u8;
        let c: char = if d < 10 {
            (48 + d) as char
        } else {
            (87 + d) as char
        };
        s.push(c);
    }
    assert(s@ =~= before + hex_digits(h as nat, n as nat));
}

/// The name of an address's cache file: sixteen hexadecimal digits of its
/// hash.
pub open spec fn file_name(url: Seq<char>) -> Seq<char> {
    hex_digits(fnv(encode_utf8(url)) as nat, 16)
}

/// The name of an address's cache file.
pub fn cache_file_name(url: &str) -> (s: String)
    ensures
        s@ == file_name(url@),
{
    let bytes = url.as_bytes();
    let mut hash: u64 = 0xcbf2_9ce4_8422_2325;
    let mut i: usize = 0;
    assert(bytes@.take(0) =~= Seq::<u8>::empty());
    while i < bytes.len()
        invariant
            i <= bytes.len(),
            hash == fnv(bytes@.take(i as int)),
        decreases bytes.len() - i,
    {
        assert(bytes@.take(i + 1).drop_last() =~= bytes@.take(i as int));
        hash = (hash ^ (bytes[i] as u64)).wrapping_mul(0x0000_0100_0000_01b3);
        i += 1;
    }
    assert(bytes@.take(bytes.len() as int) =~= bytes@);
    let mut s = String::new();
    push_hex(&mut s, hash, 16);
    assert(s@ =~= file_name(url@));
    s
}

/// The name under which a cache file is written before it is put in place.
pub fn temporary_name(name: &str, process: u32) -> (s: String)
    ensures
        s@ == "."@ + name@ + ".tmp-"@ + decimal(process as nat),
        s@ == name_before(name@, process as nat),
{
    let mut s = ".".to_owned();
    s.append(name);
    s.append(".tmp-");
    push_decimal(&mut s, process as u64);
    s
}

/// Whether a file of the cache directory is a temporary one left behind.
pub open spec fn left_behind(name: Seq<char>, is_file: bool, age: int) -> bool {
    is_file && age > ORPHANED_TMP_MAX_AGE && holds(name, ".tmp-"@)
}

/// The name of the file that is written before it takes its place.
pub open spec fn name_before(name: Seq<char>, process: nat) -> Seq<char> {
    "."@ + name + ".tmp-"@ + decimal(process)
}

/// Whether a file of an age is still good.
pub open spec fn is_fresh(age: int, ttl: int, refresh: bool) -> bool {
    age <= ttl && !refresh
}

/// Whether a file of the cache directory is a temporary one left behind.
pub fn is_orphaned(name: &str, is_file: bool, age: u64) -> (r: bool)
    ensures
        r == left_behind(name@, is_file, age as int),
        r == (holds(name@, ".tmp-"@) && is_file && age > ORPHANED_TMP_MAX_AGE),
{
    contains(chars_of(name).as_slice(), ".tmp-") && is_file && age > ORPHANED_TMP_MAX_AGE
}

impl Cache {
    /// A cache in the given directory.
    pub fn new_at(dir: String, ttl: u64, refresh: bool) -> (r: Self)
        ensures
            r == (Cache { dir, ttl, refresh }),
    {
        Cache { dir, ttl, refresh }
    }

    /// The rows that a file of the given age may still give.
    pub open spec fn fresh_rows(self, age: u64, body: Seq<u8>) -> Option<Seq<ParsedProxy>> {
        if self.refresh || age > self.ttl {
            None
        } else {
            match file_rows(body) {
                Some(rows) => if rows.len() > 0 {
                    Some(rows)
                } else {
                    None
                },
                None => None,
            }
        }
    }

    /// Whether a file of the given age is worth reading.
    pub fn may_load(&self, age: u64) -> (r: bool)
        ensures
            r == (!self.refresh && age <= self.ttl),
            r == is_fresh(age as int, self.ttl as int, self.refresh),
    {
        !self.refresh && age <= self.ttl
    }

    /// Reads the rows of a file of the given age, where it is fresh.
    pub fn load_rows(&self, age: u64, body: &[u8]) -> (r: Option<Vec<ParsedProxy>>)
        ensures
            match r {
                Some(rows) => self.fresh_rows(age, body@) == Some(rows@),
                None => self.fresh_rows(age, body@) is None,
            },
    {
        if !self.may_load(age) {
            return None;
        }
        match decode_rows(body) {
            Some(rows) => if rows.len() == 0 {
                None
            } else {
                Some(rows)
            },
            None => None,
        }
    }

    /// The file to store rows in; `None` where there are none.
    pub fn store_rows(&self, rows: &Vec<ParsedProxy>) -> (r: Option<Vec<u8>>)
        ensures
            match r {
                Some(body) => rows@.len() > 0 && body@ == file_bytes(rows@),
                None => rows@.len() == 0,
            },
    {
        encode_rows(rows)
    }
}

/// Rows that were stored are loaded again while they are fresh, and never
/// where the cache is to be refreshed or they are too old.
pub proof fn stored_rows_load(cache: Cache, rows: Seq<ParsedProxy>, age: u64)
    requires
        0 < rows.len() <= u32::MAX,
    ensures
        cache.fresh_rows(age, file_bytes(rows)) == (if cache.refresh || age > cache.ttl {
            None
        } else {
            Some(rows)
        }),
{
    rows_read_back(rows, Seq::empty());
    assert(file_bytes(rows) + Seq::<u8>::empty() =~= file_bytes(rows));
}

/// Each protocol has its code: none is zero, HTTP and HTTPS have one for each
/// level, from elite to unknown, and a tunnel has its port behind it.
pub proof fn codes_are_these()
    ensures
        code_of(Protocol::Http(Anonymity::Elite)) == 1,
        code_of(Protocol::Http(Anonymity::Transparent)) == 2,
        code_of(Protocol::Http(Anonymity::Anonymous)) == 3,
        code_of(Protocol::Http(Anonymity::Unknown)) == 4,
        code_of(Protocol::Https(Anonymity::Elite)) == 5,
        code_of(Protocol::Https(Anonymity::Transparent)) == 6,
        code_of(Protocol::Https(Anonymity::Anonymous)) == 7,
        code_of(Protocol::Https(Anonymity::Unknown)) == 8,
        code_of(Protocol::Socks4) == 9,
        code_of(Protocol::Socks5) == 10,
        forall|port: u16| #[trigger] code_of(Protocol::Connect(port)) == 11,
        forall|code: int| code == 0 || code > 10 ==> #[trigger] protocol_of_code(code) is None,
{
}

/// A file begins with its eight marks and the number of its rows, low byte
/// first; the rows come behind, in order.
pub proof fn files_are_laid_out(rows: Seq<ParsedProxy>, row: ParsedProxy)
    requires
        rows.len() <= u32::MAX,
    ensures
        ({
            let f = file_bytes(rows);
            &&& f.len() >= 12
            &&& f[0] == 0x46 && f[1] == 0x4c && f[2] == 0x58 && f[3] == 0x50
            &&& f[4] == 0x43 && f[5] == 0x57 && f[6] == 0x30 && f[7] == 0x32
            &&& f[8] + 256 * f[9] + 65536 * f[10] + 16777216 * f[11] == rows.len()
        }),
        file_bytes(rows.push(row)).skip(12) == file_bytes(rows).skip(12) + row_bytes(row),
{
    let f = file_bytes(rows);
    let n = four_bytes(rows.len() as int);
    assert(f[0] == magic()[0] && f[1] == magic()[1] && f[2] == magic()[2] && f[3] == magic()[3]);
    assert(f[4] == magic()[4] && f[5] == magic()[5] && f[6] == magic()[6] && f[7] == magic()[7]);
    assert(f[8] == n[0] && f[9] == n[1] && f[10] == n[2] && f[11] == n[3]);
    lemma_four_bytes_add_up(rows.len());
    assert(f.skip(12) =~= rows_bytes(rows));
    assert(file_bytes(rows.push(row)).skip(12) =~= rows_bytes(rows.push(row)));
    assert(rows.push(row).drop_last() =~= rows);
    assert(rows.push(row).last() == row);
}

proof fn lemma_four_bytes_add_up(n: nat)
    requires
        n <= u32::MAX,
    ensures
        four_bytes(n as int)[0] + 256 * four_bytes(n as int)[1] + 65536 * four_bytes(n as int)[2]
            + 16777216 * four_bytes(n as int)[3] == n,
{
    let a = n % 256;
    let b = n / 256 % 256;
    let c = n / 65536 % 256;
    let d = n / 16777216 % 256;
    assert(a + 256 * b + 65536 * c + 16777216 * d == n);
}

/// A row is the octets of its address, its port, low byte first, and the code
/// of its protocol or zero; a tunnel has its port behind that.
pub proof fn rows_are_laid_out(row: ParsedProxy)
    ensures
        ({
            let b = row_bytes(row);
            &&& b.len() >= 7
            &&& b[0] == row.0.a && b[1] == row.0.b && b[2] == row.0.c && b[3] == row.0.d
            &&& b[4] + 256 * b[5] == row.1
            &&& row.2 is None ==> b[6] == 0 && b.len() == 7
            &&& row.2 matches Some(p) ==> b[6] == code_of(p)
            &&& row.2 matches Some(Protocol::Connect(port)) ==> b.len() == 9 && b[7] + 256 * b[8]
                == port
        }),
{
}

/// The hash of an address is built byte by byte, and its file is named by the
/// sixteen hexadecimal digits of it.
pub proof fn files_are_named_by_their_hash(bytes: Seq<u8>, b: u8, url: Seq<char>)
    ensures
        fnv(Seq::empty()) == 0xcbf2_9ce4_8422_2325u64,
        fnv(bytes.push(b)) == (fnv(bytes) ^ (b as u64)).wrapping_mul(0x100_0000_01b3u64),
        file_name(url).len() == 16,
        forall|i: int|
            0 <= i < 16 ==> '0' <= #[trigger] file_name(url)[i] <= '9' || 'a' <= file_name(url)[i]
                <= 'f',
        hex_value(file_name(url)) == fnv(encode_utf8(url)),
{
    assert(bytes.push(b).drop_last() =~= bytes);
    assert(bytes.push(b).last() == b);
    lemma_hex(fnv(encode_utf8(url)) as nat, 16);
    lemma_sixteen();
    vstd::arithmetic::div_mod::lemma_small_mod(
        fnv(encode_utf8(url)) as nat,
        0x1_0000_0000_0000_0000,
    );
}

/// The number that lower-case hexadecimal digits write.
pub open spec fn hex_value(s: Seq<char>) -> nat
    decreases s.len(),
{
    if s.len() == 0 {
        0
    } else {
        let c = s.last();
        hex_value(s.drop_last()) * 16 + (if '0' <= c <= '9' {
            (c as u32 - '0' as u32) as nat
        } else {
            (c as u32 - 'a' as u32 + 10) as nat
        })
    }
}

/// A power of sixteen.
pub open spec fn power_of_sixteen(n: nat) -> nat
    decreases n,
{
    if n == 0 {
        1
    } else {
        16 * power_of_sixteen((n - 1) as nat)
    }
}

proof fn lemma_sixteen()
    ensures
        power_of_sixteen(16) == 0x1_0000_0000_0000_0000,
{
    reveal_with_fuel(power_of_sixteen, 17);
}

proof fn lemma_hex(h: nat, n: nat)
    ensures
        hex_digits(h, n).len() == n,
        forall|i: int|
            0 <= i < n ==> '0' <= #[trigger] hex_digits(h, n)[i] <= '9' || 'a' <= hex_digits(
                h,
                n,
            )[i] <= 'f',
        power_of_sixteen(n) > 0,
        hex_value(hex_digits(h, n)) == h % power_of_sixteen(n),
    decreases n,
{
    if n > 0 {
        let m = (n - 1) as nat;
        lemma_hex(h / 16, m);
        let s = hex_digits(h, n);
        let t = hex_digits(h / 16, m);
        assert(s.drop_last() =~= t);
        assert(s.last() == hex_digit((h % 16) as int));
        let p = power_of_sixteen(m);
        assert(h % (16 * p) == ((h / 16) % p) * 16 + h % 16) by {
            vstd::arithmetic::div_mod::lemma_mod_breakdown(h as int, 16, p as int);
        }
    } else {
        assert(h % 1 == 0);
    }
}

/// A temporary file is left behind once it is older than an hour, whatever it
/// was to become; a directory and a file of another name never are.
pub proof fn temporary_files_are_found_again(name: Seq<char>, process: nat, age: int)
    ensures
        age > 3_600_000 ==> left_behind(name_before(name, process), true, age),
        age <= 3_600_000 ==> !left_behind(name_before(name, process), true, age),
        !left_behind(name, false, age),
        name.len() < 5 ==> !left_behind(name, true, age),
        name_before(name, process).len() > 0 && name_before(name, process)[0] == '.',
{
    reveal_strlit(".");
    reveal_strlit(".tmp-");
    let s = name_before(name, process);
    let n = name.len() as int + 1;
    assert(s.subrange(n, n + 5) =~= ".tmp-"@);
    assert(occurs_at(s, ".tmp-"@, n));
}

/// A file is good up to its age limit, and never where everything is to be
/// fetched anew.
pub proof fn fresh_files_are_read(ttl: int, more: int)
    requires
        more > 0,
    ensures
        is_fresh(ttl, ttl, false),
        is_fresh(ttl - more, ttl, false),
        !is_fresh(ttl + more, ttl, false),
        !is_fresh(ttl, ttl, true),
{
}

} // verus!
