//! Reading proxy lists: plain lines, HTML tables, encoded and scripted rows.

use crate::net::{read_ip, Ipv4Addr};
use crate::proxy::models::{Anonymity, Protocol};
use crate::geolookup::ip_type::words_of;
use crate::text::{
    chars_of, contains, decimal, eq_ignore_case, fields, find_char, holds, index_of_text, join, joined,
    lemma_index_of_text, lemma_texts_push, lines, lowered, occurs_at, parse_i64, parse_u16, position,
    read_number, read_signed, same, split, split_lines, split_words, string_of, texts, to_lower,
    trim, trim_str, trimmed, words,
};
use scraper::{ElementRef, Html, Selector};
use vstd::prelude::*;
use vstd::slice::slice_subrange;
use vstd::string::*;
use vstd::utf8::*;

verus! {

/// A row of a proxy list: endpoint, and its protocol where the list says so.
pub type ParsedProxy = (Ipv4Addr, u16, Option<Protocol>);

// ---------------------------------------------------------------------------
// Handing rows on
// ---------------------------------------------------------------------------

/// Whether a visitor asked for more at each of the first rows.
pub open spec fn went_on<V: Fn(ParsedProxy) -> bool>(
    visit: V,
    rows: Seq<ParsedProxy>,
    n: int,
) -> bool {
    forall|i: int| 0 <= i < n ==> call_ensures(visit, (#[trigger] rows[i],), true)
}

/// Whether these are the rows up to the one at which a visitor had enough.
pub open spec fn had_enough<V: Fn(ParsedProxy) -> bool>(
    given: Seq<ParsedProxy>,
    all: Seq<ParsedProxy>,
    visit: V,
) -> bool {
    &&& given.len() > 0
    &&& given.is_prefix_of(all)
    &&& went_on(visit, given, given.len() - 1)
    &&& call_ensures(visit, (given.last(),), false)
}

/// Whether these are the rows that a visitor was given: all of them, or those up
/// to the one at which it had enough.
pub open spec fn visited<V: Fn(ParsedProxy) -> bool>(
    given: Seq<ParsedProxy>,
    all: Seq<ParsedProxy>,
    visit: V,
) -> bool {
    (given == all && went_on(visit, all, all.len() as int)) || had_enough(given, all, visit)
}

/// Hands rows on to a visitor, which says whether it wants more, and gives back
/// those that were handed on.
pub fn hand_on<V: Fn(ParsedProxy) -> bool>(rows: Vec<ParsedProxy>, visit: V) -> (given: Vec<
    ParsedProxy,
>)
    requires
        forall|row: ParsedProxy| #[trigger] call_requires(visit, (row,)),
    ensures
        visited(given@, rows@, visit),
{
    let mut given: Vec<ParsedProxy> = Vec::new();
    let mut i: usize = 0;
    while i < rows.len()
        invariant
            i <= rows@.len(),
            given@ == rows@.take(i as int),
            went_on(visit, given@, i as int),
            forall|row: ParsedProxy| #[trigger] call_requires(visit, (row,)),
        decreases rows.len() - i,
    {
        let ghost before = given@;
        given.push(rows[i]);
        i += 1;
        proof {
            assert(given@ =~= rows@.take(i as int));
            assert(went_on(visit, given@, i - 1)) by {
                assert forall|k: int| 0 <= k < i - 1 implies call_ensures(
                    visit,
                    (#[trigger] given@[k],),
                    true,
                ) by {
                    assert(given@[k] == before[k]);
                }
            }
        }
        if !visit(rows[i - 1]) {
            assert(given@.last() == rows@[i - 1]);
            return given;
        }
    }
    assert(given@ =~= rows@);
    given
}

/// The protocol that a list's word for it names.
pub open spec fn protocol_named(raw: Seq<char>) -> Option<Protocol> {
    let name = lowered(trimmed(raw));
    if name == "http"@ {
        Some(Protocol::Http(Anonymity::Unknown))
    } else if name == "https"@ || name == "ssl"@ {
        Some(Protocol::Https(Anonymity::Unknown))
    } else if name == "socks4"@ {
        Some(Protocol::Socks4)
    } else if name == "socks5"@ {
        Some(Protocol::Socks5)
    } else {
        None
    }
}

/// Reads a list's word for a protocol.
pub fn protocol_from_str(raw: &str) -> (r: Option<Protocol>)
    ensures
        r == protocol_named(raw@),
{
    let cs = chars_of(raw);
    let name = string_of(to_lower(trim(cs.as_slice())).as_slice());
    if same(name.as_str(), "http") {
        Some(Protocol::Http(Anonymity::Unknown))
    } else if same(name.as_str(), "https") || same(name.as_str(), "ssl") {
        Some(Protocol::Https(Anonymity::Unknown))
    } else if same(name.as_str(), "socks4") {
        Some(Protocol::Socks4)
    } else if same(name.as_str(), "socks5") {
        Some(Protocol::Socks5)
    } else {
        None
    }
}

/// The level that a list's words for it name.
pub open spec fn anonymity_named(raw: Seq<char>) -> Anonymity {
    let name = lowered(trimmed(raw));
    if holds(name, "elite"@) || holds(name, "high"@) {
        Anonymity::Elite
    } else if holds(name, "anonymous"@) {
        Anonymity::Anonymous
    } else if holds(name, "transparent"@) {
        Anonymity::Transparent
    } else {
        Anonymity::Unknown
    }
}

/// Reads a list's words for an anonymity level.
pub fn anonymity_from_str(raw: &str) -> (r: Anonymity)
    ensures
        r == anonymity_named(raw@),
{
    let cs = chars_of(raw);
    let name = to_lower(trim(cs.as_slice()));
    if contains(name.as_slice(), "elite") || contains(name.as_slice(), "high") {
        Anonymity::Elite
    } else if contains(name.as_slice(), "anonymous") {
        Anonymity::Anonymous
    } else if contains(name.as_slice(), "transparent") {
        Anonymity::Transparent
    } else {
        Anonymity::Unknown
    }
}

// ---------------------------------------------------------------------------
// Plain lines
// ---------------------------------------------------------------------------

/// A character that ends the endpoint in a line.
pub open spec fn ends_head(c: char) -> bool {
    c == ' ' || c == '\t' || c == '#' || c == ',' || c == '|'
}

/// Length of a text up to the first character that ends the endpoint.
pub open spec fn head_len(s: Seq<char>) -> int
    decreases s.len(),
{
    if s.len() == 0 || ends_head(s[0]) {
        0
    } else {
        1 + head_len(s.drop_first())
    }
}

/// Position of the last two slashes in a row, or minus one.
pub open spec fn last_slashes(s: Seq<char>) -> int
    decreases s.len(),
{
    if s.len() < 2 {
        -1
    } else if s[s.len() - 2] == '/' && s.last() == '/' {
        s.len() - 2
    } else {
        last_slashes(s.drop_last())
    }
}

/// A text from behind its last two slashes in a row.
pub open spec fn after_slashes(s: Seq<char>) -> Seq<char> {
    if last_slashes(s) >= 0 {
        s.skip(last_slashes(s) + 2)
    } else {
        s
    }
}

/// The part of a line that can hold the endpoint.
pub open spec fn head_of(s: Seq<char>) -> Seq<char> {
    after_slashes(trimmed(trimmed(s).take(head_len(trimmed(s)))))
}

/// The endpoint in a line: `ip:port` up to a separator, behind any scheme;
/// further fields behind the port are passed over.
pub open spec fn pair_of(s: Seq<char>) -> Option<(Ipv4Addr, u16)> {
    let parts = fields(head_of(s), ':');
    if parts.len() < 2 {
        None
    } else {
        match (read_ip(trimmed(parts[0])), read_number(trimmed(parts[1]), u16::MAX as nat)) {
            (Some(ip), Some(port)) => Some((ip, port as u16)),
            _ => None,
        }
    }
}

fn cut_head(s: &[char]) -> (r: &[char])
    ensures
        r@ == s@.take(head_len(s@)),
{
    let mut i: usize = 0;
    assert(s@.skip(0) =~= s@);
    while i < s.len() && !(s[i] == ' ' || s[i] == '\t' || s[i] == '#' || s[i] == ',' || s[i]
        == '|')
        invariant
            i <= s.len(),
            i + head_len(s@.skip(i as int)) == head_len(s@),
        decreases s.len() - i,
    {
        assert(s@.skip(i as int).drop_first() =~= s@.skip(i + 1));
        i += 1;
    }
    assert(head_len(s@.skip(i as int)) == 0);
    let r = slice_subrange(s, 0, i);
    assert(r@ =~= s@.take(i as int));
    r
}

fn cut_slashes(s: &[char]) -> (r: &[char])
    ensures
        r@ == after_slashes(s@),
{
    let mut n: usize = s.len();
    assert(s@.take(s.len() as int) =~= s@);
    while n >= 2
        invariant
            n <= s.len(),
            last_slashes(s@.take(n as int)) == last_slashes(s@),
        decreases n,
    {
        if s[n - 2] == '/' && s[n - 1] == '/' {
            let r = slice_subrange(s, n, s.len());
            assert(last_slashes(s@) == n - 2);
            assert(r@ =~= s@.skip(n as int));
            return r;
        }
        assert(s@.take(n as int).drop_last() =~= s@.take(n - 1));
        n -= 1;
    }
    assert(last_slashes(s@) == -1);
    s
}

/// Reads the endpoint in a line.
pub fn parse_pair(text: &[char]) -> (r: Option<(Ipv4Addr, u16)>)
    ensures
        r == pair_of(text@),
{
    let t = trim(text);
    let head = cut_slashes(trim(cut_head(t)));
    let parts = split(head, ':');
    assert(texts(parts@).len() == parts.len());
    if parts.len() < 2 {
        return None;
    }
    assert(texts(parts@)[0] == parts@[0]@);
    assert(texts(parts@)[1] == parts@[1]@);
    let first = chars_of(parts[0].as_str());
    let second = chars_of(parts[1].as_str());
    let ip = match Ipv4Addr::parse(trim(first.as_slice())) {
        Some(ip) => ip,
        None => {
            return None;
        },
    };
    match parse_u16(trim(second.as_slice())) {
        Some(port) => Some((ip, port)),
        None => None,
    }
}

/// The rows that lines hold, one for each line with an endpoint.
pub open spec fn line_rows(v: Seq<Seq<char>>) -> Seq<ParsedProxy>
    decreases v.len(),
{
    if v.len() == 0 {
        Seq::empty()
    } else {
        match pair_of(v.last()) {
            Some((ip, port)) => line_rows(v.drop_last()).push((ip, port, None)),
            None => line_rows(v.drop_last()),
        }
    }
}

/// A text without the byte order mark that may begin it.
pub open spec fn without_mark(s: Seq<char>) -> Seq<char> {
    if s.len() > 0 && s[0] == '\u{feff}' {
        s.skip(1)
    } else {
        s
    }
}

/// Reads the rows that a list of lines holds.
pub fn rows_of_lines(v: &Vec<String>) -> (rows: Vec<ParsedProxy>)
    ensures
        rows@ == line_rows(texts(v@)),
{
    let mut rows: Vec<ParsedProxy> = Vec::new();
    let mut i: usize = 0;
    assert(texts(v@).take(0) =~= Seq::<Seq<char>>::empty());
    while i < v.len()
        invariant
            i <= v.len(),
            rows@ == line_rows(texts(v@).take(i as int)),
        decreases v.len() - i,
    {
        let ghost done = texts(v@).take(i + 1);
        assert(done.drop_last() =~= texts(v@).take(i as int));
        assert(done.last() == v@[i as int]@);
        let line = chars_of(v[i].as_str());
        if let Some((ip, port)) = parse_pair(line.as_slice()) {
            rows.push((ip, port, None));
        }
        i += 1;
    }
    assert(texts(v@).take(v.len() as int) =~= texts(v@));
    rows
}

/// Hands on the rows of a list with one endpoint to a line; lines without one are passed
/// over, and so is a byte order mark before the first.
pub fn visit_plaintext<V: Fn(ParsedProxy) -> bool>(body: &str, visit: V) -> (rows: Vec<
    ParsedProxy,
>)
    requires
        forall|row: ParsedProxy| #[trigger] call_requires(visit, (row,)),
    ensures
        visited(rows@, line_rows(lines(without_mark(body@))), visit),
{
    let cs = chars_of(body);
    let list = if cs.len() > 0 && cs[0] == '\u{feff}' {
        let rest = slice_subrange(cs.as_slice(), 1, cs.len());
        assert(rest@ =~= body@.skip(1));
        split_lines(rest)
    } else {
        split_lines(cs.as_slice())
    };
    hand_on(rows_of_lines(&list), visit)
}

// ---------------------------------------------------------------------------
// HTML tables
// ---------------------------------------------------------------------------

/// A table row as its markup has it: the text fragments of each header cell,
/// then those of each data cell.
pub type MarkupRow = (Vec<Vec<String>>, Vec<Vec<String>>);

/// What an HTML document's elements hold, in the order in which selecting them
/// gives them: for each element of the first name its elements of the second,
/// and for each of those the text fragments of its elements of the third name
/// and of the fourth. `None` where a name selects nothing at all.
pub uninterp spec fn element_texts(
    body: Seq<char>,
    table: Seq<char>,
    row: Seq<char>,
    header: Seq<char>,
    cell: Seq<char>,
) -> Option<Seq<Seq<(Seq<Seq<Seq<char>>>, Seq<Seq<Seq<char>>>)>>>;

/// `scraper::Html::parse_document`, then `select` by what `Selector::parse`
/// makes of the names, and `ElementRef::text`: the fragments are a function of
/// the document and the names. There are none where a name is no selector.
#[verifier::external_body]
fn scrape_elements(body: &str, table: &str, row: &str, header: &str, cell: &str) -> (r: Option<
    Vec<Vec<MarkupRow>>,
>)
    ensures
        r.deep_view() == element_texts(body@, table@, row@, header@, cell@),
{
    let (table, row) = (Selector::parse(table).ok()?, Selector::parse(row).ok()?);
    let (header, cell) = (Selector::parse(header).ok()?, Selector::parse(cell).ok()?);
    let fragments = |r: &ElementRef, s: &Selector| -> Vec<Vec<String>> {
        r.select(s).map(|c| c.text().map(str::to_owned).collect()).collect()
    };
    let document = Html::parse_document(body);
    let rows = |t: ElementRef|
        t.select(&row).map(|r| (fragments(&r, &header), fragments(&r, &cell))).collect();
    Some(document.select(&table).map(rows).collect())
}

/// What an HTML document's tables hold: for each table its rows, for each row
/// the text fragments of its header cells and of its data cells.
pub open spec fn table_texts(body: Seq<char>) -> Seq<
    Seq<(Seq<Seq<Seq<char>>>, Seq<Seq<Seq<char>>>)>,
> {
    match element_texts(body, "table"@, "tr"@, "th"@, "td"@) {
        Some(tables) => tables,
        None => Seq::empty(),
    }
}

fn scrape_tables(body: &str) -> (tables: Vec<Vec<MarkupRow>>)
    ensures
        tables.deep_view() == table_texts(body@),
{
    match scrape_elements(body, "table", "tr", "th", "td") {
        Some(tables) => tables,
        None => {
            let tables: Vec<Vec<MarkupRow>> = Vec::new();
            assert(tables.deep_view() =~= Seq::empty());
            tables
        },
    }
}

/// The words of several fragments, in order.
pub open spec fn fragment_words(fragments: Seq<Seq<char>>) -> Seq<Seq<char>>
    decreases fragments.len(),
{
    if fragments.len() == 0 {
        Seq::empty()
    } else {
        fragment_words(fragments.drop_last()) + words(fragments.last())
    }
}

/// A cell's text: the words of its fragments with one space between them.
pub open spec fn cell_text(fragments: Seq<Seq<char>>) -> Seq<char> {
    joined(fragment_words(fragments), " "@)
}

/// The texts of a row's cells.
pub open spec fn cell_texts(cells: Seq<Seq<Seq<char>>>) -> Seq<Seq<char>> {
    Seq::new(cells.len(), |i: int| cell_text(cells[i]))
}

/// Reads a cell's text from its fragments.
pub fn normalized_text(fragments: &Vec<String>) -> (r: String)
    ensures
        r@ == cell_text(fragments.deep_view()),
{
    let mut all: Vec<String> = Vec::new();
    let mut i: usize = 0;
    let ghost d = fragments.deep_view();
    assert(d.take(0) =~= Seq::<Seq<char>>::empty());
    while i < fragments.len()
        invariant
            i <= fragments.len(),
            d == fragments.deep_view(),
            texts(all@) == fragment_words(d.take(i as int)),
        decreases fragments.len() - i,
    {
        let mut more = split_words(chars_of(fragments[i].as_str()).as_slice());
        let ghost before = texts(all@);
        let ghost added = texts(more@);
        let ghost old_all = all@;
        let ghost old_more = more@;
        all.append(&mut more);
        proof {
            assert(d.take(i + 1).drop_last() =~= d.take(i as int));
            assert(d.take(i + 1).last() == fragments@[i as int]@);
            assert(texts(all@) =~= before + added) by {
                assert(all@ == old_all + old_more);
            }
        }
        i += 1;
    }
    assert(d.take(fragments.len() as int) =~= d);
    join(&all, " ")
}

fn normalized_cells(cells: &Vec<Vec<String>>) -> (r: Vec<String>)
    ensures
        texts(r@) == cell_texts(cells.deep_view()),
{
    let mut r: Vec<String> = Vec::new();
    let mut i: usize = 0;
    let ghost d = cells.deep_view();
    while i < cells.len()
        invariant
            i <= cells.len(),
            d == cells.deep_view(),
            texts(r@) == cell_texts(d).take(i as int),
        decreases cells.len() - i,
    {
        let text = normalized_text(&cells[i]);
        proof {
            lemma_texts_push(r@, text);
            assert(d[i as int] == cells@[i as int].deep_view());
        }
        r.push(text);
        i += 1;
        assert(texts(r@) =~= cell_texts(d).take(i as int));
    }
    assert(cell_texts(d).take(cells.len() as int) =~= cell_texts(d));
    r
}

/// Which cell of a row holds what.
#[derive(Clone, Copy, Debug, PartialEq, Eq, Structural)]
pub struct HeaderColumns {
    pub ip: usize,
    pub port: usize,
    pub protocol: Option<usize>,
    pub https: Option<usize>,
    pub anonymity: Option<usize>,
}

/// The column of the first name that some header is exactly.
pub open spec fn exact_column(lower: Seq<Seq<char>>, names: Seq<Seq<char>>) -> Option<int>
    decreases names.len(),
{
    if names.len() == 0 {
        None
    } else if index_of_text(lower, names[0]) < lower.len() {
        Some(index_of_text(lower, names[0]))
    } else {
        exact_column(lower, names.drop_first())
    }
}

/// Whether a header holds one of the names.
pub open spec fn holds_any(cell: Seq<char>, names: Seq<Seq<char>>) -> bool {
    exists|j: int| 0 <= j < names.len() && holds(cell, #[trigger] names[j])
}

/// The first column whose header holds one of the names.
pub open spec fn loose_column(lower: Seq<Seq<char>>, names: Seq<Seq<char>>) -> Option<int>
    decreases lower.len(),
{
    if lower.len() == 0 {
        None
    } else if holds_any(lower[0], names) {
        Some(0)
    } else {
        match loose_column(lower.drop_first(), names) {
            Some(i) => Some(i + 1),
            None => None,
        }
    }
}

/// The column for a list of names: an exact header first, in the order of the
/// names; else the first header that holds one of them.
pub open spec fn column_for(lower: Seq<Seq<char>>, names: Seq<Seq<char>>) -> Option<int> {
    match exact_column(lower, names) {
        Some(i) => Some(i),
        None => loose_column(lower, names),
    }
}

/// Headers as they are compared: trimmed and in lower case.
pub open spec fn lower_headers(header: Seq<Seq<char>>) -> Seq<Seq<char>> {
    Seq::new(header.len(), |i: int| lowered(trimmed(header[i])))
}

/// Which columns the headers say; without a header the address is in the
/// first and the port in the second.
pub open spec fn columns_of(header: Seq<Seq<char>>) -> (
    int,
    int,
    Option<int>,
    Option<int>,
    Option<int>,
) {
    let lower = lower_headers(header);
    (
        match column_for(lower, seq!["ip address"@, "ip"@]) {
            Some(i) => i,
            None => 0,
        },
        match column_for(lower, seq!["port"@]) {
            Some(i) => i,
            None => 1,
        },
        column_for(lower, seq!["version"@, "type"@, "protocol"@]),
        column_for(lower, seq!["https"@]),
        column_for(lower, seq!["anonymity"@]),
    )
}

/// An optional column number as a mathematical one.
pub open spec fn as_column(c: Option<usize>) -> Option<int> {
    match c {
        Some(i) => Some(i as int),
        None => None,
    }
}

impl HeaderColumns {
    /// The column numbers.
    pub open spec fn view(self) -> (int, int, Option<int>, Option<int>, Option<int>) {
        (
            self.ip as int,
            self.port as int,
            as_column(self.protocol),
            as_column(self.https),
            as_column(self.anonymity),
        )
    }
}

/// Finds the column for a list of names.
pub fn find_column(lower: &Vec<String>, names: &[&str]) -> (r: Option<usize>)
    ensures
        as_column(r) == column_for(texts(lower@), words_of(names@)),
{
    let ghost low = texts(lower@);
    let ghost all = words_of(names@);
    let mut n: usize = 0;
    assert(all.skip(0) =~= all);
    while n < names.len()
        invariant
            n <= names.len(),
            low == texts(lower@),
            all == words_of(names@),
            exact_column(low, all.skip(n as int)) == exact_column(low, all),
        decreases names.len() - n,
    {
        let ghost rest = all.skip(n as int);
        assert(rest[0] == names@[n as int]@);
        assert(rest.drop_first() =~= all.skip(n + 1));
        let mut i: usize = 0;
        while i < lower.len()
            invariant
                i <= lower.len(),
                n < names.len(),
                low == texts(lower@),
                rest.len() > 0,
                rest[0] == names@[n as int]@,
                exact_column(low, rest) == exact_column(low, all),
                all == words_of(names@),
                forall|j: int| 0 <= j < i ==> low[j] != rest[0],
            decreases lower.len() - i,
        {
            assert(low[i as int] == lower@[i as int]@);
            if same(lower[i].as_str(), names[n]) {
                proof {
                    lemma_index_of_text(low, rest[0], i as int);
                }
                return Some(i);
            }
            i += 1;
        }
        proof {
            lemma_index_of_text(low, rest[0], low.len() as int);
        }
        n += 1;
    }
    assert(exact_column(low, all) is None);
    let mut i: usize = 0;
    assert(low.skip(0) =~= low);
    while i < lower.len()
        invariant
            i <= lower.len(),
            low == texts(lower@),
            all == words_of(names@),
            exact_column(low, all) is None,
            match loose_column(low.skip(i as int), all) {
                Some(k) => loose_column(low, all) == Some(k + i),
                None => loose_column(low, all) is None,
            },
        decreases lower.len() - i,
    {
        let ghost rest = low.skip(i as int);
        assert(rest[0] == lower@[i as int]@);
        assert(rest.drop_first() =~= low.skip(i + 1));
        let cell = chars_of(lower[i].as_str());
        let mut n: usize = 0;
        while n < names.len()
            invariant
                n <= names.len(),
                i < lower.len(),
                cell@ == rest[0],
                rest.len() > 0,
                all == words_of(names@),
                low == texts(lower@),
                exact_column(low, all) is None,
                match loose_column(rest, all) {
                    Some(k) => loose_column(low, all) == Some(k + i),
                    None => loose_column(low, all) is None,
                },
                forall|j: int| 0 <= j < n ==> !holds(rest[0], #[trigger] all[j]),
            decreases names.len() - n,
        {
            assert(all[n as int] == names@[n as int]@);
            if contains(cell.as_slice(), names[n]) {
                assert(holds_any(rest[0], all));
                return Some(i);
            }
            n += 1;
        }
        assert(!holds_any(rest[0], all));
        i += 1;
    }
    assert(low.skip(lower.len() as int) =~= Seq::<Seq<char>>::empty());
    None
}

/// Reads a header row.
pub fn header_columns(header: &Vec<String>) -> (r: HeaderColumns)
    ensures
        r@ == columns_of(texts(header@)),
{
    let mut lower: Vec<String> = Vec::new();
    let mut i: usize = 0;
    let ghost want = lower_headers(texts(header@));
    while i < header.len()
        invariant
            i <= header.len(),
            want == lower_headers(texts(header@)),
            texts(lower@) == want.take(i as int),
        decreases header.len() - i,
    {
        let cs = chars_of(header[i].as_str());
        let cell = string_of(to_lower(trim(cs.as_slice())).as_slice());
        proof {
            lemma_texts_push(lower@, cell);
            assert(want[i as int] == lowered(trimmed(header@[i as int]@)));
        }
        lower.push(cell);
        i += 1;
        assert(texts(lower@) =~= want.take(i as int));
    }
    assert(want.take(header.len() as int) =~= want);
    let ip_names: [&str; 2] = ["ip address", "ip"];
    let port_names: [&str; 1] = ["port"];
    let protocol_names: [&str; 3] = ["version", "type", "protocol"];
    let https_names: [&str; 1] = ["https"];
    let anonymity_names: [&str; 1] = ["anonymity"];
    assert(words_of(ip_names@) =~= seq!["ip address"@, "ip"@]);
    assert(words_of(port_names@) =~= seq!["port"@]);
    assert(words_of(protocol_names@) =~= seq!["version"@, "type"@, "protocol"@]);
    assert(words_of(https_names@) =~= seq!["https"@]);
    assert(words_of(anonymity_names@) =~= seq!["anonymity"@]);
    let ip: usize = match find_column(&lower, ip_names.as_slice()) {
        Some(i) => i,
        None => 0,
    };
    let port: usize = match find_column(&lower, port_names.as_slice()) {
        Some(i) => i,
        None => 1,
    };
    let protocol = find_column(&lower, protocol_names.as_slice());
    let https = find_column(&lower, https_names.as_slice());
    let anonymity = find_column(&lower, anonymity_names.as_slice());
    HeaderColumns { ip, port, protocol, https, anonymity }
}

/// The port that a cell writes: the whole of it, or its last word (a hidden
/// prefix may come before).
pub open spec fn read_port(s: Seq<char>) -> Option<nat> {
    match read_number(trimmed(s), u16::MAX as nat) {
        Some(n) => Some(n),
        None => {
            let w = words(trimmed(s));
            if w.len() > 0 {
                read_number(w.last(), u16::MAX as nat)
            } else {
                None
            }
        },
    }
}

/// Reads a port cell.
pub fn parse_port(text: &str) -> (r: Option<u16>)
    ensures
        match r {
            Some(n) => read_port(text@) == Some(n as nat),
            None => read_port(text@) is None,
        },
{
    let cs = chars_of(text);
    let t = trim(cs.as_slice());
    match parse_u16(t) {
        Some(n) => Some(n),
        None => {
            let w = split_words(t);
            assert(texts(w@).len() == w.len());
            if w.len() == 0 {
                return None;
            }
            assert(texts(w@)[w.len() - 1] == w@[w.len() - 1]@);
            parse_u16(chars_of(w[w.len() - 1].as_str()).as_slice())
        },
    }
}

/// The cell in a column, where the row has it and no earlier role took it.
pub open spec fn cell_in(cells: Seq<Seq<char>>, column: Option<int>, taken: bool) -> Option<
    Seq<char>,
> {
    match column {
        Some(i) => if !taken && 0 <= i < cells.len() {
            Some(cells[i])
        } else {
            None
        },
        None => None,
    }
}

/// The protocol that a row's cells say. A type cell that names one decides;
/// else "yes" in the HTTPS cell does. The anonymity cell then sets the level
/// of HTTP and HTTPS.
pub open spec fn protocol_in_row(
    kind: Option<Seq<char>>,
    https: Option<Seq<char>>,
    anonymity: Option<Seq<char>>,
) -> Option<Protocol> {
    let named = match kind {
        Some(cell) => protocol_named(cell),
        None => None,
    };
    let family = match named {
        Some(p) => Some(p),
        None => if https is Some && lowered(trimmed(https->0)) == lowered("yes"@) {
            Some(Protocol::Https(Anonymity::Unknown))
        } else {
            None
        },
    };
    match (family, anonymity) {
        (Some(Protocol::Http(_)), Some(cell)) => Some(Protocol::Http(anonymity_named(cell))),
        (Some(Protocol::Https(_)), Some(cell)) => Some(Protocol::Https(anonymity_named(cell))),
        _ => family,
    }
}

/// The row that cells hold under the given columns.
pub open spec fn proxy_in_row(
    c: (int, int, Option<int>, Option<int>, Option<int>),
    cells: Seq<Seq<char>>,
) -> Option<ParsedProxy> {
    let ip_cell = cell_in(cells, Some(c.0), false);
    let port_cell = cell_in(cells, Some(c.1), c.1 == c.0);
    let kind = cell_in(cells, c.2, c.2 == Some(c.0) || c.2 == Some(c.1));
    let https = cell_in(cells, c.3, c.3 == Some(c.0) || c.3 == Some(c.1) || c.3 == c.2);
    let anonymity = cell_in(
        cells,
        c.4,
        c.4 == Some(c.0) || c.4 == Some(c.1) || c.4 == c.2 || c.4 == c.3,
    );
    match (ip_cell, port_cell) {
        (Some(i), Some(p)) => match (read_ip(trimmed(i)), read_port(p)) {
            (Some(ip), Some(port)) => Some(
                (ip, port as u16, protocol_in_row(kind, https, anonymity)),
            ),
            _ => None,
        },
        _ => None,
    }
}

fn pick_cell<'a>(cells: &'a Vec<String>, column: Option<usize>, taken: bool) -> (r: Option<
    &'a String,
>)
    ensures
        match r {
            Some(s) => cell_in(texts(cells@), as_column(column), taken) == Some(s@),
            None => cell_in(texts(cells@), as_column(column), taken) is None,
        },
{
    match column {
        Some(i) => if !taken && i < cells.len() {
            Some(&cells[i])
        } else {
            None
        },
        None => None,
    }
}

fn row_protocol(
    kind: Option<&String>,
    https: Option<&String>,
    anonymity: Option<&String>,
) -> (r: Option<Protocol>)
    ensures
        r == protocol_in_row(
            (match kind {
                Some(s) => Some(s@),
                None => None,
            }),
            (match https {
                Some(s) => Some(s@),
                None => None,
            }),
            (match anonymity {
                Some(s) => Some(s@),
                None => None,
            }),
        ),
{
    let mut protocol: Option<Protocol> = match kind {
        Some(cell) => protocol_from_str(cell.as_str()),
        None => None,
    };
    if protocol.is_none() {
        if let Some(cell) = https {
            let t = trim_str(cell.as_str());
            if eq_ignore_case(t.as_str(), "yes") {
                protocol = Some(Protocol::Https(Anonymity::Unknown));
            }
        }
    }
    if let Some(cell) = anonymity {
        match protocol {
            Some(Protocol::Http(_)) => {
                protocol = Some(Protocol::Http(anonymity_from_str(cell.as_str())));
            },
            Some(Protocol::Https(_)) => {
                protocol = Some(Protocol::Https(anonymity_from_str(cell.as_str())));
            },
            _ => {},
        }
    }
    protocol
}

/// Reads one row of a table.
pub fn table_row(c: HeaderColumns, cells: &Vec<String>) -> (r: Option<ParsedProxy>)
    ensures
        r == proxy_in_row(c@, texts(cells@)),
{
    let ip_cell = match pick_cell(cells, Some(c.ip), false) {
        Some(s) => s,
        None => {
            return None;
        },
    };
    let port_cell = match pick_cell(cells, Some(c.port), c.port == c.ip) {
        Some(s) => s,
        None => {
            return None;
        },
    };
    let is = |a: Option<usize>, b: Option<usize>| -> (r: bool)
        ensures
            r == (a == b),
        {
            match (a, b) {
                (Some(x), Some(y)) => x == y,
                (None, None) => true,
                _ => false,
            }
        };
    let kind = pick_cell(
        cells,
        c.protocol,
        is(c.protocol, Some(c.ip)) || is(c.protocol, Some(c.port)),
    );
    let https = pick_cell(
        cells,
        c.https,
        is(c.https, Some(c.ip)) || is(c.https, Some(c.port)) || is(c.https, c.protocol),
    );
    let anonymity = pick_cell(
        cells,
        c.anonymity,
        is(c.anonymity, Some(c.ip)) || is(c.anonymity, Some(c.port)) || is(
            c.anonymity,
            c.protocol,
        ) || is(c.anonymity, c.https),
    );
    let ip_text = chars_of(ip_cell.as_str());
    let ip = match Ipv4Addr::parse(trim(ip_text.as_slice())) {
        Some(ip) => ip,
        None => {
            return None;
        },
    };
    let port = match parse_port(port_cell.as_str()) {
        Some(port) => port,
        None => {
            return None;
        },
    };
    Some((ip, port, row_protocol(kind, https, anonymity)))
}

/// A table's header texts: the header cells of its first row, or its data
/// cells where it has none.
pub open spec fn header_texts(
    table: Seq<(Seq<Seq<Seq<char>>>, Seq<Seq<Seq<char>>>)>,
) -> Seq<Seq<char>> {
    if table.len() == 0 {
        Seq::empty()
    } else if table[0].0.len() > 0 {
        cell_texts(table[0].0)
    } else {
        cell_texts(table[0].1)
    }
}

/// The rows of a table under the given columns.
pub open spec fn rows_under(
    c: (int, int, Option<int>, Option<int>, Option<int>),
    rows: Seq<(Seq<Seq<Seq<char>>>, Seq<Seq<Seq<char>>>)>,
) -> Seq<ParsedProxy>
    decreases rows.len(),
{
    if rows.len() == 0 {
        Seq::empty()
    } else {
        match proxy_in_row(c, cell_texts(rows.last().1)) {
            Some(p) => rows_under(c, rows.drop_last()).push(p),
            None => rows_under(c, rows.drop_last()),
        }
    }
}

/// The rows of all tables.
pub open spec fn rows_of_tables(
    tables: Seq<Seq<(Seq<Seq<Seq<char>>>, Seq<Seq<Seq<char>>>)>>,
) -> Seq<ParsedProxy>
    decreases tables.len(),
{
    if tables.len() == 0 {
        Seq::empty()
    } else {
        rows_of_tables(tables.drop_last()) + rows_under(
            columns_of(header_texts(tables.last())),
            tables.last(),
        )
    }
}

fn read_table(table: &Vec<MarkupRow>, rows: &mut Vec<ParsedProxy>)
    ensures
        final(rows)@ == old(rows)@ + rows_under(
            columns_of(header_texts(table.deep_view())),
            table.deep_view(),
        ),
{
    let ghost d = table.deep_view();
    let header: Vec<String> = if table.len() == 0 {
        Vec::new()
    } else if table[0].0.len() > 0 {
        normalized_cells(&table[0].0)
    } else {
        normalized_cells(&table[0].1)
    };
    proof {
        if table.len() > 0 {
            assert(d[0] == table@[0].deep_view());
            assert(d[0].0 == table@[0].0.deep_view());
            assert(d[0].1 == table@[0].1.deep_view());
        } else {
            assert(texts(header@) =~= Seq::<Seq<char>>::empty());
        }
        assert(texts(header@) == header_texts(d));
    }
    let columns = header_columns(&header);
    let ghost before = rows@;
    let mut i: usize = 0;
    assert(d.take(0) =~= Seq::<(Seq<Seq<Seq<char>>>, Seq<Seq<Seq<char>>>)>::empty());
    while i < table.len()
        invariant
            i <= table.len(),
            d == table.deep_view(),
            columns@ == columns_of(header_texts(d)),
            rows@ == before + rows_under(columns@, d.take(i as int)),
        decreases table.len() - i,
    {
        let cells = normalized_cells(&table[i].1);
        proof {
            assert(d.take(i + 1).drop_last() =~= d.take(i as int));
            assert(d.take(i + 1).last() == table@[i as int].deep_view());
            assert(table@[i as int].deep_view().1 == table@[i as int].1.deep_view());
        }
        if let Some(row) = table_row(columns, &cells) {
            rows.push(row);
        }
        assert(rows@ =~= before + rows_under(columns@, d.take(i + 1)));
        i += 1;
    }
    assert(d.take(table.len() as int) =~= d);
}

/// Reads the rows of scraped tables.
pub fn read_tables(tables: &Vec<Vec<MarkupRow>>) -> (rows: Vec<ParsedProxy>)
    ensures
        rows@ == rows_of_tables(tables.deep_view()),
{
    let ghost d = tables.deep_view();
    let mut rows: Vec<ParsedProxy> = Vec::new();
    let mut i: usize = 0;
    assert(d.take(0) =~= Seq::<Seq<(Seq<Seq<Seq<char>>>, Seq<Seq<Seq<char>>>)>>::empty());
    while i < tables.len()
        invariant
            i <= tables.len(),
            d == tables.deep_view(),
            rows@ == rows_of_tables(d.take(i as int)),
        decreases tables.len() - i,
    {
        proof {
            assert(d.take(i + 1).drop_last() =~= d.take(i as int));
            assert(d.take(i + 1).last() == tables@[i as int].deep_view());
        }
        read_table(&tables[i], &mut rows);
        i += 1;
    }
    assert(d.take(tables.len() as int) =~= d);
    rows
}

/// Hands on the proxies in the tables of an HTML document.
pub fn visit_html_table<V: Fn(ParsedProxy) -> bool>(body: &str, visit: V) -> (rows: Vec<
    ParsedProxy,
>)
    requires
        forall|row: ParsedProxy| #[trigger] call_requires(visit, (row,)),
    ensures
        visited(rows@, rows_of_tables(table_texts(body@)), visit),
{
    let tables = scrape_tables(body);
    hand_on(read_tables(&tables), visit)
}

// ---------------------------------------------------------------------------
// Patterns
// ---------------------------------------------------------------------------

/// The successive matches of a regular expression in a text: for each match
/// its groups, the whole match first. `None` where the pattern is not one.
pub uninterp spec fn regex_matches(pattern: Seq<char>, text: Seq<char>) -> Option<
    Seq<Seq<Option<Seq<char>>>>,
>;

/// `regex::Regex::new` and `Regex::captures_iter`: the groups matched are a
/// function of the pattern and the text.
#[verifier::external_body]
fn capture_groups(pattern: &str, text: &str) -> (r: Option<Vec<Vec<Option<String>>>>)
    ensures
        r.deep_view() == regex_matches(pattern@, text@),
{
    let regex = regex::Regex::new(pattern).ok()?;
    let groups = |c: regex::Captures<'_>| -> Vec<Option<String>> {
        c.iter().map(|g| g.map(|m| m.as_str().to_owned())).collect()
    };
    Some(regex.captures_iter(text).map(groups).collect())
}

/// One group of a match.
pub open spec fn group_of(groups: Seq<Option<Seq<char>>>, n: int) -> Option<Seq<char>> {
    if 0 <= n < groups.len() {
        groups[n]
    } else {
        None
    }
}

fn group<'a>(groups: &'a Vec<Option<String>>, n: usize) -> (r: Option<&'a String>)
    ensures
        match r {
            Some(s) => group_of(groups.deep_view(), n as int) == Some(s@),
            None => group_of(groups.deep_view(), n as int) is None,
        },
{
    if n < groups.len() {
        assert(groups.deep_view()[n as int] == groups@[n as int].deep_view());
        match &groups[n] {
            Some(s) => Some(s),
            None => None,
        }
    } else {
        None
    }
}

/// The endpoint whose address is the first group and whose port the second.
pub open spec fn pair_in_match(groups: Seq<Option<Seq<char>>>) -> Option<(Ipv4Addr, u16)> {
    match (group_of(groups, 1), group_of(groups, 2)) {
        (Some(a), Some(b)) => match (read_ip(a), read_number(b, u16::MAX as nat)) {
            (Some(ip), Some(port)) => Some((ip, port as u16)),
            _ => None,
        },
        _ => None,
    }
}

/// The rows that matches with an address and a port hold.
pub open spec fn match_rows(matches: Seq<Seq<Option<Seq<char>>>>) -> Seq<ParsedProxy>
    decreases matches.len(),
{
    if matches.len() == 0 {
        Seq::empty()
    } else {
        match pair_in_match(matches.last()) {
            Some((ip, port)) => match_rows(matches.drop_last()).push((ip, port, None)),
            None => match_rows(matches.drop_last()),
        }
    }
}

fn read_match(groups: &Vec<Option<String>>) -> (r: Option<(Ipv4Addr, u16)>)
    ensures
        r == pair_in_match(groups.deep_view()),
{
    match (group(groups, 1), group(groups, 2)) {
        (Some(a), Some(b)) => {
            let ip = Ipv4Addr::parse(chars_of(a.as_str()).as_slice());
            let port = parse_u16(chars_of(b.as_str()).as_slice());
            match (ip, port) {
                (Some(ip), Some(port)) => Some((ip, port)),
                _ => None,
            }
        },
        _ => None,
    }
}

/// Reads the rows that matches hold.
pub fn read_matches(matches: &Vec<Vec<Option<String>>>) -> (rows: Vec<ParsedProxy>)
    ensures
        rows@ == match_rows(matches.deep_view()),
{
    let ghost d = matches.deep_view();
    let mut rows: Vec<ParsedProxy> = Vec::new();
    let mut i: usize = 0;
    assert(d.take(0) =~= Seq::<Seq<Option<Seq<char>>>>::empty());
    while i < matches.len()
        invariant
            i <= matches.len(),
            d == matches.deep_view(),
            rows@ == match_rows(d.take(i as int)),
        decreases matches.len() - i,
    {
        proof {
            assert(d.take(i + 1).drop_last() =~= d.take(i as int));
            assert(d.take(i + 1).last() == matches@[i as int].deep_view());
        }
        if let Some((ip, port)) = read_match(&matches[i]) {
            rows.push((ip, port, None));
        }
        i += 1;
    }
    assert(d.take(matches.len() as int) =~= d);
    rows
}

/// The matches, or none where the pattern is not one.
pub open spec fn found(
    matches: Option<Seq<Seq<Option<Seq<char>>>>>,
) -> Seq<Seq<Option<Seq<char>>>> {
    match matches {
        Some(m) => m,
        None => Seq::empty(),
    }
}

fn all_matches(pattern: &str, text: &str) -> (r: Vec<Vec<Option<String>>>)
    ensures
        r.deep_view() == found(regex_matches(pattern@, text@)),
{
    match capture_groups(pattern, text) {
        Some(m) => m,
        None => {
            let r: Vec<Vec<Option<String>>> = Vec::new();
            assert(r.deep_view() =~= Seq::<Seq<Option<Seq<char>>>>::empty());
            r
        },
    }
}

/// An address, a colon and a port, anywhere in a text.
pub open spec fn pair_pattern() -> Seq<char> {
    r"\b((?:\d{1,3}\.){3}\d{1,3}):(\d{1,5})\b"@
}

/// Hands on every `ip:port` in a text.
pub fn visit_regex_pairs<V: Fn(ParsedProxy) -> bool>(body: &str, visit: V) -> (rows: Vec<
    ParsedProxy,
>)
    requires
        forall|row: ParsedProxy| #[trigger] call_requires(visit, (row,)),
    ensures
        visited(rows@, match_rows(found(regex_matches(pair_pattern(), body@))), visit),
{
    let matches = all_matches(r"\b((?:\d{1,3}\.){3}\d{1,3}):(\d{1,5})\b", body);
    hand_on(read_matches(&matches), visit)
}

/// The `"ip"` and `"port"` members of a scripted row.
pub open spec fn gather_pattern() -> Seq<char> {
    "\"ip\"\\s*:\\s*\"((?:\\d{1,3}\\.){3}\\d{1,3})\"\\s*,\\s*\"port\"\\s*:\\s*\"(\\d{1,5})\""@
}

/// Hands on the rows that a script inserts.
pub fn visit_gatherproxy<V: Fn(ParsedProxy) -> bool>(body: &str, visit: V) -> (rows: Vec<
    ParsedProxy,
>)
    requires
        forall|row: ParsedProxy| #[trigger] call_requires(visit, (row,)),
    ensures
        visited(rows@, match_rows(found(regex_matches(gather_pattern(), body@))), visit),
{
    let matches = all_matches(
        "\"ip\"\\s*:\\s*\"((?:\\d{1,3}\\.){3}\\d{1,3})\"\\s*,\\s*\"port\"\\s*:\\s*\"(\\d{1,5})\"",
        body,
    );
    hand_on(read_matches(&matches), visit)
}

// ---------------------------------------------------------------------------
// Encoded rows
// ---------------------------------------------------------------------------

/// The bytes that standard base64 with padding encodes, where it does.
pub uninterp spec fn base64_bytes(text: Seq<char>) -> Option<Seq<u8>>;

/// `base64::Engine::decode` of the `STANDARD` engine: the bytes are a function
/// of the encoded text.
#[verifier::external_body]
fn decode_base64(text: &str) -> (r: Option<Vec<u8>>)
    ensures
        match r {
            Some(bytes) => base64_bytes(text@) == Some(bytes@),
            None => base64_bytes(text@) is None,
        },
{
    base64::Engine::decode(&base64::engine::general_purpose::STANDARD, text).ok()
}

/// `String::from_utf8`: a string where the bytes are valid UTF-8, the one
/// that they encode.
#[verifier::external_body]
pub(crate) fn utf8_string(bytes: Vec<u8>) -> (r: Option<String>)
    ensures
        match r {
            Some(s) => valid_utf8(bytes@) && s@ == decode_utf8(bytes@),
            None => !valid_utf8(bytes@),
        },
{
    String::from_utf8(bytes).ok()
}

/// The endpoint that a base64 text encodes.
pub open spec fn encoded_pair(bytes: Option<Seq<u8>>) -> Option<(Ipv4Addr, u16)> {
    match bytes {
        Some(b) => if valid_utf8(b) {
            pair_of(decode_utf8(b))
        } else {
            None
        },
        None => None,
    }
}

/// Reads the endpoint in decoded bytes.
pub fn read_encoded(bytes: Option<Vec<u8>>) -> (r: Option<(Ipv4Addr, u16)>)
    ensures
        r == encoded_pair(
            (match bytes {
                Some(b) => Some(b@),
                None => None,
            }),
        ),
{
    match bytes {
        Some(b) => match utf8_string(b) {
            Some(text) => parse_pair(chars_of(text.as_str()).as_slice()),
            None => None,
        },
        None => None,
    }
}

/// The endpoint that a call's encoded argument holds.
pub open spec fn call_pair(groups: Seq<Option<Seq<char>>>) -> Option<(Ipv4Addr, u16)> {
    match group_of(groups, 1) {
        Some(text) => encoded_pair(base64_bytes(text)),
        None => None,
    }
}

/// The rows that calls with an encoded argument hold.
pub open spec fn call_rows(matches: Seq<Seq<Option<Seq<char>>>>) -> Seq<ParsedProxy>
    decreases matches.len(),
{
    if matches.len() == 0 {
        Seq::empty()
    } else {
        match call_pair(matches.last()) {
            Some((ip, port)) => call_rows(matches.drop_last()).push((ip, port, None)),
            None => call_rows(matches.drop_last()),
        }
    }
}

/// A call with a base64 argument.
pub open spec fn call_pattern() -> Seq<char> {
    r"Proxy\('([A-Za-z0-9+/=]+)'\)"@
}

/// Hands on the rows that `Proxy('...')` calls encode.
pub fn visit_base64_rows<V: Fn(ParsedProxy) -> bool>(body: &str, visit: V) -> (rows: Vec<
    ParsedProxy,
>)
    requires
        forall|row: ParsedProxy| #[trigger] call_requires(visit, (row,)),
    ensures
        visited(rows@, call_rows(found(regex_matches(call_pattern(), body@))), visit),
{
    let matches = all_matches(r"Proxy\('([A-Za-z0-9+/=]+)'\)", body);
    let ghost d = matches.deep_view();
    let mut rows: Vec<ParsedProxy> = Vec::new();
    let mut i: usize = 0;
    assert(d.take(0) =~= Seq::<Seq<Option<Seq<char>>>>::empty());
    while i < matches.len()
        invariant
            i <= matches.len(),
            d == matches.deep_view(),
            rows@ == call_rows(d.take(i as int)),
        decreases matches.len() - i,
    {
        proof {
            assert(d.take(i + 1).drop_last() =~= d.take(i as int));
            assert(d.take(i + 1).last() == matches@[i as int].deep_view());
        }
        if let Some(text) = group(&matches[i], 1) {
            if let Some((ip, port)) = read_encoded(decode_base64(text.as_str())) {
                rows.push((ip, port, None));
            }
        }
        i += 1;
    }
    assert(d.take(matches.len() as int) =~= d);
    hand_on(rows, visit)
}

// ---------------------------------------------------------------------------
// Rows of JSON lists
// ---------------------------------------------------------------------------

/// The rows of one entry of a list that gives each endpoint's protocols.
pub open spec fn geonode_entry(ip: Seq<char>, port: Seq<char>, protocols: Seq<Seq<char>>) -> Seq<
    ParsedProxy,
> {
    match (read_ip(ip), read_number(port, u16::MAX as nat)) {
        (Some(a), Some(p)) => if protocols.len() == 0 {
            seq![(a, p as u16, None)]
        } else {
            Seq::new(protocols.len(), |i: int| (a, p as u16, protocol_named(protocols[i])))
        },
        _ => Seq::empty(),
    }
}

/// Reads one entry of a list that gives each endpoint's protocols: a row for
/// each of them, or one without a protocol where it gives none.
pub fn geonode_rows(ip: &str, port: &str, protocols: &Vec<String>) -> (rows: Vec<ParsedProxy>)
    ensures
        rows@ == geonode_entry(ip@, port@, texts(protocols@)),
{
    let mut rows: Vec<ParsedProxy> = Vec::new();
    let a = match Ipv4Addr::parse(chars_of(ip).as_slice()) {
        Some(a) => a,
        None => {
            return rows;
        },
    };
    let p = match parse_u16(chars_of(port).as_slice()) {
        Some(p) => p,
        None => {
            return rows;
        },
    };
    if protocols.len() == 0 {
        rows.push((a, p, None));
        assert(rows@ =~= seq![(a, p, None::<Protocol>)]);
        return rows;
    }
    let ghost want = geonode_entry(ip@, port@, texts(protocols@));
    let mut i: usize = 0;
    while i < protocols.len()
        invariant
            i <= protocols.len(),
            protocols.len() > 0,
            read_ip(ip@) == Some(a),
            read_number(port@, u16::MAX as nat) == Some(p as nat),
            want == geonode_entry(ip@, port@, texts(protocols@)),
            rows@ == want.take(i as int),
        decreases protocols.len() - i,
    {
        let protocol = protocol_from_str(protocols[i].as_str());
        rows.push((a, p, protocol));
        assert(want[i as int] == (a, p, protocol_named(protocols@[i as int]@)));
        i += 1;
        assert(rows@ =~= want.take(i as int));
    }
    assert(want.take(protocols.len() as int) =~= want);
    rows
}

/// The port that a text value gives.
pub fn port_from_text(value: &str) -> (r: Option<u16>)
    ensures
        match r {
            Some(n) => read_number(trimmed(value@), u16::MAX as nat) == Some(n as nat),
            None => read_number(trimmed(value@), u16::MAX as nat) is None,
        },
{
    let cs = chars_of(value);
    parse_u16(trim(cs.as_slice()))
}

/// The port that an unsigned number gives.
pub fn port_from_u64(value: u64) -> (r: Option<u16>)
    ensures
        r == port_of_number(value as int),
        r == if value <= u16::MAX {
            Some(value as u16)
        } else {
            None
        },
{
    if value <= 0xffff {
        Some(value as u16)
    } else {
        None
    }
}

/// The port that a number is, where it is one.
pub open spec fn port_of_number(value: int) -> Option<u16> {
    if 0 <= value <= u16::MAX {
        Some(value as u16)
    } else {
        None
    }
}

/// The port that a signed number gives.
pub fn port_from_i64(value: i64) -> (r: Option<u16>)
    ensures
        r == port_of_number(value as int),
        r == if 0 <= value <= u16::MAX {
            Some(value as u16)
        } else {
            None
        },
{
    if 0 <= value && value <= 0xffff {
        Some(value as u16)
    } else {
        None
    }
}

/// Bytes that a character takes in UTF-8.
pub open spec fn char_width(c: char) -> nat {
    let u = c as u32;
    if u < 0x80 {
        1
    } else if u < 0x800 {
        2
    } else if u < 0x10000 {
        3
    } else {
        4
    }
}

/// Bytes that a text takes in UTF-8.
pub open spec fn text_width(s: Seq<char>) -> nat
    decreases s.len(),
{
    if s.len() == 0 {
        0
    } else {
        text_width(s.drop_last()) + char_width(s.last())
    }
}

/// `char::from_u32`: a character where the number is a Unicode scalar value.
pub assume_specification[ char::from_u32 ](i: u32) -> (r: Option<char>)
    ensures
        match r {
            Some(c) => i <= 0x10ffff && !(0xd800 <= i <= 0xdfff) && c == i as char,
            None => i > 0x10ffff || 0xd800 <= i <= 0xdfff,
        },
;

/// The character that a code means once the offset is taken off.
pub open spec fn shifted_char(token: Seq<char>, offset: int) -> Option<char> {
    match read_signed(trimmed(token)) {
        Some(code) => {
            let u = code - offset;
            if 0 <= u <= 0x10ffff && !(0xd800 <= u <= 0xdfff) {
                Some(u as char)
            } else {
                None
            }
        },
        None => None,
    }
}

/// The characters that codes mean, behind those that were read before; `None`
/// where fewer than four of sixty-four bytes are left for the next one.
pub open spec fn shifted_text(tokens: Seq<Seq<char>>, offset: int, done: Seq<char>) -> Option<
    Seq<char>,
>
    decreases tokens.len(),
{
    if tokens.len() == 0 {
        Some(done)
    } else {
        match shifted_char(tokens[0], offset) {
            None => shifted_text(tokens.drop_first(), offset, done),
            Some(c) => if 64 - text_width(done) < 4 {
                None
            } else {
                shifted_text(tokens.drop_first(), offset, done.push(c))
            },
        }
    }
}

/// The codes between the first bracket and the bracket that closes it.
pub open spec fn bracketed(raw: Seq<char>) -> Option<Seq<char>> {
    let start = find_char(raw, '[');
    let rest = raw.skip(start + 1);
    let len = find_char(rest, ']');
    if start < raw.len() && len < rest.len() {
        Some(rest.take(len))
    } else {
        None
    }
}

/// What a hidden address script takes off each code.
pub open spec fn offset_of(matches: Seq<Seq<Option<Seq<char>>>>) -> int {
    if matches.len() > 0 && group_of(matches[0], 1) is Some && read_signed(
        group_of(matches[0], 1)->0,
    ) is Some {
        read_signed(group_of(matches[0], 1)->0)->0
    } else {
        0
    }
}

/// The first group of the first match.
pub open spec fn first_group(matches: Seq<Seq<Option<Seq<char>>>>) -> Option<Seq<char>> {
    if matches.len() > 0 {
        group_of(matches[0], 1)
    } else {
        None
    }
}

/// The address that a hidden form gives, from the offset and the bytes that
/// its script decodes: codes first, then the decoded bytes where they fit.
pub open spec fn hidden_ip(raw: Seq<char>, offset: int, decoded: Option<Seq<u8>>) -> Option<
    Ipv4Addr,
> {
    let codes = match bracketed(raw) {
        Some(list) => shifted_text(fields(list, ','), offset, Seq::empty()),
        None => Some(Seq::empty()),
    };
    match codes {
        None => None,
        Some(text) => {
            let bytes = match decoded {
                Some(more) => if more.len() <= 64 - text_width(text) {
                    encode_utf8(text) + more
                } else {
                    encode_utf8(text)
                },
                None => encode_utf8(text),
            };
            if valid_utf8(bytes) {
                read_ip(trimmed(decode_utf8(bytes)))
            } else {
                None
            }
        },
    }
}

/// The offset in a hidden address script.
pub open spec fn offset_pattern() -> Seq<char> {
    r"code\s*-\s*(\d+)"@
}

/// The encoded part of a hidden address script.
pub open spec fn atob_pattern() -> Seq<char> {
    "atob\\(\\s*[\"']([A-Za-z0-9+/=]+)[\"']\\s*\\)"@
}

/// The address in a cell that may hide it.
pub open spec fn revealed_ip(raw: Seq<char>) -> Option<Ipv4Addr> {
    let t = trimmed(raw);
    match read_ip(t) {
        Some(ip) => Some(ip),
        None => hidden_ip(
            t,
            offset_of(found(regex_matches(offset_pattern(), t))),
            match first_group(found(regex_matches(atob_pattern(), t))) {
                Some(text) => base64_bytes(text),
                None => None,
            },
        ),
    }
}

/// Reads the characters that a list of codes means.
fn shift_codes(tokens: &Vec<String>, offset: i64) -> (r: Option<String>)
    ensures
        match r {
            Some(s) => shifted_text(texts(tokens@), offset as int, Seq::empty()) == Some(s@)
                && text_width(s@) <= 64,
            None => shifted_text(texts(tokens@), offset as int, Seq::empty()) is None,
        },
{
    let ghost all = texts(tokens@);
    let mut done = String::new();
    let mut width: usize = 0;
    let mut i: usize = 0;
    assert(all.skip(0) =~= all);
    while i < tokens.len()
        invariant
            i <= tokens.len(),
            all == texts(tokens@),
            width == text_width(done@),
            width <= 64,
            shifted_text(all.skip(i as int), offset as int, done@) == shifted_text(
                all,
                offset as int,
                Seq::empty(),
            ),
        decreases tokens.len() - i,
    {
        let ghost rest = all.skip(i as int);
        assert(rest[0] == tokens@[i as int]@);
        assert(rest.drop_first() =~= all.skip(i + 1));
        let token = chars_of(tokens[i].as_str());
        let mut next: Option<char> = None;
        if let Some(code) = parse_i64(trim(token.as_slice())) {
            if let Some(u) = code.checked_sub(offset) {
                if 0 <= u && u <= 0x10ffff {
                    next = char::from_u32(u as u32);
                }
            }
        }
        assert(next == shifted_char(rest[0], offset as int));
        if let Some(c) = next {
            if 64 - width < 4 {
                return None;
            }
            let ghost before = done@;
            let u: u32 = c as u32;
            let w: usize = if u < 0x80 {
                1
            } else if u < 0x800 {
                2
            } else if u < 0x10000 {
                3
            } else {
                4
            };
            done.push(c);
            assert(done@.drop_last() =~= before);
            width = width + w;
        }
        i += 1;
    }
    assert(all.skip(tokens.len() as int) =~= Seq::<Seq<char>>::empty());
    Some(done)
}

fn brackets(raw: &[char]) -> (r: Option<&[char]>)
    ensures
        match r {
            Some(s) => bracketed(raw@) == Some(s@),
            None => bracketed(raw@) is None,
        },
{
    let start: usize = position(raw, '[');
    if start == raw.len() {
        return None;
    }
    let rest = slice_subrange(raw, start + 1, raw.len());
    assert(rest@ =~= raw@.skip(start + 1));
    let len: usize = position(rest, ']');
    if len == rest.len() {
        return None;
    }
    let list = slice_subrange(rest, 0, len);
    assert(list@ =~= rest@.take(len as int));
    Some(list)
}

/// Reads a hidden address from the offset and the decoded bytes of its script.
pub fn read_hidden(raw: &[char], offset: i64, decoded: Option<Vec<u8>>) -> (r: Option<Ipv4Addr>)
    ensures
        r == hidden_ip(
            raw@,
            offset as int,
            (match decoded {
                Some(b) => Some(b@),
                None => None,
            }),
        ),
{
    let text: String = match brackets(raw) {
        Some(list) => {
            let tokens = split(list, ',');
            match shift_codes(&tokens, offset) {
                Some(s) => s,
                None => {
                    return None;
                },
            }
        },
        None => String::new(),
    };
    let width: usize = utf8_len(text.as_str());
    let mut bytes: Vec<u8> = text.as_str().as_bytes_vec();
    if let Some(more) = decoded {
        if more.len() <= 64 - width {
            let mut tail = more;
            bytes.append(&mut tail);
        }
    }
    match utf8_string(bytes) {
        Some(s) => {
            let cs = chars_of(s.as_str());
            Ipv4Addr::parse(trim(cs.as_slice()))
        },
        None => None,
    }
}

/// Bytes that a short text takes in UTF-8.
fn utf8_len(s: &str) -> (n: usize)
    requires
        text_width(s@) <= 64,
    ensures
        n == text_width(s@),
{
    let cs = chars_of(s);
    let mut n: usize = 0;
    let mut i: usize = 0;
    assert(s@.take(0) =~= Seq::<char>::empty());
    assert(s@.take(s@.len() as int) =~= s@);
    while i < cs.len()
        invariant
            i <= cs.len(),
            cs@ == s@,
            text_width(s@) <= 64,
            n == text_width(s@.take(i as int)),
        decreases cs.len() - i,
    {
        let u: u32 = cs[i] as u32;
        let w: usize = if u < 0x80 {
            1
        } else if u < 0x800 {
            2
        } else if u < 0x10000 {
            3
        } else {
            4
        };
        proof {
            assert(s@.take(i + 1).drop_last() =~= s@.take(i as int));
            lemma_width_grows(s@, i + 1);
        }
        n = n + w;
        i += 1;
    }
    n
}

proof fn lemma_width_grows(s: Seq<char>, i: int)
    requires
        0 <= i <= s.len(),
    ensures
        text_width(s.take(i)) <= text_width(s),
    decreases s.len(),
{
    if i < s.len() {
        lemma_width_grows(s.drop_last(), i);
        assert(s.drop_last().take(i) =~= s.take(i));
    } else {
        assert(s.take(i) =~= s);
    }
}

/// Reads an address cell that may hide the address in a script.
pub fn deobfuscate_proxynova_ip(raw: &str) -> (r: Option<Ipv4Addr>)
    ensures
        r == revealed_ip(raw@),
{
    let t = trim_str(raw);
    let cs = chars_of(t.as_str());
    if let Some(ip) = Ipv4Addr::parse(cs.as_slice()) {
        return Some(ip);
    }
    let offsets = all_matches(r"code\s*-\s*(\d+)", t.as_str());
    let mut offset: i64 = 0;
    if offsets.len() > 0 {
        assert(offsets.deep_view()[0] == offsets@[0].deep_view());
        if let Some(s) = group(&offsets[0], 1) {
            if let Some(n) = parse_i64(chars_of(s.as_str()).as_slice()) {
                offset = n;
            }
        }
    }
    let calls = all_matches("atob\\(\\s*[\"']([A-Za-z0-9+/=]+)[\"']\\s*\\)", t.as_str());
    let mut decoded: Option<Vec<u8>> = None;
    if calls.len() > 0 {
        assert(calls.deep_view()[0] == calls@[0].deep_view());
        if let Some(s) = group(&calls[0], 1) {
            decoded = decode_base64(s.as_str());
        }
    }
    read_hidden(cs.as_slice(), offset, decoded)
}

/// Reads one entry of a list of HTTP proxies that may hide their addresses.
pub fn proxynova_row(ip: &str, port: Option<u16>) -> (r: Option<ParsedProxy>)
    ensures
        r == match (revealed_ip(ip@), port) {
            (Some(a), Some(p)) => Some((a, p, Some(Protocol::Http(Anonymity::Unknown)))),
            _ => None,
        },
{
    match (deobfuscate_proxynova_ip(ip), port) {
        (Some(a), Some(p)) => Some((a, p, Some(Protocol::Http(Anonymity::Unknown)))),
        _ => None,
    }
}

/// The JSON text that bytes begin with and the number of bytes that it takes,
/// where they begin with one.
pub uninterp spec fn json_text(bytes: Seq<u8>) -> Option<(Seq<char>, usize)>;

/// `serde_json::StreamDeserializer::next`, with its `byte_offset`: the first
/// JSON value from a place on, read as a text, and where it ends. Both are a
/// function of the bytes from there on. A text takes at least its quotes, and
/// no more bytes than there are.
#[verifier::external_body]
fn read_json_text(bytes: &Vec<u8>, at: usize) -> (r: Option<(String, usize)>)
    requires
        at <= bytes@.len(),
    ensures
        match r {
            Some((text, n)) => json_text(bytes@.skip(at as int)) == Some((text@, n)) && 0 < n
                && at + n <= bytes@.len(),
            None => json_text(bytes@.skip(at as int)) is None,
        },
{
    let mut stream = serde_json::Deserializer::from_slice(&bytes[at..]).into_iter::<String>();
    let text = stream.next()?.ok()?;
    Some((text, stream.byte_offset()))
}

/// A byte that JSON passes over between values.
pub open spec fn is_json_blank(b: u8) -> bool {
    b == 32 || b == 9 || b == 10 || b == 13
}

/// The first place from `at` on that is not blank, or the end.
pub open spec fn behind_blanks(bytes: Seq<u8>, at: int) -> int
    decreases bytes.len() - at,
{
    if 0 <= at < bytes.len() && is_json_blank(bytes[at]) {
        behind_blanks(bytes, at + 1)
    } else {
        at
    }
}

/// What comes next in a JSON array.
#[derive(Clone, Copy, Debug, PartialEq, Eq, Structural)]
pub enum JsonPlace {
    /// An element, from the given place on.
    Element(usize),
    /// The bracket that closes the array.
    End,
    /// Neither.
    Fault,
}

/// What comes next in a JSON array from a place on. In front of every element
/// but the first stands a comma, and no comma in front of the bracket.
pub open spec fn place_in_array(bytes: Seq<u8>, at: int, first: bool) -> JsonPlace {
    let i = behind_blanks(bytes, at);
    let j = behind_blanks(bytes, i + 1);
    if i >= bytes.len() {
        JsonPlace::Fault
    } else if bytes[i] == 93 {
        JsonPlace::End
    } else if first {
        JsonPlace::Element(i as usize)
    } else if bytes[i] == 44 && j < bytes.len() && bytes[j] != 93 {
        JsonPlace::Element(j as usize)
    } else {
        JsonPlace::Fault
    }
}

/// The texts of a JSON array from a place inside it on, up to the first fault,
/// and whether it ends without one.
pub open spec fn texts_in_array(bytes: Seq<u8>, at: int, first: bool) -> (Seq<Seq<char>>, bool)
    decreases bytes.len() - at,
{
    match place_in_array(bytes, at, first) {
        JsonPlace::End => (Seq::empty(), true),
        JsonPlace::Fault => (Seq::empty(), false),
        JsonPlace::Element(i) => match json_text(bytes.skip(i as int)) {
            Some((text, n)) if at < i + n <= bytes.len() => {
                let rest = texts_in_array(bytes, i + n, false);
                (seq![text] + rest.0, rest.1)
            },
            _ => (Seq::empty(), false),
        },
    }
}

/// The texts of the JSON array that a body begins with, up to the first fault,
/// and whether there is none.
pub open spec fn array_texts(body: Seq<char>) -> (Seq<Seq<char>>, bool) {
    let bytes = encode_utf8(body);
    let i = behind_blanks(bytes, 0);
    if i < bytes.len() && bytes[i] == 91 {
        texts_in_array(bytes, i + 1, true)
    } else {
        (Seq::empty(), false)
    }
}

fn pass_blanks(bytes: &Vec<u8>, at: usize) -> (r: usize)
    requires
        at <= bytes@.len(),
    ensures
        r == behind_blanks(bytes@, at as int),
        at <= r <= bytes@.len(),
{
    let mut i: usize = at;
    while i < bytes.len() && (bytes[i] == 32 || bytes[i] == 9 || bytes[i] == 10 || bytes[i] == 13)
        invariant
            at <= i <= bytes@.len(),
            behind_blanks(bytes@, i as int) == behind_blanks(bytes@, at as int),
        decreases bytes.len() - i,
    {
        i += 1;
    }
    i
}

/// Finds what comes next in a JSON array from a place on.
pub fn next_in_array(bytes: &Vec<u8>, at: usize, first: bool) -> (r: JsonPlace)
    requires
        at <= bytes@.len(),
    ensures
        r == place_in_array(bytes@, at as int, first),
        r matches JsonPlace::Element(i) ==> at <= i < bytes@.len(),
{
    let i: usize = pass_blanks(bytes, at);
    if i >= bytes.len() {
        return JsonPlace::Fault;
    }
    if bytes[i] == 93 {
        return JsonPlace::End;
    }
    if first {
        return JsonPlace::Element(i);
    }
    if bytes[i] != 44 {
        return JsonPlace::Fault;
    }
    let j: usize = pass_blanks(bytes, i + 1);
    if j < bytes.len() && bytes[j] != 93 {
        JsonPlace::Element(j)
    } else {
        JsonPlace::Fault
    }
}

/// The rows that a list of texts writes; a text that writes no endpoint is
/// passed over.
pub open spec fn rows_of_texts(v: Seq<Seq<char>>) -> Seq<ParsedProxy>
    decreases v.len(),
{
    if v.len() == 0 {
        Seq::empty()
    } else {
        let before = rows_of_texts(v.drop_last());
        match pair_of(v.last()) {
            Some((ip, port)) => before.push((ip, port, None)),
            None => before,
        }
    }
}

proof fn lemma_rows_concat(a: Seq<Seq<char>>, b: Seq<Seq<char>>)
    ensures
        rows_of_texts(a).is_prefix_of(rows_of_texts(a + b)),
    decreases b.len(),
{
    if b.len() == 0 {
        assert(a + b =~= a);
    } else {
        lemma_rows_concat(a, b.drop_last());
        assert((a + b).drop_last() =~= a + b.drop_last());
        let shorter = rows_of_texts(a + b.drop_last());
        let rows = rows_of_texts(a + b);
        assert(shorter =~= rows.take(shorter.len() as int));
        assert(rows_of_texts(a) =~= rows.take(rows_of_texts(a).len() as int));
    }
}

/// A JSON array that is malformed, with the rows that were handed on before
/// the fault.
#[derive(Debug)]
pub struct MalformedArray {
    pub rows: Vec<ParsedProxy>,
}

/// What handing the rows of a JSON array on to a visitor gives. A visitor that
/// has enough ends the reading well, whatever is behind; one that always asks
/// for more gets every row before the first fault.
pub open spec fn array_visited<V: Fn(ParsedProxy) -> bool>(
    r: Result<Vec<ParsedProxy>, MalformedArray>,
    texts: Seq<Seq<char>>,
    whole: bool,
    visit: V,
) -> bool {
    let all = rows_of_texts(texts);
    match r {
        Ok(rows) => {
            ||| rows@ == all && whole && went_on(visit, all, all.len() as int)
            ||| had_enough(rows@, all, visit)
        },
        Err(e) => e.rows@ == all && !whole && went_on(visit, all, all.len() as int),
    }
}

/// Hands the rows of a JSON array of texts on to a visitor, which says whether
/// it wants more. The result has the rows that were handed on; what is behind
/// the last of them is not read once the visitor has enough, and neither is
/// what is behind the array. An element that is not a text is a fault.
pub fn visit_json_strings<V: Fn(ParsedProxy) -> bool>(body: &str, visit: V) -> (r: Result<
    Vec<ParsedProxy>,
    MalformedArray,
>)
    requires
        forall|row: ParsedProxy| #[trigger] call_requires(visit, (row,)),
    ensures
        array_visited(r, array_texts(body@).0, array_texts(body@).1, visit),
{
    let bytes = body.as_bytes_vec();
    let ghost all = array_texts(body@);
    let mut rows: Vec<ParsedProxy> = Vec::new();
    let start: usize = pass_blanks(&bytes, 0);
    if start >= bytes.len() || bytes[start] != 91 {
        assert(rows@ =~= rows_of_texts(all.0));
        return Err(MalformedArray { rows });
    }
    let mut at: usize = start + 1;
    let mut first = true;
    let ghost mut done = Seq::<Seq<char>>::empty();
    assert(done + all.0 =~= all.0);
    loop
        invariant
            at <= bytes@.len(),
            bytes@ == encode_utf8(body@),
            all == array_texts(body@),
            all.0 == done + texts_in_array(bytes@, at as int, first).0,
            all.1 == texts_in_array(bytes@, at as int, first).1,
            rows@ == rows_of_texts(done),
            went_on(visit, rows@, rows@.len() as int),
            forall|row: ParsedProxy| #[trigger] call_requires(visit, (row,)),
        decreases bytes.len() - at,
    {
        let place: usize = match next_in_array(&bytes, at, first) {
            JsonPlace::Element(i) => i,
            JsonPlace::End => {
                assert(all.0 =~= done);
                return Ok(rows);
            },
            JsonPlace::Fault => {
                assert(all.0 =~= done);
                return Err(MalformedArray { rows });
            },
        };
        let (text, n) = match read_json_text(&bytes, place) {
            Some(found) => found,
            None => {
                assert(all.0 =~= done);
                return Err(MalformedArray { rows });
            },
        };
        let ghost rest = texts_in_array(bytes@, place + n, false);
        proof {
            assert(all.0 =~= done.push(text@) + rest.0);
            assert(done.push(text@).drop_last() =~= done);
            done = done.push(text@);
        }
        if let Some(row) = json_string_row(text.as_str()) {
            let ghost before = rows@;
            rows.push(row);
            proof {
                lemma_rows_concat(done, rest.0);
                assert forall|i: int| 0 <= i < before.len() implies call_ensures(
                    visit,
                    (#[trigger] rows@[i],),
                    true,
                ) by {
                    assert(rows@[i] == before[i]);
                }
            }
            if !visit(row) {
                return Ok(rows);
            }
        }
        at = place + n;
        first = false;
    }
}

/// Reads one text of a JSON array of proxies.
pub fn json_string_row(text: &str) -> (r: Option<ParsedProxy>)
    ensures
        r == match pair_of(text@) {
            Some((ip, port)) => Some((ip, port, None::<Protocol>)),
            None => None,
        },
{
    match parse_pair(chars_of(text).as_slice()) {
        Some((ip, port)) => Some((ip, port, None)),
        None => None,
    }
}

// ---------------------------------------------------------------------------
// What reading is for
// ---------------------------------------------------------------------------

/// A visitor that always asks for more is given every row; one that has enough
/// is given the rows before that, in order, and none behind.
pub proof fn eager_visitors_get_every_row<V: Fn(ParsedProxy) -> bool>(
    given: Seq<ParsedProxy>,
    all: Seq<ParsedProxy>,
    visit: V,
)
    requires
        visited(given, all, visit),
    ensures
        (forall|row: ParsedProxy| !#[trigger] call_ensures(visit, (row,), false)) ==> given == all,
        given.len() <= all.len(),
        forall|i: int| 0 <= i < given.len() ==> #[trigger] given[i] == all[i],
        forall|i: int|
            0 <= i < given.len() - 1 ==> call_ensures(visit, (#[trigger] given[i],), true),
        given.len() < all.len() ==> given.len() > 0 && call_ensures(visit, (given.last(),), false),
        all.len() > 0 && (forall|row: ParsedProxy| !#[trigger] call_ensures(visit, (row,), true))
            ==> given == all.take(1),
{
    if had_enough(given, all, visit) {
        assert(all.take(given.len() as int) =~= given);
        assert forall|i: int| 0 <= i < given.len() implies #[trigger] given[i] == all[i] by {
            assert(all.take(given.len() as int)[i] == all[i]);
        }
        if forall|row: ParsedProxy| !#[trigger] call_ensures(visit, (row,), true) {
            if given.len() > 1 {
                assert(call_ensures(visit, (given[0],), true));
            }
            assert(given =~= all.take(1));
        }
    } else if all.len() > 0 {
        assert(call_ensures(visit, (all[0],), true));
    }
}

/// Every row of a table with an address and a port is handed on, once each and
/// in the order of the table, and no other row is.
pub proof fn every_row_of_a_table_is_read(
    c: (int, int, Option<int>, Option<int>, Option<int>),
    a: Seq<(Seq<Seq<Seq<char>>>, Seq<Seq<Seq<char>>>)>,
    row: (Seq<Seq<Seq<char>>>, Seq<Seq<Seq<char>>>),
    b: Seq<(Seq<Seq<Seq<char>>>, Seq<Seq<Seq<char>>>)>,
)
    ensures
        rows_under(c, Seq::empty()) == Seq::<ParsedProxy>::empty(),
        proxy_in_row(c, cell_texts(row.1)) matches Some(p) ==> rows_under(c, seq![row]) == seq![p]
            && rows_under(c, a + seq![row] + b) == rows_under(c, a) + seq![p] + rows_under(c, b),
        proxy_in_row(c, cell_texts(row.1)) is None ==> rows_under(c, a + seq![row] + b)
            == rows_under(c, a) + rows_under(c, b),
        rows_under(c, a + b) == rows_under(c, a) + rows_under(c, b),
    decreases b.len(),
{
    let one = seq![row];
    assert(one.drop_last() =~= Seq::empty());
    assert(rows_under(c, one.drop_last()) =~= Seq::<ParsedProxy>::empty());
    lemma_table_rows_concat(c, a, b);
    lemma_table_rows_concat(c, a, one);
    lemma_table_rows_concat(c, a + one, b);
    match proxy_in_row(c, cell_texts(row.1)) {
        Some(p) => {
            assert(rows_under(c, one) =~= seq![p]);
        },
        None => {
            assert(rows_under(c, a) + rows_under(c, one) =~= rows_under(c, a));
        },
    }
}

proof fn lemma_table_rows_concat(
    c: (int, int, Option<int>, Option<int>, Option<int>),
    a: Seq<(Seq<Seq<Seq<char>>>, Seq<Seq<Seq<char>>>)>,
    b: Seq<(Seq<Seq<Seq<char>>>, Seq<Seq<Seq<char>>>)>,
)
    ensures
        rows_under(c, a + b) == rows_under(c, a) + rows_under(c, b),
    decreases b.len(),
{
    if b.len() == 0 {
        assert(a + b =~= a);
        assert(rows_under(c, a) + rows_under(c, b) =~= rows_under(c, a));
    } else {
        lemma_table_rows_concat(c, a, b.drop_last());
        assert((a + b).drop_last() =~= a + b.drop_last());
        assert((a + b).last() == b.last());
        assert(rows_under(c, a + b) =~= rows_under(c, a) + rows_under(c, b));
    }
}

/// Every table of a document is read, each under its own header, in order.
pub proof fn every_table_is_read(
    a: Seq<Seq<(Seq<Seq<Seq<char>>>, Seq<Seq<Seq<char>>>)>>,
    b: Seq<Seq<(Seq<Seq<Seq<char>>>, Seq<Seq<Seq<char>>>)>>,
    table: Seq<(Seq<Seq<Seq<char>>>, Seq<Seq<Seq<char>>>)>,
)
    ensures
        rows_of_tables(a + b) == rows_of_tables(a) + rows_of_tables(b),
        table.len() > 0 && table[0].0.len() > 0 ==> rows_of_tables(seq![table]) == rows_under(
            columns_of(cell_texts(table[0].0)),
            table,
        ),
        table.len() > 0 && table[0].0.len() == 0 ==> rows_of_tables(seq![table]) == rows_under(
            columns_of(cell_texts(table[0].1)),
            table,
        ),
    decreases b.len(),
{
    let one = seq![table];
    assert(one.drop_last() =~= Seq::empty());
    assert(rows_of_tables(one.drop_last()) =~= Seq::<ParsedProxy>::empty());
    assert(rows_of_tables(one) =~= rows_under(columns_of(header_texts(table)), table));
    if b.len() == 0 {
        assert(a + b =~= a);
        assert(rows_of_tables(a) + rows_of_tables(b) =~= rows_of_tables(a));
    } else {
        every_table_is_read(a, b.drop_last(), table);
        assert((a + b).drop_last() =~= a + b.drop_last());
        assert((a + b).last() == b.last());
        assert(rows_of_tables(a + b) =~= rows_of_tables(a) + rows_of_tables(b));
    }
}

/// A row is read exactly where the cell in the address column is an address
/// and the one in the port column a port, and they are the endpoint; a column
/// that two roles share serves the first of them only.
pub proof fn rows_give_their_endpoint(
    c: (int, int, Option<int>, Option<int>, Option<int>),
    cells: Seq<Seq<char>>,
)
    requires
        0 <= c.0,
        0 <= c.1,
    ensures
        proxy_in_row(c, cells) is Some <==> c.0 < cells.len() && c.1 < cells.len() && c.0 != c.1
            && read_ip(trimmed(cells[c.0])) is Some && read_port(cells[c.1]) is Some,
        proxy_in_row(c, cells) matches Some(p) ==> read_ip(trimmed(cells[c.0])) == Some(p.0)
            && read_port(cells[c.1]) == Some(p.1 as nat),
{
    if proxy_in_row(c, cells) is Some {
        let s = cells[c.1];
        let w = words(trimmed(s));
        assert(read_port(s)->0 <= 65535);
    }
}

/// A row's type cell decides its protocol where it names one, and else a yes
/// in the HTTPS column does; the anonymity column sets the level of HTTP and
/// HTTPS and of nothing else; without any of them the protocol is open.
pub proof fn rows_give_their_protocol(
    kind: Option<Seq<char>>,
    https: Option<Seq<char>>,
    level: Option<Seq<char>>,
)
    ensures
        protocol_in_row(None, None, level) is None,
        kind is Some && protocol_named(kind->0) == Some(Protocol::Socks4) ==> protocol_in_row(
            kind,
            https,
            level,
        ) == Some(Protocol::Socks4),
        kind is Some && protocol_named(kind->0) == Some(Protocol::Socks5) ==> protocol_in_row(
            kind,
            https,
            level,
        ) == Some(Protocol::Socks5),
        kind is Some && protocol_named(kind->0) == Some(Protocol::Http(Anonymity::Unknown))
            ==> protocol_in_row(kind, https, level) == Some(
            Protocol::Http(
                match level {
                    Some(cell) => anonymity_named(cell),
                    None => Anonymity::Unknown,
                },
            ),
        ),
        kind is Some && protocol_named(kind->0) == Some(Protocol::Https(Anonymity::Unknown))
            ==> protocol_in_row(kind, https, level) == Some(
            Protocol::Https(
                match level {
                    Some(cell) => anonymity_named(cell),
                    None => Anonymity::Unknown,
                },
            ),
        ),
        (kind is None || protocol_named(kind->0) is None) && https is Some && lowered(
            trimmed(https->0),
        ) == lowered("yes"@) ==> protocol_in_row(kind, https, level) == Some(
            Protocol::Https(
                match level {
                    Some(cell) => anonymity_named(cell),
                    None => Anonymity::Unknown,
                },
            ),
        ),
        (kind is None || protocol_named(kind->0) is None) && (https is None || lowered(
            trimmed(https->0),
        ) != lowered("yes"@)) ==> protocol_in_row(kind, https, level) is None,
{
}

/// Each protocol has its own words, in any case and between blanks.
pub proof fn words_name_protocols(raw: Seq<char>)
    ensures
        protocol_named(raw) == Some(Protocol::Http(Anonymity::Unknown)) <==> lowered(trimmed(raw))
            == "http"@,
        protocol_named(raw) == Some(Protocol::Https(Anonymity::Unknown)) <==> lowered(trimmed(raw))
            == "https"@ || lowered(trimmed(raw)) == "ssl"@,
        protocol_named(raw) == Some(Protocol::Socks4) <==> lowered(trimmed(raw)) == "socks4"@,
        protocol_named(raw) == Some(Protocol::Socks5) <==> lowered(trimmed(raw)) == "socks5"@,
        protocol_named(raw) matches Some(p) ==> p == Protocol::Http(Anonymity::Unknown) || p
            == Protocol::Https(Anonymity::Unknown) || p == Protocol::Socks4 || p
            == Protocol::Socks5,
{
    reveal_strlit("http");
    reveal_strlit("https");
    reveal_strlit("ssl");
    reveal_strlit("socks4");
    reveal_strlit("socks5");
    assert("http"@.len() == 4 && "https"@.len() == 5 && "ssl"@.len() == 3 && "socks4"@.len() == 6
        && "socks5"@.len() == 6);
    assert("socks4"@[5] != "socks5"@[5]);
}

/// The strongest level whose word a text holds is the one that it names.
pub proof fn words_name_levels(raw: Seq<char>)
    ensures
        anonymity_named(raw) == Anonymity::Elite <==> holds(lowered(trimmed(raw)), "elite"@)
            || holds(lowered(trimmed(raw)), "high"@),
        holds(lowered(trimmed(raw)), "anonymous"@) && anonymity_named(raw) != Anonymity::Elite
            ==> anonymity_named(raw) == Anonymity::Anonymous,
        anonymity_named(raw) == Anonymity::Anonymous ==> holds(
            lowered(trimmed(raw)),
            "anonymous"@,
        ),
        anonymity_named(raw) == Anonymity::Transparent ==> holds(
            lowered(trimmed(raw)),
            "transparent"@,
        ),
        anonymity_named(raw) == Anonymity::Unknown <==> !holds(lowered(trimmed(raw)), "elite"@)
            && !holds(lowered(trimmed(raw)), "high"@) && !holds(
            lowered(trimmed(raw)),
            "anonymous"@,
        ) && !holds(lowered(trimmed(raw)), "transparent"@),
{
}

proof fn lemma_loose(lower: Seq<Seq<char>>, names: Seq<Seq<char>>)
    ensures
        match loose_column(lower, names) {
            Some(i) => 0 <= i < lower.len() && holds_any(lower[i], names) && forall|j: int|
                0 <= j < i ==> !holds_any(#[trigger] lower[j], names),
            None => forall|j: int| 0 <= j < lower.len() ==> !holds_any(#[trigger] lower[j], names),
        },
    decreases lower.len(),
{
    if lower.len() > 0 && !holds_any(lower[0], names) {
        let rest = lower.drop_first();
        lemma_loose(rest, names);
        match loose_column(rest, names) {
            Some(i) => {
                assert(rest[i] == lower[i + 1]);
                assert forall|j: int| 0 <= j < i + 1 implies !holds_any(
                    #[trigger] lower[j],
                    names,
                ) by {
                    if j > 0 {
                        assert(rest[j - 1] == lower[j]);
                    }
                }
            },
            None => {
                assert forall|j: int| 0 <= j < lower.len() implies !holds_any(
                    #[trigger] lower[j],
                    names,
                ) by {
                    if j > 0 {
                        assert(rest[j - 1] == lower[j]);
                    }
                }
            },
        }
    }
}

proof fn lemma_index(v: Seq<Seq<char>>, t: Seq<char>)
    ensures
        0 <= index_of_text(v, t) <= v.len(),
        index_of_text(v, t) < v.len() ==> v[index_of_text(v, t)] == t,
        forall|j: int| 0 <= j < index_of_text(v, t) ==> #[trigger] v[j] != t,
    decreases v.len(),
{
    if v.len() > 0 && v[0] != t {
        let rest = v.drop_first();
        lemma_index(rest, t);
        assert forall|j: int| 0 <= j < index_of_text(v, t) implies #[trigger] v[j] != t by {
            if j > 0 {
                assert(rest[j - 1] == v[j]);
            }
        }
        if index_of_text(v, t) < v.len() {
            assert(rest[index_of_text(rest, t)] == v[index_of_text(v, t)]);
        }
    }
}

proof fn lemma_exact(lower: Seq<Seq<char>>, names: Seq<Seq<char>>)
    ensures
        match exact_column(lower, names) {
            Some(i) => 0 <= i < lower.len() && exists|n: int|
                0 <= n < names.len() && #[trigger] names[n] == lower[i] && (forall|j: int|
                    0 <= j < i ==> #[trigger] lower[j] != lower[i]) && (forall|m: int|
                    0 <= m < n ==> !lower.contains(#[trigger] names[m])),
            None => forall|m: int| 0 <= m < names.len() ==> !lower.contains(#[trigger] names[m]),
        },
    decreases names.len(),
{
    if names.len() > 0 {
        lemma_index(lower, names[0]);
        let k = index_of_text(lower, names[0]);
        if k < lower.len() {
            assert(names[0] == lower[k]);
        } else {
            assert(!lower.contains(names[0]));
            let rest = names.drop_first();
            lemma_exact(lower, rest);
            match exact_column(lower, rest) {
                Some(i) => {
                    let n = choose|n: int|
                        0 <= n < rest.len() && #[trigger] rest[n] == lower[i] && (forall|j: int|
                            0 <= j < i ==> #[trigger] lower[j] != lower[i]) && (forall|m: int|
                            0 <= m < n ==> !lower.contains(#[trigger] rest[m]));
                    assert(names[n + 1] == lower[i]);
                    assert forall|m: int| 0 <= m < n + 1 implies !lower.contains(
                        #[trigger] names[m],
                    ) by {
                        if m > 0 {
                            assert(rest[m - 1] == names[m]);
                        }
                    }
                },
                None => {
                    assert forall|m: int| 0 <= m < names.len() implies !lower.contains(
                        #[trigger] names[m],
                    ) by {
                        if m > 0 {
                            assert(rest[m - 1] == names[m]);
                        }
                    }
                },
            }
        }
    }
}

/// A header that is exactly one of the names decides, the earlier name before
/// the later and the first such header; else the first header that holds a
/// name does; else there is none.
pub proof fn headers_find_their_column(lower: Seq<Seq<char>>, names: Seq<Seq<char>>)
    ensures
        forall|n: int|
            0 <= n < names.len() && lower.contains(#[trigger] names[n]) && (forall|m: int|
                0 <= m < n ==> !lower.contains(#[trigger] names[m])) ==> {
                &&& column_for(lower, names) is Some
                &&& 0 <= column_for(lower, names)->0 < lower.len()
                &&& lower[column_for(lower, names)->0] == names[n]
                &&& forall|j: int|
                    0 <= j < column_for(lower, names)->0 ==> #[trigger] lower[j] != names[n]
            },
        (forall|m: int| 0 <= m < names.len() ==> !lower.contains(#[trigger] names[m])) ==> match column_for(
            lower,
            names,
        ) {
            Some(i) => 0 <= i < lower.len() && holds_any(lower[i], names) && forall|j: int|
                0 <= j < i ==> !holds_any(#[trigger] lower[j], names),
            None => forall|j: int| 0 <= j < lower.len() ==> !holds_any(#[trigger] lower[j], names),
        },
{
    lemma_exact(lower, names);
    lemma_loose(lower, names);
    assert forall|n: int|
        0 <= n < names.len() && lower.contains(#[trigger] names[n]) && (forall|m: int|
            0 <= m < n ==> !lower.contains(#[trigger] names[m])) implies {
        &&& column_for(lower, names) is Some
        &&& 0 <= column_for(lower, names)->0 < lower.len()
        &&& lower[column_for(lower, names)->0] == names[n]
        &&& forall|j: int| 0 <= j < column_for(lower, names)->0 ==> #[trigger] lower[j] != names[n]
    } by {
        let i = exact_column(lower, names)->0;
        let k = choose|k: int|
            0 <= k < names.len() && #[trigger] names[k] == lower[i] && (forall|j: int|
                0 <= j < i ==> #[trigger] lower[j] != lower[i]) && (forall|m: int|
                0 <= m < k ==> !lower.contains(#[trigger] names[m]));
        assert(lower.contains(names[k]));
        assert(k == n);
    }
}

/// The address, port, type, HTTPS and anonymity columns are found by those
/// names, wherever they stand; without a header the address comes first and
/// the port second.
pub proof fn columns_go_by_their_headers(header: Seq<Seq<char>>)
    ensures
        ({
            let lower = lower_headers(header);
            let c = columns_of(header);
            &&& lower.contains("ip address"@) ==> 0 <= c.0 < lower.len() && lower[c.0]
                == "ip address"@
            &&& !lower.contains("ip address"@) && lower.contains("ip"@) ==> 0 <= c.0 < lower.len()
                && lower[c.0] == "ip"@
            &&& lower.contains("port"@) ==> 0 <= c.1 < lower.len() && lower[c.1] == "port"@
            &&& lower.contains("version"@) ==> c.2 is Some && 0 <= c.2->0 < lower.len()
                && lower[c.2->0] == "version"@
            &&& !lower.contains("version"@) && lower.contains("type"@) ==> c.2 is Some && 0 <= c.2->0 < lower.len()
                && lower[c.2->0] == "type"@
            &&& !lower.contains("version"@) && !lower.contains("type"@) && lower.contains(
                "protocol"@,
            ) ==> c.2 is Some && 0 <= c.2->0 < lower.len()
                && lower[c.2->0] == "protocol"@
            &&& lower.contains("https"@) ==> c.3 is Some && 0 <= c.3->0 < lower.len()
                && lower[c.3->0] == "https"@
            &&& lower.contains("anonymity"@) ==> c.4 is Some && 0 <= c.4->0 < lower.len()
                && lower[c.4->0] == "anonymity"@
            &&& lower.len() == 0 ==> c == (0int, 1int, None::<int>, None::<int>, None::<int>)
            &&& (forall|j: int| 0 <= j < lower.len() ==> !holds(#[trigger] lower[j], "ip"@))
                ==> c.0 == 0
            &&& (forall|j: int| 0 <= j < lower.len() ==> !holds(#[trigger] lower[j], "port"@))
                ==> c.1 == 1
            &&& (forall|j: int|
                0 <= j < lower.len() ==> !holds(#[trigger] lower[j], "anonymity"@)) ==> c.4 is None
            &&& (forall|j: int| 0 <= j < lower.len() ==> !holds(#[trigger] lower[j], "https"@))
                ==> c.3 is None
        }),
{
    let lower = lower_headers(header);
    let ip = seq!["ip address"@, "ip"@];
    let port = seq!["port"@];
    let kind = seq!["version"@, "type"@, "protocol"@];
    let https = seq!["https"@];
    let level = seq!["anonymity"@];
    headers_find_their_column(lower, ip);
    headers_find_their_column(lower, port);
    headers_find_their_column(lower, kind);
    headers_find_their_column(lower, https);
    headers_find_their_column(lower, level);
    assert(ip[0] == "ip address"@ && ip[1] == "ip"@);
    assert(port[0] == "port"@ && https[0] == "https"@ && level[0] == "anonymity"@);
    assert(kind[0] == "version"@ && kind[1] == "type"@ && kind[2] == "protocol"@);
    if forall|j: int| 0 <= j < lower.len() ==> !holds(#[trigger] lower[j], "ip"@) {
        lemma_no_such_header(lower, "ip"@);
        assert forall|j: int| 0 <= j < lower.len() implies !holds(
            #[trigger] lower[j],
            "ip address"@,
        ) by {
            if holds(lower[j], "ip address"@) {
                let i = choose|i: int| occurs_at(lower[j], "ip address"@, i);
                reveal_strlit("ip address");
                reveal_strlit("ip");
                assert(lower[j].subrange(i, i + 10).take(2) =~= "ip"@);
                assert(lower[j].subrange(i, i + 2) =~= lower[j].subrange(i, i + 10).take(2));
                assert(occurs_at(lower[j], "ip"@, i));
            }
        }
        lemma_no_such_header(lower, "ip address"@);
        assert(forall|j: int| 0 <= j < lower.len() ==> !holds_any(#[trigger] lower[j], ip));
    }
    if forall|j: int| 0 <= j < lower.len() ==> !holds(#[trigger] lower[j], "port"@) {
        lemma_no_such_header(lower, "port"@);
        assert(forall|j: int| 0 <= j < lower.len() ==> !holds_any(#[trigger] lower[j], port));
    }
    if forall|j: int| 0 <= j < lower.len() ==> !holds(#[trigger] lower[j], "https"@) {
        lemma_no_such_header(lower, "https"@);
        assert(forall|j: int| 0 <= j < lower.len() ==> !holds_any(#[trigger] lower[j], https));
    }
    if forall|j: int| 0 <= j < lower.len() ==> !holds(#[trigger] lower[j], "anonymity"@) {
        lemma_no_such_header(lower, "anonymity"@);
        assert(forall|j: int| 0 <= j < lower.len() ==> !holds_any(#[trigger] lower[j], level));
    }
}

proof fn lemma_no_such_header(lower: Seq<Seq<char>>, name: Seq<char>)
    requires
        forall|j: int| 0 <= j < lower.len() ==> !holds(#[trigger] lower[j], name),
    ensures
        !lower.contains(name),
{
    if lower.contains(name) {
        let j = choose|j: int| 0 <= j < lower.len() && lower[j] == name;
        assert(name.subrange(0, name.len() as int) =~= name);
        assert(occurs_at(lower[j], name, 0));
    }
}

/// A port cell is a number up to 65535, or ends in one behind a blank.
pub proof fn ports_are_read_from_their_cell(port: u16, s: Seq<char>)
    ensures
        read_port(decimal(port as nat)) == Some(port as nat),
        read_port(s) matches Some(n) ==> n <= 65535,
{
    lemma_port_text(port);
}

proof fn lemma_port_text(port: u16)
    ensures
        read_number(decimal(port as nat), 65535) == Some(port as nat),
        trimmed(decimal(port as nat)) == decimal(port as nat),
{
    let d = decimal(port as nat);
    crate::text::decimal_reads_back(port as nat, 65535);
    assert(crate::text::is_digit(d[0]) && crate::text::is_digit(d.last()));
    assert(crate::text::trimmed_start(d) == d);
    assert(crate::text::trimmed_end(d) == d);
}

/// Every line with an endpoint is a row, once each and in order, and no other
/// line is.
pub proof fn every_line_is_read(a: Seq<Seq<char>>, line: Seq<char>, b: Seq<Seq<char>>)
    ensures
        line_rows(Seq::empty()) == Seq::<ParsedProxy>::empty(),
        pair_of(line) matches Some((ip, port)) ==> line_rows(a + seq![line] + b) == line_rows(a)
            + seq![(ip, port, None::<Protocol>)] + line_rows(b),
        pair_of(line) is None ==> line_rows(a + seq![line] + b) == line_rows(a) + line_rows(b),
        line_rows(a + b) == line_rows(a) + line_rows(b),
        rows_of_texts(a) == line_rows(a),
{
    let one = seq![line];
    assert(one.drop_last() =~= Seq::<Seq<char>>::empty());
    assert(line_rows(one.drop_last()) =~= Seq::<ParsedProxy>::empty());
    lemma_lines_concat(a, b);
    lemma_lines_concat(a, one);
    lemma_lines_concat(a + one, b);
    lemma_texts_are_lines(a);
    match pair_of(line) {
        Some((ip, port)) => {
            assert(line_rows(one) =~= seq![(ip, port, None::<Protocol>)]);
        },
        None => {
            assert(line_rows(a) + line_rows(one) =~= line_rows(a));
        },
    }
}

proof fn lemma_texts_are_lines(a: Seq<Seq<char>>)
    ensures
        rows_of_texts(a) == line_rows(a),
    decreases a.len(),
{
    if a.len() > 0 {
        lemma_texts_are_lines(a.drop_last());
    }
}

proof fn lemma_lines_concat(a: Seq<Seq<char>>, b: Seq<Seq<char>>)
    ensures
        line_rows(a + b) == line_rows(a) + line_rows(b),
    decreases b.len(),
{
    if b.len() == 0 {
        assert(a + b =~= a);
        assert(line_rows(a) + line_rows(b) =~= line_rows(a));
    } else {
        lemma_lines_concat(a, b.drop_last());
        assert((a + b).drop_last() =~= a + b.drop_last());
        assert((a + b).last() == b.last());
        assert(line_rows(a + b) =~= line_rows(a) + line_rows(b));
    }
}

/// A byte order mark at the beginning is passed over, and nothing else.
pub proof fn only_the_mark_is_passed_over(s: Seq<char>)
    ensures
        without_mark(seq!['\u{feff}'] + s) == s,
        s.len() == 0 || s[0] != '\u{feff}' ==> without_mark(s) == s,
{
    assert((seq!['\u{feff}'] + s).skip(1) =~= s);
}

/// Every match with an address and a port is a row, and every call with an
/// encoded endpoint is, once each and in order.
pub proof fn every_match_is_read(
    a: Seq<Seq<Option<Seq<char>>>>,
    m: Seq<Option<Seq<char>>>,
    b: Seq<Seq<Option<Seq<char>>>>,
)
    ensures
        match_rows(a + b) == match_rows(a) + match_rows(b),
        call_rows(a + b) == call_rows(a) + call_rows(b),
        pair_in_match(m) matches Some((ip, port)) ==> match_rows(seq![m]) == seq![
            (ip, port, None::<Protocol>),
        ],
        pair_in_match(m) is None ==> match_rows(seq![m]) == Seq::<ParsedProxy>::empty(),
        call_pair(m) matches Some((ip, port)) ==> call_rows(seq![m]) == seq![
            (ip, port, None::<Protocol>),
        ],
        call_pair(m) is None ==> call_rows(seq![m]) == Seq::<ParsedProxy>::empty(),
        m.len() == 3 && m[1] is Some && m[2] is Some && read_ip(m[1]->0) is Some && read_number(
            m[2]->0,
            65535,
        ) is Some ==> pair_in_match(m) == Some(
            (read_ip(m[1]->0)->0, read_number(m[2]->0, 65535)->0 as u16),
        ),
        m.len() == 3 && m[1] is Some && read_ip(m[1]->0) is None ==> pair_in_match(m) is None,
        m.len() == 3 && m[2] is Some && read_number(m[2]->0, 65535) is None ==> pair_in_match(m)
            is None,
        m.len() == 2 && m[1] is Some ==> call_pair(m) == match base64_bytes(m[1]->0) {
            Some(bytes) => if valid_utf8(bytes) {
                pair_of(decode_utf8(bytes))
            } else {
                None
            },
            None => None,
        },
    decreases b.len(),
{
    let one = seq![m];
    assert(one.drop_last() =~= Seq::empty());
    assert(match_rows(one.drop_last()) =~= Seq::<ParsedProxy>::empty());
    assert(call_rows(one.drop_last()) =~= Seq::<ParsedProxy>::empty());
    if let Some((ip, port)) = pair_in_match(m) {
        assert(match_rows(one) =~= seq![(ip, port, None::<Protocol>)]);
    }
    if let Some((ip, port)) = call_pair(m) {
        assert(call_rows(one) =~= seq![(ip, port, None::<Protocol>)]);
    }
    if b.len() == 0 {
        assert(a + b =~= a);
        assert(match_rows(a) + match_rows(b) =~= match_rows(a));
        assert(call_rows(a) + call_rows(b) =~= call_rows(a));
    } else {
        every_match_is_read(a, m, b.drop_last());
        assert((a + b).drop_last() =~= a + b.drop_last());
        assert((a + b).last() == b.last());
        assert(match_rows(a + b) =~= match_rows(a) + match_rows(b));
        assert(call_rows(a + b) =~= call_rows(a) + call_rows(b));
    }
}

/// The patterns that endpoints, scripted rows and calls are found by.
pub proof fn patterns_are_these()
    ensures
        pair_pattern() == r"\b((?:\d{1,3}\.){3}\d{1,3}):(\d{1,5})\b"@,
        gather_pattern()
            == "\"ip\"\\s*:\\s*\"((?:\\d{1,3}\\.){3}\\d{1,3})\"\\s*,\\s*\"port\"\\s*:\\s*\"(\\d{1,5})\""@,
        call_pattern() == r"Proxy\('([A-Za-z0-9+/=]+)'\)"@,
        offset_pattern() == r"code\s*-\s*(\d+)"@,
        atob_pattern() == "atob\\(\\s*[\"']([A-Za-z0-9+/=]+)[\"']\\s*\\)"@,
{
}

/// An entry gives its endpoint once for each of its protocols, in order, or
/// once without one where it lists none; without an endpoint it gives nothing.
pub proof fn entries_give_each_protocol(ip: Ipv4Addr, port: u16, protocols: Seq<Seq<char>>, i: int)
    requires
        0 <= i < protocols.len(),
    ensures
        ({
            let address = crate::net::ip_text(ip);
            let number = decimal(port as nat);
            &&& geonode_entry(address, number, protocols).len() == protocols.len()
            &&& geonode_entry(address, number, protocols)[i] == (
                ip,
                port,
                protocol_named(protocols[i]),
            )
            &&& geonode_entry(address, number, Seq::empty()) == seq![
                (ip, port, None::<Protocol>),
            ]
        }),
        forall|s: Seq<char>, t: Seq<char>|
            read_ip(s) is None || read_number(t, 65535) is None ==> (#[trigger] geonode_entry(
                s,
                t,
                protocols,
            )).len() == 0,
{
    crate::net::ip_text_reads_back(ip);
    lemma_port_text(port);
    assert(geonode_entry(crate::net::ip_text(ip), decimal(port as nat), Seq::empty()) =~= seq![
        (ip, port, None::<Protocol>),
    ]);
}

/// A cell that shows its address gives that address.
pub proof fn shown_addresses_are_read(ip: Ipv4Addr, raw: Seq<char>)
    requires
        trimmed(raw) == crate::net::ip_text(ip),
    ensures
        revealed_ip(raw) == Some(ip),
{
    crate::net::ip_text_reads_back(ip);
}

/// A hidden address is found: the codes of its characters, each with the offset
/// on top, are read back as the characters.
pub proof fn hidden_characters_are_shown(c: char, offset: int, rest: Seq<Seq<char>>, done: Seq<char>)
    requires
        0 <= offset <= 0x7fff_ffff,
    ensures
        shifted_char(decimal((c as u32 + offset) as nat), offset) == Some(c),
        text_width(done) <= 60 ==> shifted_text(
            seq![decimal((c as u32 + offset) as nat)] + rest,
            offset,
            done,
        ) == shifted_text(rest, offset, done.push(c)),
        text_width(done) > 60 ==> shifted_text(
            seq![decimal((c as u32 + offset) as nat)] + rest,
            offset,
            done,
        ) is None,
        shifted_text(Seq::empty(), offset, done) == Some(done),
{
    let n = (c as u32 + offset) as nat;
    let d = decimal(n);
    crate::text::decimal_reads_back(n, i64::MAX as nat);
    assert(crate::text::is_digit(d[0]) && crate::text::is_digit(d.last()));
    assert(crate::text::trimmed_start(d) == d);
    assert(crate::text::trimmed_end(d) == d);
    assert(read_signed(d) == Some(n as int));
    let all = seq![d] + rest;
    assert(all.drop_first() =~= rest);
}

/// Blanks between the parts of a JSON array mean nothing.
pub proof fn blanks_in_arrays_mean_nothing(bytes: Seq<u8>, at: int, first: bool)
    requires
        0 <= at < bytes.len(),
        bytes[at] == 32 || bytes[at] == 9 || bytes[at] == 10 || bytes[at] == 13,
    ensures
        place_in_array(bytes, at, first) == place_in_array(bytes, at + 1, first),
{
}

/// A bracket closes an array, the first element stands behind the opening one,
/// and every further one behind a comma.
pub proof fn arrays_are_framed(bytes: Seq<u8>, at: int)
    requires
        0 <= at < bytes.len(),
        !is_json_blank(bytes[at]),
    ensures
        bytes[at] == 93 ==> place_in_array(bytes, at, true) == JsonPlace::End && place_in_array(
            bytes,
            at,
            false,
        ) == JsonPlace::End,
        bytes[at] != 93 && at <= usize::MAX ==> place_in_array(bytes, at, true)
            == JsonPlace::Element(at as usize),
        bytes[at] != 93 && bytes[at] != 44 ==> place_in_array(bytes, at, false)
            == JsonPlace::Fault,
        bytes[at] == 44 && at + 1 < bytes.len() <= usize::MAX && !is_json_blank(bytes[at + 1])
            && bytes[at + 1] != 93 ==> place_in_array(bytes, at, false) == JsonPlace::Element(
            (at + 1) as usize,
        ),
        bytes[at] == 44 && at + 1 < bytes.len() && bytes[at + 1] == 93 ==> place_in_array(
            bytes,
            at,
            false,
        ) == JsonPlace::Fault,
{
}

/// The numbers from 0 to 65535 are ports, each its own, and no others are.
pub proof fn numbers_are_ports(port: u16, value: int)
    ensures
        port_of_number(port as int) == Some(port),
        value < 0 || value > 65535 ==> port_of_number(value) is None,
{
}

} // verus!
