//! Pure view logic: filtering, ordering, table geometry, and the pieces of the
//! frame that can be decided without a terminal.

use crate::double::{
    double_is_not_negative, double_of, eighths_of, lesser, rounded_of, times, whole_of,
    wholes_are_not_negative, wholes_are_whole, Double,
};
use crate::filters::{level, level_of, proxy_anonymity_rank, proxy_rank, SortKey, SortOrder};
use crate::geolookup::ip_type::IpType;
use crate::order::{distinct_below, in_order, lemma_same_items, sort_positions, Key};
use crate::proxy::models::{
    average, push_seconds, rank_of, seconds_text, Anonymity, Mean, Protocol, Proxy, ProxyType,
};
use crate::text::{
    chars_of, copy_str, decimal, join, joined, lemma_texts_push, lower, lower_char, push_decimal,
    texts, to_decimal,
};
use crate::tui::theme::{drawn, glyph, Glyph};
use vstd::prelude::*;

use vstd::utf8::*;

verus! {

/// Cells between two table columns.
pub const COLUMN_SPACING: u16 = 1;

/// Smallest terminal the layout stays truthful at, as `60×12`.
pub const MIN_WIDTH: u16 = 60;

pub const MIN_HEIGHT: u16 = 12;

/// Rows reserved for the compact header and footer.
pub const HEADER_ROWS: u16 = 1;

pub const FOOTER_ROWS: u16 = 1;

/// Two rows separate the status line from the main results surface.
pub const STATUS_ROWS: u16 = 2;

/// The table keeps enough room for its header and at least one result row.
pub const MIN_TABLE_ROWS: u16 = 2;

/// The borderless table spends one row on its column header.
pub const TABLE_CHROME_ROWS: u16 = 1;

/// Columns displayed, including the leading ordinal.
pub const COLUMN_COUNT: usize = 9;

/// Fields a row carries, one per non-ordinal column.
pub const CELL_COUNT: usize = 8;

/// Bounds on the ordinal column: wide enough for the `#` header and a row
/// number, narrow enough that it never crowds out real data.
pub const ORDINAL_MIN: u16 = 2;

pub const ORDINAL_MAX: u16 = 6;

/// Column holding the country code, which the sort key compares.
pub const COUNTRY_COLUMN: usize = 3;

/// Where a column's content comes from.
#[derive(Clone, Copy, Debug, PartialEq, Eq, Structural)]
pub enum Source {
    /// A field of `RowModel::cells`.
    Cell(usize),
    /// The row's position in the current view, numbered from one. It belongs to
    /// the view rather than to the row, so no row stores it.
    Ordinal,
}

/// The side that a column's content leans on.
#[derive(Clone, Copy, Debug, PartialEq, Eq, Structural)]
pub enum Alignment {
    Left,
    Right,
}

/// One column of the results table.
#[derive(Clone, Copy, Debug)]
pub struct Column {
    pub title: &'static str,
    pub source: Source,
    /// Floor the column may be squeezed to before the table clips content.
    pub min: u16,
    /// Width the column gets when the terminal is roomy.
    pub preferred: u16,
    /// Ceiling the column may grow into when there is spare width.
    pub max: u16,
    pub align: Alignment,
    /// Lower value hides first; `None` survives even the narrowest terminal.
    pub hide_rank: Option<u8>,
    /// Lower value grows first to soak up spare width and shrinks last.
    /// `None` never moves from `preferred`.
    pub grow_rank: Option<u8>,
    /// Sort key this column reports on, for the `▲/▼` header indicator.
    pub sort_key: Option<SortKey>,
}

/// The columns of the results table. The ordinal never hides and never grows:
/// it is the address that a numeric jump targets.
pub open spec fn column_at(i: int) -> Column {
    if i == 0 {
        Column { title: "#", source: Source::Ordinal, min: 2, preferred: 2, max: 6, align: Alignment::Right, hide_rank: None, grow_rank: None, sort_key: None }
    } else if i == 1 {
        Column { title: "IP:PORT", source: Source::Cell(0), min: 15, preferred: 21, max: 45, align: Alignment::Left, hide_rank: None, grow_rank: Some(1), sort_key: None }
    } else if i == 2 {
        Column { title: "PROTO", source: Source::Cell(1), min: 5, preferred: 14, max: 22, align: Alignment::Left, hide_rank: None, grow_rank: Some(2), sort_key: None }
    } else if i == 3 {
        Column { title: "ANON", source: Source::Cell(2), min: 4, preferred: 6, max: 8, align: Alignment::Left, hide_rank: None, grow_rank: Some(3), sort_key: Some(SortKey::Anonymity) }
    } else if i == 4 {
        Column { title: "CC", source: Source::Cell(3), min: 2, preferred: 4, max: 4, align: Alignment::Left, hide_rank: None, grow_rank: None, sort_key: Some(SortKey::Country) }
    } else if i == 5 {
        Column { title: "TYPE", source: Source::Cell(4), min: 4, preferred: 12, max: 14, align: Alignment::Left, hide_rank: Some(3), grow_rank: Some(4), sort_key: None }
    } else if i == 6 {
        Column { title: "ASN", source: Source::Cell(5), min: 3, preferred: 8, max: 10, align: Alignment::Left, hide_rank: Some(1), grow_rank: Some(5), sort_key: None }
    } else if i == 7 {
        Column { title: "RTT", source: Source::Cell(6), min: 5, preferred: 8, max: 9, align: Alignment::Right, hide_rank: None, grow_rank: None, sort_key: Some(SortKey::AvgResponseTime) }
    } else {
        Column { title: "N", source: Source::Cell(7), min: 1, preferred: 4, max: 6, align: Alignment::Right, hide_rank: Some(2), grow_rank: None, sort_key: None }
    }
}

/// A column of the results table.
pub fn column(i: usize) -> (c: Column)
    requires
        i < COLUMN_COUNT,
    ensures
        c == column_at(i as int),
{
    if i == 0 {
        Column { title: "#", source: Source::Ordinal, min: 2, preferred: 2, max: 6, align: Alignment::Right, hide_rank: None, grow_rank: None, sort_key: None }
    } else if i == 1 {
        Column { title: "IP:PORT", source: Source::Cell(0), min: 15, preferred: 21, max: 45, align: Alignment::Left, hide_rank: None, grow_rank: Some(1), sort_key: None }
    } else if i == 2 {
        Column { title: "PROTO", source: Source::Cell(1), min: 5, preferred: 14, max: 22, align: Alignment::Left, hide_rank: None, grow_rank: Some(2), sort_key: None }
    } else if i == 3 {
        Column { title: "ANON", source: Source::Cell(2), min: 4, preferred: 6, max: 8, align: Alignment::Left, hide_rank: None, grow_rank: Some(3), sort_key: Some(SortKey::Anonymity) }
    } else if i == 4 {
        Column { title: "CC", source: Source::Cell(3), min: 2, preferred: 4, max: 4, align: Alignment::Left, hide_rank: None, grow_rank: None, sort_key: Some(SortKey::Country) }
    } else if i == 5 {
        Column { title: "TYPE", source: Source::Cell(4), min: 4, preferred: 12, max: 14, align: Alignment::Left, hide_rank: Some(3), grow_rank: Some(4), sort_key: None }
    } else if i == 6 {
        Column { title: "ASN", source: Source::Cell(5), min: 3, preferred: 8, max: 10, align: Alignment::Left, hide_rank: Some(1), grow_rank: Some(5), sort_key: None }
    } else if i == 7 {
        Column { title: "RTT", source: Source::Cell(6), min: 5, preferred: 8, max: 9, align: Alignment::Right, hide_rank: None, grow_rank: None, sort_key: Some(SortKey::AvgResponseTime) }
    } else {
        Column { title: "N", source: Source::Cell(7), min: 1, preferred: 4, max: 6, align: Alignment::Right, hide_rank: Some(2), grow_rank: None, sort_key: None }
    }
}

// ---------------------------------------------------------------------------
// Rows
// ---------------------------------------------------------------------------

/// A proxy reduced to the strings the table and the filter need.
#[derive(Clone, Debug)]
pub struct RowModel {
    pub cells: Vec<String>,
    /// Average response time in microseconds, kept beside its display string,
    /// so ordering never parses back what the table just formatted.
    pub rtt: Mean,
    pub anonymity_rank: u8,
    /// Organization name. The filter matches it, but no column shows it, so a
    /// hit here highlights nothing rather than pointing at the wrong column.
    pub organization: String,
}

/// The level that a validated type shows, where it is not worse than another.
pub open spec fn best_level(types: Seq<ProxyType>) -> Option<Anonymity>
    decreases types.len(),
{
    if types.len() == 0 {
        None
    } else {
        match (best_level(types.drop_last()), level_of(types.last().protocol)) {
            (best, None) => best,
            (None, Some(a)) => Some(a),
            (Some(best), Some(a)) => if rank_of(a) >= rank_of(best) {
                Some(a)
            } else {
                Some(best)
            },
        }
    }
}

/// How the best level of a proxy is shown.
pub open spec fn anonymity_text(p: Proxy) -> Seq<char> {
    match best_level(p.proxy_types@) {
        Some(Anonymity::Elite) => "elite"@,
        Some(Anonymity::Anonymous) => "anon"@,
        Some(Anonymity::Transparent) => "transp"@,
        _ => "-"@,
    }
}

/// A protocol in short.
pub open spec fn short_text(p: Protocol) -> Seq<char> {
    match p {
        Protocol::Http(_) => "HTTP"@,
        Protocol::Https(_) => "HTTPS"@,
        Protocol::Socks4 => "SOCKS4"@,
        Protocol::Socks5 => "SOCKS5"@,
        Protocol::Connect(port) => "CONNECT:"@ + decimal(port as nat),
    }
}

/// The protocols of a proxy in short: the validated ones, or the advertised
/// ones where nothing was validated.
pub open spec fn short_texts(p: Proxy) -> Seq<Seq<char>> {
    if p.proxy_types@.len() == 0 {
        Seq::new(p.expected_types@.len(), |i: int| short_text(p.expected_types@[i]))
    } else {
        Seq::new(p.proxy_types@.len(), |i: int| short_text(p.proxy_types@[i].protocol))
    }
}

/// How an address class is shown.
pub open spec fn ip_type_text(t: IpType) -> Seq<char> {
    match t {
        IpType::Residential => "residential"@,
        IpType::Datacenter => "datacenter"@,
        IpType::Mobile => "mobile"@,
        IpType::Unknown => "-"@,
    }
}

/// A text that may be missing, or a stand-in.
pub open spec fn shown_text(t: Option<String>, other: Seq<char>) -> Seq<char> {
    match t {
        Some(s) => s@,
        None => other,
    }
}

/// The cells of a proxy's row.
pub open spec fn row_cells(p: Proxy) -> Seq<Seq<char>> {
    seq![
        p.as_text_spec(),
        joined(short_texts(p), "+"@),
        anonymity_text(p),
        shown_text(p.geo.iso_code, "-"@),
        ip_type_text(p.geo.ip_type),
        match p.geo.asn {
            Some(asn) => decimal(asn as nat),
            None => "-"@,
        },
        seconds_text(average(p.runtimes)) + "s"@,
        decimal(p.runtimes.count as nat),
    ]
}

fn anonymity_label(proxy: &Proxy) -> (s: String)
    ensures
        s@ == anonymity_text(*proxy),
{
    let types = &proxy.proxy_types;
    let mut best: Option<Anonymity> = None;
    let mut i: usize = 0;
    assert(types@.take(0) =~= Seq::<ProxyType>::empty());
    while i < types.len()
        invariant
            i <= types.len(),
            best == best_level(types@.take(i as int)),
        decreases types.len() - i,
    {
        assert(types@.take(i + 1).drop_last() =~= types@.take(i as int));
        if let Some(a) = level(types[i].protocol) {
            best = match best {
                None => Some(a),
                Some(b) => if a.rank() >= b.rank() {
                    Some(a)
                } else {
                    Some(b)
                },
            };
        }
        i += 1;
    }
    assert(types@.take(types.len() as int) =~= types@);
    match best {
        Some(Anonymity::Elite) => "elite".to_owned(),
        Some(Anonymity::Anonymous) => "anon".to_owned(),
        Some(Anonymity::Transparent) => "transp".to_owned(),
        _ => "-".to_owned(),
    }
}

fn short_protocol(protocol: Protocol) -> (s: String)
    ensures
        s@ == short_text(protocol),
{
    match protocol {
        Protocol::Http(_) => "HTTP".to_owned(),
        Protocol::Https(_) => "HTTPS".to_owned(),
        Protocol::Socks4 => "SOCKS4".to_owned(),
        Protocol::Socks5 => "SOCKS5".to_owned(),
        Protocol::Connect(port) => {
            let mut s = "CONNECT:".to_owned();
            push_decimal(&mut s, port as u64);
            s
        },
    }
}

fn protocol_label(proxy: &Proxy) -> (s: String)
    ensures
        s@ == joined(short_texts(*proxy), "+"@),
{
    let ghost all = short_texts(*proxy);
    let validated = proxy.proxy_types.len() > 0;
    let n: usize = if validated {
        proxy.proxy_types.len()
    } else {
        proxy.expected_types.len()
    };
    let mut names: Vec<String> = Vec::new();
    let mut i: usize = 0;
    while i < n
        invariant
            i <= n,
            all == short_texts(*proxy),
            validated == (proxy.proxy_types@.len() > 0),
            n == all.len(),
            texts(names@) == all.take(i as int),
        decreases n - i,
    {
        let name = short_protocol(
            if validated {
                proxy.proxy_types[i].protocol
            } else {
                proxy.expected_types[i]
            },
        );
        assert(name@ == all[i as int]);
        proof {
            lemma_texts_push(names@, name);
        }
        names.push(name);
        i += 1;
        assert(texts(names@) =~= all.take(i as int));
    }
    assert(all.take(n as int) =~= all);
    join(&names, "+")
}

fn ip_type_label(ip_type: IpType) -> (s: &'static str)
    ensures
        s@ == ip_type_text(ip_type),
{
    match ip_type {
        IpType::Residential => "residential",
        IpType::Datacenter => "datacenter",
        IpType::Mobile => "mobile",
        IpType::Unknown => "-",
    }
}

fn text_or(t: &Option<String>, other: &str) -> (s: String)
    ensures
        s@ == shown_text(*t, other@),
{
    match t {
        Some(s) => copy_str(s.as_str()),
        None => copy_str(other),
    }
}

impl RowModel {
    /// A row with a text in each of its cells.
    pub open spec fn wf(self) -> bool {
        self.cells@.len() == CELL_COUNT
    }

    /// The row of a proxy.
    pub fn new(proxy: &Proxy) -> (row: Self)
        requires
            proxy.wf(),
        ensures
            row.wf(),
            texts(row.cells@) == row_cells(*proxy),
            row.rtt == average(proxy.runtimes),
            row.anonymity_rank == proxy_rank(*proxy),
            row.organization@ == shown_text(proxy.geo.aso, Seq::empty()),
    {
        let asn = match proxy.geo.asn {
            Some(asn) => to_decimal(asn as u64),
            None => "-".to_owned(),
        };
        let rtt = proxy.avg_response_time();
        let mut time = String::new();
        push_seconds(&mut time, rtt);
        time.append("s");
        proof {
            reveal_strlit("");
        }
        let cells = vec![
            copy_str(proxy.as_text()),
            protocol_label(proxy),
            anonymity_label(proxy),
            text_or(&proxy.geo.iso_code, "-"),
            ip_type_label(proxy.geo.ip_type).to_owned(),
            asn,
            time,
            to_decimal(proxy.sample_count() as u64),
        ];
        assert(texts(cells@) =~= row_cells(*proxy));
        let organization = text_or(&proxy.geo.aso, "");
        assert(""@ =~= Seq::<char>::empty());
        RowModel { cells, rtt, anonymity_rank: proxy_anonymity_rank(proxy), organization }
    }
}

// ---------------------------------------------------------------------------
// View state
// ---------------------------------------------------------------------------

/// Live view state shared by the running and done screens.
#[derive(Clone, Debug)]
pub struct ViewState {
    pub filter: String,
    pub sort: Option<SortKey>,
    pub order: SortOrder,
    pub selected: usize,
    pub detail: bool,
}

impl Default for ViewState {
    fn default() -> (v: Self)
        ensures
            v.filter@.len() == 0,
            v.sort is None,
            v.order == SortOrder::Asc,
            v.selected == 0,
            !v.detail,
    {
        ViewState {
            filter: String::new(),
            sort: None,
            order: SortOrder::Asc,
            selected: 0,
            detail: false,
        }
    }
}

/// The sort key behind a sort key.
pub open spec fn next_sort(s: Option<SortKey>) -> Option<SortKey> {
    match s {
        None => Some(SortKey::AvgResponseTime),
        Some(SortKey::AvgResponseTime) => Some(SortKey::Country),
        Some(SortKey::Country) => Some(SortKey::Anonymity),
        Some(SortKey::Anonymity) => None,
    }
}

/// The other direction.
pub open spec fn other_order(o: SortOrder) -> SortOrder {
    match o {
        SortOrder::Asc => SortOrder::Desc,
        SortOrder::Desc => SortOrder::Asc,
    }
}

/// How an ordering is called.
pub open spec fn sort_name(s: Option<SortKey>) -> Seq<char> {
    match s {
        None => "arrival"@,
        Some(SortKey::AvgResponseTime) => "response-time"@,
        Some(SortKey::Country) => "country"@,
        Some(SortKey::Anonymity) => "anonymity"@,
    }
}

impl ViewState {
    /// Cycles `None -> AvgResponseTime -> Country -> Anonymity -> None`.
    pub fn cycle_sort(&mut self)
        ensures
            *final(self) == (ViewState { sort: next_sort(old(self).sort), selected: 0, ..*old(self) }),
    {
        self.sort = match self.sort {
            None => Some(SortKey::AvgResponseTime),
            Some(SortKey::AvgResponseTime) => Some(SortKey::Country),
            Some(SortKey::Country) => Some(SortKey::Anonymity),
            Some(SortKey::Anonymity) => None,
        };
        self.reset_position();
    }

    /// Turns the direction round.
    pub fn toggle_order(&mut self)
        ensures
            *final(self) == (ViewState {
                order: other_order(old(self).order),
                selected: 0,
                ..*old(self)
            }),
    {
        self.order = match self.order {
            SortOrder::Asc => SortOrder::Desc,
            SortOrder::Desc => SortOrder::Asc,
        };
        self.reset_position();
    }

    /// Goes back to the first row.
    pub fn reset_position(&mut self)
        ensures
            *final(self) == (ViewState { selected: 0, ..*old(self) }),
    {
        self.selected = 0;
    }

    /// Human label for the active ordering.
    pub fn sort_label(&self) -> (s: &'static str)
        ensures
            s@ == sort_name(self.sort),
    {
        match self.sort {
            None => "arrival",
            Some(SortKey::AvgResponseTime) => "response-time",
            Some(SortKey::Country) => "country",
            Some(SortKey::Anonymity) => "anonymity",
        }
    }

    /// `▲`/`▼`, or their ASCII twins.
    pub fn order_glyph(&self, ascii: bool) -> (s: &'static str)
        ensures
            s@ == drawn(
                match self.order {
                    SortOrder::Asc => Glyph::ArrowUp,
                    SortOrder::Desc => Glyph::ArrowDown,
                },
                ascii,
            ),
    {
        match self.order {
            SortOrder::Asc => glyph(Glyph::ArrowUp, ascii),
            SortOrder::Desc => glyph(Glyph::ArrowDown, ascii),
        }
    }
}

/// Four steps through the sort keys lead back to where they began, and two
/// turns of the direction do.
pub proof fn cycles_come_back(s: Option<SortKey>, o: SortOrder)
    ensures
        next_sort(next_sort(next_sort(next_sort(s)))) == s,
        other_order(other_order(o)) == o,
{
}

/// Keeps the selection inside `len` rows.
pub fn clamp_selection(view: &mut ViewState, len: usize)
    ensures
        *final(view) == (ViewState {
            selected: if len == 0 {
                0
            } else if old(view).selected >= len {
                (len - 1) as usize
            } else {
                old(view).selected
            },
            ..*old(view)
        }),
{
    if len == 0 {
        view.selected = 0;
    } else if view.selected >= len {
        view.selected = len - 1;
    }
}

/// Visible row window `[start, end)` that keeps `selected` on screen.
pub open spec fn window_of(selected: int, height: int, len: int) -> (int, int) {
    if len == 0 || height == 0 {
        (0, 0)
    } else {
        let chosen = if selected < len {
            selected
        } else {
            len - 1
        };
        let start = if chosen >= height {
            chosen + 1 - height
        } else {
            0
        };
        (
            start,
            if start + height < len {
                start + height
            } else {
                len
            },
        )
    }
}

/// Visible row window `[start, end)` that keeps `selected` on screen.
pub fn window(selected: usize, height: usize, len: usize) -> (r: (usize, usize))
    ensures
        r.0 == window_of(selected as int, height as int, len as int).0,
        r.1 == window_of(selected as int, height as int, len as int).1,
{
    if len == 0 || height == 0 {
        return (0, 0);
    }
    let chosen: usize = if selected < len {
        selected
    } else {
        len - 1
    };
    let start: usize = if chosen >= height {
        chosen - (height - 1)
    } else {
        0
    };
    let end: usize = if height < len - start {
        start + height
    } else {
        len
    };
    (start, end)
}

/// The window holds the selection, is no taller than the screen, and lies
/// within the rows.
pub proof fn window_shows_the_selection(selected: int, height: int, len: int)
    requires
        0 <= selected < len,
        height > 0,
    ensures
        ({
            let (start, end) = window_of(selected, height, len);
            0 <= start <= selected < end <= len && end - start <= height
        }),
{
}

// ---------------------------------------------------------------------------
// Filtering
// ---------------------------------------------------------------------------

/// How a filter string is matched against a cell.
#[derive(Clone, Copy, Debug, PartialEq, Eq, Structural)]
pub enum Case {
    /// The filter contains an uppercase letter, so it must match exactly.
    Sensitive,
    /// An all-lowercase filter matches regardless of case.
    Insensitive,
}

/// Whether a character is an upper-case letter.
pub uninterp spec fn is_upper(c: char) -> bool;

/// `char::is_uppercase`: whether the character has the Unicode property
/// Uppercase. Among ASCII characters these are the letters `A` to `Z`.
#[verifier::external_body]
fn char_is_upper(c: char) -> (r: bool)
    ensures
        r == is_upper(c),
        (c as u32) < 128 ==> r == ('A' <= c <= 'Z'),
{
    c.is_uppercase()
}

/// The lower-case form of a character.
pub uninterp spec fn lowercase(c: char) -> Seq<char>;

/// `char::to_lowercase`: the lower-case mapping of the character, which may be
/// several characters. An ASCII character has one: the letters `A` to `Z` have
/// theirs, the others themselves.
#[verifier::external_body]
fn char_lowercase(c: char) -> (r: Vec<char>)
    ensures
        r@ == lowercase(c),
        (c as u32) < 128 ==> r@ == seq![lower(c)],
{
    c.to_lowercase().collect()
}

/// Smart case: one uppercase character makes the whole filter exact.
pub open spec fn filter_case(filter: Seq<char>) -> Case {
    if exists|i: int| 0 <= i < filter.len() && is_upper(#[trigger] filter[i]) {
        Case::Sensitive
    } else {
        Case::Insensitive
    }
}

/// Smart case: one uppercase character makes the whole filter exact.
pub fn case_of(filter: &str) -> (r: Case)
    ensures
        r == filter_case(filter@),
{
    let cs = chars_of(filter);
    let mut i: usize = 0;
    while i < cs.len()
        invariant
            i <= cs.len(),
            cs@ == filter@,
            forall|j: int| 0 <= j < i ==> !is_upper(#[trigger] filter@[j]),
        decreases cs.len() - i,
    {
        if char_is_upper(cs[i]) {
            assert(is_upper(filter@[i as int]));
            return Case::Sensitive;
        }
        i += 1;
    }
    Case::Insensitive
}

/// Whether two characters match.
pub open spec fn chars_match(left: char, right: char, case: Case) -> bool {
    left == right || (case == Case::Insensitive && if (left as u32) < 128 && (right as u32) < 128 {
        lower(left) == lower(right)
    } else {
        lowercase(left) == lowercase(right)
    })
}

/// Whether two characters match.
pub fn chars_eq(left: char, right: char, case: Case) -> (r: bool)
    ensures
        r == chars_match(left, right, case),
{
    if left == right {
        return true;
    }
    if case == Case::Sensitive {
        return false;
    }
    if (left as u32) < 128 && (right as u32) < 128 {
        return lower_char(left) == lower_char(right);
    }
    let a = char_lowercase(left);
    let b = char_lowercase(right);
    crate::text::chars_eq(a.as_slice(), b.as_slice())
}

/// Whether a needle matches at a place of a text.
pub open spec fn matches_from(text: Seq<char>, needle: Seq<char>, case: Case, start: int) -> bool {
    0 <= start && start + needle.len() <= text.len() && forall|k: int|
        0 <= k < needle.len() ==> chars_match(#[trigger] text[start + k], needle[k], case)
}

/// Whether a needle that is not empty matches somewhere in a text.
pub open spec fn matches_in(text: Seq<char>, needle: Seq<char>, case: Case) -> bool {
    needle.len() > 0 && exists|start: int| matches_from(text, needle, case, start)
}

/// Whether a byte range is that of the first match of a needle in a text.
pub open spec fn first_match(
    text: Seq<char>,
    needle: Seq<char>,
    case: Case,
    range: (usize, usize),
) -> bool {
    needle.len() > 0 && exists|start: int|
        #![trigger matches_from(text, needle, case, start)]
        matches_from(text, needle, case, start) && (forall|s: int|
            0 <= s < start ==> !matches_from(text, needle, case, s)) && range.0 == encode_utf8(
            text.take(start),
        ).len() && range.1 == encode_utf8(text.take(start + needle.len())).len()
}

pub(crate) proof fn lemma_encode_push(s: Seq<char>, c: char)
    ensures
        encode_utf8(s.push(c)).len() == encode_utf8(s).len() + encode_scalar(c as u32).len(),
    decreases s.len(),
{
    let t = s.push(c);
    if s.len() == 0 {
        assert(t.drop_first() =~= Seq::<char>::empty());
        assert(t[0] == c);
        reveal_with_fuel(encode_utf8, 2);
    } else {
        assert(t.drop_first() =~= s.drop_first().push(c));
        assert(t[0] == s[0]);
        lemma_encode_push(s.drop_first(), c);
    }
}

proof fn lemma_encode_prefix(s: Seq<char>, i: int)
    requires
        0 <= i <= s.len(),
    ensures
        encode_utf8(s.take(i)).len() <= encode_utf8(s).len(),
        encode_utf8(s.take(i)).len() <= 4 * i,
    decreases s.len() - i,
{
    if i < s.len() {
        assert(s.take(i + 1) =~= s.take(i).push(s[i]));
        lemma_encode_push(s.take(i), s[i]);
        lemma_encode_prefix(s, i + 1);
    } else {
        assert(s.take(i) =~= s);
    }
    lemma_encode_bound(s.take(i));
}

proof fn lemma_encode_bound(s: Seq<char>)
    ensures
        encode_utf8(s).len() <= 4 * s.len(),
    decreases s.len(),
{
    if s.len() > 0 {
        lemma_encode_bound(s.drop_first());
    }
}

/// Bytes of a character in UTF-8.
fn utf8_width(c: char) -> (n: usize)
    ensures
        n == encode_scalar(c as u32).len(),
{
    let u: u32 = c as u32;
    if u <= 0x7f {
        1
    } else if u <= 0x7ff {
        2
    } else if u <= 0xffff {
        3
    } else {
        4
    }
}

/// Bytes of the first characters of a text.
pub(crate) fn byte_offset(text: &str, cs: &Vec<char>, n: usize) -> (r: usize)
    requires
        cs@ == text@,
        n <= cs@.len(),
    ensures
        r == encode_utf8(text@.take(n as int)).len(),
{
    let total: usize = text.as_bytes().len();
    assert(total == encode_utf8(text@).len());
    let mut r: usize = 0;
    let mut i: usize = 0;
    assert(text@.take(0) =~= Seq::<char>::empty());
    while i < n
        invariant
            i <= n <= cs.len(),
            cs@ == text@,
            total == encode_utf8(text@).len(),
            r == encode_utf8(text@.take(i as int)).len(),
        decreases n - i,
    {
        proof {
            assert(text@.take(i + 1) =~= text@.take(i as int).push(text@[i as int]));
            lemma_encode_push(text@.take(i as int), text@[i as int]);
            lemma_encode_prefix(text@, i + 1);
        }
        r = r + utf8_width(cs[i]);
        i += 1;
    }
    r
}

fn needle_at(text: &Vec<char>, needle: &Vec<char>, case: Case, start: usize) -> (r: bool)
    requires
        start + needle@.len() <= text@.len(),
    ensures
        r == matches_from(text@, needle@, case, start as int),
{
    let mut k: usize = 0;
    let n: usize = text.len();
    while k < needle.len()
        invariant
            k <= needle.len(),
            n == text@.len(),
            start + needle@.len() <= n,
            forall|j: int| 0 <= j < k ==> chars_match(#[trigger] text@[start + j], needle@[j], case),
        decreases needle.len() - k,
    {
        if !chars_eq(text[start + k], needle[k], case) {
            assert(!chars_match(text@[start + k], needle@[k as int], case));
            return false;
        }
        k += 1;
    }
    true
}

/// Byte range of the first match of `needle` inside `text`.
pub fn find_match(text: &str, needle: &str, case: Case) -> (r: Option<(usize, usize)>)
    ensures
        match r {
            Some(range) => first_match(text@, needle@, case, range),
            None => !matches_in(text@, needle@, case),
        },
{
    let wanted = chars_of(needle);
    if wanted.len() == 0 {
        return None;
    }
    let cs = chars_of(text);
    if cs.len() < wanted.len() {
        return None;
    }
    let last: usize = cs.len() - wanted.len();
    let mut start: usize = 0;
    loop
        invariant
            cs@ == text@,
            wanted@ == needle@,
            0 < wanted.len() <= cs.len(),
            last == cs.len() - wanted.len(),
            start <= last,
            forall|s: int| 0 <= s < start ==> !matches_from(text@, needle@, case, s),
        decreases last - start,
    {
        if needle_at(&cs, &wanted, case, start) {
            let begin: usize = byte_offset(text, &cs, start);
            let end: usize = byte_offset(text, &cs, start + wanted.len());
            assert(matches_from(text@, needle@, case, start as int));
            return Some((begin, end));
        }
        if start == last {
            return None;
        }
        start += 1;
    }
}

/// A first match is a match.
proof fn lemma_first_match(text: Seq<char>, needle: Seq<char>, case: Case, range: (usize, usize))
    requires
        first_match(text, needle, case, range),
    ensures
        matches_in(text, needle, case),
{
}

/// Where a filter matched a row.
#[derive(Clone, Copy, Debug, PartialEq, Eq)]
pub struct Hit {
    /// Index of the cell that matched.
    pub column: usize,
    /// Byte range inside that cell.
    pub range: (usize, usize),
}

/// First cell of `row` that satisfies `filter`, so the match can be highlighted.
pub fn find_hit(row: &RowModel, filter: &str) -> (r: Option<Hit>)
    ensures
        match r {
            Some(hit) => hit.column < row.cells@.len() && first_match(
                row.cells@[hit.column as int]@,
                filter@,
                filter_case(filter@),
                hit.range,
            ) && forall|c: int|
                0 <= c < hit.column ==> !matches_in(
                    (#[trigger] row.cells@[c])@,
                    filter@,
                    filter_case(filter@),
                ),
            None => forall|c: int|
                0 <= c < row.cells@.len() ==> !matches_in(
                    (#[trigger] row.cells@[c])@,
                    filter@,
                    filter_case(filter@),
                ),
        },
{
    let case = case_of(filter);
    let mut column: usize = 0;
    while column < row.cells.len()
        invariant
            column <= row.cells.len(),
            case == filter_case(filter@),
            forall|c: int| 0 <= c < column ==> !matches_in((#[trigger] row.cells@[c])@, filter@, case),
        decreases row.cells.len() - column,
    {
        if let Some(range) = find_match(row.cells[column].as_str(), filter, case) {
            return Some(Hit { column, range });
        }
        column += 1;
    }
    None
}

/// Whether a row passes the filter, in a cell or in its organization name.
pub open spec fn passes(row: RowModel, filter: Seq<char>) -> bool {
    ||| exists|c: int|
        0 <= c < row.cells@.len() && matches_in(
            (#[trigger] row.cells@[c])@,
            filter,
            filter_case(filter),
        )
    ||| matches_in(row.organization@, filter, filter_case(filter))
}

/// Whether a row passes the filter at all, including its organization name.
pub fn matches_filter(row: &RowModel, filter: &str) -> (r: bool)
    ensures
        r == passes(*row, filter@),
{
    if let Some(hit) = find_hit(row, filter) {
        proof {
            lemma_first_match(
                row.cells@[hit.column as int]@,
                filter@,
                filter_case(filter@),
                hit.range,
            );
        }
        return true;
    }
    let case = case_of(filter);
    match find_match(row.organization.as_str(), filter, case) {
        Some(range) => {
            proof {
                lemma_first_match(row.organization@, filter@, case, range);
            }
            true
        },
        None => false,
    }
}

/// Whether a row is shown under a filter; an empty one shows all.
pub open spec fn shown(row: RowModel, filter: Seq<char>) -> bool {
    filter.len() == 0 || passes(row, filter)
}

/// Whether a key is the one that a row is ordered by.
pub open spec fn is_row_key(k: Key, row: RowModel, by: SortKey) -> bool {
    match by {
        SortKey::AvgResponseTime => k matches Key::Ratio(n, d) && n == row.rtt.total && d == row.rtt.count,
        SortKey::Country => k matches Key::Text(Some(t)) && t@ == row.cells@[COUNTRY_COLUMN as int]@,
        SortKey::Anonymity => k matches Key::Number(n) && n == row.anonymity_rank,
    }
}

/// Whether keys are those that rows are ordered by.
pub open spec fn are_row_keys(keys: Seq<Key>, rows: Seq<RowModel>, by: SortKey) -> bool {
    &&& keys.len() == rows.len()
    &&& forall|i: int| 0 <= i < keys.len() ==> is_row_key(#[trigger] keys[i], rows[i], by)
}

/// Whether a list holds exactly the positions of the rows that are shown, each
/// once.
pub open spec fn lists_shown(v: Seq<usize>, rows: Seq<RowModel>, filter: Seq<char>) -> bool {
    &&& distinct_below(v, rows.len() as int)
    &&& forall|i: int|
        0 <= i < rows.len() ==> (v.contains(i as usize) <==> shown(#[trigger] rows[i], filter))
}

/// Whether a list is in the order that a view asks for: that of the keys, or
/// that of arrival.
pub open spec fn view_order(v: Seq<usize>, rows: Seq<RowModel>, view: ViewState) -> bool {
    match view.sort {
        None => forall|a: int, b: int| 0 <= a < b < v.len() ==> v[a] < v[b],
        Some(by) => exists|keys: Seq<Key>| #[trigger]
            are_row_keys(keys, rows, by) && in_order(v, keys, view.order == SortOrder::Desc),
    }
}

/// Indices of the rows that pass the filter, in view order. Rows that compare
/// equal keep their arrival order.
pub fn visible(rows: &Vec<RowModel>, view: &ViewState) -> (r: Vec<usize>)
    requires
        forall|i: int| 0 <= i < rows@.len() ==> (#[trigger] rows@[i]).wf(),
    ensures
        lists_shown(r@, rows@, view.filter@),
        view_order(r@, rows@, *view),
{
    let unfiltered = chars_of(view.filter.as_str()).len() == 0;
    let mut indices: Vec<usize> = Vec::new();
    let mut i: usize = 0;
    while i < rows.len()
        invariant
            i <= rows.len(),
            unfiltered == (view.filter@.len() == 0),
            forall|a: int, b: int| 0 <= a < b < indices@.len() ==> indices@[a] < indices@[b],
            forall|a: int| 0 <= a < indices@.len() ==> (#[trigger] indices@[a]) < i,
            forall|k: int|
                0 <= k < i ==> (indices@.contains(k as usize) <==> shown(
                    #[trigger] rows@[k],
                    view.filter@,
                )),
        decreases rows.len() - i,
    {
        let ghost before = indices@;
        if unfiltered || matches_filter(&rows[i], view.filter.as_str()) {
            indices.push(i);
            assert(indices@[before.len() as int] == i);
        }
        proof {
            assert forall|k: int| 0 <= k < i + 1 implies (indices@.contains(k as usize) <==> shown(
                #[trigger] rows@[k],
                view.filter@,
            )) by {
                if k < i {
                    if before.contains(k as usize) {
                        let a = choose|a: int| 0 <= a < before.len() && before[a] == k as usize;
                        assert(indices@[a] == k as usize);
                    }
                    if indices@.contains(k as usize) {
                        let a = choose|a: int|
                            0 <= a < indices@.len() && indices@[a] == k as usize;
                        assert(before[a] == k as usize);
                    }
                } else if indices@.contains(k as usize) && before =~= indices@ {
                    let a = choose|a: int| 0 <= a < indices@.len() && indices@[a] == k as usize;
                    assert(before[a] < i);
                }
            }
        }
        i += 1;
    }
    assert(distinct_below(indices@, rows@.len() as int));
    match view.sort {
        None => indices,
        Some(by) => {
            let keys = row_keys(rows, by);
            let descending = match view.order {
                SortOrder::Asc => false,
                SortOrder::Desc => true,
            };
            let r = sort_positions(&keys, descending, &indices);
            proof {
                lemma_same_items(indices@, r@, rows@.len() as int);
                assert forall|k: int| 0 <= k < rows@.len() implies (r@.contains(k as usize)
                    <==> shown(#[trigger] rows@[k], view.filter@)) by {
                    broadcast use vstd::seq_lib::group_to_multiset_ensures;

                    assert(r@.contains(k as usize) <==> r@.to_multiset().contains(k as usize));
                    assert(indices@.contains(k as usize) <==> indices@.to_multiset().contains(
                        k as usize,
                    ));
                }
                assert(are_row_keys(keys@, rows@, by));
            }
            r
        },
    }
}

fn row_keys(rows: &Vec<RowModel>, by: SortKey) -> (keys: Vec<Key>)
    requires
        forall|i: int| 0 <= i < rows@.len() ==> (#[trigger] rows@[i]).wf(),
    ensures
        are_row_keys(keys@, rows@, by),
{
    let mut keys: Vec<Key> = Vec::new();
    let mut i: usize = 0;
    while i < rows.len()
        invariant
            i <= rows.len(),
            keys@.len() == i,
            forall|j: int| 0 <= j < rows@.len() ==> (#[trigger] rows@[j]).wf(),
            forall|j: int| 0 <= j < i ==> is_row_key(#[trigger] keys@[j], rows@[j], by),
        decreases rows.len() - i,
    {
        assert(rows@[i as int].wf());
        let key = match by {
            SortKey::AvgResponseTime => Key::Ratio(rows[i].rtt.total, rows[i].rtt.count),
            SortKey::Country => Key::Text(Some(copy_str(rows[i].cells[COUNTRY_COLUMN].as_str()))),
            SortKey::Anonymity => Key::Number(rows[i].anonymity_rank as u64),
        };
        keys.push(key);
        i += 1;
    }
    keys
}

// ---------------------------------------------------------------------------
// Table geometry
// ---------------------------------------------------------------------------

/// Cells the ordinal column needs to number `rows` rows.
pub open spec fn ordinal_cells(rows: int) -> u16 {
    let digits = decimal(
        if rows < 1 {
            1
        } else {
            rows as nat
        },
    ).len();
    if digits < ORDINAL_MIN {
        ORDINAL_MIN
    } else if digits > ORDINAL_MAX {
        ORDINAL_MAX
    } else {
        digits as u16
    }
}

proof fn lemma_decimal_len(n: nat)
    ensures
        n < 10 ==> decimal(n).len() == 1,
        10 <= n < 100 ==> decimal(n).len() == 2,
        100 <= n < 1000 ==> decimal(n).len() == 3,
        1000 <= n < 10000 ==> decimal(n).len() == 4,
        10000 <= n < 100000 ==> decimal(n).len() == 5,
        n >= 100000 ==> decimal(n).len() >= 6,
    decreases n,
{
    if n >= 10 {
        lemma_decimal_len(n / 10);
    }
}

/// Cells the ordinal column needs to number `rows` rows.
pub fn ordinal_width(rows: usize) -> (r: u16)
    ensures
        r == ordinal_cells(rows as int),
{
    proof {
        lemma_decimal_len(
            if rows < 1 {
                1
            } else {
                rows as nat
            },
        );
    }
    if rows < 100 {
        2
    } else if rows < 1000 {
        3
    } else if rows < 10000 {
        4
    } else if rows < 100000 {
        5
    } else {
        6
    }
}

/// The width of a column before it is fitted.
pub open spec fn preferred_width(i: int, rows: int) -> int {
    if i == 0 {
        ordinal_cells(rows) as int
    } else {
        column_at(i).preferred as int
    }
}

/// The widths of all columns before they are fitted.
pub open spec fn preferred_widths(rows: int) -> Seq<int> {
    Seq::new(COLUMN_COUNT as nat, |i: int| preferred_width(i, rows))
}

/// The columns that give width away, in the order in which they do.
pub open spec fn shrink_order() -> Seq<int> {
    seq![6, 5, 3, 2, 1]
}

/// The columns that take spare width, in the order in which they do.
pub open spec fn grow_order() -> Seq<int> {
    seq![1, 2, 3, 5, 6]
}

/// Cells that columns take, with the gaps between them.
pub open spec fn table_width(shown: Seq<int>, widths: Seq<int>) -> int
    decreases shown.len(),
{
    if shown.len() == 0 {
        0
    } else {
        table_width(shown.drop_last(), widths) + widths[shown.last()] + (if shown.len() > 1 {
            COLUMN_SPACING as int
        } else {
            0
        })
    }
}

/// The columns without the first `h` that hide.
pub open spec fn shown_columns(h: int) -> Seq<int> {
    if h <= 0 {
        seq![0, 1, 2, 3, 4, 5, 6, 7, 8]
    } else if h == 1 {
        seq![0, 1, 2, 3, 4, 5, 7, 8]
    } else if h == 2 {
        seq![0, 1, 2, 3, 4, 5, 7]
    } else {
        seq![0, 1, 2, 3, 4, 7]
    }
}

/// How many columns hide: as few as it takes to fit, of the three that can.
pub open spec fn hidden_count(available: int, rows: int) -> int {
    let widths = preferred_widths(rows);
    if table_width(shown_columns(0), widths) <= available {
        0
    } else if table_width(shown_columns(1), widths) <= available {
        1
    } else if table_width(shown_columns(2), widths) <= available {
        2
    } else {
        3
    }
}

/// Widths once columns gave away what is missing, one after the other, down to
/// their floors.
pub open spec fn squeezed(widths: Seq<int>, shown: Seq<int>, order: Seq<int>, missing: int) -> Seq<
    int,
>
    decreases order.len(),
{
    if order.len() == 0 || missing <= 0 {
        widths
    } else {
        let c = order[0];
        let room = if shown.contains(c) {
            widths[c] - column_at(c).min
        } else {
            0
        };
        let cut = if missing < room {
            missing
        } else {
            room
        };
        squeezed(widths.update(c, widths[c] - cut), shown, order.drop_first(), missing - cut)
    }
}

/// Widths once columns took what is to spare, one after the other, up to their
/// ceilings.
pub open spec fn grown(widths: Seq<int>, shown: Seq<int>, order: Seq<int>, spare: int) -> Seq<int>
    decreases order.len(),
{
    if order.len() == 0 || spare <= 0 {
        widths
    } else {
        let c = order[0];
        let room = if shown.contains(c) {
            column_at(c).max - widths[c]
        } else {
            0
        };
        let gain = if spare < room {
            spare
        } else {
            room
        };
        grown(widths.update(c, widths[c] + gain), shown, order.drop_first(), spare - gain)
    }
}

/// The widths of all columns once they are fitted.
pub open spec fn fitted_widths(available: int, rows: int) -> Seq<int> {
    let shown = shown_columns(hidden_count(available, rows));
    let widths = preferred_widths(rows);
    let total = table_width(shown, widths);
    if total > available {
        squeezed(widths, shown, shrink_order(), total - available)
    } else {
        grown(widths, shown, grow_order(), available - total)
    }
}

/// The columns that are shown, with the width that each gets.
pub open spec fn fitted(available: int, rows: int) -> Seq<(int, int)> {
    let shown = shown_columns(hidden_count(available, rows));
    let widths = fitted_widths(available, rows);
    Seq::new(shown.len(), |i: int| (shown[i], widths[shown[i]]))
}

fn total_width(h: usize, rows: usize) -> (r: u16)
    requires
        h <= 3,
    ensures
        r == table_width(shown_columns(h as int), preferred_widths(rows as int)),
        r <= 200,
{
    let ordinal: u16 = ordinal_width(rows);
    proof {
        lemma_total(h as int, rows as int);
    }
    if h == 0 {
        ordinal + 85
    } else if h == 1 {
        ordinal + 76
    } else if h == 2 {
        ordinal + 71
    } else {
        ordinal + 58
    }
}

proof fn lemma_total(h: int, rows: int)
    requires
        0 <= h <= 3,
    ensures
        table_width(shown_columns(h), preferred_widths(rows)) == ordinal_cells(rows) + (if h == 0 {
            85int
        } else if h == 1 {
            76
        } else if h == 2 {
            71
        } else {
            58
        }),
{
    reveal_with_fuel(table_width, 10);
    let w = preferred_widths(rows);
    let s = shown_columns(h);
    assert(s.drop_last() =~= s.take(s.len() - 1));
    lemma_table_steps(s, w);
}

/// The width of a table, column by column.
proof fn lemma_table_steps(s: Seq<int>, w: Seq<int>)
    requires
        6 <= s.len() <= 9,
    ensures
        s.len() == 9 ==> table_width(s, w) == w[s[0]] + w[s[1]] + w[s[2]] + w[s[3]] + w[s[4]]
            + w[s[5]] + w[s[6]] + w[s[7]] + w[s[8]] + 8,
        s.len() == 8 ==> table_width(s, w) == w[s[0]] + w[s[1]] + w[s[2]] + w[s[3]] + w[s[4]]
            + w[s[5]] + w[s[6]] + w[s[7]] + 7,
        s.len() == 7 ==> table_width(s, w) == w[s[0]] + w[s[1]] + w[s[2]] + w[s[3]] + w[s[4]]
            + w[s[5]] + w[s[6]] + 6,
        s.len() == 6 ==> table_width(s, w) == w[s[0]] + w[s[1]] + w[s[2]] + w[s[3]] + w[s[4]]
            + w[s[5]] + 5,
{
    reveal_with_fuel(table_width, 11);
}

/// Widths as machine numbers.
pub open spec fn as_ints(v: Seq<u16>) -> Seq<int> {
    Seq::new(v.len(), |i: int| v[i] as int)
}

/// Whether widths are those of all columns, none below its floor but for the
/// ordinal, and none too large.
pub open spec fn sane_widths(w: Seq<int>) -> bool {
    &&& w.len() == COLUMN_COUNT
    &&& forall|i: int| 0 < i < COLUMN_COUNT ==> column_at(i).min <= (#[trigger] w[i]) <= column_at(i).max
}

fn is_shown(shown: &Vec<usize>, c: usize) -> (r: bool)
    ensures
        r == shown@.map_values(|x: usize| x as int).contains(c as int),
{
    let ghost all = shown@.map_values(|x: usize| x as int);
    let mut i: usize = 0;
    while i < shown.len()
        invariant
            i <= shown.len(),
            all == shown@.map_values(|x: usize| x as int),
            forall|j: int| 0 <= j < i ==> all[j] != c,
        decreases shown.len() - i,
    {
        if shown[i] == c {
            assert(all[i as int] == c);
            return true;
        }
        i += 1;
    }
    false
}

fn list_columns(h: usize) -> (shown: Vec<usize>)
    requires
        h <= 3,
    ensures
        shown@.map_values(|x: usize| x as int) == shown_columns(h as int),
{
    let shown: Vec<usize> = if h == 0 {
        vec![0, 1, 2, 3, 4, 5, 6, 7, 8]
    } else if h == 1 {
        vec![0, 1, 2, 3, 4, 5, 7, 8]
    } else if h == 2 {
        vec![0, 1, 2, 3, 4, 5, 7]
    } else {
        vec![0, 1, 2, 3, 4, 7]
    };
    assert(shown@.map_values(|x: usize| x as int) =~= shown_columns(h as int));
    shown
}

fn squeeze(widths: &mut Vec<u16>, shown: &Vec<usize>, missing: u16)
    requires
        sane_widths(as_ints(old(widths)@)),
    ensures
        as_ints(final(widths)@) == squeezed(
            as_ints(old(widths)@),
            shown@.map_values(|x: usize| x as int),
            shrink_order(),
            missing as int,
        ),
{
    let order: Vec<usize> = vec![6, 5, 3, 2, 1];
    let ghost all = shown@.map_values(|x: usize| x as int);
    let ghost goal = squeezed(as_ints(widths@), all, shrink_order(), missing as int);
    let mut left: u16 = missing;
    let mut k: usize = 0;
    assert(shrink_order().skip(0) =~= shrink_order());
    while k < order.len()
        invariant
            k <= order.len(),
            order@.len() == 5,
            forall|j: int| 0 <= j < 5 ==> (#[trigger] order@[j]) == shrink_order()[j],
            all == shown@.map_values(|x: usize| x as int),
            sane_widths(as_ints(widths@)),
            goal == squeezed(as_ints(widths@), all, shrink_order().skip(k as int), left as int),
        decreases order.len() - k,
    {
        let c: usize = order[k];
        let ghost rest = shrink_order().skip(k as int);
        let ghost before = as_ints(widths@);
        assert(rest[0] == c);
        assert(rest.drop_first() =~= shrink_order().skip(k + 1));
        assert(before[c as int] == widths@[c as int]);
        if left > 0 {
            let room: u16 = if is_shown(shown, c) {
                widths[c] - column(c).min
            } else {
                0
            };
            let cut: u16 = if left < room {
                left
            } else {
                room
            };
            let w: u16 = widths[c];
            widths.set(c, w - cut);
            assert(as_ints(widths@) =~= before.update(c as int, before[c as int] - cut));
            left = left - cut;
        }
        k += 1;
    }
}

fn grow(widths: &mut Vec<u16>, shown: &Vec<usize>, spare: u16)
    requires
        sane_widths(as_ints(old(widths)@)),
    ensures
        as_ints(final(widths)@) == grown(
            as_ints(old(widths)@),
            shown@.map_values(|x: usize| x as int),
            grow_order(),
            spare as int,
        ),
{
    let order: Vec<usize> = vec![1, 2, 3, 5, 6];
    let ghost all = shown@.map_values(|x: usize| x as int);
    let ghost goal = grown(as_ints(widths@), all, grow_order(), spare as int);
    let mut left: u16 = spare;
    let mut k: usize = 0;
    assert(grow_order().skip(0) =~= grow_order());
    while k < order.len()
        invariant
            k <= order.len(),
            order@.len() == 5,
            forall|j: int| 0 <= j < 5 ==> (#[trigger] order@[j]) == grow_order()[j],
            all == shown@.map_values(|x: usize| x as int),
            sane_widths(as_ints(widths@)),
            goal == grown(as_ints(widths@), all, grow_order().skip(k as int), left as int),
        decreases order.len() - k,
    {
        let c: usize = order[k];
        let ghost rest = grow_order().skip(k as int);
        let ghost before = as_ints(widths@);
        assert(rest[0] == c);
        assert(rest.drop_first() =~= grow_order().skip(k + 1));
        assert(before[c as int] == widths@[c as int]);
        if left > 0 {
            let room: u16 = if is_shown(shown, c) {
                column(c).max - widths[c]
            } else {
                0
            };
            let gain: u16 = if left < room {
                left
            } else {
                room
            };
            let w: u16 = widths[c];
            widths.set(c, w + gain);
            assert(as_ints(widths@) =~= before.update(c as int, before[c as int] + gain));
            left = left - gain;
        }
        k += 1;
    }
}

/// Columns shown, with the exact width each gets, for `available` cells and
/// `rows` browsable rows.
///
/// The widths sum to `available` whenever the columns allow it, so the table
/// neither clips its last column nor leaves dead cells at the right edge.
pub fn fit_columns(available: u16, rows: usize) -> (r: Vec<(usize, u16)>)
    ensures
        r@.len() == fitted(available as int, rows as int).len(),
        forall|i: int|
            0 <= i < r@.len() ==> (#[trigger] r@[i]).0 == fitted(available as int, rows as int)[i].0
                && r@[i].1 == fitted(available as int, rows as int)[i].1,
{
    let mut h: usize = 0;
    while h < 3 && total_width(h, rows) > available
        invariant
            h <= 3,
            forall|j: int|
                0 <= j < h ==> table_width(
                    #[trigger] shown_columns(j),
                    preferred_widths(rows as int),
                ) > available,
        decreases 3 - h,
    {
        h += 1;
    }
    assert(h == hidden_count(available as int, rows as int)) by {
        assert(h > 0 ==> table_width(shown_columns(0), preferred_widths(rows as int)) > available);
        assert(h > 1 ==> table_width(shown_columns(1), preferred_widths(rows as int)) > available);
        assert(h > 2 ==> table_width(shown_columns(2), preferred_widths(rows as int)) > available);
    }
    let shown = list_columns(h);
    let mut widths: Vec<u16> = Vec::new();
    let mut i: usize = 0;
    while i < COLUMN_COUNT
        invariant
            i <= COLUMN_COUNT,
            widths@.len() == i,
            forall|j: int|
                0 <= j < i ==> (#[trigger] widths@[j]) == preferred_width(j, rows as int),
        decreases COLUMN_COUNT - i,
    {
        let w: u16 = if i == 0 {
            ordinal_width(rows)
        } else {
            column(i).preferred
        };
        widths.push(w);
        i += 1;
    }
    assert(as_ints(widths@) =~= preferred_widths(rows as int));
    let total: u16 = total_width(h, rows);
    if total > available {
        squeeze(&mut widths, &shown, total - available);
    } else {
        grow(&mut widths, &shown, available - total);
    }
    assert(as_ints(widths@) == fitted_widths(available as int, rows as int));
    proof {
        lemma_fit_len(available as int, rows as int);
    }
    let mut r: Vec<(usize, u16)> = Vec::new();
    let mut k: usize = 0;
    let ghost all = fitted(available as int, rows as int);
    let ghost list = shown@.map_values(|x: usize| x as int);
    while k < shown.len()
        invariant
            k <= shown.len(),
            r@.len() == k,
            widths@.len() == COLUMN_COUNT,
            list == shown@.map_values(|x: usize| x as int),
            list == shown_columns(hidden_count(available as int, rows as int)),
            as_ints(widths@) == fitted_widths(available as int, rows as int),
            all == fitted(available as int, rows as int),
            forall|j: int|
                0 <= j < k ==> (#[trigger] r@[j]).0 == all[j].0 && r@[j].1 == all[j].1,
        decreases shown.len() - k,
    {
        let c: usize = shown[k];
        assert(list[k as int] == c);
        assert(c < COLUMN_COUNT);
        assert(as_ints(widths@)[c as int] == widths@[c as int]);
        r.push((c, widths[c]));
        k += 1;
    }
    r
}

proof fn lemma_squeezed_len(widths: Seq<int>, shown: Seq<int>, order: Seq<int>, missing: int)
    requires
        forall|k: int| 0 <= k < order.len() ==> 0 <= (#[trigger] order[k]) < widths.len(),
    ensures
        squeezed(widths, shown, order, missing).len() == widths.len(),
    decreases order.len(),
{
    if order.len() > 0 && missing > 0 {
        let c = order[0];
        let room = if shown.contains(c) {
            widths[c] - column_at(c).min
        } else {
            0
        };
        let cut = if missing < room {
            missing
        } else {
            room
        };
        lemma_squeezed_len(
            widths.update(c, widths[c] - cut),
            shown,
            order.drop_first(),
            missing - cut,
        );
    }
}

proof fn lemma_grown_len(widths: Seq<int>, shown: Seq<int>, order: Seq<int>, spare: int)
    requires
        forall|k: int| 0 <= k < order.len() ==> 0 <= (#[trigger] order[k]) < widths.len(),
    ensures
        grown(widths, shown, order, spare).len() == widths.len(),
    decreases order.len(),
{
    if order.len() > 0 && spare > 0 {
        let c = order[0];
        let room = if shown.contains(c) {
            column_at(c).max - widths[c]
        } else {
            0
        };
        let gain = if spare < room {
            spare
        } else {
            room
        };
        lemma_grown_len(
            widths.update(c, widths[c] + gain),
            shown,
            order.drop_first(),
            spare - gain,
        );
    }
}

proof fn lemma_fit_len(available: int, rows: int)
    ensures
        fitted_widths(available, rows).len() == COLUMN_COUNT,
{
    let shown = shown_columns(hidden_count(available, rows));
    let widths = preferred_widths(rows);
    let total = table_width(shown, widths);
    lemma_squeezed_len(widths, shown, shrink_order(), total - available);
    lemma_grown_len(widths, shown, grow_order(), available - total);
}

// ---------------------------------------------------------------------------
// The frame
// ---------------------------------------------------------------------------

/// A rectangle of terminal cells.
#[derive(Clone, Copy, Debug, PartialEq, Eq, Structural)]
pub struct Rect {
    pub x: u16,
    pub y: u16,
    pub width: u16,
    pub height: u16,
}

impl Rect {
    /// A rectangle at a place.
    pub fn new(x: u16, y: u16, width: u16, height: u16) -> (r: Self)
        ensures
            r == (Rect { x, y, width, height }),
    {
        Rect { x, y, width, height }
    }

    /// The rectangle ends within the terminal's coordinates.
    pub open spec fn wf(self) -> bool {
        self.x + self.width <= 0xffff && self.y + self.height <= 0xffff
    }

    /// The row behind the last one.
    pub fn bottom(&self) -> (r: u16)
        requires
            self.wf(),
        ensures
            r == self.y + self.height,
    {
        self.y + self.height
    }
}

/// The rows of an area from one to another.
pub open spec fn rows_of(area: Rect, from: int, rows: int) -> Rect {
    Rect { x: area.x, y: (area.y + from) as u16, width: area.width, height: rows as u16 }
}

/// Where each region of the screen goes for one terminal size.
#[derive(Clone, Copy, Debug, PartialEq, Eq, Structural)]
pub struct ScreenLayout {
    pub header: Rect,
    pub status: Rect,
    pub table: Rect,
    pub footer: Rect,
}

/// The screen split from top to bottom, with the table in what is left.
pub open spec fn screen_of(area: Rect) -> Option<ScreenLayout> {
    if area.width < MIN_WIDTH || area.height < MIN_HEIGHT {
        None
    } else {
        let top = HEADER_ROWS + STATUS_ROWS;
        Some(
            ScreenLayout {
                header: rows_of(area, 0, HEADER_ROWS as int),
                status: rows_of(area, HEADER_ROWS as int, STATUS_ROWS as int),
                table: rows_of(area, top, area.height - top - FOOTER_ROWS),
                footer: rows_of(area, area.height - FOOTER_ROWS, FOOTER_ROWS as int),
            },
        )
    }
}

/// `ratatui::layout::Layout::vertical` with two fixed lengths, a minimum and a
/// fixed length, `areas` of a rectangle that is tall enough for them all: each
/// fixed part gets its length, the part with the minimum gets what is left,
/// and they stand one below the other over the whole width.
#[verifier::external_body]
fn split_rows(area: Rect, first: u16, second: u16, least: u16, last: u16) -> (r: (
    Rect,
    Rect,
    Rect,
    Rect,
))
    requires
        area.wf(),
        least <= 1000,
        first + second + least + last <= area.height,
    ensures
        r.0 == rows_of(area, 0, first as int),
        r.1 == rows_of(area, first as int, second as int),
        r.2 == rows_of(area, first + second, area.height - first - second - last),
        r.3 == rows_of(area, area.height - last, last as int),
{
    let whole = ratatui::layout::Rect::new(area.x, area.y, area.width, area.height);
    let parts: [ratatui::layout::Rect; 4] = ratatui::layout::Layout::vertical([
        ratatui::layout::Constraint::Length(first),
        ratatui::layout::Constraint::Length(second),
        ratatui::layout::Constraint::Min(least),
        ratatui::layout::Constraint::Length(last),
    ]).areas(whole);
    let [a, b, c, d] = parts.map(|p| Rect { x: p.x, y: p.y, width: p.width, height: p.height });
    (a, b, c, d)
}

/// Splits the screen into compact header, status, full-width table, and footer.
///
/// `None` means the terminal is below the supported minimum; the caller owes
/// the user the plain "too small" message instead of a mangled frame.
pub fn compute_layout(area: Rect) -> (r: Option<ScreenLayout>)
    requires
        area.wf(),
    ensures
        r == screen_of(area),
{
    if area.width < MIN_WIDTH || area.height < MIN_HEIGHT {
        return None;
    }
    let (header, status, table, footer) = split_rows(
        area,
        HEADER_ROWS,
        STATUS_ROWS,
        MIN_TABLE_ROWS,
        FOOTER_ROWS,
    );
    Some(ScreenLayout { header, status, table, footer })
}

/// The regions of the screen cover it from top to bottom, without a gap and
/// without overlap.
pub proof fn regions_cover_the_screen(area: Rect)
    requires
        area.wf(),
        area.width >= MIN_WIDTH,
        area.height >= MIN_HEIGHT,
    ensures
        ({
            let l = screen_of(area)->0;
            &&& l.header.y == area.y
            &&& l.status.y == l.header.y + l.header.height
            &&& l.table.y == l.status.y + l.status.height
            &&& l.footer.y == l.table.y + l.table.height
            &&& l.footer.y + l.footer.height == area.y + area.height
            &&& l.table.height >= MIN_TABLE_ROWS
        }),
{
}

/// Rows a table with a header can show.
pub fn table_rows(area_height: u16) -> (r: usize)
    ensures
        r == (if area_height < TABLE_CHROME_ROWS {
            0
        } else {
            area_height - TABLE_CHROME_ROWS
        }),
{
    if area_height < TABLE_CHROME_ROWS {
        0
    } else {
        (area_height - TABLE_CHROME_ROWS) as usize
    }
}

/// A partly filled cell of a bar, from an eighth to the whole.
pub open spec fn bar_level(level: int) -> char {
    if level == 0 {
        '\u{258f}'
    } else if level == 1 {
        '\u{258e}'
    } else if level == 2 {
        '\u{258d}'
    } else if level == 3 {
        '\u{258c}'
    } else if level == 4 {
        '\u{258b}'
    } else if level == 5 {
        '\u{258a}'
    } else if level == 6 {
        '\u{2589}'
    } else {
        '\u{2588}'
    }
}

/// A character so many times.
pub open spec fn repeated(c: char, n: int) -> Seq<char> {
    Seq::new(n as nat, |i: int| c)
}

/// How many cells of a bar `done / whole` fills.
pub open spec fn bar_position(done: int, whole: int, width: int) -> (int, int) {
    times(double_of(done, whole), width)
}

/// A bar of `width` cells that is filled to `done / whole` of them: in ASCII to
/// the nearest cell, else to the eighth of a cell below.
pub open spec fn bar_text(done: int, whole: int, width: int, ascii: bool) -> Seq<char> {
    let position = bar_position(done, whole, width);
    let full = lesser(whole_of(position), width);
    let level = eighths_of(position);
    if ascii {
        let filled = lesser(rounded_of(position), width);
        repeated('#', filled) + repeated('-', width - filled)
    } else if full < width && level > 0 {
        repeated('\u{2588}', full) + seq![bar_level(level)] + repeated(' ', width - full - 1)
    } else {
        repeated('\u{2588}', full) + repeated(' ', width - full)
    }
}

fn push_repeated(s: &mut String, c: char, n: u64)
    ensures
        final(s)@ == old(s)@ + repeated(c, n as int),
{
    let ghost before = s@;
    let mut i: u64 = 0;
    assert(s@ =~= before + repeated(c, 0));
    while i < n
        invariant
            i <= n,
            s@ == before + repeated(c, i as int),
        decreases n - i,
    {
        s.push(c);
        i += 1;
        assert(s@ =~= before + repeated(c, i as int));
    }
}

fn level_char(level: u64) -> (c: char)
    ensures
        c == bar_level(level as int),
{
    if level == 0 {
        '\u{258f}'
    } else if level == 1 {
        '\u{258e}'
    } else if level == 2 {
        '\u{258d}'
    } else if level == 3 {
        '\u{258c}'
    } else if level == 4 {
        '\u{258b}'
    } else if level == 5 {
        '\u{258a}'
    } else if level == 6 {
        '\u{2589}'
    } else {
        '\u{2588}'
    }
}

/// Renders a determinate bar of `width` cells for `done` out of `whole`; more
/// than the whole is the whole.
pub fn progress_bar(done: u32, whole: u32, width: u16, ascii: bool) -> (s: String)
    requires
        whole > 0,
    ensures
        s@ == bar_text(
            if done > whole {
                whole as int
            } else {
                done as int
            },
            whole as int,
            width as int,
            ascii,
        ),
{
    let part: u32 = if done > whole {
        whole
    } else {
        done
    };
    let position = Double::nearest_to(part as u128, whole as u128).times(width as u32);
    let mut s = String::new();
    if ascii {
        let filled: u16 = position.rounded(width);
        push_repeated(&mut s, '#', filled as u64);
        push_repeated(&mut s, '-', (width - filled) as u64);
    } else {
        let full: u16 = position.whole(width);
        let level: u64 = position.eighths();
        push_repeated(&mut s, '\u{2588}', full as u64);
        if full < width && level > 0 {
            s.push(level_char(level));
            push_repeated(&mut s, ' ', (width - full - 1) as u64);
        } else {
            push_repeated(&mut s, ' ', (width - full) as u64);
        }
    }
    assert(s@ =~= bar_text(part as int, whole as int, width as int, ascii));
    s
}

/// A bar is as many characters long as it has cells.
pub proof fn bar_fills_its_cells(done: int, whole: int, width: int, ascii: bool)
    requires
        0 <= done <= whole,
        whole > 0,
        0 <= width,
    ensures
        bar_text(done, whole, width, ascii).len() == width,
{
    let fraction = double_of(done, whole);
    wholes_are_not_negative(bar_position(done, whole, width));
    double_is_not_negative(done, whole);
    assert(fraction.0 * width >= 0) by (nonlinear_arith)
        requires
            fraction.0 >= 0,
            width >= 0,
    ;
    double_is_not_negative(fraction.0 * width, 1);
}

/// Milliseconds that a spinner frame stands.
pub const SPINNER_INTERVAL_MS: u64 = 80;

/// Indeterminate work only earns a spinner once it has clearly not finished,
/// so fast phases do not flash. In milliseconds.
pub const SPINNER_DELAY: u64 = 180;

/// The frames of the spinner.
pub open spec fn spinner_text(step: int, ascii: bool) -> Seq<char> {
    let frame = step % 10;
    if ascii {
        if step % 2 == 0 {
            "|"@
        } else {
            "-"@
        }
    } else if frame == 0 {
        "\u{280b}"@
    } else if frame == 1 {
        "\u{2819}"@
    } else if frame == 2 {
        "\u{2839}"@
    } else if frame == 3 {
        "\u{2838}"@
    } else if frame == 4 {
        "\u{283c}"@
    } else if frame == 5 {
        "\u{2834}"@
    } else if frame == 6 {
        "\u{2826}"@
    } else if frame == 7 {
        "\u{2827}"@
    } else if frame == 8 {
        "\u{2807}"@
    } else {
        "\u{280f}"@
    }
}

/// Spinner glyph for a phase that has been running for so many milliseconds.
pub fn spinner_frame(elapsed: u64, ascii: bool) -> (s: &'static str)
    ensures
        s@ == spinner_text(elapsed as int / SPINNER_INTERVAL_MS as int, ascii),
{
    let step: u64 = elapsed / SPINNER_INTERVAL_MS;
    let frame: u64 = step % 10;
    if ascii {
        if step % 2 == 0 {
            "|"
        } else {
            "-"
        }
    } else if frame == 0 {
        "\u{280b}"
    } else if frame == 1 {
        "\u{2819}"
    } else if frame == 2 {
        "\u{2839}"
    } else if frame == 3 {
        "\u{2838}"
    } else if frame == 4 {
        "\u{283c}"
    } else if frame == 5 {
        "\u{2834}"
    } else if frame == 6 {
        "\u{2826}"
    } else if frame == 7 {
        "\u{2827}"
    } else if frame == 8 {
        "\u{2807}"
    } else {
        "\u{280f}"
    }
}

/// Terminal cells of a text.
pub uninterp spec fn text_cells(s: Seq<char>) -> usize;

/// Whether a character is a printable one of ASCII.
pub open spec fn is_printable(c: char) -> bool {
    ' ' <= c <= '~'
}

/// Whether a text is made of printable ASCII characters.
pub open spec fn all_printable(s: Seq<char>) -> bool {
    forall|i: int| 0 <= i < s.len() ==> is_printable(#[trigger] s[i])
}

/// `UnicodeWidthStr::width`: the cells that a text takes, by the rules of the
/// Unicode standard. Printable ASCII characters take a cell each.
#[verifier::external_body]
pub(crate) fn width_of(s: &str) -> (n: usize)
    ensures
        n == text_cells(s@),
        all_printable(s@) ==> n == s@.len(),
{
    unicode_width::UnicodeWidthStr::width(s)
}

/// Terminal cells of a character, where it is no control character.
pub uninterp spec fn char_cells(c: char) -> Option<usize>;

/// `UnicodeWidthChar::width`: the cells that a character takes, none of a
/// control character. A printable ASCII character takes one.
#[verifier::external_body]
fn width_of_char(c: char) -> (n: Option<usize>)
    ensures
        n == char_cells(c),
        is_printable(c) ==> n == Some(1usize),
        (c as u32) < 32 || 127 <= (c as u32) < 160 ==> n is None,
{
    unicode_width::UnicodeWidthChar::width(c)
}

/// Cells that a character counts for; a control character for none.
pub open spec fn cells_of(c: char) -> int {
    match char_cells(c) {
        Some(n) => n as int,
        None => 0,
    }
}

/// The longest beginning of a text whose characters take no more than a number
/// of cells.
pub open spec fn fitting(s: Seq<char>, budget: int) -> Seq<char>
    decreases s.len(),
{
    if s.len() == 0 || cells_of(s[0]) > budget {
        Seq::empty()
    } else {
        seq![s[0]] + fitting(s.drop_first(), budget - cells_of(s[0]))
    }
}

/// What marks a text that was cut.
pub open spec fn ellipsis(ascii: bool) -> Seq<char> {
    if ascii {
        "~"@
    } else {
        "\u{2026}"@
    }
}

/// A text cut to a number of cells, the last of them for the ellipsis.
pub open spec fn clamped(text: Seq<char>, max: int, ascii: bool) -> Seq<char> {
    if text_cells(text) <= max {
        text
    } else if max == 0 {
        Seq::empty()
    } else {
        let mark = ellipsis(ascii);
        let budget = if text_cells(mark) <= max {
            max - text_cells(mark)
        } else {
            0
        };
        fitting(text, budget) + mark
    }
}

/// The longest beginning of a text within a number of cells; of printable
/// ASCII that is one character to a cell.
pub fn fit_chars(text: &str, budget: usize) -> (r: String)
    ensures
        r@ == fitting(text@, budget as int),
        all_printable(text@) ==> all_printable(r@) && r@.len() == if text@.len() <= budget {
            text@.len() as int
        } else {
            budget as int
        },
{
    let cs = chars_of(text);
    let mut kept = String::new();
    let mut left: usize = budget;
    let mut i: usize = 0;
    assert(cs@.skip(0) =~= cs@);
    assert(kept@ + fitting(cs@.skip(0), left as int) =~= fitting(text@, budget as int));
    while i < cs.len()
        invariant
            i <= cs.len(),
            cs@ == text@,
            kept@ + fitting(cs@.skip(i as int), left as int) == fitting(text@, budget as int),
            all_printable(text@) ==> all_printable(kept@) && kept@.len() == i && left + i
                == budget,
        decreases cs.len() - i,
    {
        let ghost rest = cs@.skip(i as int);
        assert(rest[0] == cs@[i as int]);
        assert(rest.drop_first() =~= cs@.skip(i + 1));
        let n: usize = match width_of_char(cs[i]) {
            Some(n) => n,
            None => 0,
        };
        if n > left {
            assert(kept@ + Seq::<char>::empty() =~= kept@);
            return kept;
        }
        let ghost before = kept@;
        kept.push(cs[i]);
        left = left - n;
        assert(before + fitting(rest, left + n) =~= kept@ + fitting(rest.drop_first(), left as int));
        i += 1;
    }
    assert(kept@ + Seq::<char>::empty() =~= kept@);
    kept
}

/// Truncates `text` to `max` cells, reserving the last cell for an ellipsis.
///
/// Cells, not bytes: wide characters and combining marks are measured. Printable
/// ASCII is cut to exactly `max` cells where the ellipsis is ASCII too.
pub fn clamp_cells(text: &str, max: u16, ascii: bool) -> (r: String)
    ensures
        r@ == clamped(text@, max as int, ascii),
        ascii && all_printable(text@) ==> text_cells(r@) == if text@.len() <= max {
            text@.len() as int
        } else {
            max as int
        },
{
    let max: usize = max as usize;
    if width_of(text) <= max {
        return copy_str(text);
    }
    if max == 0 {
        let r = String::new();
        assert(r@ =~= Seq::<char>::empty());
        // Measured for the promise on its width.
        let _cells: usize = width_of(r.as_str());
        return r;
    }
    let mark = if ascii {
        "~"
    } else {
        "\u{2026}"
    };
    let taken: usize = width_of(mark);
    let budget: usize = if taken <= max {
        max - taken
    } else {
        0
    };
    proof {
        reveal_strlit("~");
    }
    let mut kept = fit_chars(text, budget);
    kept.append(mark);
    // Measured for the promise on its width.
    let _cells: usize = width_of(kept.as_str());
    kept
}

/// The characters that are kept of a text take no more cells than there are.
pub proof fn kept_characters_fit(s: Seq<char>, budget: int)
    requires
        budget >= 0,
    ensures
        total_cells(fitting(s, budget)) <= budget,
        fitting(s, budget).is_prefix_of(s),
    decreases s.len(),
{
    if s.len() > 0 && cells_of(s[0]) <= budget {
        let rest = s.drop_first();
        kept_characters_fit(rest, budget - cells_of(s[0]));
        let f = fitting(s, budget);
        assert(f.drop_first() =~= fitting(rest, budget - cells_of(s[0])));
        assert(f[0] == s[0]);
        assert(f =~= s.take(f.len() as int)) by {
            let g = fitting(rest, budget - cells_of(s[0]));
            assert(g =~= rest.take(g.len() as int));
            assert forall|k: int| 0 <= k < f.len() implies f[k] == s[k] by {
                if k > 0 {
                    assert(f[k] == g[k - 1]);
                    assert(g[k - 1] == rest[k - 1]);
                }
            }
        }
    }
}

/// Cells that characters count for one by one.
pub open spec fn total_cells(s: Seq<char>) -> int
    decreases s.len(),
{
    if s.len() == 0 {
        0
    } else {
        cells_of(s[0]) + total_cells(s.drop_first())
    }
}

// ---------------------------------------------------------------------------
// Laws of the table
// ---------------------------------------------------------------------------

/// A change of one width changes the table by as much, where the column is
/// shown.
proof fn lemma_width_change(shown: Seq<int>, w: Seq<int>, c: int, x: int)
    requires
        0 <= c < w.len(),
        shown.no_duplicates(),
        forall|k: int| 0 <= k < shown.len() ==> 0 <= (#[trigger] shown[k]) < w.len(),
    ensures
        table_width(shown, w.update(c, x)) == table_width(shown, w) + (if shown.contains(c) {
            x - w[c]
        } else {
            0
        }),
    decreases shown.len(),
{
    if shown.len() > 0 {
        let init = shown.drop_last();
        assert forall|k: int| 0 <= k < init.len() implies 0 <= (#[trigger] init[k]) < w.len() by {
            assert(init[k] == shown[k]);
        }
        lemma_width_change(init, w, c, x);
        if shown.last() == c {
            if init.contains(c) {
                let k = choose|k: int| 0 <= k < init.len() && init[k] == c;
                assert(shown[k] == shown[shown.len() - 1]);
            }
            assert(shown[shown.len() - 1] == c);
        } else {
            if shown.contains(c) {
                let k = choose|k: int| 0 <= k < shown.len() && shown[k] == c;
                assert(init[k] == c);
            }
            if init.contains(c) {
                let k = choose|k: int| 0 <= k < init.len() && init[k] == c;
                assert(shown[k] == c);
            }
        }
    }
}

proof fn lemma_squeezed(widths: Seq<int>, shown: Seq<int>, order: Seq<int>, missing: int)
    requires
        shown.no_duplicates(),
        order.no_duplicates(),
        widths.len() == COLUMN_COUNT,
        missing >= 0,
        forall|k: int| 0 <= k < shown.len() ==> 0 <= (#[trigger] shown[k]) < widths.len(),
        forall|k: int|
            0 <= k < order.len() ==> 0 <= (#[trigger] order[k]) < widths.len()
                && column_at(order[k]).min <= widths[order[k]],
    ensures
        ({
            let r = squeezed(widths, shown, order, missing);
            &&& r.len() == widths.len()
            &&& forall|c: int|
                0 <= c < widths.len() && !order.contains(c) ==> (#[trigger] r[c]) == widths[c]
            &&& forall|c: int|
                0 <= c < widths.len() && order.contains(c) ==> column_at(c).min <= (#[trigger] r[c])
                    <= widths[c]
            &&& table_width(shown, r) >= table_width(shown, widths) - missing
            &&& table_width(shown, r) > table_width(shown, widths) - missing ==> forall|c: int|
                shown.contains(c) && order.contains(c) ==> (#[trigger] r[c]) == column_at(c).min
        }),
    decreases order.len(),
{
    if order.len() > 0 && missing > 0 {
        let c = order[0];
        let room = if shown.contains(c) {
            widths[c] - column_at(c).min
        } else {
            0
        };
        let cut = if missing < room {
            missing
        } else {
            room
        };
        let next = widths.update(c, widths[c] - cut);
        let rest = order.drop_first();
        assert forall|k: int| 0 <= k < rest.len() implies 0 <= (#[trigger] rest[k]) < next.len()
            && column_at(rest[k]).min <= next[rest[k]] by {
            assert(rest[k] == order[k + 1]);
            assert(order[k + 1] != order[0]);
        }
        assert(column_at(order[0]).min <= widths[order[0]]);
        lemma_squeezed(next, shown, rest, missing - cut);
        lemma_width_change(shown, widths, c, widths[c] - cut);
        let r = squeezed(next, shown, rest, missing - cut);
        assert(!rest.contains(c)) by {
            if rest.contains(c) {
                let k = choose|k: int| 0 <= k < rest.len() && rest[k] == c;
                assert(order[k + 1] == order[0]);
            }
        }
        assert forall|d: int| 0 <= d < widths.len() implies (order.contains(d) <==> (d == c
            || #[trigger] rest.contains(d))) by {
            if order.contains(d) && d != c {
                let k = choose|k: int| 0 <= k < order.len() && order[k] == d;
                assert(rest[k - 1] == d);
            }
            if rest.contains(d) {
                let k = choose|k: int| 0 <= k < rest.len() && rest[k] == d;
                assert(order[k + 1] == d);
            }
            assert(order[0] == c);
        }
        assert(r[c] == widths[c] - cut);
        assert forall|d: int| 0 <= d < widths.len() && !order.contains(d) implies (#[trigger] r[d])
            == widths[d] by {
            assert(!rest.contains(d));
        }
        assert forall|d: int| 0 <= d < widths.len() && order.contains(d) implies column_at(d).min
            <= (#[trigger] r[d]) <= widths[d] by {
            assert(d == c || rest.contains(d));
        }
        if table_width(shown, r) > table_width(shown, widths) - missing {
            assert forall|d: int| shown.contains(d) && order.contains(d) implies (#[trigger] r[d])
                == column_at(d).min by {
                assert(0 <= d < widths.len()) by {
                    let k = choose|k: int| 0 <= k < shown.len() && shown[k] == d;
                    assert(0 <= shown[k] < widths.len());
                }
                assert(d == c || rest.contains(d));
                if d == c {
                    assert(cut == room);
                }
            }
        }
    } else if order.len() == 0 {
        assert forall|c: int| shown.contains(c) && order.contains(c) implies (
        #[trigger] widths[c]) == column_at(c).min by {}
    } else {
        assert forall|c: int| 0 <= c < widths.len() && order.contains(c) implies column_at(c).min
            <= (#[trigger] widths[c]) by {
            let k = choose|k: int| 0 <= k < order.len() && order[k] == c;
            assert(column_at(order[k]).min <= widths[order[k]]);
        }
    }
}

proof fn lemma_grown(widths: Seq<int>, shown: Seq<int>, order: Seq<int>, spare: int)
    requires
        shown.no_duplicates(),
        order.no_duplicates(),
        widths.len() == COLUMN_COUNT,
        spare >= 0,
        forall|k: int| 0 <= k < shown.len() ==> 0 <= (#[trigger] shown[k]) < widths.len(),
        forall|k: int|
            0 <= k < order.len() ==> 0 <= (#[trigger] order[k]) < widths.len() && widths[order[k]]
                <= column_at(order[k]).max,
    ensures
        ({
            let r = grown(widths, shown, order, spare);
            &&& r.len() == widths.len()
            &&& forall|c: int|
                0 <= c < widths.len() && !order.contains(c) ==> (#[trigger] r[c]) == widths[c]
            &&& forall|c: int|
                0 <= c < widths.len() && order.contains(c) ==> widths[c] <= (#[trigger] r[c])
                    <= column_at(c).max
            &&& table_width(shown, r) <= table_width(shown, widths) + spare
            &&& table_width(shown, r) < table_width(shown, widths) + spare ==> forall|c: int|
                shown.contains(c) && order.contains(c) ==> (#[trigger] r[c]) == column_at(c).max
        }),
    decreases order.len(),
{
    if order.len() > 0 && spare > 0 {
        let c = order[0];
        let room = if shown.contains(c) {
            column_at(c).max - widths[c]
        } else {
            0
        };
        let gain = if spare < room {
            spare
        } else {
            room
        };
        let next = widths.update(c, widths[c] + gain);
        let rest = order.drop_first();
        assert forall|k: int| 0 <= k < rest.len() implies 0 <= (#[trigger] rest[k]) < next.len()
            && next[rest[k]] <= column_at(rest[k]).max by {
            assert(rest[k] == order[k + 1]);
            assert(order[k + 1] != order[0]);
        }
        assert(widths[order[0]] <= column_at(order[0]).max);
        lemma_grown(next, shown, rest, spare - gain);
        lemma_width_change(shown, widths, c, widths[c] + gain);
        let r = grown(next, shown, rest, spare - gain);
        assert(!rest.contains(c)) by {
            if rest.contains(c) {
                let k = choose|k: int| 0 <= k < rest.len() && rest[k] == c;
                assert(order[k + 1] == order[0]);
            }
        }
        assert forall|d: int| 0 <= d < widths.len() implies (order.contains(d) <==> (d == c
            || #[trigger] rest.contains(d))) by {
            if order.contains(d) && d != c {
                let k = choose|k: int| 0 <= k < order.len() && order[k] == d;
                assert(rest[k - 1] == d);
            }
            if rest.contains(d) {
                let k = choose|k: int| 0 <= k < rest.len() && rest[k] == d;
                assert(order[k + 1] == d);
            }
            assert(order[0] == c);
        }
        assert(r[c] == widths[c] + gain);
        assert forall|d: int| 0 <= d < widths.len() && !order.contains(d) implies (#[trigger] r[d])
            == widths[d] by {
            assert(!rest.contains(d));
        }
        assert forall|d: int| 0 <= d < widths.len() && order.contains(d) implies widths[d] <= (
        #[trigger] r[d]) <= column_at(d).max by {
            assert(d == c || rest.contains(d));
        }
        if table_width(shown, r) < table_width(shown, widths) + spare {
            assert forall|d: int| shown.contains(d) && order.contains(d) implies (#[trigger] r[d])
                == column_at(d).max by {
                assert(0 <= d < widths.len()) by {
                    let k = choose|k: int| 0 <= k < shown.len() && shown[k] == d;
                    assert(0 <= shown[k] < widths.len());
                }
                assert(d == c || rest.contains(d));
                if d == c {
                    assert(gain == room);
                }
            }
        }
    } else if order.len() == 0 {
        assert forall|c: int| shown.contains(c) && order.contains(c) implies (
        #[trigger] widths[c]) == column_at(c).max by {}
    } else {
        assert forall|c: int| 0 <= c < widths.len() && order.contains(c) implies (
        #[trigger] widths[c]) <= column_at(c).max by {
            let k = choose|k: int| 0 <= k < order.len() && order[k] == c;
            assert(widths[order[k]] <= column_at(order[k]).max);
        }
    }
}

proof fn lemma_orders(h: int)
    ensures
        shown_columns(h).no_duplicates(),
        shrink_order().no_duplicates(),
        grow_order().no_duplicates(),
        forall|k: int| 0 <= k < shown_columns(h).len() ==> 0 <= (#[trigger] shown_columns(h)[k]) < 9,
        shown_columns(h)[0] == 0,
        forall|c: int|
            0 <= c < 9 ==> (#[trigger] shrink_order().contains(c) <==> column_at(c).grow_rank
                is Some),
        forall|c: int|
            0 <= c < 9 ==> (#[trigger] grow_order().contains(c) <==> column_at(c).grow_rank
                is Some),
{
    let s = shrink_order();
    let g = grow_order();
    assert(s[0] == 6 && s[1] == 5 && s[2] == 3 && s[3] == 2 && s[4] == 1);
    assert(g[0] == 1 && g[1] == 2 && g[2] == 3 && g[3] == 5 && g[4] == 6);
}

/// No column is squeezed below its floor or stretched beyond its ceiling, and
/// the ordinal is always shown.
pub proof fn columns_keep_their_bounds(available: int, rows: int, i: int)
    requires
        0 <= available,
        0 <= i < fitted(available, rows).len(),
    ensures
        fitted(available, rows)[0].0 == 0,
        ({
            let (c, w) = fitted(available, rows)[i];
            column_at(c).min <= w <= column_at(c).max
        }),
{
    let h = hidden_count(available, rows);
    let shown = shown_columns(h);
    let widths = preferred_widths(rows);
    let total = table_width(shown, widths);
    lemma_orders(h);
    if total > available {
        lemma_squeezed(widths, shown, shrink_order(), total - available);
    } else {
        lemma_grown(widths, shown, grow_order(), available - total);
    }
    let c = shown[i];
    assert(shown.contains(c));
    assert(shrink_order().contains(c) == grow_order().contains(c));
    assert(widths[c] == preferred_width(c, rows));
}

/// The table takes the cells that are available: it is wider only where every
/// column that can hide is hidden and every column that can shrink is at its
/// floor, and narrower only where every column that can grow is at its
/// ceiling.
pub proof fn table_uses_the_whole_width(available: int, rows: int)
    requires
        0 <= available,
    ensures
        ({
            let shown = shown_columns(hidden_count(available, rows));
            let widths = fitted_widths(available, rows);
            let used = table_width(shown, widths);
            &&& used > available ==> forall|c: int|
                shown.contains(c) && column_at(c).grow_rank is Some ==> (#[trigger] widths[c])
                    == column_at(c).min
            &&& used < available ==> forall|c: int|
                shown.contains(c) && column_at(c).grow_rank is Some ==> (#[trigger] widths[c])
                    == column_at(c).max
            &&& used > available ==> hidden_count(available, rows) == 3
        }),
{
    let h = hidden_count(available, rows);
    let shown = shown_columns(h);
    let widths = preferred_widths(rows);
    let total = table_width(shown, widths);
    lemma_orders(h);
    if total > available {
        lemma_squeezed(widths, shown, shrink_order(), total - available);
    } else {
        lemma_grown(widths, shown, grow_order(), available - total);
    }
    let r = fitted_widths(available, rows);
    assert forall|c: int| shown.contains(c) && column_at(c).grow_rank is Some implies (
    shrink_order().contains(c) && grow_order().contains(c)) && (#[trigger] r[c]) == r[c] by {
        let k = choose|k: int| 0 <= k < shown.len() && shown[k] == c;
        assert(0 <= shown[k] < 9);
    }
}

/// The best level is one that a validated type has, and no type has a higher
/// one; there is none exactly where no type has a level.
pub proof fn best_level_is_the_best(types: Seq<ProxyType>)
    ensures
        match best_level(types) {
            Some(a) => (exists|k: int|
                0 <= k < types.len() && level_of((#[trigger] types[k]).protocol) == Some(a)) && (
            forall|k: int|
                0 <= k < types.len() && level_of((#[trigger] types[k]).protocol) is Some ==> rank_of(
                    level_of(types[k].protocol)->0,
                ) <= rank_of(a)),
            None => forall|k: int|
                0 <= k < types.len() ==> level_of((#[trigger] types[k]).protocol) is None,
        },
    decreases types.len(),
{
    if types.len() > 0 {
        let rest = types.drop_last();
        best_level_is_the_best(rest);
        let n = types.len() - 1;
        assert(forall|k: int| 0 <= k < n ==> rest[k] == #[trigger] types[k]);
        match best_level(types) {
            Some(a) => {
                if level_of(types[n].protocol) == Some(a) {
                } else {
                    let k = choose|k: int|
                        0 <= k < rest.len() && level_of((#[trigger] rest[k]).protocol) == Some(a);
                    assert(types[k] == rest[k]);
                }
                assert forall|k: int|
                    0 <= k < types.len() && level_of(
                        (#[trigger] types[k]).protocol,
                    ) is Some implies rank_of(level_of(types[k].protocol)->0) <= rank_of(a) by {
                    if k < n {
                        assert(rest[k] == types[k]);
                    }
                }
            },
            None => {
                assert forall|k: int| 0 <= k < types.len() implies level_of(
                    (#[trigger] types[k]).protocol,
                ) is None by {
                    if k < n {
                        assert(rest[k] == types[k]);
                    }
                }
            },
        }
    }
}

/// A row tells of its proxy, each column the fact that its title names, and a
/// fact that is not known as a hyphen.
pub proof fn cells_tell_of_the_proxy(p: Proxy)
    ensures
        ({
            let cells = row_cells(p);
            &&& cells.len() == 8
            &&& column_at(1).title == "IP:PORT" && column_at(1).source == Source::Cell(0)
            &&& cells[0] == p.as_text_spec()
            &&& column_at(2).title == "PROTO" && column_at(2).source == Source::Cell(1)
            &&& column_at(3).title == "ANON" && column_at(3).source == Source::Cell(2)
            &&& best_level(p.proxy_types@) == Some(Anonymity::Elite) ==> cells[2] == "elite"@
            &&& best_level(p.proxy_types@) == Some(Anonymity::Anonymous) ==> cells[2] == "anon"@
            &&& best_level(p.proxy_types@) == Some(Anonymity::Transparent) ==> cells[2] == "transp"@
            &&& best_level(p.proxy_types@) is None ==> cells[2] == "-"@
            &&& column_at(4).title == "CC" && column_at(4).source == Source::Cell(3)
            &&& p.geo.iso_code is Some ==> cells[3] == p.geo.iso_code->0@
            &&& p.geo.iso_code is None ==> cells[3] == "-"@
            &&& column_at(5).title == "TYPE" && column_at(5).source == Source::Cell(4)
            &&& p.geo.ip_type is Residential ==> cells[4] == "residential"@
            &&& p.geo.ip_type is Datacenter ==> cells[4] == "datacenter"@
            &&& p.geo.ip_type is Mobile ==> cells[4] == "mobile"@
            &&& p.geo.ip_type is Unknown ==> cells[4] == "-"@
            &&& column_at(6).title == "ASN" && column_at(6).source == Source::Cell(5)
            &&& p.geo.asn is Some ==> cells[5] == decimal(p.geo.asn->0 as nat)
            &&& p.geo.asn is None ==> cells[5] == "-"@
            &&& column_at(7).title == "RTT" && column_at(7).source == Source::Cell(6)
            &&& cells[6] == seconds_text(average(p.runtimes)) + seq!['s']
            &&& column_at(8).title == "N" && column_at(8).source == Source::Cell(7)
            &&& cells[7] == decimal(p.runtimes.count as nat)
            &&& column_at(0).title == "#" && column_at(0).source is Ordinal
        }),
{
    reveal_strlit("s");
    assert("s"@ =~= seq!['s']);
}

/// The protocols of a row are the validated ones, and the advertised ones only
/// where nothing was validated, each in short.
pub proof fn validated_protocols_are_shown(p: Proxy, i: int)
    requires
        0 <= i < short_texts(p).len(),
    ensures
        row_cells(p)[1] == joined(short_texts(p), seq!['+']),
        p.proxy_types@.len() > 0 ==> short_texts(p).len() == p.proxy_types@.len() && short_texts(
            p,
        )[i] == short_text(p.proxy_types@[i].protocol),
        p.proxy_types@.len() == 0 ==> short_texts(p).len() == p.expected_types@.len()
            && short_texts(p)[i] == short_text(p.expected_types@[i]),
{
    reveal_strlit("+");
    assert("+"@ =~= seq!['+']);
}

/// A protocol in short is its name without its level, and with the port where
/// it has one.
pub proof fn short_protocols_are_names(a: Anonymity, port: u16)
    ensures
        short_text(Protocol::Http(a)) == seq!['H', 'T', 'T', 'P'],
        short_text(Protocol::Https(a)) == seq!['H', 'T', 'T', 'P', 'S'],
        short_text(Protocol::Socks4) == seq!['S', 'O', 'C', 'K', 'S', '4'],
        short_text(Protocol::Socks5) == seq!['S', 'O', 'C', 'K', 'S', '5'],
        short_text(Protocol::Connect(port)) == seq!['C', 'O', 'N', 'N', 'E', 'C', 'T', ':']
            + decimal(port as nat),
{
    reveal_strlit("HTTP");
    reveal_strlit("HTTPS");
    reveal_strlit("SOCKS4");
    reveal_strlit("SOCKS5");
    reveal_strlit("CONNECT:");
    assert("HTTP"@ =~= seq!['H', 'T', 'T', 'P']);
    assert("HTTPS"@ =~= seq!['H', 'T', 'T', 'P', 'S']);
    assert("SOCKS4"@ =~= seq!['S', 'O', 'C', 'K', 'S', '4']);
    assert("SOCKS5"@ =~= seq!['S', 'O', 'C', 'K', 'S', '5']);
    assert("CONNECT:"@ =~= seq!['C', 'O', 'N', 'N', 'E', 'C', 'T', ':']);
}

/// A filter finds itself wherever it stands, and, where it has no capital, in
/// either case; with one it finds nothing but itself.
pub proof fn filters_find_their_text(
    before: Seq<char>,
    found: Seq<char>,
    behind: Seq<char>,
    filter: Seq<char>,
)
    requires
        filter.len() > 0,
        found.len() == filter.len(),
    ensures
        matches_in(before + filter + behind, filter, filter_case(filter)),
        (forall|i: int| 0 <= i < filter.len() ==> !is_upper(#[trigger] filter[i])) && (forall|i: int|

            0 <= i < filter.len() ==> (#[trigger] filter[i] as u32) < 128 && (found[i] as u32) < 128
                && lower(found[i]) == lower(filter[i])) ==> matches_in(
            before + found + behind,
            filter,
            filter_case(filter),
        ),
        (exists|i: int| 0 <= i < filter.len() && is_upper(#[trigger] filter[i])) && matches_in(
            found,
            filter,
            filter_case(filter),
        ) ==> found == filter,
        !matches_in(before, Seq::empty(), filter_case(filter)),
{
    let n = before.len() as int;
    let all = before + filter + behind;
    assert forall|k: int| 0 <= k < filter.len() implies chars_match(
        #[trigger] all[n + k],
        filter[k],
        filter_case(filter),
    ) by {
        assert(all[n + k] == filter[k]);
    }
    assert(matches_from(all, filter, filter_case(filter), n));
    if (forall|i: int| 0 <= i < filter.len() ==> !is_upper(#[trigger] filter[i])) && (forall|i: int|

        0 <= i < filter.len() ==> (#[trigger] filter[i] as u32) < 128 && (found[i] as u32) < 128
            && lower(found[i]) == lower(filter[i])) {
        let other = before + found + behind;
        assert forall|k: int| 0 <= k < filter.len() implies chars_match(
            #[trigger] other[n + k],
            filter[k],
            filter_case(filter),
        ) by {
            assert(other[n + k] == found[k]);
            assert((filter[k] as u32) < 128);
        }
        assert(matches_from(other, filter, filter_case(filter), n));
    }
    if (exists|i: int| 0 <= i < filter.len() && is_upper(#[trigger] filter[i])) && matches_in(
        found,
        filter,
        filter_case(filter),
    ) {
        let start = choose|start: int| matches_from(found, filter, filter_case(filter), start);
        assert(start == 0);
        assert forall|k: int| 0 <= k < filter.len() implies found[k] == filter[k] by {
            assert(chars_match(found[start + k], filter[k], filter_case(filter)));
        }
        assert(found =~= filter);
    }
}

/// A row is shown where one of its cells or its organization has the filter in
/// it, and every row is without one.
pub proof fn rows_are_shown_by_their_texts(row: RowModel, filter: Seq<char>, c: int)
    ensures
        filter.len() == 0 ==> shown(row, filter),
        0 <= c < row.cells@.len() && matches_in(row.cells@[c]@, filter, filter_case(filter))
            ==> shown(row, filter),
        matches_in(row.organization@, filter, filter_case(filter)) ==> shown(row, filter),
        filter.len() > 0 && !matches_in(row.organization@, filter, filter_case(filter)) && (forall|
            k: int,
        |
            0 <= k < row.cells@.len() ==> !matches_in(
                (#[trigger] row.cells@[k])@,
                filter,
                filter_case(filter),
            )) ==> !shown(row, filter),
{
}

/// The window is as tall as it can be, begins at the first row as long as the
/// selection is in reach from there, and ends with the selection otherwise.
pub proof fn windows_move_with_the_selection(selected: int, height: int, len: int)
    requires
        0 <= selected < len,
        height > 0,
    ensures
        ({
            let (start, end) = window_of(selected, height, len);
            &&& end - start == (if height < len {
                height
            } else {
                len
            })
            &&& selected < height ==> start == 0
            &&& selected >= height ==> end == selected + 1
        }),
        window_of(selected, 0, len) == (0int, 0int),
        window_of(selected, height, 0) == (0int, 0int),
{
}

/// The number of a row gets as many cells as it has digits, but two at the
/// least and six at the most.
pub proof fn ordinals_have_room(rows: int)
    ensures
        rows < 100 ==> ordinal_cells(rows) == 2,
        100 <= rows < 1000 ==> ordinal_cells(rows) == 3,
        1000 <= rows < 10_000 ==> ordinal_cells(rows) == 4,
        10_000 <= rows < 100_000 ==> ordinal_cells(rows) == 5,
        100_000 <= rows ==> ordinal_cells(rows) == 6,
{
    reveal_with_fuel(decimal, 7);
    if rows >= 100_000 {
        lemma_digits_grow(rows as nat);
    }
}

proof fn lemma_digits_grow(n: nat)
    requires
        n >= 100_000,
    ensures
        decimal(n).len() >= 6,
    decreases n,
{
    reveal_with_fuel(decimal, 7);
    if n >= 1_000_000 {
        lemma_digits_grow(n / 10);
    }
}

/// Columns hide in turn where cells are missing: the network number, then the
/// count of samples, then the class of the address; as few of them as it
/// takes, and never another one.
pub proof fn columns_hide_in_turn(available: int, rows: int, c: int)
    requires
        0 <= c < 9,
    ensures
        ({
            let h = hidden_count(available, rows);
            &&& 0 <= h <= 3
            &&& shown_columns(h).contains(c) <==> !(c == 6 && h >= 1) && !(c == 8 && h >= 2) && !(c
                == 5 && h >= 3)
            &&& h > 0 ==> table_width(shown_columns(h - 1), preferred_widths(rows)) > available
            &&& h < 3 ==> table_width(shown_columns(h), preferred_widths(rows)) <= available
        }),
{
    let all = shown_columns(hidden_count(available, rows));
    assert(all.len() >= 6);
    assert(all[0] == 0 && all[1] == 1 && all[2] == 2 && all[3] == 3 && all[4] == 4);
    let h = hidden_count(available, rows);
    if h == 0 {
        assert(all[5] == 5 && all[6] == 6 && all[7] == 7 && all[8] == 8);
    } else if h == 1 {
        assert(all[5] == 5 && all[6] == 7 && all[7] == 8);
    } else if h == 2 {
        assert(all[5] == 5 && all[6] == 7);
    } else {
        assert(all[5] == 7);
    }
}

proof fn lemma_grown_untouched(widths: Seq<int>, shown: Seq<int>, order: Seq<int>, spare: int, c: int)
    requires
        0 <= c < widths.len(),
        forall|k: int| 0 <= k < order.len() ==> 0 <= (#[trigger] order[k]) < widths.len(),
        !order.contains(c),
    ensures
        grown(widths, shown, order, spare)[c] == widths[c],
    decreases order.len(),
{
    if order.len() > 0 && spare > 0 {
        let d = order[0];
        assert(order.contains(d));
        let room = if shown.contains(d) {
            column_at(d).max - widths[d]
        } else {
            0
        };
        let gain = if spare < room {
            spare
        } else {
            room
        };
        let rest = order.drop_first();
        assert forall|k: int| 0 <= k < rest.len() implies 0 <= (#[trigger] rest[k])
            < widths.len() by {
            assert(rest[k] == order[k + 1]);
        }
        if rest.contains(c) {
            let k = choose|k: int| 0 <= k < rest.len() && rest[k] == c;
            assert(order[k + 1] == c);
        }
        lemma_grown_untouched(
            widths.update(d, widths[d] + gain),
            shown,
            rest,
            spare - gain,
            c,
        );
    }
}

/// Spare cells go to the columns in turn: while one of them has not reached its
/// ceiling, the ones behind it get nothing.
pub proof fn spare_cells_go_in_turn(
    widths: Seq<int>,
    shown: Seq<int>,
    order: Seq<int>,
    spare: int,
    a: int,
    b: int,
)
    requires
        order.no_duplicates(),
        forall|k: int| 0 <= k < order.len() ==> 0 <= (#[trigger] order[k]) < widths.len(),
        forall|k: int|
            0 <= k < order.len() ==> widths[#[trigger] order[k]] <= column_at(order[k]).max,
        0 <= a < b < order.len(),
        shown.contains(order[a]),
        grown(widths, shown, order, spare)[order[b]] != widths[order[b]],
    ensures
        grown(widths, shown, order, spare)[order[a]] == column_at(order[a]).max,
    decreases order.len(),
{
    if spare > 0 {
        let c = order[0];
        let room = if shown.contains(c) {
            column_at(c).max - widths[c]
        } else {
            0
        };
        let gain = if spare < room {
            spare
        } else {
            room
        };
        assert(widths[order[0]] <= column_at(order[0]).max);
        let next = widths.update(c, widths[c] + gain);
        let rest = order.drop_first();
        assert forall|k: int| 0 <= k < rest.len() implies 0 <= (#[trigger] rest[k]) < next.len()
            && next[rest[k]] <= column_at(rest[k]).max by {
            assert(rest[k] == order[k + 1]);
            assert(order[k + 1] != order[0]);
            assert(widths[order[k + 1]] <= column_at(order[k + 1]).max);
        }
        assert(rest[b - 1] == order[b]);
        assert(next[order[b]] == widths[order[b]]);
        if a > 0 {
            assert(rest[a - 1] == order[a]);
            spare_cells_go_in_turn(next, shown, rest, spare - gain, a - 1, b - 1);
        } else {
            assert(gain == room);
            assert(!rest.contains(c)) by {
                if rest.contains(c) {
                    let k = choose|k: int| 0 <= k < rest.len() && rest[k] == c;
                    assert(order[k + 1] == order[0]);
                }
            }
            lemma_grown_untouched(next, shown, rest, spare - gain, c);
        }
    }
}

/// Spare cells are offered to the address first, and missing ones are taken
/// from it last.
pub proof fn the_address_comes_first()
    ensures
        grow_order() =~= seq![1, 2, 3, 5, 6],
        shrink_order() =~= grow_order().reverse(),
        forall|k: int|
            0 <= k < 5 ==> column_at(#[trigger] grow_order()[k]).grow_rank == Some((k + 1) as u8),
{
}

/// Each region of the screen has its rows over the whole width: one for the
/// header, two for the status, one for the footer, and the table the rest. A
/// screen under sixty columns or twelve rows has no regions.
pub proof fn regions_have_their_rows(area: Rect)
    requires
        area.wf(),
    ensures
        screen_of(area) is Some <==> area.width >= 60 && area.height >= 12,
        screen_of(area) is Some ==> ({
            let l = screen_of(area)->0;
            &&& l.header.height == 1 && l.status.height == 2 && l.footer.height == 1
            &&& l.table.height == area.height - 4
            &&& l.header.x == area.x && l.header.width == area.width
            &&& l.status.x == area.x && l.status.width == area.width
            &&& l.table.x == area.x && l.table.width == area.width
            &&& l.footer.x == area.x && l.footer.width == area.width
        }),
{
}

/// A bar of which nothing is done is empty, and the partly filled cells go from
/// an eighth to the whole in eight steps.
pub proof fn bars_begin_empty(whole: int, width: int, k: int, i: int)
    requires
        0 <= i < width,
        0 <= k <= 7,
    ensures
        bar_text(0, whole, width, true).len() == width,
        bar_text(0, whole, width, true)[i] == '-',
        bar_text(0, whole, width, false).len() == width,
        bar_text(0, whole, width, false)[i] == ' ',
        bar_level(k) as u32 + k == 0x258f,
{
    vstd::arithmetic::power2::lemma2_to64();
    assert(0 * width == 0) by (nonlinear_arith);
    assert(double_of(0, whole) == (0int, 0int));
    assert(bar_position(0, whole, width) == (0int, 0int));
    assert(0 * vstd::arithmetic::power2::pow2(0) == 0) by (nonlinear_arith);
    assert(whole_of((0int, 0int)) == 0);
    assert(rounded_of((0int, 0int)) == 0);
}

/// The spinner comes round after ten frames, or two in ASCII, and no frame
/// looks like the one before.
pub proof fn spinners_turn(step: int, ascii: bool)
    requires
        step >= 0,
    ensures
        spinner_text(step + 10, ascii) == spinner_text(step, ascii),
        spinner_text(step + 1, ascii) != spinner_text(step, ascii),
        spinner_text(step + 2, true) == spinner_text(step, true),
{
    reveal_strlit("|");
    reveal_strlit("-");
    reveal_strlit("\u{280b}");
    reveal_strlit("\u{2819}");
    reveal_strlit("\u{2839}");
    reveal_strlit("\u{2838}");
    reveal_strlit("\u{283c}");
    reveal_strlit("\u{2834}");
    reveal_strlit("\u{2826}");
    reveal_strlit("\u{2827}");
    reveal_strlit("\u{2807}");
    reveal_strlit("\u{280f}");
    let a = spinner_text(step, ascii)[0];
    let b = spinner_text(step + 1, ascii)[0];
    assert(a != b);
}

/// What is kept of a text is as much as fits: one character more would take too
/// many cells.
pub proof fn no_cell_is_wasted(s: Seq<char>, budget: int)
    requires
        budget >= 0,
        fitting(s, budget).len() < s.len(),
    ensures
        total_cells(s.take(fitting(s, budget).len() as int + 1)) > budget,
    decreases s.len(),
{
    let kept = fitting(s, budget);
    let more = s.take(kept.len() as int + 1);
    if cells_of(s[0]) > budget {
        assert(kept.len() == 0);
        assert(more.drop_first() =~= Seq::<char>::empty());
        assert(total_cells(more.drop_first()) == 0);
        assert(more[0] == s[0]);
    } else {
        let rest = s.drop_first();
        let left = budget - cells_of(s[0]);
        assert(kept.len() == 1 + fitting(rest, left).len());
        no_cell_is_wasted(rest, left);
        assert(more.drop_first() =~= rest.take(fitting(rest, left).len() as int + 1));
        assert(more[0] == s[0]);
    }
}

/// A text that fits stays as it is; another one is cut, and ends in the mark
/// that says so, in ASCII a tilde.
pub proof fn cut_texts_are_marked(text: Seq<char>, max: int, ascii: bool)
    requires
        max >= 0,
    ensures
        text_cells(text) <= max ==> clamped(text, max, ascii) == text,
        text_cells(text) > max && max > 0 ==> ({
            let cut = clamped(text, max, ascii);
            &&& cut.len() > 0
            &&& cut.last() == (if ascii {
                '~'
            } else {
                '\u{2026}'
            })
            &&& cut.drop_last().is_prefix_of(text)
        }),
        text_cells(text) > max && max == 0 ==> clamped(text, max, ascii).len() == 0,
{
    reveal_strlit("~");
    reveal_strlit("\u{2026}");
    if text_cells(text) > max && max > 0 {
        let mark = ellipsis(ascii);
        let budget = if text_cells(mark) <= max {
            max - text_cells(mark)
        } else {
            0
        };
        kept_characters_fit(text, budget);
        let cut = clamped(text, max, ascii);
        assert(cut.drop_last() =~= fitting(text, budget));
    }
}

/// Sorted rows go by the fact that the key names: the response time, the
/// country in its column, or the level.
pub proof fn rows_are_ordered_by_their_key(k: Key, row: RowModel)
    ensures
        is_row_key(k, row, SortKey::AvgResponseTime) ==> k == Key::Ratio(
            row.rtt.total,
            row.rtt.count,
        ),
        is_row_key(k, row, SortKey::Country) ==> k is Text && k->Text_0 is Some && k->Text_0->0@
            == row.cells@[3]@,
        is_row_key(k, row, SortKey::Anonymity) ==> k is Number && k->Number_0
            == row.anonymity_rank,
        column_at(7).sort_key == Some(SortKey::AvgResponseTime),
        column_at(4).sort_key == Some(SortKey::Country),
        column_at(3).sort_key == Some(SortKey::Anonymity),
{
}

/// A bar of which all is done is full.
pub proof fn bars_end_full(whole: int, width: int, i: int)
    requires
        whole > 0,
        0 <= i < width < 0x10000,
    ensures
        bar_text(whole, whole, width, true).len() == width,
        bar_text(whole, whole, width, true)[i] == '#',
        bar_text(whole, whole, width, false).len() == width,
        bar_text(whole, whole, width, false)[i] == '\u{2588}',
{
    wholes_are_whole(whole, width);
    assert(bar_position(whole, whole, width) == times(double_of(whole, whole), width));
}

} // verus!
