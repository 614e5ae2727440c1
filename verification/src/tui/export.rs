//! Renders browsed results in one of the output formats.

use crate::double::{double_of, units_of, Double, MANTISSA_END, MANTISSA_MIN, NUMERATOR_MAX};
use crate::geolookup::ip_type::IpType;
use crate::net::ip_text;
use crate::providers::parsers::{ends_head, pair_of};
use crate::proxy::models::{
    average, endpoint_text, proxy_line, rank_of, Anonymity, Mean, Protocol, Proxy,
};
use crate::source::endpoints_are_found_in_their_line;
use crate::text::{
    copy_str, decimal, fields, joined, joined_texts_split_again, push_decimal, push_wide, same,
};
use crate::tui::view::{best_level, best_level_is_the_best, shown_text};
use crate::filters::{level, level_of};
use vstd::prelude::*;

verus! {

/// The most decimals that a number is written with.
pub const MAX_DECIMALS: u32 = 21;

/// As many units as the most decimals tell apart.
const LARGEST_UNIT: u128 = 1_000_000_000_000_000_000_000;

/// The first line of a CSV export.
pub const CSV_HEADER: &'static str = "ip,port,protocol,anonymity,country,ip_type,asn,average_response_time";

/// The format of an export. The default one falls back to the extension of the
/// output path.
pub open spec fn inferred(format: Seq<char>, extension: Option<Seq<char>>) -> Seq<char> {
    if format != "default"@ {
        format
    } else if extension == Some("json"@) {
        "json"@
    } else if extension == Some("jsonl"@) {
        "json-lines"@
    } else if extension == Some("csv"@) {
        "csv"@
    } else if extension == Some("pac"@) {
        "pac"@
    } else if extension == Some("txt"@) {
        "text"@
    } else {
        "default"@
    }
}

fn has_extension(extension: Option<&str>, wanted: &str) -> (r: bool)
    ensures
        r == ((match extension {
            Some(e) => Some(e@),
            None => None,
        }) == Some(wanted@)),
{
    match extension {
        Some(e) => same(e, wanted),
        None => false,
    }
}

/// Falls back to the output path's extension when the format is the default.
pub fn infer_format(format: &str, extension: Option<&str>) -> (r: String)
    ensures
        r@ == inferred(
            format@,
            match extension {
                Some(e) => Some(e@),
                None => None,
            },
        ),
{
    if !same(format, "default") {
        copy_str(format)
    } else if has_extension(extension, "json") {
        "json".to_owned()
    } else if has_extension(extension, "jsonl") {
        "json-lines".to_owned()
    } else if has_extension(extension, "csv") {
        "csv".to_owned()
    } else if has_extension(extension, "pac") {
        "pac".to_owned()
    } else if has_extension(extension, "txt") {
        "text".to_owned()
    } else {
        "default".to_owned()
    }
}

/// The best level of a proxy in a word.
pub open spec fn level_word(p: Proxy) -> Seq<char> {
    match best_level(p.proxy_types@) {
        Some(Anonymity::Elite) => "elite"@,
        Some(Anonymity::Anonymous) => "anonymous"@,
        Some(Anonymity::Transparent) => "transparent"@,
        _ => "unknown"@,
    }
}

fn anonymity_of(proxy: &Proxy) -> (s: &'static str)
    ensures
        s@ == level_word(*proxy),
{
    let types = &proxy.proxy_types;
    let mut best: Option<Anonymity> = None;
    let mut i: usize = 0;
    assert(types@.take(0) =~= Seq::<crate::proxy::models::ProxyType>::empty());
    while i < types.len()
        invariant
            i <= types.len(),
            best == best_level(types@.take(i as int)),
        decreases types.len() - i,
    {
        assert(types@.take(i + 1).drop_last() =~= types@.take(i as int));
        if let Some(a) = level(types[i].protocol) {
            best = match best {
                None => Some(a),
                Some(b) => if a.rank() >= b.rank() {
                    Some(a)
                } else {
                    Some(b)
                },
            };
        }
        i += 1;
    }
    assert(types@.take(types.len() as int) =~= types@);
    match best {
        Some(Anonymity::Elite) => "elite",
        Some(Anonymity::Anonymous) => "anonymous",
        Some(Anonymity::Transparent) => "transparent",
        _ => "unknown",
    }
}

/// The first validated protocol.
pub open spec fn first_type(p: Proxy) -> Option<Protocol> {
    if p.proxy_types@.len() > 0 {
        Some(p.proxy_types@[0].protocol)
    } else {
        None
    }
}

/// The first validated protocol, or the first advertised one.
pub open spec fn first_protocol(p: Proxy) -> Option<Protocol> {
    match first_type(p) {
        Some(t) => Some(t),
        None => if p.expected_types@.len() > 0 {
            Some(p.expected_types@[0])
        } else {
            None
        },
    }
}

/// A protocol as a CSV cell.
pub open spec fn protocol_word(p: Option<Protocol>) -> Seq<char> {
    match p {
        Some(Protocol::Http(_)) => "http"@,
        Some(Protocol::Https(_)) => "https"@,
        Some(Protocol::Socks4) => "socks4"@,
        Some(Protocol::Socks5) => "socks5"@,
        Some(Protocol::Connect(port)) => "connect:"@ + decimal(port as nat),
        None => "unknown"@,
    }
}

fn protocol_of(proxy: &Proxy) -> (s: String)
    ensures
        s@ == protocol_word(first_protocol(*proxy)),
{
    let protocol = if proxy.proxy_types.len() > 0 {
        Some(proxy.proxy_types[0].protocol)
    } else if proxy.expected_types.len() > 0 {
        Some(proxy.expected_types[0])
    } else {
        None
    };
    match protocol {
        Some(Protocol::Http(_)) => "http".to_owned(),
        Some(Protocol::Https(_)) => "https".to_owned(),
        Some(Protocol::Socks4) => "socks4".to_owned(),
        Some(Protocol::Socks5) => "socks5".to_owned(),
        Some(Protocol::Connect(port)) => {
            let mut s = "connect:".to_owned();
            push_decimal(&mut s, port as u64);
            s
        },
        None => "unknown".to_owned(),
    }
}

/// An address class as a CSV cell.
pub open spec fn ip_type_word(t: IpType) -> Seq<char> {
    match t {
        IpType::Residential => "residential"@,
        IpType::Datacenter => "datacenter"@,
        IpType::Mobile => "mobile"@,
        IpType::Unknown => "unknown"@,
    }
}

fn ip_type_of(proxy: &Proxy) -> (s: &'static str)
    ensures
        s@ == ip_type_word(proxy.geo.ip_type),
{
    match proxy.geo.ip_type {
        IpType::Residential => "residential",
        IpType::Datacenter => "datacenter",
        IpType::Mobile => "mobile",
        IpType::Unknown => "unknown",
    }
}

/// A part of a second in so many digits, without the zeros at the end.
pub open spec fn fraction_text(part: int, digits: nat) -> Seq<char>
    decreases digits,
{
    if part <= 0 || digits == 0 {
        Seq::empty()
    } else {
        let unit = power_of_ten((digits - 1) as nat);
        seq![crate::text::digit((part / unit) as nat)] + fraction_text(
            part % unit,
            (digits - 1) as nat,
        )
    }
}

/// A power of ten.
pub open spec fn power_of_ten(n: nat) -> int
    decreases n,
{
    if n == 0 {
        1
    } else {
        10 * power_of_ten((n - 1) as nat)
    }
}

/// Whether a number is told from every other by so many decimals.
pub open spec fn reads_back(x: (int, int), decimals: nat) -> bool {
    let unit = power_of_ten(decimals);
    normal(double_of(units_of(x, unit), unit)) == normal(x)
}

/// A double with its mantissa below the first number with too many bits.
pub open spec fn normal(x: (int, int)) -> (int, int) {
    if x.0 == MANTISSA_END {
        (MANTISSA_MIN as int, x.1 + 1)
    } else {
        x
    }
}

/// The least number of decimals, from a given one up, that tells a number
/// from every other.
pub open spec fn decimals_of(x: (int, int), from: nat) -> nat
    decreases MAX_DECIMALS - from,
{
    if from >= MAX_DECIMALS || reads_back(x, from) {
        from
    } else {
        decimals_of(x, from + 1)
    }
}

/// Seconds with as many decimals as it takes to tell the number from every
/// other.
pub open spec fn plain_seconds(m: Mean) -> Seq<char> {
    let x = m.seconds_spec();
    let digits = decimals_of(x, 0);
    let unit = power_of_ten(digits);
    let n = units_of(x, unit);
    if n % unit == 0 {
        decimal((n / unit) as nat)
    } else {
        decimal((n / unit) as nat) + "."@ + fraction_text(n % unit, digits)
    }
}

fn push_fraction(s: &mut String, part: u128, digits: u32, unit: u128)
    requires
        digits > 0,
        unit == power_of_ten((digits - 1) as nat),
        part < 10 * unit,
    ensures
        final(s)@ == old(s)@ + fraction_text(part as int, digits as nat),
    decreases digits,
{
    let ghost before = s@;
    if part == 0 {
        assert(s@ =~= before + fraction_text(0, digits as nat));
        return;
    }
    proof {
        lemma_power(digits as nat);
    }
    let d: u128 = part / unit;
    assert(d < 10) by (nonlinear_arith)
        requires
            unit > 0,
            part < 10 * unit,
            d == part / unit,
    ;
    let c: char = (48u8 + d as u8) as char;
    assert(c == crate::text::digit(d as nat));
    s.push(c);
    let rest: u128 = part % unit;
    let ghost pushed = s@;
    if digits > 1 {
        assert(unit / 10 == power_of_ten((digits - 2) as nat)) by {
            assert(unit as int == 10 * power_of_ten((digits - 2) as nat));
        }
        push_fraction(s, rest, digits - 1, unit / 10);
    } else {
        assert(fraction_text(rest as int, 0) =~= Seq::<char>::empty());
        assert(pushed + Seq::<char>::empty() =~= pushed);
    }
    assert(s@ == pushed + fraction_text(rest as int, (digits - 1) as nat));
    assert(fraction_text(part as int, digits as nat) == seq![c] + fraction_text(
        rest as int,
        (digits - 1) as nat,
    ));
    assert(s@ =~= before + fraction_text(part as int, digits as nat));
}

proof fn lemma_power(n: nat)
    ensures
        power_of_ten(n) > 0,
        n > 0 ==> power_of_ten((n - 1) as nat) > 0,
    decreases n,
{
    if n > 0 {
        lemma_power((n - 1) as nat);
    }
}

fn same_number(x: Double, y: Double) -> (r: bool)
    requires
        -1000 <= x.exponent <= 1000,
        -1000 <= y.exponent <= 1000,
    ensures
        r == (normal(x@) == normal(y@)),
{
    let (m, e): (u64, i32) = if x.mantissa as u128 == MANTISSA_END {
        (MANTISSA_MIN as u64, x.exponent + 1)
    } else {
        (x.mantissa, x.exponent)
    };
    let (n, f): (u64, i32) = if y.mantissa as u128 == MANTISSA_END {
        (MANTISSA_MIN as u64, y.exponent + 1)
    } else {
        (y.mantissa, y.exponent)
    };
    m == n && e == f
}

fn push_plain_seconds(s: &mut String, m: Mean)
    requires
        m.wf(),
    ensures
        final(s)@ == old(s)@ + plain_seconds(m),
{
    let ghost before = s@;
    let x = m.seconds();
    let mut digits: u32 = 0;
    let mut unit: u128 = 1;
    let mut n: u128 = x.to_fine_units(1);
    proof {
        lemma_largest_power();
    }
    while digits < MAX_DECIMALS && !same_number(
        Double::nearest_to(
            n,
            unit,
        ),
        x,
    )
        invariant
            x.wf(),
            -126 <= x.exponent <= 0,
            digits <= MAX_DECIMALS,
            unit == power_of_ten(digits as nat),
            0 < unit <= LARGEST_UNIT,
            n == units_of(x@, unit as int),
            n <= x.mantissa * unit,
            n <= NUMERATOR_MAX,
            decimals_of(x@, 0) == decimals_of(x@, digits as nat),
            power_of_ten(MAX_DECIMALS as nat) == LARGEST_UNIT,
        decreases MAX_DECIMALS - digits,
    {
        proof {
            lemma_powers_grow((digits + 1) as nat, MAX_DECIMALS as nat);
        }
        digits = digits + 1;
        unit = unit * 10;
        n = x.to_fine_units(unit);
        assert(n <= NUMERATOR_MAX) by (nonlinear_arith)
            requires
                n <= x.mantissa * unit,
                x.mantissa <= MANTISSA_END,
                0 < unit <= LARGEST_UNIT,
        ;
    }
    push_wide(s, n / unit);
    let part: u128 = n % unit;
    if part > 0 {
        s.append(".");
        push_fraction(s, part, digits, unit / 10);
    }
    assert(s@ =~= before + plain_seconds(m));
}

proof fn lemma_powers_grow(n: nat, top: nat)
    requires
        n <= top,
    ensures
        0 < power_of_ten(n) <= power_of_ten(top),
    decreases top - n,
{
    lemma_power(n);
    lemma_power(top);
    if n < top {
        lemma_powers_grow(n + 1, top);
    }
}

proof fn lemma_largest_power()
    ensures
        power_of_ten(MAX_DECIMALS as nat) == LARGEST_UNIT,
{
    reveal_with_fuel(power_of_ten, 22);
}

/// A CSV row.
pub open spec fn csv_row(p: Proxy) -> Seq<char> {
    ip_text(p.ip) + ","@ + decimal(p.port as nat) + ","@ + protocol_word(first_protocol(p)) + ","@
        + level_word(p) + ","@ + shown_text(p.geo.iso_code, Seq::empty()) + ","@ + ip_type_word(
        p.geo.ip_type,
    ) + ","@ + optional_number(p.geo.asn) + ","@ + plain_seconds(average(p.runtimes))
}

fn optional_text(t: &Option<String>) -> (s: String)
    ensures
        s@ == shown_text(*t, Seq::empty()),
{
    match t {
        Some(text) => copy_str(text.as_str()),
        None => String::new(),
    }
}

/// A number that may be missing.
pub open spec fn optional_number(n: Option<u32>) -> Seq<char> {
    match n {
        Some(n) => decimal(n as nat),
        None => Seq::empty(),
    }
}

fn number_text(n: Option<u32>) -> (s: String)
    ensures
        s@ == optional_number(n),
{
    let mut s = String::new();
    if let Some(n) = n {
        push_decimal(&mut s, n as u64);
    }
    assert(s@ =~= optional_number(n));
    s
}

fn write_csv_row(proxy: &Proxy) -> (s: String)
    requires
        proxy.wf(),
    ensures
        s@ == csv_row(*proxy),
{
    let mut s = proxy.ip.to_text();
    s.append(",");
    push_decimal(&mut s, proxy.port as u64);
    s.append(",");
    s.append(protocol_of(proxy).as_str());
    s.append(",");
    s.append(anonymity_of(proxy));
    s.append(",");
    s.append(optional_text(&proxy.geo.iso_code).as_str());
    s.append(",");
    s.append(ip_type_of(proxy));
    s.append(",");
    s.append(number_text(proxy.geo.asn).as_str());
    s.append(",");
    push_plain_seconds(&mut s, proxy.avg_response_time());
    s
}

/// The scheme in front of a proxy.
pub open spec fn scheme_word(t: Option<Protocol>) -> Seq<char> {
    match t {
        Some(Protocol::Https(_)) => "https"@,
        Some(Protocol::Socks4) => "socks4"@,
        Some(Protocol::Socks5) => "socks5"@,
        _ => "http"@,
    }
}

fn prefix_scheme(proxy: &Proxy) -> (s: &'static str)
    ensures
        s@ == scheme_word(first_type(*proxy)),
{
    if proxy.proxy_types.len() == 0 {
        return "http";
    }
    match proxy.proxy_types[0].protocol {
        Protocol::Https(_) => "https",
        Protocol::Socks4 => "socks4",
        Protocol::Socks5 => "socks5",
        _ => "http",
    }
}

/// The type of a proxy in a proxychains list.
pub open spec fn chain_word(t: Option<Protocol>) -> Seq<char> {
    match t {
        Some(Protocol::Socks4) => "socks4"@,
        Some(Protocol::Socks5) => "socks5"@,
        _ => "http"@,
    }
}

fn proxychains_type(proxy: &Proxy) -> (s: &'static str)
    ensures
        s@ == chain_word(first_type(*proxy)),
{
    if proxy.proxy_types.len() == 0 {
        return "http";
    }
    match proxy.proxy_types[0].protocol {
        Protocol::Socks4 => "socks4",
        Protocol::Socks5 => "socks5",
        _ => "http",
    }
}

/// A proxy as a line of a format that is plain text.
pub open spec fn export_line(format: Seq<char>, p: Proxy) -> Seq<char> {
    if format == "text"@ {
        p.as_text_spec()
    } else if format == "csv"@ {
        csv_row(p)
    } else if format == "prefix"@ {
        scheme_word(first_type(p)) + "://"@ + ip_text(p.ip) + ":"@ + decimal(p.port as nat)
    } else if format == "proxychains"@ {
        chain_word(first_type(p)) + " "@ + ip_text(p.ip) + " "@ + decimal(p.port as nat)
    } else {
        proxy_line(p)
    }
}

/// Proxies as lines of a format.
pub open spec fn export_lines(format: Seq<char>, proxies: Seq<Proxy>) -> Seq<char>
    decreases proxies.len(),
{
    if proxies.len() == 0 {
        Seq::empty()
    } else {
        export_lines(format, proxies.drop_last()) + export_line(format, proxies.last()) + "\n"@
    }
}

/// How an export is written.
pub enum Rendering {
    /// As this text.
    Text(String),
    /// As one JSON document and a line end.
    Json,
    /// As one indented JSON document and a line end.
    PrettyJson,
    /// As one JSON document on each line.
    JsonLines,
    /// Not at all: the format is not available here.
    PacUnavailable,
}

/// What is said of a format that is not available.
pub const PAC_UNAVAILABLE: &'static str = "pac export is not available from the TUI yet; use `flx find -f pac -o proxy.pac`";

/// Whether a rendering is the one of a format.
pub open spec fn rendered(r: Rendering, format: Seq<char>, proxies: Seq<Proxy>) -> bool {
    if format == "pac"@ {
        r is PacUnavailable
    } else if format == "json"@ {
        r is Json
    } else if format == "pretty-json"@ {
        r is PrettyJson
    } else if format == "json-lines"@ {
        r is JsonLines
    } else {
        r matches Rendering::Text(t) && t@ == (if format == "csv"@ {
            CSV_HEADER@ + "\n"@
        } else {
            Seq::empty()
        }) + export_lines(format, proxies)
    }
}

fn push_line(s: &mut String, format: &str, proxy: &Proxy)
    requires
        proxy.wf(),
    ensures
        final(s)@ == old(s)@ + export_line(format@, *proxy) + "\n"@,
{
    let ghost before = s@;
    if same(format, "text") {
        s.append(proxy.as_text());
    } else if same(format, "csv") {
        s.append(write_csv_row(proxy).as_str());
    } else if same(format, "prefix") {
        s.append(prefix_scheme(proxy));
        s.append("://");
        proxy.ip.push_text(s);
        s.append(":");
        push_decimal(s, proxy.port as u64);
    } else if same(format, "proxychains") {
        s.append(proxychains_type(proxy));
        s.append(" ");
        proxy.ip.push_text(s);
        s.append(" ");
        push_decimal(s, proxy.port as u64);
    } else {
        s.append(proxy.to_text().as_str());
    }
    assert(s@ =~= before + export_line(format@, *proxy));
    s.append("\n");
}

/// Renders `proxies` for an output path with an extension.
pub fn write(format: &str, extension: Option<&str>, proxies: &Vec<Proxy>) -> (r: Rendering)
    requires
        forall|i: int| 0 <= i < proxies@.len() ==> (#[trigger] proxies@[i]).wf(),
    ensures
        rendered(
            r,
            inferred(
                format@,
                match extension {
                    Some(e) => Some(e@),
                    None => None,
                },
            ),
            proxies@,
        ),
{
    let format = infer_format(format, extension);
    let f = format.as_str();
    proof {
        reveal_strlit("pac");
        reveal_strlit("json");
        reveal_strlit("csv");
    }
    if same(f, "pac") {
        return Rendering::PacUnavailable;
    }
    if same(f, "json") {
        return Rendering::Json;
    }
    if same(f, "pretty-json") {
        return Rendering::PrettyJson;
    }
    if same(f, "json-lines") {
        return Rendering::JsonLines;
    }
    let mut s = String::new();
    if same(f, "csv") {
        s.append(CSV_HEADER);
        s.append("\n");
    }
    let ghost head = s@;
    assert(s@ =~= (if format@ == "csv"@ {
        CSV_HEADER@ + "\n"@
    } else {
        Seq::empty()
    }));
    let mut i: usize = 0;
    assert(proxies@.take(0) =~= Seq::<Proxy>::empty());
    assert(s@ =~= head + export_lines(format@, proxies@.take(0)));
    while i < proxies.len()
        invariant
            i <= proxies.len(),
            f@ == format@,
            s@ == head + export_lines(format@, proxies@.take(i as int)),
            forall|j: int| 0 <= j < proxies@.len() ==> (#[trigger] proxies@[j]).wf(),
        decreases proxies.len() - i,
    {
        assert(proxies@[i as int].wf());
        assert(proxies@.take(i + 1).drop_last() =~= proxies@.take(i as int));
        let ghost before = s@;
        push_line(&mut s, f, &proxies[i]);
        assert(s@ =~= head + export_lines(format@, proxies@.take(i + 1)));
        i += 1;
    }
    assert(proxies@.take(proxies.len() as int) =~= proxies@);
    Rendering::Text(s)
}

proof fn lemma_no_comma_in_words(p: Proxy)
    ensures
        !protocol_word(first_protocol(p)).contains(','),
        !level_word(p).contains(','),
        !ip_type_word(p.geo.ip_type).contains(','),
{
    reveal_strlit("http");
    reveal_strlit("https");
    reveal_strlit("socks4");
    reveal_strlit("socks5");
    reveal_strlit("connect:");
    reveal_strlit("unknown");
    reveal_strlit("elite");
    reveal_strlit("anonymous");
    reveal_strlit("transparent");
    reveal_strlit("residential");
    reveal_strlit("datacenter");
    reveal_strlit("mobile");
    if let Some(Protocol::Connect(port)) = first_protocol(p) {
        crate::text::digits_are_no_marks(port as nat, ',');
    }
}

proof fn lemma_no_comma_in_fraction(part: int, digits: nat)
    ensures
        0 <= part < power_of_ten(digits) ==> !fraction_text(part, digits).contains(','),
    decreases digits,
{
    if digits > 0 && 0 < part < power_of_ten(digits) {
        let unit = power_of_ten((digits - 1) as nat);
        lemma_power(digits);
        assert(0 <= part / unit < 10 && 0 <= part % unit < unit) by (nonlinear_arith)
            requires
                unit > 0,
                0 < part < 10 * unit,
        ;
        lemma_no_comma_in_fraction(part % unit, (digits - 1) as nat);
        let rest = fraction_text(part % unit, (digits - 1) as nat);
        let s = fraction_text(part, digits);
        assert(s == seq![crate::text::digit((part / unit) as nat)] + rest);
        if s.contains(',') {
            let i = choose|i: int| 0 <= i < s.len() && s[i] == ',';
            if i > 0 {
                assert(rest[i - 1] == ',');
                assert(rest.contains(','));
            }
        }
    }
}

proof fn lemma_no_comma_in_seconds(m: Mean)
    requires
        m.wf(),
    ensures
        !plain_seconds(m).contains(','),
{
    let x = m.seconds_spec();
    let digits = decimals_of(x, 0);
    let unit = power_of_ten(digits);
    let n = units_of(x, unit);
    lemma_power(digits);
    assert(0 <= n % unit < unit) by (nonlinear_arith)
        requires
            unit > 0,
    ;
    crate::text::digits_are_no_marks((n / unit) as nat, ',');
    lemma_no_comma_in_fraction(n % unit, digits);
    reveal_strlit(".");
    let whole = decimal((n / unit) as nat);
    let rest = fraction_text(n % unit, digits);
    let s = whole + "."@ + rest;
    if s.contains(',') {
        let i = choose|i: int| 0 <= i < s.len() && s[i] == ',';
        if i < whole.len() {
            assert(whole[i] == ',');
        } else if i > whole.len() {
            assert(rest[i - whole.len() - 1] == ',');
            assert(rest.contains(','));
        }
    }
}

/// The names of the CSV columns.
pub proof fn csv_columns_have_their_names()
    ensures
        fields(CSV_HEADER@, ',') == seq![
            "ip"@,
            "port"@,
            "protocol"@,
            "anonymity"@,
            "country"@,
            "ip_type"@,
            "asn"@,
            "average_response_time"@,
        ],
{
    reveal_strlit("ip,port,protocol,anonymity,country,ip_type,asn,average_response_time");
    reveal_strlit("ip");
    reveal_strlit("port");
    reveal_strlit("protocol");
    reveal_strlit("anonymity");
    reveal_strlit("country");
    reveal_strlit("ip_type");
    reveal_strlit("asn");
    reveal_strlit("average_response_time");
    let comma = seq![','];
    let v = seq![
        "ip"@,
        "port"@,
        "protocol"@,
        "anonymity"@,
        "country"@,
        "ip_type"@,
        "asn"@,
        "average_response_time"@,
    ];
    lemma_eight_joined(v, comma);
    assert(CSV_HEADER@ =~= joined(v, comma));
    joined_texts_split_again(v, ',');
}

proof fn lemma_eight_joined(v: Seq<Seq<char>>, sep: Seq<char>)
    requires
        v.len() == 8,
    ensures
        joined(v, sep) == v[0] + sep + v[1] + sep + v[2] + sep + v[3] + sep + v[4] + sep + v[5]
            + sep + v[6] + sep + v[7],
{
    let v7 = v.drop_last();
    let v6 = v7.drop_last();
    let v5 = v6.drop_last();
    let v4 = v5.drop_last();
    let v3 = v4.drop_last();
    let v2 = v3.drop_last();
    let v1 = v2.drop_last();
    assert(joined(v1, sep) == v[0]);
    assert(joined(v2, sep) == v[0] + sep + v[1]);
    assert(joined(v3, sep) == v[0] + sep + v[1] + sep + v[2]);
    assert(joined(v4, sep) == v[0] + sep + v[1] + sep + v[2] + sep + v[3]);
    assert(joined(v5, sep) == v[0] + sep + v[1] + sep + v[2] + sep + v[3] + sep + v[4]);
    assert(joined(v6, sep) == v[0] + sep + v[1] + sep + v[2] + sep + v[3] + sep + v[4] + sep
        + v[5]);
    assert(joined(v7, sep) == v[0] + sep + v[1] + sep + v[2] + sep + v[3] + sep + v[4] + sep
        + v[5] + sep + v[6]);
}

/// Split at its commas, a CSV row has a field under each name of the header:
/// the address, the port, the protocol, the best level, the country code, the
/// class, the number of the network and the mean response time.
pub proof fn csv_fields_stand_under_their_names(p: Proxy)
    requires
        p.wf(),
        p.geo.iso_code matches Some(code) ==> !code@.contains(','),
    ensures
        ({
            let names = fields(CSV_HEADER@, ',');
            let row = fields(csv_row(p), ',');
            &&& row.len() == names.len() == 8
            &&& names[0] == "ip"@ && row[0] == ip_text(p.ip)
            &&& names[1] == "port"@ && row[1] == decimal(p.port as nat)
            &&& names[2] == "protocol"@ && row[2] == protocol_word(first_protocol(p))
            &&& names[3] == "anonymity"@ && row[3] == level_word(p)
            &&& names[4] == "country"@ && row[4] == match p.geo.iso_code {
                Some(code) => code@,
                None => Seq::empty(),
            }
            &&& names[5] == "ip_type"@ && row[5] == match p.geo.ip_type {
                IpType::Residential => "residential"@,
                IpType::Datacenter => "datacenter"@,
                IpType::Mobile => "mobile"@,
                IpType::Unknown => "unknown"@,
            }
            &&& names[6] == "asn"@ && row[6] == match p.geo.asn {
                Some(n) => decimal(n as nat),
                None => Seq::empty(),
            }
            &&& names[7] == "average_response_time"@ && row[7] == plain_seconds(
                average(p.runtimes),
            )
        }),
{
    csv_columns_have_their_names();
    reveal_strlit(",");
    assert(","@ =~= seq![',']);
    let v = seq![
        ip_text(p.ip),
        decimal(p.port as nat),
        protocol_word(first_protocol(p)),
        level_word(p),
        shown_text(p.geo.iso_code, Seq::empty()),
        ip_type_word(p.geo.ip_type),
        optional_number(p.geo.asn),
        plain_seconds(average(p.runtimes)),
    ];
    lemma_eight_joined(v, seq![',']);
    assert(csv_row(p) == joined(v, seq![',']));
    lemma_no_comma_in_words(p);
    crate::proxy::models::lemma_average_between(p.runtimes);
    lemma_no_comma_in_seconds(average(p.runtimes));
    crate::text::digits_are_no_marks(p.port as nat, ',');
    crate::text::digits_are_no_marks(p.ip.a as nat, ',');
    crate::text::digits_are_no_marks(p.ip.b as nat, ',');
    crate::text::digits_are_no_marks(p.ip.c as nat, ',');
    crate::text::digits_are_no_marks(p.ip.d as nat, ',');
    if let Some(n) = p.geo.asn {
        crate::text::digits_are_no_marks(n as nat, ',');
    }
    lemma_cells_hold_no_comma(v, p);
    joined_texts_split_again(v, ',');
}

proof fn lemma_cells_hold_no_comma(v: Seq<Seq<char>>, p: Proxy)
    requires
        v.len() == 8,
        forall|j: int| 0 <= j < v[1].len() ==> #[trigger] v[1][j] != ',',
        v[0] == ip_text(p.ip),
        forall|j: int| 0 <= j < decimal(p.ip.a as nat).len() ==> (#[trigger] decimal(p.ip.a as nat)[j]) != ',',
        forall|j: int| 0 <= j < decimal(p.ip.b as nat).len() ==> (#[trigger] decimal(p.ip.b as nat)[j]) != ',',
        forall|j: int| 0 <= j < decimal(p.ip.c as nat).len() ==> (#[trigger] decimal(p.ip.c as nat)[j]) != ',',
        forall|j: int| 0 <= j < decimal(p.ip.d as nat).len() ==> (#[trigger] decimal(p.ip.d as nat)[j]) != ',',
        !v[2].contains(','),
        !v[3].contains(','),
        !v[4].contains(','),
        !v[5].contains(','),
        forall|j: int| 0 <= j < v[6].len() ==> #[trigger] v[6][j] != ',',
        !v[7].contains(','),
    ensures
        forall|i: int, j: int|
            0 <= i < v.len() && 0 <= j < v[i].len() ==> (#[trigger] v[i][j]) != ',',
{
    assert(!v[0].contains(',')) by {
        let s = ip_text(p.ip);
        assert(forall|j: int| 0 <= j < s.len() ==> s[j] != ',');
    }
    assert forall|i: int, j: int| 0 <= i < v.len() && 0 <= j < v[i].len() implies (
    #[trigger] v[i][j]) != ',' by {
        if i == 0 || i == 2 || i == 3 || i == 4 || i == 5 || i == 7 {
            if v[i][j] == ',' {
                assert(v[i].contains(','));
            }
        }
    }
}

/// A protocol is written under its own word: that of the first validated type,
/// or else of the first advertised one.
pub proof fn protocols_have_their_words(p: Proxy, t: Protocol)
    requires
        p.proxy_types@.len() > 0 ==> p.proxy_types@[0].protocol == t,
        p.proxy_types@.len() == 0 ==> p.expected_types@.len() > 0 && p.expected_types@[0] == t,
    ensures
        t is Http ==> protocol_word(first_protocol(p)) == "http"@,
        t is Https ==> protocol_word(first_protocol(p)) == "https"@,
        t is Socks4 ==> protocol_word(first_protocol(p)) == "socks4"@,
        t is Socks5 ==> protocol_word(first_protocol(p)) == "socks5"@,
        t matches Protocol::Connect(port) ==> protocol_word(first_protocol(p)) == "connect:"@
            + decimal(port as nat),
{
}

/// The word for a level is that of the best level among the validated types.
pub proof fn levels_have_their_words(p: Proxy, k: int)
    requires
        0 <= k < p.proxy_types@.len(),
        forall|j: int|
            0 <= j < p.proxy_types@.len() && level_of((#[trigger] p.proxy_types@[j]).protocol)
                is Some ==> rank_of(level_of(p.proxy_types@[j].protocol)->0) <= 2,
    ensures
        level_of(p.proxy_types@[k].protocol) == Some(Anonymity::Elite) ==> level_word(p)
            == "elite"@,
        level_of(p.proxy_types@[k].protocol) == Some(Anonymity::Anonymous) ==> level_word(p)
            == "anonymous"@ || level_word(p) == "elite"@,
        level_word(p) == "elite"@ ==> exists|j: int|
            0 <= j < p.proxy_types@.len() && level_of((#[trigger] p.proxy_types@[j]).protocol)
                == Some(Anonymity::Elite),
        level_word(p) == "anonymous"@ ==> exists|j: int|
            0 <= j < p.proxy_types@.len() && level_of((#[trigger] p.proxy_types@[j]).protocol)
                == Some(Anonymity::Anonymous),
{
    best_level_is_the_best(p.proxy_types@);
    reveal_strlit("elite");
    reveal_strlit("anonymous");
    reveal_strlit("transparent");
    reveal_strlit("unknown");
    assert("elite"@.len() == 5 && "anonymous"@.len() == 9 && "transparent"@.len() == 11
        && "unknown"@.len() == 7);
}

/// Every proxy is exported on a line of its own, in order.
pub proof fn every_proxy_is_exported(format: Seq<char>, a: Seq<Proxy>, p: Proxy, b: Seq<Proxy>)
    ensures
        export_lines(format, a + b) == export_lines(format, a) + export_lines(format, b),
        export_lines(format, seq![p]) == export_line(format, p) + "\n"@,
        export_lines(format, Seq::empty()) == Seq::<char>::empty(),
    decreases b.len(),
{
    let one = seq![p];
    assert(one.drop_last() =~= Seq::<Proxy>::empty());
    assert(export_lines(format, one.drop_last()) =~= Seq::<char>::empty());
    assert(one.last() == p);
    assert(export_lines(format, one) =~= export_line(format, p) + "\n"@);
    if b.len() == 0 {
        assert(a + b =~= a);
        assert(export_lines(format, a) + export_lines(format, b) =~= export_lines(format, a));
    } else {
        every_proxy_is_exported(format, a, p, b.drop_last());
        assert((a + b).drop_last() =~= a + b.drop_last());
        assert((a + b).last() == b.last());
        assert(export_lines(format, a + b) =~= export_lines(format, a) + export_lines(format, b));
    }
}

proof fn lemma_formats_differ()
    ensures
        "text"@ != "csv"@ && "text"@ != "prefix"@ && "text"@ != "proxychains"@,
        "csv"@ != "prefix"@ && "csv"@ != "proxychains"@ && "prefix"@ != "proxychains"@,
        "default"@ != "text"@ && "default"@ != "csv"@ && "default"@ != "prefix"@ && "default"@
            != "proxychains"@,
{
    reveal_strlit("text");
    reveal_strlit("csv");
    reveal_strlit("prefix");
    reveal_strlit("proxychains");
    reveal_strlit("default");
    assert("text"@.len() == 4 && "csv"@.len() == 3 && "prefix"@.len() == 6 && "proxychains"@.len()
        == 11 && "default"@.len() == 7);
}

/// What is exported as text, or with its scheme in front, is read again as the
/// endpoint that it was.
pub proof fn exports_read_back(p: Proxy)
    requires
        p.wf(),
    ensures
        pair_of(export_line("text"@, p)) == Some((p.ip, p.port)),
        pair_of(export_line("prefix"@, p)) == Some((p.ip, p.port)),
{
    lemma_formats_differ();
    let none = Seq::<char>::empty();
    let e = endpoint_text(p.ip, p.port);
    endpoints_are_found_in_their_line(none, p.ip, p.port, none, none);
    assert(none + e + none + none =~= e);
    let word = scheme_word(first_type(p));
    let scheme = word + "://"@;
    reveal_strlit("://");
    reveal_strlit("http");
    reveal_strlit("https");
    reveal_strlit("socks4");
    reveal_strlit("socks5");
    assert(forall|i: int| 0 <= i < scheme.len() ==> !ends_head(#[trigger] scheme[i]));
    endpoints_are_found_in_their_line(scheme, p.ip, p.port, none, none);
    assert(scheme + e + none + none =~= export_line("prefix"@, p));
}

/// The scheme in front of a proxy, and its type in a proxychains list, are those
/// of its first validated type; a proxychains line has the type, the address
/// and the port, between blanks.
pub proof fn exported_types_are_the_first(p: Proxy, t: Protocol)
    requires
        p.proxy_types@.len() > 0,
        p.proxy_types@[0].protocol == t,
    ensures
        ({
            let chain = if t is Socks4 {
                "socks4"@
            } else if t is Socks5 {
                "socks5"@
            } else {
                "http"@
            };
            let scheme = if t is Https {
                "https"@
            } else {
                chain
            };
            let e = ip_text(p.ip) + ":"@ + decimal(p.port as nat);
            &&& fields(export_line("proxychains"@, p), ' ') == seq![
                chain,
                ip_text(p.ip),
                decimal(p.port as nat),
            ]
            &&& export_line("prefix"@, p) == scheme + ("://"@ + e)
        }),
{
    lemma_formats_differ();
    reveal_strlit("http");
    reveal_strlit("https");
    reveal_strlit("socks4");
    reveal_strlit("socks5");
    reveal_strlit(" ");
    assert(" "@ =~= seq![' ']);
    let chain = chain_word(first_type(p));
    let v = seq![chain, ip_text(p.ip), decimal(p.port as nat)];
    let v2 = v.drop_last();
    let v1 = v2.drop_last();
    let sep = seq![' '];
    assert(joined(v1, sep) == v[0]);
    assert(joined(v2, sep) == v[0] + sep + v[1]);
    assert(joined(v, sep) == v[0] + sep + v[1] + sep + v[2]);
    crate::text::digits_are_no_marks(p.port as nat, ' ');
    crate::text::digits_are_no_marks(p.ip.a as nat, ' ');
    crate::text::digits_are_no_marks(p.ip.b as nat, ' ');
    crate::text::digits_are_no_marks(p.ip.c as nat, ' ');
    crate::text::digits_are_no_marks(p.ip.d as nat, ' ');
    let address = ip_text(p.ip);
    assert(forall|j: int| 0 <= j < address.len() ==> address[j] != ' ');
    joined_texts_split_again(v, ' ');
    assert(export_line("prefix"@, p) =~= scheme_word(first_type(p)) + ("://"@ + (ip_text(p.ip)
        + ":"@ + decimal(p.port as nat))));
}

/// A format that is named is used; the default one goes by the extension of the
/// output, where that says one.
pub proof fn formats_are_found(format: Seq<char>, extension: Option<Seq<char>>)
    ensures
        format != "default"@ ==> inferred(format, extension) == format,
        inferred("default"@, Some("json"@)) == "json"@,
        inferred("default"@, Some("jsonl"@)) == "json-lines"@,
        inferred("default"@, Some("csv"@)) == "csv"@,
        inferred("default"@, Some("pac"@)) == "pac"@,
        inferred("default"@, Some("txt"@)) == "text"@,
        inferred("default"@, None) == "default"@,
        extension is Some && extension->0 != "json"@ && extension->0 != "jsonl"@ && extension->0
            != "csv"@ && extension->0 != "pac"@ && extension->0 != "txt"@ ==> inferred(
            "default"@,
            extension,
        ) == "default"@,
{
    reveal_strlit("json");
    reveal_strlit("jsonl");
    reveal_strlit("csv");
    reveal_strlit("pac");
    reveal_strlit("txt");
    assert("json"@.len() == 4 && "jsonl"@.len() == 5 && "csv"@.len() == 3 && "pac"@.len() == 3
        && "txt"@.len() == 3);
    assert("csv"@[0] != "pac"@[0] && "csv"@[0] != "txt"@[0] && "pac"@[0] != "txt"@[0]);
}

/// An export in CSV begins with the header, and every other text with its first
/// proxy.
pub proof fn only_csv_has_a_header(r: Rendering, format: Seq<char>, proxies: Seq<Proxy>)
    requires
        rendered(r, format, proxies),
    ensures
        r matches Rendering::Text(t) ==> {
            &&& format == "csv"@ ==> t@ == CSV_HEADER@ + "\n"@ + export_lines(format, proxies)
            &&& format != "csv"@ ==> t@ == export_lines(format, proxies)
        },
        r is Text <==> format != "pac"@ && format != "json"@ && format != "pretty-json"@ && format
            != "json-lines"@,
        r is PacUnavailable <==> format == "pac"@,
        r is Json <==> format == "json"@,
        r is PrettyJson <==> format == "pretty-json"@,
        r is JsonLines <==> format == "json-lines"@,
{
    reveal_strlit("pac");
    reveal_strlit("json");
    reveal_strlit("pretty-json");
    reveal_strlit("json-lines");
    assert("pac"@.len() == 3 && "json"@.len() == 4 && "pretty-json"@.len() == 11
        && "json-lines"@.len() == 10);
    if let Rendering::Text(t) = r {
        assert(Seq::<char>::empty() + export_lines(format, proxies) =~= export_lines(
            format,
            proxies,
        ));
    }
}

/// A number is written with the fewest decimals that tell it from every other.
pub proof fn no_decimal_is_spared_or_wasted(x: (int, int), from: nat, fewer: nat)
    requires
        from <= fewer < decimals_of(x, from),
    ensures
        !reads_back(x, fewer),
        decimals_of(x, from) <= 21,
        reads_back(x, decimals_of(x, from)) || decimals_of(x, from) == 21,
    decreases 21 - from,
{
    if from < 21 && !reads_back(x, from) {
        if fewer > from {
            no_decimal_is_spared_or_wasted(x, from + 1, fewer);
        } else {
            lemma_decimals(x, from);
        }
    }
}

proof fn lemma_decimals(x: (int, int), from: nat)
    requires
        from <= 21,
    ensures
        from <= decimals_of(x, from) <= 21,
        reads_back(x, decimals_of(x, from)) || decimals_of(x, from) == 21,
    decreases 21 - from,
{
    if from < 21 && !reads_back(x, from) {
        lemma_decimals(x, from + 1);
    }
}

} // verus!
