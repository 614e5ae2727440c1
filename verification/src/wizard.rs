//! The setup wizard: what it asks, what it makes of the answers, and the
//! settings it writes.

use crate::net::{lemma_fields_cons, lemma_fields_one};
use crate::providers::{all_providers, registry, Provider, ProxyProvider};
use crate::text::{
    chars_of, copy_str, copy_strings, decimal, decimal_reads_back, eq_ignore_case, fields, is_digit,
    is_space, join, joined, lemma_texts_push, list_contains, lower, lowered, parse_number,
    read_number, same, split, texts, trim_str, trimmed, trimming_takes_the_outer_blanks,
};
use vstd::prelude::*;

verus! {

/// The output format that goes without saying.
pub const DEFAULT_FORMAT: &'static str = "default";

/// The limit that goes without saying: none.
pub const DEFAULT_LIMIT: usize = 0;

/// Minutes that the cache stays fresh unless told otherwise.
pub const DEFAULT_CACHE_TTL: u64 = 15;

/// The proxy type that is validated unless told otherwise.
pub const DEFAULT_TYPE: &'static str = "HTTP";

/// Number of questions.
pub const QUESTION_COUNT: usize = 8;

/// The words that settings are checked against.
#[derive(Clone, Debug)]
pub struct Vocabulary {
    /// The output formats by name.
    pub formats: Vec<String>,
    /// The anonymity levels by name.
    pub levels: Vec<String>,
}

/// The answers, from questions or from the defaults.
#[derive(Clone, Debug, PartialEq)]
pub struct Answers {
    pub providers: Vec<String>,
    pub countries: Vec<String>,
    pub format: String,
    pub limit: usize,
    pub min_anonymity: Option<String>,
    pub types: Vec<String>,
    pub cache_ttl: u64,
    pub quiet: bool,
}

/// Answers as plain values.
#[verifier::ext_equal]
pub struct AnswersText {
    pub providers: Seq<Seq<char>>,
    pub countries: Seq<Seq<char>>,
    pub format: Seq<char>,
    pub limit: usize,
    pub min_anonymity: Option<Seq<char>>,
    pub types: Seq<Seq<char>>,
    pub cache_ttl: u64,
    pub quiet: bool,
}

/// The text of an optional string.
pub open spec fn text_of(s: Option<String>) -> Option<Seq<char>> {
    match s {
        Some(t) => Some(t@),
        None => None,
    }
}

/// The texts of an optional list.
pub open spec fn texts_of(v: Option<Vec<String>>) -> Option<Seq<Seq<char>>> {
    match v {
        Some(l) => Some(texts(l@)),
        None => None,
    }
}

impl View for Answers {
    type V = AnswersText;

    open spec fn view(&self) -> AnswersText {
        AnswersText {
            providers: texts(self.providers@),
            countries: texts(self.countries@),
            format: self.format@,
            limit: self.limit,
            min_anonymity: text_of(self.min_anonymity),
            types: texts(self.types@),
            cache_ttl: self.cache_ttl,
            quiet: self.quiet,
        }
    }
}

/// The answers that go without saying.
pub open spec fn default_answers() -> AnswersText {
    AnswersText {
        providers: Seq::empty(),
        countries: Seq::empty(),
        format: DEFAULT_FORMAT@,
        limit: DEFAULT_LIMIT,
        min_anonymity: None,
        types: seq![DEFAULT_TYPE@],
        cache_ttl: DEFAULT_CACHE_TTL,
        quiet: false,
    }
}

impl Default for Answers {
    fn default() -> (a: Self)
        ensures
            a@ == default_answers(),
    {
        let a = Answers {
            providers: Vec::new(),
            countries: Vec::new(),
            format: DEFAULT_FORMAT.to_owned(),
            limit: DEFAULT_LIMIT,
            min_anonymity: None,
            types: vec![DEFAULT_TYPE.to_owned()],
            cache_ttl: DEFAULT_CACHE_TTL,
            quiet: false,
        };
        assert(a@ =~= default_answers()) by {
            assert(texts(a.providers@) =~= Seq::<Seq<char>>::empty());
            assert(texts(a.countries@) =~= Seq::<Seq<char>>::empty());
            assert(texts(a.types@) =~= seq![DEFAULT_TYPE@]);
        }
        a
    }
}

/// The output formats, as a question lists them.
pub fn formats_hint(v: &Vocabulary) -> (s: String)
    ensures
        s@ == joined(texts(v.formats@), ", "@),
{
    join(&v.formats, ", ")
}

/// The anonymity levels, as a question lists them.
pub fn anonymity_hint(v: &Vocabulary) -> (s: String)
    ensures
        s@ == joined(texts(v.levels@), ", "@),
{
    join(&v.levels, ", ")
}

// ---------------------------------------------------------------------------
// Asking
// ---------------------------------------------------------------------------

/// A question as it is put to the user.
pub fn prompt(question: &str, default: &str) -> (s: String)
    ensures
        s@ == question@ + " ["@ + default@ + "]: "@,
{
    let mut s = copy_str(question);
    s.append(" [");
    s.append(default);
    s.append("]: ");
    s
}

/// The answer that a line gives: what it holds, or the default where it holds
/// nothing.
pub open spec fn answer(line: Seq<char>, default: Seq<char>) -> Seq<char> {
    if trimmed(line).len() == 0 {
        default
    } else {
        trimmed(line)
    }
}

/// The answer that a line gives.
pub fn ask(line: &str, default: &str) -> (r: String)
    ensures
        r@ == answer(line@, default@),
{
    let t = trim_str(line);
    if chars_of(t.as_str()).len() == 0 {
        copy_str(default)
    } else {
        t
    }
}

/// Whether an answer reads as a word, whatever its case.
pub open spec fn reads_as(s: Seq<char>, word: Seq<char>) -> bool {
    lowered(s) == lowered(word)
}

/// The words that mean yes.
pub open spec fn says_yes(s: Seq<char>) -> bool {
    reads_as(s, "y"@) || reads_as(s, "yes"@) || reads_as(s, "1"@) || reads_as(s, "true"@)
}

/// The words that mean no.
pub open spec fn says_no(s: Seq<char>) -> bool {
    reads_as(s, "n"@) || reads_as(s, "no"@) || reads_as(s, "0"@) || reads_as(s, "false"@)
}

/// The letter of an answer.
pub open spec fn letter(default: bool) -> Seq<char> {
    if default {
        "y"@
    } else {
        "n"@
    }
}

/// The answer that a line gives to a yes-or-no question: the default where it
/// is neither.
pub open spec fn agreed(line: Seq<char>, default: bool) -> bool {
    let a = answer(line, letter(default));
    if says_yes(a) {
        true
    } else if says_no(a) {
        false
    } else {
        default
    }
}

/// The answer that a line gives to a yes-or-no question.
pub fn ask_yn(line: &str, default: bool) -> (r: bool)
    ensures
        r == agreed(line@, default),
{
    let a = ask(
        line,
        if default {
            "y"
        } else {
            "n"
        },
    );
    let s = a.as_str();
    if eq_ignore_case(s, "y") || eq_ignore_case(s, "yes") || eq_ignore_case(s, "1")
        || eq_ignore_case(s, "true") {
        true
    } else if eq_ignore_case(s, "n") || eq_ignore_case(s, "no") || eq_ignore_case(s, "0")
        || eq_ignore_case(s, "false") {
        false
    } else {
        default
    }
}

/// The entries of a comma-separated list that hold something.
pub open spec fn entries(parts: Seq<Seq<char>>) -> Seq<Seq<char>>
    decreases parts.len(),
{
    if parts.len() == 0 {
        Seq::empty()
    } else {
        let before = entries(parts.drop_last());
        let last = trimmed(parts.last());
        if last.len() == 0 {
            before
        } else {
            before.push(last)
        }
    }
}

/// The entries of a comma-separated list.
pub open spec fn listed(s: Seq<char>) -> Seq<Seq<char>> {
    entries(fields(s, ','))
}

/// The entries of a comma-separated list, trimmed, without the empty ones.
pub fn split_list(s: &str) -> (r: Vec<String>)
    ensures
        texts(r@) == listed(s@),
{
    let cs = chars_of(s);
    let parts = split(cs.as_slice(), ',');
    let ghost all = texts(parts@);
    let mut r: Vec<String> = Vec::new();
    let mut i: usize = 0;
    assert(texts(r@) =~= entries(all.take(0)));
    while i < parts.len()
        invariant
            i <= parts.len(),
            all == texts(parts@),
            texts(r@) == entries(all.take(i as int)),
        decreases parts.len() - i,
    {
        proof {
            assert(all.take(i + 1).drop_last() =~= all.take(i as int));
            assert(all.take(i + 1).last() == parts@[i as int]@);
        }
        let t = trim_str(parts[i].as_str());
        if chars_of(t.as_str()).len() > 0 {
            proof {
                lemma_texts_push(r@, t);
            }
            r.push(t);
        }
        i += 1;
    }
    assert(all.take(all.len() as int) =~= all);
    r
}

/// The upper case of a text.
pub uninterp spec fn uppercase(s: Seq<char>) -> Seq<char>;

/// The ASCII upper case of a character; others stay.
pub open spec fn upper(c: char) -> char {
    if 'a' <= c <= 'z' {
        (c as u8 - 32) as char
    } else {
        c
    }
}

/// Whether a text is made of ASCII characters.
pub open spec fn is_ascii_text(s: Seq<char>) -> bool {
    forall|i: int| 0 <= i < s.len() ==> (#[trigger] s[i] as u32) < 128
}

/// `str::to_uppercase`: the upper-case equivalent of the text by Unicode's
/// mapping, a function of the text alone. For a text of ASCII characters it
/// exchanges the letters `a` to `z` and leaves the rest.
#[verifier::external_body]
fn to_uppercase(s: &str) -> (r: String)
    ensures
        r@ == uppercase(s@),
        is_ascii_text(s@) ==> r@ == s@.map_values(|c: char| upper(c)),
{
    s.to_uppercase()
}

/// The upper case of each text.
pub open spec fn uppercased(v: Seq<Seq<char>>) -> Seq<Seq<char>> {
    v.map_values(|s: Seq<char>| uppercase(s))
}

/// Whether texts are others in upper case, as far as those are ASCII.
pub open spec fn raised(upper_case: Seq<Seq<char>>, v: Seq<Seq<char>>) -> bool {
    &&& upper_case.len() == v.len()
    &&& forall|i: int|
        0 <= i < v.len() && is_ascii_text(#[trigger] v[i]) ==> upper_case[i] == v[i].map_values(
            |c: char| upper(c),
        )
}

fn raise(v: &Vec<String>) -> (r: Vec<String>)
    ensures
        texts(r@) == uppercased(texts(v@)),
        raised(texts(r@), texts(v@)),
{
    let mut r: Vec<String> = Vec::new();
    let mut i: usize = 0;
    assert(texts(r@) =~= uppercased(texts(v@)).take(0));
    while i < v.len()
        invariant
            i <= v.len(),
            texts(r@) == uppercased(texts(v@)).take(i as int),
            forall|j: int|
                0 <= j < i && is_ascii_text(#[trigger] texts(v@)[j]) ==> texts(r@)[j] == texts(
                    v@,
                )[j].map_values(|c: char| upper(c)),
        decreases v.len() - i,
    {
        let u = to_uppercase(v[i].as_str());
        proof {
            assert(texts(v@)[i as int] == v@[i as int]@);
            lemma_texts_push(r@, u);
            assert(uppercased(texts(v@))[i as int] == u@);
            assert(uppercased(texts(v@)).take(i + 1) =~= uppercased(texts(v@)).take(i as int).push(
                u@,
            ));
        }
        r.push(u);
        i += 1;
    }
    assert(uppercased(texts(v@)).take(v.len() as int) =~= uppercased(texts(v@)));
    r
}

// ---------------------------------------------------------------------------
// The questions
// ---------------------------------------------------------------------------

/// What a question says.
pub open spec fn question_text(i: int, formats: Seq<Seq<char>>, levels: Seq<Seq<char>>) -> Seq<
    char,
> {
    if i == 0 {
        "Providers to scrape, comma-separated ('all' = every provider)"@
    } else if i == 1 {
        "Country codes to keep, comma-separated ('all' = no filter)"@
    } else if i == 2 {
        "Output format ("@ + joined(formats, ", "@) + ")"@
    } else if i == 3 {
        "Maximum number of results (0 = unlimited)"@
    } else if i == 4 {
        "Minimum anonymity ("@ + joined(levels, ", "@) + "; 'none' = no filter)"@
    } else if i == 5 {
        "Proxy types to validate, comma-separated (e.g. HTTP, SOCKS5, HTTP:Elite)"@
    } else if i == 6 {
        "Cache freshness in minutes"@
    } else {
        "Suppress non-essential output"@
    }
}

/// What a question is answered with where nothing is typed.
pub open spec fn question_default(i: int) -> Seq<char> {
    if i == 0 || i == 1 {
        "all"@
    } else if i == 2 {
        "default"@
    } else if i == 3 {
        "0"@
    } else if i == 4 {
        "none"@
    } else if i == 5 {
        "HTTP"@
    } else if i == 6 {
        "15"@
    } else {
        "n"@
    }
}

fn default_of(i: usize) -> (s: &'static str)
    ensures
        s@ == question_default(i as int),
{
    if i == 0 || i == 1 {
        "all"
    } else if i == 2 {
        "default"
    } else if i == 3 {
        "0"
    } else if i == 4 {
        "none"
    } else if i == 5 {
        "HTTP"
    } else if i == 6 {
        "15"
    } else {
        "n"
    }
}

fn question(i: usize, v: &Vocabulary) -> (s: String)
    ensures
        s@ == question_text(i as int, texts(v.formats@), texts(v.levels@)),
{
    if i == 0 {
        "Providers to scrape, comma-separated ('all' = every provider)".to_owned()
    } else if i == 1 {
        "Country codes to keep, comma-separated ('all' = no filter)".to_owned()
    } else if i == 2 {
        let mut s = "Output format (".to_owned();
        s.append(formats_hint(v).as_str());
        s.append(")");
        s
    } else if i == 3 {
        "Maximum number of results (0 = unlimited)".to_owned()
    } else if i == 4 {
        let mut s = "Minimum anonymity (".to_owned();
        s.append(anonymity_hint(v).as_str());
        s.append("; 'none' = no filter)");
        s
    } else if i == 5 {
        "Proxy types to validate, comma-separated (e.g. HTTP, SOCKS5, HTTP:Elite)".to_owned()
    } else if i == 6 {
        "Cache freshness in minutes".to_owned()
    } else {
        "Suppress non-essential output".to_owned()
    }
}

/// Why the wizard stops.
#[derive(Clone, Debug, PartialEq, Eq)]
pub enum WizardError {
    LimitNotANumber,
    CacheTtlNotANumber,
    UnknownFormat(String),
    UnknownLevel(String),
    InvalidType(String),
    UnknownProvider(String),
    AlreadyExists(String),
}

/// What comes after the answers so far.
pub enum Turn {
    /// Ask this, and read a line.
    Ask(String),
    Done(Answers),
    Failed(WizardError),
}

/// What the line typed at a question answers.
pub open spec fn answered(lines: Seq<Seq<char>>, i: int) -> Seq<char> {
    answer(lines[i], question_default(i))
}

/// The entries of an answer, or none where it says to take them all.
pub open spec fn chosen(s: Seq<char>) -> Seq<Seq<char>> {
    if reads_as(s, "all"@) {
        Seq::empty()
    } else {
        listed(s)
    }
}

/// The least anonymity that an answer asks for.
pub open spec fn least_level(s: Seq<char>) -> Option<Seq<char>> {
    if reads_as(s, "none"@) {
        None
    } else {
        Some(s)
    }
}

/// Whether the answers so far hold something else than a number where one is
/// asked for.
pub open spec fn not_a_number(lines: Seq<Seq<char>>, i: int, max: nat) -> bool {
    lines.len() > i && read_number(answered(lines, i), max) is None
}

/// What the lines typed at all questions answer.
pub open spec fn answers_of(lines: Seq<Seq<char>>) -> AnswersText {
    AnswersText {
        providers: chosen(answered(lines, 0)),
        countries: uppercased(chosen(answered(lines, 1))),
        format: answered(lines, 2),
        limit: read_number(answered(lines, 3), usize::MAX as nat)->0 as usize,
        min_anonymity: least_level(answered(lines, 4)),
        types: uppercased(listed(answered(lines, 5))),
        cache_ttl: read_number(answered(lines, 6), u64::MAX as nat)->0 as u64,
        quiet: agreed(lines[7], false),
    }
}

/// Whether this is what comes after the lines typed so far: a limit or a cache
/// age that is no number ends the questions at once, and otherwise the next
/// question is asked until there is none.
pub open spec fn follows(
    turn: Turn,
    lines: Seq<Seq<char>>,
    formats: Seq<Seq<char>>,
    levels: Seq<Seq<char>>,
) -> bool {
    if not_a_number(lines, 3, usize::MAX as nat) {
        turn == Turn::Failed(WizardError::LimitNotANumber)
    } else if not_a_number(lines, 6, u64::MAX as nat) {
        turn == Turn::Failed(WizardError::CacheTtlNotANumber)
    } else if lines.len() < QUESTION_COUNT {
        let i = lines.len() as int;
        turn matches Turn::Ask(p) && p@ == question_text(i, formats, levels) + " ["@
            + question_default(i) + "]: "@
    } else {
        turn matches Turn::Done(a) && a@ == answers_of(lines)
    }
}

fn given(lines: &Vec<String>, i: usize) -> (r: String)
    requires
        i < lines@.len(),
    ensures
        r@ == answered(texts(lines@), i as int),
{
    assert(texts(lines@)[i as int] == lines@[i as int]@);
    ask(lines[i].as_str(), default_of(i))
}

fn choose_entries(s: &str) -> (r: Vec<String>)
    ensures
        texts(r@) == chosen(s@),
{
    if eq_ignore_case(s, "all") {
        let r: Vec<String> = Vec::new();
        assert(texts(r@) =~= Seq::<Seq<char>>::empty());
        r
    } else {
        split_list(s)
    }
}

/// What comes after the lines typed so far, one for each question that was
/// asked.
pub fn run_questions(lines: &Vec<String>, v: &Vocabulary) -> (turn: Turn)
    requires
        lines@.len() <= QUESTION_COUNT,
    ensures
        follows(turn, texts(lines@), texts(v.formats@), texts(v.levels@)),
        turn matches Turn::Done(a) ==> raised(
            a@.countries,
            chosen(answered(texts(lines@), 1)),
        ) && raised(a@.types, listed(answered(texts(lines@), 5))),
{
    let ghost typed = texts(lines@);
    assert(typed.len() == lines@.len());
    let mut limit: usize = 0;
    if lines.len() > 3 {
        let a = chars_of(given(lines, 3).as_str());
        match parse_number(a.as_slice(), usize::MAX as u64) {
            Some(n) => {
                limit = n as usize;
            },
            None => {
                return Turn::Failed(WizardError::LimitNotANumber);
            },
        }
    }
    let mut cache_ttl: u64 = 0;
    if lines.len() > 6 {
        let a = chars_of(given(lines, 6).as_str());
        match parse_number(a.as_slice(), u64::MAX) {
            Some(n) => {
                cache_ttl = n;
            },
            None => {
                return Turn::Failed(WizardError::CacheTtlNotANumber);
            },
        }
    }
    if lines.len() < QUESTION_COUNT {
        let i: usize = lines.len();
        return Turn::Ask(prompt(question(i, v).as_str(), default_of(i)));
    }
    let level = given(lines, 4);
    let min_anonymity = if eq_ignore_case(level.as_str(), "none") {
        None
    } else {
        Some(level)
    };
    let a = Answers {
        providers: choose_entries(given(lines, 0).as_str()),
        countries: raise(&choose_entries(given(lines, 1).as_str())),
        format: given(lines, 2),
        limit,
        min_anonymity,
        types: raise(&split_list(given(lines, 5).as_str())),
        cache_ttl,
        quiet: ask_yn(lines[7].as_str(), false),
    };
    assert(typed[7] == lines@[7]@);
    assert(a@ == answers_of(typed));
    Turn::Done(a)
}

// ---------------------------------------------------------------------------
// The settings
// ---------------------------------------------------------------------------

/// Settings for every command.
#[derive(Clone, Debug, PartialEq)]
pub struct GlobalSection {
    pub quiet: Option<bool>,
}

/// Settings for scraping.
#[derive(Clone, Debug, PartialEq)]
pub struct FetchSection {
    pub providers: Option<Vec<String>>,
    pub countries: Option<Vec<String>>,
    pub cache_ttl: Option<u64>,
}

/// Settings for the output.
#[derive(Clone, Debug, PartialEq)]
pub struct OutputSection {
    pub format: Option<String>,
    pub limit: Option<usize>,
    pub min_anonymity: Option<String>,
}

/// Settings for validation.
#[derive(Clone, Debug, PartialEq)]
pub struct ValidateSection {
    pub types: Option<Vec<String>>,
}

/// The settings of a file.
#[derive(Clone, Debug, PartialEq)]
pub struct FileConfig {
    pub global: Option<GlobalSection>,
    pub fetch: Option<FetchSection>,
    pub output: Option<OutputSection>,
    pub validate: Option<ValidateSection>,
}

/// The settings of a file as plain values.
#[verifier::ext_equal]
pub struct ConfigText {
    pub quiet: Option<Option<bool>>,
    pub fetch: Option<(Option<Seq<Seq<char>>>, Option<Seq<Seq<char>>>, Option<u64>)>,
    pub output: Option<(Option<Seq<char>>, Option<usize>, Option<Seq<char>>)>,
    pub types: Option<Option<Seq<Seq<char>>>>,
}

impl View for FileConfig {
    type V = ConfigText;

    open spec fn view(&self) -> ConfigText {
        ConfigText {
            quiet: match self.global {
                Some(g) => Some(g.quiet),
                None => None,
            },
            fetch: match self.fetch {
                Some(f) => Some((texts_of(f.providers), texts_of(f.countries), f.cache_ttl)),
                None => None,
            },
            output: match self.output {
                Some(o) => Some((text_of(o.format), o.limit, text_of(o.min_anonymity))),
                None => None,
            },
            types: match self.validate {
                Some(v) => Some(texts_of(v.types)),
                None => None,
            },
        }
    }
}

/// A list where it holds something.
pub open spec fn unless_empty(v: Seq<Seq<char>>) -> Option<Seq<Seq<char>>> {
    if v.len() > 0 {
        Some(v)
    } else {
        None
    }
}

/// The settings that differ from the defaults. A section that would hold
/// nothing is left out.
pub open spec fn differing(a: AnswersText) -> ConfigText {
    let providers = unless_empty(a.providers);
    let countries = unless_empty(a.countries);
    let cache_ttl = if a.cache_ttl != DEFAULT_CACHE_TTL {
        Some(a.cache_ttl)
    } else {
        None
    };
    let format = if a.format != DEFAULT_FORMAT@ {
        Some(a.format)
    } else {
        None
    };
    let limit = if a.limit != DEFAULT_LIMIT {
        Some(a.limit)
    } else {
        None
    };
    ConfigText {
        quiet: if a.quiet {
            Some(Some(true))
        } else {
            None
        },
        fetch: if providers is Some || countries is Some || cache_ttl is Some {
            Some((providers, countries, cache_ttl))
        } else {
            None
        },
        output: if format is Some || limit is Some || a.min_anonymity is Some {
            Some((format, limit, a.min_anonymity))
        } else {
            None
        },
        types: if a.types != seq![DEFAULT_TYPE@] {
            Some(Some(a.types))
        } else {
            None
        },
    }
}

fn keep_list(v: &Vec<String>) -> (r: Option<Vec<String>>)
    ensures
        texts_of(r) == unless_empty(texts(v@)),
{
    assert(texts(v@).len() == v@.len());
    if v.len() > 0 {
        Some(copy_strings(v))
    } else {
        None
    }
}

fn copy_option(s: &Option<String>) -> (r: Option<String>)
    ensures
        text_of(r) == text_of(*s),
{
    match s {
        Some(t) => Some(copy_str(t.as_str())),
        None => None,
    }
}

fn fetch_section(a: &Answers) -> (r: Option<FetchSection>)
    ensures
        (match r {
            Some(f) => Some((texts_of(f.providers), texts_of(f.countries), f.cache_ttl)),
            None => None,
        }) == differing(a@).fetch,
{
    let providers = keep_list(&a.providers);
    let countries = keep_list(&a.countries);
    let cache_ttl = if a.cache_ttl != DEFAULT_CACHE_TTL {
        Some(a.cache_ttl)
    } else {
        None
    };
    if providers.is_some() || countries.is_some() || cache_ttl.is_some() {
        Some(FetchSection { providers, countries, cache_ttl })
    } else {
        None
    }
}

fn output_section(a: &Answers) -> (r: Option<OutputSection>)
    ensures
        (match r {
            Some(o) => Some((text_of(o.format), o.limit, text_of(o.min_anonymity))),
            None => None,
        }) == differing(a@).output,
{
    let format = if same(a.format.as_str(), DEFAULT_FORMAT) {
        None
    } else {
        Some(copy_str(a.format.as_str()))
    };
    let limit = if a.limit != DEFAULT_LIMIT {
        Some(a.limit)
    } else {
        None
    };
    let min_anonymity = copy_option(&a.min_anonymity);
    if format.is_some() || limit.is_some() || min_anonymity.is_some() {
        Some(OutputSection { format, limit, min_anonymity })
    } else {
        None
    }
}

/// The settings that list only values that are not the defaults.
pub fn build_config(a: &Answers) -> (cfg: FileConfig)
    ensures
        cfg@ == differing(a@),
{
    assert(texts(a.types@).len() == a.types@.len());
    let usual = a.types.len() == 1 && same(a.types[0].as_str(), DEFAULT_TYPE);
    proof {
        if a.types@.len() == 1 {
            assert(texts(a.types@)[0] == a.types@[0]@);
            if usual {
                assert(texts(a.types@) =~= seq![DEFAULT_TYPE@]);
            } else {
                assert(texts(a.types@)[0] != seq![DEFAULT_TYPE@][0]);
            }
        }
    }
    FileConfig {
        global: if a.quiet {
            Some(GlobalSection { quiet: Some(true) })
        } else {
            None
        },
        fetch: fetch_section(a),
        output: output_section(a),
        validate: if usual {
            None
        } else {
            Some(ValidateSection { types: Some(copy_strings(&a.types)) })
        },
    }
}

/// The value of a setting, or the default where it is not set.
pub open spec fn or<T>(v: Option<T>, default: T) -> T {
    match v {
        Some(x) => x,
        None => default,
    }
}

/// What settings mean where everything else is left at the defaults.
pub open spec fn in_effect(c: ConfigText) -> AnswersText {
    let d = default_answers();
    let fetch = or(c.fetch, (None, None, None));
    let output = or(c.output, (None, None, None));
    AnswersText {
        providers: or(fetch.0, d.providers),
        countries: or(fetch.1, d.countries),
        format: or(output.0, d.format),
        limit: or(output.1, d.limit),
        min_anonymity: output.2,
        types: or(or(c.types, None), d.types),
        cache_ttl: or(fetch.2, d.cache_ttl),
        quiet: or(or(c.quiet, None), d.quiet),
    }
}

/// Leaving out what is the default loses nothing: the settings that are
/// written mean the answers that were given.
pub proof fn settings_mean_the_answers(a: AnswersText)
    ensures
        in_effect(differing(a)) == a,
{
    if a.providers.len() == 0 {
        assert(a.providers =~= Seq::<Seq<char>>::empty());
    }
    if a.countries.len() == 0 {
        assert(a.countries =~= Seq::<Seq<char>>::empty());
    }
    assert(in_effect(differing(a)) =~= a);
}

/// The defaults need no settings.
pub proof fn defaults_need_no_settings()
    ensures
        differing(default_answers()) == (ConfigText {
            quiet: None,
            fetch: None,
            output: None,
            types: None,
        }),
{
}

// ---------------------------------------------------------------------------
// Checking the answers
// ---------------------------------------------------------------------------

/// Whether a provider is registered under a name, whatever its case.
pub open spec fn is_known(name: Seq<char>) -> bool {
    exists|k: int|
        0 <= k < registry().len() && lowered((#[trigger] registry()[k]).called()) == lowered(name)
}

fn knows(providers: &Vec<Provider>, name: &str) -> (r: bool)
    requires
        providers@ == registry(),
    ensures
        r == is_known(name@),
{
    let mut k: usize = 0;
    while k < providers.len()
        invariant
            k <= providers.len(),
            providers@ == registry(),
            forall|j: int|
                0 <= j < k ==> lowered((#[trigger] registry()[j]).called()) != lowered(name@),
        decreases providers.len() - k,
    {
        if eq_ignore_case(providers[k].name(), name) {
            assert(lowered(registry()[k as int].called()) == lowered(name@));
            return true;
        }
        k += 1;
    }
    false
}

/// The names of the registered providers.
pub open spec fn known_names() -> Seq<Seq<char>> {
    registry().map_values(|p: Provider| p.called())
}

fn provider_names() -> (r: Vec<String>)
    ensures
        texts(r@) == known_names(),
{
    let providers = all_providers();
    let mut r: Vec<String> = Vec::new();
    let mut i: usize = 0;
    assert(texts(r@) =~= known_names().take(0));
    while i < providers.len()
        invariant
            i <= providers.len(),
            providers@ == registry(),
            texts(r@) == known_names().take(i as int),
        decreases providers.len() - i,
    {
        let name = copy_str(providers[i].name());
        proof {
            lemma_texts_push(r@, name);
            assert(known_names().take(i + 1) =~= known_names().take(i as int).push(name@));
        }
        r.push(name);
        i += 1;
    }
    assert(known_names().take(providers@.len() as int) =~= known_names());
    r
}

/// What is wrong with answers, the first thing first: the format, the
/// anonymity level, the proxy types, the providers.
pub open spec fn rejected_for(
    e: WizardError,
    a: AnswersText,
    formats: Seq<Seq<char>>,
    levels: Seq<Seq<char>>,
    valid_types: Seq<bool>,
) -> bool {
    if a.format != DEFAULT_FORMAT@ && !formats.contains(a.format) {
        e matches WizardError::UnknownFormat(f) && f@ == a.format
    } else if a.min_anonymity is Some && !levels.contains(a.min_anonymity->0) {
        e matches WizardError::UnknownLevel(l) && l@ == a.min_anonymity->0
    } else if exists|i: int| 0 <= i < a.types.len() && !#[trigger] valid_types[i] {
        e matches WizardError::InvalidType(t) && exists|i: int|
            0 <= i < a.types.len() && !#[trigger] valid_types[i] && t@ == a.types[i] && forall|j: int|
                0 <= j < i ==> #[trigger] valid_types[j]
    } else {
        e matches WizardError::UnknownProvider(p) && exists|i: int|
            0 <= i < a.providers.len() && !is_known(#[trigger] a.providers[i]) && p@
                == a.providers[i] && forall|j: int|
                0 <= j < i ==> is_known(#[trigger] a.providers[j])
    }
}

/// Whether answers would be accepted when the settings are loaded.
pub open spec fn acceptable(
    a: AnswersText,
    formats: Seq<Seq<char>>,
    levels: Seq<Seq<char>>,
    valid_types: Seq<bool>,
) -> bool {
    &&& a.format == DEFAULT_FORMAT@ || formats.contains(a.format)
    &&& a.min_anonymity matches Some(l) ==> levels.contains(l)
    &&& forall|i: int| 0 <= i < a.types.len() ==> #[trigger] valid_types[i]
    &&& forall|i: int| 0 <= i < a.providers.len() ==> is_known(#[trigger] a.providers[i])
}

/// Rejects answers that would fail when the settings are loaded. `valid_types`
/// says of each proxy type whether the command line reads it.
pub fn validate(a: &Answers, v: &Vocabulary, valid_types: &Vec<bool>) -> (r: Result<
    (),
    WizardError,
>)
    requires
        valid_types@.len() == a.types@.len(),
    ensures
        match r {
            Ok(_) => acceptable(a@, texts(v.formats@), texts(v.levels@), valid_types@),
            Err(e) => !acceptable(a@, texts(v.formats@), texts(v.levels@), valid_types@)
                && rejected_for(e, a@, texts(v.formats@), texts(v.levels@), valid_types@),
        },
{
    if !same(a.format.as_str(), DEFAULT_FORMAT) && !list_contains(&v.formats, a.format.as_str()) {
        return Err(WizardError::UnknownFormat(copy_str(a.format.as_str())));
    }
    if let Some(level) = &a.min_anonymity {
        if !list_contains(&v.levels, level.as_str()) {
            return Err(WizardError::UnknownLevel(copy_str(level.as_str())));
        }
    }
    let ghost types = a@.types;
    let ghost names = a@.providers;
    assert(types.len() == a.types@.len());
    assert(names.len() == a.providers@.len());
    let mut i: usize = 0;
    while i < a.types.len()
        invariant
            i <= a.types.len(),
            valid_types@.len() == a.types@.len(),
            types == texts(a.types@),
            types == a@.types,
            types.len() == a.types@.len(),
            forall|j: int| 0 <= j < i ==> #[trigger] valid_types@[j],
            a@.format == DEFAULT_FORMAT@ || texts(v.formats@).contains(a@.format),
            a@.min_anonymity matches Some(l) ==> texts(v.levels@).contains(l),
        decreases a.types.len() - i,
    {
        if !valid_types[i] {
            assert(types[i as int] == a.types@[i as int]@);
            return Err(WizardError::InvalidType(copy_str(a.types[i].as_str())));
        }
        i += 1;
    }
    let known = all_providers();
    let mut k: usize = 0;
    while k < a.providers.len()
        invariant
            k <= a.providers.len(),
            known@ == registry(),
            names == texts(a.providers@),
            names == a@.providers,
            names.len() == a.providers@.len(),
            forall|j: int| 0 <= j < a@.types.len() ==> #[trigger] valid_types@[j],
            forall|j: int| 0 <= j < k ==> is_known(#[trigger] names[j]),
            a@.format == DEFAULT_FORMAT@ || texts(v.formats@).contains(a@.format),
            a@.min_anonymity matches Some(l) ==> texts(v.levels@).contains(l),
        decreases a.providers.len() - k,
    {
        assert(names[k as int] == a.providers@[k as int]@);
        if !knows(&known, a.providers[k].as_str()) {
            return Err(WizardError::UnknownProvider(copy_str(a.providers[k].as_str())));
        }
        k += 1;
    }
    Ok(())
}

/// The default answers are acceptable wherever the default type is.
pub proof fn defaults_are_acceptable(formats: Seq<Seq<char>>, levels: Seq<Seq<char>>)
    ensures
        acceptable(default_answers(), formats, levels, seq![true]),
{
}

impl WizardError {
    /// What an error says.
    pub open spec fn text(self, formats: Seq<Seq<char>>, levels: Seq<Seq<char>>) -> Seq<char> {
        match self {
            WizardError::LimitNotANumber => "limit must be a number"@,
            WizardError::CacheTtlNotANumber => "cache TTL must be a number"@,
            WizardError::UnknownFormat(f) => "unknown output format `"@ + f@ + "` (allowed: "@
                + joined(formats, ", "@) + ")"@,
            WizardError::UnknownLevel(l) => "unknown anonymity level `"@ + l@ + "` (allowed: "@
                + joined(levels, ", "@) + ")"@,
            WizardError::InvalidType(t) => "invalid proxy type `"@ + t@ + "`"@,
            WizardError::UnknownProvider(p) => "unknown provider `"@ + p@ + "` (known: "@ + joined(
                known_names(),
                ", "@,
            ) + ")"@,
            WizardError::AlreadyExists(p) => "config file already exists at "@ + p@
                + " (use --force to overwrite)"@,
        }
    }

    /// What the error says.
    pub fn to_text(&self, v: &Vocabulary) -> (s: String)
        ensures
            s@ == self.text(texts(v.formats@), texts(v.levels@)),
    {
        match self {
            WizardError::LimitNotANumber => "limit must be a number".to_owned(),
            WizardError::CacheTtlNotANumber => "cache TTL must be a number".to_owned(),
            WizardError::UnknownFormat(f) => {
                let mut s = "unknown output format `".to_owned();
                s.append(f.as_str());
                s.append("` (allowed: ");
                s.append(formats_hint(v).as_str());
                s.append(")");
                s
            },
            WizardError::UnknownLevel(l) => {
                let mut s = "unknown anonymity level `".to_owned();
                s.append(l.as_str());
                s.append("` (allowed: ");
                s.append(anonymity_hint(v).as_str());
                s.append(")");
                s
            },
            WizardError::InvalidType(t) => {
                let mut s = "invalid proxy type `".to_owned();
                s.append(t.as_str());
                s.append("`");
                s
            },
            WizardError::UnknownProvider(p) => {
                let mut s = "unknown provider `".to_owned();
                s.append(p.as_str());
                s.append("` (known: ");
                s.append(join(&provider_names(), ", ").as_str());
                s.append(")");
                s
            },
            WizardError::AlreadyExists(p) => {
                let mut s = "config file already exists at ".to_owned();
                s.append(p.as_str());
                s.append(" (use --force to overwrite)");
                s
            },
        }
    }
}

// ---------------------------------------------------------------------------
// Where the settings go
// ---------------------------------------------------------------------------

/// The flags of the wizard.
#[derive(Clone, Debug)]
pub struct WizardArgs {
    /// Write to this file.
    pub path: Option<String>,
    /// Write the settings of the user.
    pub user: bool,
    /// Take the defaults and ask nothing.
    pub yes: bool,
    /// Overwrite a file that is there.
    pub force: bool,
}

/// The file that the settings go to.
#[derive(Clone, Debug, PartialEq, Eq)]
pub enum Target {
    /// The file that was named.
    Path(String),
    /// `flx/config.toml` among the user's settings.
    User,
    /// `.flx.toml` in the working directory.
    Project,
}

/// The file that the settings go to, as a plain value.
pub enum Place {
    At(Seq<char>),
    User,
    Project,
}

impl View for Target {
    type V = Place;

    open spec fn view(&self) -> Place {
        match self {
            Target::Path(p) => Place::At(p@),
            Target::User => Place::User,
            Target::Project => Place::Project,
        }
    }
}

/// Where the flags and the line typed at the question send the settings.
pub open spec fn place_of(
    path: Option<Seq<char>>,
    user: bool,
    yes: bool,
    line: Option<Seq<char>>,
) -> Option<Place> {
    match path {
        Some(p) => Some(Place::At(p)),
        None => if user {
            Some(Place::User)
        } else if yes {
            Some(Place::Project)
        } else {
            match line {
                Some(l) => Some(
                    if answer(l, "1"@) == "2"@ {
                        Place::User
                    } else {
                        Place::Project
                    },
                ),
                None => None,
            }
        },
    }
}

/// Where the settings go, or that the user is to be asked.
pub fn resolve_target(args: &WizardArgs, line: Option<&str>) -> (r: Option<Target>)
    ensures
        match args.path {
            Some(p) => r matches Some(Target::Path(q)) && q@ == p@,
            None => if args.user {
                r == Some(Target::User)
            } else if args.yes {
                r == Some(Target::Project)
            } else {
                match line {
                    Some(l) => r == Some(
                        if answer(l@, "1"@) == "2"@ {
                            Target::User
                        } else {
                            Target::Project
                        },
                    ),
                    None => r is None,
                }
            },
        },
        (match r {
            Some(t) => Some(t@),
            None => None,
        }) == place_of(
            text_of(args.path),
            args.user,
            args.yes,
            match line {
                Some(l) => Some(l@),
                None => None,
            },
        ),
{
    if let Some(p) = &args.path {
        return Some(Target::Path(copy_str(p.as_str())));
    }
    if args.user {
        return Some(Target::User);
    }
    if args.yes {
        return Some(Target::Project);
    }
    match line {
        Some(l) => if same(ask(l, "1").as_str(), "2") {
            Some(Target::User)
        } else {
            Some(Target::Project)
        },
        None => None,
    }
}

/// What asks where the settings go.
pub fn target_question(project: &str, user: &str) -> (s: String)
    ensures
        s@ == "Where should the config be written?\n  [1] "@ + project@ + " (project)\n  [2] "@
            + user@ + " (user)\nChoice [1]: "@,
{
    let mut s = "Where should the config be written?\n  [1] ".to_owned();
    s.append(project);
    s.append(" (project)\n  [2] ");
    s.append(user);
    s.append(" (user)\nChoice [1]: ");
    s
}

/// What the wizard does with acceptable answers.
#[derive(Clone, Copy, Debug, PartialEq, Eq, Structural)]
pub enum Outcome {
    /// The file is there and may not be overwritten.
    Refuse,
    /// Ask whether the file may be overwritten; no is the default.
    AskOverwrite,
    /// Ask whether to write the file; yes is the default.
    AskWrite,
    Abort,
    Write,
}

/// What is asked and done before a file is written: a file that is there is
/// only replaced by force or with consent, and a user who answered questions
/// has the last word.
pub open spec fn outcome(
    yes: bool,
    force: bool,
    exists_already: bool,
    overwrite: Option<Seq<char>>,
    write: Option<Seq<char>>,
) -> Outcome {
    let guarded = exists_already && !force;
    if guarded && yes {
        Outcome::Refuse
    } else if guarded && overwrite is None {
        Outcome::AskOverwrite
    } else if guarded && !agreed(overwrite->0, false) {
        Outcome::Abort
    } else if yes {
        Outcome::Write
    } else {
        match write {
            None => Outcome::AskWrite,
            Some(l) => if agreed(l, true) {
                Outcome::Write
            } else {
                Outcome::Abort
            },
        }
    }
}

/// What the wizard does next with acceptable answers, given the lines typed at
/// the two last questions so far.
pub fn run_wizard(
    args: &WizardArgs,
    exists_already: bool,
    overwrite: Option<&str>,
    write: Option<&str>,
) -> (r: Outcome)
    ensures
        r == outcome(
            args.yes,
            args.force,
            exists_already,
            match overwrite {
                Some(l) => Some(l@),
                None => None,
            },
            match write {
                Some(l) => Some(l@),
                None => None,
            },
        ),
{
    if exists_already && !args.force {
        if args.yes {
            return Outcome::Refuse;
        }
        match overwrite {
            None => {
                return Outcome::AskOverwrite;
            },
            Some(l) => {
                if !ask_yn(l, false) {
                    return Outcome::Abort;
                }
            },
        }
    }
    if args.yes {
        return Outcome::Write;
    }
    match write {
        None => Outcome::AskWrite,
        Some(l) => if ask_yn(l, true) {
            Outcome::Write
        } else {
            Outcome::Abort
        },
    }
}

/// A file that is there is never replaced without force or consent.
pub proof fn files_are_kept(
    yes: bool,
    force: bool,
    overwrite: Option<Seq<char>>,
    write: Option<Seq<char>>,
)
    requires
        outcome(yes, force, true, overwrite, write) == Outcome::Write,
    ensures
        force || (!yes && overwrite is Some && agreed(overwrite->0, false)),
{
}

// ---------------------------------------------------------------------------
// What holds of every answer
// ---------------------------------------------------------------------------

/// Whether a text holds nothing but blanks.
pub open spec fn is_blank(s: Seq<char>) -> bool {
    forall|k: int| 0 <= k < s.len() ==> is_space(#[trigger] s[k])
}

/// Whether a text has no blanks around it, and holds something.
pub open spec fn is_bare(s: Seq<char>) -> bool {
    s.len() > 0 && !is_space(s[0]) && !is_space(s.last())
}

proof fn lemma_bare(s: Seq<char>)
    requires
        is_bare(s),
    ensures
        trimmed(s) == s,
{
    let r = trimming_takes_the_outer_blanks(s);
    if r.0 > 0 {
        assert(is_space(s[0]));
    }
    if r.1 < s.len() {
        assert(is_space(s[s.len() - 1]));
    }
    assert(trimmed(s) =~= s);
}

proof fn lemma_blank(s: Seq<char>)
    requires
        is_blank(s),
    ensures
        trimmed(s).len() == 0,
{
    let r = trimming_takes_the_outer_blanks(s);
    if r.0 < r.1 {
        assert(is_space(s[r.0]));
    }
}

/// A line with nothing on it takes the default, whatever that is, and a text
/// without blanks around it is taken as it is.
pub proof fn lines_are_their_answers(line: Seq<char>, default: Seq<char>)
    ensures
        is_blank(line) ==> answer(line, default) == default,
        is_bare(line) ==> answer(line, default) == line,
{
    if is_blank(line) {
        lemma_blank(line);
    }
    if is_bare(line) {
        lemma_bare(line);
    }
}

/// A typed yes is a yes and a typed no a no, whatever the default and in any
/// case; the default stands where nothing is typed.
pub proof fn consent_is_what_was_typed(line: Seq<char>, default: bool)
    ensures
        is_blank(line) ==> agreed(line, default) == default,
        is_bare(line) && (lowered(line) == seq!['y'] || lowered(line) == seq!['y', 'e', 's']
            || lowered(line) == seq!['1'] || lowered(line) == seq!['t', 'r', 'u', 'e']) ==> agreed(
            line,
            default,
        ),
        is_bare(line) && (lowered(line) == seq!['n'] || lowered(line) == seq!['n', 'o'] || lowered(
            line,
        ) == seq!['0'] || lowered(line) == seq!['f', 'a', 'l', 's', 'e']) ==> !agreed(
            line,
            default,
        ),
        is_bare(line) && line[0] != 'y' && line[0] != 'Y' && line[0] != '1' && line[0] != 't'
            && line[0] != 'T' && line[0] != 'n' && line[0] != 'N' && line[0] != '0' && line[0]
            != 'f' && line[0] != 'F' ==> agreed(line, default) == default,
{
    reveal_strlit("y");
    reveal_strlit("yes");
    reveal_strlit("1");
    reveal_strlit("true");
    reveal_strlit("n");
    reveal_strlit("no");
    reveal_strlit("0");
    reveal_strlit("false");
    lines_are_their_answers(line, letter(default));
    assert(lowered("y"@) =~= seq!['y']);
    assert(lowered("yes"@) =~= seq!['y', 'e', 's']);
    assert(lowered("1"@) =~= seq!['1']);
    assert(lowered("true"@) =~= seq!['t', 'r', 'u', 'e']);
    assert(lowered("n"@) =~= seq!['n']);
    assert(lowered("no"@) =~= seq!['n', 'o']);
    assert(lowered("0"@) =~= seq!['0']);
    assert(lowered("false"@) =~= seq!['f', 'a', 'l', 's', 'e']);
    let a = answer(line, letter(default));
    if is_blank(line) {
        assert(a == letter(default));
        assert(lowered(a)[0] == if default {
            'y'
        } else {
            'n'
        });
        assert(seq!['y'][0] == 'y' && seq!['y', 'e', 's'][0] == 'y' && seq!['1'][0] == '1' && seq![
            't',
            'r',
            'u',
            'e',
        ][0] == 't');
    }
    if is_bare(line) {
        assert(lowered(a)[0] == lower(line[0]));
        if lowered(line) == seq!['n'] || lowered(line) == seq!['n', 'o'] {
            assert(lowered(line)[0] == 'n');
        }
        if lowered(line) == seq!['0'] {
            assert(lowered(line)[0] == '0');
        }
        if lowered(line) == seq!['f', 'a', 'l', 's', 'e'] {
            assert(lowered(line)[0] == 'f');
        }
        assert(seq!['y'][0] == 'y' && seq!['y', 'e', 's'][0] == 'y' && seq!['1'][0] == '1' && seq![
            't',
            'r',
            'u',
            'e',
        ][0] == 't');
    }
}

proof fn lemma_entries_concat(a: Seq<Seq<char>>, b: Seq<Seq<char>>)
    ensures
        entries(a + b) == entries(a) + entries(b),
    decreases b.len(),
{
    if b.len() == 0 {
        assert(a + b =~= a);
    } else {
        lemma_entries_concat(a, b.drop_last());
        assert((a + b).drop_last() =~= a + b.drop_last());
        assert((a + b).last() == b.last());
        assert(entries(a + b) =~= entries(a) + entries(b));
    }
}

/// A list is what stands between its commas, in order: a blank stretch gives
/// nothing, and any other one the text in it.
pub proof fn lists_hold_what_stands_between_commas(a: Seq<char>, rest: Seq<char>)
    requires
        forall|j: int| 0 <= j < a.len() ==> a[j] != ',',
    ensures
        listed(a + seq![','] + rest) == listed(a) + listed(rest),
        is_blank(a) ==> listed(a) == Seq::<Seq<char>>::empty(),
        is_bare(a) ==> listed(a) == seq![a],
{
    lemma_fields_cons(a, ',', rest);
    lemma_fields_one(a, ',');
    let one = seq![a];
    lemma_entries_concat(one, fields(rest, ','));
    assert(one.drop_last() =~= Seq::<Seq<char>>::empty());
    assert(entries(one.drop_last()) =~= Seq::<Seq<char>>::empty());
    assert(one.last() == a);
    if is_blank(a) {
        lemma_blank(a);
    }
    if is_bare(a) {
        lemma_bare(a);
        assert(listed(a) =~= seq![a]);
    }
}

/// What is typed at a question goes to the setting that it asks for, and where
/// nothing is typed the setting is the default: all providers, all countries,
/// the default format, no bound, any level, a quarter of an hour and not quiet.
pub proof fn answers_go_where_they_belong(lines: Seq<Seq<char>>, n: nat)
    requires
        lines.len() == 8,
    ensures
        ({
            let a = answers_of(lines);
            &&& is_blank(lines[0]) ==> a.providers.len() == 0
            &&& is_bare(lines[0]) ==> a.providers == (if lowered(lines[0]) == seq!['a', 'l', 'l'] {
                Seq::empty()
            } else {
                listed(lines[0])
            })
            &&& is_blank(lines[1]) ==> a.countries.len() == 0
            &&& is_bare(lines[1]) ==> a.countries == (if lowered(lines[1]) == seq!['a', 'l', 'l'] {
                Seq::empty()
            } else {
                uppercased(listed(lines[1]))
            })
            &&& is_blank(lines[2]) ==> a.format == seq!['d', 'e', 'f', 'a', 'u', 'l', 't']
            &&& is_bare(lines[2]) ==> a.format == lines[2]
            &&& is_blank(lines[3]) ==> a.limit == 0
            &&& lines[3] == decimal(n) && n <= usize::MAX ==> a.limit == n
            &&& is_blank(lines[4]) ==> a.min_anonymity is None
            &&& is_bare(lines[4]) ==> a.min_anonymity == (if lowered(lines[4]) == seq![
                'n',
                'o',
                'n',
                'e',
            ] {
                None
            } else {
                Some(lines[4])
            })
            &&& is_blank(lines[5]) ==> a.types == uppercased(seq![seq!['H', 'T', 'T', 'P']])
            &&& is_bare(lines[5]) ==> a.types == uppercased(listed(lines[5]))
            &&& is_blank(lines[6]) ==> a.cache_ttl == 15
            &&& lines[6] == decimal(n) && n <= u64::MAX ==> a.cache_ttl == n
            &&& is_blank(lines[7]) ==> !a.quiet
            &&& is_bare(lines[7]) && lowered(lines[7]) == seq!['y'] ==> a.quiet
            &&& is_bare(lines[7]) && lowered(lines[7]) == seq!['n'] ==> !a.quiet
        }),
{
    reveal_strlit("all");
    reveal_strlit("default");
    reveal_strlit("0");
    reveal_strlit("none");
    reveal_strlit("HTTP");
    reveal_strlit("15");
    lines_are_their_answers(lines[0], "all"@);
    lines_are_their_answers(lines[1], "all"@);
    lines_are_their_answers(lines[2], "default"@);
    lines_are_their_answers(lines[3], "0"@);
    lines_are_their_answers(lines[4], "none"@);
    lines_are_their_answers(lines[5], "HTTP"@);
    lines_are_their_answers(lines[6], "15"@);
    consent_is_what_was_typed(lines[7], false);
    assert(lowered("all"@) =~= seq!['a', 'l', 'l']);
    assert(lowered("none"@) =~= seq!['n', 'o', 'n', 'e']);
    assert("default"@ =~= seq!['d', 'e', 'f', 'a', 'u', 'l', 't']);
    assert("HTTP"@ =~= seq!['H', 'T', 'T', 'P']);
    lists_hold_what_stands_between_commas("HTTP"@, Seq::empty());
    reveal_with_fuel(decimal, 3);
    decimal_reads_back(0, usize::MAX as nat);
    decimal_reads_back(15, u64::MAX as nat);
    assert(decimal(0) =~= "0"@);
    assert(decimal(15) =~= "15"@);
    lemma_decimal_is_bare(n);
    if lines[3] == decimal(n) && n <= usize::MAX {
        decimal_reads_back(n, usize::MAX as nat);
    }
    if lines[6] == decimal(n) && n <= u64::MAX {
        decimal_reads_back(n, u64::MAX as nat);
    }
}

proof fn lemma_decimal_is_bare(n: nat)
    ensures
        is_bare(decimal(n)),
{
    decimal_reads_back(n, n);
    let s = decimal(n);
    assert(is_digit(s[0]));
    assert(is_digit(s[s.len() - 1]));
}

/// The questions go on until the last one, unless something else than a number
/// was typed where one is asked for.
pub proof fn questions_go_on(
    turn: Turn,
    lines: Seq<Seq<char>>,
    formats: Seq<Seq<char>>,
    levels: Seq<Seq<char>>,
)
    requires
        lines.len() <= 8,
        follows(turn, lines, formats, levels),
    ensures
        lines.len() <= 3 ==> turn is Ask,
        lines.len() > 3 && is_bare(lines[3]) && !is_digit(lines[3].last()) ==> turn
            == Turn::Failed(WizardError::LimitNotANumber),
        lines.len() > 6 && is_blank(lines[3]) && is_bare(lines[6]) && !is_digit(lines[6].last())
            ==> turn == Turn::Failed(WizardError::CacheTtlNotANumber),
        3 < lines.len() <= 6 && is_blank(lines[3]) ==> turn is Ask,
        lines.len() == 7 && is_blank(lines[3]) && is_blank(lines[6]) ==> turn is Ask,
        lines.len() == 8 && is_blank(lines[3]) && is_blank(lines[6]) ==> turn is Done,
{
    reveal_strlit("0");
    reveal_strlit("15");
    if lines.len() > 3 {
        lines_are_their_answers(lines[3], "0"@);
    }
    if lines.len() > 6 {
        lines_are_their_answers(lines[6], "15"@);
    }
    reveal_with_fuel(decimal, 3);
    decimal_reads_back(0, usize::MAX as nat);
    decimal_reads_back(15, u64::MAX as nat);
    assert(decimal(0) =~= "0"@);
    assert(decimal(15) =~= "15"@);
    if lines.len() > 3 && is_bare(lines[3]) && !is_digit(lines[3].last()) {
        lemma_no_number(lines[3], usize::MAX as nat);
    }
    if lines.len() > 6 && is_bare(lines[6]) && !is_digit(lines[6].last()) {
        lemma_no_number(lines[6], u64::MAX as nat);
    }
}

proof fn lemma_no_number(s: Seq<char>, max: nat)
    requires
        s.len() > 0,
        !is_digit(s.last()),
    ensures
        read_number(s, max) is None,
{
    let t = s.skip(1);
    if s.len() > 1 {
        assert(t[t.len() - 1] == s.last());
    }
    assert(s[s.len() - 1] == s.last());
}

/// A setting is written where it differs from its default, with the value that
/// was given, and only there.
pub proof fn only_differences_are_written(a: AnswersText)
    ensures
        ({
            let c = differing(a);
            let fetch = or(c.fetch, (None, None, None));
            let output = or(c.output, (None, None, None));
            &&& fetch.0 == (if a.providers.len() == 0 {
                None
            } else {
                Some(a.providers)
            })
            &&& fetch.1 == (if a.countries.len() == 0 {
                None
            } else {
                Some(a.countries)
            })
            &&& fetch.2 == (if a.cache_ttl == 15 {
                None
            } else {
                Some(a.cache_ttl)
            })
            &&& output.0 == (if a.format == seq!['d', 'e', 'f', 'a', 'u', 'l', 't'] {
                None
            } else {
                Some(a.format)
            })
            &&& output.1 == (if a.limit == 0 {
                None
            } else {
                Some(a.limit)
            })
            &&& output.2 == a.min_anonymity
            &&& c.types == (if a.types == seq![seq!['H', 'T', 'T', 'P']] {
                None
            } else {
                Some(Some(a.types))
            })
            &&& c.quiet == (if a.quiet {
                Some(Some(true))
            } else {
                None
            })
        }),
{
    reveal_strlit("default");
    reveal_strlit("HTTP");
    assert("default"@ =~= seq!['d', 'e', 'f', 'a', 'u', 'l', 't']);
    assert("HTTP"@ =~= seq!['H', 'T', 'T', 'P']);
    assert(seq!["HTTP"@] =~= seq![seq!['H', 'T', 'T', 'P']]);
}

/// One bad answer spoils the others, and good ones spoil nothing: a format, a
/// level, a type or a provider that is not known is not accepted.
pub proof fn each_answer_is_checked(
    a: AnswersText,
    formats: Seq<Seq<char>>,
    levels: Seq<Seq<char>>,
    valid: Seq<bool>,
    word: Seq<char>,
)
    requires
        acceptable(a, formats, levels, valid),
        valid.len() == a.types.len(),
    ensures
        formats.contains(word) ==> acceptable(
            AnswersText { format: word, ..a },
            formats,
            levels,
            valid,
        ),
        !formats.contains(word) && word != "default"@ ==> !acceptable(
            AnswersText { format: word, ..a },
            formats,
            levels,
            valid,
        ),
        levels.contains(word) == acceptable(
            AnswersText { min_anonymity: Some(word), ..a },
            formats,
            levels,
            valid,
        ),
        acceptable(AnswersText { min_anonymity: None, ..a }, formats, levels, valid),
        acceptable(
            AnswersText { types: a.types.push(word), ..a },
            formats,
            levels,
            valid.push(true),
        ),
        !acceptable(
            AnswersText { types: a.types.push(word), ..a },
            formats,
            levels,
            valid.push(false),
        ),
        is_known(word) == acceptable(
            AnswersText { providers: a.providers.push(word), ..a },
            formats,
            levels,
            valid,
        ),
{
    let t = a.types.push(word);
    let n = a.types.len() as int;
    assert(valid.push(false)[n] == false);
    assert(t.len() == n + 1);
    assert(!acceptable(AnswersText { types: t, ..a }, formats, levels, valid.push(false)));
    let p = a.providers.push(word);
    assert(p[a.providers.len() as int] == word);
    let b = AnswersText { providers: p, ..a };
    if is_known(word) {
        assert forall|i: int| 0 <= i < p.len() implies is_known(#[trigger] p[i]) by {
            if i < a.providers.len() {
                assert(p[i] == a.providers[i]);
            }
        }
    } else {
        assert(!is_known(b.providers[a.providers.len() as int]));
    }
}

/// A path that is given is taken, whatever else is said; a user's file is asked
/// for by flag or by the second choice, and the project's is taken otherwise.
pub proof fn settings_go_to_their_place(
    path: Seq<char>,
    user: bool,
    yes: bool,
    line: Option<Seq<char>>,
    typed: Seq<char>,
)
    ensures
        place_of(Some(path), user, yes, line) == Some(Place::At(path)),
        place_of(None, true, yes, line) == Some(Place::User),
        place_of(None, false, true, line) == Some(Place::Project),
        place_of(None, false, false, None) is None,
        is_blank(typed) ==> place_of(None, false, false, Some(typed)) == Some(Place::Project),
        is_bare(typed) ==> place_of(None, false, false, Some(typed)) == Some(
            if typed == seq!['2'] {
                Place::User
            } else {
                Place::Project
            },
        ),
{
    reveal_strlit("1");
    reveal_strlit("2");
    lines_are_their_answers(typed, "1"@);
    assert("2"@ =~= seq!['2']);
    assert("1"@[0] != "2"@[0]);
}

/// Without a file in the way, or by force, the flag that skips the questions
/// writes; a file in the way stops it, and a user who is asked decides.
pub proof fn users_decide_what_is_written(force: bool, typed: Seq<char>, write: Option<Seq<char>>)
    ensures
        outcome(true, force, false, None, write) == Outcome::Write,
        outcome(true, true, true, None, write) == Outcome::Write,
        outcome(true, false, true, Some(typed), write) == Outcome::Refuse,
        outcome(false, false, true, None, write) == Outcome::AskOverwrite,
        outcome(false, force, false, None, None) == Outcome::AskWrite,
        outcome(false, true, true, None, None) == Outcome::AskWrite,
        is_blank(typed) ==> outcome(false, false, true, Some(typed), write) == Outcome::Abort,
        is_blank(typed) ==> outcome(false, force, false, None, Some(typed)) == Outcome::Write,
        is_bare(typed) && lowered(typed) == seq!['n'] ==> outcome(
            false,
            force,
            false,
            None,
            Some(typed),
        ) == Outcome::Abort,
        is_bare(typed) && lowered(typed) == seq!['n'] ==> outcome(
            false,
            false,
            true,
            Some(typed),
            write,
        ) == Outcome::Abort,
        is_bare(typed) && lowered(typed) == seq!['y'] ==> outcome(
            false,
            false,
            true,
            Some(typed),
            None,
        ) == Outcome::AskWrite,
        is_bare(typed) && lowered(typed) == seq!['y'] ==> outcome(
            false,
            false,
            true,
            Some(typed),
            Some(typed),
        ) == Outcome::Write,
{
    consent_is_what_was_typed(typed, false);
    consent_is_what_was_typed(typed, true);
}

/// Every registered provider is known by its name, in any case, and no other
/// name is.
pub proof fn registered_names_are_known(k: int, name: Seq<char>)
    requires
        0 <= k < registry().len(),
    ensures
        lowered(name) == lowered(registry()[k].called()) ==> is_known(name),
        is_known(registry()[k].called()),
        is_known(name) ==> exists|j: int|
            0 <= j < registry().len() && lowered((#[trigger] registry()[j]).called()) == lowered(
                name,
            ),
{
    let p = registry()[k];
    assert(lowered(p.called()) == lowered(p.called()));
}

} // verus!
