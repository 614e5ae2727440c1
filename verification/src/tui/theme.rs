//! Glyphs and palettes of the workbench.

use crate::text::{chars_of, contains, holds, occurs_at};
use vstd::prelude::*;

verus! {

/// A symbol that degrades to ASCII when the terminal cannot be trusted.
#[derive(Clone, Copy, Debug, PartialEq, Eq, Structural)]
pub enum Glyph {
    ArrowUp,
    ArrowDown,
    Check,
    Cross,
    Paused,
    Warning,
    Dot,
    Dash,
    Times,
}

/// How a symbol is drawn.
pub open spec fn drawn(g: Glyph, ascii: bool) -> Seq<char> {
    match g {
        Glyph::ArrowUp => if ascii { "^"@ } else { "\u{25b2}"@ },
        Glyph::ArrowDown => if ascii { "v"@ } else { "\u{25bc}"@ },
        Glyph::Check => if ascii { "+"@ } else { "\u{2713}"@ },
        Glyph::Cross => if ascii { "x"@ } else { "\u{2717}"@ },
        Glyph::Paused => if ascii { "#"@ } else { "\u{25a0}"@ },
        Glyph::Warning => if ascii { "!"@ } else { "\u{26a0}"@ },
        Glyph::Dot => if ascii { "-"@ } else { "\u{b7}"@ },
        Glyph::Dash => if ascii { "-"@ } else { "\u{2014}"@ },
        Glyph::Times => if ascii { "x"@ } else { "\u{d7}"@ },
    }
}

/// Picks the Unicode glyph, or its ASCII twin in fallback mode.
pub fn glyph(g: Glyph, ascii: bool) -> (s: &'static str)
    ensures
        s@ == drawn(g, ascii),
{
    match g {
        Glyph::ArrowUp => if ascii { "^" } else { "\u{25b2}" },
        Glyph::ArrowDown => if ascii { "v" } else { "\u{25bc}" },
        Glyph::Check => if ascii { "+" } else { "\u{2713}" },
        Glyph::Cross => if ascii { "x" } else { "\u{2717}" },
        Glyph::Paused => if ascii { "#" } else { "\u{25a0}" },
        Glyph::Warning => if ascii { "!" } else { "\u{26a0}" },
        Glyph::Dot => if ascii { "-" } else { "\u{b7}" },
        Glyph::Dash => if ascii { "-" } else { "\u{2014}" },
        Glyph::Times => if ascii { "x" } else { "\u{d7}" },
    }
}

/// Whether color is suppressed: by the flag, or by a `NO_COLOR` that is not
/// empty.
pub fn monochrome(no_color_flag: bool, no_color: Option<&str>) -> (r: bool)
    ensures
        r == (no_color_flag || (no_color matches Some(value) && value@.len() > 0)),
{
    let environment = match no_color {
        Some(value) => chars_of(value).len() > 0,
        None => false,
    };
    no_color_flag || environment
}

/// The upper-case twin of an ASCII letter.
pub open spec fn upper_ascii(c: char) -> char {
    if 'a' <= c <= 'z' {
        (c as u32 - 32) as char
    } else {
        c
    }
}

/// Whether a locale names UTF-8, in any case.
pub open spec fn names_utf8(locale: Seq<char>) -> bool {
    let upper = locale.map_values(|c: char| upper_ascii(c));
    holds(upper, "UTF-8"@) || holds(upper, "UTF8"@)
}

fn locale_is_utf8(locale: &str) -> (r: bool)
    ensures
        r == names_utf8(locale@),
{
    let cs = chars_of(locale);
    let mut upper: Vec<char> = Vec::new();
    let mut i: usize = 0;
    let ghost whole = locale@.map_values(|c: char| upper_ascii(c));
    while i < cs.len()
        invariant
            i <= cs.len(),
            cs@ == locale@,
            whole == locale@.map_values(|c: char| upper_ascii(c)),
            upper@ == whole.take(i as int),
        decreases cs.len() - i,
    {
        let c: char = cs[i];
        if 'a' <= c && c <= 'z' {
            upper.push((c as u8 - 32) as char);
        } else {
            upper.push(c);
        }
        i += 1;
        assert(upper@ =~= whole.take(i as int));
    }
    assert(whole.take(cs.len() as int) =~= whole);
    contains(upper.as_slice(), "UTF-8") || contains(upper.as_slice(), "UTF8")
}

/// Whether the terminal is likely unable to draw box-drawing glyphs: it is
/// forced to ASCII, or none of the locales that are set names UTF-8.
pub fn detect_ascii(forced: bool, locales: &Vec<String>) -> (r: bool)
    ensures
        r == (forced || forall|i: int| 0 <= i < locales@.len() ==> !names_utf8((#[trigger] locales@[i])@)),
{
    if forced {
        return true;
    }
    let mut i: usize = 0;
    while i < locales.len()
        invariant
            !forced,
            i <= locales.len(),
            forall|j: int| 0 <= j < i ==> !names_utf8((#[trigger] locales@[j])@),
        decreases locales.len() - i,
    {
        if locale_is_utf8(locales[i].as_str()) {
            assert(names_utf8(locales@[i as int]@));
            return false;
        }
        i += 1;
    }
    true
}

/// In the fallback every symbol is one plain ASCII character, and else none is.
pub proof fn fallbacks_are_ascii(g: Glyph)
    ensures
        drawn(g, true).len() == 1,
        33 <= drawn(g, true)[0] as u32 <= 126,
        drawn(g, false).len() == 1,
        drawn(g, false)[0] as u32 >= 128,
{
    reveal_strlit("^");
    reveal_strlit("v");
    reveal_strlit("+");
    reveal_strlit("x");
    reveal_strlit("#");
    reveal_strlit("!");
    reveal_strlit("-");
    reveal_strlit("\u{25b2}");
    reveal_strlit("\u{25bc}");
    reveal_strlit("\u{2713}");
    reveal_strlit("\u{2717}");
    reveal_strlit("\u{25a0}");
    reveal_strlit("\u{26a0}");
    reveal_strlit("\u{b7}");
    reveal_strlit("\u{2014}");
    reveal_strlit("\u{d7}");
}

/// The symbols are those of their meaning.
pub proof fn symbols_are_these()
    ensures
        drawn(Glyph::ArrowUp, true) == seq!['^'] && drawn(Glyph::ArrowUp, false) == seq!['\u{25b2}'],
        drawn(Glyph::ArrowDown, true) == seq!['v'] && drawn(Glyph::ArrowDown, false) == seq![
            '\u{25bc}',
        ],
        drawn(Glyph::Check, true) == seq!['+'] && drawn(Glyph::Check, false) == seq!['\u{2713}'],
        drawn(Glyph::Cross, true) == seq!['x'] && drawn(Glyph::Cross, false) == seq!['\u{2717}'],
        drawn(Glyph::Paused, true) == seq!['#'] && drawn(Glyph::Paused, false) == seq!['\u{25a0}'],
        drawn(Glyph::Warning, true) == seq!['!'] && drawn(Glyph::Warning, false) == seq!['\u{26a0}'],
        drawn(Glyph::Dot, true) == seq!['-'] && drawn(Glyph::Dot, false) == seq!['\u{b7}'],
        drawn(Glyph::Dash, true) == seq!['-'] && drawn(Glyph::Dash, false) == seq!['\u{2014}'],
        drawn(Glyph::Times, true) == seq!['x'] && drawn(Glyph::Times, false) == seq!['\u{d7}'],
{
    reveal_strlit("^");
    reveal_strlit("v");
    reveal_strlit("+");
    reveal_strlit("x");
    reveal_strlit("#");
    reveal_strlit("!");
    reveal_strlit("-");
    reveal_strlit("\u{25b2}");
    reveal_strlit("\u{25bc}");
    reveal_strlit("\u{2713}");
    reveal_strlit("\u{2717}");
    reveal_strlit("\u{25a0}");
    reveal_strlit("\u{26a0}");
    reveal_strlit("\u{b7}");
    reveal_strlit("\u{2014}");
    reveal_strlit("\u{d7}");
}

/// A locale names UTF-8 with or without the hyphen, in either case, whatever
/// stands around it.
pub proof fn utf8_is_named(before: Seq<char>, after: Seq<char>)
    ensures
        names_utf8(before + seq!['U', 'T', 'F', '-', '8'] + after),
        names_utf8(before + seq!['u', 't', 'f', '-', '8'] + after),
        names_utf8(before + seq!['U', 'T', 'F', '8'] + after),
        names_utf8(before + seq!['u', 't', 'f', '8'] + after),
        !names_utf8(seq!['C']),
        !names_utf8(Seq::empty()),
{
    reveal_strlit("UTF-8");
    reveal_strlit("UTF8");
    let n = before.len() as int;
    let a = (before + seq!['U', 'T', 'F', '-', '8'] + after).map_values(|c: char| upper_ascii(c));
    let b = (before + seq!['u', 't', 'f', '-', '8'] + after).map_values(|c: char| upper_ascii(c));
    let c = (before + seq!['U', 'T', 'F', '8'] + after).map_values(|c: char| upper_ascii(c));
    let d = (before + seq!['u', 't', 'f', '8'] + after).map_values(|c: char| upper_ascii(c));
    assert(a.subrange(n, n + 5) =~= "UTF-8"@);
    assert(b.subrange(n, n + 5) =~= "UTF-8"@);
    assert(c.subrange(n, n + 4) =~= "UTF8"@);
    assert(d.subrange(n, n + 4) =~= "UTF8"@);
    assert(occurs_at(a, "UTF-8"@, n));
    assert(occurs_at(b, "UTF-8"@, n));
    assert(occurs_at(c, "UTF8"@, n));
    assert(occurs_at(d, "UTF8"@, n));
}

/// The upper-case twin exchanges the twenty-six letters one for one and leaves
/// every other character.
pub proof fn letters_have_their_twin(c: char)
    ensures
        97 <= c as u32 <= 122 ==> upper_ascii(c) as u32 + 32 == c as u32,
        !(97 <= c as u32 <= 122) ==> upper_ascii(c) == c,
{
}

} // verus!
