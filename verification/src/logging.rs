//! Log records: which ones are written, and how a line reads.

use crate::text::{begins, chars_of, same, starts_with};
use vstd::prelude::*;
use vstd::slice::slice_subrange;

verus! {

/// File name a full-screen run logs to, inside the data directory.
pub const TUI_LOG_FILE: &'static str = "tui.log";

/// The module that every record of this crate comes from.
pub const LOG_MODULE_ROOT: &'static str = "flx";

/// How grave a record is.
#[derive(Clone, Copy, Debug, PartialEq, Eq, Structural)]
pub enum Level {
    Error,
    Warn,
    Info,
    Debug,
    Trace,
}

/// The rank of a level: graver levels come first.
pub open spec fn gravity(level: Level) -> int {
    match level {
        Level::Error => 1,
        Level::Warn => 2,
        Level::Info => 3,
        Level::Debug => 4,
        Level::Trace => 5,
    }
}

impl Level {
    /// The rank of a level: graver levels come first.
    pub fn rank(self) -> (r: u8)
        ensures
            r == gravity(self),
    {
        match self {
            Level::Error => 1,
            Level::Warn => 2,
            Level::Info => 3,
            Level::Debug => 4,
            Level::Trace => 5,
        }
    }

    /// The name of a level.
    pub open spec fn name(self) -> Seq<char> {
        match self {
            Level::Error => "ERROR"@,
            Level::Warn => "WARN"@,
            Level::Info => "INFO"@,
            Level::Debug => "DEBUG"@,
            Level::Trace => "TRACE"@,
        }
    }

    /// The name of a level, as a line writes it.
    pub fn as_str(self) -> (s: &'static str)
        ensures
            s@ == self.name(),
    {
        match self {
            Level::Error => "ERROR",
            Level::Warn => "WARN",
            Level::Info => "INFO",
            Level::Debug => "DEBUG",
            Level::Trace => "TRACE",
        }
    }
}

/// Whether a target is the crate or a module within it; modules are parted by
/// `::`.
pub open spec fn own_target(target: Seq<char>) -> bool {
    let root = LOG_MODULE_ROOT@;
    begins(target, root) && (target.len() == root.len() || begins(
        target.skip(root.len() as int),
        "::"@,
    ))
}

/// Whether a record comes from this crate.
pub fn log_module_allowed(target: &str) -> (r: bool)
    ensures
        r == own_target(target@),
{
    let cs = chars_of(target);
    let n: usize = chars_of(LOG_MODULE_ROOT).len();
    if !starts_with(cs.as_slice(), LOG_MODULE_ROOT) {
        return false;
    }
    let rest = slice_subrange(cs.as_slice(), n, cs.len());
    assert(rest@ =~= target@.skip(n as int));
    cs.len() == n || starts_with(rest, "::")
}

/// The escape sequence that colors a level.
pub open spec fn color(level: Level) -> Seq<char> {
    match level {
        Level::Error => "\x1b[31m"@,
        Level::Warn => "\x1b[33m"@,
        Level::Info => "\x1b[34m"@,
        Level::Debug => "\x1b[36m"@,
        Level::Trace => "\x1b[35m"@,
    }
}

/// The escape sequence that colors a level.
pub fn log_prefix_color(level: Level) -> (s: &'static str)
    ensures
        s@ == color(level),
{
    match level {
        Level::Error => "\x1b[31m",
        Level::Warn => "\x1b[33m",
        Level::Info => "\x1b[34m",
        Level::Debug => "\x1b[36m",
        Level::Trace => "\x1b[35m",
    }
}

/// Whether lines to a terminal of a kind are colored.
pub open spec fn is_colored(term: Option<Seq<char>>, no_color: bool, is_terminal: bool) -> bool {
    match term {
        Some(kind) => is_terminal && !no_color && kind != "dumb"@,
        None => false,
    }
}

/// Whether lines to the terminal are colored: it has to be one that is not
/// dumb, and the user must not have asked for no color.
pub fn color_enabled(term: Option<&str>, no_color: bool, is_terminal: bool) -> (r: bool)
    ensures
        r == is_colored(
            match term {
                Some(t) => Some(t@),
                None => None,
            },
            no_color,
            is_terminal,
        ),
        r == (term is Some && term->0@ != "dumb"@ && !no_color && is_terminal),
{
    match term {
        None => false,
        Some(t) => !same(t, "dumb") && !no_color && is_terminal,
    }
}

/// Whether a record of a level from a module is written.
pub open spec fn is_written(level: Level, max_level: Option<Level>, target: Seq<char>) -> bool {
    match max_level {
        Some(most) => own_target(target) && gravity(level) <= gravity(most),
        None => false,
    }
}

/// Whether a record is written: it is grave enough, and it comes from this
/// crate. Without a greatest level nothing is.
pub fn enabled(level: Level, max_level: Option<Level>, target: &str) -> (r: bool)
    ensures
        r == (max_level is Some && gravity(level) <= gravity(max_level->0) && own_target(target@)),
        r == is_written(level, max_level, target@),
{
    match max_level {
        None => false,
        Some(max) => level.rank() <= max.rank() && log_module_allowed(target),
    }
}

/// One record as a line.
pub open spec fn line(target: Seq<char>, level: Level, message: Seq<char>, colored: bool) -> Seq<
    char,
> {
    if colored {
        "\x1b[0m"@ + color(level) + target + ": "@ + level.name() + " "@ + "\x1b[0m"@ + message
            + "\n"@
    } else {
        target + ": "@ + level.name() + " "@ + message + "\n"@
    }
}

/// One record as a single line: the color is only added for a terminal.
pub fn write_record_to(target: &str, level: Level, message: &str, colored: bool) -> (s: String)
    ensures
        s@ == line(target@, level, message@, colored),
{
    let mut s = if colored {
        let mut head = "\x1b[0m".to_owned();
        head.append(log_prefix_color(level));
        head.append(target);
        head
    } else {
        target.to_owned()
    };
    s.append(": ");
    s.append(level.as_str());
    s.append(" ");
    if colored {
        s.append("\x1b[0m");
    }
    s.append(message);
    s.append("\n");
    s
}

/// Records of the crate and of its modules are its own; a name that only begins
/// alike is not.
pub proof fn own_modules_are_known(rest: Seq<char>)
    ensures
        own_target("flx"@),
        own_target("flx::"@ + rest),
        rest.len() > 0 && rest[0] != ':' ==> !own_target("flx"@ + rest),
        rest.len() > 0 && rest[0] != 'f' ==> !own_target(rest),
        !own_target(Seq::empty()),
{
    reveal_strlit("flx");
    reveal_strlit("flx::");
    reveal_strlit("::");
    let root = "flx"@;
    assert(root.subrange(0, 3) =~= root);
    let s = "flx::"@ + rest;
    assert(s.subrange(0, 3) =~= root);
    assert(s.skip(3).subrange(0, 2) =~= "::"@);
    let t = root + rest;
    if rest.len() > 0 && rest[0] != ':' {
        let u = t.skip(3);
        assert(u =~= rest);
        if begins(u, "::"@) {
            assert(u.subrange(0, 2)[0] == u[0]);
        }
    }
    if rest.len() > 0 && rest[0] != 'f' && begins(rest, root) {
        assert(rest.subrange(0, 3)[0] == rest[0]);
    }
}

/// Levels go from errors, the gravest, to traces.
pub proof fn levels_are_ranked()
    ensures
        gravity(Level::Error) < gravity(Level::Warn) < gravity(Level::Info) < gravity(
            Level::Debug,
        ) < gravity(Level::Trace),
        gravity(Level::Error) == 1,
        gravity(Level::Trace) == 5,
{
}

/// Color needs a terminal that is named and not dumb, and a user who did not ask
/// for none.
pub proof fn color_needs_a_terminal(kind: Seq<char>, no_color: bool, is_terminal: bool)
    ensures
        kind.len() != 4 ==> is_colored(Some(kind), false, true),
        !is_colored(None, no_color, is_terminal),
        !is_colored(Some("dumb"@), no_color, is_terminal),
        !is_colored(Some(kind), true, is_terminal),
        !is_colored(Some(kind), no_color, false),
{
    reveal_strlit("dumb");
}

/// Without a level nothing is written; with one, what is as grave or graver, of
/// the crate's own modules alone.
pub proof fn grave_records_are_written(a: Level, b: Level, target: Seq<char>)
    ensures
        !is_written(a, None, target),
        !own_target(target) ==> !is_written(a, Some(b), target),
        own_target(target) ==> is_written(a, Some(a), target),
        own_target(target) && gravity(a) < gravity(b) ==> is_written(a, Some(b), target)
            && !is_written(b, Some(a), target),
{
}

/// Each level has its name.
pub proof fn levels_have_their_names(level: Level)
    ensures
        Level::Error.name() == seq!['E', 'R', 'R', 'O', 'R'],
        Level::Warn.name() == seq!['W', 'A', 'R', 'N'],
        Level::Info.name() == seq!['I', 'N', 'F', 'O'],
        Level::Debug.name() == seq!['D', 'E', 'B', 'U', 'G'],
        Level::Trace.name() == seq!['T', 'R', 'A', 'C', 'E'],
{
    reveal_strlit("ERROR");
    reveal_strlit("WARN");
    reveal_strlit("INFO");
    reveal_strlit("DEBUG");
    reveal_strlit("TRACE");
}

/// A line tells the module, the level and the message; color changes nothing of
/// it but what stands around the first two, and ends before the message.
pub proof fn lines_tell_their_record(target: Seq<char>, level: Level, message: Seq<char>)
    ensures
        line(target, level, message, false) == target + seq![':', ' '] + level.name() + seq![' ']
            + message + seq!['\n'],
        line(target, level, message, true) == "\x1b[0m"@ + color(level) + target + seq![':', ' ']
            + level.name() + seq![' '] + "\x1b[0m"@ + message + seq!['\n'],
        color(Level::Error) == "\x1b[31m"@,
        color(Level::Warn) == "\x1b[33m"@,
        color(Level::Info) == "\x1b[34m"@,
        color(Level::Debug) == "\x1b[36m"@,
        color(Level::Trace) == "\x1b[35m"@,
{
    reveal_strlit(": ");
    reveal_strlit(" ");
    reveal_strlit("\n");
    assert(": "@ =~= seq![':', ' ']);
    assert(" "@ =~= seq![' ']);
    assert("\n"@ =~= seq!['\n']);
}

} // verus!
