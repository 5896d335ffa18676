//! Log levels: their order, their names, how a level field is read, the
//! order in which the minimum-level filter cycles, and the colour of each.

use vstd::prelude::*;

verus! {

/// The severity of a log entry, from least to most severe.
#[derive(Clone, Copy, Debug, PartialEq, Eq, Structural)]
pub enum LogLevel {
    Trace,
    Debug,
    Info,
    Warn,
    Error,
}

impl LogLevel {
    /// Position of the level in the order Trace < Debug < Info < Warn < Error.
    pub open spec fn spec_rank(self) -> nat {
        match self {
            LogLevel::Trace => 0,
            LogLevel::Debug => 1,
            LogLevel::Info => 2,
            LogLevel::Warn => 3,
            LogLevel::Error => 4,
        }
    }

    /// The level's position in the severity order.
    pub fn rank(self) -> (r: u8)
        ensures
            r == self.spec_rank(),
    {
        match self {
            LogLevel::Trace => 0,
            LogLevel::Debug => 1,
            LogLevel::Info => 2,
            LogLevel::Warn => 3,
            LogLevel::Error => 4,
        }
    }

    /// Whether `self` is at least as severe as `min`.
    pub fn at_least(self, min: LogLevel) -> (b: bool)
        ensures
            b == (self.spec_rank() >= min.spec_rank()),
    {
        self.rank() >= min.rank()
    }

    /// All levels, least severe first.
    pub open spec fn spec_all() -> Seq<LogLevel> {
        seq![LogLevel::Trace, LogLevel::Debug, LogLevel::Info, LogLevel::Warn, LogLevel::Error]
    }

    /// All levels, least severe first.
    pub fn all() -> (r: [LogLevel; 5])
        ensures
            r@ == Self::spec_all(),
    {
        let r = [LogLevel::Trace, LogLevel::Debug, LogLevel::Info, LogLevel::Warn, LogLevel::Error];
        assert(r@ =~= Self::spec_all());
        r
    }

    /// The upper-case name of the level.
    pub open spec fn name(self) -> Seq<char> {
        match self {
            LogLevel::Trace => seq!['T', 'R', 'A', 'C', 'E'],
            LogLevel::Debug => seq!['D', 'E', 'B', 'U', 'G'],
            LogLevel::Info => seq!['I', 'N', 'F', 'O'],
            LogLevel::Warn => seq!['W', 'A', 'R', 'N'],
            LogLevel::Error => seq!['E', 'R', 'R', 'O', 'R'],
        }
    }

    /// The upper-case name of the level.
    pub fn as_str(self) -> (s: &'static str)
        ensures
            s@ == self.name(),
    {
        match self {
            LogLevel::Trace => {
                let s = "TRACE";
                proof {
                    reveal_strlit("TRACE");
                }
                assert(s@ =~= self.name());
                s
            },
            LogLevel::Debug => {
                let s = "DEBUG";
                proof {
                    reveal_strlit("DEBUG");
                }
                assert(s@ =~= self.name());
                s
            },
            LogLevel::Info => {
                let s = "INFO";
                proof {
                    reveal_strlit("INFO");
                }
                assert(s@ =~= self.name());
                s
            },
            LogLevel::Warn => {
                let s = "WARN";
                proof {
                    reveal_strlit("WARN");
                }
                assert(s@ =~= self.name());
                s
            },
            LogLevel::Error => {
                let s = "ERROR";
                proof {
                    reveal_strlit("ERROR");
                }
                assert(s@ =~= self.name());
                s
            },
        }
    }

    /// The level that follows `self` when the minimum-level filter is cycled:
    /// the next more severe one, and Trace again after Error.
    pub open spec fn spec_cycled(self) -> LogLevel {
        match self {
            LogLevel::Trace => LogLevel::Debug,
            LogLevel::Debug => LogLevel::Info,
            LogLevel::Info => LogLevel::Warn,
            LogLevel::Warn => LogLevel::Error,
            LogLevel::Error => LogLevel::Trace,
        }
    }

    /// The level that follows `self` when the minimum-level filter is cycled.
    pub fn cycled(self) -> (r: LogLevel)
        ensures
            r == self.spec_cycled(),
    {
        match self {
            LogLevel::Trace => LogLevel::Debug,
            LogLevel::Debug => LogLevel::Info,
            LogLevel::Info => LogLevel::Warn,
            LogLevel::Warn => LogLevel::Error,
            LogLevel::Error => LogLevel::Trace,
        }
    }
}

/// The severity order: Trace < Debug < Info < Warn < Error.
pub proof fn lemma_level_order()
    ensures
        LogLevel::Trace.spec_rank() < LogLevel::Debug.spec_rank(),
        LogLevel::Debug.spec_rank() < LogLevel::Info.spec_rank(),
        LogLevel::Info.spec_rank() < LogLevel::Warn.spec_rank(),
        LogLevel::Warn.spec_rank() < LogLevel::Error.spec_rank(),
        forall|a: LogLevel, b: LogLevel| a.spec_rank() == b.spec_rank() ==> a == b,
{
}

/// Cycling the minimum level five times comes back to where it started,
/// having passed every level once.
pub proof fn lemma_cycle_visits_all(l: LogLevel)
    ensures
        l.spec_cycled().spec_cycled().spec_cycled().spec_cycled().spec_cycled() == l,
        ({
            let s = seq![
                l,
                l.spec_cycled(),
                l.spec_cycled().spec_cycled(),
                l.spec_cycled().spec_cycled().spec_cycled(),
                l.spec_cycled().spec_cycled().spec_cycled().spec_cycled(),
            ];
            forall|m: LogLevel| s.contains(m)
        }),
{
    let s = seq![
        l,
        l.spec_cycled(),
        l.spec_cycled().spec_cycled(),
        l.spec_cycled().spec_cycled().spec_cycled(),
        l.spec_cycled().spec_cycled().spec_cycled().spec_cycled(),
    ];
    assert forall|m: LogLevel| s.contains(m) by {
        let k: int = (m.spec_rank() - l.spec_rank() + 5) % 5;
        assert(s[k] == m);
    }
}

/// Each level's name reads back as that level, and
/// different levels are drawn in different colours.
pub proof fn lemma_level_names_and_colors()
    ensures
        forall|l: LogLevel| parse_level(#[trigger] l.name()) == Some(l),
        forall|a: LogLevel, b: LogLevel| #[trigger] spec_level_color(a) == #[trigger] spec_level_color(b) ==> a == b,
{
    assert forall|l: LogLevel| parse_level(#[trigger] l.name()) == Some(l) by {
        match l {
            LogLevel::Trace => {},
            LogLevel::Debug => {
                assert(!eq_ignore_ascii_case(l.name(), LogLevel::Trace.name()));
            },
            LogLevel::Info => {},
            LogLevel::Warn => {
                assert(!eq_ignore_ascii_case(l.name(), LogLevel::Info.name()));
            },
            LogLevel::Error => {
                assert(!eq_ignore_ascii_case(l.name(), LogLevel::Trace.name()));
                assert(!eq_ignore_ascii_case(l.name(), LogLevel::Debug.name()));
            },
        }
    }
}

/// `c` in upper case, for the ASCII letters; any other character unchanged.
pub open spec fn ascii_upper(c: char) -> char {
    if 'a' <= c && c <= 'z' {
        ((c as u32) - 32) as char
    } else {
        c
    }
}

/// `a` and `b` are equal when ASCII letters are compared without regard to case.
pub open spec fn eq_ignore_ascii_case(a: Seq<char>, b: Seq<char>) -> bool {
    a.len() == b.len() && forall|i: int| 0 <= i < a.len() ==> ascii_upper(#[trigger] a[i])
        == ascii_upper(b[i])
}

/// The level whose name is `s`, compared without regard to ASCII case, if any.
pub open spec fn parse_level(s: Seq<char>) -> Option<LogLevel> {
    if eq_ignore_ascii_case(s, LogLevel::Trace.name()) {
        Some(LogLevel::Trace)
    } else if eq_ignore_ascii_case(s, LogLevel::Debug.name()) {
        Some(LogLevel::Debug)
    } else if eq_ignore_ascii_case(s, LogLevel::Info.name()) {
        Some(LogLevel::Info)
    } else if eq_ignore_ascii_case(s, LogLevel::Warn.name()) {
        Some(LogLevel::Warn)
    } else if eq_ignore_ascii_case(s, LogLevel::Error.name()) {
        Some(LogLevel::Error)
    } else {
        None
    }
}

fn upper(c: char) -> (r: char)
    ensures
        r == ascii_upper(c),
{
    if 'a' <= c && c <= 'z' {
        let u = (c as u32) - 32;
        assert(0x41 <= u <= 0x5a);
        let r = u as u8 as char;
        r
    } else {
        c
    }
}

fn same_ignoring_case(a: &Vec<char>, b: &str) -> (r: bool)
    ensures
        r == eq_ignore_ascii_case(a@, b@),
{
    let bv = crate::text::chars_of(b);
    if a.len() != bv.len() {
        return false;
    }
    let mut i: usize = 0;
    while i < a.len()
        invariant
            bv@ == b@,
            a@.len() == bv@.len(),
            i <= a@.len(),
            forall|k: int| 0 <= k < i ==> ascii_upper(#[trigger] a@[k]) == ascii_upper(bv@[k]),
        decreases a@.len() - i,
    {
        if upper(a[i]) != upper(bv[i]) {
            return false;
        }
        i = i + 1;
    }
    true
}

/// Reads a level field: the level whose name it is, ignoring ASCII case
/// (`"INFO"`, `"info"`, ...), or `None` for any other text.
pub fn parse_level_name(s: &str) -> (r: Option<LogLevel>)
    ensures
        r == parse_level(s@),
{
    let v = crate::text::chars_of(s);
    if same_ignoring_case(&v, LogLevel::Trace.as_str()) {
        Some(LogLevel::Trace)
    } else if same_ignoring_case(&v, LogLevel::Debug.as_str()) {
        Some(LogLevel::Debug)
    } else if same_ignoring_case(&v, LogLevel::Info.as_str()) {
        Some(LogLevel::Info)
    } else if same_ignoring_case(&v, LogLevel::Warn.as_str()) {
        Some(LogLevel::Warn)
    } else if same_ignoring_case(&v, LogLevel::Error.as_str()) {
        Some(LogLevel::Error)
    } else {
        None
    }
}

/// The colours in which the viewer draws text and borders.
#[derive(Clone, Copy, Debug, PartialEq, Eq, Structural)]
pub enum Hue {
    Red,
    Yellow,
    Green,
    Cyan,
    DarkGray,
}

/// The colour of a level: errors red, warnings yellow, info green, debug
/// cyan, trace dark gray.
pub open spec fn spec_level_color(level: LogLevel) -> Hue {
    match level {
        LogLevel::Error => Hue::Red,
        LogLevel::Warn => Hue::Yellow,
        LogLevel::Info => Hue::Green,
        LogLevel::Debug => Hue::Cyan,
        LogLevel::Trace => Hue::DarkGray,
    }
}

/// The colour in which a level is drawn.
pub fn level_color(level: LogLevel) -> (c: Hue)
    ensures
        c == spec_level_color(level),
{
    match level {
        LogLevel::Error => Hue::Red,
        LogLevel::Warn => Hue::Yellow,
        LogLevel::Info => Hue::Green,
        LogLevel::Debug => Hue::Cyan,
        LogLevel::Trace => Hue::DarkGray,
    }
}

} // verus!
