//! One record of an NDJSON log file and what the viewer reads from it.

use vstd::prelude::*;
use crate::level::{LogLevel, parse_level, parse_level_name};
use crate::text::{is_trim_of, is_white_space, lines_of, lines_str, trim, trim_newlines, trim_white_space, trimmed_char, string_of};

verus! {

/// One log record: the four string fields of a line of the log file.
#[derive(Debug)]
pub struct LogEntry {
    pub time: String,
    pub level: String,
    pub logger: String,
    pub text: String,
}

/// The character sequences of a [`LogEntry`]'s fields.
pub struct LogEntryView {
    pub time: Seq<char>,
    pub level: Seq<char>,
    pub logger: Seq<char>,
    pub text: Seq<char>,
}

impl View for LogEntry {
    type V = LogEntryView;

    open spec fn view(&self) -> LogEntryView {
        LogEntryView { time: self.time@, level: self.level@, logger: self.logger@, text: self.text@ }
    }
}

impl Clone for LogEntry {
    fn clone(&self) -> (r: Self)
        ensures
            r == *self,
    {
        LogEntry {
            time: self.time.clone(),
            level: self.level.clone(),
            logger: self.logger.clone(),
            text: self.text.clone(),
        }
    }
}

/// A message is multi-line when it holds a line feed.
pub open spec fn text_is_multiline(text: Seq<char>) -> bool {
    text.contains('\n')
}

/// Number of display lines of a message when expanded: its lines, and at least one.
pub open spec fn text_line_count(text: Seq<char>) -> nat {
    let n = lines_of(text).len();
    if n >= 1 {
        n
    } else {
        1
    }
}

/// The first line of a message, or the message itself when it has no lines.
pub open spec fn text_first_line(text: Seq<char>) -> Seq<char> {
    if lines_of(text).len() > 0 {
        lines_of(text)[0]
    } else {
        text
    }
}

/// The level of an entry for filtering: the level that its level field names,
/// and Trace, the least severe, when the field names none.
pub open spec fn entry_level(level: Seq<char>) -> LogLevel {
    match parse_level(level) {
        Some(l) => l,
        None => LogLevel::Trace,
    }
}

/// The text of a line of the log file that holds a record: the line without
/// surrounding white space, or `None` for a blank line.
pub open spec fn spec_record_text(line: Seq<char>) -> Option<Seq<char>> {
    if trim(false, line).len() == 0 {
        None
    } else {
        Some(trim(false, line))
    }
}

/// Reads a line of the log file: the line without surrounding white space,
/// or `None` when nothing is left, which marks a line to skip.
pub fn record_text(line: &str) -> (r: Option<&str>)
    ensures
        match r {
            Some(t) => spec_record_text(line@) == Some(t@) && t@.len() > 0 && is_trim_of(
                false,
                line@,
                t@,
            ),
            None => spec_record_text(line@) is None && forall|i: int|
                0 <= i < line@.len() ==> is_white_space(#[trigger] line@[i]),
        },
{
    let t = trim_white_space(line);
    if t.is_empty() {
        proof {
            let (a, b) = choose|a: int, b: int|
                {
                    &&& 0 <= a <= b <= line@.len()
                    &&& t@ == line@.subrange(a, b)
                    &&& (forall|i: int| 0 <= i < a ==> trimmed_char(false, #[trigger] line@[i]))
                    &&& (forall|i: int| b <= i < line@.len() ==> trimmed_char(false, #[trigger] line@[i]))
                    &&& (t@.len() > 0 ==> !trimmed_char(false, t@[0]) && !trimmed_char(false, t@.last()))
                };
            assert forall|i: int| 0 <= i < line@.len() implies is_white_space(#[trigger] line@[i]) by {
                assert(trimmed_char(false, line@[i]));
            }
        }
        None
    } else {
        Some(t)
    }
}

impl LogEntry {
    /// Returns true if the text field contains embedded newlines.
    pub fn is_multiline(&self) -> (b: bool)
        ensures
            b == text_is_multiline(self.text@),
            b == (exists|i: int| 0 <= i < self.text@.len() && self.text@[i] == '\n'),
    {
        let v = crate::text::chars_of(self.text.as_str());
        let mut i: usize = 0;
        while i < v.len()
            invariant
                v@ == self.text@,
                i <= v@.len(),
                forall|k: int| 0 <= k < i ==> v@[k] != '\n',
            decreases v@.len() - i,
        {
            if v[i] == '\n' {
                assert(self.text@[i as int] == '\n');
                return true;
            }
            i = i + 1;
        }
        false
    }

    /// Count of display lines when expanded (the text split on `\n`).
    pub fn line_count(&self) -> (n: usize)
        ensures
            n == text_line_count(self.text@),
            lines_of(self.text@).len() >= 1 ==> n == lines_of(self.text@).len(),
            lines_of(self.text@).len() == 0 ==> n == 1,
    {
        let lines = lines_str(self.text.as_str());
        if lines.len() >= 1 {
            lines.len()
        } else {
            1
        }
    }

    /// First line of text (for the collapsed / summary view).
    pub fn first_line(&self) -> (s: &str)
        ensures
            s@ == text_first_line(self.text@),
            lines_of(self.text@).len() > 0 ==> s@ == lines_of(self.text@)[0],
            lines_of(self.text@).len() == 0 ==> s@ == self.text@ && s@.len() == 0,
    {
        proof {
            crate::text::lemma_lines_join(self.text@);
        }
        let lines = lines_str(self.text.as_str());
        if lines.len() > 0 {
            lines[0]
        } else {
            self.text.as_str()
        }
    }

    /// All lines of text as a Vec (for expanded view).
    pub fn lines(&self) -> (r: Vec<&str>)
        ensures
            r@.len() == lines_of(self.text@).len(),
            forall|k: int| 0 <= k < r@.len() ==> #[trigger] r@[k]@ == lines_of(self.text@)[k],
    {
        lines_str(self.text.as_str())
    }

    /// The entry's level for filtering (Trace when the level field names no level).
    pub fn log_level(&self) -> (l: LogLevel)
        ensures
            l == entry_level(self.level@),
    {
        match parse_level_name(self.level.as_str()) {
            Some(l) => l,
            None => LogLevel::Trace,
        }
    }

    /// The entry as it is kept after loading: the message without leading and
    /// trailing line feeds, the other fields as they are.
    pub fn with_trimmed_text(self) -> (r: LogEntry)
        ensures
            r.time == self.time,
            r.level == self.level,
            r.logger == self.logger,
            r.text@ == trim(true, self.text@),
            is_trim_of(true, self.text@, r.text@),
    {
        let LogEntry { time, level, logger, text } = self;
        let t = string_of(trim_newlines(text.as_str()));
        LogEntry { time, level, logger, text: t }
    }
}

/// Among files modified at `stamps` (in any fixed unit, in listing order), the
/// one opened when a directory is given: the most recently modified, the first
/// listed among equally recent ones; `None` when there is no file.
pub fn newest_index(stamps: &[i128]) -> (r: Option<usize>)
    ensures
        match r {
            None => stamps@.len() == 0,
            Some(i) => {
                &&& i < stamps@.len()
                &&& forall|j: int| 0 <= j < stamps@.len() ==> stamps@[j] <= stamps@[i as int]
                &&& forall|j: int| 0 <= j < i ==> stamps@[j] < stamps@[i as int]
            },
        },
{
    let mut best: Option<usize> = None;
    let mut k: usize = 0;
    while k < stamps.len()
        invariant
            k <= stamps@.len(),
            match best {
                None => k == 0,
                Some(i) => {
                    &&& i < k
                    &&& forall|j: int| 0 <= j < k ==> stamps@[j] <= stamps@[i as int]
                    &&& forall|j: int| 0 <= j < i ==> stamps@[j] < stamps@[i as int]
                },
            },
        decreases stamps@.len() - k,
    {
        match best {
            None => {
                best = Some(k);
            },
            Some(i) => {
                if stamps[k] > stamps[i] {
                    best = Some(k);
                }
            },
        }
        k = k + 1;
    }
    best
}

} // verus!
