//! What the widgets of the screen show, as plain values: the text of each
//! table cell, which rows fit in the table, labels, titles and cursor positions.

use vstd::prelude::*;
use std::collections::HashSet;
use crate::app::{App, Focus};
use crate::scroll::min_int;
use crate::level::{Hue, LogLevel};
use crate::log_entry::{LogEntry, text_is_multiline, text_first_line};
use crate::text::{decimal, digit, digit_char, lines_of, pad_right, push_char, push_decimal, push_padded};

verus! {

broadcast use vstd::std_specs::hash::group_hash_axioms;

/// A rectangle of the terminal, in cells.
#[derive(Clone, Copy, Debug, PartialEq, Eq, Structural)]
pub struct Area {
    pub x: u16,
    pub y: u16,
    pub width: u16,
    pub height: u16,
}

// ---------------------------------------------------------------------------
// Filter input
// ---------------------------------------------------------------------------

/// A single-line text input with a labelled border that highlights when focused.
pub struct FilterInput<'a> {
    pub text: &'a str,
    pub title: &'a str,
    pub focused: bool,
}

impl<'a> FilterInput<'a> {
    /// Cursor x position within the parent area (for `Frame::set_cursor_position`):
    /// just after the text (its length in UTF-8 bytes, taken modulo 2^16 as `as u16`
    /// does), inside the left border.
    pub fn cursor_x(&self, area: Area) -> (x: u16)
        requires
            area.x + 1 + (self.text.len() as u16) <= u16::MAX,
        ensures
            x == area.x + 1 + (self.text.len() as u16),
    {
        area.x + 1 + (self.text.len() as u16)
    }

    /// Cursor y position within the parent area (for `Frame::set_cursor_position`):
    /// the line below the top border.
    pub fn cursor_y(&self, area: Area) -> (y: u16)
        requires
            area.y + 1 <= u16::MAX,
        ensures
            y == area.y + 1,
    {
        area.y + 1
    }

    /// The border is red while the input has the keyboard, dark gray otherwise.
    pub fn border_hue(&self) -> (h: Hue)
        ensures
            h == (if self.focused {
                Hue::Red
            } else {
                Hue::DarkGray
            }),
    {
        if self.focused {
            Hue::Red
        } else {
            Hue::DarkGray
        }
    }
}

/// Where the terminal cursor goes in the filter bar: after the text of the
/// focused input, the message input winning should both be focused (it is
/// placed last); `None` when neither has the keyboard.
pub fn filter_cursor(
    logger: &FilterInput,
    logger_area: Area,
    message: &FilterInput,
    message_area: Area,
) -> (c: Option<(u16, u16)>)
    requires
        logger.focused ==> logger_area.x + 1 + (logger.text.len() as u16) <= u16::MAX,
        logger.focused ==> logger_area.y + 1 <= u16::MAX,
        message.focused ==> message_area.x + 1 + (message.text.len() as u16) <= u16::MAX,
        message.focused ==> message_area.y + 1 <= u16::MAX,
    ensures
        match c {
            Some((x, y)) => if message.focused {
                x == message_area.x + 1 + (message.text.len() as u16) && y == message_area.y + 1
            } else {
                logger.focused && x == logger_area.x + 1 + (logger.text.len() as u16) && y
                    == logger_area.y + 1
            },
            None => !logger.focused && !message.focused,
        },
{
    let mut c: Option<(u16, u16)> = None;
    if logger.focused {
        c = Some((logger.cursor_x(logger_area), logger.cursor_y(logger_area)));
    }
    if message.focused {
        c = Some((message.cursor_x(message_area), message.cursor_y(message_area)));
    }
    c
}

// ---------------------------------------------------------------------------
// Level selector
// ---------------------------------------------------------------------------

/// A dropdown-style selector for the minimum log level filter.
pub struct LevelSelect {
    pub level: LogLevel,
    pub focused: bool,
}

/// The label of `l` in the selector: in brackets when it is the selected
/// level, between spaces otherwise.
pub open spec fn level_label(selected: LogLevel, l: LogLevel) -> Seq<char> {
    if l == selected {
        seq!['['] + l.name() + seq![']']
    } else {
        seq![' '] + l.name() + seq![' ']
    }
}

impl LevelSelect {
    /// The label of `l` in the selector.
    pub fn label(&self, l: LogLevel) -> (s: String)
        ensures
            s@ == level_label(self.level, l),
    {
        let mut s = String::new();
        if l == self.level {
            push_char(&mut s, '[');
            s.append(l.as_str());
            push_char(&mut s, ']');
        } else {
            push_char(&mut s, ' ');
            s.append(l.as_str());
            push_char(&mut s, ' ');
        }
        assert(s@ =~= level_label(self.level, l));
        s
    }

    /// The border is yellow while the selector has the keyboard, dark gray otherwise.
    pub fn border_hue(&self) -> (h: Hue)
        ensures
            h == (if self.focused {
                Hue::Yellow
            } else {
                Hue::DarkGray
            }),
    {
        if self.focused {
            Hue::Yellow
        } else {
            Hue::DarkGray
        }
    }
}

// ---------------------------------------------------------------------------
// Timeline labels
// ---------------------------------------------------------------------------

/// The magnitude of `ms`.
pub open spec fn abs_int(ms: int) -> nat {
    if ms < 0 {
        (-ms) as nat
    } else {
        ms as nat
    }
}

/// Milliseconds as "S.mmm" with no sign: whole seconds, a point, and the
/// milliseconds in three digits (`format!("{}.{:03}", abs / 1000, abs % 1000)`).
pub open spec fn ms_text(ms: int) -> Seq<char> {
    let a = abs_int(ms);
    let r = a % 1000;
    decimal(a / 1000) + seq!['.', digit_char(r / 100), digit_char((r / 10) % 10), digit_char(r % 10)]
}

/// Format milliseconds as "S.mmm" with no sign prefix.
pub fn fmt_ms(ms: i64) -> (s: String)
    ensures
        s@ == ms_text(ms as int),
{
    let a: u64 = if ms >= 0 {
        ms as u64
    } else if ms == i64::MIN {
        9223372036854775808u64
    } else {
        (-ms) as u64
    };
    assert(a == abs_int(ms as int));
    let r = a % 1000;
    let mut s = String::new();
    push_decimal(&mut s, a / 1000);
    push_char(&mut s, '.');
    push_char(&mut s, digit(r / 100));
    push_char(&mut s, digit((r / 10) % 10));
    push_char(&mut s, digit(r % 10));
    assert(s@ =~= ms_text(ms as int));
    s
}

/// Width of the timeline's axis in an inner area `inner_width` cells wide that
/// also holds the left label, a space, a space and the right label; `None` when
/// the area is under ten cells or leaves no cell for the axis.
pub fn timeline_axis_width(inner_width: u16, left_len: u16, right_len: u16) -> (w: Option<usize>)
    requires
        left_len + right_len + 2 <= u16::MAX,
    ensures
        match w {
            Some(a) => inner_width >= 10 && inner_width > left_len + right_len + 2 && a
                == inner_width - (left_len + right_len + 2),
            None => inner_width < 10 || inner_width <= left_len + right_len + 2,
        },
{
    if inner_width < 10 {
        return None;
    }
    let used = left_len + right_len + 2;
    if inner_width <= used {
        None
    } else {
        Some((inner_width - used) as usize)
    }
}

/// The axis on both sides of the timeline's marker: a marker `marker_len` cells
/// wide centred at `center`, moved right to start at the axis start and left to
/// end at the axis end, leaves `left` cells of axis before it and `right` after
/// it; `None` when the marker does not fit in the axis.
pub fn timeline_marker_edges(axis_width: usize, marker_len: usize, center: usize) -> (r: Option<(usize, usize)>)
    ensures
        match r {
            Some((left, right)) => {
                let start = if center >= marker_len / 2 {
                    center - marker_len / 2
                } else {
                    0
                };
                &&& axis_width > marker_len
                &&& left == min_int(start, axis_width - marker_len)
                &&& right == axis_width - (left + marker_len)
            },
            None => axis_width <= marker_len,
        },
{
    if axis_width <= marker_len {
        return None;
    }
    let half = marker_len / 2;
    let start = if center >= half {
        center - half
    } else {
        0
    };
    let room = axis_width - marker_len;
    let left = if start <= room {
        start
    } else {
        room
    };
    let right = axis_width - (left + marker_len);
    Some((left, right))
}

// ---------------------------------------------------------------------------
// Log table
// ---------------------------------------------------------------------------

/// The marker before a message: blank for a single line, a down triangle for an
/// expanded multi-line message, a right triangle for a collapsed one.
pub open spec fn marker_text(multiline: bool, expanded: bool) -> Seq<char> {
    if !multiline {
        seq![' ', ' ']
    } else if expanded {
        seq!['\u{25bc}', ' ']
    } else {
        seq!['\u{25b6}', ' ']
    }
}

/// The marker shown before the message of `entry`.
pub fn multiline_marker(entry: &LogEntry, expanded: bool) -> (s: &'static str)
    ensures
        s@ == marker_text(text_is_multiline(entry.text@), expanded),
{
    if !entry.is_multiline() {
        let s = "  ";
        proof {
            reveal_strlit("  ");
        }
        assert(s@ =~= marker_text(false, expanded));
        s
    } else if expanded {
        let s = "\u{25bc} ";
        proof {
            reveal_strlit("\u{25bc} ");
        }
        assert(s@ =~= marker_text(true, true));
        s
    } else {
        let s = "\u{25b6} ";
        proof {
            reveal_strlit("\u{25b6} ");
        }
        assert(s@ =~= marker_text(true, false));
        s
    }
}


/// Which entry a row of the table shows, in how many lines, and how.
#[derive(Clone, Copy, Debug, PartialEq, Eq, Structural)]
pub struct RowPlan {
    /// Position of the row among the filtered rows.
    pub row: usize,
    /// Index of the entry into all entries.
    pub entry_index: usize,
    /// Visual lines the row takes on screen.
    pub lines: usize,
    /// Whether the row shows its message expanded, one line per line.
    pub expanded: bool,
    /// Whether the row is the selected one.
    pub selected: bool,
}

/// The text of the cells of one row.
pub struct RowCells {
    pub time: String,
    pub level: String,
    pub logger: String,
    pub message: String,
}

/// The character sequences of a [`RowCells`].
pub struct RowCellsView {
    pub time: Seq<char>,
    pub level: Seq<char>,
    pub logger: Seq<char>,
    pub message: Seq<char>,
}

impl View for RowCells {
    type V = RowCellsView;

    open spec fn view(&self) -> RowCellsView {
        RowCellsView {
            time: self.time@,
            level: self.level@,
            logger: self.logger@,
            message: self.message@,
        }
    }
}

/// `s` repeated `k` times.
pub open spec fn repeat_seq(s: Seq<char>, k: nat) -> Seq<char>
    decreases k,
{
    if k == 0 {
        Seq::empty()
    } else {
        repeat_seq(s, (k - 1) as nat) + s
    }
}

/// The lines of an expanded message, the first after the marker and the others
/// indented by two spaces, joined by line feeds.
pub open spec fn joined_message(marker: Seq<char>, lines: Seq<Seq<char>>) -> Seq<char>
    decreases lines.len(),
{
    if lines.len() == 0 {
        Seq::empty()
    } else if lines.len() == 1 {
        marker + lines[0]
    } else {
        joined_message(marker, lines.drop_last()) + seq!['\n', ' ', ' '] + lines.last()
    }
}

/// The message cell of a collapsed row: marker, first line, and " ..." when
/// more lines follow.
pub open spec fn collapsed_message(text: Seq<char>) -> Seq<char> {
    let multi = text_is_multiline(text);
    marker_text(multi, false) + text_first_line(text) + if multi {
        seq![' ', '.', '.', '.']
    } else {
        Seq::empty()
    }
}

/// The cells of a row that shows `e`: collapsed on one line, or expanded over
/// `lines` lines (at most as many as the message has), the other columns
/// padded with line breaks to the same height.
pub open spec fn row_cells_of(e: LogEntry, expanded: bool, lines: nat) -> RowCellsView {
    if expanded {
        let all = lines_of(e.text@);
        let n = if lines <= all.len() {
            lines
        } else {
            all.len()
        };
        let more = if n >= 1 {
            (n - 1) as nat
        } else {
            0
        };
        RowCellsView {
            time: e.time@ + repeat_seq(seq!['\n', ' '], more),
            level: pad_right(e.level@, 5) + repeat_seq(seq!['\n', ' ', ' ', ' ', ' ', ' '], more),
            logger: e.logger@ + repeat_seq(seq!['\n', ' '], more),
            message: joined_message(marker_text(text_is_multiline(e.text@), true), all.take(n as int)),
        }
    } else {
        RowCellsView {
            time: e.time@,
            level: pad_right(e.level@, 5),
            logger: e.logger@,
            message: collapsed_message(e.text@),
        }
    }
}

/// " Logs [k/n] ": the selected row counted from one (0 when no row is shown) and the row count.
pub open spec fn table_title(selected: nat, rows: nat) -> Seq<char> {
    let shown = if rows == 0 {
        0
    } else {
        selected + 1
    };
    seq![' ', 'L', 'o', 'g', 's', ' ', '['] + decimal(shown) + seq!['/'] + decimal(rows) + seq![
        ']',
        ' ',
    ]
}

/// Lines of the table body inside the border: one line less for the header.
pub fn body_height(inner_height: u16) -> (h: usize)
    ensures
        h == (if inner_height >= 1 {
            inner_height - 1
        } else {
            0
        }),
{
    if inner_height >= 1 {
        (inner_height - 1) as usize
    } else {
        0
    }
}

fn append_repeat(s: &mut String, unit: &str, k: usize)
    ensures
        final(s)@ == old(s)@ + repeat_seq(unit@, k as nat),
{
    let mut i: usize = 0;
    while i < k
        invariant
            i <= k,
            s@ == old(s)@ + repeat_seq(unit@, i as nat),
        decreases k - i,
    {
        s.append(unit);
        i = i + 1;
        assert(s@ =~= old(s)@ + repeat_seq(unit@, i as nat));
    }
}

/// What the log table is drawn from: the entries, the rows that pass the
/// filters, the expanded entries, the selection and the first row shown.
pub struct LogTable<'a> {
    pub all_entries: &'a [LogEntry],
    pub filtered_indices: &'a [usize],
    pub expanded: &'a HashSet<usize>,
    pub selected: usize,
    pub scroll_offset: usize,
}

impl<'a> LogTable<'a> {
    /// Every filtered index names an entry.
    pub open spec fn wf(&self) -> bool {
        forall|k: int|
            0 <= k < self.filtered_indices@.len() ==> #[trigger] self.filtered_indices@[k]
                < self.all_entries@.len()
    }

    /// Row `row` shows an expanded multi-line message.
    pub open spec fn row_expanded(&self, row: int) -> bool {
        let idx = self.filtered_indices@[row];
        self.expanded@.contains(idx) && text_is_multiline(self.all_entries@[idx as int].text@)
    }

    /// Lines that row `row` needs: its message's lines when expanded, else one.
    pub open spec fn row_needs(&self, row: int) -> nat {
        if self.row_expanded(row) {
            lines_of(self.all_entries@[self.filtered_indices@[row] as int].text@).len()
        } else {
            1
        }
    }

    /// The rows drawn from `row` on when `used` of `height` lines are taken:
    /// rows follow each other until the rows run out or the lines are used up;
    /// an expanded row that does not fit whole is cut to the lines left.
    pub open spec fn plan_from(&self, height: nat, row: int, used: nat) -> Seq<RowPlan>
        decreases self.filtered_indices@.len() - row,
    {
        if row < 0 || row >= self.filtered_indices@.len() || used >= height {
            Seq::empty()
        } else {
            let need = self.row_needs(row);
            let shown = if used + need > height {
                (height - used) as nat
            } else {
                need
            };
            seq![
                RowPlan {
                    row: row as usize,
                    entry_index: self.filtered_indices@[row],
                    lines: shown as usize,
                    expanded: self.row_expanded(row),
                    selected: row == self.selected,
                },
            ] + self.plan_from(height, row + 1, used + shown)
        }
    }

    /// The rows drawn in a body of `table_height` lines, from the first row shown.
    pub fn plan(&self, table_height: usize) -> (v: Vec<RowPlan>)
        requires
            self.wf(),
        ensures
            v@ == self.plan_from(table_height as nat, self.scroll_offset as int, 0),
            forall|k: int| 0 <= k < v@.len() ==> #[trigger] v@[k].entry_index < self.all_entries@.len(),
            forall|k: int|
                0 <= k < v@.len() ==> {
                    &&& (#[trigger] v@[k]).row == self.scroll_offset + k
                    &&& v@[k].row < self.filtered_indices@.len()
                    &&& v@[k].entry_index == self.filtered_indices@[v@[k].row as int]
                    &&& v@[k].selected == (v@[k].row == self.selected)
                    &&& 1 <= v@[k].lines <= self.row_needs(v@[k].row as int)
                    &&& (k + 1 < v@.len() ==> v@[k].lines == self.row_needs(v@[k].row as int))
                },
            planned_lines(v@) <= table_height,
            planned_lines(v@) < table_height && self.scroll_offset <= self.filtered_indices@.len()
                ==> self.scroll_offset + v@.len() == self.filtered_indices@.len(),
    {
        let mut out: Vec<RowPlan> = Vec::new();
        let mut used: usize = 0;
        let mut row: usize = self.scroll_offset;
        let n = self.filtered_indices.len();
        while row < n && used < table_height
            invariant
                self.wf(),
                n == self.filtered_indices@.len(),
                used <= table_height,
                out@ + self.plan_from(table_height as nat, row as int, used as nat) == self.plan_from(
                    table_height as nat,
                    self.scroll_offset as int,
                    0,
                ),
                forall|k: int|
                    0 <= k < out@.len() ==> #[trigger] out@[k].entry_index < self.all_entries@.len(),
            decreases n - row,
        {
            let idx = self.filtered_indices[row];
            let entry = &self.all_entries[idx];
            let expanded = self.expanded.contains(&idx) && entry.is_multiline();
            let need = if expanded {
                entry.lines().len()
            } else {
                1
            };
            let shown = if need > table_height - used {
                table_height - used
            } else {
                need
            };
            let p = RowPlan {
                row,
                entry_index: idx,
                lines: shown,
                expanded,
                selected: row == self.selected,
            };
            let ghost rest = self.plan_from(table_height as nat, row + 1, (used + shown) as nat);
            assert(self.plan_from(table_height as nat, row as int, used as nat) == seq![p] + rest);
            assert(out@.push(p) + rest =~= out@ + (seq![p] + rest));
            out.push(p);
            used = used + shown;
            row = row + 1;
        }
        assert(self.plan_from(table_height as nat, row as int, used as nat) =~= Seq::<RowPlan>::empty());
        assert(out@ + Seq::<RowPlan>::empty() =~= out@);
        proof {
            self.lemma_plan_rows(table_height as nat, self.scroll_offset as int, 0);
            self.lemma_plan_lines(table_height as nat, self.scroll_offset as int, 0);
            self.lemma_plan_fits(table_height as nat);
        }
        out
    }

    /// The cells of a planned row.
    pub fn row_cells(&self, p: &RowPlan) -> (c: RowCells)
        requires
            p.entry_index < self.all_entries@.len(),
        ensures
            c@ == row_cells_of(self.all_entries@[p.entry_index as int], p.expanded, p.lines as nat),
            self.all_entries@[p.entry_index as int].time@.is_prefix_of(c.time@),
            self.all_entries@[p.entry_index as int].level@.is_prefix_of(c.level@),
            self.all_entries@[p.entry_index as int].logger@.is_prefix_of(c.logger@),
            !p.expanded ==> c.time@ == self.all_entries@[p.entry_index as int].time@ && c.logger@
                == self.all_entries@[p.entry_index as int].logger@ && c.message@.len() >= 2
                && c.message@.subrange(
                2,
                2 + text_first_line(self.all_entries@[p.entry_index as int].text@).len() as int,
            ) == text_first_line(self.all_entries@[p.entry_index as int].text@),
            !p.expanded && self.all_entries@[p.entry_index as int].text@.contains('\n') ==> c.message@
                == marker_text(true, false) + text_first_line(
                self.all_entries@[p.entry_index as int].text@,
            ) + seq![' ', '.', '.', '.'],
            !p.expanded && !self.all_entries@[p.entry_index as int].text@.contains('\n') ==> c.message@
                == seq![' ', ' '] + text_first_line(self.all_entries@[p.entry_index as int].text@),
    {
        proof {
            let e = self.all_entries@[p.entry_index as int];
            let cv = row_cells_of(e, p.expanded, p.lines as nat);
            assert(cv.time.take(e.time@.len() as int) =~= e.time@);
            assert(cv.logger.take(e.logger@.len() as int) =~= e.logger@);
            assert(pad_right(e.level@, 5).take(e.level@.len() as int) =~= e.level@);
            assert(cv.level.take(e.level@.len() as int) =~= e.level@);
            if !p.expanded {
                let fl = text_first_line(e.text@);
                assert(cv.message.subrange(2, 2 + fl.len() as int) =~= fl);
            }
        }
        let e = &self.all_entries[p.entry_index];
        if p.expanded {
            let all = e.lines();
            let n = if p.lines <= all.len() {
                p.lines
            } else {
                all.len()
            };
            let more = if n >= 1 {
                n - 1
            } else {
                0
            };
            let mut time = String::new();
            time.append(e.time.as_str());
            append_repeat(&mut time, "\n ", more);
            let mut level = String::new();
            push_padded(&mut level, e.level.as_str(), 5);
            append_repeat(&mut level, "\n     ", more);
            let mut logger = String::new();
            logger.append(e.logger.as_str());
            append_repeat(&mut logger, "\n ", more);
            let marker = multiline_marker(e, true);
            let mut message = String::new();
            let mut k: usize = 0;
            let ghost ls = lines_of(e.text@);
            while k < n
                invariant
                    n <= all@.len(),
                    all@.len() == ls.len(),
                    forall|j: int| 0 <= j < all@.len() ==> #[trigger] all@[j]@ == ls[j],
                    marker@ == marker_text(text_is_multiline(e.text@), true),
                    k <= n,
                    message@ == joined_message(marker@, ls.take(k as int)),
                decreases n - k,
            {
                if k == 0 {
                    message.append(marker);
                } else {
                    push_char(&mut message, '\n');
                    push_char(&mut message, ' ');
                    push_char(&mut message, ' ');
                }
                message.append(all[k]);
                proof {
                    assert(ls.take(k + 1).drop_last() =~= ls.take(k as int));
                    assert(ls.take(k + 1).last() == ls[k as int]);
                    if k == 0 {
                        assert(ls.take(0) =~= Seq::<Seq<char>>::empty());
                    }
                }
                k = k + 1;
                assert(message@ =~= joined_message(marker@, ls.take(k as int)));
            }
            proof {
                reveal_strlit("\n ");
                reveal_strlit("\n     ");
                assert("\n "@ =~= seq!['\n', ' ']);
                assert("\n     "@ =~= seq!['\n', ' ', ' ', ' ', ' ', ' ']);
            }
            RowCells { time, level, logger, message }
        } else {
            let mut time = String::new();
            time.append(e.time.as_str());
            let mut level = String::new();
            push_padded(&mut level, e.level.as_str(), 5);
            let mut logger = String::new();
            logger.append(e.logger.as_str());
            let multi = e.is_multiline();
            let mut message = String::new();
            message.append(multiline_marker(e, false));
            message.append(e.first_line());
            if multi {
                message.append(" ...");
                proof {
                    reveal_strlit(" ...");
                }
            }
            assert(message@ =~= collapsed_message(e.text@));
            RowCells { time, level, logger, message }
        }
    }

    /// The title of the table's border.
    pub fn title(&self) -> (s: String)
        requires
            self.filtered_indices@.len() > 0 ==> self.selected < usize::MAX,
        ensures
            s@ == table_title(self.selected as nat, self.filtered_indices@.len()),
    {
        let rows = self.filtered_indices.len();
        let shown: usize = if rows == 0 {
            0
        } else {
            self.selected + 1
        };
        let mut s = String::new();
        s.append(" Logs [");
        push_decimal(&mut s, shown as u64);
        push_char(&mut s, '/');
        push_decimal(&mut s, rows as u64);
        push_char(&mut s, ']');
        push_char(&mut s, ' ');
        proof {
            reveal_strlit(" Logs [");
        }
        assert(s@ =~= table_title(self.selected as nat, self.filtered_indices@.len()));
        s
    }
}


// ---------------------------------------------------------------------------
// Help bar
// ---------------------------------------------------------------------------

/// The keys listed while the table has the keyboard.
pub open spec fn table_help() -> Seq<char> {
    " q:Quit  \u{2191}\u{2193}/jk:Navigate  Space:Expand/Collapse  l:Logger filter  /:Message filter  v:Level filter  s:Save  g/G:Top/Bottom  PgUp/PgDn"@
}

/// The keys listed while a filter field has the keyboard.
pub open spec fn filter_help() -> Seq<char> {
    " Enter/Esc:Back to table  Tab:Switch filter"@
}

/// The help bar outside the save prompt: the outcome of the last save when
/// there is one, else the keys of the focused part.
pub open spec fn help_text_of(focus: Focus, status: Option<Seq<char>>) -> Seq<char> {
    match status {
        Some(s) => s,
        None => if focus == Focus::Table {
            table_help()
        } else {
            filter_help()
        },
    }
}

/// The text of the help bar outside the save prompt.
pub fn help_text(app: &App) -> (s: &str)
    requires
        app.focus != Focus::SavePrompt,
    ensures
        s@ == help_text_of(
            app.focus,
            match app.save_status {
                Some(t) => Some(t@),
                None => None,
            },
        ),
{
    match &app.save_status {
        Some(status) => status.as_str(),
        None => match app.focus {
            Focus::Table => " q:Quit  \u{2191}\u{2193}/jk:Navigate  Space:Expand/Collapse  l:Logger filter  /:Message filter  v:Level filter  s:Save  g/G:Top/Bottom  PgUp/PgDn",
            _ => " Enter/Esc:Back to table  Tab:Switch filter",
        },
    }
}

/// The help bar is green while it shows the outcome of a save, dark gray otherwise.
pub fn help_hue(app: &App) -> (h: Hue)
    ensures
        h == (if app.save_status is Some {
            Hue::Green
        } else {
            Hue::DarkGray
        }),
{
    if app.save_status.is_some() {
        Hue::Green
    } else {
        Hue::DarkGray
    }
}

/// The label in front of the path typed at the save prompt.
pub open spec fn save_label() -> Seq<char> {
    " Save to: "@
}

/// The label in front of the path typed at the save prompt.
pub fn save_prompt_label() -> (s: &'static str)
    ensures
        s@ == save_label(),
{
    " Save to: "
}

/// Cursor x position at the save prompt: after the label and the typed path
/// (both in UTF-8 bytes, the path's taken modulo 2^16 as `as u16` does).
pub fn save_cursor_x(area: Area, prompt: &str) -> (x: u16)
    requires
        area.x + 10 + (prompt.len() as u16) <= u16::MAX,
    ensures
        x == area.x + 10 + (prompt.len() as u16),
{
    let label = save_prompt_label();
    proof {
        reveal_strlit(" Save to: ");
    }
    assert(label.len() == 10) by {
        vstd::string::is_ascii_spec_bytes(label);
    }
    area.x + (label.len() as u16) + (prompt.len() as u16)
}

/// Lines taken by the planned rows.
pub open spec fn planned_lines(plan: Seq<RowPlan>) -> nat
    decreases plan.len(),
{
    if plan.len() == 0 {
        0
    } else {
        planned_lines(plan.drop_first()) + plan[0].lines as nat
    }
}

impl<'a> LogTable<'a> {
    proof fn lemma_plan_from_fits(&self, height: nat, row: int, used: nat)
        requires
            used <= height,
        ensures
            used + planned_lines(self.plan_from(height, row, used)) <= height,
        decreases self.filtered_indices@.len() - row,
    {
        if !(row < 0 || row >= self.filtered_indices@.len() || used >= height) {
            let need = self.row_needs(row);
            let shown = if used + need > height {
                (height - used) as nat
            } else {
                need
            };
            self.lemma_plan_from_fits(height, row + 1, used + shown);
            let p = self.plan_from(height, row, used);
            assert(p.drop_first() =~= self.plan_from(height, row + 1, used + shown));
        }
    }

    /// The rows planned for a body of `height` lines take at most `height` lines.
    pub proof fn lemma_plan_fits(&self, height: nat)
        ensures
            planned_lines(self.plan_from(height, self.scroll_offset as int, 0)) <= height,
    {
        self.lemma_plan_from_fits(height, self.scroll_offset as int, 0);
    }

    /// Each planned row shows the entry at its own filtered position: the rows
    /// planned from `row` on are `row, row + 1, ...` in order, each one a shown
    /// row, each showing the entry that the filtered indices name for it, and
    /// marked selected exactly when it is the selected row.
    pub proof fn lemma_plan_rows(&self, height: nat, row: int, used: nat)
        requires
            row >= 0,
        ensures
            forall|k: int|
                0 <= k < self.plan_from(height, row, used).len() ==> {
                    let p = #[trigger] self.plan_from(height, row, used)[k];
                    &&& p.row == row + k
                    &&& p.row < self.filtered_indices@.len()
                    &&& p.entry_index == self.filtered_indices@[p.row as int]
                    &&& p.selected == (p.row == self.selected)
                },
        decreases self.filtered_indices@.len() - row,
    {
        if !(row < 0 || row >= self.filtered_indices@.len() || used >= height) {
            let need = self.row_needs(row);
            let shown = if used + need > height {
                (height - used) as nat
            } else {
                need
            };
            self.lemma_plan_rows(height, row + 1, used + shown);
            let p = self.plan_from(height, row, used);
            let rest = self.plan_from(height, row + 1, used + shown);
            assert(self.filtered_indices@.len() == self.filtered_indices.len());
            assert forall|k: int| 0 <= k < p.len() implies {
                let q = #[trigger] p[k];
                &&& q.row == row + k
                &&& q.row < self.filtered_indices@.len()
                &&& q.entry_index == self.filtered_indices@[q.row as int]
                &&& q.selected == (q.row == self.selected)
            } by {
                if k > 0 {
                    assert(p[k] == rest[k - 1]);
                }
            }
        }
    }

    /// How many lines each planned row gets: a collapsed row one line, an
    /// expanded row all its lines, except that the last row planned may be cut
    /// to the lines left, but never to none; and rows are planned until the
    /// rows or the lines run out.
    pub proof fn lemma_plan_lines(&self, height: nat, row: int, used: nat)
        requires
            self.wf(),
            row >= 0,
            used <= height,
            height <= usize::MAX,
        ensures
            ({
                let plan = self.plan_from(height, row, used);
                &&& forall|k: int|
                    0 <= k < plan.len() ==> {
                        let p = #[trigger] plan[k];
                        &&& 1 <= p.lines <= self.row_needs(row + k)
                        &&& (k + 1 < plan.len() ==> p.lines == self.row_needs(row + k))
                        &&& p.expanded == self.row_expanded(row + k)
                        &&& (!p.expanded ==> p.lines == 1)
                    }
                &&& (used + planned_lines(plan) < height && row <= self.filtered_indices@.len())
                    ==> row + plan.len() == self.filtered_indices@.len()
            }),
        decreases self.filtered_indices@.len() - row,
    {
        let plan = self.plan_from(height, row, used);
        if !(row < 0 || row >= self.filtered_indices@.len() || used >= height) {
            let need = self.row_needs(row);
            if self.row_expanded(row) {
                crate::text::lemma_multiline_has_lines(
                    self.all_entries@[self.filtered_indices@[row] as int].text@,
                );
            }
            let shown = if used + need > height {
                (height - used) as nat
            } else {
                need
            };
            self.lemma_plan_lines(height, row + 1, used + shown);
            let rest = self.plan_from(height, row + 1, used + shown);
            assert(plan.drop_first() =~= rest);
            assert(self.filtered_indices@.len() == self.filtered_indices.len());
            assert forall|k: int| 0 <= k < plan.len() implies {
                let p = #[trigger] plan[k];
                &&& 1 <= p.lines <= self.row_needs(row + k)
                &&& (k + 1 < plan.len() ==> p.lines == self.row_needs(row + k))
                &&& p.expanded == self.row_expanded(row + k)
                &&& (!p.expanded ==> p.lines == 1)
            } by {
                if k > 0 {
                    assert(plan[k] == rest[k - 1]);
                    assert(row + 1 + (k - 1) == row + k);
                } else {
                    if used + need > height && rest.len() > 0 {
                        assert(used + shown == height);
                    }
                }
            }
        }
    }

    proof fn lemma_plan_from_reaches(&self, height: nat, row: int, used: nat, sel: int)
        requires
            self.wf(),
            0 <= row <= sel < self.filtered_indices@.len(),
            used < height,
            row == sel || used + crate::scroll::range_sum(
                |r: int| self.row_needs(r),
                row,
                sel + 1,
            ) <= height,
            forall|r: int| 0 <= r < self.filtered_indices@.len() ==> self.row_needs(r) >= 1,
        ensures
            exists|k: int|
                0 <= k < self.plan_from(height, row, used).len() && (#[trigger] self.plan_from(
                    height,
                    row,
                    used,
                )[k]).row == sel,
        decreases sel - row,
    {
        let plan = self.plan_from(height, row, used);
        assert(self.filtered_indices@.len() == self.filtered_indices.len());
        if row == sel {
            assert(plan[0].row == sel);
        } else {
            let hs = |r: int| self.row_needs(r);
            let need = self.row_needs(row);
            assert(crate::scroll::range_sum(hs, row, row) == 0);
            assert(crate::scroll::range_sum(hs, sel, sel) == 0);
            crate::scroll::lemma_range_sum_split(hs, row, row + 1, sel + 1);
            crate::scroll::lemma_range_sum_split(hs, row + 1, sel, sel + 1);
            assert(crate::scroll::range_sum(hs, row, row + 1) == need);
            assert(crate::scroll::range_sum(hs, sel, sel + 1) == hs(sel));
            self.lemma_plan_from_reaches(height, row + 1, used + need, sel);
            let rest = self.plan_from(height, row + 1, used + need);
            let k = choose|k: int| 0 <= k < rest.len() && (#[trigger] rest[k]).row == sel;
            assert(plan[k + 1] == rest[k]);
        }
    }
}

/// The selected row is drawn: when the viewer's selection is on screen (as
/// every navigation key leaves it) and the table body has the viewport's
/// height, the rows planned for the body include the selected row.
pub proof fn lemma_selected_row_drawn(app: App, t: LogTable)
    requires
        app.wf(),
        app.selection_shown(),
        app.rows() > 0,
        app.scroll.visible_rows >= 1,
        t.all_entries@ == app.model.all_entries@,
        t.filtered_indices@ == app.model.filtered_indices@,
        t.expanded@ == app.model.expanded@,
        t.selected == app.scroll.selected,
        t.scroll_offset == app.scroll.scroll_offset,
    ensures
        ({
            let plan = t.plan_from(app.scroll.visible_rows as nat, t.scroll_offset as int, 0);
            exists|k: int| 0 <= k < plan.len() && (#[trigger] plan[k]).row == t.selected && plan[k].selected
        }),
{
    let n = t.filtered_indices@.len();
    assert forall|r: int| 0 <= r < n implies t.row_needs(r) >= 1 && t.row_needs(r)
        == app.model.spec_row_height(r) by {
        if t.row_expanded(r) {
            crate::text::lemma_multiline_has_lines(
                t.all_entries@[t.filtered_indices@[r] as int].text@,
            );
        }
    }
    let ths = |r: int| t.row_needs(r);
    if t.scroll_offset < t.selected {
        crate::scroll::lemma_range_sum_same(
            ths,
            app.heights(),
            t.scroll_offset as int,
            t.selected + 1,
        );
    }
    t.lemma_plan_from_reaches(
        app.scroll.visible_rows as nat,
        t.scroll_offset as int,
        0,
        t.selected as int,
    );
    let plan = t.plan_from(app.scroll.visible_rows as nat, t.scroll_offset as int, 0);
    t.lemma_plan_rows(app.scroll.visible_rows as nat, t.scroll_offset as int, 0);
}

} // verus!
