//! The viewer's state: the table, the viewport, the filters and which part of
//! the screen has the keyboard, with the operations that the keys trigger.

use vstd::prelude::*;
use crate::level::LogLevel;
use crate::model::{Filters, TableModel, passing_indices, toggled};
use crate::log_entry::text_is_multiline;
use crate::scroll::{ScrollState, clamped_offset, heights_of, lemma_clamp_shows_selected, range_sum, page_jump, last_row, min_int};

verus! {

/// The part of the screen that receives typed keys.
#[derive(Clone, Copy, Debug, PartialEq, Eq, Structural)]
pub enum Focus {
    Table,
    LoggerFilter,
    MessageFilter,
    SavePrompt,
}

/// The whole state of the viewer.
pub struct App {
    pub model: TableModel,
    pub scroll: ScrollState,
    pub filters: Filters,
    pub focus: Focus,
    pub filename: String,
    /// The path typed at the save prompt.
    pub save_prompt: String,
    /// The outcome of the last save, shown in the help bar until the next prompt.
    pub save_status: Option<String>,
}

/// The selection is a shown row, or row 0 when no row is shown.
pub open spec fn selection_in_range(selected: int, rows: int) -> bool {
    selected < rows || (rows == 0 && selected == 0)
}

/// The selection after the rows changed to `rows`: kept when it still exists,
/// else the last row, or 0 when there is none.
pub open spec fn reselect(selected: int, rows: int) -> int {
    if rows == 0 {
        0
    } else if selected >= rows {
        rows - 1
    } else {
        selected
    }
}

/// The selection after moving down one row among `rows`.
pub open spec fn next_selected(selected: int, rows: int) -> int {
    if selected + 1 < rows {
        selected + 1
    } else {
        selected
    }
}

/// The selection after moving up one row.
pub open spec fn prev_selected(selected: int) -> int {
    if selected > 0 {
        selected - 1
    } else {
        0
    }
}

/// The selection after jumping to the last of `rows` rows.
pub open spec fn last_selected(selected: int, rows: int) -> int {
    if rows > 0 {
        rows - 1
    } else {
        selected
    }
}

/// The selection after a page down among `rows` rows in a viewport of `visible` lines.
pub open spec fn page_down_selected(selected: int, visible: int, rows: int) -> int {
    min_int(selected + page_jump(visible), last_row(rows))
}

/// The selection after a page up in a viewport of `visible` lines.
pub open spec fn page_up_selected(selected: int, visible: int) -> int {
    if selected >= page_jump(visible) {
        selected - page_jump(visible)
    } else {
        0
    }
}

/// How the selection moves, for a selection on a shown row: down and then up
/// comes back, up and then down comes back, each moves by at most one row and
/// stays on a shown row; a page moves by the page jump (two lines less than
/// the viewport, at least one) unless the first or last row stops it; the end
/// key selects the last row.
pub proof fn lemma_selection_moves(sel: int, rows: int, visible: int)
    requires
        0 <= sel,
        0 <= rows,
        selection_in_range(sel, rows),
    ensures
        sel + 1 < rows ==> next_selected(sel, rows) == sel + 1 && prev_selected(
            next_selected(sel, rows),
        ) == sel,
        sel + 1 >= rows ==> next_selected(sel, rows) == sel,
        sel > 0 ==> prev_selected(sel) == sel - 1 && next_selected(prev_selected(sel), rows) == sel,
        sel == 0 ==> prev_selected(sel) == 0,
        selection_in_range(next_selected(sel, rows), rows),
        selection_in_range(prev_selected(sel), rows),
        rows > 0 ==> last_selected(sel, rows) == rows - 1,
        selection_in_range(page_down_selected(sel, visible, rows), rows),
        sel <= page_down_selected(sel, visible, rows) <= sel + (if visible >= 3 {
            visible - 2
        } else {
            1
        }),
        sel + (if visible >= 3 {
            visible - 2
        } else {
            1
        }) < rows ==> page_down_selected(sel, visible, rows) == sel + (if visible >= 3 {
            visible - 2
        } else {
            1
        }),
        rows > 0 && sel + (if visible >= 3 {
            visible - 2
        } else {
            1
        }) >= rows ==> page_down_selected(sel, visible, rows) == rows - 1,
        0 <= page_up_selected(sel, visible) <= sel,
        page_up_selected(sel, visible) == (if sel >= (if visible >= 3 {
            visible - 2
        } else {
            1
        }) {
            sel - (if visible >= 3 {
                visible - 2
            } else {
                1
            })
        } else {
            0
        }),
{
}

/// The selection after refiltering: kept when it is still a shown row, moved
/// to the last row when it lies at or past the new row count, 0 when no row
/// is shown; in every case a shown row, or 0.
pub proof fn lemma_reselect(selected: int, rows: int)
    requires
        selected >= 0,
        rows >= 0,
    ensures
        selected < rows ==> reselect(selected, rows) == selected,
        rows > 0 && selected >= rows ==> reselect(selected, rows) == rows - 1,
        rows == 0 ==> reselect(selected, rows) == 0,
        selection_in_range(reselect(selected, rows), rows),
        reselect(selected, rows) <= selected,
{
}

impl App {
    /// `self` is `old` with the selection moved to `sel` and the viewport
    /// clamped to show it.
    pub open spec fn moved_to(&self, old: &App, sel: int) -> bool {
        &&& self.model.wf()
        &&& (old.wf() ==> self.wf())
        &&& self.same_but_scroll(old)
        &&& self.scroll.selected == sel
        &&& self.scroll.scroll_offset == old.clamp_result(sel, old.scroll.scroll_offset as int)
        &&& self.selection_shown()
    }

    /// `self` is `old` after its filters were changed to `self.filters` and applied.
    pub open spec fn refiltered_from(&self, old: &App) -> bool {
        &&& self.wf()
        &&& self.focus == old.focus
        &&& self.filename == old.filename
        &&& self.save_prompt == old.save_prompt
        &&& self.save_status == old.save_status
        &&& self.model.all_entries@ == old.model.all_entries@
        &&& self.model.expanded@ == old.model.expanded@
        &&& self.model.filtered_indices@ == passing_indices(
            self.filters.spec_predicate(),
            old.model.all_entries@,
            old.model.all_entries@.len(),
        )
        &&& self.scroll.selected == reselect(old.scroll.selected as int, self.rows() as int)
        &&& self.scroll.scroll_offset == self.clamp_result(
            self.scroll.selected as int,
            old.scroll.scroll_offset as int,
        )
        &&& self.scroll.visible_rows == old.scroll.visible_rows
        &&& self.selection_shown()
    }

    /// `self` is `old` with the selected row expanded or collapsed when it holds a
    /// multi-line message.
    pub open spec fn toggled_from(&self, old: &App) -> bool {
        &&& self.model.wf()
        &&& (old.wf() ==> self.wf())
        &&& self.scroll == old.scroll
        &&& self.filters == old.filters
        &&& self.focus == old.focus
        &&& self.filename == old.filename
        &&& self.save_prompt == old.save_prompt
        &&& self.save_status == old.save_status
        &&& self.model.all_entries@ == old.model.all_entries@
        &&& self.model.filtered_indices@ == old.model.filtered_indices@
        &&& ({
            let rows = old.model.filtered_indices@;
            let sel = old.scroll.selected as int;
            if sel < rows.len() && text_is_multiline(old.model.all_entries@[rows[sel] as int].text@) {
                self.model.expanded@ == toggled(old.model.expanded@, rows[sel])
            } else {
                self.model.expanded@ == old.model.expanded@
            }
        })
    }

    /// Number of rows shown.
    pub open spec fn rows(&self) -> nat {
        self.model.filtered_indices@.len()
    }

    /// Visual lines of each row.
    pub open spec fn heights(&self) -> spec_fn(int) -> nat {
        |r: int| self.model.spec_row_height(r)
    }

    /// The table is valid and the selection is a shown row (row 0 when none is).
    pub open spec fn wf(&self) -> bool {
        &&& self.model.wf()
        &&& selection_in_range(self.scroll.selected as int, self.rows() as int)
    }

    /// The selected row is on screen: the viewport starts at or above it and
    /// the rows from its start through the selected one fit in it (or the
    /// selected row is the first one shown).
    pub open spec fn selection_shown(&self) -> bool {
        &&& self.scroll.scroll_offset <= self.scroll.selected
        &&& (self.scroll.scroll_offset == self.scroll.selected || range_sum(
            self.heights(),
            self.scroll.scroll_offset as int,
            self.scroll.selected + 1,
        ) <= self.scroll.visible_rows)
    }

    /// The viewport start that clamping gives for the given selection and start.
    pub open spec fn clamp_result(&self, selected: int, offset: int) -> int {
        clamped_offset(
            self.heights(),
            selected,
            offset,
            self.rows() as int,
            self.scroll.visible_rows as int,
        )
    }

    /// Everything but the viewport is as in `other`.
    pub open spec fn same_but_scroll(&self, other: &App) -> bool {
        &&& self.model == other.model
        &&& self.filters == other.filters
        &&& self.focus == other.focus
        &&& self.filename == other.filename
        &&& self.save_prompt == other.save_prompt
        &&& self.save_status == other.save_status
        &&& self.scroll.visible_rows == other.scroll.visible_rows
    }

    /// A viewer on `model` with the first row selected, no filters and the table focused.
    pub fn new(model: TableModel, filename: String) -> (app: Self)
        ensures
            model.wf() ==> app.wf(),
            app.model == model,
            app.filename == filename,
            app.scroll.selected == 0,
            app.scroll.scroll_offset == 0,
            app.scroll.visible_rows == 20,
            app.filters.logger@.len() == 0,
            app.filters.message@.len() == 0,
            app.filters.min_level == LogLevel::Trace,
            app.focus == Focus::Table,
            app.save_prompt@.len() == 0,
            app.save_status is None,
    {
        App {
            model,
            scroll: ScrollState::new(),
            filters: Filters::new(),
            focus: Focus::Table,
            filename,
            save_prompt: String::new(),
            save_status: None,
        }
    }

    /// Moves the viewport so that the selected row is on screen.
    fn clamp_scroll(&mut self)
        requires
            old(self).model.wf(),
        ensures
            final(self).same_but_scroll(old(self)),
            final(self).scroll.selected == old(self).scroll.selected,
            final(self).scroll.scroll_offset == old(self).clamp_result(
                old(self).scroll.selected as int,
                old(self).scroll.scroll_offset as int,
            ),
            final(self).selection_shown(),
    {
        let total = self.model.filtered_indices.len();
        let model = &self.model;
        let f = |row: usize| -> (h: usize)
            requires
                model.wf(),
            ensures
                h == model.spec_row_height(row as int),
            { model.row_height(row) };
        let ghost hs = self.heights();
        self.scroll.clamp(total, f);
        proof {
            assert(heights_of(f, hs));
            lemma_clamp_shows_selected(
                hs,
                old(self).scroll.selected as int,
                old(self).scroll.scroll_offset as int,
                total as int,
                old(self).scroll.visible_rows as int,
            );
        }
    }

    /// Applies the current filters, keeps the selection within the rows now
    /// shown and brings it on screen.
    pub fn apply_filters(&mut self)
        ensures
            final(self).filters == old(self).filters,
            final(self).refiltered_from(old(self)),
            final(self).rows() == 0 ==> final(self).scroll.selected == 0,
            final(self).rows() > 0 && old(self).scroll.selected >= final(self).rows() ==> final(self).scroll.selected == final(self).rows() - 1,
            old(self).scroll.selected < final(self).rows() ==> final(self).scroll.selected == old(self).scroll.selected,
    {
        self.model.apply_filters(&self.filters);
        let len = self.model.filtered_indices.len();
        if len == 0 {
            self.scroll.selected = 0;
        } else if self.scroll.selected >= len {
            self.scroll.selected = len - 1;
        }
        self.clamp_scroll();
    }

    /// Expands or collapses the selected row when it holds a multi-line message.
    pub fn toggle_expand(&mut self)
        requires
            old(self).model.wf(),
        ensures
            final(self).toggled_from(old(self)),
            forall|k: usize|
                !(old(self).scroll.selected < old(self).model.filtered_indices@.len() && k
                    == old(self).model.filtered_indices@[old(self).scroll.selected as int]) ==> (
                #[trigger] final(self).model.expanded@.contains(k) == old(self).model.expanded@.contains(k)),
            final(self).scroll == old(self).scroll,
    {
        self.model.toggle_expand(self.scroll.selected);
    }

    /// Selects the next row and brings it on screen.
    pub fn next_row(&mut self)
        requires
            old(self).model.wf(),
        ensures
            final(self).moved_to(
                old(self),
                next_selected(old(self).scroll.selected as int, old(self).rows() as int),
            ),
    {
        self.scroll.next(self.model.filtered_indices.len());
        self.clamp_scroll();
    }

    /// Selects the previous row and brings it on screen.
    pub fn prev_row(&mut self)
        requires
            old(self).model.wf(),
        ensures
            final(self).moved_to(old(self), prev_selected(old(self).scroll.selected as int)),
    {
        self.scroll.prev();
        self.clamp_scroll();
    }

    /// Selects the first row and scrolls to the top.
    pub fn first_row(&mut self)
        ensures
            old(self).model.wf() ==> final(self).wf(),
            final(self).same_but_scroll(old(self)),
            final(self).scroll.selected == 0,
            final(self).scroll.scroll_offset == 0,
            final(self).selection_shown(),
    {
        self.scroll.first();
    }

    /// Selects the last row and brings it on screen.
    pub fn last_row(&mut self)
        requires
            old(self).model.wf(),
        ensures
            final(self).moved_to(
                old(self),
                last_selected(old(self).scroll.selected as int, old(self).rows() as int),
            ),
    {
        self.scroll.last(self.model.filtered_indices.len());
        self.clamp_scroll();
    }

    /// Moves the selection a page down and brings it on screen.
    pub fn page_down(&mut self)
        requires
            old(self).model.wf(),
        ensures
            final(self).moved_to(
                old(self),
                page_down_selected(
                    old(self).scroll.selected as int,
                    old(self).scroll.visible_rows as int,
                    old(self).rows() as int,
                ),
            ),
    {
        self.scroll.page_down(self.model.filtered_indices.len());
        self.clamp_scroll();
    }

    /// Moves the selection a page up and brings it on screen.
    pub fn page_up(&mut self)
        requires
            old(self).model.wf(),
        ensures
            final(self).moved_to(
                old(self),
                page_up_selected(
                    old(self).scroll.selected as int,
                    old(self).scroll.visible_rows as int,
                ),
            ),
    {
        self.scroll.page_up();
        self.clamp_scroll();
    }

    /// Moves the minimum-level filter to the next level (after Error, back to
    /// Trace) and applies the filters.
    pub fn cycle_level(&mut self)
        ensures
            final(self).filters.min_level == old(self).filters.min_level.spec_cycled(),
            final(self).filters.logger == old(self).filters.logger,
            final(self).filters.message == old(self).filters.message,
            final(self).refiltered_from(old(self)),
            final(self).rows() > 0 && old(self).scroll.selected >= final(self).rows() ==> final(self).scroll.selected == final(self).rows() - 1,
            old(self).scroll.selected < final(self).rows() ==> final(self).scroll.selected == old(self).scroll.selected,
    {
        self.filters.min_level = self.filters.min_level.cycled();
        self.apply_filters();
    }
}

} // verus!
