//! Viewport and selection over a list of rows whose heights (in visual lines) vary.

use vstd::prelude::*;

verus! {

/// Lines taken by rows `a .. b` when row `i` takes `hs(i)` lines.
pub open spec fn range_sum(hs: spec_fn(int) -> nat, a: int, b: int) -> nat
    decreases b - a,
{
    if b <= a {
        0
    } else {
        range_sum(hs, a, b - 1) + hs(b - 1)
    }
}

/// The last row, among `a ..= hi`, such that rows `a` through it fit in
/// `visible` lines; `a` itself when no later row does (row `a` is always shown).
pub open spec fn max_fit(hs: spec_fn(int) -> nat, a: int, hi: int, visible: int) -> int
    decreases hi - a,
{
    if hi <= a {
        a
    } else if range_sum(hs, a, hi + 1) <= visible {
        hi
    } else {
        max_fit(hs, a, hi - 1, visible)
    }
}

/// The last row shown when the viewport starts at row `offset`.
pub open spec fn last_visible(hs: spec_fn(int) -> nat, offset: int, total: int, visible: int) -> int {
    max_fit(hs, offset, total - 1, visible)
}

/// The first row, among `lo ..= sel`, from which rows through `sel` fit in
/// `visible` lines; `sel` itself when none does.
pub open spec fn min_fit(hs: spec_fn(int) -> nat, lo: int, sel: int, visible: int) -> int
    decreases sel - lo,
{
    if lo >= sel {
        sel
    } else if range_sum(hs, lo, sel + 1) <= visible {
        lo
    } else {
        min_fit(hs, lo + 1, sel, visible)
    }
}

/// The viewport start that shows as many rows above `sel` as fit, with `sel` last.
pub open spec fn first_fit(hs: spec_fn(int) -> nat, sel: int, visible: int) -> int {
    min_fit(hs, 0, sel, visible)
}

/// The viewport start after clamping: first moved up to the selection when the
/// selection lies above it; then, when the selection lies below the last row
/// shown, moved down so that the selection is the last row shown.
pub open spec fn clamped_offset(
    hs: spec_fn(int) -> nat,
    selected: int,
    offset: int,
    total: int,
    visible: int,
) -> int {
    let o1 = if selected < offset {
        selected
    } else {
        offset
    };
    if selected > last_visible(hs, o1, total, visible) {
        first_fit(hs, selected, visible)
    } else {
        o1
    }
}

/// `hs` gives, for every row, the height that `f` returns for it.
pub open spec fn heights_of<F: Fn(usize) -> usize>(f: F, hs: spec_fn(int) -> nat) -> bool {
    forall|r: usize, h: usize| call_ensures(f, (r,), h) ==> hs(r as int) == h
}

/// Lines of rows `a .. b` are those of `a .. c` and of `c .. b`.
pub proof fn lemma_range_sum_split(hs: spec_fn(int) -> nat, a: int, c: int, b: int)
    requires
        a <= c <= b,
    ensures
        range_sum(hs, a, b) == range_sum(hs, a, c) + range_sum(hs, c, b),
    decreases b - c,
{
    if c < b {
        lemma_range_sum_split(hs, a, c, b - 1);
    }
}

/// Two height functions that agree on rows `a .. b` give those rows the same lines.
pub proof fn lemma_range_sum_same(hs1: spec_fn(int) -> nat, hs2: spec_fn(int) -> nat, a: int, b: int)
    requires
        forall|r: int| a <= r < b ==> #[trigger] hs1(r) == hs2(r),
    ensures
        range_sum(hs1, a, b) == range_sum(hs2, a, b),
    decreases b - a,
{
    if b > a {
        lemma_range_sum_same(hs1, hs2, a, b - 1);
    }
}

proof fn lemma_range_sum_grows(hs: spec_fn(int) -> nat, a: int, x: int, y: int)
    requires
        a <= x <= y,
    ensures
        range_sum(hs, a, x) <= range_sum(hs, a, y),
{
    lemma_range_sum_split(hs, a, x, y);
}

proof fn lemma_range_sum_shrinks(hs: spec_fn(int) -> nat, x: int, y: int, b: int)
    requires
        x <= y <= b,
    ensures
        range_sum(hs, y, b) <= range_sum(hs, x, b),
{
    lemma_range_sum_split(hs, x, y, b);
}

proof fn lemma_max_fit_at_break(hs: spec_fn(int) -> nat, a: int, r: int, hi: int, v: int)
    requires
        a < r,
        r - 1 <= hi,
        range_sum(hs, a, r + 1) > v,
        r - 1 == a || range_sum(hs, a, r) <= v,
    ensures
        max_fit(hs, a, hi, v) == r - 1,
    decreases hi - a,
{
    if hi >= r {
        lemma_range_sum_grows(hs, a, r + 1, hi + 1);
        lemma_max_fit_at_break(hs, a, r, hi - 1, v);
    }
}

proof fn lemma_min_fit_at_break(hs: spec_fn(int) -> nat, lo: int, r: int, sel: int, v: int)
    requires
        lo <= r <= sel,
        range_sum(hs, r, sel + 1) > v,
        r + 1 >= sel || range_sum(hs, r + 1, sel + 1) <= v,
    ensures
        min_fit(hs, lo, sel, v) == (if r == sel {
            sel
        } else {
            r + 1
        }),
    decreases r - lo,
{
    if lo < r {
        lemma_range_sum_shrinks(hs, lo, r, sel + 1);
        lemma_min_fit_at_break(hs, lo + 1, r, sel, v);
    } else {
        if r < sel {
            assert(min_fit(hs, r + 1, sel, v) == r + 1);
        }
    }
}

proof fn lemma_max_fit_fits(hs: spec_fn(int) -> nat, a: int, hi: int, v: int)
    ensures
        a <= max_fit(hs, a, hi, v),
        max_fit(hs, a, hi, v) == a || range_sum(hs, a, max_fit(hs, a, hi, v) + 1) <= v,
    decreases hi - a,
{
    if hi > a && range_sum(hs, a, hi + 1) > v {
        lemma_max_fit_fits(hs, a, hi - 1, v);
    }
}

proof fn lemma_min_fit_fits(hs: spec_fn(int) -> nat, lo: int, sel: int, v: int)
    ensures
        min_fit(hs, lo, sel, v) <= sel,
        min_fit(hs, lo, sel, v) == sel || range_sum(hs, min_fit(hs, lo, sel, v), sel + 1) <= v,
    decreases sel - lo,
{
    if lo < sel && range_sum(hs, lo, sel + 1) > v {
        lemma_min_fit_fits(hs, lo + 1, sel, v);
    }
}

/// After clamping, the selected row is shown: the viewport starts at or above
/// it, and the rows from the start through the selected one fit in the
/// viewport (or the selected row is the first row shown).
pub proof fn lemma_clamp_shows_selected(
    hs: spec_fn(int) -> nat,
    selected: int,
    offset: int,
    total: int,
    visible: int,
)
    ensures
        ({
            let o = clamped_offset(hs, selected, offset, total, visible);
            &&& o <= selected
            &&& (o == selected || range_sum(hs, o, selected + 1) <= visible)
        }),
{
    let o1 = if selected < offset {
        selected
    } else {
        offset
    };
    let l = last_visible(hs, o1, total, visible);
    lemma_max_fit_fits(hs, o1, total - 1, visible);
    lemma_min_fit_fits(hs, 0, selected, visible);
    if selected <= l && selected > o1 {
        lemma_range_sum_grows(hs, o1, selected + 1, l + 1);
    }
}

proof fn lemma_max_fit_at_least(hs: spec_fn(int) -> nat, a: int, hi: int, v: int, s: int)
    requires
        a <= s <= hi,
        s == a || range_sum(hs, a, s + 1) <= v,
    ensures
        s <= max_fit(hs, a, hi, v),
    decreases hi - a,
{
    if hi > a && range_sum(hs, a, hi + 1) > v && hi > s {
        lemma_max_fit_at_least(hs, a, hi - 1, v, s);
    }
}

/// Clamping a viewport that was just clamped changes nothing.
pub proof fn lemma_clamp_idempotent(
    hs: spec_fn(int) -> nat,
    selected: int,
    offset: int,
    total: int,
    visible: int,
)
    ensures
        clamped_offset(
            hs,
            selected,
            clamped_offset(hs, selected, offset, total, visible),
            total,
            visible,
        ) == clamped_offset(hs, selected, offset, total, visible),
{
    let o = clamped_offset(hs, selected, offset, total, visible);
    lemma_clamp_shows_selected(hs, selected, offset, total, visible);
    if selected <= total - 1 {
        lemma_max_fit_at_least(hs, o, total - 1, visible, selected);
    }
}

proof fn lemma_min_fit_minimal(hs: spec_fn(int) -> nat, lo: int, sel: int, v: int)
    requires
        lo <= sel,
    ensures
        lo <= min_fit(hs, lo, sel, v),
        min_fit(hs, lo, sel, v) > lo ==> range_sum(hs, min_fit(hs, lo, sel, v) - 1, sel + 1) > v,
    decreases sel - lo,
{
    if lo < sel && range_sum(hs, lo, sel + 1) > v {
        lemma_min_fit_minimal(hs, lo + 1, sel, v);
    }
}

/// When clamping moves the viewport down, it moves it no further than needed:
/// the row just above the new first row would not fit together with the rows
/// through the selection.
pub proof fn lemma_clamp_moves_down_minimally(
    hs: spec_fn(int) -> nat,
    selected: int,
    offset: int,
    total: int,
    visible: int,
)
    requires
        0 <= selected,
        0 <= offset,
    ensures
        clamped_offset(hs, selected, offset, total, visible) > offset ==> range_sum(
            hs,
            clamped_offset(hs, selected, offset, total, visible) - 1,
            selected + 1,
        ) > visible,
{
    lemma_min_fit_minimal(hs, 0, selected, visible);
}

/// Clamping moves the viewport only when it has to: when the selected row is
/// a row of the list, the viewport starts at or above it, and the rows from the
/// start through it fit (or it is the first row shown), the start stays; and
/// when the selection lies above the start, the viewport starts at the selection.
pub proof fn lemma_clamp_keeps_visible_selection(
    hs: spec_fn(int) -> nat,
    selected: int,
    offset: int,
    total: int,
    visible: int,
)
    ensures
        offset <= selected < total && (offset == selected || range_sum(hs, offset, selected + 1)
            <= visible) ==> clamped_offset(hs, selected, offset, total, visible) == offset,
        selected < offset ==> clamped_offset(hs, selected, offset, total, visible) == selected,
{
    if offset <= selected < total && (offset == selected || range_sum(hs, offset, selected + 1)
        <= visible) {
        lemma_max_fit_at_least(hs, offset, total - 1, visible, selected);
    }
    if selected < offset {
        lemma_max_fit_fits(hs, selected, total - 1, visible);
    }
}

/// Viewport/selection state for a scrollable list with variable-height rows.
pub struct ScrollState {
    /// Currently selected logical row.
    pub selected: usize,
    /// Index of the first visible logical row.
    pub scroll_offset: usize,
    /// Number of visual lines available in the viewport (written back from render).
    pub visible_rows: usize,
}

/// How far a page moves: two lines less than the viewport, and at least one.
pub open spec fn page_jump(visible_rows: int) -> int {
    if visible_rows - 2 >= 1 {
        visible_rows - 2
    } else {
        1
    }
}

/// The last row of a list of `total` rows, or 0 when it is empty.
pub open spec fn last_row(total: int) -> int {
    if total >= 1 {
        total - 1
    } else {
        0
    }
}

/// The smaller of two integers.
pub open spec fn min_int(a: int, b: int) -> int {
    if a <= b {
        a
    } else {
        b
    }
}

/// The last row shown when the viewport starts at `offset`, computed by asking
/// `row_height` for the rows from `offset` on until one no longer fits.
fn last_visible_row(
    offset: usize,
    total: usize,
    visible: usize,
    row_height: &impl Fn(usize) -> usize,
) -> (l: usize)
    requires
        forall|r: usize| r < total ==> call_requires(*row_height, (r,)),
    ensures
        offset <= l,
        forall|hs: spec_fn(int) -> nat| #[trigger]
            heights_of(*row_height, hs) ==> l == last_visible(hs, offset as int, total as int, visible as int),
{
    let mut visual_used: usize = 0;
    let mut row: usize = offset;
    while row < total
        invariant
            offset <= row,
            row <= total || row == offset,
            forall|r: usize| r < total ==> call_requires(*row_height, (r,)),
            forall|hs: spec_fn(int) -> nat| #[trigger]
                heights_of(*row_height, hs) ==> range_sum(hs, offset as int, row as int) == visual_used,
            row > offset + 1 ==> visual_used <= visible,
            row == offset ==> visual_used == 0,
        decreases total - row,
    {
        let h = row_height(row);
        if row > offset && (h > visible || visual_used > visible - h) {
            assert forall|hs: spec_fn(int) -> nat| #[trigger]
                heights_of(*row_height, hs) implies row - 1 == last_visible(
                hs,
                offset as int,
                total as int,
                visible as int,
            ) by {
                assert(hs(row as int) == h);
                assert(range_sum(hs, offset as int, row + 1) == visual_used + h);
                lemma_max_fit_at_break(hs, offset as int, row as int, total - 1, visible as int);
            }
            return row - 1;
        }
        assert forall|hs: spec_fn(int) -> nat| #[trigger]
            heights_of(*row_height, hs) implies range_sum(hs, offset as int, row + 1) == visual_used + h by {
            assert(hs(row as int) == h);
        }
        visual_used = visual_used + h;
        row = row + 1;
    }
    if row > offset {
        assert forall|hs: spec_fn(int) -> nat| #[trigger]
            heights_of(*row_height, hs) implies row - 1 == last_visible(
            hs,
            offset as int,
            total as int,
            visible as int,
        ) by {}
        row - 1
    } else {
        offset
    }
}

/// The first row of a viewport that ends with `selected` and holds as many
/// rows above it as fit, computed by asking `row_height` for the rows from
/// `selected` upward until one no longer fits.
fn first_fitting_row(selected: usize, visible: usize, row_height: &impl Fn(usize) -> usize) -> (o:
    usize)
    requires
        forall|r: usize| r <= selected ==> call_requires(*row_height, (r,)),
    ensures
        o <= selected,
        forall|hs: spec_fn(int) -> nat| #[trigger]
            heights_of(*row_height, hs) ==> o == first_fit(hs, selected as int, visible as int),
{
    let mut vis: usize = 0;
    let mut new_offset: usize = selected;
    let mut row: usize = selected;
    loop
        invariant
            row <= selected,
            vis <= visible,
            new_offset == (if row == selected {
                selected
            } else {
                (row + 1) as usize
            }),
            forall|r: usize| r <= selected ==> call_requires(*row_height, (r,)),
            forall|hs: spec_fn(int) -> nat| #[trigger]
                heights_of(*row_height, hs) ==> range_sum(hs, row + 1, selected + 1) == vis,
        decreases row,
    {
        let h = row_height(row);
        if h > visible || vis > visible - h {
            assert forall|hs: spec_fn(int) -> nat| #[trigger]
                heights_of(*row_height, hs) implies new_offset == first_fit(
                hs,
                selected as int,
                visible as int,
            ) by {
                assert(hs(row as int) == h);
                assert(range_sum(hs, row as int, row as int) == 0);
                assert(range_sum(hs, row as int, row + 1) == h);
                lemma_range_sum_split(hs, row as int, row + 1, selected + 1);
                lemma_min_fit_at_break(hs, 0, row as int, selected as int, visible as int);
            }
            return new_offset;
        }
        assert forall|hs: spec_fn(int) -> nat| #[trigger]
            heights_of(*row_height, hs) implies range_sum(hs, row as int, selected + 1) == vis + h by {
            assert(hs(row as int) == h);
            assert(range_sum(hs, row as int, row as int) == 0);
            assert(range_sum(hs, row as int, row + 1) == h);
            lemma_range_sum_split(hs, row as int, row + 1, selected + 1);
        }
        vis = vis + h;
        new_offset = row;
        if row == 0 {
            assert forall|hs: spec_fn(int) -> nat| #[trigger]
                heights_of(*row_height, hs) implies new_offset == first_fit(
                hs,
                selected as int,
                visible as int,
            ) by {}
            return new_offset;
        }
        row = row - 1;
    }
}

impl ScrollState {
    /// First row selected, viewport at the top, twenty lines until the first render.
    pub fn new() -> (s: Self)
        ensures
            s.selected == 0,
            s.scroll_offset == 0,
            s.visible_rows == 20,
    {
        Self { selected: 0, scroll_offset: 0, visible_rows: 20 }
    }

    /// Selects the next row, unless the last of `total` rows is selected.
    pub fn next(&mut self, total: usize)
        ensures
            final(self).selected == (if total > 0 && old(self).selected < total - 1 {
                old(self).selected + 1
            } else {
                old(self).selected as int
            }),
            final(self).scroll_offset == old(self).scroll_offset,
            final(self).visible_rows == old(self).visible_rows,
    {
        if total > 0 && self.selected < total - 1 {
            self.selected = self.selected + 1;
        }
    }

    /// Selects the previous row, unless the first is selected.
    pub fn prev(&mut self)
        ensures
            final(self).selected == (if old(self).selected > 0 {
                old(self).selected - 1
            } else {
                0
            }),
            final(self).scroll_offset == old(self).scroll_offset,
            final(self).visible_rows == old(self).visible_rows,
    {
        if self.selected > 0 {
            self.selected = self.selected - 1;
        }
    }

    /// Selects the first row and scrolls to the top.
    pub fn first(&mut self)
        ensures
            final(self).selected == 0,
            final(self).scroll_offset == 0,
            final(self).visible_rows == old(self).visible_rows,
    {
        self.selected = 0;
        self.scroll_offset = 0;
    }

    /// Selects the last of `total` rows; nothing changes when there are none.
    pub fn last(&mut self, total: usize)
        ensures
            final(self).selected == (if total > 0 {
                total - 1
            } else {
                old(self).selected as int
            }),
            final(self).scroll_offset == old(self).scroll_offset,
            final(self).visible_rows == old(self).visible_rows,
    {
        if total > 0 {
            self.selected = total - 1;
        }
    }

    /// Moves the selection a page down, stopping at the last of `total` rows.
    pub fn page_down(&mut self, total: usize)
        ensures
            final(self).selected == min_int(
                old(self).selected + page_jump(old(self).visible_rows as int),
                last_row(total as int),
            ),
            final(self).scroll_offset == old(self).scroll_offset,
            final(self).visible_rows == old(self).visible_rows,
    {
        let jump = if self.visible_rows >= 3 {
            self.visible_rows - 2
        } else {
            1
        };
        let cap = if total >= 1 {
            total - 1
        } else {
            0
        };
        if self.selected >= cap || jump >= cap - self.selected {
            self.selected = cap;
        } else {
            self.selected = self.selected + jump;
        }
    }

    /// Moves the selection a page up, stopping at the first row.
    pub fn page_up(&mut self)
        ensures
            final(self).selected == (if old(self).selected >= page_jump(
                old(self).visible_rows as int,
            ) {
                old(self).selected - page_jump(old(self).visible_rows as int)
            } else {
                0
            }),
            final(self).scroll_offset == old(self).scroll_offset,
            final(self).visible_rows == old(self).visible_rows,
    {
        let jump = if self.visible_rows >= 3 {
            self.visible_rows - 2
        } else {
            1
        };
        if self.selected >= jump {
            self.selected = self.selected - jump;
        } else {
            self.selected = 0;
        }
    }

    /// Adjust `scroll_offset` so that `selected` is within the visible window.
    /// `row_height(i)` returns the number of visual lines row `i` occupies; it
    /// is asked only for rows below `total` or up to `selected`. The new offset
    /// is [`clamped_offset`] for every height function that agrees with
    /// `row_height`; whatever it answers, the new offset is at or above the
    /// selection, and it is the selection when the selection lay above the old one.
    pub fn clamp(&mut self, total: usize, row_height: impl Fn(usize) -> usize)
        requires
            forall|r: usize|
                r < total || r <= old(self).selected ==> call_requires(row_height, (r,)),
        ensures
            final(self).selected == old(self).selected,
            final(self).visible_rows == old(self).visible_rows,
            final(self).scroll_offset <= old(self).selected,
            old(self).selected < old(self).scroll_offset ==> final(self).scroll_offset == old(
                self,
            ).selected,
            forall|hs: spec_fn(int) -> nat| #[trigger]
                heights_of(row_height, hs) ==> final(self).scroll_offset == clamped_offset(
                    hs,
                    old(self).selected as int,
                    old(self).scroll_offset as int,
                    total as int,
                    old(self).visible_rows as int,
                ),
    {
        if self.selected < self.scroll_offset {
            self.scroll_offset = self.selected;
        }
        let last_visible = last_visible_row(self.scroll_offset, total, self.visible_rows, &row_height);
        if self.selected > last_visible {
            self.scroll_offset = first_fitting_row(self.selected, self.visible_rows, &row_height);
        }
    }
}

} // verus!
