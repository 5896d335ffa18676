//! The table's data: all entries, which of them pass the filters, and which
//! multi-line entries are expanded.

use vstd::prelude::*;
use std::collections::HashSet;
use crate::level::LogLevel;
use crate::log_entry::{LogEntry, LogEntryView, entry_level, text_is_multiline, text_line_count};
use crate::text::{lines_of, ascii_lowercase, contains_seq, occurs_at, contains_str, is_ascii_text, lowercase, lemma_ascii_lowercase_prefix, to_lowercase};

verus! {

broadcast use vstd::std_specs::hash::group_hash_axioms;

// ---------------------------------------------------------------------------
// FilteredVec
// ---------------------------------------------------------------------------

/// `s` is strictly increasing and every element is below `n`.
pub open spec fn increasing_below(s: Seq<usize>, n: nat) -> bool {
    &&& forall|k: int| 0 <= k < s.len() ==> #[trigger] s[k] < n
    &&& forall|j: int, k: int| 0 <= j < k < s.len() ==> s[j] < s[k]
}

/// The indices `0, 1, ..., n - 1`.
pub open spec fn all_indices(n: nat) -> Seq<usize> {
    Seq::new(n, |i: int| i as usize)
}

/// A vector of items together with the indices of those currently visible.
pub struct FilteredVec<T> {
    entries: Vec<T>,
    visible_indices: Vec<usize>,
}

impl<T> FilteredVec<T> {
    #[verifier::type_invariant]
    spec fn inv(self) -> bool {
        increasing_below(self.visible_indices@, self.entries@.len())
    }

    /// All items, unfiltered.
    pub closed spec fn spec_entries(&self) -> Seq<T> {
        self.entries@
    }

    /// The indices of the visible items.
    pub closed spec fn spec_visible(&self) -> Seq<usize> {
        self.visible_indices@
    }

    /// Holds `entries`, all of them visible.
    pub fn new(entries: Vec<T>) -> (r: Self)
        ensures
            r.spec_entries() == entries@,
            r.spec_visible() == all_indices(entries@.len()),
    {
        let n = entries.len();
        let mut visible_indices: Vec<usize> = Vec::new();
        let mut i: usize = 0;
        while i < n
            invariant
                i <= n,
                n == entries@.len(),
                visible_indices@ == all_indices(i as nat),
            decreases n - i,
        {
            visible_indices.push(i);
            i = i + 1;
            assert(visible_indices@ =~= all_indices(i as nat));
        }
        Self { entries, visible_indices }
    }

    /// Number of currently visible items.
    pub fn len(&self) -> (n: usize)
        ensures
            n == self.spec_visible().len(),
    {
        self.visible_indices.len()
    }

    /// Total number of items (unfiltered).
    pub fn total_len(&self) -> (n: usize)
        ensures
            n == self.spec_entries().len(),
    {
        self.entries.len()
    }

    /// All entries, unfiltered.
    pub fn entries(&self) -> (r: &[T])
        ensures
            r@ == self.spec_entries(),
    {
        self.entries.as_slice()
    }

    /// The indices of visible entries.
    pub fn visible_indices(&self) -> (r: &[usize])
        ensures
            r@ == self.spec_visible(),
            increasing_below(r@, self.spec_entries().len()),
    {
        proof {
            use_type_invariant(self);
        }
        self.visible_indices.as_slice()
    }

    /// Recompute visible indices by keeping only entries that satisfy `predicate`:
    /// afterwards the visible indices are, in increasing order, exactly those of
    /// the items on which the predicate answered `true`.
    pub fn update_filter(&mut self, predicate: impl Fn(&T) -> bool)
        requires
            forall|i: int|
                0 <= i < old(self).spec_entries().len() ==> call_requires(
                    predicate,
                    (&#[trigger] old(self).spec_entries()[i],),
                ),
        ensures
            final(self).spec_entries() == old(self).spec_entries(),
            increasing_below(final(self).spec_visible(), final(self).spec_entries().len()),
            forall|k: int|
                0 <= k < final(self).spec_visible().len() ==> call_ensures(
                    predicate,
                    (&final(self).spec_entries()[#[trigger] final(self).spec_visible()[k] as int],),
                    true,
                ),
            forall|i: int|
                0 <= i < final(self).spec_entries().len() && !final(self).spec_visible().contains(
                    i as usize,
                ) ==> call_ensures(predicate, (&#[trigger] final(self).spec_entries()[i],), false),
    {
        let n = self.entries.len();
        let mut out: Vec<usize> = Vec::new();
        let mut i: usize = 0;
        while i < n
            invariant
                i <= n,
                n == self.entries@.len(),
                self.spec_entries() == self.entries@,
                forall|j: int|
                    0 <= j < self.spec_entries().len() ==> call_requires(
                        predicate,
                        (&#[trigger] self.spec_entries()[j],),
                    ),
                forall|k: int| 0 <= k < out@.len() ==> #[trigger] out@[k] < i,
                forall|j: int, k: int| 0 <= j < k < out@.len() ==> out@[j] < out@[k],
                forall|k: int|
                    0 <= k < out@.len() ==> call_ensures(
                        predicate,
                        (&self.entries@[#[trigger] out@[k] as int],),
                        true,
                    ),
                forall|j: int|
                    0 <= j < i && !out@.contains(j as usize) ==> call_ensures(
                        predicate,
                        (&#[trigger] self.entries@[j],),
                        false,
                    ),
            decreases n - i,
        {
            let keep = predicate(&self.entries[i]);
            let ghost before = out@;
            if keep {
                out.push(i);
            }
            assert forall|j: int|
                0 <= j < i + 1 && !out@.contains(j as usize) implies call_ensures(
                predicate,
                (&#[trigger] self.entries@[j],),
                false,
            ) by {
                if j < i {
                    if before.contains(j as usize) {
                        let k = choose|k: int| 0 <= k < before.len() && before[k] == j as usize;
                        assert(out@[k] == j as usize);
                    }
                } else {
                    if keep {
                        assert(out@[out@.len() - 1] == i);
                    }
                }
            }
            i = i + 1;
        }
        self.visible_indices = out;
    }
}

// ---------------------------------------------------------------------------
// Filters
// ---------------------------------------------------------------------------

/// A filter field passes a value when the (lower-cased) filter text is empty
/// or occurs in the (lower-cased) value.
pub open spec fn field_passes(filter_lower: Seq<char>, value_lower: Seq<char>) -> bool {
    filter_lower.len() == 0 || contains_seq(value_lower, filter_lower)
}

/// Whether a filter field passes a value, both already lower-cased.
pub fn field_matches(filter_lower: &str, value_lower: &str) -> (b: bool)
    ensures
        b == field_passes(filter_lower@, value_lower@),
{
    filter_lower.is_empty() || contains_str(value_lower, filter_lower)
}

/// The filter texts as the user typed them, and the minimum level.
pub struct Filters {
    pub logger: String,
    pub message: String,
    pub min_level: LogLevel,
}

/// What a [`FilterPredicate`] holds: the lower-cased filter texts and the minimum level.
pub struct FilterView {
    pub logger_lower: Seq<char>,
    pub message_lower: Seq<char>,
    pub min_level: LogLevel,
}

/// An entry passes the filters when its logger passes the logger filter, its
/// message passes the message filter (both without regard to case) and its
/// level is at least the minimum level.
pub open spec fn accepts(p: FilterView, e: LogEntryView) -> bool {
    accepts_lowered(p, lowercase(e.logger), lowercase(e.text), e.level)
}

/// An entry whose logger and message lower-case to `logger_lower` and
/// `text_lower`, and whose level field is `level`, passes the filters.
pub open spec fn accepts_lowered(
    p: FilterView,
    logger_lower: Seq<char>,
    text_lower: Seq<char>,
    level: Seq<char>,
) -> bool {
    &&& field_passes(p.logger_lower, logger_lower)
    &&& field_passes(p.message_lower, text_lower)
    &&& entry_level(level).spec_rank() >= p.min_level.spec_rank()
}

/// The filters prepared for testing entries: the texts lower-cased once.
pub struct FilterPredicate {
    logger_lower: String,
    message_lower: String,
    min_level: LogLevel,
}

impl View for FilterPredicate {
    type V = FilterView;

    closed spec fn view(&self) -> FilterView {
        FilterView {
            logger_lower: self.logger_lower@,
            message_lower: self.message_lower@,
            min_level: self.min_level,
        }
    }
}

impl FilterPredicate {
    /// Whether the entry passes the filters.
    pub fn is_visible(&self, e: &LogEntry) -> (b: bool)
        ensures
            b == accepts(self@, e@),
            b ==> entry_level(e.level@).spec_rank() >= self@.min_level.spec_rank(),
            b ==> field_passes(self@.logger_lower, lowercase(e.logger@)) && field_passes(
                self@.message_lower,
                lowercase(e.text@),
            ),
            field_passes(self@.logger_lower, lowercase(e.logger@)) && field_passes(
                self@.message_lower,
                lowercase(e.text@),
            ) && entry_level(e.level@).spec_rank() >= self@.min_level.spec_rank() ==> b,
            self@.logger_lower.len() == 0 && self@.message_lower.len() == 0 ==> (b <==> entry_level(
                e.level@,
            ).spec_rank() >= self@.min_level.spec_rank()),
            is_ascii_text(e.logger@) && is_ascii_text(e.text@) ==> b == accepts_lowered(
                self@,
                ascii_lowercase(e.logger@),
                ascii_lowercase(e.text@),
                e.level@,
            ),
    {
        let logger_ok = self.logger_lower.as_str().is_empty() || field_matches(
            self.logger_lower.as_str(),
            to_lowercase(e.logger.as_str()).as_str(),
        );
        let message_ok = self.message_lower.as_str().is_empty() || field_matches(
            self.message_lower.as_str(),
            to_lowercase(e.text.as_str()).as_str(),
        );
        let level_ok = e.log_level().at_least(self.min_level);
        logger_ok && message_ok && level_ok
    }
}

impl Filters {
    /// What the predicate made from these filters holds.
    pub open spec fn spec_predicate(&self) -> FilterView {
        FilterView {
            logger_lower: lowercase(self.logger@),
            message_lower: lowercase(self.message@),
            min_level: self.min_level,
        }
    }

    /// Empty filter texts and the least severe minimum level.
    pub fn new() -> (r: Self)
        ensures
            r.logger@.len() == 0,
            r.message@.len() == 0,
            r.min_level == LogLevel::Trace,
    {
        Self { logger: String::new(), message: String::new(), min_level: LogLevel::Trace }
    }

    /// The predicate that tests entries against these filters.
    pub fn predicate(&self) -> (p: FilterPredicate)
        ensures
            p@ == self.spec_predicate(),
            self.logger@.len() == 0 ==> p@.logger_lower.len() == 0,
            self.message@.len() == 0 ==> p@.message_lower.len() == 0,
            is_ascii_text(self.logger@) ==> p@.logger_lower == ascii_lowercase(self.logger@),
            is_ascii_text(self.message@) ==> p@.message_lower == ascii_lowercase(self.message@),
    {
        FilterPredicate {
            logger_lower: to_lowercase(self.logger.as_str()),
            message_lower: to_lowercase(self.message.as_str()),
            min_level: self.min_level,
        }
    }
}

/// With empty filter texts and the least severe minimum level every entry passes
/// (the filters that [`Filters::new`] makes give such a predicate).
pub proof fn lemma_empty_filters_accept_all(p: FilterView, e: LogEntryView)
    requires
        p.logger_lower.len() == 0,
        p.message_lower.len() == 0,
        p.min_level == LogLevel::Trace,
    ensures
        accepts(p, e),
{
}


// ---------------------------------------------------------------------------
// Table model
// ---------------------------------------------------------------------------

/// A log entry as a row of the table, with whether the row is expanded.
pub struct TableLogEntry {
    log_entry: LogEntry,
    expanded: bool,
}

impl TableLogEntry {
    /// The entry of the row.
    pub closed spec fn spec_entry(&self) -> LogEntry {
        self.log_entry
    }

    /// Whether the row is expanded.
    pub closed spec fn spec_expanded(&self) -> bool {
        self.expanded
    }

    /// The entry of the row.
    pub fn as_ref(&self) -> (e: &LogEntry)
        ensures
            *e == self.spec_entry(),
    {
        &self.log_entry
    }
}

impl From<LogEntry> for TableLogEntry {
    fn from(log_entry: LogEntry) -> (r: Self) {
        TableLogEntry { log_entry, expanded: false }
    }
}

impl vstd::std_specs::convert::FromSpecImpl<LogEntry> for TableLogEntry {
    open spec fn obeys_from_spec() -> bool {
        true
    }

    closed spec fn from_spec(v: LogEntry) -> TableLogEntry {
        TableLogEntry { log_entry: v, expanded: false }
    }
}

/// The indices, in increasing order, of the first `n` entries that pass the filters.
pub open spec fn passing_indices(p: FilterView, entries: Seq<LogEntry>, n: nat) -> Seq<usize>
    decreases n,
{
    if n == 0 {
        Seq::empty()
    } else {
        let r = passing_indices(p, entries, (n - 1) as nat);
        if accepts(p, entries[n - 1]@) {
            r.push((n - 1) as usize)
        } else {
            r
        }
    }
}

/// The indices of the entries that pass the filters are increasing, index entries
/// that exist, and are exactly the indices of the entries that pass.
pub proof fn lemma_passing_indices(p: FilterView, entries: Seq<LogEntry>, n: nat)
    requires
        n <= usize::MAX,
    ensures
        increasing_below(passing_indices(p, entries, n), n),
        forall|i: int|
            0 <= i < n ==> (passing_indices(p, entries, n).contains(i as usize) <==> accepts(
                p,
                #[trigger] entries[i]@,
            )),
    decreases n,
{
    if n > 0 {
        let m = (n - 1) as nat;
        let r = passing_indices(p, entries, m);
        let q = passing_indices(p, entries, n);
        lemma_passing_indices(p, entries, m);
        if accepts(p, entries[m as int]@) {
            assert(q == r.push(m as usize));
            assert forall|i: int| 0 <= i < n implies (q.contains(i as usize) <==> accepts(
                p,
                #[trigger] entries[i]@,
            )) by {
                if i < m {
                    if q.contains(i as usize) {
                        let k = choose|k: int| 0 <= k < q.len() && q[k] == i as usize;
                        if k == r.len() {
                            assert(q[k] == m as usize);
                        } else {
                            assert(r[k] == i as usize);
                        }
                    }
                    if r.contains(i as usize) {
                        let k = choose|k: int| 0 <= k < r.len() && r[k] == i as usize;
                        assert(q[k] == i as usize);
                    }
                } else {
                    assert(q[r.len() as int] == m as usize);
                }
            }
        } else {
            assert(q == r);
            assert forall|i: int| 0 <= i < n implies (q.contains(i as usize) <==> accepts(
                p,
                #[trigger] entries[i]@,
            )) by {
                if i == m {
                    if q.contains(i as usize) {
                        let k = choose|k: int| 0 <= k < r.len() && r[k] == i as usize;
                        assert(r[k] < m);
                    }
                }
            }
        }
    }
}

/// The expanded set with `idx` added when absent and removed when present.
pub open spec fn toggled(s: Set<usize>, idx: usize) -> Set<usize> {
    if s.contains(idx) {
        s.remove(idx)
    } else {
        s.insert(idx)
    }
}

/// The state of the table: every entry, the indices of those that pass the
/// filters, and the indices of the expanded ones.
pub struct TableModel {
    pub entries: FilteredVec<TableLogEntry>,
    pub all_entries: Vec<LogEntry>,
    /// Indices into `all_entries` that pass the current filters.
    pub filtered_indices: Vec<usize>,
    /// Indices (into `all_entries`) of entries currently expanded.
    pub expanded: HashSet<usize>,
}

impl TableModel {
    /// The filtered indices are increasing and index existing entries.
    pub open spec fn wf(&self) -> bool {
        increasing_below(self.filtered_indices@, self.all_entries@.len())
    }

    /// Number of rows shown (the entries that pass the filters).
    pub open spec fn spec_rows(&self) -> nat {
        self.filtered_indices@.len()
    }

    /// Visual lines that row `row` takes: the expanded entry's line count when the
    /// row exists, its entry is expanded and multi-line, and one otherwise.
    pub open spec fn spec_row_height(&self, row: int) -> nat {
        if 0 <= row < self.filtered_indices@.len() {
            let idx = self.filtered_indices@[row];
            let e = self.all_entries@[idx as int];
            if self.expanded@.contains(idx) && text_is_multiline(e.text@) {
                text_line_count(e.text@)
            } else {
                1
            }
        } else {
            1
        }
    }

    /// A model of `all_entries`, all shown and none expanded.
    pub fn new(all_entries: Vec<LogEntry>) -> (r: Self)
        ensures
            r.wf(),
            r.all_entries@ == all_entries@,
            r.filtered_indices@ == all_indices(all_entries@.len()),
            r.expanded@ == Set::<usize>::empty(),
            r.entries.spec_entries().len() == all_entries@.len(),
            r.entries.spec_visible() == all_indices(all_entries@.len()),
            forall|i: int|
                0 <= i < all_entries@.len() ==> (#[trigger] r.entries.spec_entries()[i]).spec_entry()
                    == all_entries@[i] && !r.entries.spec_entries()[i].spec_expanded(),
    {
        let n = all_entries.len();
        let mut filtered_indices: Vec<usize> = Vec::new();
        let mut rows: Vec<TableLogEntry> = Vec::new();
        let mut i: usize = 0;
        while i < n
            invariant
                i <= n,
                n == all_entries@.len(),
                filtered_indices@ == all_indices(i as nat),
                rows@.len() == i,
                forall|k: int|
                    0 <= k < i ==> (#[trigger] rows@[k]).spec_entry() == all_entries@[k]
                        && !rows@[k].spec_expanded(),
            decreases n - i,
        {
            filtered_indices.push(i);
            rows.push(TableLogEntry::from(all_entries[i].clone()));
            i = i + 1;
            assert(filtered_indices@ =~= all_indices(i as nat));
        }
        let entries = FilteredVec::new(rows);
        Self { entries, all_entries, filtered_indices, expanded: HashSet::new() }
    }

    /// Keeps, in order, the indices of the entries that pass `filters`.
    pub fn apply_filters(&mut self, filters: &Filters)
        ensures
            final(self).wf(),
            final(self).all_entries@ == old(self).all_entries@,
            final(self).expanded@ == old(self).expanded@,
            final(self).entries == old(self).entries,
            final(self).filtered_indices@ == passing_indices(
                filters.spec_predicate(),
                old(self).all_entries@,
                old(self).all_entries@.len(),
            ),
            increasing_below(final(self).filtered_indices@, old(self).all_entries@.len()),
            forall|i: int|
                0 <= i < old(self).all_entries@.len() ==> (final(self).filtered_indices@.contains(i as usize) <==> accepts(
                    filters.spec_predicate(),
                    #[trigger] old(self).all_entries@[i]@,
                )),
    {
        let predicate = filters.predicate();
        let n = self.all_entries.len();
        let mut out: Vec<usize> = Vec::new();
        let mut i: usize = 0;
        while i < n
            invariant
                i <= n,
                n == self.all_entries@.len(),
                predicate@ == filters.spec_predicate(),
                out@ == passing_indices(predicate@, self.all_entries@, i as nat),
            decreases n - i,
        {
            if predicate.is_visible(&self.all_entries[i]) {
                out.push(i);
            }
            i = i + 1;
        }
        proof {
            lemma_passing_indices(filters.spec_predicate(), self.all_entries@, n as nat);
        }
        self.filtered_indices = out;
    }

    /// Expands or collapses the multi-line entry shown in `filtered_row`; does
    /// nothing when there is no such row or its entry has a single line.
    pub fn toggle_expand(&mut self, filtered_row: usize)
        requires
            old(self).wf(),
        ensures
            final(self).wf(),
            final(self).all_entries@ == old(self).all_entries@,
            final(self).filtered_indices@ == old(self).filtered_indices@,
            final(self).entries == old(self).entries,
            ({
                let old_rows = old(self).filtered_indices@;
                if filtered_row < old_rows.len() && text_is_multiline(
                    old(self).all_entries@[old_rows[filtered_row as int] as int].text@,
                ) {
                    final(self).expanded@ == toggled(
                        old(self).expanded@,
                        old_rows[filtered_row as int],
                    )
                } else {
                    final(self).expanded@ == old(self).expanded@
                }
            }),
            forall|j: usize|
                !(filtered_row < old(self).filtered_indices@.len() && j
                    == old(self).filtered_indices@[filtered_row as int]) ==> (
                #[trigger] final(self).expanded@.contains(j) == old(self).expanded@.contains(j)),
            filtered_row < old(self).filtered_indices@.len() && text_is_multiline(
                old(self).all_entries@[old(self).filtered_indices@[filtered_row as int] as int].text@,
            ) ==> final(self).expanded@.contains(old(self).filtered_indices@[filtered_row as int])
                != old(self).expanded@.contains(old(self).filtered_indices@[filtered_row as int]),
    {
        if filtered_row < self.filtered_indices.len() {
            let idx = self.filtered_indices[filtered_row];
            if self.all_entries[idx].is_multiline() {
                if self.expanded.contains(&idx) {
                    self.expanded.remove(&idx);
                } else {
                    self.expanded.insert(idx);
                }
            }
        }
    }

    /// Visual lines occupied by a logical row (1 unless expanded multiline).
    pub fn row_height(&self, filtered_row: usize) -> (h: usize)
        requires
            self.wf(),
        ensures
            h == self.spec_row_height(filtered_row as int),
            h >= 1,
            !(filtered_row < self.filtered_indices@.len() && self.expanded@.contains(
                self.filtered_indices@[filtered_row as int],
            )) ==> h == 1,
            filtered_row < self.filtered_indices@.len() && self.expanded@.contains(
                self.filtered_indices@[filtered_row as int],
            ) && text_is_multiline(
                self.all_entries@[self.filtered_indices@[filtered_row as int] as int].text@,
            ) ==> h == lines_of(
                self.all_entries@[self.filtered_indices@[filtered_row as int] as int].text@,
            ).len(),
    {
        proof {
            if filtered_row < self.filtered_indices@.len() {
                let t = self.all_entries@[self.filtered_indices@[filtered_row as int] as int].text@;
                if text_is_multiline(t) {
                    crate::text::lemma_multiline_has_lines(t);
                }
            }
        }
        if filtered_row < self.filtered_indices.len() {
            let idx = self.filtered_indices[filtered_row];
            let entry = &self.all_entries[idx];
            if self.expanded.contains(&idx) && entry.is_multiline() {
                entry.line_count()
            } else {
                1
            }
        } else {
            1
        }
    }
}

/// With empty filter texts, an entry passes exactly when its level ranks at
/// least as high as the minimum level (Trace < Debug < Info < Warn < Error);
/// whatever the texts, an entry ranking below the minimum never passes.
pub proof fn lemma_level_filter_is_rank_order(p: FilterView, e: LogEntryView)
    ensures
        accepts(p, e) ==> entry_level(e.level).spec_rank() >= p.min_level.spec_rank(),
        p.logger_lower.len() == 0 && p.message_lower.len() == 0 ==> (accepts(p, e) <==> entry_level(
            e.level,
        ).spec_rank() >= p.min_level.spec_rank()),
        p.min_level == LogLevel::Info && entry_level(e.level) == LogLevel::Debug ==> !accepts(p, e),
        p.min_level == LogLevel::Info && entry_level(e.level) == LogLevel::Info
            && p.logger_lower.len() == 0 && p.message_lower.len() == 0 ==> accepts(p, e),
{
}

/// A field filter passes a value exactly when the filter is empty or its
/// characters appear, in order and next to each other, somewhere in the value.
pub proof fn lemma_field_passes_is_substring(f: Seq<char>, v: Seq<char>)
    ensures
        field_passes(f, v) <==> (f.len() == 0 || exists|i: int|
            #![trigger v[i]]
            0 <= i && i + f.len() <= v.len() && v[i] == f[0] && forall|j: int|
                0 <= j < f.len() ==> #[trigger] v[i + j] == f[j]),
{
    if f.len() > 0 {
        if field_passes(f, v) {
            let i = choose|i: int| occurs_at(v, f, i);
            assert forall|j: int| 0 <= j < f.len() implies #[trigger] v[i + j] == f[j] by {
                assert(v.subrange(i, i + f.len())[j] == f[j]);
            }
            assert(v[i + 0] == f[0]);
            assert(v[i] == f[0]);
        }
        if exists|i: int|
            #![trigger v[i]]
            0 <= i && i + f.len() <= v.len() && v[i] == f[0] && forall|j: int|
                0 <= j < f.len() ==> #[trigger] v[i + j] == f[j] {
            let i = choose|i: int|
                #![trigger v[i]]
                0 <= i && i + f.len() <= v.len() && v[i] == f[0] && forall|j: int|
                    0 <= j < f.len() ==> #[trigger] v[i + j] == f[j];
            assert forall|j: int| 0 <= j < f.len() implies #[trigger] v.subrange(i, i + f.len())[j]
                == f[j] by {
                assert(v[i + j] == f[j]);
            }
            assert(v.subrange(i, i + f.len()) =~= f);
            assert(occurs_at(v, f, i));
        }
    }
}

/// A field filter that extends another one passes only values that the
/// shorter one passes.
pub proof fn lemma_field_passes_prefix(short: Seq<char>, long: Seq<char>, value: Seq<char>)
    requires
        short.is_prefix_of(long),
        field_passes(long, value),
    ensures
        field_passes(short, value),
{
    if short.len() > 0 {
        let i = choose|i: int| occurs_at(value, long, i);
        assert(value.subrange(i, i + short.len()) =~= short) by {
            assert forall|k: int| 0 <= k < short.len() implies value.subrange(i, i + short.len())[k]
                == short[k] by {
                assert(value.subrange(i, i + long.len())[k] == long[k]);
            }
        }
        assert(occurs_at(value, short, i));
    }
}

/// Narrowing the filters never shows more entries: when the lower-cased
/// filter texts of `narrow` extend those of `wide` and its minimum level is at
/// least as severe, every entry that `narrow` passes, `wide` passes too.
pub proof fn lemma_narrower_filters_pass_fewer(wide: FilterView, narrow: FilterView, e: LogEntryView)
    requires
        wide.logger_lower.is_prefix_of(narrow.logger_lower),
        wide.message_lower.is_prefix_of(narrow.message_lower),
        wide.min_level.spec_rank() <= narrow.min_level.spec_rank(),
        accepts(narrow, e),
    ensures
        accepts(wide, e),
{
    lemma_field_passes_prefix(wide.logger_lower, narrow.logger_lower, lowercase(e.logger));
    lemma_field_passes_prefix(wide.message_lower, narrow.message_lower, lowercase(e.text));
}

/// Typing more (ASCII) filter text, or raising the minimum level, never shows
/// more entries: for the predicates that [`Filters::predicate`] makes of two
/// sets of ASCII filter texts, where the texts of `f2` extend those of `f1` and
/// its level is at least as severe, every entry that `f2` passes, `f1` passes.
pub proof fn lemma_typing_narrows(f1: Filters, f2: Filters, p1: FilterView, p2: FilterView, e: LogEntryView)
    requires
        is_ascii_text(f2.logger@),
        is_ascii_text(f2.message@),
        f1.logger@.is_prefix_of(f2.logger@),
        f1.message@.is_prefix_of(f2.message@),
        f1.min_level.spec_rank() <= f2.min_level.spec_rank(),
        p1.logger_lower == ascii_lowercase(f1.logger@),
        p1.message_lower == ascii_lowercase(f1.message@),
        p1.min_level == f1.min_level,
        p2.logger_lower == ascii_lowercase(f2.logger@),
        p2.message_lower == ascii_lowercase(f2.message@),
        p2.min_level == f2.min_level,
        accepts(p2, e),
    ensures
        accepts(p1, e),
{
    lemma_ascii_lowercase_prefix(f1.logger@, f2.logger@);
    lemma_ascii_lowercase_prefix(f1.message@, f2.message@);
    lemma_narrower_filters_pass_fewer(p1, p2, e);
}

/// With filters that pass every entry, every row is shown, in order.
pub proof fn lemma_empty_filters_show_all_rows(p: FilterView, entries: Seq<LogEntry>, n: nat)
    requires
        p.logger_lower.len() == 0,
        p.message_lower.len() == 0,
        p.min_level == LogLevel::Trace,
    ensures
        passing_indices(p, entries, n) == all_indices(n),
    decreases n,
{
    if n > 0 {
        lemma_empty_filters_show_all_rows(p, entries, (n - 1) as nat);
        lemma_empty_filters_accept_all(p, entries[n - 1]@);
        assert(passing_indices(p, entries, n) =~= all_indices(n));
    }
}

/// Toggling flips membership of the toggled index and of no other index.
pub proof fn lemma_toggled_changes_only_idx(s: Set<usize>, idx: usize)
    ensures
        toggled(s, idx).contains(idx) == !s.contains(idx),
        forall|j: usize| j != idx ==> #[trigger] toggled(s, idx).contains(j) == s.contains(j),
{
}

/// Expanding a row and then the same row again restores the expanded set.
pub proof fn lemma_toggle_twice(s: Set<usize>, idx: usize)
    ensures
        toggled(toggled(s, idx), idx) == s,
{
    assert(toggled(toggled(s, idx), idx) =~= s);
}

/// Every row takes at least one visual line.
pub proof fn lemma_row_height_positive(m: TableModel, row: int)
    ensures
        m.spec_row_height(row) >= 1,
{
}

} // verus!
