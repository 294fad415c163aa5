//! State of the interactive views: which rows are shown, in which order,
//! and which one is highlighted.
use vstd::prelude::*;
use crate::text::{text_lt, text_less, chars_of};
use crate::types::{FlakinessCategory, TestOutcome, count_where, lemma_count_where_bound};
use crate::tui::cursor::{
    move_down, move_up, first_row, step_down, step_up, cursor_in_bounds,
};
use crate::tui::input::AppMode;
use crate::tui::sort::{
    IndexOrder, stable_sort, increasing, lemma_stable_from_increasing, sorted_under,
    stable_under, same_elements,
};

verus! {

/// The column the scores table is sorted by.
#[derive(Debug, Clone, Copy, PartialEq, Eq, Structural)]
pub enum SortField {
    Name,
    Runs,
    PassRate,
    PFlaky,
    Category,
}

/// The column after `f` in the cycle the sort key steps through.
pub open spec fn sort_field_after(f: SortField) -> SortField {
    match f {
        SortField::Name => SortField::Runs,
        SortField::Runs => SortField::PassRate,
        SortField::PassRate => SortField::PFlaky,
        SortField::PFlaky => SortField::Category,
        SortField::Category => SortField::Name,
    }
}

/// The header text of a scores column.
pub open spec fn sort_field_text(f: SortField) -> Seq<char> {
    match f {
        SortField::Name => seq!['T', 'e', 's', 't'],
        SortField::Runs => seq!['R', 'u', 'n', 's'],
        SortField::PassRate => seq!['P', 'a', 's', 's', '%'],
        SortField::PFlaky => seq!['P', '(', 'f', 'l', 'a', 'k', 'y', ')'],
        SortField::Category => seq!['C', 'a', 't', 'e', 'g', 'o', 'r', 'y'],
    }
}

impl SortField {
    /// The next column in the sort cycle.
    pub fn next(self) -> (r: SortField)
        ensures
            r == sort_field_after(self),
    {
        match self {
            SortField::Name => SortField::Runs,
            SortField::Runs => SortField::PassRate,
            SortField::PassRate => SortField::PFlaky,
            SortField::PFlaky => SortField::Category,
            SortField::Category => SortField::Name,
        }
    }

    /// The column's header text.
    pub fn label(self) -> (r: &'static str)
        ensures
            r@ == sort_field_text(self),
    {
        match self {
            SortField::Name => {
                proof {
                    reveal_strlit("Test");
                }
                "Test"
            },
            SortField::Runs => {
                proof {
                    reveal_strlit("Runs");
                }
                "Runs"
            },
            SortField::PassRate => {
                proof {
                    reveal_strlit("Pass%");
                }
                "Pass%"
            },
            SortField::PFlaky => {
                proof {
                    reveal_strlit("P(flaky)");
                }
                "P(flaky)"
            },
            SortField::Category => {
                proof {
                    reveal_strlit("Category");
                }
                "Category"
            },
        }
    }
}

/// Stepping the sort column five times comes back to where it started.
pub proof fn law_sort_field_cycle(f: SortField)
    ensures
        sort_field_after(sort_field_after(sort_field_after(sort_field_after(sort_field_after(f)))))
            == f,
{
}

/// The column the table of one session's runs is sorted by.
#[derive(Debug, Clone, Copy, PartialEq, Eq, Structural)]
pub enum SessionSortField {
    Name,
    Outcome,
    Duration,
    Retries,
}

/// The column after `f` in the session table's sort cycle.
pub open spec fn session_field_after(f: SessionSortField) -> SessionSortField {
    match f {
        SessionSortField::Name => SessionSortField::Outcome,
        SessionSortField::Outcome => SessionSortField::Duration,
        SessionSortField::Duration => SessionSortField::Retries,
        SessionSortField::Retries => SessionSortField::Name,
    }
}

/// The header text of a session column.
pub open spec fn session_field_text(f: SessionSortField) -> Seq<char> {
    match f {
        SessionSortField::Name => seq!['T', 'e', 's', 't'],
        SessionSortField::Outcome => seq!['O', 'u', 't', 'c', 'o', 'm', 'e'],
        SessionSortField::Duration => seq!['D', 'u', 'r', 'a', 't', 'i', 'o', 'n'],
        SessionSortField::Retries => seq!['R', 'e', 't', 'r', 'i', 'e', 's'],
    }
}

impl SessionSortField {
    /// The next column in the sort cycle.
    pub fn next(self) -> (r: SessionSortField)
        ensures
            r == session_field_after(self),
    {
        match self {
            SessionSortField::Name => SessionSortField::Outcome,
            SessionSortField::Outcome => SessionSortField::Duration,
            SessionSortField::Duration => SessionSortField::Retries,
            SessionSortField::Retries => SessionSortField::Name,
        }
    }

    /// The column's header text.
    pub fn label(self) -> (r: &'static str)
        ensures
            r@ == session_field_text(self),
    {
        match self {
            SessionSortField::Name => {
                proof {
                    reveal_strlit("Test");
                }
                "Test"
            },
            SessionSortField::Outcome => {
                proof {
                    reveal_strlit("Outcome");
                }
                "Outcome"
            },
            SessionSortField::Duration => {
                proof {
                    reveal_strlit("Duration");
                }
                "Duration"
            },
            SessionSortField::Retries => {
                proof {
                    reveal_strlit("Retries");
                }
                "Retries"
            },
        }
    }
}

/// Stepping the session sort column four times comes back to where it
/// started.
pub proof fn law_session_field_cycle(f: SessionSortField)
    ensures
        session_field_after(session_field_after(session_field_after(session_field_after(f)))) == f,
{
}

/// Severity rank of a category, from stable up to critical.
pub open spec fn category_rank(c: FlakinessCategory) -> u8 {
    match c {
        FlakinessCategory::Stable => 0,
        FlakinessCategory::Occasional => 1,
        FlakinessCategory::Moderate => 2,
        FlakinessCategory::Frequent => 3,
        FlakinessCategory::Critical => 4,
    }
}

/// Severity rank of a category, from stable up to critical.
pub fn category_ordinal(c: FlakinessCategory) -> (r: u8)
    ensures
        r == category_rank(c),
{
    match c {
        FlakinessCategory::Stable => 0,
        FlakinessCategory::Occasional => 1,
        FlakinessCategory::Moderate => 2,
        FlakinessCategory::Frequent => 3,
        FlakinessCategory::Critical => 4,
    }
}

/// Rank of an outcome in the session table's outcome order.
pub open spec fn outcome_rank(o: TestOutcome) -> u8 {
    match o {
        TestOutcome::Passed => 0,
        TestOutcome::Failed => 1,
        TestOutcome::Timeout => 2,
        TestOutcome::Panic => 3,
        TestOutcome::Ignored => 4,
    }
}

/// Rank of an outcome in the session table's outcome order.
pub fn outcome_ordinal(o: TestOutcome) -> (r: u8)
    ensures
        r == outcome_rank(o),
{
    match o {
        TestOutcome::Passed => 0,
        TestOutcome::Failed => 1,
        TestOutcome::Timeout => 2,
        TestOutcome::Panic => 3,
        TestOutcome::Ignored => 4,
    }
}

/// One test in the scores table. The two rates are given by ranks that
/// order the tests as the rates do, and the category is that of the
/// test's effective score.
pub struct ScoreRow {
    pub test_name: String,
    pub total_runs: u64,
    pub pass_rate_rank: u64,
    pub score_rank: u64,
    pub category: FlakinessCategory,
}

/// Row `a` sorts strictly below row `b` on the column.
pub open spec fn score_key_lt(rows: Seq<ScoreRow>, field: SortField, a: usize, b: usize) -> bool {
    let x = rows[a as int];
    let y = rows[b as int];
    match field {
        SortField::Name => text_lt(x.test_name@, y.test_name@),
        SortField::Runs => x.total_runs < y.total_runs,
        SortField::PassRate => x.pass_rate_rank < y.pass_rate_rank,
        SortField::PFlaky => x.score_rank < y.score_rank,
        SortField::Category => category_rank(x.category) < category_rank(y.category),
    }
}

/// Row `a` is shown before row `b` when sorting by the column in the
/// given direction.
pub open spec fn score_before(
    rows: Seq<ScoreRow>,
    field: SortField,
    ascending: bool,
    a: usize,
    b: usize,
) -> bool {
    if ascending {
        score_key_lt(rows, field, a, b)
    } else {
        score_key_lt(rows, field, b, a)
    }
}

/// The order of the scores table under one column and direction.
pub struct ScoreOrder<'a> {
    pub rows: &'a Vec<ScoreRow>,
    pub field: SortField,
    pub ascending: bool,
}

impl<'a> ScoreOrder<'a> {
    proof fn lemma_key_weak(&self, a: usize, b: usize, c: usize)
        requires
            score_key_lt(self.rows@, self.field, a, b),
        ensures
            score_key_lt(self.rows@, self.field, a, c) || score_key_lt(self.rows@, self.field, c, b),
    {
        let rows = self.rows@;
        if self.field == SortField::Name {
            let (x, y, z) = (rows[a as int].test_name@, rows[b as int].test_name@, rows[c as int].test_name@);
            crate::text::lemma_text_lt_total(x, z);
            if text_lt(z, x) {
                crate::text::lemma_text_lt_transitive(z, x, y);
            }
        }
    }

    proof fn lemma_key_transitive(&self, a: usize, b: usize, c: usize)
        requires
            score_key_lt(self.rows@, self.field, a, b),
            score_key_lt(self.rows@, self.field, b, c),
        ensures
            score_key_lt(self.rows@, self.field, a, c),
    {
        let rows = self.rows@;
        if self.field == SortField::Name {
            crate::text::lemma_text_lt_transitive(
                rows[a as int].test_name@,
                rows[b as int].test_name@,
                rows[c as int].test_name@,
            );
        }
    }
}

impl<'a> IndexOrder for ScoreOrder<'a> {
    open spec fn valid(&self, a: usize) -> bool {
        a < self.rows@.len()
    }

    open spec fn before(&self, a: usize, b: usize) -> bool {
        score_before(self.rows@, self.field, self.ascending, a, b)
    }

    fn comes_before(&self, a: usize, b: usize) -> (r: bool) {
        let (x, y) = if self.ascending {
            (a, b)
        } else {
            (b, a)
        };
        let rx = &self.rows[x];
        let ry = &self.rows[y];
        match self.field {
            SortField::Name => text_less(
                &chars_of(rx.test_name.as_str()),
                &chars_of(ry.test_name.as_str()),
            ),
            SortField::Runs => rx.total_runs < ry.total_runs,
            SortField::PassRate => rx.pass_rate_rank < ry.pass_rate_rank,
            SortField::PFlaky => rx.score_rank < ry.score_rank,
            SortField::Category => category_ordinal(rx.category) < category_ordinal(ry.category),
        }
    }

    proof fn lemma_irreflexive(&self, a: usize) {
        if self.field == SortField::Name {
            crate::text::lemma_text_lt_irreflexive(self.rows@[a as int].test_name@);
        }
    }

    proof fn lemma_transitive(&self, a: usize, b: usize, c: usize) {
        if self.ascending {
            self.lemma_key_transitive(a, b, c);
        } else {
            self.lemma_key_transitive(c, b, a);
        }
    }

    proof fn lemma_weak(&self, a: usize, b: usize, c: usize) {
        if self.ascending {
            self.lemma_key_weak(a, b, c);
        } else {
            self.lemma_key_weak(b, a, c);
        }
    }
}

/// A category filter lets a row through.
pub open spec fn category_passes(filter: Option<FlakinessCategory>, c: FlakinessCategory) -> bool {
    match filter {
        None => true,
        Some(f) => c == f,
    }
}

/// The category filter after `f` in the cycle: all, then each category
/// from stable to critical, then all again.
pub open spec fn category_filter_after(f: Option<FlakinessCategory>) -> Option<
    FlakinessCategory,
> {
    match f {
        None => Some(FlakinessCategory::Stable),
        Some(FlakinessCategory::Stable) => Some(FlakinessCategory::Occasional),
        Some(FlakinessCategory::Occasional) => Some(FlakinessCategory::Moderate),
        Some(FlakinessCategory::Moderate) => Some(FlakinessCategory::Frequent),
        Some(FlakinessCategory::Frequent) => Some(FlakinessCategory::Critical),
        Some(FlakinessCategory::Critical) => None,
    }
}

/// Stepping the category filter six times comes back to where it started.
pub proof fn law_category_filter_cycle(f: Option<FlakinessCategory>)
    ensures
        category_filter_after(
            category_filter_after(
                category_filter_after(
                    category_filter_after(category_filter_after(category_filter_after(f))),
                ),
            ),
        ) == f,
{
}

/// `s` is sorted by the column, and rows that tie keep the order they have
/// in `input`, which holds the same rows.
pub open spec fn scores_resorted(
    rows: Seq<ScoreRow>,
    field: SortField,
    ascending: bool,
    input: Seq<usize>,
    s: Seq<usize>,
) -> bool {
    &&& same_elements(input, s)
    &&& forall|i: int, j: int|
        0 <= i < j < s.len() ==> !score_before(rows, field, ascending, #[trigger] s[j], #[trigger] s[i])
    &&& forall|i: int, j: int|
        0 <= i < j < s.len() && !score_before(rows, field, ascending, #[trigger] s[i], #[trigger] s[j])
            ==> exists|p: int, q: int| 0 <= p < q < input.len() && input[p] == s[i] && input[q] == s[j]
}

/// `s` is what the scores table shows: every row the filter lets through,
/// once, sorted by the column, with ties in row order.
pub open spec fn scores_shown(
    rows: Seq<ScoreRow>,
    filter: Option<FlakinessCategory>,
    field: SortField,
    ascending: bool,
    s: Seq<usize>,
) -> bool {
    &&& forall|k: int| 0 <= k < s.len() ==> #[trigger] s[k] < rows.len() && category_passes(filter, rows[s[k] as int].category)
    &&& forall|i: usize| i < rows.len() && category_passes(filter, rows[i as int].category) ==> #[trigger] s.contains(i)
    &&& s.no_duplicates()
    &&& forall|i: int, j: int|
        0 <= i < j < s.len() ==> !score_before(rows, field, ascending, #[trigger] s[j], #[trigger] s[i])
    &&& forall|i: int, j: int|
        0 <= i < j < s.len() && !score_before(rows, field, ascending, #[trigger] s[i], #[trigger] s[j])
            ==> s[i] < s[j]
}

/// The positions name rows, each at most once.
pub open spec fn indices_valid(s: Seq<usize>, n: nat) -> bool {
    &&& forall|k: int| 0 <= k < s.len() ==> #[trigger] s[k] < n
    &&& s.no_duplicates()
}

/// The rows of `0..n` that a category filter lets through, in row order.
fn filter_scores(rows: &Vec<ScoreRow>, filter: Option<FlakinessCategory>) -> (r: Vec<usize>)
    ensures
        increasing(r@),
        forall|k: int| 0 <= k < r@.len() ==> #[trigger] r@[k] < rows@.len() && category_passes(filter, rows@[r@[k] as int].category),
        forall|i: usize| i < rows@.len() && category_passes(filter, rows@[i as int].category) ==> #[trigger] r@.contains(i),
{
    let mut out: Vec<usize> = Vec::new();
    let mut i: usize = 0;
    while i < rows.len()
        invariant
            i <= rows@.len(),
            increasing(out@),
            forall|k: int| 0 <= k < out@.len() ==> #[trigger] out@[k] < i && category_passes(filter, rows@[out@[k] as int].category),
            forall|j: usize| j < i && category_passes(filter, rows@[j as int].category) ==> #[trigger] out@.contains(j),
        decreases rows@.len() - i,
    {
        let keep = match filter {
            None => true,
            Some(f) => rows[i].category == f,
        };
        if keep {
            let ghost before = out@;
            out.push(i);
            proof {
                assert forall|j: usize| j < i && category_passes(filter, rows@[j as int].category) implies #[trigger] out@.contains(j) by {
                    assert(before.contains(j));
                    let k = choose|k: int| 0 <= k < before.len() && before[k] == j;
                    assert(out@[k] == j);
                }
                assert(out@[before.len() as int] == i);
            }
        }
        i += 1;
    }
    out
}

/// Sorts positions of score rows by the column, stably.
fn sort_scores(rows: &Vec<ScoreRow>, field: SortField, ascending: bool, input: &Vec<usize>) -> (r:
    Vec<usize>)
    requires
        indices_valid(input@, rows@.len()),
    ensures
        scores_resorted(rows@, field, ascending, input@, r@),
        indices_valid(r@, rows@.len()),
{
    let ord = ScoreOrder { rows, field, ascending };
    let r = stable_sort(&ord, input);
    proof {
        assert(r@.no_duplicates()) by {
            assert forall|i: int, j: int| 0 <= i < r@.len() && 0 <= j < r@.len() && i != j implies r@[i] != r@[j] by {
                if r@[i] == r@[j] {
                    // both come from the input, which holds each row once;
                    // equal rows are never ordered, so stability puts them
                    // at two different input positions
                    ord.lemma_irreflexive(r@[i]);
                    if i < j {
                        let (p, q) = choose|p: int, q: int|
                            0 <= p < q < input@.len() && input@[p] == r@[i] && input@[q] == r@[j];
                    } else {
                        let (p, q) = choose|p: int, q: int|
                            0 <= p < q < input@.len() && input@[p] == r@[j] && input@[q] == r@[i];
                    }
                }
            }
        }
    }
    r
}

/// The scores view: which tests are listed, in which order, which one is
/// highlighted, and whether a test's detail is open.
pub struct ScoresApp<D> {
    pub rows: Vec<ScoreRow>,
    pub filtered: Vec<usize>,
    pub selected: Option<usize>,
    pub sort_field: SortField,
    pub sort_ascending: bool,
    pub filter_category: Option<FlakinessCategory>,
    pub mode: AppMode,
    pub detail: Option<D>,
}

impl<D> ScoresApp<D> {
    /// The listed positions name rows, each once.
    pub open spec fn indices_ok(&self) -> bool {
        indices_valid(self.filtered@, self.rows@.len())
    }

    /// The highlighted position names a listed row, and one is highlighted
    /// exactly when rows are listed.
    pub open spec fn cursor_ok(&self) -> bool {
        cursor_in_bounds(self.filtered@.len() as usize, self.selected)
    }

    /// A view of the rows, all listed, by flakiness from highest down,
    /// with the first one highlighted.
    pub fn new(rows: Vec<ScoreRow>) -> (r: ScoresApp<D>)
        ensures
            r.rows@ == rows@,
            scores_shown(rows@, None, SortField::PFlaky, false, r.filtered@),
            r.selected == (if rows@.len() == 0 { None } else { Some(0usize) }),
            r.sort_field == SortField::PFlaky,
            !r.sort_ascending,
            r.filter_category.is_none(),
            r.mode == AppMode::Browse,
            r.detail.is_none(),
            r.indices_ok(),
            r.cursor_ok(),
    {
        let filtered = filter_scores(&rows, None);
        let sorted = sort_scores(&rows, SortField::PFlaky, false, &filtered);
        proof {
            lemma_shown_from_sort(rows@, None, SortField::PFlaky, false, filtered@, sorted@);
            if rows@.len() > 0 {
                assert(sorted@.contains(0usize));
            } else if sorted@.len() > 0 {
                assert(sorted@[0] < rows@.len());
            }
        }
        let selected = first_row(sorted.len());
        ScoresApp {
            rows,
            filtered: sorted,
            selected,
            sort_field: SortField::PFlaky,
            sort_ascending: false,
            filter_category: None,
            mode: AppMode::Browse,
            detail: None,
        }
    }

    /// Moves the highlight one row up, stopping at the first.
    pub fn move_up(&mut self)
        ensures
            final(self).selected == step_up(old(self).filtered@.len() as usize, old(self).selected),
            final(self).rows == old(self).rows,
            final(self).filtered == old(self).filtered,
            final(self).sort_field == old(self).sort_field,
            final(self).sort_ascending == old(self).sort_ascending,
            final(self).filter_category == old(self).filter_category,
            final(self).mode == old(self).mode,
            final(self).detail == old(self).detail,
            old(self).cursor_ok() ==> final(self).cursor_ok(),
    {
        self.selected = move_up(self.filtered.len(), self.selected);
    }

    /// Moves the highlight one row down, stopping at the last.
    pub fn move_down(&mut self)
        ensures
            final(self).selected == step_down(old(self).filtered@.len() as usize, old(self).selected),
            final(self).rows == old(self).rows,
            final(self).filtered == old(self).filtered,
            final(self).sort_field == old(self).sort_field,
            final(self).sort_ascending == old(self).sort_ascending,
            final(self).filter_category == old(self).filter_category,
            final(self).mode == old(self).mode,
            final(self).detail == old(self).detail,
            old(self).cursor_ok() ==> final(self).cursor_ok(),
    {
        self.selected = move_down(self.filtered.len(), self.selected);
    }

    /// Sorts the listed rows by the current column and direction; rows that
    /// tie keep their order.
    pub fn sort_filtered(&mut self)
        requires
            old(self).indices_ok(),
        ensures
            scores_resorted(
                old(self).rows@,
                old(self).sort_field,
                old(self).sort_ascending,
                old(self).filtered@,
                final(self).filtered@,
            ),
            final(self).indices_ok(),
            final(self).rows == old(self).rows,
            final(self).selected == old(self).selected,
            final(self).sort_field == old(self).sort_field,
            final(self).sort_ascending == old(self).sort_ascending,
            final(self).filter_category == old(self).filter_category,
            final(self).mode == old(self).mode,
            final(self).detail == old(self).detail,
    {
        let sorted = sort_scores(&self.rows, self.sort_field, self.sort_ascending, &self.filtered);
        self.filtered = sorted;
    }

    /// Sorts by the next column.
    pub fn cycle_sort(&mut self)
        requires
            old(self).indices_ok(),
        ensures
            final(self).sort_field == sort_field_after(old(self).sort_field),
            scores_resorted(
                old(self).rows@,
                final(self).sort_field,
                old(self).sort_ascending,
                old(self).filtered@,
                final(self).filtered@,
            ),
            final(self).indices_ok(),
            final(self).rows == old(self).rows,
            final(self).selected == old(self).selected,
            final(self).sort_ascending == old(self).sort_ascending,
            final(self).filter_category == old(self).filter_category,
            final(self).mode == old(self).mode,
            final(self).detail == old(self).detail,
    {
        self.sort_field = self.sort_field.next();
        self.sort_filtered();
    }

    /// Flips the sort direction.
    pub fn reverse_sort(&mut self)
        requires
            old(self).indices_ok(),
        ensures
            final(self).sort_ascending == !old(self).sort_ascending,
            scores_resorted(
                old(self).rows@,
                old(self).sort_field,
                final(self).sort_ascending,
                old(self).filtered@,
                final(self).filtered@,
            ),
            final(self).indices_ok(),
            final(self).rows == old(self).rows,
            final(self).selected == old(self).selected,
            final(self).sort_field == old(self).sort_field,
            final(self).filter_category == old(self).filter_category,
            final(self).mode == old(self).mode,
            final(self).detail == old(self).detail,
    {
        self.sort_ascending = !self.sort_ascending;
        self.sort_filtered();
    }

    /// Lists the rows the category filter lets through, sorted, and
    /// highlights the first.
    fn rebuild_filtered(&mut self)
        ensures
            scores_shown(
                old(self).rows@,
                old(self).filter_category,
                old(self).sort_field,
                old(self).sort_ascending,
                final(self).filtered@,
            ),
            final(self).selected == (if final(self).filtered@.len() == 0 { None } else { Some(0usize) }),
            final(self).indices_ok(),
            final(self).cursor_ok(),
            final(self).rows == old(self).rows,
            final(self).sort_field == old(self).sort_field,
            final(self).sort_ascending == old(self).sort_ascending,
            final(self).filter_category == old(self).filter_category,
            final(self).mode == old(self).mode,
            final(self).detail == old(self).detail,
    {
        let kept = filter_scores(&self.rows, self.filter_category);
        let sorted = sort_scores(&self.rows, self.sort_field, self.sort_ascending, &kept);
        proof {
            lemma_shown_from_sort(
                self.rows@,
                self.filter_category,
                self.sort_field,
                self.sort_ascending,
                kept@,
                sorted@,
            );
        }
        self.filtered = sorted;
        self.selected = first_row(self.filtered.len());
    }

    /// Moves to the next category filter and lists what it lets through.
    pub fn cycle_filter(&mut self)
        ensures
            final(self).filter_category == category_filter_after(old(self).filter_category),
            scores_shown(
                old(self).rows@,
                final(self).filter_category,
                old(self).sort_field,
                old(self).sort_ascending,
                final(self).filtered@,
            ),
            final(self).selected == (if final(self).filtered@.len() == 0 { None } else { Some(0usize) }),
            final(self).indices_ok(),
            final(self).cursor_ok(),
            final(self).rows == old(self).rows,
            final(self).sort_field == old(self).sort_field,
            final(self).sort_ascending == old(self).sort_ascending,
            final(self).mode == old(self).mode,
            final(self).detail == old(self).detail,
    {
        self.filter_category = match self.filter_category {
            None => Some(FlakinessCategory::Stable),
            Some(FlakinessCategory::Stable) => Some(FlakinessCategory::Occasional),
            Some(FlakinessCategory::Occasional) => Some(FlakinessCategory::Moderate),
            Some(FlakinessCategory::Moderate) => Some(FlakinessCategory::Frequent),
            Some(FlakinessCategory::Frequent) => Some(FlakinessCategory::Critical),
            Some(FlakinessCategory::Critical) => None,
        };
        self.rebuild_filtered();
    }

    /// The highlighted row, if one is highlighted and listed.
    pub fn selected_score(&self) -> (r: Option<&ScoreRow>)
        requires
            self.indices_ok(),
        ensures
            r == (match self.selected {
                Some(i) => if i < self.filtered@.len() {
                    Some(&self.rows@[self.filtered@[i as int] as int])
                } else {
                    None
                },
                None => None,
            }),
    {
        match self.selected {
            Some(i) => {
                if i < self.filtered.len() {
                    Some(&self.rows[self.filtered[i]])
                } else {
                    None
                }
            },
            None => None,
        }
    }

    /// The highlighted position, or the first when none is.
    pub fn selected_index(&self) -> (r: usize)
        ensures
            r == (match self.selected {
                Some(i) => i,
                None => 0,
            }),
    {
        match self.selected {
            Some(i) => i,
            None => 0,
        }
    }

    /// Opens the detail of the highlighted row.
    pub fn enter_detail(&mut self, detail: D)
        ensures
            final(self).detail == Some(detail),
            final(self).mode == AppMode::Detail(
                match old(self).selected {
                    Some(i) => i,
                    None => 0,
                },
            ),
            final(self).rows == old(self).rows,
            final(self).filtered == old(self).filtered,
            final(self).selected == old(self).selected,
            final(self).sort_field == old(self).sort_field,
            final(self).sort_ascending == old(self).sort_ascending,
            final(self).filter_category == old(self).filter_category,
    {
        self.detail = Some(detail);
        self.mode = AppMode::Detail(self.selected_index());
    }

    /// Closes the detail and goes back to the table.
    pub fn exit_detail(&mut self)
        ensures
            final(self).detail.is_none(),
            final(self).mode == AppMode::Browse,
            final(self).rows == old(self).rows,
            final(self).filtered == old(self).filtered,
            final(self).selected == old(self).selected,
            final(self).sort_field == old(self).sort_field,
            final(self).sort_ascending == old(self).sort_ascending,
            final(self).filter_category == old(self).filter_category,
    {
        self.detail = None;
        self.mode = AppMode::Browse;
    }

    /// The name of the current category filter.
    pub fn filter_label(&self) -> (r: &'static str)
        ensures
            r@ == (match self.filter_category {
                None => seq!['A', 'l', 'l'],
                Some(c) => crate::types::category_text(c),
            }),
    {
        match self.filter_category {
            None => {
                proof {
                    reveal_strlit("All");
                }
                "All"
            },
            Some(c) => c.label(),
        }
    }
}

/// Sorting the rows a filter lets through, taken in row order, gives what
/// the table shows.
proof fn lemma_shown_from_sort(
    rows: Seq<ScoreRow>,
    filter: Option<FlakinessCategory>,
    field: SortField,
    ascending: bool,
    kept: Seq<usize>,
    s: Seq<usize>,
)
    requires
        increasing(kept),
        forall|k: int| 0 <= k < kept.len() ==> #[trigger] kept[k] < rows.len() && category_passes(filter, rows[kept[k] as int].category),
        forall|i: usize| i < rows.len() && category_passes(filter, rows[i as int].category) ==> #[trigger] kept.contains(i),
        scores_resorted(rows, field, ascending, kept, s),
        indices_valid(s, rows.len()),
    ensures
        scores_shown(rows, filter, field, ascending, s),
{
    assert forall|k: int| 0 <= k < s.len() implies #[trigger] s[k] < rows.len() && category_passes(filter, rows[s[k] as int].category) by {
        assert(kept.contains(s[k]));
        let p = choose|p: int| 0 <= p < kept.len() && kept[p] == s[k];
    }
    assert forall|i: usize| i < rows.len() && category_passes(filter, rows[i as int].category) implies #[trigger] s.contains(i) by {
        assert(kept.contains(i));
        let p = choose|p: int| 0 <= p < kept.len() && kept[p] == i;
        assert(s.contains(kept[p]));
    }
    assert forall|i: int, j: int|
        0 <= i < j < s.len() && !score_before(rows, field, ascending, #[trigger] s[i], #[trigger] s[j]) implies s[i] < s[j] by {
        let (p, q) = choose|p: int, q: int| 0 <= p < q < kept.len() && kept[p] == s[i] && kept[q] == s[j];
        assert(kept[p] < kept[q]);
    }
}

/// The outcomes of runs, in order.
pub open spec fn run_outcomes(runs: Seq<RunRow>) -> Seq<TestOutcome> {
    runs.map_values(|r: RunRow| r.outcome)
}

/// One run in the table of a session's runs.
pub struct RunRow {
    pub test_name: String,
    pub outcome: TestOutcome,
    pub duration_nanos: u128,
    pub retry_count: u32,
}

/// Run `a` sorts strictly below run `b` on the column.
pub open spec fn run_key_lt(runs: Seq<RunRow>, field: SessionSortField, a: usize, b: usize) -> bool {
    let x = runs[a as int];
    let y = runs[b as int];
    match field {
        SessionSortField::Name => text_lt(x.test_name@, y.test_name@),
        SessionSortField::Outcome => outcome_rank(x.outcome) < outcome_rank(y.outcome),
        SessionSortField::Duration => x.duration_nanos < y.duration_nanos,
        SessionSortField::Retries => x.retry_count < y.retry_count,
    }
}

/// Run `a` is shown before run `b` when sorting by the column in the
/// given direction.
pub open spec fn run_before(
    runs: Seq<RunRow>,
    field: SessionSortField,
    ascending: bool,
    a: usize,
    b: usize,
) -> bool {
    if ascending {
        run_key_lt(runs, field, a, b)
    } else {
        run_key_lt(runs, field, b, a)
    }
}

/// The order of a session's runs under one column and direction.
pub struct RunOrder<'a> {
    pub runs: &'a Vec<RunRow>,
    pub field: SessionSortField,
    pub ascending: bool,
}

impl<'a> RunOrder<'a> {
    proof fn lemma_key_weak(&self, a: usize, b: usize, c: usize)
        requires
            run_key_lt(self.runs@, self.field, a, b),
        ensures
            run_key_lt(self.runs@, self.field, a, c) || run_key_lt(self.runs@, self.field, c, b),
    {
        let runs = self.runs@;
        if self.field == SessionSortField::Name {
            let (x, y, z) = (runs[a as int].test_name@, runs[b as int].test_name@, runs[c as int].test_name@);
            crate::text::lemma_text_lt_total(x, z);
            if text_lt(z, x) {
                crate::text::lemma_text_lt_transitive(z, x, y);
            }
        }
    }

    proof fn lemma_key_transitive(&self, a: usize, b: usize, c: usize)
        requires
            run_key_lt(self.runs@, self.field, a, b),
            run_key_lt(self.runs@, self.field, b, c),
        ensures
            run_key_lt(self.runs@, self.field, a, c),
    {
        let runs = self.runs@;
        if self.field == SessionSortField::Name {
            crate::text::lemma_text_lt_transitive(
                runs[a as int].test_name@,
                runs[b as int].test_name@,
                runs[c as int].test_name@,
            );
        }
    }
}

impl<'a> IndexOrder for RunOrder<'a> {
    open spec fn valid(&self, a: usize) -> bool {
        a < self.runs@.len()
    }

    open spec fn before(&self, a: usize, b: usize) -> bool {
        run_before(self.runs@, self.field, self.ascending, a, b)
    }

    fn comes_before(&self, a: usize, b: usize) -> (r: bool) {
        let (x, y) = if self.ascending {
            (a, b)
        } else {
            (b, a)
        };
        let rx = &self.runs[x];
        let ry = &self.runs[y];
        match self.field {
            SessionSortField::Name => text_less(
                &chars_of(rx.test_name.as_str()),
                &chars_of(ry.test_name.as_str()),
            ),
            SessionSortField::Outcome => outcome_ordinal(rx.outcome) < outcome_ordinal(ry.outcome),
            SessionSortField::Duration => rx.duration_nanos < ry.duration_nanos,
            SessionSortField::Retries => rx.retry_count < ry.retry_count,
        }
    }

    proof fn lemma_irreflexive(&self, a: usize) {
        if self.field == SessionSortField::Name {
            crate::text::lemma_text_lt_irreflexive(self.runs@[a as int].test_name@);
        }
    }

    proof fn lemma_transitive(&self, a: usize, b: usize, c: usize) {
        if self.ascending {
            self.lemma_key_transitive(a, b, c);
        } else {
            self.lemma_key_transitive(c, b, a);
        }
    }

    proof fn lemma_weak(&self, a: usize, b: usize, c: usize) {
        if self.ascending {
            self.lemma_key_weak(a, b, c);
        } else {
            self.lemma_key_weak(b, a, c);
        }
    }
}

/// An outcome filter lets a run through.
pub open spec fn outcome_passes(filter: Option<TestOutcome>, o: TestOutcome) -> bool {
    match filter {
        None => true,
        Some(f) => o == f,
    }
}

/// The outcome filter after `f` in the cycle: all, passed, failed,
/// timeout, panic, ignored, then all again.
pub open spec fn outcome_filter_after(f: Option<TestOutcome>) -> Option<TestOutcome> {
    match f {
        None => Some(TestOutcome::Passed),
        Some(TestOutcome::Passed) => Some(TestOutcome::Failed),
        Some(TestOutcome::Failed) => Some(TestOutcome::Timeout),
        Some(TestOutcome::Timeout) => Some(TestOutcome::Panic),
        Some(TestOutcome::Panic) => Some(TestOutcome::Ignored),
        Some(TestOutcome::Ignored) => None,
    }
}

/// Stepping the outcome filter six times comes back to where it started.
pub proof fn law_outcome_filter_cycle(f: Option<TestOutcome>)
    ensures
        outcome_filter_after(
            outcome_filter_after(
                outcome_filter_after(
                    outcome_filter_after(outcome_filter_after(outcome_filter_after(f))),
                ),
            ),
        ) == f,
{
}

/// `s` is sorted by the column, and runs that tie keep the order they have
/// in `input`, which holds the same runs.
pub open spec fn runs_resorted(
    runs: Seq<RunRow>,
    field: SessionSortField,
    ascending: bool,
    input: Seq<usize>,
    s: Seq<usize>,
) -> bool {
    &&& same_elements(input, s)
    &&& forall|i: int, j: int|
        0 <= i < j < s.len() ==> !run_before(runs, field, ascending, #[trigger] s[j], #[trigger] s[i])
    &&& forall|i: int, j: int|
        0 <= i < j < s.len() && !run_before(runs, field, ascending, #[trigger] s[i], #[trigger] s[j])
            ==> exists|p: int, q: int| 0 <= p < q < input.len() && input[p] == s[i] && input[q] == s[j]
}

/// `s` is what the session table shows: every run the filter lets
/// through, once, sorted by the column, with ties in run order.
pub open spec fn runs_shown(
    runs: Seq<RunRow>,
    filter: Option<TestOutcome>,
    field: SessionSortField,
    ascending: bool,
    s: Seq<usize>,
) -> bool {
    &&& forall|k: int| 0 <= k < s.len() ==> #[trigger] s[k] < runs.len() && outcome_passes(filter, runs[s[k] as int].outcome)
    &&& forall|i: usize| i < runs.len() && outcome_passes(filter, runs[i as int].outcome) ==> #[trigger] s.contains(i)
    &&& s.no_duplicates()
    &&& forall|i: int, j: int|
        0 <= i < j < s.len() ==> !run_before(runs, field, ascending, #[trigger] s[j], #[trigger] s[i])
    &&& forall|i: int, j: int|
        0 <= i < j < s.len() && !run_before(runs, field, ascending, #[trigger] s[i], #[trigger] s[j])
            ==> s[i] < s[j]
}

/// The runs an outcome filter lets through, in run order.
fn filter_runs(runs: &Vec<RunRow>, filter: Option<TestOutcome>) -> (r: Vec<usize>)
    ensures
        increasing(r@),
        forall|k: int| 0 <= k < r@.len() ==> #[trigger] r@[k] < runs@.len() && outcome_passes(filter, runs@[r@[k] as int].outcome),
        forall|i: usize| i < runs@.len() && outcome_passes(filter, runs@[i as int].outcome) ==> #[trigger] r@.contains(i),
{
    let mut out: Vec<usize> = Vec::new();
    let mut i: usize = 0;
    while i < runs.len()
        invariant
            i <= runs@.len(),
            increasing(out@),
            forall|k: int| 0 <= k < out@.len() ==> #[trigger] out@[k] < i && outcome_passes(filter, runs@[out@[k] as int].outcome),
            forall|j: usize| j < i && outcome_passes(filter, runs@[j as int].outcome) ==> #[trigger] out@.contains(j),
        decreases runs@.len() - i,
    {
        let keep = match filter {
            None => true,
            Some(f) => runs[i].outcome == f,
        };
        if keep {
            let ghost before = out@;
            out.push(i);
            proof {
                assert forall|j: usize| j < i && outcome_passes(filter, runs@[j as int].outcome) implies #[trigger] out@.contains(j) by {
                    assert(before.contains(j));
                    let k = choose|k: int| 0 <= k < before.len() && before[k] == j;
                    assert(out@[k] == j);
                }
                assert(out@[before.len() as int] == i);
            }
        }
        i += 1;
    }
    out
}

/// Sorts positions of runs by the column, stably.
fn sort_runs(runs: &Vec<RunRow>, field: SessionSortField, ascending: bool, input: &Vec<usize>) -> (r:
    Vec<usize>)
    requires
        indices_valid(input@, runs@.len()),
    ensures
        runs_resorted(runs@, field, ascending, input@, r@),
        indices_valid(r@, runs@.len()),
{
    let ord = RunOrder { runs, field, ascending };
    let r = stable_sort(&ord, input);
    proof {
        assert(r@.no_duplicates()) by {
            assert forall|i: int, j: int| 0 <= i < r@.len() && 0 <= j < r@.len() && i != j implies r@[i] != r@[j] by {
                if r@[i] == r@[j] {
                    ord.lemma_irreflexive(r@[i]);
                    if i < j {
                        let (p, q) = choose|p: int, q: int|
                            0 <= p < q < input@.len() && input@[p] == r@[i] && input@[q] == r@[j];
                    } else {
                        let (p, q) = choose|p: int, q: int|
                            0 <= p < q < input@.len() && input@[p] == r@[j] && input@[q] == r@[i];
                    }
                }
            }
        }
    }
    r
}

/// Sorting the runs a filter lets through, taken in run order, gives what
/// the table shows.
proof fn lemma_runs_shown_from_sort(
    runs: Seq<RunRow>,
    filter: Option<TestOutcome>,
    field: SessionSortField,
    ascending: bool,
    kept: Seq<usize>,
    s: Seq<usize>,
)
    requires
        increasing(kept),
        forall|k: int| 0 <= k < kept.len() ==> #[trigger] kept[k] < runs.len() && outcome_passes(filter, runs[kept[k] as int].outcome),
        forall|i: usize| i < runs.len() && outcome_passes(filter, runs[i as int].outcome) ==> #[trigger] kept.contains(i),
        runs_resorted(runs, field, ascending, kept, s),
        indices_valid(s, runs.len()),
    ensures
        runs_shown(runs, filter, field, ascending, s),
{
    assert forall|k: int| 0 <= k < s.len() implies #[trigger] s[k] < runs.len() && outcome_passes(filter, runs[s[k] as int].outcome) by {
        assert(kept.contains(s[k]));
        let p = choose|p: int| 0 <= p < kept.len() && kept[p] == s[k];
    }
    assert forall|i: usize| i < runs.len() && outcome_passes(filter, runs[i as int].outcome) implies #[trigger] s.contains(i) by {
        assert(kept.contains(i));
        let p = choose|p: int| 0 <= p < kept.len() && kept[p] == i;
        assert(s.contains(kept[p]));
    }
    assert forall|i: int, j: int|
        0 <= i < j < s.len() && !run_before(runs, field, ascending, #[trigger] s[i], #[trigger] s[j]) implies s[i] < s[j] by {
        let (p, q) = choose|p: int, q: int| 0 <= p < q < kept.len() && kept[p] == s[i] && kept[q] == s[j];
        assert(kept[p] < kept[q]);
    }
}

/// The table of one session's runs.
pub struct SessionDetail {
    pub runs: Vec<RunRow>,
    pub filtered: Vec<usize>,
    pub selected: Option<usize>,
    pub sort_field: SessionSortField,
    pub sort_ascending: bool,
    pub filter_outcome: Option<TestOutcome>,
}

impl SessionDetail {
    /// The listed positions name runs, each once.
    pub open spec fn indices_ok(&self) -> bool {
        indices_valid(self.filtered@, self.runs@.len())
    }

    /// The highlighted position names a listed run, and one is highlighted
    /// exactly when runs are listed.
    pub open spec fn cursor_ok(&self) -> bool {
        cursor_in_bounds(self.filtered@.len() as usize, self.selected)
    }

    /// A table of all the runs, by test name, with the first highlighted.
    pub fn new(runs: Vec<RunRow>) -> (r: SessionDetail)
        ensures
            r.runs@ == runs@,
            runs_shown(runs@, None, SessionSortField::Name, true, r.filtered@),
            r.selected == (if runs@.len() == 0 { None } else { Some(0usize) }),
            r.sort_field == SessionSortField::Name,
            r.sort_ascending,
            r.filter_outcome.is_none(),
            r.indices_ok(),
            r.cursor_ok(),
    {
        let filtered = filter_runs(&runs, None);
        let sorted = sort_runs(&runs, SessionSortField::Name, true, &filtered);
        proof {
            lemma_runs_shown_from_sort(runs@, None, SessionSortField::Name, true, filtered@, sorted@);
            if runs@.len() > 0 {
                assert(sorted@.contains(0usize));
            } else if sorted@.len() > 0 {
                assert(sorted@[0] < runs@.len());
            }
        }
        let selected = first_row(sorted.len());
        SessionDetail {
            runs,
            filtered: sorted,
            selected,
            sort_field: SessionSortField::Name,
            sort_ascending: true,
            filter_outcome: None,
        }
    }

    /// Moves the highlight one run up, stopping at the first.
    pub fn move_up(&mut self)
        ensures
            final(self).selected == step_up(old(self).filtered@.len() as usize, old(self).selected),
            final(self).runs == old(self).runs,
            final(self).filtered == old(self).filtered,
            final(self).sort_field == old(self).sort_field,
            final(self).sort_ascending == old(self).sort_ascending,
            final(self).filter_outcome == old(self).filter_outcome,
            old(self).cursor_ok() ==> final(self).cursor_ok(),
    {
        self.selected = move_up(self.filtered.len(), self.selected);
    }

    /// Moves the highlight one run down, stopping at the last.
    pub fn move_down(&mut self)
        ensures
            final(self).selected == step_down(old(self).filtered@.len() as usize, old(self).selected),
            final(self).runs == old(self).runs,
            final(self).filtered == old(self).filtered,
            final(self).sort_field == old(self).sort_field,
            final(self).sort_ascending == old(self).sort_ascending,
            final(self).filter_outcome == old(self).filter_outcome,
            old(self).cursor_ok() ==> final(self).cursor_ok(),
    {
        self.selected = move_down(self.filtered.len(), self.selected);
    }

    /// Sorts the listed runs by the current column and direction; runs that
    /// tie keep their order.
    pub fn sort_filtered(&mut self)
        requires
            old(self).indices_ok(),
        ensures
            runs_resorted(
                old(self).runs@,
                old(self).sort_field,
                old(self).sort_ascending,
                old(self).filtered@,
                final(self).filtered@,
            ),
            final(self).indices_ok(),
            final(self).runs == old(self).runs,
            final(self).selected == old(self).selected,
            final(self).sort_field == old(self).sort_field,
            final(self).sort_ascending == old(self).sort_ascending,
            final(self).filter_outcome == old(self).filter_outcome,
    {
        let sorted = sort_runs(&self.runs, self.sort_field, self.sort_ascending, &self.filtered);
        self.filtered = sorted;
    }

    /// Sorts by the next column.
    pub fn cycle_sort(&mut self)
        requires
            old(self).indices_ok(),
        ensures
            final(self).sort_field == session_field_after(old(self).sort_field),
            runs_resorted(
                old(self).runs@,
                final(self).sort_field,
                old(self).sort_ascending,
                old(self).filtered@,
                final(self).filtered@,
            ),
            final(self).indices_ok(),
            final(self).runs == old(self).runs,
            final(self).selected == old(self).selected,
            final(self).sort_ascending == old(self).sort_ascending,
            final(self).filter_outcome == old(self).filter_outcome,
    {
        self.sort_field = self.sort_field.next();
        self.sort_filtered();
    }

    /// Flips the sort direction.
    pub fn reverse_sort(&mut self)
        requires
            old(self).indices_ok(),
        ensures
            final(self).sort_ascending == !old(self).sort_ascending,
            runs_resorted(
                old(self).runs@,
                old(self).sort_field,
                final(self).sort_ascending,
                old(self).filtered@,
                final(self).filtered@,
            ),
            final(self).indices_ok(),
            final(self).runs == old(self).runs,
            final(self).selected == old(self).selected,
            final(self).sort_field == old(self).sort_field,
            final(self).filter_outcome == old(self).filter_outcome,
    {
        self.sort_ascending = !self.sort_ascending;
        self.sort_filtered();
    }

    /// Lists the runs the outcome filter lets through, sorted, and
    /// highlights the first.
    fn rebuild_filtered(&mut self)
        ensures
            runs_shown(
                old(self).runs@,
                old(self).filter_outcome,
                old(self).sort_field,
                old(self).sort_ascending,
                final(self).filtered@,
            ),
            final(self).selected == (if final(self).filtered@.len() == 0 { None } else { Some(0usize) }),
            final(self).indices_ok(),
            final(self).cursor_ok(),
            final(self).runs == old(self).runs,
            final(self).sort_field == old(self).sort_field,
            final(self).sort_ascending == old(self).sort_ascending,
            final(self).filter_outcome == old(self).filter_outcome,
    {
        let kept = filter_runs(&self.runs, self.filter_outcome);
        let sorted = sort_runs(&self.runs, self.sort_field, self.sort_ascending, &kept);
        proof {
            lemma_runs_shown_from_sort(
                self.runs@,
                self.filter_outcome,
                self.sort_field,
                self.sort_ascending,
                kept@,
                sorted@,
            );
        }
        self.filtered = sorted;
        self.selected = first_row(self.filtered.len());
    }

    /// Moves to the next outcome filter and lists what it lets through.
    pub fn cycle_filter(&mut self)
        ensures
            final(self).filter_outcome == outcome_filter_after(old(self).filter_outcome),
            runs_shown(
                old(self).runs@,
                final(self).filter_outcome,
                old(self).sort_field,
                old(self).sort_ascending,
                final(self).filtered@,
            ),
            final(self).selected == (if final(self).filtered@.len() == 0 { None } else { Some(0usize) }),
            final(self).indices_ok(),
            final(self).cursor_ok(),
            final(self).runs == old(self).runs,
            final(self).sort_field == old(self).sort_field,
            final(self).sort_ascending == old(self).sort_ascending,
    {
        self.filter_outcome = match self.filter_outcome {
            None => Some(TestOutcome::Passed),
            Some(TestOutcome::Passed) => Some(TestOutcome::Failed),
            Some(TestOutcome::Failed) => Some(TestOutcome::Timeout),
            Some(TestOutcome::Timeout) => Some(TestOutcome::Panic),
            Some(TestOutcome::Panic) => Some(TestOutcome::Ignored),
            Some(TestOutcome::Ignored) => None,
        };
        self.rebuild_filtered();
    }

    /// How many of the session's runs passed, and how many failed (failed,
    /// timed out or panicked; ignored runs are neither).
    pub fn outcome_summary(&self) -> (r: (usize, usize))
        ensures
            r.0 == count_where(run_outcomes(self.runs@), |o: TestOutcome| o == TestOutcome::Passed),
            r.1 == count_where(
                run_outcomes(self.runs@),
                |o: TestOutcome| o != TestOutcome::Passed && o != TestOutcome::Ignored,
            ),
    {
        let mut passed: usize = 0;
        let mut failed: usize = 0;
        let mut i: usize = 0;
        while i < self.runs.len()
            invariant
                i <= self.runs@.len(),
                passed == count_where(run_outcomes(self.runs@.take(i as int)), |o: TestOutcome| o == TestOutcome::Passed),
                failed == count_where(
                    run_outcomes(self.runs@.take(i as int)),
                    |o: TestOutcome| o != TestOutcome::Passed && o != TestOutcome::Ignored,
                ),
            decreases self.runs@.len() - i,
        {
            proof {
                let t = run_outcomes(self.runs@.take(i + 1));
                assert(t.drop_last() =~= run_outcomes(self.runs@.take(i as int)));
                assert(t.last() == self.runs@[i as int].outcome);
                lemma_count_where_bound(run_outcomes(self.runs@.take(i as int)), |o: TestOutcome| o == TestOutcome::Passed);
                lemma_count_where_bound(
                    run_outcomes(self.runs@.take(i as int)),
                    |o: TestOutcome| o != TestOutcome::Passed && o != TestOutcome::Ignored,
                );
            }
            match self.runs[i].outcome {
                TestOutcome::Passed => {
                    passed = passed + 1;
                },
                TestOutcome::Ignored => {},
                _ => {
                    failed = failed + 1;
                },
            }
            i += 1;
        }
        assert(self.runs@.take(self.runs@.len() as int) =~= self.runs@);
        (passed, failed)
    }

    /// The name of the current outcome filter.
    pub fn filter_label(&self) -> (r: &'static str)
        ensures
            r@ == (match self.filter_outcome {
                None => seq!['A', 'l', 'l'],
                Some(TestOutcome::Passed) => seq!['P', 'a', 's', 's'],
                Some(TestOutcome::Failed) => seq!['F', 'a', 'i', 'l'],
                Some(TestOutcome::Timeout) => seq!['T', 'i', 'm', 'e', 'o', 'u', 't'],
                Some(TestOutcome::Panic) => seq!['P', 'a', 'n', 'i', 'c'],
                Some(TestOutcome::Ignored) => seq!['I', 'g', 'n', 'o', 'r', 'e', 'd'],
            }),
    {
        match self.filter_outcome {
            None => {
                proof {
                    reveal_strlit("All");
                }
                "All"
            },
            Some(TestOutcome::Passed) => {
                proof {
                    reveal_strlit("Pass");
                }
                "Pass"
            },
            Some(TestOutcome::Failed) => {
                proof {
                    reveal_strlit("Fail");
                }
                "Fail"
            },
            Some(TestOutcome::Timeout) => {
                proof {
                    reveal_strlit("Timeout");
                }
                "Timeout"
            },
            Some(TestOutcome::Panic) => {
                proof {
                    reveal_strlit("Panic");
                }
                "Panic"
            },
            Some(TestOutcome::Ignored) => {
                proof {
                    reveal_strlit("Ignored");
                }
                "Ignored"
            },
        }
    }
}

/// The history view: past sessions, the highlighted one, and whether its
/// runs are open.
pub struct HistoryApp<S> {
    pub sessions: Vec<S>,
    pub selected: Option<usize>,
    pub mode: AppMode,
    pub detail: Option<SessionDetail>,
}

impl<S> HistoryApp<S> {
    /// The highlighted position names a session, and one is highlighted
    /// exactly when there are sessions.
    pub open spec fn cursor_ok(&self) -> bool {
        cursor_in_bounds(self.sessions@.len() as usize, self.selected)
    }

    /// The open session table, if any, lists valid positions.
    pub open spec fn detail_ok(&self) -> bool {
        match self.detail {
            Some(d) => d.indices_ok(),
            None => true,
        }
    }

    /// A view of the sessions with the first one highlighted.
    pub fn new(sessions: Vec<S>) -> (r: HistoryApp<S>)
        ensures
            r.sessions@ == sessions@,
            r.selected == (if sessions@.len() == 0 { None } else { Some(0usize) }),
            r.mode == AppMode::Browse,
            r.detail.is_none(),
            r.cursor_ok(),
    {
        let selected = first_row(sessions.len());
        HistoryApp { sessions, selected, mode: AppMode::Browse, detail: None }
    }

    /// Moves the highlight one session up, stopping at the first.
    pub fn move_up(&mut self)
        ensures
            final(self).selected == step_up(old(self).sessions@.len() as usize, old(self).selected),
            final(self).sessions == old(self).sessions,
            final(self).mode == old(self).mode,
            final(self).detail == old(self).detail,
            old(self).cursor_ok() ==> final(self).cursor_ok(),
    {
        self.selected = move_up(self.sessions.len(), self.selected);
    }

    /// Moves the highlight one session down, stopping at the last.
    pub fn move_down(&mut self)
        ensures
            final(self).selected == step_down(old(self).sessions@.len() as usize, old(self).selected),
            final(self).sessions == old(self).sessions,
            final(self).mode == old(self).mode,
            final(self).detail == old(self).detail,
            old(self).cursor_ok() ==> final(self).cursor_ok(),
    {
        self.selected = move_down(self.sessions.len(), self.selected);
    }

    /// The highlighted session, if one is highlighted.
    pub fn selected_session(&self) -> (r: Option<&S>)
        ensures
            r == (match self.selected {
                Some(i) => if i < self.sessions@.len() {
                    Some(&self.sessions@[i as int])
                } else {
                    None
                },
                None => None,
            }),
    {
        match self.selected {
            Some(i) => {
                if i < self.sessions.len() {
                    Some(&self.sessions[i])
                } else {
                    None
                }
            },
            None => None,
        }
    }

    /// Opens the runs of the highlighted session.
    pub fn enter_detail(&mut self, detail: SessionDetail)
        ensures
            final(self).detail == Some(detail),
            final(self).mode == AppMode::Detail(
                match old(self).selected {
                    Some(i) => i,
                    None => 0,
                },
            ),
            final(self).sessions == old(self).sessions,
            final(self).selected == old(self).selected,
    {
        let idx = match self.selected {
            Some(i) => i,
            None => 0,
        };
        self.detail = Some(detail);
        self.mode = AppMode::Detail(idx);
    }

    /// Closes the session's runs and goes back to the sessions.
    pub fn exit_detail(&mut self)
        ensures
            final(self).detail.is_none(),
            final(self).mode == AppMode::Browse,
            final(self).sessions == old(self).sessions,
            final(self).selected == old(self).selected,
    {
        self.detail = None;
        self.mode = AppMode::Browse;
    }

    /// Moves the highlight up in the open session's runs, if any.
    pub fn detail_move_up(&mut self)
        ensures
            match (old(self).detail, final(self).detail) {
                (Some(d0), Some(d1)) => d1.selected == step_up(d0.filtered@.len() as usize, d0.selected)
                    && d1.runs == d0.runs && d1.filtered == d0.filtered
                    && d1.sort_field == d0.sort_field && d1.sort_ascending == d0.sort_ascending
                    && d1.filter_outcome == d0.filter_outcome,
                (None, None) => true,
                _ => false,
            },
            final(self).sessions == old(self).sessions,
            final(self).selected == old(self).selected,
            final(self).mode == old(self).mode,
    {
        if let Some(mut d) = self.detail.take() {
            d.move_up();
            self.detail = Some(d);
        }
    }

    /// Moves the highlight down in the open session's runs, if any.
    pub fn detail_move_down(&mut self)
        ensures
            match (old(self).detail, final(self).detail) {
                (Some(d0), Some(d1)) => d1.selected == step_down(d0.filtered@.len() as usize, d0.selected)
                    && d1.runs == d0.runs && d1.filtered == d0.filtered
                    && d1.sort_field == d0.sort_field && d1.sort_ascending == d0.sort_ascending
                    && d1.filter_outcome == d0.filter_outcome,
                (None, None) => true,
                _ => false,
            },
            final(self).sessions == old(self).sessions,
            final(self).selected == old(self).selected,
            final(self).mode == old(self).mode,
    {
        if let Some(mut d) = self.detail.take() {
            d.move_down();
            self.detail = Some(d);
        }
    }

    /// Sorts the open session's runs by the next column, if any are open.
    pub fn detail_cycle_sort(&mut self)
        requires
            old(self).detail_ok(),
        ensures
            match (old(self).detail, final(self).detail) {
                (Some(d0), Some(d1)) => d1.sort_field == session_field_after(d0.sort_field)
                    && runs_resorted(d0.runs@, d1.sort_field, d0.sort_ascending, d0.filtered@, d1.filtered@)
                    && d1.runs == d0.runs && d1.selected == d0.selected
                    && d1.sort_ascending == d0.sort_ascending
                    && d1.filter_outcome == d0.filter_outcome,
                (None, None) => true,
                _ => false,
            },
            final(self).detail_ok(),
            final(self).sessions == old(self).sessions,
            final(self).selected == old(self).selected,
            final(self).mode == old(self).mode,
    {
        if let Some(mut d) = self.detail.take() {
            d.cycle_sort();
            self.detail = Some(d);
        }
    }

    /// Flips the sort direction of the open session's runs, if any.
    pub fn detail_reverse_sort(&mut self)
        requires
            old(self).detail_ok(),
        ensures
            match (old(self).detail, final(self).detail) {
                (Some(d0), Some(d1)) => d1.sort_ascending == !d0.sort_ascending
                    && runs_resorted(d0.runs@, d0.sort_field, d1.sort_ascending, d0.filtered@, d1.filtered@)
                    && d1.runs == d0.runs && d1.selected == d0.selected
                    && d1.sort_field == d0.sort_field
                    && d1.filter_outcome == d0.filter_outcome,
                (None, None) => true,
                _ => false,
            },
            final(self).detail_ok(),
            final(self).sessions == old(self).sessions,
            final(self).selected == old(self).selected,
            final(self).mode == old(self).mode,
    {
        if let Some(mut d) = self.detail.take() {
            d.reverse_sort();
            self.detail = Some(d);
        }
    }

    /// Moves the open session's runs to the next outcome filter, if any.
    pub fn detail_cycle_filter(&mut self)
        ensures
            match (old(self).detail, final(self).detail) {
                (Some(d0), Some(d1)) => d1.filter_outcome == outcome_filter_after(d0.filter_outcome)
                    && runs_shown(d0.runs@, d1.filter_outcome, d0.sort_field, d0.sort_ascending, d1.filtered@)
                    && d1.selected == (if d1.filtered@.len() == 0 { None } else { Some(0usize) })
                    && d1.runs == d0.runs && d1.sort_field == d0.sort_field
                    && d1.sort_ascending == d0.sort_ascending,
                (None, None) => true,
                _ => false,
            },
            final(self).detail_ok(),
            final(self).sessions == old(self).sessions,
            final(self).selected == old(self).selected,
            final(self).mode == old(self).mode,
    {
        if let Some(mut d) = self.detail.take() {
            d.cycle_filter();
            self.detail = Some(d);
        }
    }
}


/// Sorting by category follows severity: stable below occasional below
/// moderate below frequent below critical.
pub proof fn law_category_sort_is_severity()
    ensures
        category_rank(FlakinessCategory::Stable) < category_rank(FlakinessCategory::Occasional),
        category_rank(FlakinessCategory::Occasional) < category_rank(FlakinessCategory::Moderate),
        category_rank(FlakinessCategory::Moderate) < category_rank(FlakinessCategory::Frequent),
        category_rank(FlakinessCategory::Frequent) < category_rank(FlakinessCategory::Critical),
        forall|rows: Seq<ScoreRow>, a: usize, b: usize|
            #[trigger] score_key_lt(rows, SortField::Category, a, b) <==> category_rank(rows[a as int].category)
                < category_rank(rows[b as int].category),
{
}

} // verus!
