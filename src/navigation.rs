use vstd::prelude::*;

use crate::color::{color_distance, distance_spec, Rgb};
use crate::geometry::{count_digits, in_i32, Point};
use crate::grammar::{digits_value, lemma_digits_value_grows};
use crate::rule::ActuatorResult;

verus! {

/// What to do after a sample of the shift indicator.
#[derive(Clone, Copy, Debug, PartialEq, Eq, Structural)]
pub enum MoveStep {
    /// Scroll one more unit and sample again.
    Continue,
    /// The move is complete.
    Done,
    /// The retry budget is spent.
    Failed,
}

/// Moving the list by one row: scroll a unit at a time until the indicator
/// has changed colour and then settled back.
#[derive(Clone, Copy, Debug, PartialEq, Eq, Structural)]
pub struct RowMove {
    /// Units scrolled so far.
    pub attempts: u32,
    pub max_attempts: u32,
    /// Colour distance above which the indicator counts as changed.
    pub threshold: i32,
    /// The indicator has changed since the move began.
    pub changed: bool,
}

/// The machine after one sample at distance `d`, and what to do next.
pub open spec fn row_move_step(m: RowMove, d: i32) -> (RowMove, MoveStep) {
    let a = (m.attempts + 1) as u32;
    if m.changed && d <= m.threshold {
        (RowMove { attempts: a, ..m }, MoveStep::Done)
    } else {
        let next = RowMove { attempts: a, changed: m.changed || d > m.threshold, ..m };
        if a >= m.max_attempts {
            (next, MoveStep::Failed)
        } else {
            (next, MoveStep::Continue)
        }
    }
}

/// Feeds the samples `ds` to the machine until it stops: the step it
/// stopped with and how many samples it took, or `None` if it never did.
pub open spec fn row_move_run(m: RowMove, ds: Seq<i32>) -> Option<(MoveStep, nat)>
    decreases ds.len(),
{
    if ds.len() == 0 {
        None
    } else {
        let (next, step) = row_move_step(m, ds[0]);
        if step == MoveStep::Continue {
            match row_move_run(next, ds.drop_first()) {
                Some((s, k)) => Some((s, k + 1)),
                None => None,
            }
        } else {
            Some((step, 1))
        }
    }
}

impl RowMove {
    /// Still within its budget.
    pub open spec fn wf(&self) -> bool {
        self.attempts < self.max_attempts
    }

    pub fn new(max_attempts: u32, threshold: i32) -> (r: RowMove)
        requires
            max_attempts >= 1,
        ensures
            r.wf(),
            r.attempts == 0,
            !r.changed,
            r.max_attempts == max_attempts,
            r.threshold == threshold,
    {
        RowMove { attempts: 0, max_attempts, threshold, changed: false }
    }

    /// Takes the indicator's distance from its colour before the move,
    /// sampled after one more unit of scrolling.
    pub fn observe(&mut self, distance: i32) -> (r: MoveStep)
        requires
            old(self).wf(),
        ensures
            (*final(self), r) == row_move_step(*old(self), distance),
            r == MoveStep::Continue ==> final(self).wf(),
    {
        self.attempts = self.attempts + 1;
        if self.changed && distance <= self.threshold {
            return MoveStep::Done;
        }
        if distance > self.threshold {
            self.changed = true;
        }
        if self.attempts >= self.max_attempts {
            MoveStep::Failed
        } else {
            MoveStep::Continue
        }
    }
}

/// A row move stops, done or failed, within its budget, whatever the
/// indicator shows.
pub proof fn lemma_row_move_bounded(m: RowMove, ds: Seq<i32>)
    requires
        m.wf(),
        ds.len() >= m.max_attempts - m.attempts,
    ensures
        row_move_run(m, ds) matches Some((step, k)) && step != MoveStep::Continue && 1 <= k
            <= m.max_attempts - m.attempts,
    decreases m.max_attempts - m.attempts,
{
    let (next, step) = row_move_step(m, ds[0]);
    if step == MoveStep::Continue {
        lemma_row_move_bounded(next, ds.drop_first());
    }
}

/// Fine adjustment after a bulk scroll: read the indicator and, while it
/// has not settled, nudge one unit; at most `max_attempts` readings, each
/// unsettled one followed by a nudge, and no reading after the last nudge.
#[derive(Clone, Copy, Debug, PartialEq, Eq, Structural)]
pub struct RowAdjust {
    /// Readings taken, and nudges made, so far.
    pub attempts: u32,
    pub max_attempts: u32,
    pub threshold: i32,
}

/// After a reading at distance `d`: settled, or one more nudge.
pub open spec fn row_adjust_step(m: RowAdjust, d: i32) -> (RowAdjust, MoveStep) {
    if d <= m.threshold {
        (m, MoveStep::Done)
    } else {
        (RowAdjust { attempts: (m.attempts + 1) as u32, ..m }, MoveStep::Continue)
    }
}

/// Runs the adjustment on the readings `ds`: once the budget is spent it
/// fails without reading; otherwise it reads the next value. Gives the step
/// it stopped with and the readings it took, or `None` if `ds` ran out.
pub open spec fn row_adjust_run(m: RowAdjust, ds: Seq<i32>) -> Option<(MoveStep, nat)>
    decreases ds.len(),
{
    if m.attempts >= m.max_attempts {
        Some((MoveStep::Failed, 0))
    } else if ds.len() == 0 {
        None
    } else {
        let (next, step) = row_adjust_step(m, ds[0]);
        if step == MoveStep::Continue {
            match row_adjust_run(next, ds.drop_first()) {
                Some((s, k)) => Some((s, k + 1)),
                None => None,
            }
        } else {
            Some((step, 1))
        }
    }
}

/// The adjustment stops within its budget of readings; when no reading
/// settles, it fails after exactly the budget of readings and nudges.
pub proof fn lemma_row_adjust_budget(m: RowAdjust, ds: Seq<i32>)
    requires
        m.attempts <= m.max_attempts,
        ds.len() >= m.max_attempts - m.attempts,
    ensures
        row_adjust_run(m, ds) matches Some((step, k)) && step != MoveStep::Continue && k
            <= m.max_attempts - m.attempts,
        (forall|i: int| 0 <= i < m.max_attempts - m.attempts ==> #[trigger] ds[i] > m.threshold)
            ==> row_adjust_run(m, ds) == Some(
            (MoveStep::Failed, (m.max_attempts - m.attempts) as nat),
        ),
    decreases m.max_attempts - m.attempts,
{
    if m.attempts < m.max_attempts {
        let (next, step) = row_adjust_step(m, ds[0]);
        if step == MoveStep::Continue {
            lemma_row_adjust_budget(next, ds.drop_first());
            if forall|i: int| 0 <= i < m.max_attempts - m.attempts ==> #[trigger] ds[i] > m.threshold {
                assert forall|i: int|
                    0 <= i < next.max_attempts - next.attempts implies #[trigger] ds.drop_first()[i]
                    > next.threshold by {
                    assert(ds.drop_first()[i] == ds[i + 1]);
                }
            }
        }
    }
}

impl RowAdjust {
    pub open spec fn wf(&self) -> bool {
        self.attempts <= self.max_attempts
    }

    pub fn new(max_attempts: u32, threshold: i32) -> (r: RowAdjust)
        ensures
            r.wf(),
            r.attempts == 0,
            r.max_attempts == max_attempts,
            r.threshold == threshold,
    {
        RowAdjust { attempts: 0, max_attempts, threshold }
    }

    /// The budget is spent: the adjustment has failed, and no further
    /// reading is taken.
    pub fn exhausted(&self) -> (r: bool)
        ensures
            r == (self.attempts >= self.max_attempts),
    {
        self.attempts >= self.max_attempts
    }

    /// Takes a reading of the indicator's distance from its resting colour;
    /// on `Continue` the caller nudges one unit.
    pub fn observe(&mut self, distance: i32) -> (r: MoveStep)
        requires
            old(self).attempts < old(self).max_attempts,
        ensures
            (*final(self), r) == row_adjust_step(*old(self), distance),
            final(self).wf(),
    {
        if distance <= self.threshold {
            return MoveStep::Done;
        }
        self.attempts = self.attempts + 1;
        MoveStep::Continue
    }
}

/// Where a scan stands: rows moved past the first page, and units scrolled.
#[derive(Clone, Copy, Debug, PartialEq, Eq, Structural)]
pub struct ScrollCursor {
    /// Rows the list has been moved by.
    pub row_index: u32,
    /// Units scrolled while moving row by row.
    pub page_scroll_count: u32,
    /// Units scrolled in all.
    pub scroll_count: u32,
}

/// How the list should be moved by some rows.
#[derive(Clone, Copy, Debug, PartialEq, Eq, Structural)]
pub enum MovePlan {
    /// Scroll this many units at once, then adjust.
    Bulk(u64),
    /// Move row by row, calibrating as it goes.
    RowByRow(u32),
}

impl ScrollCursor {
    pub fn new() -> (r: ScrollCursor)
        ensures
            r.row_index == 0 && r.page_scroll_count == 0 && r.scroll_count == 0,
    {
        ScrollCursor { row_index: 0, page_scroll_count: 0, scroll_count: 0 }
    }

    /// Units for `row_count` rows, from the units per row seen while the
    /// first page was moved row by row.
    pub fn calculate_page_scroll_count(&self, page_rows: u32, row_count: u32) -> (r: u64)
        requires
            page_rows > 0,
        ensures
            r == (self.page_scroll_count / page_rows) * row_count,
    {
        let per_row = (self.page_scroll_count / page_rows) as u64;
        assert(per_row * row_count <= 0xffff_ffff * 0xffff_ffff) by (nonlinear_arith)
            requires
                per_row <= 0xffff_ffff,
                row_count <= 0xffff_ffff,
        ;
        per_row * (row_count as u64)
    }

    /// Row by row until a full page has been moved so, in bulk after.
    pub fn plan_move(&self, page_rows: u32, row_count: u32) -> (r: MovePlan)
        requires
            page_rows > 0,
        ensures
            self.row_index >= page_rows ==> r == MovePlan::Bulk(
                ((self.page_scroll_count / page_rows) * row_count) as u64,
            ),
            self.row_index < page_rows ==> r == MovePlan::RowByRow(row_count),
    {
        if self.row_index >= page_rows {
            MovePlan::Bulk(self.calculate_page_scroll_count(page_rows, row_count))
        } else {
            MovePlan::RowByRow(row_count)
        }
    }

    /// Counts one unit scrolled while moving row by row.
    pub fn record_row_scroll(&mut self)
        requires
            old(self).page_scroll_count < u32::MAX,
            old(self).scroll_count < u32::MAX,
        ensures
            final(self).page_scroll_count == old(self).page_scroll_count + 1,
            final(self).scroll_count == old(self).scroll_count + 1,
            final(self).row_index == old(self).row_index,
    {
        self.page_scroll_count = self.page_scroll_count + 1;
        self.scroll_count = self.scroll_count + 1;
    }

    /// Counts units scrolled in bulk or while adjusting.
    pub fn record_scroll(&mut self, units: u32)
        requires
            old(self).scroll_count + units <= u32::MAX,
        ensures
            final(self).scroll_count == old(self).scroll_count + units,
            final(self).page_scroll_count == old(self).page_scroll_count,
            final(self).row_index == old(self).row_index,
    {
        self.scroll_count = self.scroll_count + units;
    }

    /// Counts rows the list has moved by.
    pub fn record_rows(&mut self, rows: u32)
        requires
            old(self).row_index + rows <= u32::MAX,
        ensures
            final(self).row_index == old(self).row_index + rows,
            final(self).page_scroll_count == old(self).page_scroll_count,
            final(self).scroll_count == old(self).scroll_count,
    {
        self.row_index = self.row_index + rows;
    }
}

/// One step of a traversal.
#[derive(Clone, Copy, Debug, PartialEq, Eq, Structural)]
pub enum Job {
    /// Visit `rows` visible rows from `start_row` down, every column but
    /// in the last row, where only `last_row_cols` are filled.
    ScanForward { start_row: u32, rows: u32, last_row_cols: u32 },
    /// Move the list down by this many rows.
    MoveRows(u32),
}

pub open spec fn smaller(a: int, b: int) -> int {
    if a <= b {
        a
    } else {
        b
    }
}

/// The jobs for the `remaining` rows after the first page: move by up to a
/// page, then visit the rows that came into view at the bottom.
pub open spec fn tail_jobs(remaining: int, rows: int, cols: int, last_cols: int) -> Seq<Job>
    decreases remaining,
{
    if remaining <= 0 || rows <= 0 {
        Seq::empty()
    } else {
        let k = smaller(rows, remaining);
        seq![
            Job::MoveRows(k as u32),
            Job::ScanForward {
                start_row: (rows - k) as u32,
                rows: k as u32,
                last_row_cols: (if remaining == k {
                    last_cols
                } else {
                    cols
                }) as u32,
            },
        ] + tail_jobs(remaining - k, rows, cols, last_cols)
    }
}

pub open spec fn total_rows(total: int, cols: int) -> int {
    (total + cols - 1) / cols
}

/// The plan for `total` items on pages of `rows` by `cols`: visit the first
/// page, then move and visit the new rows until the end, each item once.
pub open spec fn plan_spec(total: int, rows: int, cols: int) -> Seq<Job> {
    if total <= 0 {
        Seq::empty()
    } else {
        let tr = total_rows(total, cols);
        let lc = total - (tr - 1) * cols;
        let first = smaller(rows, tr);
        seq![
            Job::ScanForward {
                start_row: 0,
                rows: first as u32,
                last_row_cols: (if tr == first {
                    lc
                } else {
                    cols
                }) as u32,
            },
        ] + tail_jobs(tr - first, rows, cols, lc)
    }
}

/// The number of cells the jobs visit.
pub open spec fn visited_cells(jobs: Seq<Job>, cols: int) -> int
    decreases jobs.len(),
{
    if jobs.len() == 0 {
        0
    } else {
        visited_cells(jobs.drop_first(), cols) + match jobs[0] {
            Job::ScanForward { start_row, rows, last_row_cols } => if rows == 0 {
                0
            } else {
                (rows - 1) * cols + last_row_cols
            },
            Job::MoveRows(_) => 0,
        }
    }
}

pub proof fn lemma_visited_concat(a: Seq<Job>, b: Seq<Job>, cols: int)
    ensures
        visited_cells(a + b, cols) == visited_cells(a, cols) + visited_cells(b, cols),
    decreases a.len(),
{
    if a.len() > 0 {
        assert((a + b).drop_first() =~= a.drop_first() + b);
        lemma_visited_concat(a.drop_first(), b, cols);
    } else {
        assert(a + b =~= b);
    }
}

proof fn lemma_tail_cells(remaining: int, rows: int, cols: int, last_cols: int)
    requires
        remaining > 0,
        rows > 0,
        remaining <= u32::MAX,
        rows <= u32::MAX,
        0 <= cols <= u32::MAX,
        0 <= last_cols <= u32::MAX,
    ensures
        visited_cells(tail_jobs(remaining, rows, cols, last_cols), cols) == (remaining - 1) * cols
            + last_cols,
    decreases remaining,
{
    let k = smaller(rows, remaining);
    let head = seq![
        Job::MoveRows(k as u32),
        Job::ScanForward {
            start_row: (rows - k) as u32,
            rows: k as u32,
            last_row_cols: (if remaining == k {
                last_cols
            } else {
                cols
            }) as u32,
        },
    ];
    let rest = tail_jobs(remaining - k, rows, cols, last_cols);
    assert(tail_jobs(remaining, rows, cols, last_cols) == head + rest);
    lemma_visited_concat(head, rest, cols);
    let lc = if remaining == k {
        last_cols
    } else {
        cols
    };
    let scan = Job::ScanForward { start_row: (rows - k) as u32, rows: k as u32, last_row_cols: lc as u32 };
    assert(head.drop_first() =~= seq![scan]);
    assert(seq![scan].drop_first() =~= Seq::<Job>::empty());
    assert((k as u32) as int == k);
    assert((lc as u32) as int == lc);
    assert(visited_cells(Seq::<Job>::empty(), cols) == 0);
    assert(seq![scan][0] == scan);
    assert(k >= 1);
    assert(visited_cells(seq![scan], cols) == visited_cells(seq![scan].drop_first(), cols) + (k
        - 1) * cols + lc);
    assert(visited_cells(seq![scan], cols) == (k - 1) * cols + lc);
    assert(visited_cells(head, cols) == (k - 1) * cols + lc);
    if remaining > k {
        lemma_tail_cells(remaining - k, rows, cols, last_cols);
        assert((k - 1) * cols + cols + (remaining - k - 1) * cols == (remaining - 1) * cols)
            by (nonlinear_arith);
    } else {
        assert(rest =~= Seq::<Job>::empty());
    }
}

/// Following the plan visits exactly `total` cells.
pub proof fn lemma_plan_visits_every_item(total: int, rows: int, cols: int)
    requires
        0 <= total <= u32::MAX,
        1 <= rows <= u32::MAX,
        1 <= cols <= u32::MAX,
    ensures
        visited_cells(plan_spec(total, rows, cols), cols) == total,
{
    if total > 0 {
        let tr = total_rows(total, cols);
        let lc = total - (tr - 1) * cols;
        lemma_row_split(total, cols);
        let first = smaller(rows, tr);
        let head = seq![
            Job::ScanForward {
                start_row: 0,
                rows: first as u32,
                last_row_cols: (if tr == first {
                    lc
                } else {
                    cols
                }) as u32,
            },
        ];
        let rest = tail_jobs(tr - first, rows, cols, lc);
        lemma_visited_concat(head, rest, cols);
        assert(head.drop_first() =~= Seq::<Job>::empty());
        assert((first as u32) as int == first);
        let lcf = if tr == first {
            lc
        } else {
            cols
        };
        assert((lcf as u32) as int == lcf);
        assert(visited_cells(Seq::<Job>::empty(), cols) == 0);
        assert(first >= 1);
        assert(head[0] == Job::ScanForward {
            start_row: 0,
            rows: first as u32,
            last_row_cols: lcf as u32,
        });
        assert(visited_cells(head, cols) == visited_cells(head.drop_first(), cols) + (first - 1)
            * cols + lcf);
        assert(visited_cells(head, cols) == (first - 1) * cols + lcf);
        if tr > first {
            lemma_tail_cells(tr - first, rows, cols, lc);
            assert((first - 1) * cols + cols + (tr - first - 1) * cols == (tr - 1) * cols)
                by (nonlinear_arith);
        } else {
            assert(rest =~= Seq::<Job>::empty());
        }
    }
}

/// With `tr` rows, the last holds between one and `cols` items.
proof fn lemma_row_split(total: int, cols: int)
    requires
        0 < total <= u32::MAX,
        1 <= cols <= u32::MAX,
    ensures
        1 <= total_rows(total, cols) <= total,
        1 <= total - (total_rows(total, cols) - 1) * cols <= cols,
{
    let tr = total_rows(total, cols);
    let n = total + cols - 1;
    assert(n == tr * cols + n % cols) by (nonlinear_arith)
        requires
            tr == n / cols,
            cols >= 1,
    ;
    assert(0 <= n % cols < cols) by (nonlinear_arith)
        requires
            cols >= 1,
    ;
    assert(1 <= tr <= total) by (nonlinear_arith)
        requires
            n == tr * cols + n % cols,
            0 <= n % cols < cols,
            n == total + cols - 1,
            total >= 1,
            cols >= 1,
    ;
    assert(1 <= total - (tr - 1) * cols <= cols) by (nonlinear_arith)
        requires
            n == tr * cols + n % cols,
            0 <= n % cols < cols,
            n == total + cols - 1,
    ;
}

/// Plans a traversal of `total_items` items on pages of `page_rows` rows and
/// `page_cols` columns.
pub fn plan_traversal(total_items: u32, page_rows: u32, page_cols: u32) -> (r: Vec<Job>)
    requires
        page_rows >= 1,
        page_cols >= 1,
    ensures
        r@ == plan_spec(total_items as int, page_rows as int, page_cols as int),
        visited_cells(r@, page_cols as int) == total_items,
        forall|i: int|
            0 <= i < r@.len() ==> (#[trigger] r@[i] matches Job::ScanForward {
                start_row,
                rows,
                last_row_cols,
            } ==> start_row + rows <= page_rows),
{
    proof {
        lemma_plan_visits_every_item(total_items as int, page_rows as int, page_cols as int);
    }
    let mut jobs: Vec<Job> = Vec::new();
    if total_items == 0 {
        assert(jobs@ =~= plan_spec(total_items as int, page_rows as int, page_cols as int));
        return jobs;
    }
    let total = total_items as u64;
    let cols = page_cols as u64;
    let rows = page_rows as u64;
    let tr = (total + cols - 1) / cols;
    proof {
        lemma_row_split(total as int, cols as int);
    }
    assert((tr - 1) * cols <= total) by (nonlinear_arith)
        requires
            1 <= total - (tr - 1) * cols,
    ;
    let lc = total - (tr - 1) * cols;
    let first = if rows <= tr {
        rows
    } else {
        tr
    };
    jobs.push(
        Job::ScanForward {
            start_row: 0,
            rows: first as u32,
            last_row_cols: (if tr == first {
                lc
            } else {
                cols
            }) as u32,
        },
    );
    let ghost goal = plan_spec(total_items as int, page_rows as int, page_cols as int);
    let mut remaining = tr - first;
    assert(goal == jobs@ + tail_jobs(remaining as int, rows as int, cols as int, lc as int));
    while remaining > 0
        invariant
            remaining <= tr <= u32::MAX,
            1 <= rows <= u32::MAX,
            1 <= lc <= cols <= u32::MAX,
            goal == jobs@ + tail_jobs(remaining as int, rows as int, cols as int, lc as int),
            rows == page_rows,
            forall|i: int|
                0 <= i < jobs@.len() ==> (#[trigger] jobs@[i] matches Job::ScanForward {
                    start_row,
                    rows,
                    last_row_cols,
                } ==> start_row + rows <= page_rows),
        decreases remaining,
    {
        let k = if rows <= remaining {
            rows
        } else {
            remaining
        };
        let ghost before = jobs@;
        jobs.push(Job::MoveRows(k as u32));
        jobs.push(
            Job::ScanForward {
                start_row: (rows - k) as u32,
                rows: k as u32,
                last_row_cols: (if remaining == k {
                    lc
                } else {
                    cols
                }) as u32,
            },
        );
        let ghost rest = tail_jobs((remaining - k) as int, rows as int, cols as int, lc as int);
        assert(jobs@ + rest =~= before + tail_jobs(
            remaining as int,
            rows as int,
            cols as int,
            lc as int,
        ));
        remaining = remaining - k;
    }
    assert(jobs@ =~= goal);
    jobs
}

/// The jobs that go on past a page already visited, for `remaining` more
/// full rows: move by up to a page, then visit the rows that came into view.
pub fn plan_continuation(remaining: u32, page_rows: u32, page_cols: u32) -> (r: Vec<Job>)
    requires
        page_rows >= 1,
    ensures
        r@ == tail_jobs(remaining as int, page_rows as int, page_cols as int, page_cols as int),
        forall|i: int|
            0 <= i < r@.len() ==> (#[trigger] r@[i] matches Job::ScanForward {
                start_row,
                rows,
                last_row_cols,
            } ==> start_row + rows <= page_rows),
{
    let mut jobs: Vec<Job> = Vec::new();
    let mut left = remaining;
    let ghost goal = tail_jobs(remaining as int, page_rows as int, page_cols as int, page_cols as int);
    assert(goal == jobs@ + tail_jobs(left as int, page_rows as int, page_cols as int, page_cols as int));
    while left > 0
        invariant
            page_rows >= 1,
            goal == jobs@ + tail_jobs(left as int, page_rows as int, page_cols as int, page_cols as int),
            forall|i: int|
                0 <= i < jobs@.len() ==> (#[trigger] jobs@[i] matches Job::ScanForward {
                    start_row,
                    rows,
                    last_row_cols,
                } ==> start_row + rows <= page_rows),
        decreases left,
    {
        let k = if page_rows <= left {
            page_rows
        } else {
            left
        };
        let ghost before = jobs@;
        jobs.push(Job::MoveRows(k));
        jobs.push(Job::ScanForward { start_row: page_rows - k, rows: k, last_row_cols: page_cols });
        let ghost rest = tail_jobs((left - k) as int, page_rows as int, page_cols as int, page_cols as int);
        assert(jobs@ + rest =~= before + tail_jobs(
            left as int,
            page_rows as int,
            page_cols as int,
            page_cols as int,
        ));
        left = left - k;
    }
    assert(jobs@ =~= goal);
    jobs
}

/// The cell at column `col`, row `row` of a grid starting at `origin` with
/// the given spacing; `None` off the `i32` range.
pub open spec fn cell_spec(origin: Point, col: u32, row: u32, dx: u32, dy: u32) -> Option<(int, int)> {
    let x = origin.x + col * dx;
    let y = origin.y + row * dy;
    if in_i32(x) && in_i32(y) {
        Some((x, y))
    } else {
        None
    }
}

/// The point of a grid cell.
pub fn cell_point(origin: Point, col: u32, row: u32, dx: u32, dy: u32) -> (r: Option<Point>)
    ensures
        match (r, cell_spec(origin, col, row, dx, dy)) {
            (Some(p), Some((x, y))) => p.x == x && p.y == y,
            (None, None) => true,
            _ => false,
        },
{
    assert(0 <= col * dx <= 0xffff_ffff * 0xffff_ffff) by (nonlinear_arith)
        requires
            col <= 0xffff_ffff,
            dx <= 0xffff_ffff,
    ;
    assert(0 <= row * dy <= 0xffff_ffff * 0xffff_ffff) by (nonlinear_arith)
        requires
            row <= 0xffff_ffff,
            dy <= 0xffff_ffff,
    ;
    let x = origin.x as i128 + (col as i128) * (dx as i128);
    let y = origin.y as i128 + (row as i128) * (dy as i128);
    if x < i32::MIN as i128 || x > i32::MAX as i128 || y < i32::MIN as i128 || y > i32::MAX as i128 {
        return None;
    }
    Some(Point { x: x as i32, y: y as i32 })
}

/// The scrollbar as sampled down its track: the track's height, the
/// thumb's length, and how far down the thumb starts.
#[derive(Clone, Copy, Debug, PartialEq, Eq, Structural)]
pub struct Scrollbar {
    pub height: i64,
    pub button_height: i64,
    pub scroll_length: i64,
}

/// After the first `k` samples: whether a thumb pixel was seen, where the
/// first one was, and where the last one after it was (zero if none).
pub open spec fn thumb_scan(colors: Seq<Rgb>, thumb: Rgb, threshold: int, k: int) -> (bool, int, int)
    decreases k,
{
    if k <= 0 {
        (false, 0, 0)
    } else {
        let (started, first, last) = thumb_scan(colors, thumb, threshold, k - 1);
        if distance_spec(colors[k - 1], thumb) < threshold {
            if !started {
                (true, k - 1, last)
            } else {
                (true, first, k - 1)
            }
        } else {
            (started, first, last)
        }
    }
}

/// Measures the scrollbar from the colours sampled down its track: thumb
/// pixels are those within `threshold` of the thumb colour.
pub fn get_scrollbar(colors: &Vec<Rgb>, thumb: Rgb, threshold: i32) -> (r: Scrollbar)
    requires
        colors@.len() <= i32::MAX,
    ensures
        ({
            let (_, first, last) = thumb_scan(colors@, thumb, threshold as int, colors@.len() as int);
            r.height == colors@.len() && r.scroll_length == first && r.button_height == last - first
        }),
{
    let n = colors.len();
    let mut started = false;
    let mut first: i64 = 0;
    let mut last: i64 = 0;
    let mut y: usize = 0;
    while y < n
        invariant
            n == colors@.len() <= i32::MAX,
            y <= n,
            (started, first as int, last as int) == thumb_scan(colors@, thumb, threshold as int, y as int),
            0 <= first <= y,
            0 <= last <= y,
        decreases n - y,
    {
        if color_distance(&colors[y], &thumb) < threshold {
            if !started {
                first = y as i64;
                started = true;
            } else {
                last = y as i64;
            }
        }
        y = y + 1;
    }
    Scrollbar { height: n as i64, button_height: last - first, scroll_length: first }
}

/// The number of rows the scrollbar suggests. Past the first page the
/// distance the thumb has travelled is scaled by the rows moved so far;
/// before, the track over the thumb is scaled by the visible list over a
/// row. `None` where a divisor is not positive.
pub open spec fn total_rows_estimate(
    bar: Scrollbar,
    row_index: int,
    page_rows: int,
    list_height: int,
    interval: int,
) -> Option<int> {
    if row_index > page_rows - 1 {
        if bar.scroll_length > 0 && bar.height >= bar.button_height {
            Some(((bar.height - bar.button_height) * row_index) / (bar.scroll_length as int) + page_rows)
        } else {
            None
        }
    } else if bar.button_height > 0 && interval > 0 && bar.height >= 0 {
        Some((bar.height * list_height) / ((bar.button_height as int) * interval))
    } else {
        None
    }
}

/// Estimates the list's rows from the scrollbar, where no item count can be
/// read.
pub fn get_artifact_list_total_rows(
    bar: &Scrollbar,
    row_index: u32,
    page_rows: u32,
    list_height: u32,
    interval: u32,
) -> (r: Option<u64>)
    requires
        0 <= bar.height <= i32::MAX,
        i32::MIN <= bar.button_height <= i32::MAX,
        i32::MIN <= bar.scroll_length <= i32::MAX,
    ensures
        match (r, total_rows_estimate(*bar, row_index as int, page_rows as int, list_height as int, interval as int)) {
            (Some(v), Some(e)) => v == e,
            (None, None) => true,
            _ => false,
        },
{
    if row_index as i64 > page_rows as i64 - 1 {
        if bar.scroll_length > 0 && bar.height >= bar.button_height {
            let span = (bar.height - bar.button_height) as i128;
            assert(0 <= span * row_index <= 0xffff_ffff * 0xffff_ffff) by (nonlinear_arith)
                requires
                    0 <= span <= 0xffff_ffff,
                    row_index <= 0xffff_ffff,
            ;
            let q = span * (row_index as i128) / (bar.scroll_length as i128);
            assert(0 <= q <= span * row_index) by (nonlinear_arith)
                requires
                    q == (span * row_index) / (bar.scroll_length as int),
                    bar.scroll_length >= 1,
                    span * row_index >= 0,
            ;
            Some((q + page_rows as i128) as u64)
        } else {
            None
        }
    } else if bar.button_height > 0 && interval > 0 && bar.height >= 0 {
        assert(0 <= bar.height * list_height <= 0x7fff_ffff * 0xffff_ffff) by (nonlinear_arith)
            requires
                0 <= bar.height <= 0x7fff_ffff,
                list_height <= 0xffff_ffff,
        ;
        assert(1 <= bar.button_height * interval <= 0x7fff_ffff * 0xffff_ffff) by (nonlinear_arith)
            requires
                1 <= bar.button_height <= 0x7fff_ffff,
                1 <= interval <= 0xffff_ffff,
        ;
        let num = (bar.height as i128) * (list_height as i128);
        let den = (bar.button_height as i128) * (interval as i128);
        let q = num / den;
        assert(0 <= q <= num) by (nonlinear_arith)
            requires
                q == num / den,
                den >= 1,
                num >= 0,
        ;
        Some(q as u64)
    } else {
        None
    }
}

/// How many of each outcome a run produced.
#[derive(Clone, Copy, Debug, PartialEq, Eq, Structural)]
pub struct RunSummary {
    pub lock_and_mark: usize,
    pub only_lock: usize,
    pub unlock_and_unmark: usize,
}

pub open spec fn count_of(results: Seq<ActuatorResult>, which: ActuatorResult) -> nat
    decreases results.len(),
{
    if results.len() == 0 {
        0
    } else {
        count_of(results.drop_last(), which) + if results.last() == which {
            1nat
        } else {
            0nat
        }
    }
}

/// Counts the outcomes of a run.
pub fn tally(results: &Vec<ActuatorResult>) -> (r: RunSummary)
    ensures
        r.lock_and_mark == count_of(results@, ActuatorResult::LockAndMark),
        r.only_lock == count_of(results@, ActuatorResult::OnlyLock),
        r.unlock_and_unmark == count_of(results@, ActuatorResult::UnlockAndUnmark),
{
    let mut s = RunSummary { lock_and_mark: 0, only_lock: 0, unlock_and_unmark: 0 };
    let mut i: usize = 0;
    while i < results.len()
        invariant
            i <= results@.len(),
            s.lock_and_mark == count_of(results@.subrange(0, i as int), ActuatorResult::LockAndMark),
            s.only_lock == count_of(results@.subrange(0, i as int), ActuatorResult::OnlyLock),
            s.unlock_and_unmark == count_of(
                results@.subrange(0, i as int),
                ActuatorResult::UnlockAndUnmark,
            ),
            s.lock_and_mark + s.only_lock + s.unlock_and_unmark == i,
        decreases results@.len() - i,
    {
        assert(results@.subrange(0, i + 1).drop_last() =~= results@.subrange(0, i as int));
        match results[i] {
            ActuatorResult::LockAndMark => s.lock_and_mark = s.lock_and_mark + 1,
            ActuatorResult::OnlyLock => s.only_lock = s.only_lock + 1,
            ActuatorResult::UnlockAndUnmark => s.unlock_and_unmark = s.unlock_and_unmark + 1,
        }
        i = i + 1;
    }
    assert(results@.subrange(0, i as int) =~= results@);
    s
}

/// Position of the first `/` in `t`, or its length.
pub open spec fn slash_index(t: Seq<char>) -> int
    decreases t.len(),
{
    if t.len() == 0 {
        0
    } else if slash_index(t.drop_last()) < t.len() - 1 {
        slash_index(t.drop_last())
    } else if t.last() == '/' {
        t.len() - 1
    } else {
        t.len() as int
    }
}

/// The item count that a counter like `Items 123/2000` shows: the digits
/// before the first `/`.
pub open spec fn item_count_spec(t: Seq<char>) -> Option<u32> {
    let head = t.subrange(0, slash_index(t));
    if count_digits(head) >= 1 && digits_value(head, 0, head.len() as int) <= u32::MAX {
        Some(digits_value(head, 0, head.len() as int) as u32)
    } else {
        None
    }
}

/// Reads the number of items from the counter text.
pub fn item_count(text: &str) -> (r: Option<u32>)
    ensures
        r == item_count_spec(text@),
{
    let n = text.unicode_len();
    let mut i: usize = 0;
    let mut v: u64 = 0;
    let mut digits: usize = 0;
    while i < n && text.get_char(i) != '/'
        invariant
            n == text@.len(),
            i <= n,
            slash_index(text@.subrange(0, i as int)) == i,
            v == digits_value(text@, 0, i as int),
            v <= u32::MAX,
            digits == count_digits(text@.subrange(0, i as int)),
            digits <= i,
        decreases n - i,
    {
        let c = text.get_char(i);
        let ghost pre = text@.subrange(0, i as int);
        assert(text@.subrange(0, i + 1).drop_last() =~= pre);
        if '0' <= c && c <= '9' {
            let d = (c as u32 - '0' as u32) as u64;
            if v > (0xffff_ffffu64 - d) / 10 {
                proof {
                    lemma_slash_after(text@, i as int);
                    lemma_digits_value_grows(text@, 0, i + 1, slash_index(text@));
                    lemma_prefix_value(text@, slash_index(text@));
                }
                return None;
            }
            v = v * 10 + d;
            digits = digits + 1;
        }
        i = i + 1;
    }
    proof {
        lemma_slash_stop(text@, i as int);
        lemma_prefix_value(text@, i as int);
        assert(text@.subrange(0, i as int).subrange(0, i as int) =~= text@.subrange(0, i as int));
    }
    if digits == 0 {
        return None;
    }
    Some(v as u32)
}

/// Digits read from the start of `t` and of a prefix of it agree up to the
/// prefix's end.
proof fn lemma_prefix_value(t: Seq<char>, j: int)
    requires
        0 <= j <= t.len(),
    ensures
        digits_value(t.subrange(0, j), 0, j) == digits_value(t, 0, j),
    decreases j,
{
    if j > 0 {
        lemma_prefix_value(t, j - 1);
        lemma_prefix_digits(t, j, j - 1);
    }
}

proof fn lemma_prefix_digits(t: Seq<char>, j: int, k: int)
    requires
        0 <= k <= j <= t.len(),
    ensures
        digits_value(t.subrange(0, j), 0, k) == digits_value(t, 0, k),
    decreases k,
{
    if k > 0 {
        lemma_prefix_digits(t, j, k - 1);
    }
}

/// While no `/` has been seen, the first `/` lies further on.
proof fn lemma_slash_after(t: Seq<char>, i: int)
    requires
        0 <= i < t.len(),
        slash_index(t.subrange(0, i)) == i,
        t[i] != '/',
    ensures
        slash_index(t) >= i + 1,
{
    assert(t.subrange(0, i + 1).drop_last() =~= t.subrange(0, i));
    lemma_slash_extend(t, i + 1);
}

/// Whether the first `/` lies within the first `j` characters.
proof fn lemma_slash_extend(t: Seq<char>, j: int)
    requires
        0 <= j <= t.len(),
        slash_index(t.subrange(0, j)) == j,
    ensures
        slash_index(t) >= j,
    decreases t.len() - j,
{
    if j < t.len() {
        assert(t.subrange(0, j + 1).drop_last() =~= t.subrange(0, j));
        if t[j] == '/' {
            lemma_slash_prefix(t, j + 1);
        } else {
            lemma_slash_extend(t, j + 1);
        }
    } else {
        assert(t.subrange(0, j) =~= t);
    }
}

/// Once the first `/` is within a prefix, it stays where it is.
proof fn lemma_slash_prefix(t: Seq<char>, j: int)
    requires
        0 <= j <= t.len(),
        slash_index(t.subrange(0, j)) < j,
    ensures
        slash_index(t) == slash_index(t.subrange(0, j)),
    decreases t.len() - j,
{
    if j < t.len() {
        assert(t.subrange(0, j + 1).drop_last() =~= t.subrange(0, j));
        lemma_slash_prefix(t, j + 1);
    } else {
        assert(t.subrange(0, j) =~= t);
    }
}

/// The loop stops at the first `/`, or at the end.
proof fn lemma_slash_stop(t: Seq<char>, i: int)
    requires
        0 <= i <= t.len(),
        slash_index(t.subrange(0, i)) == i,
        i < t.len() ==> t[i] == '/',
    ensures
        slash_index(t) == i,
{
    if i < t.len() {
        assert(t.subrange(0, i + 1).drop_last() =~= t.subrange(0, i));
        lemma_slash_prefix(t, i + 1);
    } else {
        assert(t.subrange(0, i) =~= t);
    }
}

} // verus!
