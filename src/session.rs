use vstd::prelude::*;

use crate::navigation::{
    count_of, lemma_visited_concat, plan_spec, tally, visited_cells, Job, RunSummary,
};
use crate::rule::ActuatorResult;

verus! {

/// One thing a scan does: visit a cell, or move the list.
#[derive(Clone, Copy, Debug, PartialEq, Eq, Structural)]
pub enum Step {
    Visit { col: u32, row: u32 },
    Move(u32),
}

/// The visits of one row, left to right.
pub open spec fn row_steps(row: u32, n: int) -> Seq<Step>
    decreases n,
{
    if n <= 0 {
        Seq::empty()
    } else {
        row_steps(row, n - 1).push(Step::Visit { col: (n - 1) as u32, row })
    }
}

/// The visits of the first `r` rows of a forward scan.
pub open spec fn scan_steps(start: u32, rows: u32, cols: u32, last: u32, r: int) -> Seq<Step>
    decreases r,
{
    if r <= 0 {
        Seq::empty()
    } else {
        scan_steps(start, rows, cols, last, r - 1) + row_steps(
            (start + r - 1) as u32,
            if r == rows {
                last as int
            } else {
                cols as int
            },
        )
    }
}

pub open spec fn job_steps(j: Job, cols: u32) -> Seq<Step> {
    match j {
        Job::ScanForward { start_row, rows, last_row_cols } => scan_steps(
            start_row,
            rows,
            cols,
            last_row_cols,
            rows as int,
        ),
        Job::MoveRows(k) => seq![Step::Move(k)],
    }
}

/// Every step of a plan, in order.
pub open spec fn plan_steps(jobs: Seq<Job>, cols: u32) -> Seq<Step>
    decreases jobs.len(),
{
    if jobs.len() == 0 {
        Seq::empty()
    } else {
        plan_steps(jobs.drop_last(), cols) + job_steps(jobs.last(), cols)
    }
}

/// How many of `steps` are visits.
pub open spec fn visit_count(steps: Seq<Step>) -> int
    decreases steps.len(),
{
    if steps.len() == 0 {
        0
    } else {
        visit_count(steps.drop_last()) + if steps.last() is Visit {
            1int
        } else {
            0int
        }
    }
}

proof fn lemma_visit_count_concat(a: Seq<Step>, b: Seq<Step>)
    ensures
        visit_count(a + b) == visit_count(a) + visit_count(b),
    decreases b.len(),
{
    if b.len() == 0 {
        assert(a + b =~= a);
    } else {
        assert((a + b).drop_last() =~= a + b.drop_last());
        lemma_visit_count_concat(a, b.drop_last());
    }
}

proof fn lemma_row_visits(row: u32, n: int)
    requires
        n >= 0,
    ensures
        visit_count(row_steps(row, n)) == n,
    decreases n,
{
    if n > 0 {
        lemma_row_visits(row, n - 1);
        assert(row_steps(row, n).drop_last() =~= row_steps(row, n - 1));
    }
}

proof fn lemma_scan_visits(start: u32, rows: u32, cols: u32, last: u32, r: int)
    requires
        0 <= r <= rows,
    ensures
        r < rows ==> visit_count(scan_steps(start, rows, cols, last, r)) == r * cols,
        r == rows && rows > 0 ==> visit_count(scan_steps(start, rows, cols, last, r)) == (rows
            - 1) * cols + last,
    decreases r,
{
    if r > 0 {
        lemma_scan_visits(start, rows, cols, last, r - 1);
        let n = if r == rows {
            last as int
        } else {
            cols as int
        };
        lemma_visit_count_concat(
            scan_steps(start, rows, cols, last, r - 1),
            row_steps((start + r - 1) as u32, n),
        );
        lemma_row_visits((start + r - 1) as u32, n);
        assert(scan_steps(start, rows, cols, last, r) == scan_steps(start, rows, cols, last, r - 1)
            + row_steps((start + r - 1) as u32, n));
        assert((r - 1) * cols + cols == r * cols) by (nonlinear_arith);
    } else {
        assert(scan_steps(start, rows, cols, last, r) =~= Seq::<Step>::empty());
        assert(visit_count(Seq::<Step>::empty()) == 0);
    }
}

/// The visits of a plan are the cells its scan jobs cover.
proof fn lemma_plan_visits(jobs: Seq<Job>, cols: u32)
    ensures
        visit_count(plan_steps(jobs, cols)) == visited_cells(jobs, cols as int),
    decreases jobs.len(),
{
    if jobs.len() > 0 {
        let j = jobs.last();
        let a = plan_steps(jobs.drop_last(), cols);
        let b = job_steps(j, cols);
        lemma_plan_visits(jobs.drop_last(), cols);
        assert(plan_steps(jobs, cols) == a + b);
        lemma_visit_count_concat(a, b);
        assert(jobs =~= jobs.drop_last() + seq![j]);
        lemma_visited_concat(jobs.drop_last(), seq![j], cols as int);
        assert(visited_cells(jobs, cols as int) == visited_cells(jobs.drop_last(), cols as int)
            + visited_cells(seq![j], cols as int));
        lemma_job_visits(j, cols);
    } else {
        assert(visit_count(Seq::<Step>::empty()) == 0);
    }
}

proof fn lemma_job_visits(j: Job, cols: u32)
    ensures
        visit_count(job_steps(j, cols)) == visited_cells(seq![j], cols as int),
{
    assert(seq![j].drop_first() =~= Seq::<Job>::empty());
    assert(visited_cells(Seq::<Job>::empty(), cols as int) == 0);
    assert(seq![j][0] == j);
    match j {
        Job::ScanForward { start_row, rows, last_row_cols } => {
            lemma_scan_visits(start_row, rows, cols, last_row_cols, rows as int);
            if rows == 0 {
                assert(scan_steps(start_row, rows, cols, last_row_cols, 0) =~= Seq::<Step>::empty());
                assert(visit_count(Seq::<Step>::empty()) == 0);
            }
        },
        Job::MoveRows(k) => {
            assert(seq![Step::Move(k)].drop_last() =~= Seq::<Step>::empty());
            assert(visit_count(Seq::<Step>::empty()) == 0);
        },
    }
}

/// A session over the plan for `total` items asks for exactly `total`
/// visits, so a scan that runs to its end visits every item once.
pub proof fn lemma_session_visits_every_item(total: int, rows: int, cols: int)
    requires
        0 <= total <= u32::MAX,
        1 <= rows <= u32::MAX,
        1 <= cols <= u32::MAX,
    ensures
        visit_count(plan_steps(plan_spec(total, rows, cols), cols as u32)) == total,
{
    crate::navigation::lemma_plan_visits_every_item(total, rows, cols);
    lemma_plan_visits(plan_spec(total, rows, cols), cols as u32);
}

/// What happened at the step the scan last asked for.
#[derive(Clone, Copy, Debug, PartialEq, Eq, Structural)]
pub enum ScanEvent {
    /// The user asked to stop.
    Cancelled,
    /// The visited cell shows no card.
    NoCard,
    /// The list could not be moved.
    MoveFailed,
    /// An item was recognised and acted on.
    Item(ActuatorResult),
    /// The cell held no item, or recognition failed; the scan goes on.
    Skipped,
    /// The list was moved.
    Moved,
}

/// Why a scan was aborted.
#[derive(Clone, Copy, Debug, PartialEq, Eq, Structural)]
pub enum ScanFailure {
    NoCard,
    MoveFailed,
}

/// What the scan asks for next.
#[derive(Clone, Copy, Debug, PartialEq, Eq, Structural)]
pub enum ScanAction {
    Visit { col: u32, row: u32 },
    Move(u32),
    /// The scan is over, completed or cancelled; its summary.
    Finish(RunSummary),
    Abort(ScanFailure),
}

/// A scan run over a plan: the steps, how far it got, and the outcomes.
pub struct ScanSession {
    pub steps: Vec<Step>,
    pub next_index: usize,
    pub results: Vec<ActuatorResult>,
    pub done: bool,
    /// The plan rests on an estimated item count, so a cell without a card
    /// marks the end of the list rather than a failure.
    pub estimated: bool,
}

/// The plan's bound on rows holds for every scan job of `jobs`.
pub open spec fn rows_fit(jobs: Seq<Job>) -> bool {
    forall|i: int|
        0 <= i < jobs.len() ==> (#[trigger] jobs[i] matches Job::ScanForward {
            start_row,
            rows,
            last_row_cols,
        } ==> start_row + rows <= u32::MAX)
}

fn push_jobs(out: &mut Vec<Step>, jobs: &Vec<Job>, cols: u32)
    requires
        rows_fit(jobs@),
    ensures
        final(out)@ == old(out)@ + plan_steps(jobs@, cols),
{
    let ghost start = out@;
    let mut i: usize = 0;
    while i < jobs.len()
        invariant
            i <= jobs@.len(),
            rows_fit(jobs@),
            out@ == start + plan_steps(jobs@.subrange(0, i as int), cols),
        decreases jobs@.len() - i,
    {
        let job = jobs[i];
        let ghost before = out@;
        push_job(out, job, cols);
        assert(jobs@.subrange(0, i + 1).drop_last() =~= jobs@.subrange(0, i as int));
        assert(out@ =~= start + plan_steps(jobs@.subrange(0, i + 1), cols));
        i = i + 1;
    }
    assert(jobs@.subrange(0, i as int) =~= jobs@);
}

pub open spec fn as_action(s: Step) -> ScanAction {
    match s {
        Step::Visit { col, row } => ScanAction::Visit { col, row },
        Step::Move(k) => ScanAction::Move(k),
    }
}

pub open spec fn summary_of(results: Seq<ActuatorResult>) -> RunSummary {
    RunSummary {
        lock_and_mark: count_of(results, ActuatorResult::LockAndMark) as usize,
        only_lock: count_of(results, ActuatorResult::OnlyLock) as usize,
        unlock_and_unmark: count_of(results, ActuatorResult::UnlockAndUnmark) as usize,
    }
}

fn push_row(out: &mut Vec<Step>, row: u32, n: u32)
    ensures
        final(out)@ == old(out)@ + row_steps(row, n as int),
{
    let ghost start = out@;
    let mut c: u32 = 0;
    while c < n
        invariant
            c <= n,
            out@ == start + row_steps(row, c as int),
        decreases n - c,
    {
        out.push(Step::Visit { col: c, row });
        assert(out@ =~= start + row_steps(row, c + 1));
        c = c + 1;
    }
}

fn push_job(out: &mut Vec<Step>, job: Job, cols: u32)
    requires
        job matches Job::ScanForward { start_row, rows, last_row_cols } ==> start_row + rows
            <= u32::MAX,
    ensures
        final(out)@ == old(out)@ + job_steps(job, cols),
{
    match job {
        Job::ScanForward { start_row, rows, last_row_cols } => {
            let ghost start = out@;
            let mut r: u32 = 0;
            while r < rows
                invariant
                    r <= rows,
                    start_row + rows <= u32::MAX,
                    out@ == start + scan_steps(start_row, rows, cols, last_row_cols, r as int),
                decreases rows - r,
            {
                let n = if r + 1 == rows {
                    last_row_cols
                } else {
                    cols
                };
                let ghost before = out@;
                push_row(out, start_row + r, n);
                assert(out@ =~= start + scan_steps(
                    start_row,
                    rows,
                    cols,
                    last_row_cols,
                    r + 1,
                ));
                r = r + 1;
            }
        },
        Job::MoveRows(k) => {
            out.push(Step::Move(k));
        },
    }
}

impl ScanSession {
    pub open spec fn wf(&self) -> bool {
        self.next_index <= self.steps@.len()
    }

    /// A session over the steps of `jobs`, none taken yet; `estimated`
    /// when the plan rests on an estimated item count.
    pub fn new(jobs: &Vec<Job>, cols: u32, estimated: bool) -> (r: ScanSession)
        requires
            rows_fit(jobs@),
        ensures
            r.steps@ == plan_steps(jobs@, cols),
            r.next_index == 0,
            r.results@.len() == 0,
            !r.done,
            r.estimated == estimated,
            r.wf(),
    {
        let mut steps: Vec<Step> = Vec::new();
        push_jobs(&mut steps, jobs, cols);
        assert(steps@ =~= plan_steps(jobs@, cols));
        ScanSession { steps, next_index: 0, results: Vec::new(), done: false, estimated }
    }

    /// After every step was taken, goes on with the steps of `jobs`, keeping
    /// the outcomes so far; gives the first new step, or the summary when
    /// there is none.
    pub fn continue_with(&mut self, jobs: &Vec<Job>, cols: u32) -> (r: ScanAction)
        requires
            old(self).wf(),
            old(self).next_index == old(self).steps@.len(),
            rows_fit(jobs@),
        ensures
            final(self).wf(),
            final(self).steps@ == old(self).steps@ + plan_steps(jobs@, cols),
            final(self).results == old(self).results,
            final(self).estimated == old(self).estimated,
            plan_steps(jobs@, cols).len() > 0 ==> r == as_action(plan_steps(jobs@, cols)[0])
                && final(self).next_index == old(self).next_index + 1 && !final(self).done,
            plan_steps(jobs@, cols).len() == 0 ==> r == ScanAction::Finish(
                summary_of(old(self).results@),
            ) && final(self).done,
    {
        push_jobs(&mut self.steps, jobs, cols);
        self.done = false;
        self.advance()
    }

    /// The next step, or the summary once every step was taken.
    fn advance(&mut self) -> (r: ScanAction)
        requires
            old(self).wf(),
            !old(self).done,
        ensures
            final(self).steps == old(self).steps,
            final(self).results == old(self).results,
            final(self).estimated == old(self).estimated,
            final(self).wf(),
            old(self).next_index < old(self).steps@.len() ==> r == as_action(
                old(self).steps@[old(self).next_index as int],
            ) && final(self).next_index == old(self).next_index + 1 && !final(self).done,
            old(self).next_index == old(self).steps@.len() ==> r == ScanAction::Finish(
                summary_of(old(self).results@),
            ) && final(self).done && final(self).next_index == old(self).next_index,
    {
        if self.next_index < self.steps.len() {
            let s = self.steps[self.next_index];
            self.next_index = self.next_index + 1;
            match s {
                Step::Visit { col, row } => ScanAction::Visit { col, row },
                Step::Move(k) => ScanAction::Move(k),
            }
        } else {
            self.done = true;
            ScanAction::Finish(tally(&self.results))
        }
    }

    /// The first step.
    pub fn start(&mut self) -> (r: ScanAction)
        requires
            old(self).wf(),
            !old(self).done,
        ensures
            final(self).wf(),
            final(self).steps == old(self).steps,
            final(self).results == old(self).results,
            old(self).next_index < old(self).steps@.len() ==> r == as_action(
                old(self).steps@[old(self).next_index as int],
            ),
            old(self).next_index == old(self).steps@.len() ==> r == ScanAction::Finish(
                summary_of(old(self).results@),
            ),
    {
        self.advance()
    }

    /// Takes what happened at the last step and gives the next action. A
    /// cancellation ends the scan with the summary so far; a failed move
    /// aborts it, and so does a missing card unless the count was estimated,
    /// where it marks the end of the list; otherwise the outcome is recorded and the
    /// next step follows.
    pub fn next(&mut self, event: ScanEvent) -> (r: ScanAction)
        requires
            old(self).wf(),
            !old(self).done,
        ensures
            final(self).wf(),
            final(self).steps == old(self).steps,
            event == ScanEvent::Cancelled ==> r == ScanAction::Finish(summary_of(old(self).results@))
                && final(self).done,
            event == ScanEvent::NoCard && !old(self).estimated ==> r == ScanAction::Abort(
                ScanFailure::NoCard,
            ) && final(self).done,
            event == ScanEvent::NoCard && old(self).estimated ==> r == ScanAction::Finish(
                summary_of(old(self).results@),
            ) && final(self).done,
            event == ScanEvent::MoveFailed ==> r == ScanAction::Abort(ScanFailure::MoveFailed)
                && final(self).done,
            event is Item ==> final(self).results@ == old(self).results@.push(event->Item_0),
            event is Skipped || event is Moved ==> final(self).results@ == old(self).results@,
            event is Item || event is Skipped || event is Moved ==> {
                &&& old(self).next_index < old(self).steps@.len() ==> r == as_action(
                    old(self).steps@[old(self).next_index as int],
                ) && final(self).next_index == old(self).next_index + 1
                &&& old(self).next_index == old(self).steps@.len() ==> r == ScanAction::Finish(
                    summary_of(final(self).results@),
                ) && final(self).done
            },
    {
        match event {
            ScanEvent::Cancelled => {
                self.done = true;
                ScanAction::Finish(tally(&self.results))
            },
            ScanEvent::NoCard => {
                self.done = true;
                if self.estimated {
                    ScanAction::Finish(tally(&self.results))
                } else {
                    ScanAction::Abort(ScanFailure::NoCard)
                }
            },
            ScanEvent::MoveFailed => {
                self.done = true;
                ScanAction::Abort(ScanFailure::MoveFailed)
            },
            ScanEvent::Item(x) => {
                self.results.push(x);
                self.advance()
            },
            ScanEvent::Skipped | ScanEvent::Moved => self.advance(),
        }
    }
}

} // verus!
