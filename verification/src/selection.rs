//! The choice of one task among those that are due.
//!
//! The scheduler looks at the tasks once, in their order. The first that is
//! due is the best so far; a later one that is due takes its place if its
//! priority is higher or its overrun is larger. The comparison is made with
//! the best so far only, so a large overrun can win against a higher priority,
//! and which of two tasks wins can depend on their order.

use vstd::prelude::*;
use crate::task::TaskView;
use crate::time::{Instant, TimeError};

verus! {

/// What a task that is due reports to the scheduler.
#[derive(Clone, Copy, Debug, PartialEq, Eq, Structural)]
pub struct Report {
    pub priority: u8,
    pub overrun: u64,
}

impl Report {
    /// Whether a task with this report takes the place of the best one found
    /// before it: it does if its priority is higher, and also if its overrun
    /// alone is larger.
    pub open spec fn outranks_spec(self, best: Report) -> bool {
        self.priority > best.priority || self.overrun > best.overrun
    }

    /// Whether a task with this report takes the place of `best`, found
    /// before it.
    #[verifier::when_used_as_spec(outranks_spec)]
    pub fn outranks(self, best: Report) -> (replaces: bool)
        ensures
            replaces == self.outranks_spec(best),
    {
        self.priority > best.priority || self.overrun > best.overrun
    }
}

/// The report of `task` at `now`, `None` if it is not due.
pub open spec fn report(task: TaskView, now: Instant) -> Option<Report> {
    match task.ready(now) {
        Some(overrun) => Some(Report { priority: task.priority, overrun }),
        None => None,
    }
}

/// The reports of all `tasks` at `now`, in their order.
pub open spec fn reports(tasks: Seq<TaskView>, now: Instant) -> Seq<Option<Report>> {
    Seq::new(tasks.len(), |i: int| report(tasks[i], now))
}

/// The index that one scan over `reports` selects: the first task that is due
/// is the best so far, and each later one that is due and outranks the best
/// so far takes its place. `None` if no task is due.
pub open spec fn select(reports: Seq<Option<Report>>) -> Option<int>
    decreases reports.len(),
{
    if reports.len() == 0 {
        None
    } else {
        let last = reports.len() - 1;
        let best = select(reports.drop_last());
        match (reports[last], best) {
            (None, _) => best,
            (Some(_), None) => Some(last),
            (Some(candidate), Some(b)) => if candidate.outranks(reports[b]->0) {
                Some(last)
            } else {
                Some(b)
            },
        }
    }
}

/// The index of the task that is run at `now`, `None` if none is due.
pub open spec fn winner(tasks: Seq<TaskView>, now: Instant) -> Option<int> {
    select(reports(tasks, now))
}

/// Every task's time since its last run can be measured at `now`.
pub open spec fn all_measurable(tasks: Seq<TaskView>, now: Instant) -> bool {
    forall|i: int| 0 <= i < tasks.len() ==> (#[trigger] tasks[i]).measurable(now)
}

/// The selected index is that of a task that is due.
pub proof fn lemma_select_is_due(reports: Seq<Option<Report>>)
    ensures
        select(reports) matches Some(i) ==> 0 <= i < reports.len() && reports[i] is Some,
    decreases reports.len(),
{
    if reports.len() > 0 {
        lemma_select_is_due(reports.drop_last());
    }
}

/// A task is selected exactly if some task is due.
pub proof fn lemma_select_none_iff_none_due(reports: Seq<Option<Report>>)
    ensures
        select(reports) is None <==> forall|i: int| 0 <= i < reports.len() ==> reports[i] is None,
    decreases reports.len(),
{
    if reports.len() > 0 {
        let front = reports.drop_last();
        lemma_select_none_iff_none_due(front);
        lemma_select_is_due(front);
        assert forall|i: int| 0 <= i < front.len() implies front[i] == reports[i] by {}
        if select(reports) is None {
            assert forall|i: int| 0 <= i < reports.len() implies reports[i] is None by {
                if i < front.len() {
                    assert(front[i] is None);
                }
            }
        }
    }
}

/// No task that is due after the chosen one outranks it, and the chosen one
/// outranks whichever task would have been chosen among those before it.
pub proof fn lemma_winner_stands(reports: Seq<Option<Report>>)
    ensures
        select(reports) matches Some(w) ==> {
            &&& forall|j: int|
                w < j < reports.len() && (#[trigger] reports[j]) is Some ==> !(reports[j]->0
                    .outranks(reports[w]->0))
            &&& select(reports.take(w)) matches Some(b) ==> reports[w]->0.outranks(reports[b]->0)
        },
    decreases reports.len(),
{
    if reports.len() > 0 {
        let last = reports.len() - 1;
        let front = reports.drop_last();
        lemma_winner_stands(front);
        lemma_select_is_due(front);
        if let Some(w) = select(reports) {
            if w == last {
                assert(reports.take(w) =~= front);
            } else {
                assert(select(front) == Some(w));
                assert(reports.take(w) =~= front.take(w));
                lemma_select_is_due(front.take(w));
                assert forall|j: int|
                    w < j < reports.len() && (#[trigger] reports[j]) is Some implies !(reports[j]->0
                        .outranks(reports[w]->0)) by {
                    if j < last {
                        assert(front[j] == reports[j]);
                    }
                }
            }
        }
    }
}

/// The choice depends on the tasks and the instant only through the reports:
/// where two sets of tasks report the same, the same index is chosen.
pub proof fn lemma_winner_is_determined_by_reports(
    a: Seq<TaskView>,
    now_a: Instant,
    b: Seq<TaskView>,
    now_b: Instant,
)
    requires
        a.len() == b.len(),
        forall|i: int| 0 <= i < a.len() ==> report(a[i], now_a) == report(b[i], now_b),
    ensures
        winner(a, now_a) == winner(b, now_b),
{
    assert(reports(a, now_a) =~= reports(b, now_b));
}

/// Where all the tasks that are due report the same priority and the same
/// overrun, the first of them is chosen.
pub proof fn lemma_tie_goes_to_lowest_index(reports: Seq<Option<Report>>, first: int)
    requires
        0 <= first < reports.len(),
        reports[first] is Some,
        forall|j: int| 0 <= j < first ==> reports[j] is None,
        forall|j: int|
            first < j < reports.len() && reports[j] is Some ==> reports[j] == reports[first],
    ensures
        select(reports) == Some(first),
    decreases reports.len(),
{
    let front = reports.drop_last();
    if first == reports.len() - 1 {
        lemma_select_none_iff_none_due(front);
    } else {
        lemma_tie_goes_to_lowest_index(front, first);
    }
}

/// Of two tasks that are both due, the second is chosen exactly if it
/// outranks the first: by a higher priority, or by a larger overrun whatever
/// the priorities.
pub proof fn lemma_choice_of_two(first: Report, second: Report)
    ensures
        select(seq![Some(first), Some(second)]) == Some(
            if second.outranks(first) {
                1int
            } else {
                0int
            },
        ),
        second.overrun > first.overrun ==> select(seq![Some(first), Some(second)]) == Some(1int),
{
    let both = seq![Some(first), Some(second)];
    let front = both.drop_last();
    assert(front.drop_last().len() == 0);
    assert(select(front.drop_last()) is None);
    assert(front[0] == Some(first));
    assert(select(front) == Some(0int));
}

/// A task that is due and has a larger overrun than the best of those before
/// it takes its place, even at a lower priority.
pub proof fn lemma_larger_overrun_wins(reports: Seq<Option<Report>>)
    requires
        reports.len() > 0,
        reports.last() is Some,
        select(reports.drop_last()) matches Some(best) && reports.last()->0.overrun
            > reports[best]->0.overrun,
    ensures
        select(reports) == Some(reports.len() - 1),
{
}

/// Why the time since the last run of `task` cannot be measured at `now`,
/// `None` if it can.
pub open spec fn fault_of(task: TaskView, now: Instant) -> Option<TimeError> {
    match task.last_run {
        None => None,
        Some(last) => match now.millis_since(last) {
            Ok(_) => None,
            Err(error) => Some(error),
        },
    }
}

/// The fault of the first of `tasks` that has one at `now`, `None` if all can
/// be measured.
pub open spec fn first_fault(tasks: Seq<TaskView>, now: Instant) -> Option<TimeError>
    decreases tasks.len(),
{
    if tasks.len() == 0 {
        None
    } else {
        match first_fault(tasks.drop_last(), now) {
            Some(error) => Some(error),
            None => fault_of(tasks.last(), now),
        }
    }
}

/// There is no fault exactly if every task can be measured.
pub proof fn lemma_no_fault_iff_all_measurable(tasks: Seq<TaskView>, now: Instant)
    ensures
        first_fault(tasks, now) is None <==> all_measurable(tasks, now),
    decreases tasks.len(),
{
    if tasks.len() > 0 {
        let front = tasks.drop_last();
        lemma_no_fault_iff_all_measurable(front, now);
        assert forall|i: int| 0 <= i < front.len() implies front[i] == tasks[i] by {}
        if all_measurable(tasks, now) {
            assert(tasks.last() == tasks[tasks.len() - 1]);
            assert(tasks[tasks.len() - 1].measurable(now));
            assert forall|i: int| 0 <= i < front.len() implies (#[trigger] front[i]).measurable(
                now,
            ) by {
                assert(tasks[i].measurable(now));
            }
        }
        if first_fault(tasks, now) is None {
            assert forall|i: int| 0 <= i < tasks.len() implies (#[trigger] tasks[i]).measurable(
                now,
            ) by {
                if i < front.len() {
                    assert(front[i].measurable(now));
                }
            }
        }
    }
}

/// A fault among the first `n` tasks is the fault of them all.
pub proof fn lemma_first_fault_of_prefix(tasks: Seq<TaskView>, now: Instant, n: int)
    requires
        0 <= n <= tasks.len(),
        first_fault(tasks.take(n), now) is Some,
    ensures
        first_fault(tasks, now) == first_fault(tasks.take(n), now),
    decreases tasks.len() - n,
{
    if n < tasks.len() {
        assert(tasks.take(n + 1).drop_last() =~= tasks.take(n));
        lemma_first_fault_of_prefix(tasks, now, n + 1);
    } else {
        assert(tasks.take(n) =~= tasks);
    }
}

} // verus!
