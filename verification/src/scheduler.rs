//! The scheduler: a fixed set of tasks, the clock that times them, and the
//! turns in which one task at a time is chosen and run.

use vstd::prelude::*;
use crate::selection::{
    all_measurable, first_fault, lemma_first_fault_of_prefix, lemma_no_fault_iff_all_measurable,
    lemma_select_is_due, reports, select, winner, Report,
};
use crate::task::{Task, TaskView};
use crate::time::{Clock, ClockError, Instant, TimeError};

verus! {

/// `after` is what a run of the scheduler can make of `before`: the same
/// tasks with their priorities and periods, none of which has a last run
/// earlier than it had.
pub open spec fn advanced(before: Seq<TaskView>, after: Seq<TaskView>) -> bool {
    &&& after.len() == before.len()
    &&& forall|i: int|
        0 <= i < before.len() ==> {
            &&& (#[trigger] after[i]).priority == before[i].priority
            &&& after[i].period == before[i].period
            &&& before[i].last_run matches Some(earlier) ==> {
                &&& after[i].last_run matches Some(later)
                &&& later.scaling_factor == earlier.scaling_factor
                &&& earlier.ticks <= later.ticks
            }
        }
}

/// A run after a run is a run.
pub proof fn lemma_advanced_transitive(a: Seq<TaskView>, b: Seq<TaskView>, c: Seq<TaskView>)
    requires
        advanced(a, b),
        advanced(b, c),
    ensures
        advanced(a, c),
{
    assert forall|i: int| 0 <= i < a.len() implies {
        &&& (#[trigger] c[i]).priority == a[i].priority
        &&& c[i].period == a[i].period
        &&& a[i].last_run matches Some(earlier) ==> {
            &&& c[i].last_run matches Some(later)
            &&& later.scaling_factor == earlier.scaling_factor
            &&& earlier.ticks <= later.ticks
        }
    } by {
        assert(b[i].priority == a[i].priority);
    }
}

/// The tasks after one turn of the scheduler at the reading `now`: the task
/// chosen at `now` has `now` as its last run, and nothing else has changed.
/// Where no task is due, or the time since some task's last run cannot be
/// measured, nothing has changed at all.
pub open spec fn turn(tasks: Seq<TaskView>, now: Instant) -> Seq<TaskView> {
    if all_measurable(tasks, now) {
        match winner(tasks, now) {
            Some(i) => tasks.update(i, tasks[i].ran_at(now)),
            None => tasks,
        }
    } else {
        tasks
    }
}

/// The tasks after one turn at each of `readings`, in their order.
pub open spec fn after_turns(tasks: Seq<TaskView>, readings: Seq<Instant>) -> Seq<TaskView>
    decreases readings.len(),
{
    if readings.len() == 0 {
        tasks
    } else {
        turn(after_turns(tasks, readings.drop_last()), readings.last())
    }
}

/// At each of `readings`, the time since every task's last run could be
/// measured when its turn came.
pub open spec fn all_turns_measurable(tasks: Seq<TaskView>, readings: Seq<Instant>) -> bool {
    forall|k: int|
        0 <= k < readings.len() ==> all_measurable(
            after_turns(tasks, readings.take(k)),
            #[trigger] readings[k],
        )
}

/// A turn leaves the tasks, their priorities and their periods as they are,
/// and moves no last run back.
pub proof fn lemma_turn_advances(tasks: Seq<TaskView>, now: Instant)
    ensures
        advanced(tasks, turn(tasks, now)),
{
    if all_measurable(tasks, now) {
        if let Some(i) = winner(tasks, now) {
            lemma_select_is_due(reports(tasks, now));
            assert(tasks[i].measurable(now));
        }
    }
}

/// One more reading adds one more turn.
pub proof fn lemma_one_more_turn(tasks: Seq<TaskView>, readings: Seq<Instant>, now: Instant)
    ensures
        after_turns(tasks, readings.push(now)) == turn(after_turns(tasks, readings), now),
        all_turns_measurable(tasks, readings) && all_measurable(after_turns(tasks, readings), now)
            ==> all_turns_measurable(tasks, readings.push(now)),
{
    let longer = readings.push(now);
    assert(longer.drop_last() =~= readings);
    if all_turns_measurable(tasks, readings) && all_measurable(after_turns(tasks, readings), now) {
        assert forall|k: int| 0 <= k < longer.len() implies all_measurable(
            after_turns(tasks, longer.take(k)),
            #[trigger] longer[k],
        ) by {
            if k < readings.len() {
                assert(longer.take(k) =~= readings.take(k));
                assert(longer[k] == readings[k]);
            } else {
                assert(longer.take(k) =~= readings);
            }
        }
    }
}

/// Why the scheduler stopped.
#[derive(Debug, PartialEq, Eq)]
pub enum Halt<E> {
    /// The clock gave no reading.
    Clock(ClockError),
    /// The time since some task's last run could not be measured at the
    /// clock's reading.
    Time(TimeError),
    /// The callback of the task that was run failed.
    Task(E),
}

/// Each of `readings` is a reading that `clock` can give.
pub open spec fn read_from<C: Clock>(clock: C, readings: Seq<Instant>) -> bool {
    forall|k: int|
        0 <= k < readings.len() ==> call_ensures(
            C::try_now,
            (&clock,),
            Ok::<Instant, ClockError>(#[trigger] readings[k]),
        )
}

/// A run of at most `turns` turns that took its turns at `readings` ends as
/// `halt` says: unhalted after `turns` readings; halted by the clock, which
/// then gave one reading less than it was asked for; or halted at the last of
/// the readings, by a fault of the measurement or by the task that was run
/// there.
pub open spec fn ends_as<E>(
    tasks: Seq<TaskView>,
    readings: Seq<Instant>,
    turns: u64,
    halt: Option<Halt<E>>,
) -> bool {
    match halt {
        None => readings.len() == turns && all_turns_measurable(tasks, readings),
        Some(Halt::Clock(_)) => readings.len() < turns && all_turns_measurable(tasks, readings),
        Some(Halt::Time(error)) => {
            &&& 0 < readings.len() <= turns
            &&& all_turns_measurable(tasks, readings.drop_last())
            &&& first_fault(after_turns(tasks, readings.drop_last()), readings.last()) == Some(
                error,
            )
        },
        Some(Halt::Task(_)) => {
            &&& 0 < readings.len() <= turns
            &&& all_turns_measurable(tasks, readings)
            &&& dispatched_at(tasks, readings, readings.len() - 1) is Some
        },
    }
}

/// The index of the task that the turn at `readings[k]` runs, after the turns
/// at the readings before it; `None` where no task is due there or the time
/// since some task's last run cannot be measured.
#[verifier::opaque]
pub open spec fn dispatched_at(tasks: Seq<TaskView>, readings: Seq<Instant>, k: int) -> Option<
    int,
> {
    let before = after_turns(tasks, readings.take(k));
    if all_measurable(before, readings[k]) {
        winner(before, readings[k])
    } else {
        None
    }
}

/// The task that a turn runs is one of the tasks.
pub proof fn lemma_dispatched_is_a_task(tasks: Seq<TaskView>, readings: Seq<Instant>, k: int)
    requires
        0 <= k < readings.len(),
    ensures
        dispatched_at(tasks, readings, k) matches Some(i) ==> 0 <= i < tasks.len(),
{
    reveal(dispatched_at);
    lemma_after_turns_keeps_count(tasks, readings.take(k));
    lemma_select_is_due(reports(after_turns(tasks, readings.take(k)), readings[k]));
}

/// Turns neither add nor remove tasks.
pub proof fn lemma_after_turns_keeps_count(tasks: Seq<TaskView>, readings: Seq<Instant>)
    ensures
        after_turns(tasks, readings).len() == tasks.len(),
    decreases readings.len(),
{
    if readings.len() > 0 {
        lemma_after_turns_keeps_count(tasks, readings.drop_last());
        lemma_turn_advances(after_turns(tasks, readings.drop_last()), readings.last());
    }
}

/// A further reading leaves the turns before it as they were, and its own
/// turn runs the task chosen after them.
pub proof fn lemma_dispatched_at_one_more(
    tasks: Seq<TaskView>,
    readings: Seq<Instant>,
    now: Instant,
)
    ensures
        forall|k: int|
            0 <= k < readings.len() ==> #[trigger] dispatched_at(tasks, readings.push(now), k)
                == dispatched_at(tasks, readings, k),
        dispatched_at(tasks, readings.push(now), readings.len() as int) == if all_measurable(
            after_turns(tasks, readings),
            now,
        ) {
            winner(after_turns(tasks, readings), now)
        } else {
            None
        },
{
    reveal(dispatched_at);
    let longer = readings.push(now);
    assert(longer.take(readings.len() as int) =~= readings);
    assert forall|k: int| 0 <= k < readings.len() implies #[trigger] dispatched_at(
        tasks,
        longer,
        k,
    ) == dispatched_at(tasks, readings, k) by {
        assert(longer.take(k) =~= readings.take(k));
    }
}

/// `result` is what the callback run in turn `k` of `taken` turns returned in
/// a run that ended as `halt` says: the error in `halt` if a callback halted
/// the run and the turn is the last, and success in every other turn.
pub open spec fn result_fits<E>(
    result: Result<(), E>,
    k: int,
    taken: int,
    halt: Option<Halt<E>>,
) -> bool {
    if k == taken - 1 && halt is Some && halt->0 is Task {
        result == Err::<(), E>(halt->0->Task_0)
    } else {
        result is Ok
    }
}

/// A fixed set of tasks and the clock that times them.
#[verifier::reject_recursive_types(T)]
#[verifier::reject_recursive_types(E)]
pub struct Scheduler<const N: usize, T, E, F: Fn(&mut T) -> Result<(), E>, C: Clock> {
    tasks: [Task<T, E, F>; N],
    clock: C,
}

impl<const N: usize, T, E, F: Fn(&mut T) -> Result<(), E>, C: Clock> Scheduler<N, T, E, F, C> {
    /// The callbacks of the tasks, in their order.
    pub closed spec fn callbacks(&self) -> Seq<F> {
        Seq::new(N as nat, |i: int| self.tasks[i].callback())
    }

    /// What scheduling reads of the tasks, in their order.
    pub closed spec fn view(&self) -> Seq<TaskView> {
        Seq::new(N as nat, |i: int| self.tasks[i]@)
    }

    /// The clock.
    pub closed spec fn clock(&self) -> C {
        self.clock
    }

    /// There are as many tasks as the type says.
    pub proof fn lemma_task_count(&self)
        ensures
            self@.len() == N,
            self.callbacks().len() == N,
    {
    }

    /// A scheduler of `tasks`, timed by `clock`.
    pub fn new(tasks: [Task<T, E, F>; N], clock: C) -> (scheduler: Self)
        ensures
            scheduler@.len() == N,
            forall|i: int| 0 <= i < N ==> scheduler@[i] == tasks[i]@,
            forall|i: int| 0 <= i < N ==> scheduler.callbacks()[i] == tasks[i].callback(),
            scheduler.callbacks().len() == N,
            scheduler.clock() == clock,
    {
        Scheduler { tasks, clock }
    }

    /// The tasks, in their order.
    pub fn tasks(&self) -> (tasks: &[Task<T, E, F>; N])
        ensures
            forall|i: int| 0 <= i < N ==> (#[trigger] tasks[i])@ == self@[i],
            forall|i: int| 0 <= i < N ==> (#[trigger] tasks[i]).callback() == self.callbacks()[i],
    {
        &self.tasks
    }

    /// The index of the task to run at `now`: one scan over the tasks, in
    /// which the first that is due is the best so far, and a later one that
    /// is due takes its place if its priority or its overrun is larger.
    /// `None` if no task is due. Nothing is changed.
    pub fn next_index(&self, now: Instant) -> (index: Option<usize>)
        requires
            all_measurable(self@, now),
        ensures
            index is None <==> winner(self@, now) is None,
            index matches Some(i) ==> i < N && winner(self@, now) == Some(i as int),
    {
        let mut best: Option<(usize, Report)> = None;
        let mut i: usize = 0;
        while i < N
            invariant
                i <= N,
                self@.len() == N,
                all_measurable(self@, now),
                best is None <==> select(reports(self@, now).take(i as int)) is None,
                best matches Some(b) ==> b.0 < i && select(reports(self@, now).take(i as int))
                    == Some(b.0 as int) && reports(self@, now)[b.0 as int] == Some(b.1),
            decreases N - i,
        {
            proof {
                let all = reports(self@, now);
                assert(all.take(i + 1).drop_last() =~= all.take(i as int));
                assert(self@[i as int].measurable(now));
            }
            if let Some(overrun) = self.tasks[i].ready(now) {
                let candidate = Report { priority: self.tasks[i].priority(), overrun };
                match best {
                    Some((_, report)) => {
                        if candidate.outranks(report) {
                            best = Some((i, candidate));
                        }
                    },
                    None => {
                        best = Some((i, candidate));
                    },
                }
            }
            i = i + 1;
        }
        proof {
            let all = reports(self@, now);
            assert(all.take(N as int) =~= all);
        }
        match best {
            Some((index, _)) => Some(index),
            None => None,
        }
    }

    /// The task to run at `now`, chosen as [`Scheduler::next_index`] chooses
    /// it; `None` if no task is due. The choice changes nothing: what becomes
    /// of the task is up to the caller.
    pub fn next_task(&mut self, now: Instant) -> (next: Option<&mut Task<T, E, F>>)
        requires
            all_measurable(old(self)@, now),
        ensures
            next is None <==> winner(old(self)@, now) is None,
            next is None ==> final(self)@ == old(self)@ && final(self).callbacks() == old(
                self,
            ).callbacks(),
            next matches Some(task) ==> {
                let i = winner(old(self)@, now)->0;
                &&& 0 <= i < N
                &&& task@ == old(self)@[i]
                &&& task.callback() == old(self).callbacks()[i]
                &&& final(self)@ == old(self)@.update(i, final(task)@)
                &&& final(self).callbacks() == old(self).callbacks().update(
                    i,
                    final(task).callback(),
                )
            },
            final(self).clock() == old(self).clock(),
    {
        match self.next_index(now) {
            Some(i) => {
                Some(&mut self.tasks[i])
            },
            None => None,
        }
    }

    /// Whether the time since its last run can be measured at `now` for every
    /// task; if not, the fault of the first task that has one.
    pub fn check(&self, now: Instant) -> (outcome: Result<(), TimeError>)
        ensures
            outcome is Ok <==> all_measurable(self@, now),
            outcome matches Err(error) ==> first_fault(self@, now) == Some(error),
    {
        let mut i: usize = 0;
        while i < N
            invariant
                i <= N,
                self@.len() == N,
                first_fault(self@.take(i as int), now) is None,
            decreases N - i,
        {
            proof {
                assert(self@.take(i + 1).drop_last() =~= self@.take(i as int));
                assert(self@.take(i + 1).last() == self@[i as int]);
            }
            match self.tasks[i].try_ready(now) {
                Ok(_) => {},
                Err(error) => {
                    proof {
                        lemma_first_fault_of_prefix(self@, now, i + 1);
                        lemma_no_fault_iff_all_measurable(self@, now);
                    }
                    return Err(error);
                },
            }
            i = i + 1;
        }
        proof {
            assert(self@.take(N as int) =~= self@);
            lemma_no_fault_iff_all_measurable(self@, now);
        }
        Ok(())
    }

    /// As [`Scheduler::next_task`], for any `now`: where the time since some
    /// task's last run cannot be measured, the first such fault is returned
    /// and no task is chosen.
    pub fn try_next_task(&mut self, now: Instant) -> (outcome: Result<
        Option<&mut Task<T, E, F>>,
        TimeError,
    >)
        ensures
            outcome is Ok <==> all_measurable(old(self)@, now),
            outcome matches Err(error) ==> first_fault(old(self)@, now) == Some(error),
            outcome is Err ==> final(self)@ == old(self)@ && final(self).callbacks() == old(
                self,
            ).callbacks(),
            outcome matches Ok(None) ==> {
                &&& winner(old(self)@, now) is None
                &&& final(self)@ == old(self)@
                &&& final(self).callbacks() == old(self).callbacks()
            },
            outcome matches Ok(Some(task)) ==> {
                let i = winner(old(self)@, now)->0;
                &&& winner(old(self)@, now) is Some
                &&& 0 <= i < N
                &&& task@ == old(self)@[i]
                &&& task.callback() == old(self).callbacks()[i]
                &&& final(self)@ == old(self)@.update(i, final(task)@)
                &&& final(self).callbacks() == old(self).callbacks().update(
                    i,
                    final(task).callback(),
                )
            },
            final(self).clock() == old(self).clock(),
    {
        match self.check(now) {
            Ok(()) => Ok(self.next_task(now)),
            Err(error) => Err(error),
        }
    }

    /// One turn of the scheduler at the clock reading `now`: chooses the task
    /// to run and runs it on `state`, recording `now` as its last run.
    ///
    /// `Ok(true)` if a task ran and its callback succeeded, `Ok(false)` if no
    /// task was due. If the callback failed, its error is returned. If the
    /// time since some task's last run cannot be measured at `now`, that
    /// fault is returned and nothing has run.
    pub fn tick(&mut self, now: Instant, state: &mut T) -> (outcome: Result<bool, Halt<E>>)
        ensures
            final(self).clock() == old(self).clock(),
            final(self).callbacks() == old(self).callbacks(),
            final(self)@ == turn(old(self)@, now),
            !(outcome matches Err(Halt::Clock(_))),
            outcome matches Err(Halt::Time(_)) <==> !all_measurable(old(self)@, now),
            outcome matches Err(Halt::Time(error)) ==> first_fault(old(self)@, now) == Some(error),
            outcome matches Ok(false) <==> all_measurable(old(self)@, now) && winner(
                old(self)@,
                now,
            ) is None,
            outcome matches Err(Halt::Time(_)) ==> *final(state) == *old(state),
            outcome matches Ok(false) ==> *final(state) == *old(state),
            outcome matches Ok(true) ==> exists|call: &mut T, result: Result<(), E>|
                *call == *old(state) && *final(call) == *final(state) && result is Ok
                    && #[trigger] call_ensures(
                    old(self).callbacks()[winner(old(self)@, now)->0],
                    (call,),
                    result,
                ),
            outcome matches Err(Halt::Task(error)) ==> exists|call: &mut T, result: Result<(), E>|
                *call == *old(state) && *final(call) == *final(state) && result == Err::<(), E>(
                    error,
                ) && #[trigger] call_ensures(
                    old(self).callbacks()[winner(old(self)@, now)->0],
                    (call,),
                    result,
                ),
    {
        proof {
            lemma_no_fault_iff_all_measurable(old(self)@, now);
        }
        match self.try_next_task(now) {
            Err(error) => Err(Halt::Time(error)),
            Ok(None) => Ok(false),
            Ok(Some(task)) => {
                let result = task.run(now, state);
                match result {
                    Ok(()) => Ok(true),
                    Err(error) => Err(Halt::Task(error)),
                }
            },
        }
    }

    /// Runs the scheduler for at most `turns` turns: each reads the clock
    /// once and then chooses and runs a task as [`Scheduler::tick`] does at
    /// that reading. The first failure ends the run and is returned: of the
    /// clock, of the measurement of time, or of a callback, whose error is
    /// handed on as it is; nothing runs after it. `None` if all turns passed
    /// without one.
    ///
    /// The contract speaks of the readings that the clock gave, one for each
    /// turn taken, and of the states between the turns. Each reading is one
    /// that the clock can give, and a failure of the clock is one that it can
    /// report. The tasks are what these turns make of them. Every turn took
    /// the state on from where the turn before left it, by one call of the
    /// callback of the task it ran, or left it alone where it ran none. Every
    /// such call succeeded, but the last one of a run that a callback halted:
    /// that one returned the error in `halt`.
    pub fn run(&mut self, state: &mut T, turns: u64) -> (halt: Option<Halt<E>>)
        ensures
            final(self).clock() == old(self).clock(),
            final(self).callbacks() == old(self).callbacks(),
            advanced(old(self)@, final(self)@),
            exists|readings: Seq<Instant>, states: Seq<T>|
                #![trigger after_turns(old(self)@, readings), states.len()]
                {
                    &&& read_from(old(self).clock(), readings)
                    &&& final(self)@ == after_turns(old(self)@, readings)
                    &&& ends_as(old(self)@, readings, turns, halt)
                    &&& states.len() == readings.len() + 1
                    &&& states[0] == *old(state)
                    &&& states[readings.len() as int] == *final(state)
                    &&& forall|k: int|
                        0 <= k < readings.len() ==> match #[trigger] dispatched_at(
                            old(self)@,
                            readings,
                            k,
                        ) {
                            None => states[k + 1] == states[k],
                            Some(i) => 0 <= i < N && exists|call: &mut T, result: Result<(), E>|
                                {
                                    &&& *call == states[k]
                                    &&& *final(call) == states[k + 1]
                                    &&& result_fits(result, k, readings.len() as int, halt)
                                    &&& #[trigger] call_ensures(
                                        old(self).callbacks()[i],
                                        (call,),
                                        result,
                                    )
                                },
                        }
                },
            halt matches Some(Halt::Clock(error)) ==> call_ensures(
                C::try_now,
                (&old(self).clock(),),
                Err::<Instant, ClockError>(error),
            ),
            turns == 0 ==> halt is None && *final(state) == *old(state),
    {
        let mut left: u64 = turns;
        let mut halt: Option<Halt<E>> = None;
        let ghost mut readings: Seq<Instant> = Seq::empty();
        let ghost mut states: Seq<T> = seq![*state];
        while left > 0 && halt.is_none()
            invariant
                left <= turns,
                turns == 0 ==> halt is None,
                self.clock() == old(self).clock(),
                self.callbacks() == old(self).callbacks(),
                advanced(old(self)@, self@),
                self@ == after_turns(old(self)@, readings),
                read_from(old(self).clock(), readings),
                halt matches Some(Halt::Clock(error)) ==> call_ensures(
                    C::try_now,
                    (&old(self).clock(),),
                    Err::<Instant, ClockError>(error),
                ),
                halt is None ==> readings.len() == turns - left && all_turns_measurable(
                    old(self)@,
                    readings,
                ),
                halt is Some ==> ends_as(old(self)@, readings, turns, halt),
                states.len() == readings.len() + 1,
                states[0] == *old(state),
                states[readings.len() as int] == *state,
                forall|k: int|
                    0 <= k < readings.len() ==> match #[trigger] dispatched_at(
                        old(self)@,
                        readings,
                        k,
                    ) {
                        None => states[k + 1] == states[k],
                        Some(i) => 0 <= i < N && exists|call: &mut T, result: Result<(), E>|
                            {
                                &&& *call == states[k]
                                &&& *final(call) == states[k + 1]
                                &&& result_fits(result, k, readings.len() as int, halt)
                                &&& #[trigger] call_ensures(
                                    old(self).callbacks()[i],
                                    (call,),
                                    result,
                                )
                            },
                    },
            decreases left,
        {
            left = left - 1;
            let ghost before = self@;
            let ghost earlier = readings;
            let ghost entered = states;
            match self.clock.try_now() {
                Err(error) => {
                    halt = Some(Halt::Clock(error));
                },
                Ok(now) => {
                    match self.tick(now, state) {
                        Ok(_) => {},
                        Err(error) => {
                            halt = Some(error);
                        },
                    }
                    proof {
                        lemma_turn_advances(before, now);
                        lemma_advanced_transitive(old(self)@, before, self@);
                        lemma_one_more_turn(old(self)@, earlier, now);
                        lemma_dispatched_at_one_more(old(self)@, earlier, now);
                        readings = earlier.push(now);
                        states = entered.push(*state);
                        assert(readings.drop_last() =~= earlier);
                        assert(self@ == after_turns(old(self)@, readings));
                    }
                },
            }
            proof {
                assert forall|k: int|
                    0 <= k < readings.len() implies match #[trigger] dispatched_at(
                    old(self)@,
                    readings,
                    k,
                ) {
                    None => states[k + 1] == states[k],
                    Some(i) => 0 <= i < N && exists|call: &mut T, result: Result<(), E>|
                        {
                            &&& *call == states[k]
                            &&& *final(call) == states[k + 1]
                            &&& result_fits(result, k, readings.len() as int, halt)
                            &&& #[trigger] call_ensures(old(self).callbacks()[i], (call,), result)
                        },
                } by {
                    lemma_dispatched_is_a_task(old(self)@, readings, k);
                    self.lemma_task_count();
                    if k < earlier.len() {
                        assert(states[k] == entered[k]);
                        assert(states[k + 1] == entered[k + 1]);
                        assert(dispatched_at(old(self)@, earlier, k) == dispatched_at(
                            old(self)@,
                            readings,
                            k,
                        ));
                    }
                }
            }
        }
        halt
    }
}

} // verus!
