//! A periodic task: a callback, its period and priority, and when it last ran.

use core::marker::PhantomData;
use vstd::prelude::*;
use crate::time::{
    convert_hertz_to_millis, period_of_hertz, Fraction, Instant, Milliseconds, TimeError,
};

verus! {

/// What scheduling reads of a task: everything but the callback.
pub struct TaskView {
    pub priority: u8,
    pub period: u64,
    pub last_run: Option<Instant>,
}

/// How many whole periods have been missed beyond the one that is due, once
/// `elapsed` milliseconds have passed since the last run; `None` while the
/// period has not elapsed.
pub open spec fn overrun_after(elapsed: u64, period: u64) -> Option<u64> {
    if elapsed < period {
        None
    } else {
        Some(((elapsed - period) / (period as int)) as u64)
    }
}

impl TaskView {
    /// The period is strictly positive.
    pub open spec fn wf(self) -> bool {
        self.period > 0
    }

    /// The time since the last run can be measured at `now`: `now` is a
    /// reading of the same clock, not earlier than the last run, and the ticks
    /// between them convert to milliseconds.
    pub open spec fn measurable(self, now: Instant) -> bool {
        match self.last_run {
            None => true,
            Some(last) => now.millis_since(last) is Ok,
        }
    }

    /// Whether the task is due at `now`, and by how much it is late.
    ///
    /// A task that never ran is due at once, and its overrun is the time since
    /// the clock's epoch, in ticks. Otherwise it is due when a period has
    /// elapsed since the last run, and its overrun counts the further whole
    /// periods that have elapsed too.
    pub open spec fn ready(self, now: Instant) -> Option<u64> {
        match self.last_run {
            None => Some(now.ticks),
            Some(last) => match now.millis_since(last) {
                Ok(elapsed) => overrun_after(elapsed, self.period),
                Err(_) => None,
            },
        }
    }

    /// The task after a run at `now`.
    pub open spec fn ran_at(self, now: Instant) -> TaskView {
        TaskView { last_run: Some(now), ..self }
    }
}

/// How many whole periods have been missed beyond the one that is due, after
/// `elapsed` milliseconds; `None` while `elapsed` is short of one period.
pub fn overrun(elapsed: u64, period: u64) -> (missed: Option<u64>)
    requires
        period > 0,
    ensures
        missed == overrun_after(elapsed, period),
        missed is None <==> elapsed < period,
        missed matches Some(k) ==> period + k * period <= elapsed < period + (k + 1) * period,
{
    if elapsed < period {
        None
    } else {
        let k: u64 = (elapsed - period) / period;
        proof {
            lemma_quotient_bounds(elapsed - period, period as int);
        }
        Some(k)
    }
}

/// The quotient of a division counts the whole divisors in the dividend.
proof fn lemma_quotient_bounds(x: int, d: int)
    requires
        x >= 0,
        d > 0,
    ensures
        0 <= x / d,
        (x / d) * d <= x < (x / d + 1) * d,
{
    assert(0 <= x / d && (x / d) * d <= x < (x / d + 1) * d) by (nonlinear_arith)
        requires
            x >= 0,
            d > 0,
    ;
}

/// A dividend between `k` and `k + 1` divisors has the quotient `k`.
proof fn lemma_quotient_unique(x: int, d: int, k: int)
    requires
        d > 0,
        k * d <= x < (k + 1) * d,
    ensures
        x / d == k,
{
    assert(x / d == k) by (nonlinear_arith)
        requires
            d > 0,
            k * d <= x < (k + 1) * d,
    ;
}

/// A task is not due before one period has elapsed; it is due with no
/// overrun when exactly one has; and after `k` further whole periods, and less
/// than one more, its overrun is `k`.
pub proof fn lemma_overrun_counts_whole_periods(elapsed: u64, period: u64, k: nat)
    requires
        period > 0,
    ensures
        elapsed < period ==> overrun_after(elapsed, period) is None,
        elapsed == period ==> overrun_after(elapsed, period) == Some(0u64),
        period + k * period <= elapsed < period + (k + 1) * period ==> overrun_after(
            elapsed,
            period,
        ) == Some(k as u64),
{
    if period + k * period <= elapsed < period + (k + 1) * period {
        assert((k + 1) * period == k * period + period) by (nonlinear_arith);
        assert(0 <= k * period) by (nonlinear_arith)
            requires
                period > 0,
                k >= 0,
        ;
        lemma_quotient_unique(elapsed - period, period as int, k as int);
    }
    if elapsed == period {
        lemma_quotient_unique(0, period as int, 0);
    }
}

/// For a task last run at `last` and seen at `now`, `elapsed` milliseconds
/// later: before one period has elapsed it is not ready; at exactly one period
/// it is ready with overrun 0; at one period and `k` more it is ready with
/// overrun `k`.
pub proof fn lemma_ready_after_last_run(
    task: TaskView,
    last: Instant,
    now: Instant,
    elapsed: u64,
    k: nat,
)
    requires
        task.wf(),
        task.last_run == Some(last),
        now.millis_since(last) == Ok::<u64, TimeError>(elapsed),
    ensures
        elapsed < task.period ==> task.ready(now) is None,
        elapsed == task.period ==> task.ready(now) == Some(0u64),
        elapsed == task.period + k * task.period ==> task.ready(now) == Some(k as u64),
{
    lemma_overrun_counts_whole_periods(elapsed, task.period, k);
    assert((k + 1) * task.period == k * task.period + task.period) by (nonlinear_arith);
}

/// On a clock that counts milliseconds, for a task last run at the tick `t`
/// with the period `p`: it is not ready at any tick from `t` to just before
/// `t + p`, it is ready with overrun 0 at `t + p`, and with overrun `k` at
/// `t + p + k * p`.
pub proof fn lemma_ready_on_millisecond_clock(task: TaskView, t: u64, ticks: u64, k: nat)
    requires
        task.wf(),
        task.last_run == Some(Instant { ticks: t, scaling_factor: Fraction::millisecond() }),
    ensures
        ({
            let now = Instant { ticks, scaling_factor: Fraction::millisecond() };
            &&& t <= ticks ==> task.measurable(now)
            &&& t <= ticks < t + task.period ==> task.ready(now) is None
            &&& ticks == t + task.period ==> task.ready(now) == Some(0u64)
            &&& ticks == t + task.period + k * task.period ==> task.ready(now) == Some(k as u64)
        }),
{
    if t <= ticks {
        let now = Instant { ticks, scaling_factor: Fraction::millisecond() };
        let last = Instant { ticks: t, scaling_factor: Fraction::millisecond() };
        assert(now.millis_since(last) == Ok::<u64, TimeError>((ticks - t) as u64));
        assert(0 <= k * task.period) by (nonlinear_arith)
            requires
                task.period > 0,
                k >= 0,
        ;
        lemma_ready_after_last_run(task, last, now, (ticks - t) as u64, k);
    } else {
        assert(0 <= k * task.period) by (nonlinear_arith)
            requires
                task.period > 0,
                k >= 0,
        ;
    }
}

/// A task that never ran is ready at every instant, and its overrun is the
/// time since the clock's epoch.
pub proof fn lemma_never_run_is_ready(task: TaskView, now: Instant)
    requires
        task.last_run is None,
    ensures
        task.measurable(now),
        task.ready(now) == Some(now.ticks),
{
}

/// The callback `f` may be called on every state.
pub open spec fn accepts_every_state<T, E, F: Fn(&mut T) -> Result<(), E>>(f: F) -> bool {
    forall|state: &mut T| call_requires(f, (state,))
}

/// A unit of work to run once per period.
///
/// `F` is the callback; it works on a state of type `T` that the caller owns,
/// and fails with an `E`.
#[verifier::reject_recursive_types(T)]
#[verifier::reject_recursive_types(E)]
pub struct Task<T, E, F: Fn(&mut T) -> Result<(), E>> {
    f: F,
    priority: u8,
    period: Milliseconds,
    last_run: Option<Instant>,
    marker: PhantomData<(T, E)>,
}

impl<T, E, F: Fn(&mut T) -> Result<(), E>> View for Task<T, E, F> {
    type V = TaskView;

    closed spec fn view(&self) -> TaskView {
        TaskView { priority: self.priority, period: self.period.0, last_run: self.last_run }
    }
}

impl<T, E, F: Fn(&mut T) -> Result<(), E>> Task<T, E, F> {
    /// The period is strictly positive, and the callback accepts every state.
    #[verifier::type_invariant]
    spec fn inv(&self) -> bool {
        self.period.0 > 0 && accepts_every_state::<T, E, F>(self.f)
    }

    /// The callback.
    pub closed spec fn callback(&self) -> F {
        self.f
    }

    /// A task that runs `f` once per `period`, at the lowest priority, and has
    /// never run. The period is not zero, and `f` can be called on any state.
    pub fn new(period: Milliseconds, f: F) -> (task: Self)
        requires
            period.0 > 0,
            accepts_every_state::<T, E, F>(f),
        ensures
            task@ == (TaskView { priority: 0, period: period.0, last_run: None }),
            task@.wf(),
            task.callback() == f,
    {
        Task { f, priority: 0, period, last_run: None, marker: PhantomData }
    }

    /// A task that runs `f` `hertz` times per second: its period is the
    /// reciprocal of the frequency in whole milliseconds, which must be at
    /// least one.
    pub fn from_frequency(hertz: u64, f: F) -> (task: Self)
        requires
            0 < hertz <= 1000,
            accepts_every_state::<T, E, F>(f),
        ensures
            task@ == (TaskView { priority: 0, period: 1000u64 / hertz, last_run: None }),
            Some(task@.period) == period_of_hertz(hertz),
            task@.wf(),
            task.callback() == f,
    {
        proof {
            assert(1000int / (hertz as int) >= 1) by (nonlinear_arith)
                requires
                    0 < hertz <= 1000,
            ;
        }
        match convert_hertz_to_millis(hertz) {
            Some(millis) => Self::new(Milliseconds::new(millis), f),
            None => vstd::pervasive::unreached(),
        }
    }

    /// The same task at `priority`; a higher value is served first.
    pub fn with_priority(self, priority: u8) -> (task: Self)
        ensures
            task@ == (TaskView { priority, ..self@ }),
            task@.wf(),
            task.callback() == self.callback(),
    {
        proof {
            use_type_invariant(&self);
        }
        let mut task = self;
        task.priority = priority;
        task
    }

    /// The priority; a higher value is served first.
    pub fn priority(&self) -> (priority: u8)
        ensures
            priority == self@.priority,
    {
        self.priority
    }

    /// The least time between two runs.
    pub fn period(&self) -> (period: Milliseconds)
        ensures
            period.0 == self@.period,
            period.0 > 0,
    {
        proof {
            use_type_invariant(self);
        }
        self.period
    }

    /// The instant of the last run, `None` if the task never ran or was reset.
    pub fn last_run(&self) -> (last_run: Option<Instant>)
        ensures
            last_run == self@.last_run,
    {
        self.last_run
    }

    /// Whether the task is due at `now`, and if so its overrun.
    ///
    /// Reads only: the task is not changed, and every call at the same `now`
    /// gives the same answer.
    pub fn ready(&self, now: Instant) -> (overrun: Option<u64>)
        requires
            self@.measurable(now),
        ensures
            overrun == self@.ready(now),
            self@.last_run is None ==> overrun == Some(now.ticks),
    {
        proof {
            use_type_invariant(self);
        }
        match self.last_run {
            Some(last_run) => {
                match now.checked_millis_since(&last_run) {
                    Ok(elapsed) => crate::task::overrun(elapsed, self.period.0),
                    Err(_) => vstd::pervasive::unreached(),
                }
            },
            None => Some(now.duration_since_epoch()),
        }
    }

    /// As [`Task::ready`], for any `now`: where the time since the last run
    /// cannot be measured, the reason is returned instead.
    pub fn try_ready(&self, now: Instant) -> (outcome: Result<Option<u64>, TimeError>)
        ensures
            outcome is Ok <==> self@.measurable(now),
            outcome is Ok ==> outcome->Ok_0 == self@.ready(now),
            outcome is Err ==> self@.last_run is Some && Err::<u64, TimeError>(outcome->Err_0)
                == now.millis_since(self@.last_run->0),
    {
        match self.last_run {
            Some(last_run) => {
                match now.checked_millis_since(&last_run) {
                    Ok(_) => Ok(self.ready(now)),
                    Err(error) => Err(error),
                }
            },
            None => Ok(self.ready(now)),
        }
    }

    /// Forgets the last run: the task is due at once, with the overrun of a
    /// task that never ran.
    pub fn reset(&mut self)
        ensures
            final(self)@ == (TaskView { last_run: None, ..old(self)@ }),
            final(self).callback() == old(self).callback(),
            forall|now: Instant| #[trigger] final(self)@.ready(now) == Some(now.ticks),
    {
        proof {
            use_type_invariant(&*self);
        }
        self.last_run = None;
    }

    /// Calls the callback on `state` and records `now` as the last run,
    /// whatever the callback returns. `now` is the instant at which the task
    /// was found ready, not a new reading of the clock.
    pub fn run(&mut self, now: Instant, state: &mut T) -> (result: Result<(), E>)
        ensures
            final(self)@ == old(self)@.ran_at(now),
            final(self)@.last_run == Some(now),
            final(self).callback() == old(self).callback(),
            exists|call: &mut T|
                *call == *old(state) && *final(call) == *final(state) && #[trigger] call_ensures(
                    old(self).callback(),
                    (call,),
                    result,
                ),
    {
        proof {
            use_type_invariant(&*self);
        }
        self.last_run = Some(now);
        (self.f)(state)
    }
}

} // verus!
