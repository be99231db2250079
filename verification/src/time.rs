//! Clock readings as plain values, and the arithmetic on them.
//!
//! A clock counts ticks from its epoch; the length of a tick is a [`Fraction`]
//! of a second. Periods are measured in milliseconds, so the distance between
//! two readings is converted from ticks to milliseconds by `embedded_time`.

use vstd::prelude::*;

verus! {

/// The length of one clock tick in seconds: `numerator / denominator`.
#[derive(Clone, Copy, Debug, PartialEq, Eq, Structural)]
pub struct Fraction {
    pub numerator: u32,
    pub denominator: u32,
}

impl Fraction {
    /// The tick of a clock that counts milliseconds.
    pub open spec fn millisecond() -> Fraction {
        Fraction { numerator: 1, denominator: 1000 }
    }

    /// The fraction `numerator / denominator`, not reduced.
    pub fn new(numerator: u32, denominator: u32) -> (fraction: Self)
        ensures
            fraction.numerator == numerator,
            fraction.denominator == denominator,
    {
        Fraction { numerator, denominator }
    }
}

/// A duration in whole milliseconds.
#[derive(Clone, Copy, Debug, PartialEq, Eq, Structural)]
pub struct Milliseconds(pub u64);

impl Milliseconds {
    /// The duration of `value` milliseconds.
    pub fn new(value: u64) -> (duration: Self)
        ensures
            duration.0 == value,
    {
        Milliseconds(value)
    }

    /// The number of milliseconds.
    pub fn integer(&self) -> (value: u64)
        ensures
            value == self.0,
    {
        self.0
    }
}

/// A reading of a clock: the ticks counted since the clock's epoch, and the
/// length of one of them.
#[derive(Clone, Copy, Debug, PartialEq, Eq, Structural)]
pub struct Instant {
    pub ticks: u64,
    pub scaling_factor: Fraction,
}

/// Why the time between two instants cannot be measured.
#[derive(Clone, Copy, Debug, PartialEq, Eq, Structural)]
pub enum TimeError {
    /// The two instants count ticks of different lengths, so they were not
    /// read from the same clock.
    ForeignClock,
    /// The later instant precedes the earlier one.
    NonMonotonic,
    /// The elapsed ticks have no representation in whole milliseconds that
    /// fits the integer type, or the tick length has a zero denominator.
    Unrepresentable,
}

/// A failure of the clock to produce a reading.
#[derive(Clone, Copy, Debug, PartialEq, Eq, Structural)]
pub enum ClockError {
    /// The cause is unknown.
    Unspecified,
    /// The clock has stopped or was never started.
    NotRunning,
}

/// A source of clock readings.
pub trait Clock {
    /// The current reading, or the reason there is none.
    fn try_now(&self) -> Result<Instant, ClockError>;
}

/// A clock that gives the same answer whenever it is read: a clock that
/// stands still, or one that is out of order.
pub struct FixedClock {
    pub answer: Result<Instant, ClockError>,
}

impl Clock for FixedClock {
    fn try_now(&self) -> (reading: Result<Instant, ClockError>)
        ensures
            reading == self.answer,
    {
        self.answer
    }
}

/// The whole milliseconds that `embedded_time` makes of `ticks` ticks of
/// `numerator / denominator` seconds each; `None` where its arithmetic
/// overflows.
pub uninterp spec fn ticks_as_millis(ticks: u64, numerator: u32, denominator: u32) -> Option<u64>;

/// Converts a tick count to milliseconds with
/// `Milliseconds::<u64>::try_from(duration::Generic<u64>)` of `embedded_time`.
///
/// Trusted: the result is the value that conversion gives for these three
/// numbers, and a count of millisecond ticks (`1 / 1000`) comes back unchanged.
/// The conversion divides by the denominator while comparing fractions, so a
/// zero denominator is left out.
#[verifier::external_body]
fn convert_ticks_to_millis(ticks: u64, numerator: u32, denominator: u32) -> (millis: Option<u64>)
    requires
        denominator > 0,
    ensures
        millis == ticks_as_millis(ticks, numerator, denominator),
        numerator == 1 && denominator == 1000 ==> millis == Some(ticks),
{
    let tick = embedded_time::fraction::Fraction::new(numerator, denominator);
    let elapsed = embedded_time::duration::Generic::new(ticks, tick);
    match embedded_time::duration::Milliseconds::<u64>::try_from(elapsed) {
        Ok(millis) => Some(millis.0),
        Err(_) => None,
    }
}

/// The whole milliseconds in `ticks` ticks of `tick` seconds each: the ticks
/// themselves where a tick is a millisecond, and what `embedded_time` makes
/// of them otherwise; `None` where there are none that fit, or the length of
/// a tick has a zero denominator.
pub open spec fn ticks_to_millis(ticks: u64, tick: Fraction) -> Option<u64> {
    if tick == Fraction::millisecond() {
        Some(ticks)
    } else if tick.denominator == 0 {
        None
    } else {
        ticks_as_millis(ticks, tick.numerator, tick.denominator)
    }
}

/// The whole milliseconds in one period of a frequency given in hertz,
/// `None` at zero hertz.
pub open spec fn period_of_hertz(hertz: u64) -> Option<u64> {
    if hertz == 0 {
        None
    } else {
        Some(1000u64 / hertz)
    }
}

/// Converts a frequency to the length of its period with
/// `Rate::to_duration::<Milliseconds<u64>>` on `Hertz<u64>` of `embedded_time`.
///
/// Trusted: the period is the reciprocal of the rate in whole milliseconds,
/// that is 1000 divided by the rate without a remainder, and a rate of zero
/// is an error.
#[verifier::external_body]
pub(crate) fn convert_hertz_to_millis(hertz: u64) -> (millis: Option<u64>)
    ensures
        millis == period_of_hertz(hertz),
{
    let rate = embedded_time::rate::Hertz::<u64>(hertz);
    let period: Result<embedded_time::duration::Milliseconds<u64>, _> =
        embedded_time::rate::Rate::to_duration(&rate);
    match period {
        Ok(millis) => Some(millis.0),
        Err(_) => None,
    }
}

impl Instant {
    /// The reading `ticks` of a clock whose ticks last `scaling_factor` seconds.
    pub fn new(ticks: u64, scaling_factor: Fraction) -> (instant: Self)
        ensures
            instant.ticks == ticks,
            instant.scaling_factor == scaling_factor,
    {
        Instant { ticks, scaling_factor }
    }

    /// The ticks from `earlier` to `self`; `None` if the two are of different
    /// clocks or `earlier` is the later one.
    pub open spec fn ticks_since(self, earlier: Instant) -> Option<u64> {
        if self.scaling_factor == earlier.scaling_factor && earlier.ticks <= self.ticks {
            Some((self.ticks - earlier.ticks) as u64)
        } else {
            None
        }
    }

    /// The milliseconds from `earlier` to `self`, or the reason there are none.
    pub open spec fn millis_since(self, earlier: Instant) -> Result<u64, TimeError> {
        if self.scaling_factor != earlier.scaling_factor {
            Err(TimeError::ForeignClock)
        } else if self.ticks < earlier.ticks {
            Err(TimeError::NonMonotonic)
        } else {
            match ticks_to_millis((self.ticks - earlier.ticks) as u64, self.scaling_factor) {
                Some(millis) => Ok(millis),
                None => Err(TimeError::Unrepresentable),
            }
        }
    }

    /// The ticks counted since the clock's epoch.
    pub fn duration_since_epoch(&self) -> (ticks: u64)
        ensures
            ticks == self.ticks,
    {
        self.ticks
    }

    /// The ticks elapsed from `earlier` to `self`. Subtraction is checked:
    /// there is no duration if `earlier` is the later instant, or if the two
    /// were read from clocks with different tick lengths.
    pub fn checked_duration_since(&self, earlier: &Instant) -> (elapsed: Option<u64>)
        ensures
            elapsed == self.ticks_since(*earlier),
    {
        if self.scaling_factor == earlier.scaling_factor && earlier.ticks <= self.ticks {
            Some(self.ticks - earlier.ticks)
        } else {
            None
        }
    }

    /// The whole milliseconds elapsed from `earlier` to `self`, or the reason
    /// they cannot be told. On a clock that counts milliseconds they are the
    /// elapsed ticks.
    pub fn checked_millis_since(&self, earlier: &Instant) -> (elapsed: Result<u64, TimeError>)
        ensures
            elapsed == self.millis_since(*earlier),
    {
        if self.scaling_factor != earlier.scaling_factor {
            return Err(TimeError::ForeignClock);
        }
        let ticks: u64 = match self.checked_duration_since(earlier) {
            Some(ticks) => ticks,
            None => {
                return Err(TimeError::NonMonotonic);
            },
        };
        if self.scaling_factor.denominator == 0 {
            return Err(TimeError::Unrepresentable);
        }
        match convert_ticks_to_millis(
            ticks,
            self.scaling_factor.numerator,
            self.scaling_factor.denominator,
        ) {
            Some(millis) => Ok(millis),
            None => Err(TimeError::Unrepresentable),
        }
    }
}

} // verus!
