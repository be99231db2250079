use rhythm::{Fraction, Instant, Milliseconds, TimeError};

fn millis() -> Fraction {
    Fraction::new(1, 1_000)
}

fn nanos() -> Fraction {
    Fraction::new(1, 1_000_000_000)
}

#[test]
fn fraction_keeps_its_parts() {
    let fraction = Fraction::new(3, 7);
    assert_eq!(fraction.numerator, 3);
    assert_eq!(fraction.denominator, 7);
    assert_eq!(Fraction::new(2, 4), Fraction::new(2, 4));
    assert_ne!(Fraction::new(2, 4), Fraction::new(1, 2));
}

#[test]
fn milliseconds_keep_their_value() {
    assert_eq!(Milliseconds::new(1_000).integer(), 1_000);
    assert_eq!(Milliseconds::new(0).0, 0);
}

#[test]
fn instant_keeps_ticks_and_scale() {
    let instant = Instant::new(23, millis());
    assert_eq!(instant.ticks, 23);
    assert_eq!(instant.scaling_factor, millis());
    assert_eq!(instant.duration_since_epoch(), 23);
}

#[test]
fn duration_since_an_earlier_instant_is_the_difference_in_ticks() {
    let earlier = Instant::new(3, millis());
    let later = Instant::new(5, millis());
    assert_eq!(later.checked_duration_since(&earlier), Some(2));
    assert_eq!(later.checked_duration_since(&later), Some(0));
    assert_eq!(
        Instant::new(u64::MAX, nanos()).checked_duration_since(&Instant::new(0, nanos())),
        Some(u64::MAX)
    );
}

#[test]
fn duration_since_a_later_instant_is_none() {
    let earlier = Instant::new(3, millis());
    let later = Instant::new(5, millis());
    assert_eq!(earlier.checked_duration_since(&later), None);
}

#[test]
fn duration_between_clocks_is_none() {
    let one = Instant::new(3, millis());
    let other = Instant::new(5, nanos());
    assert_eq!(other.checked_duration_since(&one), None);
}

#[test]
fn millisecond_ticks_are_milliseconds() {
    let earlier = Instant::new(100, millis());
    let later = Instant::new(1_700, millis());
    assert_eq!(later.checked_millis_since(&earlier), Ok(1_600));
    assert_eq!(later.checked_millis_since(&later), Ok(0));
}

#[test]
fn nanosecond_ticks_are_rounded_down_to_milliseconds() {
    let earlier = Instant::new(500_000, nanos());
    assert_eq!(Instant::new(3_000_000, nanos()).checked_millis_since(&earlier), Ok(2));
    assert_eq!(Instant::new(3_499_999, nanos()).checked_millis_since(&earlier), Ok(2));
    assert_eq!(Instant::new(3_500_000, nanos()).checked_millis_since(&earlier), Ok(3));
    assert_eq!(Instant::new(1_499_999, nanos()).checked_millis_since(&earlier), Ok(0));
}

#[test]
fn second_ticks_are_a_thousand_milliseconds_each() {
    let seconds = Fraction::new(1, 1);
    let earlier = Instant::new(4, seconds);
    assert_eq!(Instant::new(7, seconds).checked_millis_since(&earlier), Ok(3_000));
}

#[test]
fn hour_ticks_convert_to_milliseconds() {
    let hours = Fraction::new(3_600, 1);
    let earlier = Instant::new(1, hours);
    assert_eq!(Instant::new(3, hours).checked_millis_since(&earlier), Ok(7_200_000));
}

#[test]
fn odd_tick_lengths_convert_to_milliseconds() {
    let odd = Fraction::new(3, 7);
    let epoch = Instant::new(0, odd);
    assert_eq!(Instant::new(7, odd).checked_millis_since(&epoch), Ok(3_000));
    assert_eq!(Instant::new(10, odd).checked_millis_since(&epoch), Ok(4_285));
}

#[test]
fn millis_between_clocks_are_refused() {
    let one = Instant::new(3, millis());
    let other = Instant::new(5, nanos());
    assert_eq!(other.checked_millis_since(&one), Err(TimeError::ForeignClock));
    assert_eq!(one.checked_millis_since(&other), Err(TimeError::ForeignClock));
}

#[test]
fn millis_since_a_later_instant_are_refused() {
    let earlier = Instant::new(3, millis());
    let later = Instant::new(5, millis());
    assert_eq!(earlier.checked_millis_since(&later), Err(TimeError::NonMonotonic));
}

#[test]
fn millis_that_overflow_are_refused() {
    let seconds = Fraction::new(1, 1);
    let epoch = Instant::new(0, seconds);
    assert_eq!(
        Instant::new(u64::MAX, seconds).checked_millis_since(&epoch),
        Err(TimeError::Unrepresentable)
    );
    assert_eq!(
        Instant::new(u64::MAX / 1_000 + 1, seconds).checked_millis_since(&epoch),
        Err(TimeError::Unrepresentable)
    );
    assert_eq!(
        Instant::new(u64::MAX / 1_000, seconds).checked_millis_since(&epoch),
        Ok(u64::MAX / 1_000 * 1_000)
    );
}

#[test]
fn a_zero_denominator_is_refused() {
    let broken = Fraction::new(1, 0);
    let epoch = Instant::new(0, broken);
    assert_eq!(
        Instant::new(5, broken).checked_millis_since(&epoch),
        Err(TimeError::Unrepresentable)
    );
}
