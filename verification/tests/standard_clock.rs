use rhythm::{Clock, ClockError, Fraction, Instant, Milliseconds, Scheduler, Task};
use std_embedded_time::StandardClock;

type Job = fn(&mut ()) -> Result<(), ()>;

fn a(_: &mut ()) -> Result<(), ()> {
    println!("a");
    Ok(())
}

fn b(_: &mut ()) -> Result<(), ()> {
    println!("b");
    Ok(())
}

/// The clock of the host, read through `embedded_time`.
struct Host(StandardClock);

impl Clock for Host {
    fn try_now(&self) -> Result<Instant, ClockError> {
        let tick = <StandardClock as embedded_time::Clock>::SCALING_FACTOR;
        match embedded_time::Clock::try_now(&self.0) {
            Ok(now) => Ok(Instant::new(
                now.duration_since_epoch().integer(),
                Fraction::new(*tick.numerator(), *tick.denominator()),
            )),
            Err(embedded_time::clock::Error::NotRunning) => Err(ClockError::NotRunning),
            Err(_) => Err(ClockError::Unspecified),
        }
    }
}

#[test]
fn test_it_works() {
    let tasks = [
        Task::from_frequency(1, a as Job),
        Task::from_frequency(2, b as Job),
    ];
    let clock = StandardClock::default();
    let mut scheduler = Scheduler::new(tasks, Host(clock));

    let halt = scheduler.run(&mut (), 1_000);
    assert_eq!(halt, None);
    assert_eq!(scheduler.tasks()[0].period(), Milliseconds::new(1_000));
    assert_eq!(scheduler.tasks()[1].period(), Milliseconds::new(500));
    assert!(scheduler.tasks()[0].last_run().is_some());
    assert!(scheduler.tasks()[1].last_run().is_some());
}

#[test]
fn the_host_clock_never_goes_back() {
    let clock = Host(StandardClock::default());
    let earlier = clock.try_now().unwrap();
    let later = clock.try_now().unwrap();
    assert!(later.checked_duration_since(&earlier).is_some());
    assert!(later.checked_millis_since(&earlier).is_ok());
    assert_eq!(earlier.scaling_factor, Fraction::new(1, 1_000_000_000));
}
