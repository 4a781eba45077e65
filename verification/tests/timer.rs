use eminent_spoon::timer::{Timer, REPORT_PERIOD_NANOS};

#[test]
fn report_period_is_one_second() {
    assert_eq!(REPORT_PERIOD_NANOS, 1_000_000_000);
}

#[test]
fn new_timer_is_armed() {
    let timer = Timer::new(1000, 42);
    assert!(timer.ready);
    assert_eq!(timer.last_instant, 42);
    assert_eq!(timer.delta, 0);
    assert_eq!(timer.period, 1000);
    assert_eq!(timer.countdown, 0);
}

#[test]
fn first_update_starts_the_countdown() {
    let mut timer = Timer::new(1000, 0);
    timer.update(10);
    assert!(timer.ready);
    assert_eq!(timer.delta, 10);
    assert_eq!(timer.last_instant, 10);
    assert_eq!(timer.countdown, 1000);
}

#[test]
fn consume_disarms_and_keeps_the_countdown() {
    let mut timer = Timer::new(1000, 0);
    timer.update(10);
    timer.consume();
    assert!(!timer.ready);
    assert_eq!(timer.countdown, 1000);
    assert_eq!(timer.last_instant, 10);
    assert_eq!(timer.delta, 10);
}

#[test]
fn update_counts_down_while_idle() {
    let mut timer = Timer::new(1000, 0);
    timer.update(10);
    timer.consume();
    timer.update(310);
    assert!(!timer.ready);
    assert_eq!(timer.delta, 300);
    assert_eq!(timer.countdown, 700);
    timer.update(1009);
    assert!(!timer.ready);
    assert_eq!(timer.delta, 699);
    assert_eq!(timer.countdown, 1);
}

#[test]
fn update_arms_when_the_countdown_reaches_zero() {
    let mut timer = Timer::new(1000, 0);
    timer.update(10);
    timer.consume();
    timer.update(1010);
    assert!(timer.ready);
    assert_eq!(timer.delta, 1000);
    assert_eq!(timer.countdown, 1000);
}

#[test]
fn update_arms_when_the_countdown_is_overrun() {
    let mut timer = Timer::new(1000, 0);
    timer.update(10);
    timer.consume();
    timer.update(5010);
    assert!(timer.ready);
    assert_eq!(timer.delta, 5000);
    assert_eq!(timer.countdown, 1000);
    assert_eq!(timer.last_instant, 5010);
}

#[test]
fn armed_timer_stays_armed_until_consumed() {
    let mut timer = Timer::new(1000, 0);
    timer.update(10);
    timer.update(20);
    assert!(timer.ready);
    assert_eq!(timer.countdown, 990);
    timer.consume();
    assert!(!timer.ready);
}

#[test]
fn update_without_time_passing() {
    let mut timer = Timer::new(1000, 0);
    timer.update(10);
    timer.consume();
    timer.update(10);
    assert_eq!(timer.delta, 0);
    assert_eq!(timer.countdown, 1000);
    assert!(!timer.ready);
}

#[test]
fn clock_that_steps_back_is_held() {
    let mut timer = Timer::new(1000, 0);
    timer.update(500);
    timer.consume();
    timer.update(200);
    assert_eq!(timer.last_instant, 500);
    assert_eq!(timer.delta, 0);
    assert_eq!(timer.countdown, 1000);
    assert!(!timer.ready);
}

#[test]
fn zero_period_arms_at_every_update() {
    let mut timer = Timer::new(0, 0);
    timer.update(0);
    assert!(timer.ready);
    timer.consume();
    timer.update(0);
    assert!(timer.ready);
    assert_eq!(timer.countdown, 0);
}

#[test]
fn update_near_the_end_of_the_clock() {
    let mut timer = Timer::new(u64::MAX, 0);
    timer.update(0);
    timer.consume();
    assert_eq!(timer.countdown, u64::MAX);
    timer.update(u64::MAX - 1);
    assert!(!timer.ready);
    assert_eq!(timer.countdown, 1);
    timer.update(u64::MAX);
    assert!(timer.ready);
    assert_eq!(timer.countdown, u64::MAX);
}
