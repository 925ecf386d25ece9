use planner::utils::Deadline;
use std::time::{Duration, Instant};

#[test]
fn deadline_is_patient_when_fresh() {
    // Immediately after construction almost none of a 100 ms budget has
    // elapsed, so no overshoot is predicted whatever the tick count.
    let mut d = Deadline::new(100);
    assert!(!d.will_exceed_deadline());
    d.tick();
    assert!(!d.will_exceed_deadline());
    assert!(!d.is_expired());
    assert!(d.remaining() <= 100_000_000);
}

#[test]
fn deadline_predicts_overshoot_once_elapsed() {
    let mut d = Deadline::new(100);
    d.tick();
    let begin = Instant::now();
    while begin.elapsed() < Duration::from_millis(150) {
        std::hint::spin_loop();
    }
    assert!(d.will_exceed_deadline());
    assert!(d.is_expired());
    assert_eq!(d.remaining(), 0);
}

#[test]
fn will_exceed_at_is_exact() {
    // Budget fully used.
    assert!(Deadline::will_exceed_at(100, 100, 1));
    // Under half the budget: no prediction.
    assert!(!Deadline::will_exceed_at(49, 100, 1));
    // Past half: one more average-length iteration must fit.
    assert!(Deadline::will_exceed_at(80, 100, 1));
    assert!(!Deadline::will_exceed_at(60, 100, 2));
    assert!(Deadline::will_exceed_at(90, 100, 5));
    // Past half with no iterations on record: the average is unbounded.
    assert!(Deadline::will_exceed_at(60, 100, 0));
}
