use webpg::counter::Counter;

#[test]
fn counter_increments() {
    let mut counter = Counter::new();
    assert_eq!(counter.increment(), 1);
    assert_eq!(counter.increment(), 2);
}

#[test]
fn counter_decrements() {
    let mut counter = Counter::new();
    counter.increment();
    assert_eq!(counter.decrement(), 0);
    assert_eq!(counter.decrement(), -1);
}

#[test]
fn counter_resets() {
    let mut counter = Counter::new();
    counter.increment();
    counter.increment();
    assert_eq!(counter.reset(), 0);
    assert_eq!(counter.value(), 0);
}

#[test]
fn counter_starts_at_zero() {
    let counter = Counter::new();
    assert_eq!(counter.value(), 0);
}

#[test]
fn counter_step_down_undoes_step_up() {
    let mut counter = Counter::new();
    counter.decrement();
    counter.decrement();
    let before = counter.value();
    counter.increment();
    assert_eq!(counter.decrement(), before);
    assert_eq!(counter.value(), -2);
}

#[test]
fn counter_reaches_extremes() {
    let mut counter = Counter::new();
    for _ in 0..5 {
        counter.increment();
    }
    assert_eq!(counter.value(), 5);
    for _ in 0..10 {
        counter.decrement();
    }
    assert_eq!(counter.value(), -5);
}
