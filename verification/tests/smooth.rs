use mp3_player::{Smooth, TimedSmooth, RATIO_DEN};

#[test]
fn endpoints_after_set() {
    let mut s = Smooth::new(10);
    s.set(20);
    // interpolate(0) is the value recorded at construction, interpolate(1)
    // the most recent target.
    assert_eq!(s.interpolate(0, 100), 10);
    assert_eq!(s.interpolate(100, 100), 20);
}

#[test]
fn endpoints_after_stabilize() {
    let mut s = Smooth::new(10);
    s.set(20);
    s.stabilize();
    assert_eq!(s.interpolate(0, 100), 20);
    assert_eq!(s.interpolate(100, 100), 20);
    s.set(50);
    assert_eq!(s.interpolate(0, 100), 20);
    assert_eq!(s.interpolate(100, 100), 50);
}

#[test]
fn midpoint_value() {
    let mut s = Smooth::new(10);
    s.set(20);
    assert_eq!(s.interpolate(1, 2), 15);
    assert_eq!(s.interpolate(1, 4), 12);
}

#[test]
fn shift_set_is_continuous() {
    let mut s = Smooth::new(100);
    s.set(200);
    let mid = s.interpolate(3, 7);
    s.shift_set(900, 3, 7);
    // Immediately after shift_set, interpolate(0) equals the captured value.
    assert_eq!(s.interpolate(0, 7), mid);
    assert_eq!(s.interpolate(7, 7), 900);
}

#[test]
fn timed_eased_midpoint() {
    let mut ts = TimedSmooth::new(0, 1000, 0);
    ts.shift_set(100);
    ts.update(500);
    // Elapsed ratio 1/2, eased to r*(2-r) = 3/4: value 75.
    assert_eq!(ts.interpolate(), 75);
}

#[test]
fn timed_monotone_and_reaches_target() {
    let mut ts = TimedSmooth::new(0, 1000, 0);
    ts.shift_set(1000);
    let mut prev = ts.interpolate();
    let mut t: u64 = 0;
    while t <= 1500 {
        ts.update(t);
        let v = ts.interpolate();
        assert!(v >= prev);
        assert!(v <= 1000);
        prev = v;
        t += 100;
    }
    ts.update(1000);
    assert_eq!(ts.interpolate(), 1000);
    ts.update(5000);
    assert_eq!(ts.interpolate(), 1000);
}

#[test]
fn timed_zero_duration_is_instant() {
    let mut ts = TimedSmooth::new(5, 0, 42);
    ts.shift_set(77);
    ts.update(42);
    assert_eq!(ts.interpolate(), 77);
}

#[test]
fn ratio_den_is_fixed_point_one() {
    assert_eq!(RATIO_DEN, 65536);
}
