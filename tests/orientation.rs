use wheel_controller::orientation::{steering_from_roll, RollTracker};

#[test]
fn tracker_starts_at_zero() {
    let t = RollTracker::new();
    assert_eq!(t.roll(), 0);
}

#[test]
fn tracker_follows_small_steps() {
    let mut t = RollTracker::new();
    assert_eq!(t.update(10000), 10000);
    assert_eq!(t.update(25000), 25000);
    assert_eq!(t.update(-5000), -5000);
}

#[test]
fn tracker_unwraps_across_half_turn() {
    let mut t = RollTracker::new();
    assert_eq!(t.update(170000), 170000);
    assert_eq!(t.update(179000), 179000);
    assert_eq!(t.update(-179000), 181000);
    assert_eq!(t.update(-170000), 190000);
    assert_eq!(t.roll(), 190000);
}

#[test]
fn tracker_unwraps_backwards() {
    let mut t = RollTracker::new();
    assert_eq!(t.update(-175000), -175000);
    assert_eq!(t.update(175000), -185000);
    assert_eq!(t.update(100000), -260000);
}

#[test]
fn tracker_keeps_exact_half_turn_step() {
    let mut t = RollTracker::new();
    assert_eq!(t.update(-90000), -90000);
    // a difference of exactly half a turn is not folded
    assert_eq!(t.update(90000), 90000);
    assert_eq!(t.update(-90000), -90000);
}

#[test]
fn roll_continuity_steps_stay_small() {
    let raws: [i32; 8] = [150000, 170000, -178000, -160000, -179000, 179000, 160000, -170000];
    let mut t = RollTracker::new();
    let mut prev_raw: i64 = 0;
    let mut prev_roll: i64 = 0;
    for r in raws.iter() {
        let roll = t.update(*r);
        let mut d = *r as i64 - prev_raw;
        if d > 180000 {
            d -= 360000;
        } else if d < -180000 {
            d += 360000;
        }
        assert_eq!(roll - prev_roll, d);
        assert!((roll - prev_roll).abs() <= 180000);
        prev_raw = *r as i64;
        prev_roll = roll;
    }
}

#[test]
fn steering_scaling() {
    assert_eq!(steering_from_roll(0), 16383);
    assert_eq!(steering_from_roll(450000), 32767);
    assert_eq!(steering_from_roll(-450000), 0);
    assert_eq!(steering_from_roll(100000), 20024);
    assert_eq!(steering_from_roll(-100000), 12742);
}

#[test]
fn steering_clamps_beyond_lock() {
    assert_eq!(steering_from_roll(900000), 32767);
    assert_eq!(steering_from_roll(-900000), 0);
    assert_eq!(steering_from_roll(i64::MAX), 32767);
    assert_eq!(steering_from_roll(i64::MIN), 0);
}
