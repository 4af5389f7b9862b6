use wheel_controller::analog::{
    average, map_axis, AxisRange, JoystickCalibration, PedalCalibration,
};

fn stick() -> JoystickCalibration {
    JoystickCalibration::new(1650, 1650, 1600, -32767, 32767).unwrap()
}

#[test]
fn joystick_calibration_fields() {
    let c = stick();
    assert_eq!(c.x, AxisRange { min: 200, mid: 1650, max: 3100 });
    assert_eq!(c.y, AxisRange { min: 200, mid: 1650, max: 3100 });
    assert_eq!(c.deadzone, 1600);
    assert_eq!(c.output_min, -32767);
    assert_eq!(c.output_max, 32767);
}

#[test]
fn joystick_calibration_takes_any_rest_position() {
    assert!(JoystickCalibration::new(200, 1650, 0, -10, 10).is_some());
    assert!(JoystickCalibration::new(1650, 3100, 0, -10, 10).is_some());
    assert!(JoystickCalibration::new(0, 1650, 0, -10, 10).is_some());
    assert!(JoystickCalibration::new(100, 4095, 0, -10, 10).is_some());
    assert!(JoystickCalibration::new(201, 3099, 0, -10, 10).is_some());
}

#[test]
fn joystick_rest_position_below_low_end() {
    let c = JoystickCalibration::new(100, 100, 0, -32767, 32767).unwrap();
    assert_eq!(c.map(100, 0), (0, 32767));
    assert_eq!(c.map(2000, 100), (20752, 0));
}

#[test]
fn joystick_rest_position_above_high_end() {
    let c = JoystickCalibration::new(3500, 3500, 0, -32767, 32767).unwrap();
    assert_eq!(c.map(4000, 3600), (-32767, -8191));
    assert_eq!(c.map(3000, 3500), (-4964, 0));
}

#[test]
fn joystick_zero_length_segments() {
    let low = JoystickCalibration::new(200, 200, 0, -32767, 32767).unwrap();
    assert_eq!(low.map(200, 100), (0, -32767));
    assert_eq!(low.map(1000, 0), (9039, -32767));
    let high = JoystickCalibration::new(3100, 3100, 0, -32767, 32767).unwrap();
    assert_eq!(high.map(3200, 3100), (32767, 0));
    let a = AxisRange { min: 200, mid: 200, max: 3100 };
    assert_eq!(map_axis(a, 0, 0, 32767, 200), 16383);
}

#[test]
fn joystick_calibration_rejects_reversed_outputs() {
    assert!(JoystickCalibration::new(1650, 1650, 0, 10, -10).is_none());
    assert!(JoystickCalibration::new(1650, 1650, 0, 5, 5).is_some());
}

#[test]
fn joystick_maps_segments() {
    let c = stick();
    assert_eq!(c.map(1650, 1650), (0, 0));
    assert_eq!(c.map(3100, 200), (32767, -32767));
    assert_eq!(c.map(2000, 1000), (7909, -14688));
    assert_eq!(c.map(1500, 1650), (-3389, 0));
}

#[test]
fn joystick_deadzone_snaps_to_midpoint() {
    let c = stick();
    assert_eq!(c.map(1700, 1600), (0, 0));
    assert_eq!(c.map(1720, 1580), (0, 0));
}

#[test]
fn joystick_clamps_outside_calibration() {
    let c = stick();
    assert_eq!(c.map(4095, 0), (32767, -32767));
    assert_eq!(c.map(65535, 100), (32767, -32767));
}

#[test]
fn joystick_half_midpoint_rounds_toward_zero() {
    let a = AxisRange { min: 200, mid: 1650, max: 3100 };
    assert_eq!(map_axis(a, 0, 0, 32767, 1650), 16383);
    assert_eq!(map_axis(a, 0, 0, 32767, 1651), 16394);
    assert_eq!(map_axis(a, 0, 0, 32767, 200), 0);
}

#[test]
fn joystick_monotonic_in_segment() {
    let c = stick();
    let mut prev = i16::MIN;
    for raw in (0u16..=1650).step_by(7) {
        let (v, _) = c.map(raw, 1650);
        assert!(v >= prev);
        prev = v;
    }
    let mut prev = i16::MIN;
    for raw in (1651u16..=4095).step_by(7) {
        let (v, _) = c.map(raw, 1650);
        assert!(v >= prev);
        prev = v;
    }
}

#[test]
fn pedal_calibration_range() {
    let p = PedalCalibration::new(2000, 0, 32767).unwrap();
    assert_eq!(p.input_min, 2150);
    assert_eq!(p.input_max, 2450);
    assert!(PedalCalibration::new(2299, 0, 32767).is_some());
    assert!(PedalCalibration::new(2300, 0, 32767).is_none());
    assert!(PedalCalibration::new(65535, 0, 32767).is_none());
}

#[test]
fn pedal_maps_linearly() {
    let p = PedalCalibration::new(2000, 0, 32767).unwrap();
    assert_eq!(p.map(2300, 2200), (16383, 5461));
    assert_eq!(p.map_one(2150), 0);
    assert_eq!(p.map_one(2450), 32767);
}

#[test]
fn pedal_clamps_outside_range() {
    let p = PedalCalibration::new(2000, 0, 32767).unwrap();
    assert_eq!(p.map(100, 4095), (0, 32767));
    assert_eq!(p.map(0, 65535), (0, 32767));
}

#[test]
fn pedal_signed_output_rounds_toward_zero() {
    let p = PedalCalibration::new(0, -100, 100).unwrap();
    assert_eq!(p.map_one(150), -100);
    assert_eq!(p.map_one(1300), 0);
    assert_eq!(p.map_one(1000), -26);
}

#[test]
fn pedal_monotonic() {
    let p = PedalCalibration::new(2000, 0, 32767).unwrap();
    let mut prev = i16::MIN;
    for raw in (0u16..=4095).step_by(3) {
        let v = p.map_one(raw);
        assert!(v >= prev);
        prev = v;
    }
}

#[test]
fn average_of_samples() {
    assert_eq!(average(&vec![1000, 1001, 1002]), 1001);
    assert_eq!(average(&vec![4095; 10]), 4095);
    assert_eq!(average(&vec![1, 2]), 1);
    assert_eq!(average(&vec![7]), 7);
    assert_eq!(average(&vec![65535; 20]), 65535);
}
