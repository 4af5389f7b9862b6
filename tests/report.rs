use wheel_controller::report::{combine_buttons, InputReadings, SteeringReport, REPORT_LEN};

#[test]
fn new_report_is_zero() {
    let r = SteeringReport::new();
    assert_eq!(r, SteeringReport { buttons: 0, steering: 0, accelerator: 0, brake: 0, x: 0, y: 0 });
    assert_eq!(r.to_bytes(), vec![0u8; 14]);
}

#[test]
fn report_wire_layout() {
    let r = SteeringReport { buttons: 1, steering: 0, accelerator: 0, brake: 0, x: 2047, y: 2047 };
    let b = r.to_bytes();
    assert_eq!(b.len(), REPORT_LEN);
    assert_eq!(b, vec![1, 0, 0, 0, 0, 0, 0, 0, 0, 0, 255, 7, 255, 7]);
}

#[test]
fn report_wire_layout_all_fields() {
    let r = SteeringReport {
        buttons: 0x1234_5678,
        steering: -1,
        accelerator: 0x0102,
        brake: -32768,
        x: 32767,
        y: -2,
    };
    assert_eq!(
        r.to_bytes(),
        vec![0x78, 0x56, 0x34, 0x12, 0xff, 0xff, 0x02, 0x01, 0x00, 0x80, 0xff, 0x7f, 0xfe, 0xff]
    );
}

#[test]
fn setters_touch_only_their_fields() {
    let mut r = SteeringReport::new();
    r.set_steering(5);
    r.set_pedals(6, 7);
    r.set_axes(8, 9);
    r.set_buttons(10);
    assert_eq!(r, SteeringReport { buttons: 10, steering: 5, accelerator: 6, brake: 7, x: 8, y: 9 });
}

#[test]
fn buttons_from_all_sources() {
    let m = combine_buttons(0, Some(0x0003), Some(true), Some(false), Some(true));
    assert_eq!(m, 0x0005_0003);
    let m = combine_buttons(0xffff_ffff, Some(0), Some(false), Some(false), Some(false));
    assert_eq!(m, 0);
}

#[test]
fn failed_sources_keep_their_bits() {
    let m = combine_buttons(0x0007_0005, None, None, Some(false), None);
    assert_eq!(m, 0x0005_0005);
    let m = combine_buttons(0x0000_00f0, None, Some(true), None, None);
    assert_eq!(m, 0x0001_00f0);
}

#[test]
fn unowned_bits_are_cleared() {
    let m = combine_buttons(0xff00_0000, None, None, None, None);
    assert_eq!(m, 0);
}

#[test]
fn failing_pedal_keeps_pedal_fields() {
    let mut r = SteeringReport { buttons: 0, steering: 3, accelerator: 100, brake: 200, x: 0, y: 0 };
    let readings = InputReadings {
        keys: Some(1),
        joystick: Some((5, -5, true)),
        pedals: None,
        gear_drive: Some(true),
        gear_reverse: Some(false),
    };
    r.apply_inputs(&readings);
    assert_eq!(r, SteeringReport { buttons: 0x0003_0001, steering: 3, accelerator: 100, brake: 200, x: 5, y: -5 });
}

#[test]
fn all_inputs_update() {
    let mut r = SteeringReport::new();
    let readings = InputReadings {
        keys: Some(0x8000),
        joystick: Some((-7, 9, false)),
        pedals: Some((1000, 2000)),
        gear_drive: Some(false),
        gear_reverse: Some(true),
    };
    r.apply_inputs(&readings);
    assert_eq!(r, SteeringReport { buttons: 0x0004_8000, steering: 0, accelerator: 1000, brake: 2000, x: -7, y: 9 });
}

#[test]
fn failing_joystick_keeps_axes_and_button() {
    let mut r = SteeringReport { buttons: 0x0001_0000, steering: 0, accelerator: 0, brake: 0, x: 11, y: 12 };
    let readings = InputReadings {
        keys: Some(0),
        joystick: None,
        pedals: Some((1, 2)),
        gear_drive: None,
        gear_reverse: None,
    };
    r.apply_inputs(&readings);
    assert_eq!(r, SteeringReport { buttons: 0x0001_0000, steering: 0, accelerator: 1, brake: 2, x: 11, y: 12 });
}

#[test]
fn roll_sets_steering_only() {
    let mut r = SteeringReport { buttons: 9, steering: 1, accelerator: 2, brake: 3, x: 4, y: 5 };
    r.apply_roll(None);
    assert_eq!(r, SteeringReport { buttons: 9, steering: 1, accelerator: 2, brake: 3, x: 4, y: 5 });
    r.apply_roll(Some(0));
    assert_eq!(r, SteeringReport { buttons: 9, steering: 16383, accelerator: 2, brake: 3, x: 4, y: 5 });
    r.apply_roll(Some(1_000_000));
    assert_eq!(r.steering, 32767);
}
