use wheel_controller::digital::{button_pressed, switch_level_high};
use wheel_controller::transmitter::{
    transmit_cycle, TransmitAction, BLINK_HALF_PERIOD_MS, REPORT_INTERVAL_MS,
};

#[test]
fn connected_cycle_sends() {
    assert_eq!(
        transmit_cycle(true),
        vec![TransmitAction::SendReport, TransmitAction::Wait(REPORT_INTERVAL_MS)]
    );
    assert_eq!(REPORT_INTERVAL_MS, 7);
}

#[test]
fn disconnected_cycles_blink_and_never_send() {
    let mut all = Vec::new();
    for _ in 0..5 {
        all.extend(transmit_cycle(false));
    }
    assert_eq!(all.len(), 20);
    assert!(!all.contains(&TransmitAction::SendReport));
    for (i, a) in all.iter().enumerate() {
        let want = match i % 4 {
            0 => TransmitAction::Indicator(false),
            2 => TransmitAction::Indicator(true),
            _ => TransmitAction::Wait(BLINK_HALF_PERIOD_MS),
        };
        assert_eq!(*a, want);
    }
    assert_eq!(BLINK_HALF_PERIOD_MS, 500);
}

#[test]
fn connection_checked_every_cycle() {
    let links = [false, true, true, false];
    let mut sends = 0;
    for l in links.iter() {
        let plan = transmit_cycle(*l);
        if plan.contains(&TransmitAction::SendReport) {
            sends += 1;
            assert!(*l);
        }
    }
    assert_eq!(sends, 2);
}

#[test]
fn button_levels() {
    assert!(button_pressed(true, false));
    assert!(!button_pressed(false, false));
    assert!(!button_pressed(true, true));
    assert!(button_pressed(false, true));
}

#[test]
fn switch_levels() {
    assert!(switch_level_high(true, false));
    assert!(!switch_level_high(false, false));
    assert!(!switch_level_high(true, true));
    assert!(switch_level_high(false, true));
}
