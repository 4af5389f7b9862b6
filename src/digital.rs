//! Levels of the digital pins: push buttons read through pulled inputs, and
//! switched outputs (status indicator, vibration motor).
use vstd::prelude::*;

verus! {

/// Whether a button is pressed, given whether its pin reads low. A plain
/// button pulls its pin up and is pressed when the pin reads low; an
/// inverted one pulls it down and is pressed when the pin reads high.
pub fn button_pressed(pin_low: bool, invert: bool) -> (r: bool)
    ensures
        r == (pin_low != invert),
{
    if invert {
        !pin_low
    } else {
        pin_low
    }
}

/// Whether a switch's pin is driven high to put it in state `on`: high for
/// on, unless the switch is inverted.
pub fn switch_level_high(on: bool, invert: bool) -> (r: bool)
    ensures
        r == (on != invert),
{
    if invert {
        !on
    } else {
        on
    }
}

} // verus!
