//! Control logic of a motion-sensing wheel controller: roll unwrapping and
//! steering scaling, analog calibration, key-matrix scanning, the shared
//! input report with its wire layout, input aggregation and the transmit
//! schedule.
pub mod analog;
pub mod digital;
pub mod keypad;
pub mod orientation;
pub mod report;
pub mod transmitter;
