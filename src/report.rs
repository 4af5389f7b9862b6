//! The shared input report, its little-endian wire layout, and the updates
//! that the producers apply to it each cycle.
use vstd::prelude::*;
use crate::keypad::bit_of;
use crate::orientation::{steering_from_roll, steering_spec};

verus! {

/// Length of the encoded report in bytes.
pub const REPORT_LEN: usize = 14;

/// Button bit of the joystick's push switch.
pub const JOYSTICK_BUTTON_BIT: u32 = 16;

/// Button bit of the forward gear button.
pub const GEAR_DRIVE_BIT: u32 = 17;

/// Button bit of the reverse gear button.
pub const GEAR_REVERSE_BIT: u32 = 18;

/// Whether bit `k` of `s` is set.
pub open spec fn bit32(s: u32, k: int) -> bool {
    (s >> (k as u32)) & 1u32 == 1u32
}

pub open spec fn le16(v: u16) -> Seq<u8> {
    seq![(v % 256) as u8, (v / 256) as u8]
}

pub open spec fn le32(v: u32) -> Seq<u8> {
    seq![(v % 256) as u8, ((v / 256) % 256) as u8, ((v / 65536) % 256) as u8, (v / 16777216) as u8]
}

/// One snapshot of the controller: a button bitmask and five signed axes.
#[derive(Clone, Copy, Debug, PartialEq, Eq, Structural)]
pub struct SteeringReport {
    pub buttons: u32,
    pub steering: i16,
    pub accelerator: i16,
    pub brake: i16,
    pub x: i16,
    pub y: i16,
}

/// The wire layout: buttons, steering, accelerator, brake, x, y, each little
/// endian, packed.
pub open spec fn report_bytes(r: SteeringReport) -> Seq<u8> {
    le32(r.buttons) + le16(r.steering as u16) + le16(r.accelerator as u16) + le16(
        r.brake as u16,
    ) + le16(r.x as u16) + le16(r.y as u16)
}

/// What one input cycle read from each source; `None` where the read failed.
#[derive(Clone, Copy, Debug)]
pub struct InputReadings {
    /// Key-matrix snapshot.
    pub keys: Option<u16>,
    /// Joystick x, y and whether its push switch is pressed.
    pub joystick: Option<(i16, i16, bool)>,
    /// Accelerator and brake.
    pub pedals: Option<(i16, i16)>,
    pub gear_drive: Option<bool>,
    pub gear_reverse: Option<bool>,
}

/// Bit `k` of the combined button mask: each source owns its bits and sets
/// them from its reading; a source whose read failed keeps its bits of
/// `prev`. Bits that no source owns are clear.
pub open spec fn button_bit(
    prev: u32,
    keys: Option<u16>,
    stick: Option<bool>,
    drive: Option<bool>,
    reverse: Option<bool>,
    k: int,
) -> bool {
    if k < 16 {
        match keys {
            Some(s) => bit_of(s, k),
            None => bit32(prev, k),
        }
    } else if k == JOYSTICK_BUTTON_BIT {
        match stick {
            Some(p) => p,
            None => bit32(prev, k),
        }
    } else if k == GEAR_DRIVE_BIT {
        match drive {
            Some(p) => p,
            None => bit32(prev, k),
        }
    } else if k == GEAR_REVERSE_BIT {
        match reverse {
            Some(p) => p,
            None => bit32(prev, k),
        }
    } else {
        false
    }
}

pub open spec fn stick_button(j: Option<(i16, i16, bool)>) -> Option<bool> {
    match j {
        Some(t) => Some(t.2),
        None => None,
    }
}

proof fn lemma_byte_split16(v: u16)
    ensures
        (v & 0xffu16) as u8 == (v % 256) as u8,
        (v >> 8u16) as u8 == (v / 256) as u8,
{
    assert((v & 0xffu16) == v % 256) by (bit_vector);
    assert((v >> 8u16) == v / 256) by (bit_vector);
}

proof fn lemma_byte_split32(v: u32)
    ensures
        (v & 0xffu32) as u8 == (v % 256) as u8,
        ((v >> 8u32) & 0xffu32) as u8 == ((v / 256) % 256) as u8,
        ((v >> 16u32) & 0xffu32) as u8 == ((v / 65536) % 256) as u8,
        (v >> 24u32) as u8 == (v / 16777216) as u8,
{
    assert((v & 0xffu32) == v % 256) by (bit_vector);
    assert(((v >> 8u32) & 0xffu32) == (v / 256) % 256) by (bit_vector);
    assert(((v >> 16u32) & 0xffu32) == (v / 65536) % 256) by (bit_vector);
    assert((v >> 24u32) == v / 16777216) by (bit_vector);
}

fn push_le16(out: &mut Vec<u8>, v: u16)
    ensures
        final(out)@ == old(out)@ + le16(v),
{
    proof {
        lemma_byte_split16(v);
    }
    out.push((v & 0xff) as u8);
    out.push((v >> 8) as u8);
}

fn push_le32(out: &mut Vec<u8>, v: u32)
    ensures
        final(out)@ == old(out)@ + le32(v),
{
    proof {
        lemma_byte_split32(v);
    }
    out.push((v & 0xff) as u8);
    out.push(((v >> 8) & 0xff) as u8);
    out.push(((v >> 16) & 0xff) as u8);
    out.push((v >> 24) as u8);
}

/// `m` with bit `k` set to `on`.
fn assign_bit(m: u32, k: u32, on: bool) -> (r: u32)
    requires
        k < 32,
    ensures
        forall|j: int| 0 <= j < 32 ==> #[trigger] bit32(r, j) == if j == k {
            on
        } else {
            bit32(m, j)
        },
{
    let r: u32 = if on {
        m | (1u32 << k)
    } else {
        m & !(1u32 << k)
    };
    assert forall|j: int| 0 <= j < 32 implies #[trigger] bit32(r, j) == if j == k {
        on
    } else {
        bit32(m, j)
    } by {
        let ju = j as u32;
        if on {
            assert(((m | (1u32 << k)) >> ju) & 1u32 == if ju == k {
                1u32
            } else {
                (m >> ju) & 1u32
            }) by (bit_vector)
                requires
                    k < 32,
                    ju < 32,
            ;
        } else {
            assert(((m & !(1u32 << k)) >> ju) & 1u32 == if ju == k {
                0u32
            } else {
                (m >> ju) & 1u32
            }) by (bit_vector)
                requires
                    k < 32,
                    ju < 32,
            ;
        }
    }
    r
}

/// Combines the digital readings of one input cycle into the button mask;
/// see `button_bit`.
pub fn combine_buttons(
    prev: u32,
    keys: Option<u16>,
    stick: Option<bool>,
    drive: Option<bool>,
    reverse: Option<bool>,
) -> (r: u32)
    ensures
        forall|k: int|
            0 <= k < 32 ==> #[trigger] bit32(r, k) == button_bit(
                prev,
                keys,
                stick,
                drive,
                reverse,
                k,
            ),
{
    let base: u32 = match keys {
        Some(s) => s as u32,
        None => prev & 0xffff,
    };
    assert forall|k: int| 0 <= k < 32 implies #[trigger] bit32(base, k) == (k < 16
        && button_bit(prev, keys, stick, drive, reverse, k)) by {
        let ku = k as u32;
        match keys {
            Some(s) => {
                let ks = k as u16;
                assert(((s as u32) >> ku) & 1u32 == if ku < 16 {
                    ((s >> ks) & 1u16) as u32
                } else {
                    0u32
                }) by (bit_vector)
                    requires
                        ku < 32,
                        ks == ku as u16,
                ;
            },
            None => {
                assert(((prev & 0xffffu32) >> ku) & 1u32 == if ku < 16 {
                    (prev >> ku) & 1u32
                } else {
                    0u32
                }) by (bit_vector)
                    requires
                        ku < 32,
                ;
            },
        }
    }
    let stick_on: bool = match stick {
        Some(p) => p,
        None => (prev >> JOYSTICK_BUTTON_BIT) & 1 == 1,
    };
    let drive_on: bool = match drive {
        Some(p) => p,
        None => (prev >> GEAR_DRIVE_BIT) & 1 == 1,
    };
    let reverse_on: bool = match reverse {
        Some(p) => p,
        None => (prev >> GEAR_REVERSE_BIT) & 1 == 1,
    };
    let m1 = assign_bit(base, JOYSTICK_BUTTON_BIT, stick_on);
    let m2 = assign_bit(m1, GEAR_DRIVE_BIT, drive_on);
    let m3 = assign_bit(m2, GEAR_REVERSE_BIT, reverse_on);
    m3
}

impl SteeringReport {
    /// The report at start-up: every field zero.
    pub fn new() -> (r: SteeringReport)
        ensures
            r == (SteeringReport { buttons: 0, steering: 0, accelerator: 0, brake: 0, x: 0, y: 0 }),
    {
        SteeringReport { buttons: 0, steering: 0, accelerator: 0, brake: 0, x: 0, y: 0 }
    }

    pub fn set_steering(&mut self, value: i16)
        ensures
            *final(self) == (SteeringReport { steering: value, ..*old(self) }),
    {
        self.steering = value;
    }

    pub fn set_pedals(&mut self, accelerator_value: i16, brake_value: i16)
        ensures
            *final(self) == (SteeringReport {
                accelerator: accelerator_value,
                brake: brake_value,
                ..*old(self)
            }),
    {
        self.accelerator = accelerator_value;
        self.brake = brake_value;
    }

    pub fn set_axes(&mut self, x_value: i16, y_value: i16)
        ensures
            *final(self) == (SteeringReport { x: x_value, y: y_value, ..*old(self) }),
    {
        self.x = x_value;
        self.y = y_value;
    }

    pub fn set_buttons(&mut self, buttons: u32)
        ensures
            *final(self) == (SteeringReport { buttons, ..*old(self) }),
    {
        self.buttons = buttons;
    }

    /// The report in its wire layout.
    pub fn to_bytes(&self) -> (r: Vec<u8>)
        ensures
            r@ == report_bytes(*self),
            r@.len() == REPORT_LEN,
    {
        let mut out: Vec<u8> = Vec::new();
        push_le32(&mut out, self.buttons);
        push_le16(&mut out, self.steering as u16);
        push_le16(&mut out, self.accelerator as u16);
        push_le16(&mut out, self.brake as u16);
        push_le16(&mut out, self.x as u16);
        push_le16(&mut out, self.y as u16);
        out
    }

    /// Applies one cycle of the orientation sampler: a roll (millidegrees)
    /// sets the steering axis; without one the report is left as it was.
    pub fn apply_roll(&mut self, roll: Option<i64>)
        ensures
            match roll {
                Some(v) => *final(self) == (SteeringReport {
                    steering: steering_spec(v as int) as i16,
                    ..*old(self)
                }),
                None => *final(self) == *old(self),
            },
    {
        match roll {
            Some(v) => {
                let s = steering_from_roll(v);
                self.steering = s;
            },
            None => {},
        }
    }

    /// Applies one cycle of the input aggregator: every source that was read
    /// updates the fields it owns; a source whose read failed leaves them as
    /// they were. The steering axis is not touched.
    pub fn apply_inputs(&mut self, readings: &InputReadings)
        ensures
            forall|k: int|
                0 <= k < 32 ==> #[trigger] bit32(final(self).buttons, k) == button_bit(
                    old(self).buttons,
                    readings.keys,
                    stick_button(readings.joystick),
                    readings.gear_drive,
                    readings.gear_reverse,
                    k,
                ),
            final(self).steering == old(self).steering,
            match readings.joystick {
                Some(j) => final(self).x == j.0 && final(self).y == j.1,
                None => final(self).x == old(self).x && final(self).y == old(self).y,
            },
            match readings.pedals {
                Some(p) => final(self).accelerator == p.0 && final(self).brake == p.1,
                None => final(self).accelerator == old(self).accelerator && final(self).brake
                    == old(self).brake,
            },
    {
        let stick: Option<bool> = match readings.joystick {
            Some(j) => {
                self.set_axes(j.0, j.1);
                Some(j.2)
            },
            None => None,
        };
        match readings.pedals {
            Some(p) => {
                self.set_pedals(p.0, p.1);
            },
            None => {},
        }
        let buttons = combine_buttons(
            self.buttons,
            readings.keys,
            stick,
            readings.gear_drive,
            readings.gear_reverse,
        );
        self.set_buttons(buttons);
    }
}

} // verus!
