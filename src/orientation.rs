//! Roll unwrapping and scaling of the roll angle into the steering axis.
//!
//! Angles are held in millidegrees. The raw roll angle (computed from the
//! orientation quaternion) lies within half a turn either way; the tracker turns the
//! sequence of raw angles into a continuous, unbounded roll.
use vstd::prelude::*;
use vstd::arithmetic::div_mod::{lemma_mod_add_multiples_vanish, lemma_mod_sub_multiples_vanish};

verus! {

/// One full turn, in millidegrees.
pub const FULL_TURN: i64 = 360000;

/// Half a turn, in millidegrees.
pub const HALF_TURN: i64 = 180000;

/// Bound on the magnitude of the running roll, in millidegrees. The running
/// roll saturates there, far beyond any physical rotation.
pub const ROLL_LIMIT: i64 = 4611686018427387904;

/// Total rotation of the steering wheel, in whole degrees.
pub const STEERING_ROTATION_ANGLE: i64 = 900;

/// Steering axis value at full left lock.
pub const STEERING_MIN: i16 = 0;

/// Steering axis value at full right lock.
pub const STEERING_MAX: i16 = 32767;

/// Folds the difference of two raw angles into `[-HALF_TURN, HALF_TURN]`.
pub open spec fn fold_delta(d: int) -> int {
    if d > HALF_TURN {
        d - FULL_TURN
    } else if d < -HALF_TURN {
        d + FULL_TURN
    } else {
        d
    }
}

pub open spec fn saturate_roll(r: int) -> int {
    if r > ROLL_LIMIT {
        ROLL_LIMIT as int
    } else if r < -ROLL_LIMIT {
        -ROLL_LIMIT
    } else {
        r
    }
}

/// The running roll after a raw angle `raw` follows the raw angle `last_raw`.
pub open spec fn unwrap_step(roll: int, last_raw: int, raw: int) -> int {
    saturate_roll(roll + fold_delta(raw - last_raw))
}

pub open spec fn raw_angle_in_range(raw: int) -> bool {
    -HALF_TURN <= raw <= HALF_TURN
}

/// Keeps the running (unbounded) roll continuous while the raw angle wraps
/// past half a turn.
pub struct RollTracker {
    roll: i64,
    last_raw: i32,
}

impl RollTracker {
    pub closed spec fn spec_roll(&self) -> int {
        self.roll as int
    }

    pub closed spec fn spec_last_raw(&self) -> int {
        self.last_raw as int
    }

    pub closed spec fn wf(&self) -> bool {
        &&& -ROLL_LIMIT <= self.roll <= ROLL_LIMIT
        &&& raw_angle_in_range(self.last_raw as int)
    }

    /// A tracker at roll zero, whose reference raw angle is zero.
    pub fn new() -> (r: RollTracker)
        ensures
            r.wf(),
            r.spec_roll() == 0,
            r.spec_last_raw() == 0,
    {
        RollTracker { roll: 0, last_raw: 0 }
    }

    /// The running roll, in millidegrees.
    pub fn roll(&self) -> (r: i64)
        ensures
            r == self.spec_roll(),
    {
        self.roll
    }

    /// Takes the next raw angle (millidegrees, within half a turn either
    /// way), adds the folded difference from the previous raw angle to the
    /// running roll and returns the new running roll.
    pub fn update(&mut self, raw: i32) -> (r: i64)
        requires
            old(self).wf(),
            raw_angle_in_range(raw as int),
        ensures
            final(self).wf(),
            r == final(self).spec_roll(),
            final(self).spec_roll() == unwrap_step(
                old(self).spec_roll(),
                old(self).spec_last_raw(),
                raw as int,
            ),
            final(self).spec_last_raw() == raw,
            (old(self).spec_roll() - old(self).spec_last_raw()) % (FULL_TURN as int) == 0
                && -ROLL_LIMIT <= old(self).spec_roll() + fold_delta(
                raw - old(self).spec_last_raw(),
            ) <= ROLL_LIMIT ==> (final(self).spec_roll() - raw) % (FULL_TURN as int) == 0,
    {
        let d: i64 = raw as i64 - self.last_raw as i64;
        let delta: i64 = if d > HALF_TURN {
            d - FULL_TURN
        } else if d < -HALF_TURN {
            d + FULL_TURN
        } else {
            d
        };
        let next: i64 = if delta > 0 && self.roll > ROLL_LIMIT - delta {
            ROLL_LIMIT
        } else if delta < 0 && self.roll < -ROLL_LIMIT - delta {
            -ROLL_LIMIT
        } else {
            self.roll + delta
        };
        proof {
            let a = self.roll - self.last_raw;
            if d > HALF_TURN {
                lemma_mod_sub_multiples_vanish(a, FULL_TURN as int);
                assert(next - raw == -(FULL_TURN as int) + a || next == ROLL_LIMIT || next
                    == -ROLL_LIMIT);
            } else if d < -HALF_TURN {
                lemma_mod_add_multiples_vanish(a, FULL_TURN as int);
                assert(next - raw == (FULL_TURN as int) + a || next == ROLL_LIMIT || next
                    == -ROLL_LIMIT);
            }
        }
        self.roll = next;
        self.last_raw = raw;
        next
    }
}

pub open spec fn abs(x: int) -> int {
    if x < 0 {
        -x
    } else {
        x
    }
}

/// Continuity of the unwrapped roll: away from saturation, one update moves
/// the running roll by the difference of the two raw angles taken modulo a
/// full turn, by no more than half a turn, and by no more than the raw
/// difference shifted by any whole number of turns.
pub proof fn lemma_roll_continuity(roll: int, last_raw: int, raw: int)
    requires
        raw_angle_in_range(last_raw),
        raw_angle_in_range(raw),
        -ROLL_LIMIT + HALF_TURN <= roll <= ROLL_LIMIT - HALF_TURN,
    ensures
        -HALF_TURN <= unwrap_step(roll, last_raw, raw) - roll <= HALF_TURN,
        (unwrap_step(roll, last_raw, raw) - roll - (raw - last_raw)) % (FULL_TURN as int) == 0,
        forall|k: int|
            abs(unwrap_step(roll, last_raw, raw) - roll) <= #[trigger] abs(
                raw - last_raw + k * (FULL_TURN as int),
            ),
{
    let d = raw - last_raw;
    let step = unwrap_step(roll, last_raw, raw) - roll;
    assert(step == fold_delta(d));
    assert((step - d) % (FULL_TURN as int) == 0);
    assert forall|k: int| abs(step) <= #[trigger] abs(d + k * (FULL_TURN as int)) by {
        if k >= 1 {
            assert(k * (FULL_TURN as int) >= FULL_TURN) by (nonlinear_arith)
                requires
                    k >= 1,
            ;
        } else if k <= -1 {
            assert(k * (FULL_TURN as int) <= -FULL_TURN) by (nonlinear_arith)
                requires
                    k <= -1,
            ;
        } else {
            assert(k == 0);
        }
    }
}

/// Steering axis value for a running roll in millidegrees: the roll is
/// clamped to half the steering rotation either way, then scaled linearly
/// onto `[STEERING_MIN, STEERING_MAX]`, rounding down.
pub open spec fn steering_spec(roll: int) -> int {
    let half = STEERING_ROTATION_ANGLE * 500;
    let clamped = if roll < -half {
        -half
    } else if roll > half {
        half
    } else {
        roll
    };
    STEERING_MIN + (clamped + half) * (STEERING_MAX - STEERING_MIN) / (STEERING_ROTATION_ANGLE
        * 1000)
}

/// Maps the running roll onto the steering axis of the report.
pub fn steering_from_roll(roll: i64) -> (r: i16)
    ensures
        r == steering_spec(roll as int),
        STEERING_MIN <= r <= STEERING_MAX,
{
    let half: i64 = STEERING_ROTATION_ANGLE * 500;
    let clamped: i64 = if roll < -half {
        -half
    } else if roll > half {
        half
    } else {
        roll
    };
    let span: i64 = (STEERING_MAX - STEERING_MIN) as i64;
    let turn: i64 = STEERING_ROTATION_ANGLE * 1000;
    let shifted: i64 = clamped + half;
    assert(0 <= shifted * span <= turn * span) by (nonlinear_arith)
        requires
            0 <= shifted <= turn,
            span == 32767,
    ;
    let scaled: i64 = ((shifted * span) as u64 / turn as u64) as i64;
    assert(scaled <= span) by (nonlinear_arith)
        requires
            scaled as int == (shifted as int * span as int) / (turn as int),
            0 <= shifted <= turn,
            span > 0,
            turn > 0,
    ;
    (STEERING_MIN as i64 + scaled) as i16
}

} // verus!
