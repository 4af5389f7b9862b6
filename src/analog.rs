//! Calibration of the analog inputs: the two joystick axes and the two
//! pedals. Each maps a raw converter reading onto a signed output range by
//! piecewise-linear interpolation. Values are computed exactly over the
//! rationals; the final value is rounded toward zero.
use vstd::prelude::*;
use vstd::arithmetic::div_mod::{
    lemma_div_is_ordered,
    lemma_div_pos_is_pos,
    lemma_div_multiples_vanish,
    lemma_div_denominator,
    lemma_div_nonincreasing,
};

verus! {

/// Raw reading at the low end of a joystick axis (about 0.2 V).
pub const JOYSTICK_INPUT_MIN: u16 = 200;

/// Raw reading at the high end of a joystick axis (about 3.1 V).
pub const JOYSTICK_INPUT_MAX: u16 = 3100;

/// Raw pedal reading at rest, before the deadzone is added (about 0.15 V).
pub const PEDAL_INPUT_FLOOR: u16 = 150;

/// Raw pedal reading when fully pressed (about 2.45 V).
pub const PEDAL_INPUT_MAX: u16 = 2450;

/// `n / d` rounded toward zero, for `d > 0`.
pub open spec fn trunc_div(n: int, d: int) -> int {
    if n >= 0 {
        n / d
    } else {
        -((-n) / d)
    }
}

pub open spec fn clamp(v: int, lo: int, hi: int) -> int {
    if v < lo {
        lo
    } else if v > hi {
        hi
    } else {
        v
    }
}

proof fn lemma_trunc_div_monotonic(a: int, b: int, d: int)
    requires
        a <= b,
        d > 0,
    ensures
        trunc_div(a, d) <= trunc_div(b, d),
{
    if a >= 0 {
        lemma_div_is_ordered(a, b, d);
    } else if b >= 0 {
        lemma_div_pos_is_pos(-a, d);
        lemma_div_pos_is_pos(b, d);
    } else {
        lemma_div_is_ordered(-b, -a, d);
    }
}

proof fn lemma_trunc_div_multiple(x: int, d: int)
    requires
        d > 0,
    ensures
        trunc_div(d * x, d) == x,
{
    if x >= 0 {
        assert(d * x >= 0) by (nonlinear_arith)
            requires
                d > 0,
                x >= 0,
        ;
        lemma_div_multiples_vanish(x, d);
    } else {
        assert(d * x < 0 && -(d * x) == d * (-x)) by (nonlinear_arith)
            requires
                d > 0,
                x < 0,
        ;
        lemma_div_multiples_vanish(-x, d);
    }
}

/// Halving cancels a common positive factor: `(h * s) / (2 * h)` rounds as
/// `s / 2` does.
proof fn lemma_trunc_div_cancel(s: int, h: int)
    requires
        h > 0,
    ensures
        trunc_div(h * s, 2 * h) == trunc_div(s, 2),
{
    if s >= 0 {
        assert(h * s >= 0) by (nonlinear_arith)
            requires
                h > 0,
                s >= 0,
        ;
        lemma_div_denominator(h * s, h, 2);
        lemma_div_multiples_vanish(s, h);
        assert(h * 2 == 2 * h);
    } else {
        assert(h * s < 0 && -(h * s) == h * (-s)) by (nonlinear_arith)
            requires
                h > 0,
                s < 0,
        ;
        lemma_div_denominator(h * (-s), h, 2);
        lemma_div_multiples_vanish(-s, h);
        assert(h * 2 == 2 * h);
    }
}

fn trunc_div_exec(n: i64, d: i64) -> (r: i64)
    requires
        d > 0,
        n > i64::MIN,
    ensures
        r == trunc_div(n as int, d as int),
{
    if n >= 0 {
        proof {
            lemma_div_nonincreasing(n as int, d as int);
        }
        ((n as u64) / (d as u64)) as i64
    } else {
        proof {
            lemma_div_nonincreasing(-n as int, d as int);
            lemma_div_pos_is_pos(-n as int, d as int);
        }
        let q: i64 = ((-n) as u64 / d as u64) as i64;
        -q
    }
}

/// The calibrated extent of one joystick axis, in raw converter units: the
/// low end, the measured rest position and the high end. The rest position
/// may lie anywhere, also outside `[min, max]`.
#[derive(Clone, Copy, Debug, PartialEq, Eq, Structural)]
pub struct AxisRange {
    pub min: u16,
    pub mid: u16,
    pub max: u16,
}

impl AxisRange {
    /// Signed length of the segment that holds `raw`: from the rest position
    /// to `max` for readings above the rest position, from `min` to the rest
    /// position for the others. It is negative where the rest position lies
    /// beyond that end.
    pub open spec fn span(&self, raw: int) -> int {
        if raw > self.mid {
            self.max - self.mid
        } else {
            self.mid - self.min
        }
    }

    /// Half the denominator of the interpolated value of `raw`: the length
    /// of its segment, or 1 for a segment of zero length.
    pub open spec fn segment(&self, raw: int) -> int {
        let s = self.span(raw);
        if s == 0 {
            1
        } else {
            abs_int(s)
        }
    }

    /// Numerator of the interpolated value of `raw`, whose denominator is
    /// `2 * segment(raw)`. Above the rest position the value runs linearly
    /// from the output midpoint (at `mid`) to `omax` (at `max`); at or below
    /// it, from `omin` (at `min`) to the output midpoint (at `mid`). The
    /// lines extend beyond their ends, and run downward over a segment of
    /// negative length. A segment of zero length gives its end value: `omax`
    /// above the rest position, `omin` below it, and the output midpoint at
    /// the rest position itself.
    pub open spec fn numerator(&self, omin: int, omax: int, raw: int) -> int {
        let s = self.span(raw);
        let h = self.segment(raw);
        let w = omax - omin;
        if raw > self.mid {
            if s == 0 {
                2 * omax
            } else if s > 0 {
                (raw - self.mid) * w + h * (omax + omin)
            } else {
                -((raw - self.mid) * w) + h * (omax + omin)
            }
        } else {
            if s == 0 {
                if raw == self.mid {
                    omax + omin
                } else {
                    2 * omin
                }
            } else if s > 0 {
                (raw - self.min) * w + 2 * h * omin
            } else {
                -((raw - self.min) * w) + 2 * h * omin
            }
        }
    }
}

/// Whether the interpolated value `n / (2 * h)` lies strictly within
/// `deadzone` of the output midpoint `(omin + omax) / 2`.
pub open spec fn in_deadzone(n: int, h: int, omin: int, omax: int, deadzone: int) -> bool {
    abs_int(n - h * (omax + omin)) < 2 * h * deadzone
}

pub open spec fn abs_int(x: int) -> int {
    if x < 0 {
        -x
    } else {
        x
    }
}

/// What follows the interpolation: snap a value `n / (2 * h)` within the
/// deadzone to the output midpoint, clamp to the output range, round toward
/// zero.
pub open spec fn finish_output(n: int, h: int, deadzone: int, omin: int, omax: int) -> int {
    let snapped = if in_deadzone(n, h, omin, omax, deadzone) {
        h * (omax + omin)
    } else {
        n
    };
    trunc_div(clamp(snapped, 2 * h * omin, 2 * h * omax), 2 * h)
}

/// The joystick output for a raw reading: interpolate, snap values within
/// the deadzone to the output midpoint, clamp to the output range, round
/// toward zero.
pub open spec fn axis_output(a: AxisRange, deadzone: int, omin: int, omax: int, raw: int) -> int {
    finish_output(a.numerator(omin, omax, raw), a.segment(raw), deadzone, omin, omax)
}

proof fn lemma_finish_within_outputs(n: int, h: int, deadzone: int, omin: int, omax: int)
    requires
        h > 0,
        omin <= omax,
    ensures
        omin <= finish_output(n, h, deadzone, omin, omax) <= omax,
{
    assert(2 * h * omin <= 2 * h * omax) by (nonlinear_arith)
        requires
            h > 0,
            omin <= omax,
    ;
    let snapped = if in_deadzone(n, h, omin, omax, deadzone) {
        h * (omax + omin)
    } else {
        n
    };
    let c = clamp(snapped, 2 * h * omin, 2 * h * omax);
    lemma_trunc_div_monotonic(2 * h * omin, c, 2 * h);
    lemma_trunc_div_monotonic(c, 2 * h * omax, 2 * h);
    lemma_trunc_div_multiple(omin, 2 * h);
    lemma_trunc_div_multiple(omax, 2 * h);
}

proof fn lemma_finish_monotonic(n1: int, n2: int, h: int, deadzone: int, omin: int, omax: int)
    requires
        h > 0,
        omin <= omax,
        n1 <= n2,
    ensures
        finish_output(n1, h, deadzone, omin, omax) <= finish_output(n2, h, deadzone, omin, omax),
{
    let m = h * (omax + omin);
    let s1 = if in_deadzone(n1, h, omin, omax, deadzone) {
        m
    } else {
        n1
    };
    let s2 = if in_deadzone(n2, h, omin, omax, deadzone) {
        m
    } else {
        n2
    };
    assert(s1 <= s2);
    assert(2 * h * omin <= 2 * h * omax) by (nonlinear_arith)
        requires
            h > 0,
            omin <= omax,
    ;
    let c1 = clamp(s1, 2 * h * omin, 2 * h * omax);
    let c2 = clamp(s2, 2 * h * omin, 2 * h * omax);
    assert(c1 <= c2);
    lemma_trunc_div_monotonic(c1, c2, 2 * h);
}

/// A value `n / (2 * h)` at or beyond an end of the output range, by at
/// least the deadzone's width from the midpoint, gives that end.
proof fn lemma_finish_at_ends(n: int, h: int, deadzone: int, omin: int, omax: int)
    requires
        h > 0,
        omin <= omax,
        0 <= deadzone,
        2 * deadzone <= omax - omin,
    ensures
        n <= 2 * h * omin ==> finish_output(n, h, deadzone, omin, omax) == omin,
        n >= 2 * h * omax ==> finish_output(n, h, deadzone, omin, omax) == omax,
{
    let w = omax - omin;
    assert(2 * h * omin <= 2 * h * omax && h * (omax + omin) - 2 * h * omin == h * w && 2 * h
        * omax - h * (omax + omin) == h * w && 2 * h * deadzone <= h * w) by (nonlinear_arith)
        requires
            h > 0,
            omin <= omax,
            w == omax - omin,
            0 <= deadzone,
            2 * deadzone <= w,
    ;
    if n <= 2 * h * omin {
        assert(!in_deadzone(n, h, omin, omax, deadzone));
        assert(clamp(n, 2 * h * omin, 2 * h * omax) == 2 * h * omin);
        lemma_trunc_div_multiple(omin, 2 * h);
    }
    if n >= 2 * h * omax {
        assert(!in_deadzone(n, h, omin, omax, deadzone));
        assert(clamp(n, 2 * h * omin, 2 * h * omax) == 2 * h * omax);
        lemma_trunc_div_multiple(omax, 2 * h);
    }
}

/// A joystick axis is monotonic within each linear segment: of two raw
/// readings both at or below the rest position, or both above it, the
/// larger never maps to the smaller output over a segment of non-negative
/// length, and never to the larger output over one of negative length.
pub proof fn lemma_axis_monotonic_in_segment(
    a: AxisRange,
    deadzone: int,
    omin: int,
    omax: int,
    r1: int,
    r2: int,
)
    requires
        omin <= omax,
        r1 <= r2,
        r2 <= a.mid || r1 > a.mid,
    ensures
        a.span(r1) >= 0 ==> axis_output(a, deadzone, omin, omax, r1) <= axis_output(
            a,
            deadzone,
            omin,
            omax,
            r2,
        ),
        a.span(r1) < 0 ==> axis_output(a, deadzone, omin, omax, r1) >= axis_output(
            a,
            deadzone,
            omin,
            omax,
            r2,
        ),
{
    let s = a.span(r1);
    let h = a.segment(r1);
    assert(s == a.span(r2) && h == a.segment(r2));
    let w = omax - omin;
    let base = if r1 > a.mid {
        a.mid as int
    } else {
        a.min as int
    };
    assert((r1 - base) * w <= (r2 - base) * w) by (nonlinear_arith)
        requires
            r1 <= r2,
            w >= 0,
    ;
    let n1 = a.numerator(omin, omax, r1);
    let n2 = a.numerator(omin, omax, r2);
    if s >= 0 {
        assert(n1 <= n2);
        lemma_finish_monotonic(n1, n2, h, deadzone, omin, omax);
    } else {
        assert(n2 <= n1);
        lemma_finish_monotonic(n2, n1, h, deadzone, omin, omax);
    }
}

/// A joystick axis always lands in `[omin, omax]`. Where the deadzone is at
/// most half the output range, a reading at or below the low end and below
/// the rest position gives `omin` when the rest position is not below the
/// low end, and a reading at or above the high end and above the rest
/// position gives `omax` when the rest position is not above the high end.
pub proof fn lemma_axis_clamped(a: AxisRange, deadzone: int, omin: int, omax: int, raw: int)
    requires
        omin <= omax,
        0 <= deadzone,
    ensures
        omin <= axis_output(a, deadzone, omin, omax, raw) <= omax,
        a.min <= a.mid && raw <= a.min && raw < a.mid && 2 * deadzone <= omax - omin
            ==> axis_output(a, deadzone, omin, omax, raw) == omin,
        a.mid <= a.max && raw >= a.max && raw > a.mid && 2 * deadzone <= omax - omin
            ==> axis_output(a, deadzone, omin, omax, raw) == omax,
{
    let h = a.segment(raw);
    let n = a.numerator(omin, omax, raw);
    let w = omax - omin;
    lemma_finish_within_outputs(n, h, deadzone, omin, omax);
    if a.min <= a.mid && raw <= a.min && raw < a.mid && 2 * deadzone <= w {
        assert((raw - a.min) * w <= 0) by (nonlinear_arith)
            requires
                raw <= a.min,
                w >= 0,
        ;
        assert(n <= 2 * h * omin);
        lemma_finish_at_ends(n, h, deadzone, omin, omax);
    }
    if a.mid <= a.max && raw >= a.max && raw > a.mid && 2 * deadzone <= w {
        assert((raw - a.max) * w >= 0) by (nonlinear_arith)
            requires
                raw >= a.max,
                w >= 0,
        ;
        if a.max > a.mid {
            assert((raw - a.mid) * w == (raw - a.max) * w + h * w && h * (omax + omin) + h * w
                == 2 * h * omax) by (nonlinear_arith)
                requires
                    h == a.max - a.mid,
                    w == omax - omin,
            ;
        }
        assert(n >= 2 * h * omax);
        lemma_finish_at_ends(n, h, deadzone, omin, omax);
    }
}

/// Deadzone: a joystick reading whose interpolated value lies within the
/// deadzone of the output midpoint gives the output midpoint, rounded toward
/// zero.
pub proof fn lemma_axis_deadzone(a: AxisRange, deadzone: int, omin: int, omax: int, raw: int)
    requires
        omin <= omax,
        in_deadzone(a.numerator(omin, omax, raw), a.segment(raw), omin, omax, deadzone),
    ensures
        axis_output(a, deadzone, omin, omax, raw) == trunc_div(omin + omax, 2),
{
    let h = a.segment(raw);
    assert(2 * h * omin <= h * (omax + omin) <= 2 * h * omax) by (nonlinear_arith)
        requires
            h > 0,
            omin <= omax,
    ;
    lemma_trunc_div_cancel(omax + omin, h);
    assert(omax + omin == omin + omax);
}

/// A pedal is monotonic over its whole input, and clamps: every reading at
/// or below the calibrated minimum gives `omin`, every reading at or above
/// the calibrated maximum gives `omax`.
pub proof fn lemma_pedal_monotonic_and_clamped(c: PedalCalibration, r1: int, r2: int)
    requires
        c.wf(),
    ensures
        c.output_min <= c.output_max && r1 <= r2 ==> c.output(r1) <= c.output(r2),
        r1 <= c.input_min ==> c.output(r1) == c.output_min,
        r1 >= c.input_max ==> c.output(r1) == c.output_max,
{
    let imin = c.input_min as int;
    let imax = c.input_max as int;
    let omin = c.output_min as int;
    let omax = c.output_max as int;
    let len = imax - imin;
    let w = omax - omin;
    if omin <= omax && r1 <= r2 {
        let t1 = clamp(r1, imin, imax) - imin;
        let t2 = clamp(r2, imin, imax) - imin;
        assert(t1 * w <= t2 * w) by (nonlinear_arith)
            requires
                t1 <= t2,
                w >= 0,
        ;
        lemma_trunc_div_monotonic(omin * len + t1 * w, omin * len + t2 * w, len);
    }
    if r1 <= imin {
        assert(clamp(r1, imin, imax) - imin == 0);
        assert(len * omin == omin * len + 0 * w) by (nonlinear_arith);
        lemma_trunc_div_multiple(omin, len);
    }
    if r1 >= imax {
        assert(len * omax == omin * len + len * w) by (nonlinear_arith)
            requires
                w == omax - omin,
        ;
        lemma_trunc_div_multiple(omax, len);
    }
}

/// Calibration of a two-axis joystick.
#[derive(Clone, Copy, Debug, PartialEq, Eq, Structural)]
pub struct JoystickCalibration {
    pub x: AxisRange,
    pub y: AxisRange,
    pub deadzone: u16,
    pub output_min: i16,
    pub output_max: i16,
}

impl JoystickCalibration {
    pub open spec fn wf(&self) -> bool {
        self.output_min <= self.output_max
    }

    pub open spec fn x_output(&self, raw: int) -> int {
        axis_output(self.x, self.deadzone as int, self.output_min as int, self.output_max as int, raw)
    }

    pub open spec fn y_output(&self, raw: int) -> int {
        axis_output(self.y, self.deadzone as int, self.output_min as int, self.output_max as int, raw)
    }

    /// A calibration whose axes run from `JOYSTICK_INPUT_MIN` through the
    /// measured rest positions `x_mid`, `y_mid` to `JOYSTICK_INPUT_MAX`.
    /// Any rest position is taken. `None` when the output range is empty.
    pub fn new(x_mid: u16, y_mid: u16, deadzone: u16, output_min: i16, output_max: i16) -> (r:
        Option<JoystickCalibration>)
        ensures
            r is Some <==> output_min <= output_max,
            r matches Some(c) ==> {
                &&& c.wf()
                &&& c.x == (AxisRange {
                    min: JOYSTICK_INPUT_MIN,
                    mid: x_mid,
                    max: JOYSTICK_INPUT_MAX,
                })
                &&& c.y == (AxisRange {
                    min: JOYSTICK_INPUT_MIN,
                    mid: y_mid,
                    max: JOYSTICK_INPUT_MAX,
                })
                &&& c.deadzone == deadzone
                &&& c.output_min == output_min
                &&& c.output_max == output_max
            },
    {
        if output_min <= output_max {
            Some(
                JoystickCalibration {
                    x: AxisRange { min: JOYSTICK_INPUT_MIN, mid: x_mid, max: JOYSTICK_INPUT_MAX },
                    y: AxisRange { min: JOYSTICK_INPUT_MIN, mid: y_mid, max: JOYSTICK_INPUT_MAX },
                    deadzone,
                    output_min,
                    output_max,
                },
            )
        } else {
            None
        }
    }

    /// Maps raw readings of both axes to output values.
    pub fn map(&self, x_raw: u16, y_raw: u16) -> (r: (i16, i16))
        requires
            self.wf(),
        ensures
            r.0 == self.x_output(x_raw as int),
            r.1 == self.y_output(y_raw as int),
    {
        let x = map_axis(self.x, self.deadzone, self.output_min, self.output_max, x_raw);
        let y = map_axis(self.y, self.deadzone, self.output_min, self.output_max, y_raw);
        (x, y)
    }
}

/// Half the denominator and the numerator of the interpolated value of
/// `raw` over a segment of signed length `span` that starts at `start`;
/// `low_half` says whether the segment ends at `omin`.
fn interpolate(
    span: i64,
    start: i64,
    raw: i64,
    at_rest: bool,
    low_half: bool,
    lo: i64,
    hi: i64,
) -> (r: (i64, i64))
    requires
        -65536 <= span <= 65536,
        -65536 <= start <= 65536,
        0 <= raw <= 65536,
        -32768 <= lo <= hi <= 32767,
    ensures
        r.0 == (if span == 0 {
            1
        } else {
            abs_int(span as int)
        }),
        r.1 == (if low_half {
            if span == 0 {
                if at_rest {
                    hi + lo
                } else {
                    2 * lo
                }
            } else if span > 0 {
                (raw - start) * (hi - lo) + 2 * r.0 * lo
            } else {
                -((raw - start) * (hi - lo)) + 2 * r.0 * lo
            }
        } else {
            if span == 0 {
                2 * hi
            } else if span > 0 {
                (raw - start) * (hi - lo) + r.0 * (hi + lo)
            } else {
                -((raw - start) * (hi - lo)) + r.0 * (hi + lo)
            }
        }),
        0 < r.0 <= 65536,
        -4 * 65536 * 65536 <= r.1 <= 4 * 65536 * 65536,
{
    if span == 0 {
        if low_half {
            if at_rest {
                (1, hi + lo)
            } else {
                (1, 2 * lo)
            }
        } else {
            (1, 2 * hi)
        }
    } else {
        let h: i64 = if span < 0 {
            -span
        } else {
            span
        };
        let off: i64 = raw - start;
        let width: i64 = hi - lo;
        assert(-2 * 65536 * 65536 <= off * width <= 2 * 65536 * 65536) by (nonlinear_arith)
            requires
                -2 * 65536 <= off <= 2 * 65536,
                0 <= width <= 65536,
        ;
        assert(-2 * 65536 * 65536 <= 2 * h * lo <= 2 * 65536 * 65536 && -65536 * 65536 <= h * (
        hi + lo) <= 65536 * 65536) by (nonlinear_arith)
            requires
                0 < h <= 65536,
                -32768 <= lo <= hi <= 32767,
        ;
        let p: i64 = if span > 0 {
            off * width
        } else {
            -(off * width)
        };
        if low_half {
            (h, p + 2 * h * lo)
        } else {
            (h, p + h * (hi + lo))
        }
    }
}

/// Maps one raw joystick reading onto `[omin, omax]`.
pub fn map_axis(a: AxisRange, deadzone: u16, omin: i16, omax: i16, raw: u16) -> (r: i16)
    requires
        omin <= omax,
    ensures
        r == axis_output(a, deadzone as int, omin as int, omax as int, raw as int),
{
    let lo: i64 = omin as i64;
    let hi: i64 = omax as i64;
    let sum: i64 = hi + lo;
    let (h, n): (i64, i64) = if raw > a.mid {
        interpolate(a.max as i64 - a.mid as i64, a.mid as i64, raw as i64, false, false, lo, hi)
    } else {
        interpolate(
            a.mid as i64 - a.min as i64,
            a.min as i64,
            raw as i64,
            raw == a.mid,
            true,
            lo,
            hi,
        )
    };
    assert(h == a.segment(raw as int) && n == a.numerator(omin as int, omax as int, raw as int));
    assert(-65536 * 65536 <= h * sum <= 65536 * 65536) by (nonlinear_arith)
        requires
            0 < h <= 65536,
            -65536 <= sum <= 65536,
    ;
    assert(0 <= 2 * h * (deadzone as i64) <= 2 * 65536 * 65536) by (nonlinear_arith)
        requires
            0 < h <= 65536,
            0 <= deadzone <= 65536,
    ;
    assert(-2 * 65536 * 65536 <= 2 * h * lo <= 2 * h * hi <= 2 * 65536 * 65536)
        by (nonlinear_arith)
        requires
            0 < h <= 65536,
            -65536 <= lo <= hi <= 65536,
    ;
    let mid_n: i64 = h * sum;
    let diff: i64 = n - mid_n;
    let dist: i64 = if diff < 0 {
        -diff
    } else {
        diff
    };
    let snapped: i64 = if dist < 2 * h * (deadzone as i64) {
        mid_n
    } else {
        n
    };
    let low_n: i64 = 2 * h * lo;
    let high_n: i64 = 2 * h * hi;
    let clamped: i64 = if snapped < low_n {
        low_n
    } else if snapped > high_n {
        high_n
    } else {
        snapped
    };
    let v: i64 = trunc_div_exec(clamped, 2 * h);
    proof {
        lemma_finish_within_outputs(n as int, h as int, deadzone as int, lo as int, hi as int);
    }
    v as i16
}

/// Output of a pedal for a raw reading: clamp the reading to
/// `[input_min, input_max]`, interpolate linearly from `omin` to `omax`,
/// round toward zero.
pub open spec fn pedal_output(imin: int, imax: int, omin: int, omax: int, raw: int) -> int {
    let len = imax - imin;
    trunc_div(omin * len + (clamp(raw, imin, imax) - imin) * (omax - omin), len)
}

/// Calibration shared by the accelerator and brake pedals.
#[derive(Clone, Copy, Debug, PartialEq, Eq, Structural)]
pub struct PedalCalibration {
    pub input_min: u16,
    pub input_max: u16,
    pub output_min: i16,
    pub output_max: i16,
}

impl PedalCalibration {
    pub open spec fn wf(&self) -> bool {
        self.input_min < self.input_max
    }

    pub open spec fn output(&self, raw: int) -> int {
        pedal_output(
            self.input_min as int,
            self.input_max as int,
            self.output_min as int,
            self.output_max as int,
            raw,
        )
    }

    /// A calibration whose input range starts `deadzone` above
    /// `PEDAL_INPUT_FLOOR` and ends at `PEDAL_INPUT_MAX`. `None` when that
    /// range would be empty.
    pub fn new(deadzone: u16, output_min: i16, output_max: i16) -> (r: Option<PedalCalibration>)
        ensures
            r is Some <==> PEDAL_INPUT_FLOOR + deadzone < PEDAL_INPUT_MAX,
            r matches Some(c) ==> {
                &&& c.wf()
                &&& c.input_min == PEDAL_INPUT_FLOOR + deadzone
                &&& c.input_max == PEDAL_INPUT_MAX
                &&& c.output_min == output_min
                &&& c.output_max == output_max
            },
    {
        if deadzone < PEDAL_INPUT_MAX - PEDAL_INPUT_FLOOR {
            Some(
                PedalCalibration {
                    input_min: PEDAL_INPUT_FLOOR + deadzone,
                    input_max: PEDAL_INPUT_MAX,
                    output_min,
                    output_max,
                },
            )
        } else {
            None
        }
    }

    /// Maps the raw accelerator and brake readings to output values.
    pub fn map(&self, accelerator_raw: u16, brake_raw: u16) -> (r: (i16, i16))
        requires
            self.wf(),
        ensures
            r.0 == self.output(accelerator_raw as int),
            r.1 == self.output(brake_raw as int),
    {
        (self.map_one(accelerator_raw), self.map_one(brake_raw))
    }

    /// Maps one raw pedal reading.
    pub fn map_one(&self, raw: u16) -> (r: i16)
        requires
            self.wf(),
        ensures
            r == self.output(raw as int),
    {
        let imin: i64 = self.input_min as i64;
        let imax: i64 = self.input_max as i64;
        let lo: i64 = self.output_min as i64;
        let hi: i64 = self.output_max as i64;
        let c: i64 = if (raw as i64) < imin {
            imin
        } else if (raw as i64) > imax {
            imax
        } else {
            raw as i64
        };
        let len: i64 = imax - imin;
        let t: i64 = c - imin;
        let w: i64 = hi - lo;
        assert(-65536 * 65536 <= lo * len <= 65536 * 65536 && -2 * 65536 * 65536 <= t * w <= 2
            * 65536 * 65536) by (nonlinear_arith)
            requires
                0 < len <= 65536,
                0 <= t <= len,
                -65536 <= lo <= 65536,
                -2 * 65536 <= w <= 2 * 65536,
        ;
        let n: i64 = lo * len + t * w;
        let v: i64 = trunc_div_exec(n, len);
        proof {
            lemma_pedal_within_outputs(imin as int, imax as int, lo as int, hi as int, raw as int);
        }
        v as i16
    }
}

proof fn lemma_pedal_within_outputs(imin: int, imax: int, omin: int, omax: int, raw: int)
    requires
        imin < imax,
    ensures
        omin <= omax ==> omin <= pedal_output(imin, imax, omin, omax, raw) <= omax,
        omax < omin ==> omax <= pedal_output(imin, imax, omin, omax, raw) <= omin,
{
    let len = imax - imin;
    let t = clamp(raw, imin, imax) - imin;
    let n = omin * len + t * (omax - omin);
    assert(len * omin == omin * len && len * omax == omin * len + len * (omax - omin))
        by (nonlinear_arith);
    if omin <= omax {
        assert(0 <= t * (omax - omin) <= len * (omax - omin)) by (nonlinear_arith)
            requires
                0 <= t <= len,
                omin <= omax,
        ;
        lemma_trunc_div_monotonic(len * omin, n, len);
        lemma_trunc_div_monotonic(n, len * omax, len);
    } else {
        assert(len * (omax - omin) <= t * (omax - omin) <= 0) by (nonlinear_arith)
            requires
                0 <= t <= len,
                omax < omin,
        ;
        lemma_trunc_div_monotonic(len * omax, n, len);
        lemma_trunc_div_monotonic(n, len * omin, len);
    }
    lemma_trunc_div_multiple(omin, len);
    lemma_trunc_div_multiple(omax, len);
}

/// Sum of a sequence of raw readings.
pub open spec fn sum_readings(s: Seq<u16>) -> int
    decreases s.len(),
{
    if s.len() == 0 {
        0
    } else {
        sum_readings(s.drop_last()) + s.last()
    }
}

/// Mean of a non-empty run of raw readings, rounded down: how a joystick's
/// rest position is measured.
pub fn average(samples: &Vec<u16>) -> (r: u16)
    requires
        0 < samples.len() <= u32::MAX,
    ensures
        r == sum_readings(samples@) / (samples.len() as int),
{
    let mut total: u64 = 0;
    let mut i: usize = 0;
    while i < samples.len()
        invariant
            0 <= i <= samples.len() <= u32::MAX,
            total == sum_readings(samples@.take(i as int)),
            total <= i * 65535,
        decreases samples.len() - i,
    {
        assert(samples@.take(i as int + 1).drop_last() == samples@.take(i as int));
        total = total + samples[i] as u64;
        i = i + 1;
    }
    assert(samples@.take(i as int) == samples@);
    let n: u64 = samples.len() as u64;
    assert(total as int / (n as int) <= 65535) by (nonlinear_arith)
        requires
            total <= n * 65535,
            n > 0,
    ;
    (total / n) as u16
}

} // verus!
