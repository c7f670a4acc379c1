//! One axis of the print head: a motor with a limit sensor, its
//! millimetre-to-tick conversion and its homing state machine.
use crate::arith::{lemma_round_div_nearest, round_div, round_div_exec, SCALE};
use vstd::prelude::*;

verus! {

/// Largest accepted conversion ratio, in millionths of a degree per millimetre.
pub const MAX_RATIO: i64 = 10_000_000_000;

/// Largest accepted encoder resolution, in ticks per revolution.
pub const MAX_TICKS_PER_REV: u32 = 1_000_000;

/// Divisor of the tick law: degrees per revolution times both fixed-point scales.
pub const TICK_DIVISOR: i128 = 360_000_000_000_000;

/// Ticks for `micro` millionths of a millimetre on a drive turning `ratio`
/// millionths of a degree per millimetre, with `tpr` ticks per revolution:
/// `round(mm * degrees_per_mm * ticks_per_rev / 360)`.
pub open spec fn ticks_of(micro: int, ratio: int, tpr: int) -> int {
    round_div(micro * ratio * tpr, 360 * SCALE * SCALE)
}

/// Whether `v` can be handed to the motor driver.
pub open spec fn fits_i32(v: int) -> bool {
    i32::MIN <= v <= i32::MAX
}

/// The conversion parameters are in the accepted ranges.
pub open spec fn conversion_ok(ratio: int, tpr: int) -> bool {
    0 < tpr <= MAX_TICKS_PER_REV && -MAX_RATIO <= ratio <= MAX_RATIO
}

/// The tick law, in checked integer arithmetic: `None` when the result does
/// not fit the driver's `i32`.
pub fn ticks_checked(micro: i64, ratio: i64, tpr: u32) -> (r: Option<i32>)
    requires
        conversion_ok(ratio as int, tpr as int),
    ensures
        r == (if fits_i32(ticks_of(micro as int, ratio as int, tpr as int)) {
            Some(ticks_of(micro as int, ratio as int, tpr as int) as i32)
        } else {
            None::<i32>
        }),
{
    let a: i128 = micro as i128;
    let b: i128 = ratio as i128;
    let c: i128 = tpr as i128;
    assert(-0x8000_0000_0000_0000 * 10_000_000_000 <= a * b <= 0x8000_0000_0000_0000
        * 10_000_000_000) by (nonlinear_arith)
        requires
            -0x8000_0000_0000_0000 <= a <= 0x8000_0000_0000_0000,
            -10_000_000_000 <= b <= 10_000_000_000,
    ;
    let ab: i128 = a * b;
    assert(-0x8000_0000_0000_0000 * 10_000_000_000 * 1_000_000 <= ab * c <= 0x8000_0000_0000_0000
        * 10_000_000_000 * 1_000_000) by (nonlinear_arith)
        requires
            -0x8000_0000_0000_0000 * 10_000_000_000 <= ab <= 0x8000_0000_0000_0000
                * 10_000_000_000,
            0 < c <= 1_000_000,
    ;
    let n: i128 = ab * c;
    let t: i128 = round_div_exec(n, TICK_DIVISOR);
    if t >= i32::MIN as i128 && t <= i32::MAX as i128 {
        Some(t as i32)
    } else {
        None
    }
}

/// The tick law rounds to a nearest integer of the exact conversion, and a
/// zero length is zero ticks.
pub proof fn lemma_ticks_nearest(micro: int, ratio: int, tpr: int)
    ensures
        -(360 * SCALE * SCALE) <= 2 * (ticks_of(micro, ratio, tpr) * (360 * SCALE * SCALE) - micro
            * ratio * tpr) <= 360 * SCALE * SCALE,
        micro == 0 ==> ticks_of(micro, ratio, tpr) == 0,
{
    lemma_round_div_nearest(micro * ratio * tpr, 360 * SCALE * SCALE);
    if micro == 0 {
        assert(micro * ratio * tpr == 0) by (nonlinear_arith)
            requires
                micro == 0,
        ;
    }
}

/// Where an axis stands in its homing sequence.
#[derive(Clone, Copy, Debug, PartialEq, Eq, Structural)]
pub enum CalibrationState {
    Idle,
    Seeking,
    Backoff,
    Offsetting,
    Homed,
}

/// What happened since the last step of the homing sequence.
#[derive(Clone, Copy, Debug, PartialEq, Eq, Structural)]
pub enum CalibrationEvent {
    /// Homing was requested.
    Begin,
    /// The limit sensor was read; the value is the raw reading.
    Sensor(bool),
    /// The last commanded action has been carried out.
    Completed,
}

/// What the driver must do next.
#[derive(Clone, Copy, Debug, PartialEq, Eq, Structural)]
pub enum CalibrationAction {
    /// Run continuously at this tick rate, then read the sensor.
    Run(i32),
    /// Read the sensor again.
    Poll,
    /// Stop the motor.
    Stop,
    /// Move by this many ticks, then take the reached position as tick zero.
    MoveAndZero(i32),
    /// Nothing to do.
    Nothing,
}

/// One axis: conversion parameters and homing parameters.
///
/// Lengths are in millionths of a millimetre, speeds in millionths of a
/// millimetre per second, `ratio` in millionths of a degree per millimetre.
#[derive(Clone, Copy, Debug)]
pub struct Motor {
    pub ratio: i64,
    pub ticks_per_rev: u32,
    /// (offset from the limit to logical zero, motor inverted, sensor inverted)
    pub cal_params: (i64, bool, bool),
    pub cal_speed: i64,
}

impl Motor {
    /// Ticks for a length or speed on this axis.
    pub open spec fn ticks(&self, micro: int) -> int {
        ticks_of(micro, self.ratio as int, self.ticks_per_rev as int)
    }

    /// The tick rate at which the axis seeks its limit switch.
    pub open spec fn seek_rate(&self) -> int {
        if self.cal_params.1 {
            -self.ticks(self.cal_speed as int)
        } else {
            self.ticks(self.cal_speed as int)
        }
    }

    /// The parameters are in range and both homing commands fit the driver.
    pub open spec fn wf(&self) -> bool {
        &&& conversion_ok(self.ratio as int, self.ticks_per_rev as int)
        &&& -i32::MAX <= self.seek_rate() <= i32::MAX
        &&& fits_i32(self.ticks(self.cal_params.0 as int))
    }

    /// Whether the sensor reading `raw` means "pressed" once its polarity
    /// is normalised.
    pub open spec fn is_pressed(&self, raw: bool) -> bool {
        raw != self.cal_params.2
    }

    /// The homing state machine: next state and action for one event.
    pub open spec fn calibration_step(&self, s: CalibrationState, e: CalibrationEvent) -> (
        CalibrationState,
        CalibrationAction,
    ) {
        match (s, e) {
            (CalibrationState::Idle, CalibrationEvent::Begin) => (
                CalibrationState::Seeking,
                CalibrationAction::Run(self.seek_rate() as i32),
            ),
            (CalibrationState::Seeking, CalibrationEvent::Sensor(raw)) => if self.is_pressed(raw) {
                (CalibrationState::Backoff, CalibrationAction::Run((-self.seek_rate()) as i32))
            } else {
                (CalibrationState::Seeking, CalibrationAction::Poll)
            },
            (CalibrationState::Backoff, CalibrationEvent::Sensor(raw)) => if self.is_pressed(raw) {
                (CalibrationState::Backoff, CalibrationAction::Poll)
            } else {
                (CalibrationState::Offsetting, CalibrationAction::Stop)
            },
            (CalibrationState::Offsetting, CalibrationEvent::Completed) => (
                CalibrationState::Homed,
                CalibrationAction::MoveAndZero(self.ticks(self.cal_params.0 as int) as i32),
            ),
            _ => (s, CalibrationAction::Nothing),
        }
    }

    /// The state after feeding `events` one by one, starting in `s`.
    pub open spec fn calibration_run(&self, s: CalibrationState, events: Seq<CalibrationEvent>) -> CalibrationState
        decreases events.len(),
    {
        if events.len() == 0 {
            s
        } else {
            self.calibration_run(self.calibration_step(s, events[0]).0, events.drop_first())
        }
    }

    /// An axis with the given ratio (millionths of a degree per millimetre),
    /// encoder resolution, homing parameters (offset, motor inverted, sensor
    /// inverted) and homing speed; `None` when a parameter is out of range
    /// or a homing command would not fit the driver.
    pub fn new(ticks_per_rev: u32, ratio: i64, cal_params: (i64, bool, bool), cal_speed: i64) -> (r:
        Option<Motor>)
        ensures
            r is Some <==> (Motor { ratio, ticks_per_rev, cal_params, cal_speed }).wf(),
            r is Some ==> r->0 == (Motor { ratio, ticks_per_rev, cal_params, cal_speed }),
    {
        let m = Motor { ratio, ticks_per_rev, cal_params, cal_speed };
        if ticks_per_rev == 0 || ticks_per_rev > MAX_TICKS_PER_REV || ratio < -MAX_RATIO || ratio
            > MAX_RATIO {
            return None;
        }
        match (ticks_checked(cal_speed, ratio, ticks_per_rev), ticks_checked(
            cal_params.0,
            ratio,
            ticks_per_rev,
        )) {
            (Some(s), Some(_)) => {
                if s == i32::MIN {
                    None
                } else {
                    Some(m)
                }
            },
            _ => None,
        }
    }

    /// Ticks for `measure` millionths of a millimetre (or of a millimetre
    /// per second) on this axis; `None` when they do not fit the driver.
    pub fn mm_to_tacho(&self, measure: i64) -> (r: Option<i32>)
        requires
            self.wf(),
        ensures
            r == (if fits_i32(self.ticks(measure as int)) {
                Some(self.ticks(measure as int) as i32)
            } else {
                None::<i32>
            }),
    {
        ticks_checked(measure, self.ratio, self.ticks_per_rev)
    }

    /// Whether the wait for a sensor state is over: the raw reading, xor-ed
    /// with the polarity that is waited for, is set.
    pub fn wait_for_press(&self, raw: bool, inverted: bool) -> (r: bool)
        ensures
            r == (raw != inverted),
    {
        raw ^ inverted
    }

    /// The tick rate at which this axis seeks its limit switch.
    pub fn seek_rate_exec(&self) -> (r: i32)
        requires
            self.wf(),
        ensures
            r == self.seek_rate(),
    {
        let t = self.mm_to_tacho(self.cal_speed);
        match t {
            Some(v) => if self.cal_params.1 {
                -v
            } else {
                v
            },
            None => 0,
        }
    }

    /// One step of homing: run toward the limit, back off once it is pressed,
    /// stop once it is released, then move by the calibration offset and take
    /// that position as zero.
    pub fn calibrate(&self, state: CalibrationState, event: CalibrationEvent) -> (r: (
        CalibrationState,
        CalibrationAction,
    ))
        requires
            self.wf(),
        ensures
            r == self.calibration_step(state, event),
    {
        match (state, event) {
            (CalibrationState::Idle, CalibrationEvent::Begin) => (
                CalibrationState::Seeking,
                CalibrationAction::Run(self.seek_rate_exec()),
            ),
            (CalibrationState::Seeking, CalibrationEvent::Sensor(raw)) => {
                if self.wait_for_press(raw, self.cal_params.2) {
                    (CalibrationState::Backoff, CalibrationAction::Run(-self.seek_rate_exec()))
                } else {
                    (CalibrationState::Seeking, CalibrationAction::Poll)
                }
            },
            (CalibrationState::Backoff, CalibrationEvent::Sensor(raw)) => {
                if self.wait_for_press(raw, !self.cal_params.2) {
                    (CalibrationState::Offsetting, CalibrationAction::Stop)
                } else {
                    (CalibrationState::Backoff, CalibrationAction::Poll)
                }
            },
            (CalibrationState::Offsetting, CalibrationEvent::Completed) => {
                let off = match self.mm_to_tacho(self.cal_params.0) {
                    Some(v) => v,
                    None => 0,
                };
                (CalibrationState::Homed, CalibrationAction::MoveAndZero(off))
            },
            _ => (state, CalibrationAction::Nothing),
        }
    }
}

/// The events that report the raw sensor readings `rs`, one by one.
pub open spec fn sensor_events(rs: Seq<bool>) -> Seq<CalibrationEvent> {
    rs.map_values(|r: bool| CalibrationEvent::Sensor(r))
}

/// Feeding `a` and then `b` is feeding `a + b`.
pub proof fn lemma_calibration_run_concat(
    m: Motor,
    s: CalibrationState,
    a: Seq<CalibrationEvent>,
    b: Seq<CalibrationEvent>,
)
    ensures
        m.calibration_run(s, a + b) == m.calibration_run(m.calibration_run(s, a), b),
    decreases a.len(),
{
    if a.len() == 0 {
        assert(a + b =~= b);
    } else {
        assert((a + b).drop_first() =~= a.drop_first() + b);
        assert((a + b)[0] == a[0]);
        lemma_calibration_run_concat(m, m.calibration_step(s, a[0]).0, a.drop_first(), b);
    }
}

/// Readings that do not change the normalised sensor state leave a seeking
/// or backing-off axis where it is.
pub proof fn lemma_calibration_waits(m: Motor, s: CalibrationState, rs: Seq<bool>)
    requires
        s == CalibrationState::Seeking || s == CalibrationState::Backoff,
        forall|i: int| 0 <= i < rs.len() ==> m.is_pressed(#[trigger] rs[i]) == (s
            == CalibrationState::Backoff),
    ensures
        m.calibration_run(s, sensor_events(rs)) == s,
    decreases rs.len(),
{
    if rs.len() > 0 {
        assert(sensor_events(rs).drop_first() =~= sensor_events(rs.drop_first()));
        assert(m.is_pressed(rs[0]) == (s == CalibrationState::Backoff));
        lemma_calibration_waits(m, s, rs.drop_first());
    }
}

/// Homing, for every polarity of motor and sensor: after the request, any
/// number of released readings, one pressed reading, any number of pressed
/// readings and one released reading, the axis is offsetting, not yet homed;
/// the offset move that follows brings it to `Homed`.
pub proof fn lemma_homing_completes(
    m: Motor,
    before: Seq<bool>,
    press: bool,
    held: Seq<bool>,
    release: bool,
)
    requires
        m.wf(),
        forall|i: int| 0 <= i < before.len() ==> !m.is_pressed(#[trigger] before[i]),
        m.is_pressed(press),
        forall|i: int| 0 <= i < held.len() ==> m.is_pressed(#[trigger] held[i]),
        !m.is_pressed(release),
    ensures
        ({
            let events = seq![CalibrationEvent::Begin] + sensor_events(before) + seq![
                CalibrationEvent::Sensor(press),
            ] + sensor_events(held) + seq![CalibrationEvent::Sensor(release)];
            &&& m.calibration_run(CalibrationState::Idle, events) == CalibrationState::Offsetting
            &&& m.calibration_run(CalibrationState::Idle, events.push(CalibrationEvent::Completed))
                == CalibrationState::Homed
            &&& m.calibration_step(CalibrationState::Offsetting, CalibrationEvent::Completed).1
                == CalibrationAction::MoveAndZero(m.ticks(m.cal_params.0 as int) as i32)
        }),
{
    let e0 = seq![CalibrationEvent::Begin];
    let e1 = sensor_events(before);
    let e2 = seq![CalibrationEvent::Sensor(press)];
    let e3 = sensor_events(held);
    let e4 = seq![CalibrationEvent::Sensor(release)];
    let e5 = seq![CalibrationEvent::Completed];

    assert(m.calibration_run(CalibrationState::Idle, e0) == CalibrationState::Seeking) by {
        assert(e0[0] == CalibrationEvent::Begin);
        assert(e0.drop_first().len() == 0);
        assert(m.calibration_run(CalibrationState::Seeking, e0.drop_first())
            == CalibrationState::Seeking);
    }
    lemma_calibration_waits(m, CalibrationState::Seeking, before);
    assert(m.calibration_run(CalibrationState::Seeking, e2) == CalibrationState::Backoff) by {
        assert(e2[0] == CalibrationEvent::Sensor(press));
        assert(e2.drop_first().len() == 0);
        assert(m.calibration_run(CalibrationState::Backoff, e2.drop_first())
            == CalibrationState::Backoff);
    }
    lemma_calibration_waits(m, CalibrationState::Backoff, held);
    assert(m.calibration_run(CalibrationState::Backoff, e4) == CalibrationState::Offsetting) by {
        assert(e4[0] == CalibrationEvent::Sensor(release));
        assert(e4.drop_first().len() == 0);
        assert(m.calibration_run(CalibrationState::Offsetting, e4.drop_first())
            == CalibrationState::Offsetting);
    }
    assert(m.calibration_run(CalibrationState::Offsetting, e5) == CalibrationState::Homed) by {
        assert(e5[0] == CalibrationEvent::Completed);
        assert(e5.drop_first().len() == 0);
        assert(m.calibration_run(CalibrationState::Homed, e5.drop_first())
            == CalibrationState::Homed);
    }
    lemma_calibration_run_concat(m, CalibrationState::Idle, e0, e1);
    lemma_calibration_run_concat(m, CalibrationState::Idle, e0 + e1, e2);
    lemma_calibration_run_concat(m, CalibrationState::Idle, e0 + e1 + e2, e3);
    lemma_calibration_run_concat(m, CalibrationState::Idle, e0 + e1 + e2 + e3, e4);
    lemma_calibration_run_concat(m, CalibrationState::Idle, e0 + e1 + e2 + e3 + e4, e5);
    assert((e0 + e1 + e2 + e3 + e4).push(CalibrationEvent::Completed) =~= e0 + e1 + e2 + e3 + e4
        + e5);
}

} // verus!
