//! The print head: three axes and an extruder, the estimated position, the
//! positioning mode and the feed rate, and the planning of synchronized
//! linear moves.
use crate::arith::{isqrt, isqrt_of, lemma_round_div_bound, round_div, round_div_exec};
use crate::extruder::Extruder;
use crate::motor::{fits_i32, CalibrationAction, CalibrationEvent, CalibrationState, Motor};
use vstd::prelude::*;

verus! {

/// Half the travel envelope of X and Y in absolute mode: 100 mm.
pub const TRAVEL_LIMIT: i64 = 100_000_000;

/// Largest magnitude of a head position, so that the square of an XY
/// displacement between two positions fits 128-bit arithmetic.
pub const MAX_POSITION: i64 = 0x4000_0000_0000_0000;

/// Feed rate of a new head: 20 mm/s.
pub const DEFAULT_FEED: i64 = 20_000_000;

/// How move coordinates are read.
#[derive(Clone, Copy, Debug, PartialEq, Eq, Structural)]
pub enum PositioningMode {
    /// As displacements from the current position.
    Relative,
    /// As machine coordinates.
    Absolute,
}

/// A commanded destination; a coordinate left unset is `None` and its axis
/// does not move. In millionths of a millimetre.
#[derive(Clone, Copy, Debug, PartialEq, Eq, Structural)]
pub struct Point {
    pub x: Option<i64>,
    pub y: Option<i64>,
    pub z: Option<i64>,
}

/// A position of the head, in millionths of a millimetre.
#[derive(Clone, Copy, Debug, PartialEq, Eq, Structural)]
pub struct Position {
    pub x: i64,
    pub y: i64,
    pub z: i64,
}

/// One linear move: destination, feed rate (millionths of a millimetre per
/// second) and extruded length (millionths of a millimetre), each optional.
#[derive(Clone, Copy, Debug, PartialEq, Eq, Structural)]
pub struct LinearMoveCommand {
    pub point: Option<Point>,
    pub feed_rate: Option<i64>,
    pub extruded: Option<i64>,
}

/// What the driver does for one move: run X, Y and Z (and the extruder,
/// when set) at these tick rates, wait `duration_us` microseconds, stop them.
/// Once it has, the head stands at `target`.
#[derive(Clone, Copy, Debug, PartialEq, Eq, Structural)]
pub struct MovePlan {
    pub x_rate: i32,
    pub y_rate: i32,
    pub z_rate: i32,
    pub e_rate: Option<i32>,
    pub duration_us: u64,
    pub target: Position,
}

/// Why a move was refused. A refused move changes nothing.
#[derive(Clone, Copy, Debug, PartialEq, Eq, Structural)]
pub enum MoveError {
    /// Axes are to run but the feed rate is not positive.
    InvalidFeedRate,
    /// The destination is beyond `MAX_POSITION`, or the duration does not
    /// fit 64 bits of microseconds.
    OutOfRange,
    /// An axis velocity does not fit the 64-bit fixed-point type, or its
    /// tick rate does not fit the motor driver.
    RateOutOfRange,
}

/// Selects one of the three positioning axes.
#[derive(Clone, Copy, Debug, PartialEq, Eq, Structural)]
pub enum AxisId {
    X,
    Y,
    Z,
}

pub open spec fn clamp(v: int, lo: int, hi: int) -> int {
    if v < lo {
        lo
    } else if v > hi {
        hi
    } else {
        v
    }
}

pub open spec fn in_range(v: int, limit: int) -> bool {
    -limit <= v <= limit
}

pub open spec fn position_ok(p: Position) -> bool {
    &&& in_range(p.x as int, MAX_POSITION as int)
    &&& in_range(p.y as int, MAX_POSITION as int)
    &&& in_range(p.z as int, MAX_POSITION as int)
}

pub open spec fn fits_i64(v: int) -> bool {
    i64::MIN <= v <= i64::MAX
}

/// The velocity along one axis, in millionths of a millimetre per second,
/// for a displacement `d` covered while the XY path of length `dist` is
/// covered at `feed`.
pub open spec fn axis_velocity(d: int, feed: int, dist: int) -> int {
    round_div(d * feed, dist)
}

/// The head.
#[derive(Clone, Copy, Debug)]
pub struct PrintHead {
    pub x: Motor,
    pub y: Motor,
    pub z: Motor,
    pub e: Extruder,
    pub velocity: i64,
    pub position: Position,
    pub positioning: PositioningMode,
}

impl PrintHead {
    pub open spec fn wf(&self) -> bool {
        &&& self.x.wf()
        &&& self.y.wf()
        &&& self.z.wf()
        &&& self.e.wf()
        &&& position_ok(self.position)
    }

    /// The head with another positioning mode and nothing else changed.
    pub open spec fn with_mode(self, mode: PositioningMode) -> PrintHead {
        PrintHead { positioning: mode, ..self }
    }

    /// Where one coordinate of a move ends: in absolute mode the given
    /// value (clamped to the envelope for X and Y), in relative mode the
    /// current value plus the given displacement; an unset coordinate stays.
    pub open spec fn target_coord(&self, cur: int, given: Option<i64>, clamped: bool) -> int {
        match given {
            None => cur,
            Some(v) => match self.positioning {
                PositioningMode::Absolute => if clamped {
                    clamp(v as int, -TRAVEL_LIMIT, TRAVEL_LIMIT as int)
                } else {
                    v as int
                },
                PositioningMode::Relative => cur + v,
            },
        }
    }

    pub open spec fn target_x(&self, p: Point) -> int {
        self.target_coord(self.position.x as int, p.x, true)
    }

    pub open spec fn target_y(&self, p: Point) -> int {
        self.target_coord(self.position.y as int, p.y, true)
    }

    pub open spec fn target_z(&self, p: Point) -> int {
        self.target_coord(self.position.z as int, p.z, false)
    }

    /// Length of the XY path of a move to `p`, rounded down.
    pub open spec fn xy_distance(&self, p: Point) -> int {
        let dx = self.target_x(p) - self.position.x;
        let dy = self.target_y(p) - self.position.y;
        isqrt_of(dx * dx + dy * dy)
    }

    /// The plan of a move to `p` at `feed` along a path of length `dist > 0`.
    pub open spec fn plan_of(&self, p: Point, extruded: Option<i64>, feed: int, dist: int) -> (
        int,
        int,
        int,
        Option<int>,
        int,
    ) {
        (
            self.x.ticks(axis_velocity(self.target_x(p) - self.position.x, feed, dist)),
            self.y.ticks(axis_velocity(self.target_y(p) - self.position.y, feed, dist)),
            self.z.ticks(axis_velocity(self.target_z(p) - self.position.z, feed, dist)),
            match extruded {
                Some(e) => Some(self.e.ticks(axis_velocity(e as int, feed, dist))),
                None => None,
            },
            round_div(dist * 1_000_000, feed),
        )
    }

    /// The velocities of the axes for a move to `p` along an XY path of
    /// length `dist > 0` at `feed`, in millionths of a millimetre per second.
    pub open spec fn velocities(&self, p: Point, extruded: Option<i64>, feed: int, dist: int) -> (
        int,
        int,
        int,
        Option<int>,
    ) {
        (
            axis_velocity(self.target_x(p) - self.position.x, feed, dist),
            axis_velocity(self.target_y(p) - self.position.y, feed, dist),
            axis_velocity(self.target_z(p) - self.position.z, feed, dist),
            match extruded {
                Some(e) => Some(axis_velocity(e as int, feed, dist)),
                None => None,
            },
        )
    }

    /// What a linear move does: the head afterwards, with the new feed rate
    /// and its position unchanged, and the plan for the driver (`None` when
    /// no axis is to run), or the reason the move is refused. The position
    /// becomes the plan's target once the driver has run it
    /// (`complete_move`).
    pub open spec fn after_move(&self, cmd: LinearMoveCommand) -> Result<
        (PrintHead, Option<MovePlan>),
        MoveError,
    > {
        let feed: int = match cmd.feed_rate {
            Some(f) => f as int,
            None => self.velocity as int,
        };
        let h1 = PrintHead { velocity: feed as i64, ..*self };
        match cmd.point {
            None => Ok((h1, None)),
            Some(p) => {
                let tx = self.target_x(p);
                let ty = self.target_y(p);
                let tz = self.target_z(p);
                if !in_range(tx, MAX_POSITION as int) || !in_range(ty, MAX_POSITION as int) {
                    Err(MoveError::OutOfRange)
                } else if self.xy_distance(p) == 0 {
                    Ok((h1, None))
                } else if !in_range(tz, MAX_POSITION as int) {
                    Err(MoveError::OutOfRange)
                } else if feed <= 0 {
                    Err(MoveError::InvalidFeedRate)
                } else {
                    let dist = self.xy_distance(p);
                    let (vx, vy, vz, ve) = self.velocities(p, cmd.extruded, feed, dist);
                    let dur = round_div(dist * 1_000_000, feed);
                    let ve_fits = match ve {
                        Some(v) => fits_i64(v) && fits_i32(self.e.ticks(v)),
                        None => true,
                    };
                    if !fits_i64(vx) || !fits_i64(vy) || !fits_i64(vz) || !fits_i32(
                        self.x.ticks(vx),
                    ) || !fits_i32(self.y.ticks(vy)) || !fits_i32(self.z.ticks(vz)) || !ve_fits {
                        Err(MoveError::RateOutOfRange)
                    } else if dur > u64::MAX {
                        Err(MoveError::OutOfRange)
                    } else {
                        Ok(
                            (
                                h1,
                                Some(
                                    MovePlan {
                                        x_rate: self.x.ticks(vx) as i32,
                                        y_rate: self.y.ticks(vy) as i32,
                                        z_rate: self.z.ticks(vz) as i32,
                                        e_rate: match ve {
                                            Some(v) => Some(self.e.ticks(v) as i32),
                                            None => None,
                                        },
                                        duration_us: dur as u64,
                                        target: Position { x: tx as i64, y: ty as i64, z: tz as i64 },
                                    },
                                ),
                            ),
                        )
                    }
                }
            },
        }
    }

    /// The head once the driver has run `plan`: it stands at the target.
    pub open spec fn completed(self, plan: MovePlan) -> PrintHead {
        if position_ok(plan.target) {
            PrintHead { position: plan.target, ..self }
        } else {
            self
        }
    }

    /// A head at the origin, in absolute mode, at the default feed rate.
    pub fn new(x: Motor, y: Motor, z: Motor, e: Extruder) -> (r: PrintHead)
        requires
            x.wf(),
            y.wf(),
            z.wf(),
            e.wf(),
        ensures
            r.wf(),
            r == (PrintHead {
                x,
                y,
                z,
                e,
                velocity: DEFAULT_FEED,
                position: Position { x: 0, y: 0, z: 0 },
                positioning: PositioningMode::Absolute,
            }),
    {
        PrintHead {
            x,
            y,
            z,
            e,
            velocity: DEFAULT_FEED,
            position: Position { x: 0, y: 0, z: 0 },
            positioning: PositioningMode::Absolute,
        }
    }

    /// Sets the feed rate used by later moves.
    pub fn set_velocity(&mut self, velocity: i64)
        ensures
            *final(self) == (PrintHead { velocity, ..*old(self) }),
    {
        self.velocity = velocity;
    }

    /// Sets how later move coordinates are read; nothing moves.
    pub fn set_position_mode(&mut self, mode: PositioningMode)
        ensures
            *final(self) == old(self).with_mode(mode),
    {
        self.positioning = mode;
    }

    /// Plans a synchronized linear move. The feed rate, when given,
    /// replaces the head's, also for later moves. Each axis runs at its
    /// displacement divided by the move's duration, which is the XY path
    /// length over the feed rate; Z and the extruder take no time of their
    /// own. A move without destination, or whose XY path has zero length,
    /// runs no axis. The position is not changed here: once the driver has
    /// run the plan, `complete_move` records the target.
    pub fn linear_move(&mut self, command: LinearMoveCommand) -> (r: Result<
        Option<MovePlan>,
        MoveError,
    >)
        requires
            old(self).wf(),
        ensures
            final(self).wf(),
            match old(self).after_move(command) {
                Ok((h, p)) => r == Ok::<Option<MovePlan>, MoveError>(p) && *final(self) == h,
                Err(e) => r == Err::<Option<MovePlan>, MoveError>(e) && *final(self) == *old(
                    self,
                ),
            },
    {
        let r = self.plan_linear_move(command);
        if r.is_ok() {
            match command.feed_rate {
                Some(f) => {
                    self.velocity = f;
                },
                None => {},
            }
        }
        r
    }

    /// The plan of a linear move, with the head left as it is.
    pub fn plan_linear_move(&self, command: LinearMoveCommand) -> (r: Result<
        Option<MovePlan>,
        MoveError,
    >)
        requires
            self.wf(),
        ensures
            match self.after_move(command) {
                Ok((_, p)) => r == Ok::<Option<MovePlan>, MoveError>(p),
                Err(e) => r == Err::<Option<MovePlan>, MoveError>(e),
            },
    {
        let feed: i64 = match command.feed_rate {
            Some(f) => f,
            None => self.velocity,
        };
        let p = match command.point {
            None => {
                return Ok(None);
            },
            Some(p) => p,
        };
        let tx = match self.target_coord_exec(self.position.x, p.x, true) {
            Some(v) => v,
            None => {
                return Err(MoveError::OutOfRange);
            },
        };
        let ty = match self.target_coord_exec(self.position.y, p.y, true) {
            Some(v) => v,
            None => {
                return Err(MoveError::OutOfRange);
            },
        };
        let dx: i128 = tx as i128 - self.position.x as i128;
        let dy: i128 = ty as i128 - self.position.y as i128;
        assert(dx * dx <= 0x4000_0000_0000_0000_0000_0000_0000_0000 && dy * dy
            <= 0x4000_0000_0000_0000_0000_0000_0000_0000) by (nonlinear_arith)
            requires
                -0x8000_0000_0000_0000 <= dx <= 0x8000_0000_0000_0000,
                -0x8000_0000_0000_0000 <= dy <= 0x8000_0000_0000_0000,
        ;
        assert(dx * dx >= 0 && dy * dy >= 0) by (nonlinear_arith);
        let sq: u128 = (dx * dx) as u128 + (dy * dy) as u128;
        let dist: u64 = isqrt(sq);
        if dist == 0 {
            return Ok(None);
        }
        let tz = match self.target_coord_exec(self.position.z, p.z, false) {
            Some(v) => v,
            None => {
                return Err(MoveError::OutOfRange);
            },
        };
        if feed <= 0 {
            return Err(MoveError::InvalidFeedRate);
        }
        let dz: i128 = tz as i128 - self.position.z as i128;
        let rx = match Self::rate_exec(&self.x, dx, feed, dist) {
            Some(v) => v,
            None => {
                return Err(MoveError::RateOutOfRange);
            },
        };
        let ry = match Self::rate_exec(&self.y, dy, feed, dist) {
            Some(v) => v,
            None => {
                return Err(MoveError::RateOutOfRange);
            },
        };
        let rz = match Self::rate_exec(&self.z, dz, feed, dist) {
            Some(v) => v,
            None => {
                return Err(MoveError::RateOutOfRange);
            },
        };
        let re = match command.extruded {
            Some(e) => match Self::velocity_exec(e as i128, feed, dist) {
                Some(v) => match self.e.mm_to_tacho(v) {
                    Some(t) => Some(t),
                    None => {
                        return Err(MoveError::RateOutOfRange);
                    },
                },
                None => {
                    return Err(MoveError::RateOutOfRange);
                },
            },
            None => None,
        };
        proof {
            lemma_round_div_bound(dist * 1_000_000, feed as int);
        }
        let dur = round_div_exec(dist as i128 * 1_000_000, feed as i128);
        if dur > u64::MAX as i128 {
            return Err(MoveError::OutOfRange);
        }
        Ok(
            Some(
                MovePlan {
                    x_rate: rx,
                    y_rate: ry,
                    z_rate: rz,
                    e_rate: re,
                    duration_us: dur as u64,
                    target: Position { x: tx, y: ty, z: tz },
                },
            ),
        )
    }

    /// Records that the driver has run `plan`: the head stands at its target.
    pub fn complete_move(&mut self, plan: &MovePlan)
        requires
            old(self).wf(),
        ensures
            final(self).wf(),
            *final(self) == old(self).completed(*plan),
    {
        let t = plan.target;
        if -MAX_POSITION <= t.x && t.x <= MAX_POSITION && -MAX_POSITION <= t.y && t.y
            <= MAX_POSITION && -MAX_POSITION <= t.z && t.z <= MAX_POSITION {
            self.position = t;
        }
    }

    /// `target_coord`, or `None` when the result is beyond `MAX_POSITION`.
    fn target_coord_exec(&self, cur: i64, given: Option<i64>, clamped: bool) -> (r: Option<i64>)
        requires
            in_range(cur as int, MAX_POSITION as int),
        ensures
            r == (if in_range(self.target_coord(cur as int, given, clamped), MAX_POSITION as int) {
                Some(self.target_coord(cur as int, given, clamped) as i64)
            } else {
                None::<i64>
            }),
    {
        match given {
            None => Some(cur),
            Some(v) => {
                match self.positioning {
                    PositioningMode::Absolute => {
                        if clamped {
                            if v < -TRAVEL_LIMIT {
                                Some(-TRAVEL_LIMIT)
                            } else if v > TRAVEL_LIMIT {
                                Some(TRAVEL_LIMIT)
                            } else {
                                Some(v)
                            }
                        } else if v < -MAX_POSITION || v > MAX_POSITION {
                            None
                        } else {
                            Some(v)
                        }
                    },
                    PositioningMode::Relative => {
                        let t: i128 = cur as i128 + v as i128;
                        if t < -(MAX_POSITION as i128) || t > MAX_POSITION as i128 {
                            None
                        } else {
                            Some(t as i64)
                        }
                    },
                }
            },
        }
    }

    /// `axis_velocity` in checked arithmetic: `None` when it does not fit
    /// 64 bits.
    fn velocity_exec(d: i128, feed: i64, dist: u64) -> (r: Option<i64>)
        requires
            -0x8000_0000_0000_0000 <= d <= 0x8000_0000_0000_0000,
            0 < feed,
            1 <= dist,
        ensures
            r == (if fits_i64(axis_velocity(d as int, feed as int, dist as int)) {
                Some(axis_velocity(d as int, feed as int, dist as int) as i64)
            } else {
                None::<i64>
            }),
    {
        assert(-0x4000_0000_0000_0000_0000_0000_0000_0000 <= d * feed
            <= 0x4000_0000_0000_0000_0000_0000_0000_0000) by (nonlinear_arith)
            requires
                -0x8000_0000_0000_0000 <= d <= 0x8000_0000_0000_0000,
                0 < feed <= 0x7fff_ffff_ffff_ffff,
        ;
        let v = round_div_exec(d * feed as i128, dist as i128);
        if v < i64::MIN as i128 || v > i64::MAX as i128 {
            None
        } else {
            Some(v as i64)
        }
    }

    /// The tick rate of axis `m` for displacement `d`: `None` when the
    /// velocity or the rate does not fit.
    fn rate_exec(m: &Motor, d: i128, feed: i64, dist: u64) -> (r: Option<i32>)
        requires
            m.wf(),
            -0x8000_0000_0000_0000 <= d <= 0x8000_0000_0000_0000,
            0 < feed,
            1 <= dist,
        ensures
            ({
                let v = axis_velocity(d as int, feed as int, dist as int);
                r == (if fits_i64(v) && fits_i32(m.ticks(v)) {
                    Some(m.ticks(v) as i32)
                } else {
                    None::<i32>
                })
            }),
    {
        match Self::velocity_exec(d, feed, dist) {
            Some(v) => m.mm_to_tacho(v),
            None => None,
        }
    }

    /// The axis that `id` selects.
    pub fn axis(&self, id: AxisId) -> (r: Motor)
        ensures
            r == (match id {
                AxisId::X => self.x,
                AxisId::Y => self.y,
                AxisId::Z => self.z,
            }),
    {
        match id {
            AxisId::X => self.x,
            AxisId::Y => self.y,
            AxisId::Z => self.z,
        }
    }

    /// The order in which the axes are homed: Z first, to lift the head
    /// clear, then X, then Y.
    pub fn calibration_order(&self) -> (r: Vec<AxisId>)
        ensures
            r@ == seq![AxisId::Z, AxisId::X, AxisId::Y],
    {
        let mut v: Vec<AxisId> = Vec::new();
        v.push(AxisId::Z);
        v.push(AxisId::X);
        v.push(AxisId::Y);
        assert(v@ =~= seq![AxisId::Z, AxisId::X, AxisId::Y]);
        v
    }

    /// One step of the homing of axis `id`. Homing the head is running this
    /// for each axis of `calibration_order` in turn, from `Idle` until the
    /// axis is `Homed`, with every axis set to brake on stop beforehand; the
    /// driver performs each returned action and reports the next event.
    pub fn calibrate(&self, id: AxisId, state: CalibrationState, event: CalibrationEvent) -> (r: (
        CalibrationState,
        CalibrationAction,
    ))
        requires
            self.wf(),
        ensures
            r == (match id {
                AxisId::X => self.x,
                AxisId::Y => self.y,
                AxisId::Z => self.z,
            }).calibration_step(state, event),
    {
        let m = self.axis(id);
        m.calibrate(state, event)
    }
}

/// In absolute mode a given X or Y lands inside the travel envelope, and a
/// given Z is taken as it is; an accepted move leaves the head there.
pub proof fn lemma_absolute_targets_clamped(h: PrintHead, cmd: LinearMoveCommand, p: Point)
    requires
        h.wf(),
        h.positioning == PositioningMode::Absolute,
        cmd.point == Some(p),
    ensures
        p.x is Some ==> in_range(h.target_x(p), TRAVEL_LIMIT as int),
        p.y is Some ==> in_range(h.target_y(p), TRAVEL_LIMIT as int),
        p.z is Some ==> h.target_z(p) == p.z->0,
        match h.after_move(cmd) {
            Ok((h2, Some(plan))) => {
                &&& (p.x is Some ==> in_range(plan.target.x as int, TRAVEL_LIMIT as int))
                &&& (p.y is Some ==> in_range(plan.target.y as int, TRAVEL_LIMIT as int))
                &&& (p.z is Some ==> plan.target.z == p.z->0)
                &&& (p.x is Some ==> in_range(
                    h2.completed(plan).position.x as int,
                    TRAVEL_LIMIT as int,
                ))
                &&& (p.y is Some ==> in_range(
                    h2.completed(plan).position.y as int,
                    TRAVEL_LIMIT as int,
                ))
            },
            _ => true,
        },
{
}

/// A move to the current position divides by nothing, runs no axis and
/// leaves the position as it was, whatever its feed rate and extrusion; a
/// given feed rate is stored.
pub proof fn lemma_move_to_current_position(
    h: PrintHead,
    mode_absolute: bool,
    feed_rate: Option<i64>,
    extruded: Option<i64>,
)
    requires
        h.wf(),
        h.positioning == (if mode_absolute {
            PositioningMode::Absolute
        } else {
            PositioningMode::Relative
        }),
        mode_absolute ==> in_range(h.position.x as int, TRAVEL_LIMIT as int) && in_range(
            h.position.y as int,
            TRAVEL_LIMIT as int,
        ),
    ensures
        ({
            let p = if mode_absolute {
                Point { x: Some(h.position.x), y: Some(h.position.y), z: Some(h.position.z) }
            } else {
                Point { x: Some(0), y: Some(0), z: Some(0) }
            };
            let h1 = PrintHead {
                velocity: match feed_rate {
                    Some(f) => f,
                    None => h.velocity,
                },
                ..h
            };
            h.after_move(LinearMoveCommand { point: Some(p), feed_rate, extruded })
                == Ok::<(PrintHead, Option<MovePlan>), MoveError>((h1, None))
        }),
{
    let p = if mode_absolute {
        Point { x: Some(h.position.x), y: Some(h.position.y), z: Some(h.position.z) }
    } else {
        Point { x: Some(0), y: Some(0), z: Some(0) }
    };
    assert(h.target_x(p) == h.position.x);
    assert(h.target_y(p) == h.position.y);
    assert(crate::arith::is_isqrt(0, 0));
    crate::arith::lemma_isqrt_unique(0, 0, isqrt_of(0));
    assert(h.xy_distance(p) == 0);
}

/// A move without destination runs no axis and changes nothing but the
/// feed rate, which it stores whatever its value.
pub proof fn lemma_move_without_destination(h: PrintHead, cmd: LinearMoveCommand)
    requires
        cmd.point is None,
    ensures
        h.after_move(cmd) == Ok::<(PrintHead, Option<MovePlan>), MoveError>(
            (
                PrintHead {
                    velocity: match cmd.feed_rate {
                        Some(f) => f,
                        None => h.velocity,
                    },
                    ..h
                },
                None,
            ),
        ),
{
}

/// Setting a positioning mode twice is setting it once, and it moves
/// nothing: the position, the feed rate and the axes stay.
pub proof fn lemma_mode_idempotent(h: PrintHead, mode: PositioningMode)
    ensures
        h.with_mode(mode).with_mode(mode) == h.with_mode(mode),
        h.with_mode(mode).position == h.position,
        h.with_mode(mode).velocity == h.velocity,
        h.wf() ==> h.with_mode(mode).wf(),
{
}

} // verus!
