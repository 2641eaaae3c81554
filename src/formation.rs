//! Elliptical flight paths of enemies: their generation at spawn time and the
//! per-tick step that follows them.
use vstd::prelude::*;
use crate::geometry::{
    Pos, WinSize, coord_ok, sq_dist, sq_distance, move_toward, move_toward_spec, dist_spec,
    COORD_MAX,
};
use crate::random::random_in;

verus! {

/// Length of one simulation tick, in microseconds.
pub const TICK: i64 = 16_667;

/// Speed of a unit velocity, in milli-units per second.
pub const BASE_SPEED: i64 = 500_000;

/// Speed along every formation's path, in milli-units per second.
pub const FORMATION_SPEED: i64 = BASE_SPEED;

/// Longest distance that an enemy travels in one tick, in milli-units: the
/// speed times the tick, rounded down.
pub const FORMATION_STEP: i64 = 8_333;

/// An enemy closer than this to its path point (in milli-units) moves its
/// phase on: the step times the speed in units per second, over twenty.
pub const RESYNC_DISTANCE: i64 = 208_325;

/// A full turn, in micro-radians.
pub const TURN: i64 = 6_283_185;

/// Half a turn, in micro-radians.
pub const HALF_TURN: i64 = 3_141_593;

/// Bounds of the horizontal radius, in milli-units (both included).
pub const RADIUS_X_MIN: i64 = 140_000;
pub const RADIUS_X_MAX: i64 = 250_000;

/// Bounds of the vertical radius, in milli-units (both included).
pub const RADIUS_Y_MIN: i64 = 80_000;
pub const RADIUS_Y_MAX: i64 = 150_000;

/// Distance kept between a spawn point and the playfield's edge, in milli-units.
pub const SPAWN_MARGIN: i64 = 100_000;

/// Which way an enemy goes round its ellipse.
#[derive(Clone, Copy, Debug, PartialEq, Eq, Structural)]
pub enum Spin {
    Clockwise,
    CounterClockwise,
}

/// The flight path of one enemy: an ellipse around `pivot` with radii
/// `radius_x` and `radius_y`, its current phase `angle` in micro-radians, the
/// point where the enemy appeared and the way it turns.
#[derive(Clone, Copy, Debug, PartialEq, Eq, Structural)]
pub struct Formation {
    pub start: Pos,
    pub pivot: Pos,
    pub radius_x: i64,
    pub radius_y: i64,
    pub angle: i64,
    pub spin: Spin,
}

/// Spawn points lie in the playfield less the margin on every side: twice a
/// coordinate stays strictly inside the span.
pub open spec fn spawn_span_ok(c: int, full: int) -> bool {
    -(full / 2 - SPAWN_MARGIN) <= c < full / 2 - SPAWN_MARGIN
}

/// The playfield is large enough to hold spawn points.
pub open spec fn spawn_room(win: WinSize) -> bool {
    win.w / 2 > SPAWN_MARGIN && win.h / 2 > SPAWN_MARGIN
}

/// Spawns on the left half turn clockwise, the others counter-clockwise.
pub open spec fn spin_for(start_x: int) -> Spin {
    if start_x < 0 {
        Spin::Clockwise
    } else {
        Spin::CounterClockwise
    }
}

/// The path of an enemy spawned at `start`: at phase 0 the ellipse passes
/// through `start`.
pub open spec fn formation_spec(start: Pos, radius_x: i64, radius_y: i64) -> Formation {
    Formation {
        start,
        pivot: Pos { x: (start.x - radius_x) as i64, y: start.y },
        radius_x,
        radius_y,
        angle: 0,
        spin: spin_for(start.x as int),
    }
}

/// Phase advance per tick, in micro-radians: the step over a quarter of the
/// ellipse's smaller circumference estimate.
pub open spec fn angle_step_spec(radius_x: int, radius_y: int) -> int {
    let r = if radius_x < radius_y { radius_x } else { radius_y };
    2 * FORMATION_STEP * 1_000_000_000_000 / (HALF_TURN * r)
}

impl Formation {
    pub open spec fn wf(self) -> bool {
        &&& self.start.wf()
        &&& self.pivot.wf()
        &&& RADIUS_X_MIN <= self.radius_x <= RADIUS_X_MAX
        &&& RADIUS_Y_MIN <= self.radius_y <= RADIUS_Y_MAX
        &&& 0 <= self.angle < TURN
        &&& self.spin == spin_for(self.start.x as int)
    }

    /// The phase after one more tick, brought back into one turn.
    pub open spec fn next_angle_spec(self) -> int {
        let d = angle_step_spec(self.radius_x as int, self.radius_y as int);
        let a = match self.spin {
            Spin::Clockwise => self.angle - d,
            Spin::CounterClockwise => self.angle + d,
        };
        a % (TURN as int)
    }

    /// The path after one tick toward `target` from `pos` (see `follow`).
    pub open spec fn followed_spec(self, pos: Pos, target: Pos) -> Formation {
        let r = move_toward_spec(pos, target, FORMATION_STEP as int, dist_spec(pos, target));
        Formation {
            angle: if sq_dist(r, target) < RESYNC_DISTANCE * RESYNC_DISTANCE {
                self.next_angle_spec() as i64
            } else {
                self.angle
            },
            ..self
        }
    }

    /// The path of an enemy spawned at `start` with the given radii.
    pub fn new(start: Pos, radius_x: i64, radius_y: i64) -> (r: Formation)
        requires
            start.wf(),
            coord_ok(start.x - radius_x),
            RADIUS_X_MIN <= radius_x <= RADIUS_X_MAX,
            RADIUS_Y_MIN <= radius_y <= RADIUS_Y_MAX,
        ensures
            r == formation_spec(start, radius_x, radius_y),
            r.wf(),
    {
        Formation {
            start,
            pivot: Pos { x: start.x - radius_x, y: start.y },
            radius_x,
            radius_y,
            angle: 0,
            spin: if start.x < 0 { Spin::Clockwise } else { Spin::CounterClockwise },
        }
    }

    /// The phase after one more tick, in `[0, TURN)`.
    pub fn next_angle(&self) -> (r: i64)
        requires
            self.wf(),
        ensures
            r == self.next_angle_spec(),
            0 <= r < TURN,
    {
        let m: i64 = if self.radius_x < self.radius_y { self.radius_x } else { self.radius_y };
        assert(HALF_TURN * m >= HALF_TURN * RADIUS_Y_MIN) by (nonlinear_arith)
            requires
                m >= RADIUS_Y_MIN,
        ;
        assert(HALF_TURN * m <= HALF_TURN * RADIUS_X_MAX) by (nonlinear_arith)
            requires
                m <= RADIUS_X_MAX,
        ;
        let d: i64 = 2 * FORMATION_STEP * 1_000_000_000_000 / (HALF_TURN * m);
        assert(d <= 2 * FORMATION_STEP * 1_000_000_000_000 / (HALF_TURN * RADIUS_Y_MIN)) by (
        nonlinear_arith)
            requires
                HALF_TURN * m >= HALF_TURN * RADIUS_Y_MIN > 0,
                d == 2 * FORMATION_STEP * 1_000_000_000_000 / (HALF_TURN * m),
        ;
        let a: i64 = match self.spin {
            Spin::Clockwise => self.angle - d,
            Spin::CounterClockwise => self.angle + d,
        };
        if a < 0 {
            a + TURN
        } else if a >= TURN {
            a - TURN
        } else {
            a
        }
    }

    /// One tick along the path. `target` is the point of the ellipse at the
    /// next phase (`next_angle`). The enemy at `pos` moves toward it by at
    /// most `FORMATION_STEP`; when it then lies within `RESYNC_DISTANCE` of
    /// it, the phase moves on to the next one, otherwise it stays. Returns the new
    /// position.
    pub fn follow(&mut self, pos: Pos, target: Pos) -> (r: Pos)
        requires
            old(self).wf(),
            pos.wf(),
            target.wf(),
        ensures
            r == move_toward_spec(pos, target, FORMATION_STEP as int, dist_spec(pos, target)),
            r.wf(),
            sq_dist(pos, target) <= FORMATION_STEP * FORMATION_STEP ==> r == target,
            *final(self) == old(self).followed_spec(pos, target),
            final(self).wf(),
    {
        let next: i64 = self.next_angle();
        let r = move_toward(pos, target, FORMATION_STEP);
        let close: bool = sq_distance(r, target) < (RESYNC_DISTANCE * RESYNC_DISTANCE) as u64;
        if close {
            self.angle = next;
        }
        r
    }
}

/// However many ticks an enemy follows its path, the phase stays within one
/// turn and the path keeps its pivot, radii, spawn point and spin; the phase
/// moves on only when the step ends within the resync distance of the path
/// point.
pub proof fn lemma_follow_keeps_path(f: Formation, pos: Pos, target: Pos)
    requires
        f.wf(),
    ensures
        f.followed_spec(pos, target).wf(),
        0 <= f.followed_spec(pos, target).angle < TURN,
        f.followed_spec(pos, target).pivot == f.pivot,
        f.followed_spec(pos, target).radius_x == f.radius_x,
        f.followed_spec(pos, target).radius_y == f.radius_y,
        f.followed_spec(pos, target).start == f.start,
        f.followed_spec(pos, target).spin == f.spin,
        f.followed_spec(pos, target).angle != f.angle ==> sq_dist(
            move_toward_spec(pos, target, FORMATION_STEP as int, dist_spec(pos, target)),
            target,
        ) < RESYNC_DISTANCE * RESYNC_DISTANCE,
{
    let a = match f.spin {
        Spin::Clockwise => f.angle - angle_step_spec(f.radius_x as int, f.radius_y as int),
        Spin::CounterClockwise => f.angle + angle_step_spec(f.radius_x as int, f.radius_y as int),
    };
    assert(0 <= a % (TURN as int) < TURN) by (nonlinear_arith);
}

/// The half-extents of the region where enemies spawn: the playfield's
/// half width and half height, each less the spawn margin.
pub fn spawn_bounds(win: WinSize) -> (r: (i64, i64))
    requires
        win.wf(),
    ensures
        r == ((win.w / 2 - SPAWN_MARGIN) as i64, (win.h / 2 - SPAWN_MARGIN) as i64),
{
    (win.w / 2 - SPAWN_MARGIN, win.h / 2 - SPAWN_MARGIN)
}

/// Makes the flight path of each new enemy.
#[derive(Clone, Copy, Debug, PartialEq, Eq, Structural)]
pub struct FormationMaker {
    /// How many paths it has made (saturating); the paths do not depend on it.
    pub made: u64,
}

impl FormationMaker {
    pub fn new() -> (r: Self)
        ensures
            r.made == 0,
    {
        FormationMaker { made: 0 }
    }

    /// A new path with a random spawn point drawn from `[-bx, bx)` by
    /// `[-by, by)`, where `(bx, by)` is `spawn_bounds(win)`, and random radii
    /// drawn within their bounds, both included.
    pub fn make(&mut self, win: WinSize) -> (r: Formation)
        requires
            win.wf(),
            spawn_room(win),
        ensures
            spawn_span_ok(r.start.x as int, win.w as int),
            spawn_span_ok(r.start.y as int, win.h as int),
            RADIUS_X_MIN <= r.radius_x <= RADIUS_X_MAX,
            RADIUS_Y_MIN <= r.radius_y <= RADIUS_Y_MAX,
            r == formation_spec(r.start, r.radius_x, r.radius_y),
            r.wf(),
            final(self).made == if old(self).made < u64::MAX {
                old(self).made + 1
            } else {
                old(self).made as int
            },
    {
        let (w_span, h_span) = spawn_bounds(win);
        let x: i64 = random_in(-w_span, w_span);
        let y: i64 = random_in(-h_span, h_span);
        let rx: i64 = random_in(RADIUS_X_MIN, RADIUS_X_MAX + 1);
        let ry: i64 = random_in(RADIUS_Y_MIN, RADIUS_Y_MAX + 1);
        if self.made < u64::MAX {
            self.made = self.made + 1;
        }
        Formation::new(Pos { x, y }, rx, ry)
    }
}

} // verus!
