//! Axis-aligned boxes, playfield bounds and bounded steps toward a point.
use vstd::prelude::*;

verus! {

/// Largest magnitude of a coordinate, in milli-units.
pub const COORD_MAX: i64 = 1_000_000_000;

/// Largest width or height of a box, in milli-units.
pub const EXTENT_MAX: i64 = 100_000_000;

/// Largest step that `move_toward` accepts, in milli-units.
pub const STEP_MAX: i64 = 1_000_000_000;

/// Distance beyond the playfield's edge at which a self-despawning entity is removed.
pub const DESPAWN_MARGIN: i64 = 200_000;

/// A point of the playfield, in milli-units; the origin is its centre.
#[derive(Clone, Copy, Debug, PartialEq, Eq, Structural)]
pub struct Pos {
    pub x: i64,
    pub y: i64,
}

/// The width and height of an axis-aligned box, in milli-units.
#[derive(Clone, Copy, Debug, PartialEq, Eq, Structural)]
pub struct Extent {
    pub w: i64,
    pub h: i64,
}

/// The playfield's full width and height, in milli-units.
#[derive(Clone, Copy, Debug, PartialEq, Eq, Structural)]
pub struct WinSize {
    pub w: i64,
    pub h: i64,
}

pub open spec fn coord_ok(c: int) -> bool {
    -COORD_MAX <= c <= COORD_MAX
}

impl Pos {
    pub open spec fn wf(self) -> bool {
        coord_ok(self.x as int) && coord_ok(self.y as int)
    }
}

impl Extent {
    pub open spec fn wf(self) -> bool {
        0 <= self.w <= EXTENT_MAX && 0 <= self.h <= EXTENT_MAX
    }
}

impl WinSize {
    pub open spec fn wf(self) -> bool {
        0 <= self.w <= COORD_MAX && 0 <= self.h <= COORD_MAX
    }
}

/// Two segments, given by centre and length, share more than a point.
pub open spec fn spans_overlap(c1: int, l1: int, c2: int, l2: int) -> bool {
    2 * c1 - l1 < 2 * c2 + l2 && 2 * c2 - l2 < 2 * c1 + l1
}

/// The boxes centred at `a` and `b` intersect with nonzero area.
pub open spec fn overlaps_spec(a: Pos, ea: Extent, b: Pos, eb: Extent) -> bool {
    spans_overlap(a.x as int, ea.w as int, b.x as int, eb.w as int)
        && spans_overlap(a.y as int, ea.h as int, b.y as int, eb.h as int)
}

/// Whether the boxes centred at `a` and `b` intersect with nonzero area;
/// boxes whose edges just touch do not.
pub fn overlaps(a: Pos, ea: Extent, b: Pos, eb: Extent) -> (r: bool)
    requires
        a.wf(),
        b.wf(),
        ea.wf(),
        eb.wf(),
    ensures
        r == overlaps_spec(a, ea, b, eb),
{
    2 * a.x - ea.w < 2 * b.x + eb.w && 2 * b.x - eb.w < 2 * a.x + ea.w && 2 * a.y - ea.h < 2
        * b.y + eb.h && 2 * b.y - eb.h < 2 * a.y + ea.h
}

/// Overlap does not depend on which box comes first.
pub proof fn lemma_overlaps_symmetric(a: Pos, ea: Extent, b: Pos, eb: Extent)
    ensures
        overlaps_spec(a, ea, b, eb) == overlaps_spec(b, eb, a, ea),
{
}

/// Boxes that are apart on some axis, by a gap or with touching edges, never
/// overlap.
pub proof fn lemma_apart_never_overlap(a: Pos, ea: Extent, b: Pos, eb: Extent)
    requires
        2 * a.x + ea.w <= 2 * b.x - eb.w || 2 * b.x + eb.w <= 2 * a.x - ea.w || 2 * a.y + ea.h
            <= 2 * b.y - eb.h || 2 * b.y + eb.h <= 2 * a.y - ea.h,
    ensures
        !overlaps_spec(a, ea, b, eb),
{
}

/// `p` lies farther than the margin beyond the playfield's edge on some axis.
pub open spec fn beyond_margin_spec(p: Pos, win: WinSize) -> bool {
    2 * p.y > win.h + 2 * DESPAWN_MARGIN || 2 * p.y < -win.h - 2 * DESPAWN_MARGIN || 2 * p.x
        > win.w + 2 * DESPAWN_MARGIN || 2 * p.x < -win.w - 2 * DESPAWN_MARGIN
}

/// Whether `p` lies farther than the despawn margin beyond the playfield's
/// half extent on some axis; a point exactly at the margin is inside.
pub fn beyond_margin(p: Pos, win: WinSize) -> (r: bool)
    requires
        p.wf(),
        win.wf(),
    ensures
        r == beyond_margin_spec(p, win),
{
    2 * p.y > win.h + 2 * DESPAWN_MARGIN || 2 * p.y < -win.h - 2 * DESPAWN_MARGIN || 2 * p.x
        > win.w + 2 * DESPAWN_MARGIN || 2 * p.x < -win.w - 2 * DESPAWN_MARGIN
}


/// The squared Euclidean distance between two points.
pub open spec fn sq_dist(a: Pos, b: Pos) -> int {
    (a.x - b.x) * (a.x - b.x) + (a.y - b.y) * (a.y - b.y)
}

/// `r` is the integer part of the square root of `n`.
pub open spec fn is_floor_sqrt(r: int, n: int) -> bool {
    0 <= r && r * r <= n < (r + 1) * (r + 1)
}

/// The integer part of the square root of `n`.
pub fn floor_sqrt(n: u64) -> (r: u64)
    ensures
        is_floor_sqrt(r as int, n as int),
{
    let mut lo: u64 = 0;
    let mut hi: u64 = 4_294_967_296;
    assert(n < hi * hi) by (nonlinear_arith)
        requires
            hi == 4_294_967_296,
            n <= u64::MAX,
    ;
    while hi - lo > 1
        invariant
            lo < hi <= 4_294_967_296,
            lo * lo <= n,
            n < hi * hi,
        decreases hi - lo,
    {
        let mid: u64 = lo + (hi - lo) / 2;
        assert(mid * mid <= 4_294_967_295 * 4_294_967_295) by (nonlinear_arith)
            requires
                mid <= 4_294_967_295,
        ;
        if mid * mid <= n {
            lo = mid;
        } else {
            hi = mid;
        }
    }
    lo
}

/// The squared distance between two points, computed without overflow.
pub fn sq_distance(a: Pos, b: Pos) -> (r: u64)
    requires
        a.wf(),
        b.wf(),
    ensures
        r == sq_dist(a, b),
{
    let dx: i64 = a.x - b.x;
    let dy: i64 = a.y - b.y;
    let ax: u64 = if dx < 0 { (-dx) as u64 } else { dx as u64 };
    let ay: u64 = if dy < 0 { (-dy) as u64 } else { dy as u64 };
    assert(ax * ax <= 4 * COORD_MAX * COORD_MAX && ay * ay <= 4 * COORD_MAX * COORD_MAX)
        by (nonlinear_arith)
        requires
            ax <= 2 * COORD_MAX,
            ay <= 2 * COORD_MAX,
    ;
    let n: u64 = ax * ax + ay * ay;
    assert(n == sq_dist(a, b)) by (nonlinear_arith)
        requires
            ax == (if dx < 0 { -(dx as int) } else { dx as int }),
            ay == (if dy < 0 { -(dy as int) } else { dy as int }),
            n == ax * ax + ay * ay,
            dx == a.x - b.x,
            dy == a.y - b.y,
    ;
    n
}

/// The integer part of the distance between two points.
pub open spec fn dist_spec(a: Pos, b: Pos) -> int {
    choose|r: int| is_floor_sqrt(r, sq_dist(a, b))
}

/// One axis of a bounded step from `c` toward `t`: move by `q`, but never past `t`.
pub open spec fn step_axis(c: int, t: int, q: int) -> int {
    if c > t {
        if c - q > t {
            c - q
        } else {
            t
        }
    } else {
        if c + q < t {
            c + q
        } else {
            t
        }
    }
}

/// The share of a step of `max_step` that falls on an axis where the offset is `d`.
pub open spec fn axis_share(d: int, max_step: int, dist: int) -> int {
    if dist == 0 {
        0
    } else {
        (if d < 0 { -d } else { d }) * max_step / dist
    }
}

/// A step of about `max_step` from `cur` along the line to `target`, where each
/// axis stops at the target's own coordinate.
pub open spec fn move_toward_spec(cur: Pos, target: Pos, max_step: int, dist: int) -> Pos {
    Pos {
        x: step_axis(cur.x as int, target.x as int, axis_share(cur.x - target.x, max_step, dist)) as i64,
        y: step_axis(cur.y as int, target.y as int, axis_share(cur.y - target.y, max_step, dist)) as i64,
    }
}

proof fn lemma_share_covers(d: int, max_step: int, dist: int)
    requires
        0 < dist <= max_step,
    ensures
        axis_share(d, max_step, dist) >= (if d < 0 { -d } else { d }),
{
    let a = if d < 0 { -d } else { d };
    assert(a * max_step >= a * dist) by (nonlinear_arith)
        requires
            a >= 0,
            dist <= max_step,
    ;
    assert(a * dist / dist == a) by (nonlinear_arith)
        requires
            dist > 0,
    ;
    assert(a * max_step / dist >= a * dist / dist) by (nonlinear_arith)
        requires
            a * max_step >= a * dist,
            dist > 0,
    ;
}

proof fn lemma_share_bounded(d: int, max_step: int, dist: int)
    requires
        0 <= max_step <= STEP_MAX,
        0 < dist,
        -2 * COORD_MAX <= d <= 2 * COORD_MAX,
    ensures
        0 <= axis_share(d, max_step, dist) <= 2 * COORD_MAX * STEP_MAX,
{
    let a = if d < 0 { -d } else { d };
    assert(0 <= a * max_step <= 2 * COORD_MAX * STEP_MAX) by (nonlinear_arith)
        requires
            0 <= a <= 2 * COORD_MAX,
            0 <= max_step <= STEP_MAX,
    ;
    assert(a * max_step / dist <= a * max_step) by (nonlinear_arith)
        requires
            a * max_step >= 0,
            dist > 0,
    ;
}

/// Where an entity at `cur` ends after one step of at most `max_step` along
/// the line toward `target`. Each axis is clamped on its own at the target's
/// coordinate, so the two axes together may travel somewhat farther than
/// `max_step`; a target within `max_step` is reached exactly.
pub fn move_toward(cur: Pos, target: Pos, max_step: i64) -> (r: Pos)
    requires
        cur.wf(),
        target.wf(),
        0 <= max_step <= STEP_MAX,
    ensures
        r == move_toward_spec(cur, target, max_step as int, dist_spec(cur, target)),
        r.wf(),
        sq_dist(cur, target) <= max_step * max_step ==> r == target,
{
    let dx: i64 = cur.x - target.x;
    let dy: i64 = cur.y - target.y;
    let ax: u64 = if dx < 0 { (-dx) as u64 } else { dx as u64 };
    let ay: u64 = if dy < 0 { (-dy) as u64 } else { dy as u64 };
    let n: u64 = sq_distance(cur, target);
    assert(n == ax * ax + ay * ay) by (nonlinear_arith)
        requires
            ax == (if dx < 0 { -(dx as int) } else { dx as int }),
            ay == (if dy < 0 { -(dy as int) } else { dy as int }),
            n == sq_dist(cur, target),
            dx == cur.x - target.x,
            dy == cur.y - target.y,
    ;
    let dist: u64 = floor_sqrt(n);
    proof {
        let d = dist_spec(cur, target);
        assert(is_floor_sqrt(dist as int, n as int));
        assert(is_floor_sqrt(d, n as int));
        lemma_floor_sqrt_unique(d, dist as int, n as int);
    }
    let (qx, qy): (i64, i64) = if dist == 0 {
        (0, 0)
    } else {
        proof {
            lemma_share_bounded(dx as int, max_step as int, dist as int);
            lemma_share_bounded(dy as int, max_step as int, dist as int);
        }
        assert(ax * max_step <= 2 * COORD_MAX * STEP_MAX && ay * max_step <= 2 * COORD_MAX
            * STEP_MAX) by (nonlinear_arith)
            requires
                ax <= 2 * COORD_MAX,
                ay <= 2 * COORD_MAX,
                0 <= max_step <= STEP_MAX,
        ;
        (
            ((ax * (max_step as u64)) / dist) as i64,
            ((ay * (max_step as u64)) / dist) as i64,
        )
    };
    proof {
        if n <= max_step * max_step && dist > 0 {
            lemma_sqrt_le(dist as int, n as int, max_step as int);
            lemma_share_covers(dx as int, max_step as int, dist as int);
            lemma_share_covers(dy as int, max_step as int, dist as int);
        }
        if dist == 0 {
            assert(n == 0) by (nonlinear_arith)
                requires
                    n < (dist + 1) * (dist + 1),
                    dist == 0,
            ;
            assert(dx == 0 && dy == 0) by (nonlinear_arith)
                requires
                    ax * ax + ay * ay == 0,
                    ax >= 0,
                    ay >= 0,
                    ax == (if dx < 0 { -(dx as int) } else { dx as int }),
                    ay == (if dy < 0 { -(dy as int) } else { dy as int }),
            ;
        }
    }
    let x: i64 = if cur.x > target.x {
        if cur.x - qx > target.x { cur.x - qx } else { target.x }
    } else {
        if cur.x + qx < target.x { cur.x + qx } else { target.x }
    };
    let y: i64 = if cur.y > target.y {
        if cur.y - qy > target.y { cur.y - qy } else { target.y }
    } else {
        if cur.y + qy < target.y { cur.y + qy } else { target.y }
    };
    Pos { x, y }
}

proof fn lemma_floor_sqrt_unique(a: int, b: int, n: int)
    requires
        is_floor_sqrt(a, n),
        is_floor_sqrt(b, n),
    ensures
        a == b,
{
    if a < b {
        assert((a + 1) * (a + 1) <= b * b) by (nonlinear_arith)
            requires
                0 <= a < b,
        ;
    } else if b < a {
        assert((b + 1) * (b + 1) <= a * a) by (nonlinear_arith)
            requires
                0 <= b < a,
        ;
    }
}

proof fn lemma_sqrt_le(r: int, n: int, m: int)
    requires
        is_floor_sqrt(r, n),
        n <= m * m,
        m >= 0,
    ensures
        r <= m,
{
    if r > m {
        assert(r * r > m * m) by (nonlinear_arith)
            requires
                r > m >= 0,
        ;
    }
}

} // verus!
