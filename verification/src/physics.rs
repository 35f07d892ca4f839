//! Kinematic movement of a rectangle through a tile world: a swept move per
//! axis that stops in front of solids, gravity, ledge grabbing and landing
//! on one-way platforms.

use vstd::prelude::*;
use crate::common::{BoundingBox, Pos};
use crate::tiles::Dir;
use crate::units::{in_limit, tile_index, tile_of, tile_origin, EPSILON};
use crate::world::{blocked_at, overlaps_any_solid, MapLike};

verus! {

/// Downward velocity gained per step.
pub const GRAVITY: i64 = 7;

/// Largest downward velocity that gravity builds up to.
pub const TERMINAL_VELOCITY: i64 = 900;

/// Number of halvings in a blocked sweep.
pub const BISECTION_STEPS: u32 = 16;

/// Largest gap between a mover's leading edge and a wall at which the mover
/// can grab the wall's ledge.
pub const HANG_REACH: i64 = 100;

/// What a step of movement produced: the moved rectangle and the sides on
/// which it was stopped.
#[derive(Clone, Copy, Debug, PartialEq, Eq, Structural)]
pub struct KinematicResult {
    pub new_bb: BoundingBox,
    pub on_bottom: bool,
    pub on_top: bool,
    pub on_left: bool,
    pub on_right: bool,
}

/// True when the rectangle, moved by `d` along one axis, is blocked in `m`.
pub open spec fn blocked_shift<M: MapLike>(
    m: &M,
    x: int,
    y: int,
    w: int,
    h: int,
    horizontal: bool,
    d: int,
) -> bool {
    if horizontal {
        blocked_at(m, x + d, y, w, h)
    } else {
        blocked_at(m, x, y + d, w, h)
    }
}

/// The distance that `steps` halvings of the interval from `lo` to `hi`
/// settle on: each step tests the middle of the interval and keeps the half
/// that has a free low end.
pub open spec fn bisect<M: MapLike>(
    m: &M,
    x: int,
    y: int,
    w: int,
    h: int,
    horizontal: bool,
    sign: int,
    lo: int,
    hi: int,
    steps: nat,
) -> int
    decreases steps,
{
    if steps == 0 {
        lo
    } else {
        let mid = (lo + hi) / 2;
        if blocked_shift(m, x, y, w, h, horizontal, sign * mid) {
            bisect(m, x, y, w, h, horizontal, sign, lo, mid, (steps - 1) as nat)
        } else {
            bisect(m, x, y, w, h, horizontal, sign, mid, hi, (steps - 1) as nat)
        }
    }
}

/// The displacement of a swept move by `delta` along one axis, and whether
/// the move was stopped short.
///
/// A zero move does nothing. A move whose end position is free is taken
/// whole. A move that starts blocked stays where it is. Any other move goes
/// as far as the halving search finds free, and then steps back by one unit
/// unless the place one unit back is blocked.
pub open spec fn sweep<M: MapLike>(
    m: &M,
    x: int,
    y: int,
    w: int,
    h: int,
    horizontal: bool,
    delta: int,
) -> (int, bool) {
    if delta == 0 {
        (0, false)
    } else if !blocked_shift(m, x, y, w, h, horizontal, delta) {
        (delta, false)
    } else if blocked_shift(m, x, y, w, h, horizontal, 0) {
        (0, true)
    } else {
        let sign: int = if delta > 0 {
            1
        } else {
            -1
        };
        let reach = bisect(m, x, y, w, h, horizontal, sign, 0, sign * delta, 16);
        if blocked_shift(m, x, y, w, h, horizontal, sign * (reach - 1)) {
            (sign * reach, true)
        } else {
            (sign * (reach - 1), true)
        }
    }
}

/// The halving search stays inside its interval, and ends on a free place if
/// it starts from one.
pub proof fn lemma_bisect_free<M: MapLike>(
    m: &M,
    x: int,
    y: int,
    w: int,
    h: int,
    horizontal: bool,
    sign: int,
    lo: int,
    hi: int,
    steps: nat,
)
    requires
        lo <= hi,
    ensures
        lo <= bisect(m, x, y, w, h, horizontal, sign, lo, hi, steps) <= hi,
        !blocked_shift(m, x, y, w, h, horizontal, sign * lo) ==> !blocked_shift(
            m,
            x,
            y,
            w,
            h,
            horizontal,
            sign * bisect(m, x, y, w, h, horizontal, sign, lo, hi, steps),
        ),
    decreases steps,
{
    if steps > 0 {
        let mid = (lo + hi) / 2;
        if blocked_shift(m, x, y, w, h, horizontal, sign * mid) {
            lemma_bisect_free(m, x, y, w, h, horizontal, sign, lo, mid, (steps - 1) as nat);
        } else {
            lemma_bisect_free(m, x, y, w, h, horizontal, sign, mid, hi, (steps - 1) as nat);
        }
    }
}

/// Two to the power `n`.
pub open spec fn pow2(n: nat) -> int
    decreases n,
{
    if n == 0 {
        1
    } else {
        2 * pow2((n - 1) as nat)
    }
}

/// When the interval is no longer than two to the number of steps, and its
/// high end is blocked, the halving search ends directly in front of a
/// blocked place: one unit further the rectangle is blocked.
pub proof fn lemma_bisect_tight<M: MapLike>(
    m: &M,
    x: int,
    y: int,
    w: int,
    h: int,
    horizontal: bool,
    sign: int,
    lo: int,
    hi: int,
    steps: nat,
)
    requires
        lo < hi,
        hi - lo <= pow2(steps),
        blocked_shift(m, x, y, w, h, horizontal, sign * hi),
    ensures
        blocked_shift(
            m,
            x,
            y,
            w,
            h,
            horizontal,
            sign * (bisect(m, x, y, w, h, horizontal, sign, lo, hi, steps) + 1),
        ),
    decreases steps,
{
    if steps > 0 {
        let mid = (lo + hi) / 2;
        if blocked_shift(m, x, y, w, h, horizontal, sign * mid) {
            if lo < mid {
                lemma_bisect_tight(m, x, y, w, h, horizontal, sign, lo, mid, (steps - 1) as nat);
            } else {
                lemma_bisect_stuck(m, x, y, w, h, horizontal, sign, lo, (steps - 1) as nat);
            }
        } else {
            lemma_bisect_tight(m, x, y, w, h, horizontal, sign, mid, hi, (steps - 1) as nat);
        }
    }
}

/// On an interval of length zero the halving search returns its low end.
proof fn lemma_bisect_stuck<M: MapLike>(
    m: &M,
    x: int,
    y: int,
    w: int,
    h: int,
    horizontal: bool,
    sign: int,
    lo: int,
    steps: nat,
)
    ensures
        bisect(m, x, y, w, h, horizontal, sign, lo, lo, steps) == lo,
    decreases steps,
{
    if steps > 0 {
        lemma_bisect_stuck(m, x, y, w, h, horizontal, sign, lo, (steps - 1) as nat);
    }
}

proof fn lemma_signed(sign: int, d: int)
    requires
        sign == 1 || sign == -1,
    ensures
        sign == 1 ==> sign * d == d,
        sign == -1 ==> sign * d == -d,
{
}

/// The rectangles that a sweep accepts: a positive size within the limit, a
/// position within the limit on the axis of the sweep, and within twice the
/// limit and one on the other axis.
pub open spec fn sweep_in_range(x: int, y: int, w: int, h: int, horizontal: bool) -> bool {
    &&& 0 < w && in_limit(w)
    &&& 0 < h && in_limit(h)
    &&& -1_400_000_000_001 <= x <= 1_400_000_000_001
    &&& -1_400_000_000_001 <= y <= 1_400_000_000_001
    &&& if horizontal {
        in_limit(x)
    } else {
        in_limit(y)
    }
}

/// Tests the rectangle moved by `d` along one axis.
fn blocked_after<M: MapLike>(m: &M, x: i64, y: i64, w: i64, h: i64, horizontal: bool, d: i64) -> (r:
    bool)
    requires
        m.wf(),
        sweep_in_range(x as int, y as int, w as int, h as int, horizontal),
        -700_000_000_001 <= d <= 700_000_000_001,
    ensures
        r == blocked_shift(m, x as int, y as int, w as int, h as int, horizontal, d as int),
{
    if horizontal {
        overlaps_any_solid(m, x + d, y, w, h)
    } else {
        overlaps_any_solid(m, x, y + d, w, h)
    }
}

/// Moves a rectangle by `delta` along one axis as far as the world lets it.
/// Returns the displacement and whether the move was stopped short.
pub fn sweep_axis<M: MapLike>(
    m: &M,
    x: i64,
    y: i64,
    w: i64,
    h: i64,
    horizontal: bool,
    delta: i64,
) -> (r: (i64, bool))
    requires
        m.wf(),
        sweep_in_range(x as int, y as int, w as int, h as int, horizontal),
        in_limit(delta as int),
    ensures
        (r.0 as int, r.1) == sweep(m, x as int, y as int, w as int, h as int, horizontal, delta as int),
{
    if delta == 0 {
        return (0, false);
    }
    if !blocked_after(m, x, y, w, h, horizontal, delta) {
        return (delta, false);
    }
    if blocked_after(m, x, y, w, h, horizontal, 0) {
        return (0, true);
    }
    let forward = delta > 0;
    let ghost sign: int = if forward { 1 } else { -1 };
    let dist: i64 = if forward { delta } else { -delta };
    proof {
        lemma_signed(sign, delta as int);
    }
    let mut lo: i64 = 0;
    let mut hi: i64 = dist;
    let mut i: u32 = 0;
    while i < BISECTION_STEPS
        invariant
            m.wf(),
            sweep_in_range(x as int, y as int, w as int, h as int, horizontal),
            sign == (if forward { 1int } else { -1int }),
            0 <= lo <= hi <= dist <= 700_000_000_000,
            i <= 16,
            bisect(m, x as int, y as int, w as int, h as int, horizontal, sign, 0, dist as int, 16)
                == bisect(
                m,
                x as int,
                y as int,
                w as int,
                h as int,
                horizontal,
                sign,
                lo as int,
                hi as int,
                (16 - i) as nat,
            ),
        decreases 16 - i,
    {
        let mid: i64 = (lo + hi) / 2;
        let offset: i64 = if forward { mid } else { -mid };
        proof {
            lemma_signed(sign, mid as int);
        }
        if blocked_after(m, x, y, w, h, horizontal, offset) {
            hi = mid;
        } else {
            lo = mid;
        }
        i += 1;
    }
    let back: i64 = lo - EPSILON;
    let back_offset: i64 = if forward { back } else { -back };
    let reach_offset: i64 = if forward { lo } else { -lo };
    proof {
        lemma_signed(sign, back as int);
        lemma_signed(sign, lo as int);
    }
    if blocked_after(m, x, y, w, h, horizontal, back_offset) {
        (reach_offset, true)
    } else {
        (back_offset, true)
    }
}

/// The vertical velocity that a step moves by: with gravity, the velocity
/// plus `GRAVITY`, but no more than `TERMINAL_VELOCITY`.
pub open spec fn falling_velocity(vy: int, gravity: bool) -> int {
    if gravity {
        if vy + 7 < 900 {
            vy + 7
        } else {
            900
        }
    } else {
        vy
    }
}

/// The result of one step of movement: a horizontal sweep by `vx`, then a
/// vertical sweep from where the first one ended. A blocked vertical sweep
/// sets the vertical velocity to zero; the horizontal velocity is kept.
pub open spec fn integrated<M: MapLike>(m: &M, bb: BoundingBox, gravity: bool) -> KinematicResult {
    let across = sweep(m, bb.x as int, bb.y as int, bb.w as int, bb.h as int, true, bb.vx as int);
    let out_x = bb.x + across.0;
    let vy = falling_velocity(bb.vy as int, gravity);
    let down = sweep(m, out_x, bb.y as int, bb.w as int, bb.h as int, false, vy);
    KinematicResult {
        new_bb: BoundingBox {
            x: out_x as i64,
            y: (bb.y + down.0) as i64,
            w: bb.w,
            h: bb.h,
            vx: bb.vx,
            vy: if down.1 {
                0
            } else {
                vy as i64
            },
        },
        on_bottom: down.1 && vy > 0,
        on_top: down.1 && vy < 0,
        on_left: across.1 && bb.vx < 0,
        on_right: across.1 && bb.vx > 0,
    }
}

/// A sweep ends between one unit behind its start and its full length, and
/// on a free place if it started from one.
pub proof fn lemma_sweep_free<M: MapLike>(
    m: &M,
    x: int,
    y: int,
    w: int,
    h: int,
    horizontal: bool,
    delta: int,
)
    ensures
        delta >= 0 ==> -1 <= sweep(m, x, y, w, h, horizontal, delta).0 <= delta,
        delta <= 0 ==> delta <= sweep(m, x, y, w, h, horizontal, delta).0 <= 1,
        !blocked_shift(m, x, y, w, h, horizontal, 0) ==> !blocked_shift(
            m,
            x,
            y,
            w,
            h,
            horizontal,
            sweep(m, x, y, w, h, horizontal, delta).0,
        ),
{
    if delta != 0 && blocked_shift(m, x, y, w, h, horizontal, delta) && !blocked_shift(
        m,
        x,
        y,
        w,
        h,
        horizontal,
        0,
    ) {
        let sign: int = if delta > 0 {
            1
        } else {
            -1
        };
        lemma_signed(sign, delta);
        lemma_signed(sign, 0);
        lemma_bisect_free(m, x, y, w, h, horizontal, sign, 0, sign * delta, 16);
        let reach = bisect(m, x, y, w, h, horizontal, sign, 0, sign * delta, 16);
        lemma_signed(sign, reach);
        lemma_signed(sign, reach - 1);
    }
}

/// Two to the power 16 is 65536.
proof fn lemma_pow2_16()
    ensures
        pow2(16) == 65536,
{
    assert(pow2(0) == 1);
    assert(pow2(1) == 2);
    assert(pow2(2) == 4);
    assert(pow2(3) == 8);
    assert(pow2(4) == 16);
    assert(pow2(5) == 32);
    assert(pow2(6) == 64);
    assert(pow2(7) == 128);
    assert(pow2(8) == 256);
    assert(pow2(9) == 512);
    assert(pow2(10) == 1024);
    assert(pow2(11) == 2048);
    assert(pow2(12) == 4096);
    assert(pow2(13) == 8192);
    assert(pow2(14) == 16384);
    assert(pow2(15) == 32768);
    assert(pow2(16) == 65536);
}

/// A sweep of at most 65536 units that starts free and is stopped short
/// ends close to what stopped it: one or two units further along, the
/// rectangle is blocked.
pub proof fn lemma_sweep_close<M: MapLike>(
    m: &M,
    x: int,
    y: int,
    w: int,
    h: int,
    horizontal: bool,
    delta: int,
)
    requires
        -65536 <= delta <= 65536,
        !blocked_shift(m, x, y, w, h, horizontal, 0),
        sweep(m, x, y, w, h, horizontal, delta).1,
    ensures
        delta > 0 ==> blocked_shift(
            m,
            x,
            y,
            w,
            h,
            horizontal,
            sweep(m, x, y, w, h, horizontal, delta).0 + 1,
        ) || blocked_shift(m, x, y, w, h, horizontal, sweep(m, x, y, w, h, horizontal, delta).0 + 2),
        delta < 0 ==> blocked_shift(
            m,
            x,
            y,
            w,
            h,
            horizontal,
            sweep(m, x, y, w, h, horizontal, delta).0 - 1,
        ) || blocked_shift(m, x, y, w, h, horizontal, sweep(m, x, y, w, h, horizontal, delta).0 - 2),
{
    let sign: int = if delta > 0 {
        1
    } else {
        -1
    };
    lemma_signed(sign, delta);
    lemma_pow2_16();
    lemma_bisect_tight(m, x, y, w, h, horizontal, sign, 0, sign * delta, 16);
    let reach = bisect(m, x, y, w, h, horizontal, sign, 0, sign * delta, 16);
    lemma_signed(sign, reach);
    lemma_signed(sign, reach - 1);
    lemma_signed(sign, reach + 1);
}

/// A rectangle without velocity, stepped without gravity, stays exactly as
/// it is, and no side is reported as blocked.
pub proof fn lemma_rest_stays<M: MapLike>(m: &M, bb: BoundingBox)
    requires
        bb.vx == 0,
        bb.vy == 0,
    ensures
        integrated(m, bb, false).new_bb == bb,
        !integrated(m, bb, false).on_bottom,
        !integrated(m, bb, false).on_top,
        !integrated(m, bb, false).on_left,
        !integrated(m, bb, false).on_right,
{
}

/// A rectangle that starts free of solids and closed doors is free of them
/// after a step, whatever its velocity.
pub proof fn lemma_step_stays_free<M: MapLike>(m: &M, bb: BoundingBox, gravity: bool)
    requires
        bb.in_range(),
        !blocked_at(m, bb.x as int, bb.y as int, bb.w as int, bb.h as int),
    ensures
        !blocked_at(
            m,
            integrated(m, bb, gravity).new_bb.x as int,
            integrated(m, bb, gravity).new_bb.y as int,
            integrated(m, bb, gravity).new_bb.w as int,
            integrated(m, bb, gravity).new_bb.h as int,
        ),
{
    let across = sweep(m, bb.x as int, bb.y as int, bb.w as int, bb.h as int, true, bb.vx as int);
    lemma_sweep_free(m, bb.x as int, bb.y as int, bb.w as int, bb.h as int, true, bb.vx as int);
    let out_x = bb.x + across.0;
    let vy = falling_velocity(bb.vy as int, gravity);
    lemma_sweep_free(m, out_x, bb.y as int, bb.w as int, bb.h as int, false, vy);
}

/// Tests a rectangle against the solid tiles under its corners and against
/// closed doors.
pub fn collides_with_map<M: MapLike>(map: &M, x: i64, y: i64, w: i64, h: i64) -> (r: bool)
    requires
        map.wf(),
        crate::units::rect_in_span(x as int, y as int, w as int, h as int),
    ensures
        r == blocked_at(map, x as int, y as int, w as int, h as int),
{
    overlaps_any_solid(map, x, y, w, h)
}

/// Moves a rectangle by its velocity for one step: first across, then, with
/// gravity added if asked, down or up. Each move stops in front of solids.
pub fn integrate_kinematic<M: MapLike>(map: &M, bb: &BoundingBox, gravity: bool) -> (r:
    KinematicResult)
    requires
        map.wf(),
        bb.in_range(),
    ensures
        r == integrated(map, *bb, gravity),
        r.new_bb.in_span(),
{
    let (dx, hit_x) = sweep_axis(map, bb.x, bb.y, bb.w, bb.h, true, bb.vx);
    proof {
        lemma_sweep_free(map, bb.x as int, bb.y as int, bb.w as int, bb.h as int, true, bb.vx as int);
    }
    let out_x: i64 = bb.x + dx;
    let vy: i64 = if gravity {
        if bb.vy + GRAVITY < TERMINAL_VELOCITY {
            bb.vy + GRAVITY
        } else {
            TERMINAL_VELOCITY
        }
    } else {
        bb.vy
    };
    let (dy, hit_y) = sweep_axis(map, out_x, bb.y, bb.w, bb.h, false, vy);
    proof {
        lemma_sweep_free(map, out_x as int, bb.y as int, bb.w as int, bb.h as int, false, vy as int);
    }
    KinematicResult {
        new_bb: BoundingBox {
            x: out_x,
            y: bb.y + dy,
            w: bb.w,
            h: bb.h,
            vx: bb.vx,
            vy: if hit_y { 0 } else { vy },
        },
        on_bottom: hit_y && vy > 0,
        on_top: hit_y && vy < 0,
        on_left: hit_x && bb.vx < 0,
        on_right: hit_x && bb.vx > 0,
    }
}

/// The tile column of the wall that a mover pressing towards `dir` can grab.
/// To the left it is the column next to the one that holds the left edge.
/// To the right it is the column whose near face is nearest to the right
/// edge, where an edge up to `HANG_REACH` past a face still belongs to that
/// face.
pub open spec fn hang_column(bb: BoundingBox, dir: Dir) -> int {
    match dir {
        Dir::Right => tile_of(bb.x + bb.w - 1 - 100) + 1,
        Dir::Left => tile_of(bb.x as int) - 1,
    }
}

/// The distance from the rectangle's leading edge to the near face of the
/// wall column, counted in the direction `dir`: negative for a right edge
/// that lies past the face, and then no less than `-HANG_REACH`.
pub open spec fn hang_gap(bb: BoundingBox, dir: Dir) -> int {
    match dir {
        Dir::Right => tile_origin(hang_column(bb, dir)) - (bb.x + bb.w),
        Dir::Left => bb.x - tile_origin(tile_of(bb.x as int)),
    }
}

/// Where a falling mover that presses towards `dir` comes to hang, if it
/// does: its top edge has just entered a new tile row, the wall column is
/// solid in that row and open in the row above, and the leading edge is at
/// most `HANG_REACH` before the wall's face (to the right, at most
/// `HANG_REACH` past it too). The mover then sits flush against the face
/// with its top at the top of the row.
pub open spec fn hang_spot<M: MapLike>(m: &M, bb: BoundingBox, new_bb: BoundingBox, dir: Dir)
    -> Option<Pos> {
    let row = tile_of(new_bb.y as int);
    let col = hang_column(new_bb, dir);
    if new_bb.y > bb.y && tile_of(bb.y as int) != row && hang_gap(new_bb, dir) <= 100 && m.tile_at(
        col,
        row,
    ).0.solid() && !m.tile_at(col, row - 1).0.solid() {
        Some(
            Pos {
                x: match dir {
                    Dir::Right => (tile_origin(col) - new_bb.w) as i64,
                    Dir::Left => tile_origin(tile_of(new_bb.x as int)) as i64,
                },
                y: tile_origin(row) as i64,
            },
        )
    } else {
        None
    }
}

/// Decides whether a mover that fell from `bb` to `new_bb` while pressing
/// towards `dir` grabs a ledge, and returns the place where it then hangs.
pub fn check_and_snap_hang<M: MapLike>(bb: &BoundingBox, new_bb: &BoundingBox, map: &M, dir: Dir)
    -> (r: Option<Pos>)
    requires
        map.wf(),
        bb.in_span(),
        new_bb.in_span(),
    ensures
        r == hang_spot(map, *bb, *new_bb, dir),
{
    if new_bb.y <= bb.y {
        return None;
    }
    let row: i32 = tile_index(new_bb.y);
    if tile_index(bb.y) == row {
        return None;
    }
    let left_col: i32 = tile_index(new_bb.x);
    let (col, gap, snap_x): (i32, i64, i64) = match dir {
        Dir::Right => {
            let c: i32 = tile_index(new_bb.x + new_bb.w - 1 - HANG_REACH) + 1;
            let edge: i64 = c as i64 * 1000;
            (c, edge - (new_bb.x + new_bb.w), edge - new_bb.w)
        },
        Dir::Left => {
            let edge: i64 = left_col as i64 * 1000;
            (left_col - 1, new_bb.x - edge, edge)
        },
    };
    if gap > HANG_REACH {
        return None;
    }
    let solid_here = map.is_solid_at(col, row);
    let solid_above = map.is_solid_at(col, row - 1);
    if !solid_here || solid_above {
        return None;
    }
    Some(Pos { x: snap_x, y: row as i64 * 1000 })
}

/// The tile row that holds the rectangle's bottom corners.
pub open spec fn foot_row(bb: BoundingBox) -> int {
    tile_of(bb.y + bb.h - 1)
}

/// True when a mover that went from `before` to `after` lands on a one-way
/// platform: its bottom corners have moved down into a new tile row, and in
/// that row a platform lies under the left or the right corner.
pub open spec fn lands_on_platform<M: MapLike>(m: &M, before: BoundingBox, after: BoundingBox)
    -> bool {
    let row = foot_row(after);
    &&& foot_row(before) < row
    &&& (m.tile_at(tile_of(after.x as int), row).1.platform() || m.tile_at(
        tile_of(after.x + after.w - 1),
        row,
    ).1.platform())
}

/// The rectangle at rest on top of the row that holds its bottom corners.
pub open spec fn landed(after: BoundingBox) -> BoundingBox {
    BoundingBox { y: (tile_origin(foot_row(after)) - after.h) as i64, vy: 0, ..after }
}

/// Lets a mover that has come down onto a one-way platform rest on it.
/// Returns true, and puts `after` on the platform with no vertical velocity,
/// when the mover lands; else returns false and leaves `after` as it is.
pub fn check_platform_snap<M: MapLike>(before: &BoundingBox, after: &mut BoundingBox, map: &M)
    -> (r: bool)
    requires
        map.wf(),
        before.in_span(),
        old(after).in_span(),
    ensures
        r == lands_on_platform(map, *before, *old(after)),
        r ==> *final(after) == landed(*old(after)),
        !r ==> *final(after) == *old(after),
{
    let row: i32 = tile_index(after.y + after.h - 1);
    if tile_index(before.y + before.h - 1) >= row {
        return false;
    }
    let left_col: i32 = tile_index(after.x);
    let right_col: i32 = tile_index(after.x + after.w - 1);
    if !(map.is_platform_at(left_col, row) || map.is_platform_at(right_col, row)) {
        return false;
    }
    after.y = row as i64 * 1000 - after.h;
    after.vy = 0;
    true
}

/// The result of one step of movement followed by the landing check: where
/// the mover has come down onto a one-way platform, it rests on it and
/// counts as stopped at its bottom.
pub open spec fn integrated_with_platforms<M: MapLike>(m: &M, bb: BoundingBox, gravity: bool)
    -> KinematicResult {
    let moved = integrated(m, bb, gravity);
    if lands_on_platform(m, bb, moved.new_bb) {
        KinematicResult { new_bb: landed(moved.new_bb), on_bottom: true, ..moved }
    } else {
        moved
    }
}

/// Moves a rectangle for one step as `integrate_kinematic` does, and then
/// lets it rest on a one-way platform that it has come down onto.
pub fn integrate_with_platforms<M: MapLike>(map: &M, bb: &BoundingBox, gravity: bool) -> (r:
    KinematicResult)
    requires
        map.wf(),
        bb.in_range(),
    ensures
        r == integrated_with_platforms(map, *bb, gravity),
        r.new_bb.in_span(),
{
    let moved = integrate_kinematic(map, bb, gravity);
    let mut after = moved.new_bb;
    if check_platform_snap(bb, &mut after, map) {
        KinematicResult {
            new_bb: after,
            on_bottom: true,
            on_top: moved.on_top,
            on_left: moved.on_left,
            on_right: moved.on_right,
        }
    } else {
        moved
    }
}

} // verus!
