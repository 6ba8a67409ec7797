use vstd::prelude::*;

use crate::collision::{is_inside_obstacle, point_blocked, Environment, DIAMETER};
use crate::geometry::{in_plane, Point, PLANE_LIMIT};
use crate::sqrt::{floor_sqrt, isqrt, lemma_floor_sqrt};
use vstd::arithmetic::div_mod::{lemma_fundamental_div_mod, lemma_mod_pos_bound};

verus! {

/// Distance from the reference point at which a detour waypoint is placed.
pub const DETOUR_OFFSET: i64 = DIAMETER + 15;

/// The rotational sense in which detours pass round obstacles.
#[derive(Clone, Copy, Debug, PartialEq, Eq, Structural)]
pub enum Bias {
    Left,
    Right,
}

/// Ways in which planning fails.
#[derive(Clone, Copy, Debug, PartialEq, Eq, Structural)]
pub enum PlanError {
    /// The start of a blocked segment coincides with the point to detour
    /// round, so no perpendicular direction exists.
    DegenerateInput,
    /// No clear waypoint was found within the allowed attempts, or the search
    /// left the workable grid.
    DetourUnresolved,
}

/// One component of the offset of length `DETOUR_OFFSET` along a direction
/// whose component is `c` and whose squared length is `n`: the magnitude is
/// rounded down, the sign is that of `c`.
pub open spec fn offset_component(c: int, n: int) -> int {
    let m = floor_sqrt((c * c * (DETOUR_OFFSET * DETOUR_OFFSET) / n) as nat) as int;
    if c >= 0 {
        m
    } else {
        -m
    }
}

/// The offset of a detour from `reference`: `DETOUR_OFFSET` along the
/// direction from `start` to `reference` turned a quarter turn in the sense
/// of `bias`.
pub open spec fn detour_offset(start: Point, reference: Point, bias: Bias) -> (int, int) {
    let dx = reference.x - start.x;
    let dy = reference.y - start.y;
    let n = dx * dx + dy * dy;
    match bias {
        Bias::Left => (offset_component(-dy, n), offset_component(dx, n)),
        Bias::Right => (offset_component(dy, n), offset_component(-dx, n)),
    }
}

/// The detour that starts from `start` and the point `reference` found in the
/// way yields within `attempts` candidates: each candidate that is blocked
/// becomes the next reference, pushing the waypoint further out in the same
/// rotational sense.
pub open spec fn detour(
    env: &Environment,
    start: Point,
    reference: Point,
    bias: Bias,
    attempts: nat,
) -> Result<Point, PlanError>
    decreases attempts,
{
    if attempts == 0 {
        Err(PlanError::DetourUnresolved)
    } else if reference == start {
        Err(PlanError::DegenerateInput)
    } else {
        let (ox, oy) = detour_offset(start, reference, bias);
        let cx = reference.x + ox;
        let cy = reference.y + oy;
        if !(-PLANE_LIMIT <= cx <= PLANE_LIMIT && -PLANE_LIMIT <= cy <= PLANE_LIMIT) {
            Err(PlanError::DetourUnresolved)
        } else {
            let cand = Point { x: cx as i64, y: cy as i64 };
            if point_blocked(env, cand) {
                detour(env, start, cand, bias, (attempts - 1) as nat)
            } else {
                Ok(cand)
            }
        }
    }
}

/// A waypoint that `detour` accepts lies on the grid and is not blocked.
pub proof fn lemma_detour_clear(
    env: &Environment,
    start: Point,
    reference: Point,
    bias: Bias,
    attempts: nat,
)
    ensures
        detour(env, start, reference, bias, attempts) matches Ok(w) ==> in_plane(w)
            && !point_blocked(env, w),
    decreases attempts,
{
    if attempts > 0 && reference != start {
        let (ox, oy) = detour_offset(start, reference, bias);
        let cand = Point { x: (reference.x + ox) as i64, y: (reference.y + oy) as i64 };
        lemma_detour_clear(env, start, cand, bias, (attempts - 1) as nat);
    }
}

proof fn lemma_component_pair(c1: int, c2: int)
    requires
        c1 * c1 + c2 * c2 > 0,
    ensures
        ({
            let n = c1 * c1 + c2 * c2;
            let o1 = offset_component(c1, n);
            let o2 = offset_component(c2, n);
            (DETOUR_OFFSET - 3) * (DETOUR_OFFSET - 3) <= o1 * o1 + o2 * o2 <= DETOUR_OFFSET
                * DETOUR_OFFSET
        }),
{
    let n = c1 * c1 + c2 * c2;
    let kk = DETOUR_OFFSET * DETOUR_OFFSET;
    assert(DETOUR_OFFSET == 105);
    assert(kk == 11025) by (nonlinear_arith)
        requires
            kk == DETOUR_OFFSET * DETOUR_OFFSET,
            DETOUR_OFFSET == 105,
    ;
    let x1 = c1 * c1 * kk;
    let x2 = c2 * c2 * kk;
    assert(x1 >= 0 && x2 >= 0) by (nonlinear_arith)
        requires
            x1 == c1 * c1 * kk,
            x2 == c2 * c2 * kk,
            kk == 11025,
    ;
    let q1 = x1 / n;
    let q2 = x2 / n;
    lemma_fundamental_div_mod(x1, n);
    lemma_fundamental_div_mod(x2, n);
    lemma_mod_pos_bound(x1, n);
    lemma_mod_pos_bound(x2, n);
    assert(x1 + x2 == kk * n) by (nonlinear_arith)
        requires
            x1 == c1 * c1 * kk,
            x2 == c2 * c2 * kk,
            n == c1 * c1 + c2 * c2,
    ;
    assert(q1 >= 0 && q2 >= 0) by (nonlinear_arith)
        requires
            x1 == n * q1 + x1 % n,
            x2 == n * q2 + x2 % n,
            0 <= x1 % n < n,
            0 <= x2 % n < n,
            x1 >= 0,
            x2 >= 0,
            n > 0,
    ;
    assert(kk - 1 <= q1 + q2 <= kk) by (nonlinear_arith)
        requires
            x1 == n * q1 + x1 % n,
            x2 == n * q2 + x2 % n,
            0 <= x1 % n < n,
            0 <= x2 % n < n,
            x1 + x2 == kk * n,
            n > 0,
    ;
    let m1 = floor_sqrt(q1 as nat) as int;
    let m2 = floor_sqrt(q2 as nat) as int;
    lemma_floor_sqrt(q1 as nat);
    lemma_floor_sqrt(q2 as nat);
    assert(m1 <= DETOUR_OFFSET && m2 <= DETOUR_OFFSET) by (nonlinear_arith)
        requires
            m1 >= 0,
            m2 >= 0,
            m1 * m1 <= q1,
            m2 * m2 <= q2,
            q1 >= 0,
            q2 >= 0,
            q1 + q2 <= 11025,
    ;
    let o1 = offset_component(c1, n);
    let o2 = offset_component(c2, n);
    assert(o1 == m1 || o1 == -m1);
    assert(o2 == m2 || o2 == -m2);
    assert(o1 * o1 == m1 * m1 && o2 * o2 == m2 * m2) by (nonlinear_arith)
        requires
            o1 == m1 || o1 == -m1,
            o2 == m2 || o2 == -m2,
    ;
    assert(10404 <= m1 * m1 + m2 * m2 <= 11025) by (nonlinear_arith)
        requires
            m1 >= 0,
            m2 >= 0,
            m1 <= 105,
            m2 <= 105,
            m1 * m1 <= q1,
            m2 * m2 <= q2,
            q1 < (m1 + 1) * (m1 + 1),
            q2 < (m2 + 1) * (m2 + 1),
            11024 <= q1 + q2 <= 11025,
    ;
}

/// Rounding keeps a detour offset within three units of `DETOUR_OFFSET` and
/// never longer than it.
pub proof fn lemma_detour_offset_length(start: Point, reference: Point, bias: Bias)
    requires
        start != reference,
    ensures
        ({
            let (ox, oy) = detour_offset(start, reference, bias);
            (DETOUR_OFFSET - 3) * (DETOUR_OFFSET - 3) <= ox * ox + oy * oy <= DETOUR_OFFSET
                * DETOUR_OFFSET
        }),
{
    let dx = reference.x - start.x;
    let dy = reference.y - start.y;
    assert(dx * dx + dy * dy > 0) by (nonlinear_arith)
        requires
            dx != 0 || dy != 0,
    ;
    assert((-dy) * (-dy) == dy * dy && (-dx) * (-dx) == dx * dx) by (nonlinear_arith);
    match bias {
        Bias::Left => lemma_component_pair(-dy, dx),
        Bias::Right => lemma_component_pair(dy, -dx),
    }
}

/// One component of the detour offset, as `offset_component` states it.
fn scaled_component(c: i64, n: u64) -> (r: i64)
    requires
        -0x20_0000 <= c <= 0x20_0000,
        c * c <= n,
        0 < n <= 0x800_0000_0000,
    ensures
        r == offset_component(c as int, n as int),
        -0x1_0000_0000 < r < 0x1_0000_0000,
{
    let mag: u64 = if c >= 0 {
        c as u64
    } else {
        (-c) as u64
    };
    assert(mag * mag == c * c) by (nonlinear_arith)
        requires
            mag == c || mag == -c,
    ;
    let k2: u64 = (DETOUR_OFFSET * DETOUR_OFFSET) as u64;
    assert(mag * mag * k2 <= 0x100_0000_0000_0000) by (nonlinear_arith)
        requires
            mag <= 0x20_0000,
            k2 == 11025,
    ;
    let q = mag * mag * k2 / n;
    let m = isqrt(q);
    proof {
        lemma_floor_sqrt(q as nat);
        assert(m < 0x1_0000_0000) by (nonlinear_arith)
            requires
                m * m <= q,
                q <= 0xffff_ffff_ffff_ffff,
        ;
    }
    if c >= 0 {
        m as i64
    } else {
        -(m as i64)
    }
}

/// Looks for a clear waypoint round `obstacle` as seen from `start`, trying at
/// most `attempts` candidates.
pub fn search_point(
    env: &Environment,
    start: Point,
    obstacle: Point,
    bias: Bias,
    attempts: u32,
) -> (r: Result<Point, PlanError>)
    requires
        env.wf(),
        in_plane(start),
        in_plane(obstacle),
    ensures
        r == detour(env, start, obstacle, bias, attempts as nat),
        r matches Ok(w) ==> in_plane(w) && !point_blocked(env, w),
{
    proof {
        lemma_detour_clear(env, start, obstacle, bias, attempts as nat);
    }
    let mut reference = obstacle;
    let mut left: u32 = attempts;
    while left > 0
        invariant
            env.wf(),
            in_plane(start),
            in_plane(reference),
            detour(env, start, obstacle, bias, attempts as nat) == detour(
                env,
                start,
                reference,
                bias,
                left as nat,
            ),
        decreases left,
    {
        if reference == start {
            return Err(PlanError::DegenerateInput);
        }
        let dx = reference.x - start.x;
        let dy = reference.y - start.y;
        assert(0 <= dx * dx <= 0x400_0000_0000) by (nonlinear_arith)
            requires
                -0x20_0000 <= dx <= 0x20_0000,
        ;
        assert(0 <= dy * dy <= 0x400_0000_0000) by (nonlinear_arith)
            requires
                -0x20_0000 <= dy <= 0x20_0000,
        ;
        assert(dx * dx + dy * dy > 0) by (nonlinear_arith)
            requires
                dx != 0 || dy != 0,
        ;
        let n = (dx * dx + dy * dy) as u64;
        let (px, py) = match bias {
            Bias::Left => (-dy, dx),
            Bias::Right => (dy, -dx),
        };
        assert(px * px == dy * dy && py * py == dx * dx) by (nonlinear_arith)
            requires
                (px == -dy && py == dx) || (px == dy && py == -dx),
        ;
        let ox = scaled_component(px, n);
        let oy = scaled_component(py, n);
        assert(detour_offset(start, reference, bias) == (ox as int, oy as int));
        let cx = reference.x + ox;
        let cy = reference.y + oy;
        if !(-PLANE_LIMIT <= cx && cx <= PLANE_LIMIT && -PLANE_LIMIT <= cy && cy <= PLANE_LIMIT) {
            return Err(PlanError::DetourUnresolved);
        }
        let cand = Point { x: cx, y: cy };
        if !is_inside_obstacle(env, cand) {
            return Ok(cand);
        }
        reference = cand;
        left -= 1;
    }
    Err(PlanError::DetourUnresolved)
}

} // verus!
