use vstd::prelude::*;

use crate::geometry::{dist_sq, in_plane, Point};

verus! {

/// Diameter of every obstacle.
pub const DIAMETER: i64 = 90;

/// Radius of the exclusion zone round each obstacle centre.
pub const RADIUS: i64 = 45;

/// Number of equal steps into which a segment is cut for sampling; the
/// samples are taken at parameters `0/STEPS, 1/STEPS, ..., STEPS/STEPS`.
pub const SAMPLE_STEPS: i64 = 150;

/// The obstacles of one planning session, with the optional field bounds.
pub struct Environment {
    pub obstacles: Vec<Point>,
    pub field_max: Point,
    pub enforce_field_bounds: bool,
}

impl Environment {
    /// Every obstacle centre lies on the workable grid.
    pub open spec fn wf(&self) -> bool {
        forall|j: int| 0 <= j < self.obstacles@.len() ==> in_plane(#[trigger] self.obstacles@[j])
    }
}

/// `p` lies strictly within the exclusion radius of the obstacle centred at `c`.
pub open spec fn within_radius(c: Point, p: Point) -> bool {
    dist_sq(p, c) < RADIUS * RADIUS
}

/// `p` lies outside the field, where the field bounds are enforced.
pub open spec fn outside_field(env: &Environment, p: Point) -> bool {
    env.enforce_field_bounds && (p.x < 0 || p.y < 0 || p.x > env.field_max.x || p.y
        > env.field_max.y)
}

/// `p` may not be used as a waypoint.
pub open spec fn point_blocked(env: &Environment, p: Point) -> bool {
    outside_field(env, p) || exists|j: int|
        0 <= j < env.obstacles@.len() && within_radius(#[trigger] env.obstacles@[j], p)
}

/// Whether `p` lies inside an obstacle's exclusion zone, or outside the field
/// when its bounds are enforced.
pub fn is_inside_obstacle(env: &Environment, p: Point) -> (r: bool)
    requires
        env.wf(),
        in_plane(p),
    ensures
        r == point_blocked(env, p),
{
    if env.enforce_field_bounds && (p.x < 0 || p.y < 0 || p.x > env.field_max.x || p.y
        > env.field_max.y) {
        return true;
    }
    let mut j: usize = 0;
    while j < env.obstacles.len()
        invariant
            env.wf(),
            in_plane(p),
            j <= env.obstacles@.len(),
            forall|k: int| 0 <= k < j ==> !within_radius(#[trigger] env.obstacles@[k], p),
        decreases env.obstacles@.len() - j,
    {
        let c = env.obstacles[j];
        assert(in_plane(env.obstacles@[j as int]));
        let dx = p.x - c.x;
        let dy = p.y - c.y;
        assert(0 <= dx * dx <= 0x400_0000_0000) by (nonlinear_arith)
            requires
                -0x20_0000 <= dx <= 0x20_0000,
        ;
        assert(0 <= dy * dy <= 0x400_0000_0000) by (nonlinear_arith)
            requires
                -0x20_0000 <= dy <= 0x20_0000,
        ;
        if dx * dx + dy * dy < RADIUS * RADIUS {
            return true;
        }
        j += 1;
    }
    false
}

/// Times `SAMPLE_STEPS`, the offset from `c` of the sample at parameter
/// `i / SAMPLE_STEPS` on the segment from `a` to `b`, along one axis.
pub open spec fn scaled_offset(a: int, b: int, c: int, i: int) -> int {
    SAMPLE_STEPS * (a - c) + i * (b - a)
}

/// The sample at parameter `i / SAMPLE_STEPS` on the segment from `a` to `b`
/// lies strictly within the exclusion radius of the obstacle centred at `c`.
pub open spec fn sample_inside(c: Point, a: Point, b: Point, i: int) -> bool {
    let ox = scaled_offset(a.x as int, b.x as int, c.x as int, i);
    let oy = scaled_offset(a.y as int, b.y as int, c.y as int, i);
    ox * ox + oy * oy < (RADIUS * SAMPLE_STEPS) * (RADIUS * SAMPLE_STEPS)
}

/// The first obstacle, in list order from index `j`, that holds sample `i`.
pub open spec fn scan_obstacles(obs: Seq<Point>, a: Point, b: Point, i: int, j: int) -> Option<
    Point,
>
    decreases obs.len() - j,
{
    if j < 0 || j >= obs.len() {
        None
    } else if sample_inside(obs[j], a, b, i) {
        Some(obs[j])
    } else {
        scan_obstacles(obs, a, b, i, j + 1)
    }
}

/// The first obstacle hit by the samples of segment `a`-`b` from sample `i` on.
pub open spec fn scan_samples(obs: Seq<Point>, a: Point, b: Point, i: int) -> Option<Point>
    decreases SAMPLE_STEPS + 1 - i,
{
    if i < 0 || i > SAMPLE_STEPS {
        None
    } else {
        match scan_obstacles(obs, a, b, i, 0) {
            Some(c) => Some(c),
            None => scan_samples(obs, a, b, i + 1),
        }
    }
}

/// The first obstacle hit by the segments of `t` from segment `k` on.
pub open spec fn scan_segments(obs: Seq<Point>, t: Seq<Point>, k: int) -> Option<Point>
    decreases t.len() - k,
{
    if k < 0 || k + 1 >= t.len() {
        None
    } else {
        match scan_samples(obs, t[k], t[k + 1], 0) {
            Some(c) => Some(c),
            None => scan_segments(obs, t, k + 1),
        }
    }
}

/// The centre of the first obstacle met by the trajectory `t`, scanning its
/// segments in order, the samples of each from start to end, and at each
/// sample the obstacles in list order.
pub open spec fn first_collision(env: &Environment, t: Seq<Point>) -> Option<Point> {
    scan_segments(env.obstacles@, t, 0)
}

/// No sample of the segment from `a` to `b` lies within any obstacle's radius.
pub open spec fn segment_clear(env: &Environment, a: Point, b: Point) -> bool {
    forall|i: int, j: int|
        0 <= i <= SAMPLE_STEPS && 0 <= j < env.obstacles@.len() ==> !#[trigger] sample_inside(env.obstacles@[j], a, b, i)
}

/// No sample of any segment of `t` lies within any obstacle's radius.
pub open spec fn trajectory_clear(env: &Environment, t: Seq<Point>) -> bool {
    forall|k: int| 0 <= k < t.len() - 1 ==> #[trigger] segment_clear(env, t[k], t[k + 1])
}

/// All points of `t` lie on the workable grid.
pub open spec fn all_in_plane(t: Seq<Point>) -> bool {
    forall|k: int| 0 <= k < t.len() ==> in_plane(#[trigger] t[k])
}

/// Whether the sample at parameter `i / SAMPLE_STEPS` on the segment from `a`
/// to `b` lies strictly within the exclusion radius round `c`.
fn sample_hits(c: Point, a: Point, b: Point, i: i64) -> (r: bool)
    requires
        in_plane(c),
        in_plane(a),
        in_plane(b),
        0 <= i <= SAMPLE_STEPS,
    ensures
        r == sample_inside(c, a, b, i as int),
{
    let ax = a.x - c.x;
    let bx = b.x - a.x;
    let ay = a.y - c.y;
    let by = b.y - a.y;
    assert(-0x2000_0000 <= i * bx <= 0x2000_0000) by (nonlinear_arith)
        requires
            -0x20_0000 <= bx <= 0x20_0000,
            0 <= i <= 150,
    ;
    assert(-0x2000_0000 <= i * by <= 0x2000_0000) by (nonlinear_arith)
        requires
            -0x20_0000 <= by <= 0x20_0000,
            0 <= i <= 150,
    ;
    let ox = SAMPLE_STEPS * ax + i * bx;
    let oy = SAMPLE_STEPS * ay + i * by;
    assert(0 <= ox * ox <= 0x1000_0000_0000_0000) by (nonlinear_arith)
        requires
            -0x4000_0000 <= ox <= 0x4000_0000,
    ;
    assert(0 <= oy * oy <= 0x1000_0000_0000_0000) by (nonlinear_arith)
        requires
            -0x4000_0000 <= oy <= 0x4000_0000,
    ;
    ox * ox + oy * oy < (RADIUS * SAMPLE_STEPS) * (RADIUS * SAMPLE_STEPS)
}

/// The first obstacle, in list order, that holds sample `i` of segment `a`-`b`.
fn obstacle_at_sample(env: &Environment, a: Point, b: Point, i: i64) -> (r: Option<Point>)
    requires
        env.wf(),
        in_plane(a),
        in_plane(b),
        0 <= i <= SAMPLE_STEPS,
    ensures
        r == scan_obstacles(env.obstacles@, a, b, i as int, 0),
{
    let mut j: usize = 0;
    while j < env.obstacles.len()
        invariant
            env.wf(),
            in_plane(a),
            in_plane(b),
            0 <= i <= SAMPLE_STEPS,
            j <= env.obstacles@.len(),
            scan_obstacles(env.obstacles@, a, b, i as int, 0) == scan_obstacles(
                env.obstacles@,
                a,
                b,
                i as int,
                j as int,
            ),
        decreases env.obstacles@.len() - j,
    {
        let c = env.obstacles[j];
        assert(in_plane(env.obstacles@[j as int]));
        if sample_hits(c, a, b, i) {
            return Some(c);
        }
        j += 1;
    }
    None
}

/// The first obstacle met by the samples of segment `a`-`b`, in parameter order.
fn segment_obstacle(env: &Environment, a: Point, b: Point) -> (r: Option<Point>)
    requires
        env.wf(),
        in_plane(a),
        in_plane(b),
    ensures
        r == scan_samples(env.obstacles@, a, b, 0),
{
    let mut i: i64 = 0;
    while i <= SAMPLE_STEPS
        invariant
            env.wf(),
            in_plane(a),
            in_plane(b),
            0 <= i <= SAMPLE_STEPS + 1,
            scan_samples(env.obstacles@, a, b, 0) == scan_samples(env.obstacles@, a, b, i as int),
        decreases SAMPLE_STEPS + 1 - i,
    {
        let hit = obstacle_at_sample(env, a, b, i);
        if hit.is_some() {
            return hit;
        }
        i += 1;
    }
    None
}

/// The centre of the first obstacle whose exclusion zone the trajectory `t`
/// enters, scanning segments in order and the samples of each from start to
/// end; `None` when the trajectory is clear or has fewer than two points.
pub fn is_obstacle(env: &Environment, t: &Vec<Point>) -> (r: Option<Point>)
    requires
        env.wf(),
        all_in_plane(t@),
    ensures
        r == first_collision(env, t@),
        r is None <==> trajectory_clear(env, t@),
{
    proof {
        lemma_first_collision_none(env, t@);
    }
    if t.len() < 2 {
        return None;
    }
    let mut k: usize = 0;
    while k < t.len() - 1
        invariant
            env.wf(),
            all_in_plane(t@),
            k + 1 <= t@.len(),
            first_collision(env, t@) == scan_segments(env.obstacles@, t@, k as int),
        decreases t@.len() - k,
    {
        assert(in_plane(t@[k as int]) && in_plane(t@[k + 1]));
        let hit = segment_obstacle(env, t[k], t[k + 1]);
        if hit.is_some() {
            assert(scan_segments(env.obstacles@, t@, k as int) == hit);
            proof {
                lemma_first_collision_none(env, t@);
            }
            return hit;
        }
        k += 1;
    }
    None
}

proof fn lemma_scan_obstacles_none(env: &Environment, a: Point, b: Point, i: int, j: int)
    requires
        0 <= j <= env.obstacles@.len(),
    ensures
        scan_obstacles(env.obstacles@, a, b, i, j) is None <==> forall|k: int|
            j <= k < env.obstacles@.len() ==> !#[trigger] sample_inside(env.obstacles@[k], a, b, i),
    decreases env.obstacles@.len() - j,
{
    if j < env.obstacles@.len() {
        lemma_scan_obstacles_none(env, a, b, i, j + 1);
    }
}

proof fn lemma_scan_samples_none(env: &Environment, a: Point, b: Point, i: int)
    requires
        0 <= i <= SAMPLE_STEPS + 1,
    ensures
        scan_samples(env.obstacles@, a, b, i) is None <==> forall|s: int, k: int|
            i <= s <= SAMPLE_STEPS && 0 <= k < env.obstacles@.len() ==> !#[trigger] sample_inside(env.obstacles@[k], a, b, s),
    decreases SAMPLE_STEPS + 1 - i,
{
    if i <= SAMPLE_STEPS {
        lemma_scan_obstacles_none(env, a, b, i, 0);
        lemma_scan_samples_none(env, a, b, i + 1);
    }
}

proof fn lemma_scan_segments_none(env: &Environment, t: Seq<Point>, k: int)
    requires
        0 <= k,
    ensures
        scan_segments(env.obstacles@, t, k) is None <==> forall|m: int|
            k <= m < t.len() - 1 ==> #[trigger] segment_clear(env, t[m], t[m + 1]),
    decreases t.len() - k,
{
    if k + 1 < t.len() {
        lemma_scan_samples_none(env, t[k], t[k + 1], 0);
        lemma_scan_segments_none(env, t, k + 1);
        if forall|m: int| k <= m < t.len() - 1 ==> #[trigger] segment_clear(env, t[m], t[m + 1]) {
            assert(segment_clear(env, t[k], t[k + 1]));
        }
        if scan_segments(env.obstacles@, t, k) is None {
            assert forall|m: int| k <= m < t.len() - 1 implies #[trigger] segment_clear(
                env,
                t[m],
                t[m + 1],
            ) by {
                if m > k {
                    assert(k + 1 <= m < t.len() - 1);
                }
            }
        }
    }
}

/// A trajectory meets no obstacle exactly when all its samples are clear.
pub proof fn lemma_first_collision_none(env: &Environment, t: Seq<Point>)
    ensures
        first_collision(env, t) is None <==> trajectory_clear(env, t),
{
    lemma_scan_segments_none(env, t, 0);
}

proof fn lemma_scan_obstacles_member(obs: Seq<Point>, a: Point, b: Point, i: int, j: int)
    ensures
        scan_obstacles(obs, a, b, i, j) matches Some(c) ==> obs.contains(c),
    decreases obs.len() - j,
{
    if 0 <= j < obs.len() {
        lemma_scan_obstacles_member(obs, a, b, i, j + 1);
    }
}

proof fn lemma_scan_samples_member(obs: Seq<Point>, a: Point, b: Point, i: int)
    ensures
        scan_samples(obs, a, b, i) matches Some(c) ==> obs.contains(c),
    decreases SAMPLE_STEPS + 1 - i,
{
    if 0 <= i <= SAMPLE_STEPS {
        lemma_scan_obstacles_member(obs, a, b, i, 0);
        lemma_scan_samples_member(obs, a, b, i + 1);
    }
}

proof fn lemma_scan_segments_member(obs: Seq<Point>, t: Seq<Point>, k: int)
    ensures
        scan_segments(obs, t, k) matches Some(c) ==> obs.contains(c),
    decreases t.len() - k,
{
    if 0 <= k && k + 1 < t.len() {
        lemma_scan_samples_member(obs, t[k], t[k + 1], 0);
        lemma_scan_segments_member(obs, t, k + 1);
    }
}

/// The obstacle that a trajectory meets first is one of the environment's.
pub proof fn lemma_collision_on_grid(env: &Environment, t: Seq<Point>)
    requires
        env.wf(),
    ensures
        first_collision(env, t) matches Some(c) ==> env.obstacles@.contains(c) && in_plane(c),
{
    lemma_scan_segments_member(env.obstacles@, t, 0);
}

} // verus!
