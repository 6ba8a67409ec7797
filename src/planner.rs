use vstd::prelude::*;

use crate::collision::{
    all_in_plane, first_collision, is_obstacle, lemma_collision_on_grid, segment_clear,
    trajectory_clear, Environment,
};
use crate::detour::{detour, lemma_detour_clear, search_point, Bias, PlanError};
use crate::geometry::{in_plane, Point};

verus! {

/// Bounds that keep one planning run finite.
#[derive(Clone, Copy, Debug, PartialEq, Eq, Structural)]
pub struct Limits {
    /// Recursion depth at which a trajectory is returned as it stands.
    pub max_depth: u32,
    /// Candidates tried for one detour before giving up.
    pub detour_attempts: u32,
}

impl Limits {
    /// Two nested detours, and up to thirty-two candidates for each.
    pub fn standard() -> (r: Limits)
        ensures
            r == (Limits { max_depth: 2, detour_attempts: 32 }),
    {
        Limits { max_depth: 2, detour_attempts: 32 }
    }
}

/// A planned trajectory, with whether every sample of it is clear.
pub struct Plan {
    pub points: Vec<Point>,
    pub collision_free: bool,
}

/// The trajectory that planning `t` at recursion depth `depth` yields: a clear
/// trajectory, or one at the depth bound, stays as it is; otherwise a detour
/// waypoint is found round the first obstacle met, seen from the first point,
/// and the legs from the first point to the waypoint and from the waypoint to
/// the last point are planned one level deeper and joined.
pub open spec fn plan(
    env: &Environment,
    t: Seq<Point>,
    depth: nat,
    bias: Bias,
    limits: Limits,
) -> Result<Seq<Point>, PlanError>
    decreases limits.max_depth - depth,
{
    if depth >= limits.max_depth {
        Ok(t)
    } else {
        match first_collision(env, t) {
            None => Ok(t),
            Some(o) => match detour(env, t[0], o, bias, limits.detour_attempts as nat) {
                Err(e) => Err(e),
                Ok(w) => match plan(env, seq![t[0], w], depth + 1, bias, limits) {
                    Err(e) => Err(e),
                    Ok(p1) => match plan(env, seq![w, t.last()], depth + 1, bias, limits) {
                        Err(e) => Err(e),
                        Ok(p2) => Ok(joined(p1, p2)),
                    },
                },
            },
        }
    }
}

/// The join of two trajectories that meet at a point, without repeating it.
pub open spec fn joined(p1: Seq<Point>, p2: Seq<Point>) -> Seq<Point> {
    p1 + p2.skip(1)
}

/// The first and last points of `p` are `a` and `b`.
pub open spec fn runs_between(p: Seq<Point>, a: Point, b: Point) -> bool {
    p.len() >= 2 && p[0] == a && p.last() == b
}

/// Planning keeps the points on the grid, and keeps the first and last points
/// of a trajectory of at least two points.
pub proof fn lemma_plan_endpoints(
    env: &Environment,
    t: Seq<Point>,
    depth: nat,
    bias: Bias,
    limits: Limits,
)
    requires
        all_in_plane(t),
    ensures
        plan(env, t, depth, bias, limits) matches Ok(p) ==> all_in_plane(p) && (t.len() >= 2
            ==> runs_between(p, t[0], t.last())),
    decreases limits.max_depth - depth,
{
    if depth < limits.max_depth {
        if let Some(o) = first_collision(env, t) {
            lemma_detour_clear(env, t[0], o, bias, limits.detour_attempts as nat);
            if let Ok(w) = detour(env, t[0], o, bias, limits.detour_attempts as nat) {
                let s1 = seq![t[0], w];
                let s2 = seq![w, t.last()];
                assert(t.len() >= 2) by {
                    if t.len() < 2 {
                        assert(first_collision(env, t) is None);
                    }
                }
                assert(all_in_plane(s1)) by {
                    assert(in_plane(t[0]));
                }
                assert(all_in_plane(s2)) by {
                    assert(in_plane(t[t.len() - 1]));
                }
                lemma_plan_endpoints(env, s1, depth + 1, bias, limits);
                lemma_plan_endpoints(env, s2, depth + 1, bias, limits);
                if let Ok(p1) = plan(env, s1, depth + 1, bias, limits) {
                    if let Ok(p2) = plan(env, s2, depth + 1, bias, limits) {
                        let j = joined(p1, p2);
                        assert(j[0] == p1[0]);
                        assert(j.last() == p2.last());
                        assert forall|k: int| 0 <= k < j.len() implies in_plane(#[trigger] j[k]) by {
                            if k >= p1.len() {
                                assert(j[k] == p2[k - p1.len() + 1]);
                            }
                        }
                    }
                }
            }
        }
    }
}

/// Two trajectories that meet at a point are clear exactly when their join is.
pub proof fn lemma_joined_clear(env: &Environment, p1: Seq<Point>, p2: Seq<Point>)
    requires
        p1.len() >= 1,
        p2.len() >= 1,
        p1.last() == p2[0],
    ensures
        trajectory_clear(env, joined(p1, p2)) <==> trajectory_clear(env, p1) && trajectory_clear(
            env,
            p2,
        ),
{
    let j = joined(p1, p2);
    let n1 = p1.len() as int;
    assert forall|k: int| 0 <= k < j.len() implies #[trigger] j[k] == (if k < n1 {
        p1[k]
    } else {
        p2[k - n1 + 1]
    }) by {}
    if trajectory_clear(env, j) {
        assert forall|k: int| 0 <= k < p1.len() - 1 implies #[trigger] segment_clear(
            env,
            p1[k],
            p1[k + 1],
        ) by {
            assert(segment_clear(env, j[k], j[k + 1]));
        }
        assert forall|k: int| 0 <= k < p2.len() - 1 implies #[trigger] segment_clear(
            env,
            p2[k],
            p2[k + 1],
        ) by {
            let m = k + n1 - 1;
            assert(segment_clear(env, j[m], j[m + 1]));
            assert(j[m + 1] == p2[k + 1]);
        }
    }
    if trajectory_clear(env, p1) && trajectory_clear(env, p2) {
        assert forall|k: int| 0 <= k < j.len() - 1 implies #[trigger] segment_clear(
            env,
            j[k],
            j[k + 1],
        ) by {
            if k < n1 - 1 {
                assert(segment_clear(env, p1[k], p1[k + 1]));
            } else {
                let m = k - n1 + 1;
                assert(segment_clear(env, p2[m], p2[m + 1]));
            }
        }
    }
}

/// The trajectory `t1` followed by `t2` without its first point.
fn join_straight(t1: Vec<Point>, t2: Vec<Point>) -> (r: Vec<Point>)
    requires
        t2@.len() >= 1,
    ensures
        r@ == joined(t1@, t2@),
{
    let mut result = t1;
    let mut i: usize = 1;
    while i < t2.len()
        invariant
            1 <= i <= t2@.len(),
            result@ == t1@ + t2@.subrange(1, i as int),
        decreases t2@.len() - i,
    {
        result.push(t2[i]);
        i += 1;
        assert(result@ =~= t1@ + t2@.subrange(1, i as int));
    }
    assert(t2@.subrange(1, t2@.len() as int) =~= t2@.skip(1));
    result
}

/// Plans the trajectory `t` at recursion depth `depth`, as `plan` states, and
/// reports whether the result is clear of every obstacle.
pub fn build_path_plan(
    env: &Environment,
    t: &Vec<Point>,
    depth: u32,
    bias: Bias,
    limits: Limits,
) -> (r: Result<Plan, PlanError>)
    requires
        env.wf(),
        all_in_plane(t@),
    ensures
        match r {
            Ok(p) => plan(env, t@, depth as nat, bias, limits) == Ok::<Seq<Point>, PlanError>(
                p.points@,
            ) && p.collision_free == trajectory_clear(env, p.points@),
            Err(e) => plan(env, t@, depth as nat, bias, limits) == Err::<Seq<Point>, PlanError>(e),
        },
    decreases limits.max_depth - depth,
{
    if depth >= limits.max_depth {
        let hit = is_obstacle(env, t);
        return Ok(Plan { points: t.clone(), collision_free: hit.is_none() });
    }
    match is_obstacle(env, t) {
        None => Ok(Plan { points: t.clone(), collision_free: true }),
        Some(obstacle) => {
            assert(t@.len() >= 2);
            assert(in_plane(t@[0]) && in_plane(t@[t@.len() - 1]));
            proof {
                assert(in_plane(obstacle)) by {
                    lemma_collision_on_grid(env, t@);
                }
            }
            let start = t[0];
            let goal = t[t.len() - 1];
            let waypoint = search_point(env, start, obstacle, bias, limits.detour_attempts)?;
            let first_leg = vec![start, waypoint];
            let second_leg = vec![waypoint, goal];
            assert(first_leg@ =~= seq![t@[0], waypoint]);
            assert(second_leg@ =~= seq![waypoint, t@.last()]);
            proof {
                lemma_plan_endpoints(env, first_leg@, depth as nat + 1, bias, limits);
                lemma_plan_endpoints(env, second_leg@, depth as nat + 1, bias, limits);
            }
            let p1 = build_path_plan(env, &first_leg, depth + 1, bias, limits)?;
            let p2 = build_path_plan(env, &second_leg, depth + 1, bias, limits)?;
            proof {
                lemma_joined_clear(env, p1.points@, p2.points@);
            }
            let collision_free = p1.collision_free && p2.collision_free;
            let points = join_straight(p1.points, p2.points);
            Ok(Plan { points, collision_free })
        },
    }
}

} // verus!
