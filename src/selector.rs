use vstd::prelude::*;

use crate::collision::{
    all_in_plane, lemma_first_collision_none, segment_clear, trajectory_clear, Environment,
};
use crate::detour::{Bias, PlanError};
use crate::geometry::{in_plane, Point};
use crate::length::{
    lemma_polyline_at_least_direct, path_length, polyline_length, segment_length,
};
use crate::planner::{build_path_plan, lemma_plan_endpoints, plan, runs_between, Limits, Plan};

verus! {

/// A planned trajectory with its length and whether it is clear.
pub struct PlannedPath {
    pub points: Vec<Point>,
    pub length: u128,
    pub collision_free: bool,
}

/// One or two trajectories from start to goal, the shorter first.
pub struct PlanningResult {
    pub first: PlannedPath,
    pub second: Option<PlannedPath>,
}

impl PlannedPath {
    /// The length and the flag describe the points.
    pub open spec fn describes(&self, env: &Environment) -> bool {
        &&& self.length == polyline_length(self.points@)
        &&& self.collision_free == trajectory_clear(env, self.points@)
    }
}

/// The points of an optional planned trajectory.
pub open spec fn points_of(p: Option<PlannedPath>) -> Option<Seq<Point>> {
    match p {
        Some(q) => Some(q.points@),
        None => None,
    }
}

/// The plan for a single bias, from `start` to `goal` at depth zero.
pub open spec fn plan_with_bias(
    env: &Environment,
    start: Point,
    goal: Point,
    bias: Bias,
    limits: Limits,
) -> Result<Seq<Point>, PlanError> {
    plan(env, seq![start, goal], 0, bias, limits)
}

/// What the selector makes of the left-turn and right-turn plans: when both
/// succeed, the shorter first and the longer second, or the left-turn plan
/// alone when their lengths are equal; when one succeeds, that one alone; when
/// neither does, the left-turn plan's error.
pub open spec fn select(
    left: Result<Seq<Point>, PlanError>,
    right: Result<Seq<Point>, PlanError>,
) -> Result<(Seq<Point>, Option<Seq<Point>>), PlanError> {
    match (left, right) {
        (Ok(a), Ok(b)) => if polyline_length(a) < polyline_length(b) {
            Ok((a, Some(b)))
        } else if polyline_length(a) > polyline_length(b) {
            Ok((b, Some(a)))
        } else {
            Ok((a, None))
        },
        (Ok(a), Err(_)) => Ok((a, None)),
        (Err(_), Ok(b)) => Ok((b, None)),
        (Err(e), Err(_)) => Err(e),
    }
}

/// The selection that `plan_paths` makes for `start` and `goal`.
pub open spec fn planned_paths(env: &Environment, start: Point, goal: Point, limits: Limits) -> Result<
    (Seq<Point>, Option<Seq<Point>>),
    PlanError,
> {
    select(
        plan_with_bias(env, start, goal, Bias::Left, limits),
        plan_with_bias(env, start, goal, Bias::Right, limits),
    )
}

/// Planning a trajectory that no obstacle touches returns it unchanged.
pub proof fn lemma_plan_clear_unchanged(
    env: &Environment,
    t: Seq<Point>,
    depth: nat,
    bias: Bias,
    limits: Limits,
)
    requires
        trajectory_clear(env, t),
    ensures
        plan(env, t, depth, bias, limits) == Ok::<Seq<Point>, PlanError>(t),
{
    lemma_first_collision_none(env, t);
}

/// When the straight segment from `start` to `goal` is clear, the selector
/// returns that segment alone.
pub proof fn lemma_plan_paths_clear(env: &Environment, start: Point, goal: Point, limits: Limits)
    requires
        segment_clear(env, start, goal),
    ensures
        planned_paths(env, start, goal, limits) == Ok::<
            (Seq<Point>, Option<Seq<Point>>),
            PlanError,
        >((seq![start, goal], None)),
{
    let t = seq![start, goal];
    assert(trajectory_clear(env, t)) by {
        assert forall|k: int| 0 <= k < t.len() - 1 implies #[trigger] segment_clear(
            env,
            t[k],
            t[k + 1],
        ) by {
            assert(k == 0);
        }
    }
    lemma_plan_clear_unchanged(env, t, 0, Bias::Left, limits);
    lemma_plan_clear_unchanged(env, t, 0, Bias::Right, limits);
}

/// Every trajectory that the selector returns runs from `start` to `goal` and
/// is at least as long as the straight segment between them.
pub proof fn lemma_planned_paths_ends(env: &Environment, start: Point, goal: Point, limits: Limits)
    requires
        in_plane(start),
        in_plane(goal),
    ensures
        planned_paths(env, start, goal, limits) matches Ok((a, b)) ==> {
            &&& runs_between(a, start, goal)
            &&& all_in_plane(a)
            &&& polyline_length(a) >= segment_length(start, goal)
            &&& (b matches Some(c) ==> runs_between(c, start, goal) && all_in_plane(c)
                && polyline_length(c) >= segment_length(start, goal))
        },
{
    let t = seq![start, goal];
    assert(all_in_plane(t)) by {
        assert(t[0] == start && t[1] == goal);
    }
    lemma_plan_endpoints(env, t, 0, Bias::Left, limits);
    lemma_plan_endpoints(env, t, 0, Bias::Right, limits);
    if let Ok(p) = plan_with_bias(env, start, goal, Bias::Left, limits) {
        lemma_polyline_at_least_direct(p);
    }
    if let Ok(p) = plan_with_bias(env, start, goal, Bias::Right, limits) {
        lemma_polyline_at_least_direct(p);
    }
}

/// When both biases yield a trajectory, the first returned is strictly the
/// shorter, and a second is returned only when their lengths differ.
pub proof fn lemma_planned_paths_ordered(
    env: &Environment,
    start: Point,
    goal: Point,
    limits: Limits,
)
    ensures
        planned_paths(env, start, goal, limits) matches Ok((a, Some(b))) ==> polyline_length(a)
            < polyline_length(b),
{
}

fn describe(env: &Environment, plan: Plan) -> (r: PlannedPath)
    requires
        all_in_plane(plan.points@),
        plan.collision_free == trajectory_clear(env, plan.points@),
    ensures
        r.points@ == plan.points@,
        r.describes(env),
{
    let length = path_length(&plan.points);
    PlannedPath { points: plan.points, length, collision_free: plan.collision_free }
}

/// Plans from `start` to `goal` with both biases and returns the results, the
/// shorter first, as `select` states.
pub fn plan_paths(env: &Environment, start: Point, goal: Point, limits: Limits) -> (r: Result<
    PlanningResult,
    PlanError,
>)
    requires
        env.wf(),
        in_plane(start),
        in_plane(goal),
    ensures
        match r {
            Ok(res) => {
                &&& planned_paths(env, start, goal, limits) == Ok::<
                    (Seq<Point>, Option<Seq<Point>>),
                    PlanError,
                >((res.first.points@, points_of(res.second)))
                &&& res.first.describes(env)
                &&& res.second matches Some(p) ==> p.describes(env)
                &&& runs_between(res.first.points@, start, goal)
                &&& res.first.length >= segment_length(start, goal)
                &&& res.second matches Some(p) ==> runs_between(p.points@, start, goal)
                    && res.first.length < p.length
            },
            Err(e) => planned_paths(env, start, goal, limits) == Err::<
                (Seq<Point>, Option<Seq<Point>>),
                PlanError,
            >(e),
        },
{
    let t = vec![start, goal];
    assert(t@ =~= seq![start, goal]);
    assert(all_in_plane(t@)) by {
        assert(t@[0] == start && t@[1] == goal);
    }
    proof {
        lemma_planned_paths_ends(env, start, goal, limits);
        lemma_plan_endpoints(env, t@, 0, Bias::Left, limits);
        lemma_plan_endpoints(env, t@, 0, Bias::Right, limits);
    }
    let left = build_path_plan(env, &t, 0, Bias::Left, limits);
    let right = build_path_plan(env, &t, 0, Bias::Right, limits);
    match (left, right) {
        (Ok(a), Ok(b)) => {
            let a = describe(env, a);
            let b = describe(env, b);
            if a.length < b.length {
                Ok(PlanningResult { first: a, second: Some(b) })
            } else if a.length > b.length {
                Ok(PlanningResult { first: b, second: Some(a) })
            } else {
                Ok(PlanningResult { first: a, second: None })
            }
        },
        (Ok(a), Err(_)) => Ok(PlanningResult { first: describe(env, a), second: None }),
        (Err(_), Ok(b)) => Ok(PlanningResult { first: describe(env, b), second: None }),
        (Err(e), Err(_)) => Err(e),
    }
}

} // verus!
