use vstd::prelude::*;

use crate::collision::{all_in_plane, Environment, DIAMETER};
use crate::detour::PlanError;
use crate::geometry::{dist_sq, in_plane, Point, PLANE_LIMIT};
use crate::planner::Limits;
use crate::selector::{plan_paths, planned_paths, PlannedPath};

verus! {

/// Number of obstacles that a session collects before planning.
pub const ENEMY_COUNT: usize = 3;

/// Radius round a key point within which no other point may be placed.
pub const KEY_POINT_CLEARANCE: i64 = 6;

/// The stage that an interactive session is in.
#[derive(Clone, Copy, Debug, PartialEq, Eq, Structural)]
pub enum LoopState {
    Ready,
    EnemiesSelection,
    InitialSelection,
}

/// The mouse button behind an input event.
#[derive(Clone, Copy, Debug, PartialEq, Eq, Structural)]
pub enum Button {
    Left,
    Right,
}

impl LoopState {
    /// The instruction shown to the user at this stage.
    pub fn prompt(&self) -> (r: &'static str)
        ensures
            *self == LoopState::InitialSelection ==> r@ == "MOUSELEFT to define start and goal"@,
            *self == LoopState::EnemiesSelection ==> r@ == "MOUSERIGHT to define three enemies"@,
            *self == LoopState::Ready ==> r@ == "R to reset"@,
    {
        match self {
            LoopState::InitialSelection => "MOUSELEFT to define start and goal",
            LoopState::EnemiesSelection => "MOUSERIGHT to define three enemies",
            LoopState::Ready => "R to reset",
        }
    }
}

/// The state of an interactive planning session.
pub struct Setup {
    pub enemies: Vec<Point>,
    pub paths: Vec<PlannedPath>,
    pub key_points: Vec<Point>,
    pub env: Option<Environment>,
    pub state: LoopState,
}

/// The limits that a session plans with.
pub open spec fn session_limits() -> Limits {
    Limits { max_depth: 2, detour_attempts: 32 }
}

/// The points of the stored paths, as `planned_paths` states them.
pub open spec fn paths_view(paths: Seq<PlannedPath>) -> (Seq<Point>, Option<Seq<Point>>) {
    (paths[0].points@, if paths.len() == 2 {
        Some(paths[1].points@)
    } else {
        None
    })
}

impl Setup {
    /// The key points and enemies lie on the grid and fit the current stage.
    pub open spec fn wf(&self) -> bool {
        &&& all_in_plane(self.key_points@)
        &&& all_in_plane(self.enemies@)
        &&& self.key_points@.len() <= 2
        &&& self.enemies@.len() <= ENEMY_COUNT
        &&& match self.state {
            LoopState::InitialSelection => self.key_points@.len() < 2 && self.enemies@.len() == 0
                && self.env is None,
            LoopState::EnemiesSelection => self.key_points@.len() == 2 && self.enemies@.len()
                < ENEMY_COUNT && self.env is None,
            LoopState::Ready => self.key_points@.len() == 2 && self.env is Some,
        }
        &&& self.env matches Some(e) ==> e.wf()
    }

    /// `p` keeps a diameter's distance from every enemy and the clearance from
    /// every key point.
    pub open spec fn free_at(&self, p: Point) -> bool {
        &&& forall|j: int|
            0 <= j < self.enemies@.len() ==> dist_sq(p, #[trigger] self.enemies@[j]) >= DIAMETER
                * DIAMETER
        &&& forall|j: int|
            0 <= j < self.key_points@.len() ==> dist_sq(p, #[trigger] self.key_points@[j])
                >= KEY_POINT_CLEARANCE * KEY_POINT_CLEARANCE
    }

    /// A session with nothing placed yet.
    pub fn new() -> (r: Setup)
        ensures
            r.wf(),
            r.state == LoopState::InitialSelection,
            r.key_points@.len() == 0,
            r.enemies@.len() == 0,
            r.paths@.len() == 0,
            r.env is None,
    {
        Setup {
            enemies: Vec::new(),
            paths: Vec::new(),
            key_points: Vec::new(),
            env: None,
            state: LoopState::InitialSelection,
        }
    }

    /// Whether a new point may be placed at `p`.
    pub fn free_to_draw(&self, p: Point) -> (r: bool)
        requires
            self.wf(),
            in_plane(p),
        ensures
            r == self.free_at(p),
    {
        let mut j: usize = 0;
        while j < self.enemies.len()
            invariant
                self.wf(),
                in_plane(p),
                j <= self.enemies@.len(),
                forall|k: int|
                    0 <= k < j ==> dist_sq(p, #[trigger] self.enemies@[k]) >= DIAMETER * DIAMETER,
            decreases self.enemies@.len() - j,
        {
            if !far_enough(p, self.enemies[j], DIAMETER) {
                return false;
            }
            j += 1;
        }
        let mut j: usize = 0;
        while j < self.key_points.len()
            invariant
                self.wf(),
                in_plane(p),
                j <= self.key_points@.len(),
                forall|k: int|
                    0 <= k < self.enemies@.len() ==> dist_sq(p, #[trigger] self.enemies@[k])
                        >= DIAMETER * DIAMETER,
                forall|k: int|
                    0 <= k < j ==> dist_sq(p, #[trigger] self.key_points@[k])
                        >= KEY_POINT_CLEARANCE * KEY_POINT_CLEARANCE,
            decreases self.key_points@.len() - j,
        {
            if !far_enough(p, self.key_points[j], KEY_POINT_CLEARANCE) {
                return false;
            }
            j += 1;
        }
        true
    }

    /// Plans between the first and the last key point with both biases and
    /// stores the trajectories, the shorter first; on failure stores none.
    pub fn build_min_path(&mut self) -> (r: Result<(), PlanError>)
        requires
            old(self).env matches Some(e) && e.wf(),
            old(self).key_points@.len() >= 2,
            all_in_plane(old(self).key_points@),
        ensures
            final(self).enemies == old(self).enemies,
            final(self).key_points == old(self).key_points,
            final(self).env == old(self).env,
            final(self).state == old(self).state,
            ({
                let e = old(self).env.unwrap();
                let kp = old(self).key_points@;
                let expected = planned_paths(&e, kp[0], kp.last(), session_limits());
                match r {
                    Ok(()) => {
                        &&& 1 <= final(self).paths@.len() <= 2
                        &&& expected == Ok::<(Seq<Point>, Option<Seq<Point>>), PlanError>(
                            paths_view(final(self).paths@),
                        )
                        &&& forall|i: int| 0 <= i < final(self).paths@.len()
                            ==> #[trigger] final(self).paths@[i].describes(&e)
                    },
                    Err(err) => {
                        &&& final(self).paths@.len() == 0
                        &&& expected == Err::<(Seq<Point>, Option<Seq<Point>>), PlanError>(err)
                    },
                }
            }),
    {
        let n = self.key_points.len();
        let start = self.key_points[0];
        let goal = self.key_points[n - 1];
        assert(in_plane(self.key_points@[0]) && in_plane(self.key_points@[n - 1]));
        let limits = Limits::standard();
        let planned = match &self.env {
            Some(env) => plan_paths(env, start, goal, limits),
            None => Err(PlanError::DegenerateInput),
        };
        match planned {
            Ok(res) => {
                let mut paths: Vec<PlannedPath> = Vec::new();
                paths.push(res.first);
                match res.second {
                    Some(p) => paths.push(p),
                    None => {},
                }
                self.paths = paths;
                Ok(())
            },
            Err(e) => {
                self.paths = Vec::new();
                Err(e)
            },
        }
    }

    /// A press of `button` at `p` is taken: `p` is on the grid and free, and
    /// the stage expects that button.
    pub open spec fn accepts(&self, button: Button, p: Point) -> bool {
        &&& in_plane(p)
        &&& self.free_at(p)
        &&& (self.state == LoopState::InitialSelection && button == Button::Left) || (self.state
            == LoopState::EnemiesSelection && button == Button::Right)
    }

    /// Handles a press of `button` at `p` on a field whose far corner is
    /// `field_max`. In the first stage a left press places a key point, and the
    /// second key point moves on to the enemies; there a right press places an
    /// enemy, and the last enemy fixes the environment, plans the paths and
    /// makes the session ready. Any other press changes nothing.
    pub fn click(&mut self, button: Button, p: Point, field_max: Point) -> (r: Result<(), PlanError>)
        requires
            old(self).wf(),
        ensures
            final(self).wf(),
            !old(self).accepts(button, p) ==> {
                &&& r is Ok
                &&& final(self).key_points@ == old(self).key_points@
                &&& final(self).enemies@ == old(self).enemies@
                &&& final(self).paths@ == old(self).paths@
                &&& final(self).state == old(self).state
                &&& final(self).env == old(self).env
            },
            old(self).accepts(button, p) && old(self).state == LoopState::InitialSelection ==> {
                &&& r is Ok
                &&& final(self).key_points@ == old(self).key_points@.push(p)
                &&& final(self).enemies@ == old(self).enemies@
                &&& final(self).paths@ == old(self).paths@
                &&& final(self).env is None
                &&& final(self).state == if final(self).key_points@.len() == 2 {
                    LoopState::EnemiesSelection
                } else {
                    LoopState::InitialSelection
                }
            },
            old(self).accepts(button, p) && old(self).state == LoopState::EnemiesSelection ==> {
                &&& final(self).key_points@ == old(self).key_points@
                &&& final(self).enemies@ == old(self).enemies@.push(p)
                &&& if final(self).enemies@.len() < ENEMY_COUNT {
                    &&& r is Ok
                    &&& final(self).paths@ == old(self).paths@
                    &&& final(self).env is None
                    &&& final(self).state == LoopState::EnemiesSelection
                } else {
                    &&& final(self).state == LoopState::Ready
                    &&& final(self).env matches Some(e) && e.obstacles@ == final(self).enemies@
                        && e.field_max == field_max && !e.enforce_field_bounds
                    &&& ({
                        let e = final(self).env.unwrap();
                        let kp = final(self).key_points@;
                        let expected = planned_paths(&e, kp[0], kp[1], session_limits());
                        match r {
                            Ok(()) => {
                                &&& 1 <= final(self).paths@.len() <= 2
                                &&& expected == Ok::<(Seq<Point>, Option<Seq<Point>>), PlanError>(
                                    paths_view(final(self).paths@),
                                )
                                &&& forall|i: int| 0 <= i < final(self).paths@.len()
                                    ==> #[trigger] final(self).paths@[i].describes(&e)
                            },
                            Err(err) => {
                                &&& final(self).paths@.len() == 0
                                &&& expected == Err::<(Seq<Point>, Option<Seq<Point>>), PlanError>(
                                    err,
                                )
                            },
                        }
                    })
                }
            },
    {
        if !(-PLANE_LIMIT <= p.x && p.x <= PLANE_LIMIT && -PLANE_LIMIT <= p.y && p.y <= PLANE_LIMIT) {
            return Ok(());
        }
        if !self.free_to_draw(p) {
            return Ok(());
        }
        match (self.state, button) {
            (LoopState::InitialSelection, Button::Left) => {
                self.key_points.push(p);
                proof {
                    assert(all_in_plane(self.key_points@)) by {
                        assert(self.key_points@.last() == p);
                    }
                }
                if self.key_points.len() == 2 {
                    self.state = LoopState::EnemiesSelection;
                }
                Ok(())
            },
            (LoopState::EnemiesSelection, Button::Right) => {
                self.enemies.push(p);
                proof {
                    assert(all_in_plane(self.enemies@)) by {
                        assert(self.enemies@.last() == p);
                    }
                }
                if self.enemies.len() == ENEMY_COUNT {
                    self.env = Some(
                        Environment {
                            obstacles: self.enemies.clone(),
                            field_max,
                            enforce_field_bounds: false,
                        },
                    );
                    self.state = LoopState::Ready;
                    self.build_min_path()
                } else {
                    Ok(())
                }
            },
            _ => Ok(()),
        }
    }

    /// Clears the session back to its first stage.
    pub fn reset(&mut self)
        ensures
            final(self).wf(),
            final(self).state == LoopState::InitialSelection,
            final(self).key_points@.len() == 0,
            final(self).enemies@.len() == 0,
            final(self).paths@.len() == 0,
            final(self).env is None,
    {
        self.key_points = Vec::new();
        self.enemies = Vec::new();
        self.paths = Vec::new();
        self.env = None;
        self.state = LoopState::InitialSelection;
    }
}

/// Whether `p` lies at least `d` from `q`.
fn far_enough(p: Point, q: Point, d: i64) -> (r: bool)
    requires
        in_plane(p),
        in_plane(q),
        0 <= d <= DIAMETER,
    ensures
        r == (dist_sq(p, q) >= d * d),
{
    let dx = p.x - q.x;
    let dy = p.y - q.y;
    assert(0 <= dx * dx <= 0x400_0000_0000) by (nonlinear_arith)
        requires
            -0x20_0000 <= dx <= 0x20_0000,
    ;
    assert(0 <= dy * dy <= 0x400_0000_0000) by (nonlinear_arith)
        requires
            -0x20_0000 <= dy <= 0x20_0000,
    ;
    assert(0 <= d * d <= DIAMETER * DIAMETER) by (nonlinear_arith)
        requires
            0 <= d <= DIAMETER,
    ;
    dx * dx + dy * dy >= d * d
}

} // verus!
