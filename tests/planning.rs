use path_planner::collision::{is_inside_obstacle, is_obstacle, Environment};
use path_planner::detour::{search_point, Bias, PlanError};
use path_planner::geometry::Point;
use path_planner::length::path_length;
use path_planner::planner::{build_path_plan, Limits};
use path_planner::selector::plan_paths;

fn pt(x: i64, y: i64) -> Point {
    Point::new(x, y)
}

fn env(obstacles: Vec<Point>) -> Environment {
    Environment { obstacles, field_max: pt(1000, 1000), enforce_field_bounds: false }
}

fn limits(max_depth: u32, detour_attempts: u32) -> Limits {
    Limits { max_depth, detour_attempts }
}

fn dist_sq(a: Point, b: Point) -> i64 {
    (a.x - b.x) * (a.x - b.x) + (a.y - b.y) * (a.y - b.y)
}

fn sampled_clear(env: &Environment, t: &[Point]) -> bool {
    for w in t.windows(2) {
        for i in 0..=150i64 {
            for c in &env.obstacles {
                let ox = 150 * (w[0].x - c.x) + i * (w[1].x - w[0].x);
                let oy = 150 * (w[0].y - c.y) + i * (w[1].y - w[0].y);
                if ox * ox + oy * oy < (45 * 150) * (45 * 150) {
                    return false;
                }
            }
        }
    }
    true
}

#[test]
fn single_obstacle_detours_both_ways() {
    let e = env(vec![pt(100, 0)]);
    let t = vec![pt(0, 0), pt(200, 0)];
    let left = build_path_plan(&e, &t, 0, Bias::Left, Limits::standard()).unwrap();
    let right = build_path_plan(&e, &t, 0, Bias::Right, Limits::standard()).unwrap();
    assert_eq!(left.points, vec![pt(0, 0), pt(100, 105), pt(200, 0)]);
    assert_eq!(right.points, vec![pt(0, 0), pt(100, -105), pt(200, 0)]);
    assert!(left.collision_free && right.collision_free);
    for p in [left.points[1], right.points[1]] {
        assert!(p.y.abs() >= 45);
        assert!(dist_sq(p, pt(100, 0)) >= 45 * 45);
    }
}

#[test]
fn single_obstacle_selector_keeps_one_of_equal_lengths() {
    let e = env(vec![pt(100, 0)]);
    let res = plan_paths(&e, pt(0, 0), pt(200, 0), Limits::standard()).unwrap();
    assert_eq!(res.first.points, vec![pt(0, 0), pt(100, 105), pt(200, 0)]);
    assert_eq!(res.first.length, 290);
    assert!(res.first.collision_free);
    assert!(res.second.is_none());
}

#[test]
fn no_obstacles_returns_straight_segment() {
    let e = env(vec![]);
    let res = plan_paths(&e, pt(0, 0), pt(200, 0), Limits::standard()).unwrap();
    assert_eq!(res.first.points, vec![pt(0, 0), pt(200, 0)]);
    assert_eq!(res.first.length, 200);
    assert!(res.first.collision_free);
    assert!(res.second.is_none());
}

#[test]
fn start_on_obstacle_centre_is_degenerate() {
    let e = env(vec![pt(100, 0)]);
    let res = plan_paths(&e, pt(100, 0), pt(300, 0), Limits::standard());
    assert!(matches!(res, Err(PlanError::DegenerateInput)));
}

#[test]
fn two_obstacles_in_sequence_need_two_waypoints() {
    let e = env(vec![pt(100, 0), pt(300, 0), pt(200, 300)]);
    let t = vec![pt(0, 0), pt(400, 0)];
    let left = build_path_plan(&e, &t, 0, Bias::Left, Limits::standard()).unwrap();
    assert_eq!(left.points, vec![pt(0, 0), pt(100, 105), pt(348, 92), pt(400, 0)]);
    assert!(left.collision_free);
    assert!(sampled_clear(&e, &left.points));
    assert_ne!(left.points[1], left.points[2]);
    let res = plan_paths(&e, pt(0, 0), pt(400, 0), Limits::standard()).unwrap();
    assert_eq!(res.first.length, 500);
    assert!(res.first.collision_free);
    assert!(sampled_clear(&e, &res.first.points));
}

#[test]
fn depth_bound_reports_unsafe_path() {
    let e = env(vec![pt(100, 0), pt(300, 0), pt(200, 300)]);
    let t = vec![pt(0, 0), pt(400, 0)];
    let p = build_path_plan(&e, &t, 0, Bias::Left, limits(1, 32)).unwrap();
    assert_eq!(p.points, vec![pt(0, 0), pt(100, 105), pt(400, 0)]);
    assert!(!p.collision_free);
    assert!(!sampled_clear(&e, &p.points));
    let q = build_path_plan(&e, &t, 0, Bias::Left, limits(0, 32)).unwrap();
    assert_eq!(q.points, t);
    assert!(!q.collision_free);
}

#[test]
fn exhausted_detour_attempts_are_unresolved() {
    let e = env(vec![pt(100, 0), pt(100, 105)]);
    assert_eq!(search_point(&e, pt(0, 0), pt(100, 0), Bias::Left, 1), Err(PlanError::DetourUnresolved));
    assert_eq!(search_point(&e, pt(0, 0), pt(100, 0), Bias::Left, 0), Err(PlanError::DetourUnresolved));
    let f = env(vec![pt(100, 0)]);
    assert_eq!(search_point(&f, pt(0, 0), pt(30, 40), Bias::Right, 1), Err(PlanError::DetourUnresolved));
}

#[test]
fn detour_search_steps_out_past_blocked_candidates() {
    let e = env(vec![pt(100, 0), pt(100, 105)]);
    let p = build_path_plan(&e, &vec![pt(0, 0), pt(200, 0)], 0, Bias::Left, Limits::standard()).unwrap();
    assert_eq!(p.points, vec![pt(0, 0), pt(24, 177), pt(172, 181), pt(200, 0)]);
    assert!(p.collision_free);
}

#[test]
fn detour_waypoint_values() {
    let e = env(vec![pt(100, 0)]);
    assert_eq!(search_point(&e, pt(0, 0), pt(100, 0), Bias::Left, 1), Ok(pt(100, 105)));
    assert_eq!(search_point(&e, pt(0, 0), pt(100, 0), Bias::Right, 1), Ok(pt(100, -105)));
    assert_eq!(search_point(&e, pt(5, 5), pt(5, 5), Bias::Right, 4), Err(PlanError::DegenerateInput));
}

#[test]
fn detour_offset_stays_near_its_length() {
    let e = env(vec![]);
    for (from, to) in [(pt(0, 0), pt(30, 40)), (pt(-7, 3), pt(250, -91)), (pt(10, 10), pt(11, 10)), (pt(0, 0), pt(1, 1))] {
        for bias in [Bias::Left, Bias::Right] {
            let w = search_point(&e, from, to, bias, 1).unwrap();
            let d = dist_sq(w, to);
            assert!(102 * 102 <= d && d <= 105 * 105, "{:?} {:?} {}", from, to, d);
        }
    }
    assert_eq!(search_point(&e, pt(0, 0), pt(30, 40), Bias::Left, 1), Ok(pt(-54, 103)));
}

#[test]
fn selector_puts_shorter_path_first() {
    let e = env(vec![pt(100, 0), pt(300, 10), pt(200, 300)]);
    let res = plan_paths(&e, pt(0, 0), pt(500, 0), Limits::standard()).unwrap();
    assert_eq!(res.first.points, vec![pt(0, 0), pt(100, -105), pt(500, 0)]);
    assert_eq!(res.first.length, 559);
    let second = res.second.unwrap();
    assert_eq!(second.points, vec![pt(0, 0), pt(100, 105), pt(345, 104), pt(500, 0)]);
    assert_eq!(second.length, 578);
    assert!(res.first.length <= second.length);
}

#[test]
fn selector_keeps_the_bias_that_succeeds() {
    let e = env(vec![pt(100, 0), pt(100, 105)]);
    let res = plan_paths(&e, pt(0, 0), pt(200, 0), limits(2, 1)).unwrap();
    assert_eq!(res.first.points, vec![pt(0, 0), pt(100, -105), pt(200, 0)]);
    assert!(res.second.is_none());
}

#[test]
fn replanning_a_clear_path_changes_nothing() {
    let e = env(vec![pt(100, 0), pt(300, 0), pt(200, 300)]);
    let first = build_path_plan(&e, &vec![pt(0, 0), pt(400, 0)], 0, Bias::Left, Limits::standard()).unwrap();
    let again = build_path_plan(&e, &first.points, 0, Bias::Left, Limits::standard()).unwrap();
    assert_eq!(again.points, first.points);
    let short = vec![pt(7, 7)];
    assert_eq!(build_path_plan(&e, &short, 0, Bias::Right, Limits::standard()).unwrap().points, short);
}

#[test]
fn endpoints_are_kept_and_length_is_at_least_direct() {
    let e = env(vec![pt(100, 0), pt(300, 10), pt(200, 300)]);
    let res = plan_paths(&e, pt(0, 0), pt(500, 0), Limits::standard()).unwrap();
    for p in [&res.first, res.second.as_ref().unwrap()] {
        assert_eq!(p.points[0], pt(0, 0));
        assert_eq!(*p.points.last().unwrap(), pt(500, 0));
        assert!(p.length >= 500);
        assert_eq!(p.length, path_length(&p.points));
    }
}

#[test]
fn collision_scan_reports_first_hit() {
    let e = env(vec![pt(300, 0), pt(100, 0)]);
    assert_eq!(is_obstacle(&e, &vec![pt(0, 0), pt(400, 0)]), Some(pt(100, 0)));
    assert_eq!(is_obstacle(&e, &vec![pt(0, 100), pt(400, 100)]), None);
    assert_eq!(is_obstacle(&e, &vec![pt(100, 0)]), None);
    assert_eq!(is_obstacle(&e, &vec![pt(0, 100), pt(0, 200), pt(300, 20)]), Some(pt(300, 0)));
}

#[test]
fn point_test_uses_strict_radius_and_field_bounds() {
    let e = env(vec![pt(100, 0)]);
    assert!(is_inside_obstacle(&e, pt(100, 0)));
    assert!(is_inside_obstacle(&e, pt(144, 0)));
    assert!(!is_inside_obstacle(&e, pt(145, 0)));
    assert!(!is_inside_obstacle(&e, pt(-50, 500)));
    let bounded = Environment { obstacles: vec![pt(100, 0)], field_max: pt(300, 300), enforce_field_bounds: true };
    assert!(is_inside_obstacle(&bounded, pt(-1, 10)));
    assert!(is_inside_obstacle(&bounded, pt(10, 301)));
    assert!(!is_inside_obstacle(&bounded, pt(300, 300)));
}

#[test]
fn path_length_rounds_each_segment_up() {
    assert_eq!(path_length(&vec![]), 0);
    assert_eq!(path_length(&vec![pt(3, 3)]), 0);
    assert_eq!(path_length(&vec![pt(0, 0), pt(3, 4)]), 5);
    assert_eq!(path_length(&vec![pt(0, 0), pt(1, 1), pt(2, 2)]), 4);
    assert_eq!(path_length(&vec![pt(0, 0), pt(100, 105), pt(200, 0)]), 290);
}
