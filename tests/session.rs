use path_planner::geometry::Point;
use path_planner::setup::{Button, LoopState, Setup};

fn pt(x: i64, y: i64) -> Point {
    Point::new(x, y)
}

#[test]
fn session_walks_through_its_stages() {
    let mut s = Setup::new();
    let field = pt(800, 600);
    assert_eq!(s.state, LoopState::InitialSelection);
    assert!(s.click(Button::Right, pt(10, 10), field).is_ok());
    assert!(s.key_points.is_empty());
    s.click(Button::Left, pt(0, 0), field).unwrap();
    s.click(Button::Left, pt(3, 3), field).unwrap();
    assert_eq!(s.key_points.len(), 1);
    s.click(Button::Left, pt(200, 0), field).unwrap();
    assert_eq!(s.state, LoopState::EnemiesSelection);
    s.click(Button::Right, pt(100, 0), field).unwrap();
    s.click(Button::Right, pt(150, 0), field).unwrap();
    assert_eq!(s.enemies.len(), 1);
    s.click(Button::Right, pt(100, 400), field).unwrap();
    assert_eq!(s.state, LoopState::EnemiesSelection);
    s.click(Button::Right, pt(100, 600), field).unwrap();
    assert_eq!(s.state, LoopState::Ready);
    assert_eq!(s.paths.len(), 1);
    assert_eq!(s.paths[0].points, vec![pt(0, 0), pt(100, 105), pt(200, 0)]);
    s.reset();
    assert_eq!(s.state, LoopState::InitialSelection);
    assert!(s.paths.is_empty() && s.enemies.is_empty() && s.key_points.is_empty() && s.env.is_none());
}

#[test]
fn free_to_draw_keeps_distances() {
    let mut s = Setup::new();
    let field = pt(800, 600);
    s.click(Button::Left, pt(0, 0), field).unwrap();
    s.click(Button::Left, pt(500, 0), field).unwrap();
    s.click(Button::Right, pt(200, 200), field).unwrap();
    assert!(!s.free_to_draw(pt(5, 0)));
    assert!(s.free_to_draw(pt(6, 0)));
    assert!(!s.free_to_draw(pt(289, 200)));
    assert!(s.free_to_draw(pt(290, 200)));
}

#[test]
fn build_min_path_reports_degenerate_start() {
    let field = pt(800, 600);
    let mut t = Setup::new();
    t.key_points = vec![pt(0, 0), pt(400, 0)];
    t.env = Some(path_planner::collision::Environment {
        obstacles: vec![pt(0, 0)],
        field_max: field,
        enforce_field_bounds: false,
    });
    t.state = LoopState::Ready;
    assert!(t.build_min_path().is_err());
    assert!(t.paths.is_empty());
}

#[test]
fn prompts_follow_the_stage() {
    assert_eq!(LoopState::InitialSelection.prompt(), "MOUSELEFT to define start and goal");
    assert_eq!(LoopState::EnemiesSelection.prompt(), "MOUSERIGHT to define three enemies");
    assert_eq!(LoopState::Ready.prompt(), "R to reset");
}
