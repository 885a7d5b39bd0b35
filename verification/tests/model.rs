use chaikin::geometry::COORD_UNIT;
use chaikin::geometry::ControlPoint;
use chaikin::geometry::Point;
use chaikin::model::ANIMATION_STEP_DURATION_MS;
use chaikin::model::ChaikinCurve;
use chaikin::model::MAX_ANIMATION_STEPS;
use chaikin::model::chaikin_step;

const U: i64 = COORD_UNIT;

fn pt(x: i64, y: i64) -> Point {
    Point { x, y }
}

fn points(coords: &[(i64, i64)]) -> Vec<Point> {
    let mut v = Vec::new();
    for &(x, y) in coords {
        v.push(pt(x, y));
    }
    v
}

#[test]
fn chaikin_step_identity_on_short_input() {
    let empty: Vec<Point> = Vec::new();
    assert_eq!(chaikin_step(&empty), empty);

    let one = points(&[(3 * U, 4 * U)]);
    assert_eq!(chaikin_step(&one), one);

    let two = points(&[(0, 0), (10 * U, 20 * U)]);
    assert_eq!(chaikin_step(&two), two);
}

#[test]
fn chaikin_step_length_and_endpoints() {
    let input = points(&[(0, 0), (10 * U, 0), (20 * U, 10 * U), (30 * U, -5 * U)]);
    let out = chaikin_step(&input);
    assert_eq!(out.len(), 2 + 2 * (input.len() - 1));
    assert_eq!(out[0], input[0]);
    assert_eq!(out[out.len() - 1], input[input.len() - 1]);
}

#[test]
fn chaikin_step_is_not_the_identity() {
    let input = points(&[(0, 0), (10 * U, 0), (10 * U, 10 * U)]);
    let out = chaikin_step(&input);
    assert_ne!(out, input);
    // The interior really moves: the first cut point differs from every
    // input point.
    assert_eq!(out[1], pt((10 * U) / 4, 0));
    assert!(!input.contains(&out[1]));
}

#[test]
fn chaikin_step_exact_level_values() {
    // One pass over (0,0), (10,0), (20,0) in pixels.
    let input = points(&[(0, 0), (10 * U, 0), (20 * U, 0)]);
    let out = chaikin_step(&input);
    let expected = points(&[
        (0, 0),
        (5 * U / 2, 0),
        (15 * U / 2, 0),
        (25 * U / 2, 0),
        (35 * U / 2, 0),
        (20 * U, 0),
    ]);
    assert_eq!(out, expected);
}

#[test]
fn generate_steps_count_and_level_zero() {
    let mut c = ChaikinCurve::new();
    c.add_point(0, 0);
    c.add_point(10 * U, 5 * U);
    c.add_point(20 * U, 0);
    c.generate_animation_steps();
    assert_eq!(c.animation_steps.len(), MAX_ANIMATION_STEPS + 1);
    assert_eq!(c.animation_steps.len(), 8);
    assert_eq!(
        c.animation_steps[0],
        points(&[(0, 0), (10 * U, 5 * U), (20 * U, 0)])
    );
    // Each later level is one pass over the one before it.
    for i in 1..c.animation_steps.len() {
        assert_eq!(c.animation_steps[i], chaikin_step(&c.animation_steps[i - 1]));
    }
}

#[test]
fn start_animation_needs_two_points() {
    let mut c = ChaikinCurve::new();
    c.start_animation();
    assert!(!c.animating);
    assert!(c.animation_steps.is_empty());

    c.add_point(0, 0);
    c.start_animation();
    assert!(!c.animating);
    assert!(c.animation_steps.is_empty());

    c.add_point(10 * U, 0);
    c.start_animation();
    assert!(c.animating);
    assert_eq!(c.current_step, 0);
    assert_eq!(c.animation_steps.len(), 8);
}

#[test]
fn update_animation_advances_by_one_step() {
    let mut c = ChaikinCurve::new();
    c.add_point(0, 0);
    c.add_point(10 * U, 0);
    c.add_point(20 * U, 0);
    c.start_animation();
    assert_eq!(c.current_step, 0);

    // Below the step duration nothing moves.
    c.update_animation(ANIMATION_STEP_DURATION_MS - 1);
    assert_eq!(c.current_step, 0);
    // The accrued time crosses the threshold: exactly one step.
    c.update_animation(1);
    assert_eq!(c.current_step, 1);
    // A huge delay still advances by exactly one step per call.
    c.update_animation(10 * ANIMATION_STEP_DURATION_MS);
    assert_eq!(c.current_step, 2);
    // Playback wraps past the last level back to the first.
    for _ in 0..5 {
        c.update_animation(ANIMATION_STEP_DURATION_MS);
    }
    assert_eq!(c.current_step, 7);
    c.update_animation(ANIMATION_STEP_DURATION_MS);
    assert_eq!(c.current_step, 0);
}

#[test]
fn regenerating_steps_resets_current_step() {
    let mut c = ChaikinCurve::new();
    c.add_point(0, 0);
    c.add_point(10 * U, 0);
    c.add_point(20 * U, 0);
    c.start_animation();
    c.update_animation(ANIMATION_STEP_DURATION_MS);
    assert_eq!(c.current_step, 1);
    // Regenerating mid-playback, as a move of a selected point does,
    // restarts at level 0: a stale level index is never shown after a
    // structural edit.
    assert!(c.select_point_at(10 * U, 0));
    c.move_selected_point(11 * U, 0);
    c.generate_animation_steps();
    assert_eq!(c.current_step, 0);
    assert!(c.animating);
    assert_eq!(c.get_current_points(), c.animation_steps[0]);
}

#[test]
fn update_animation_ignored_when_idle() {
    let mut c = ChaikinCurve::new();
    c.add_point(0, 0);
    c.add_point(10 * U, 0);
    c.update_animation(10 * ANIMATION_STEP_DURATION_MS);
    assert_eq!(c.current_step, 0);
    assert!(!c.animating);
}

#[test]
fn select_point_at_hits_within_radius() {
    let mut c = ChaikinCurve::new();
    c.add_point(100 * U, 100 * U);
    // Exactly five pixels away: a hit.
    assert!(c.select_point_at(105 * U, 100 * U));
    assert!(c.control_points[0].selected);
    // One subunit beyond five pixels: a miss.
    let mut d = ChaikinCurve::new();
    d.add_point(100 * U, 100 * U);
    assert!(!d.select_point_at(105 * U + 1, 100 * U));
    assert!(!d.control_points[0].selected);
}

#[test]
fn select_point_at_earliest_match_wins() {
    let mut c = ChaikinCurve::new();
    c.add_point(100 * U, 100 * U);
    c.add_point(101 * U, 100 * U);
    assert!(c.select_point_at(100 * U, 100 * U));
    assert!(c.control_points[0].selected);
    assert!(!c.control_points[1].selected);
    // Positions are untouched by selection.
    assert_eq!(c.control_points[0].position, pt(100 * U, 100 * U));
    assert_eq!(c.control_points[1].position, pt(101 * U, 100 * U));
}

#[test]
fn select_point_at_empty_set_is_false() {
    // End-to-end: hit-testing an empty model never reports a hit and
    // mutates nothing.
    let mut c = ChaikinCurve::new();
    assert!(!c.select_point_at(0, 0));
    assert!(c.control_points.is_empty());
    assert!(c.animation_steps.is_empty());
    assert!(!c.animating);
    assert_eq!(c.current_step, 0);
}

#[test]
fn move_selected_point_moves_only_selected() {
    let mut c = ChaikinCurve::new();
    c.add_point(0, 0);
    c.add_point(50 * U, 0);
    assert!(c.select_point_at(0, 0));
    c.move_selected_point(7 * U, 9 * U);
    assert_eq!(c.control_points[0].position, pt(7 * U, 9 * U));
    assert!(c.control_points[0].selected);
    assert_eq!(c.control_points[1].position, pt(50 * U, 0));
    assert!(!c.control_points[1].selected);
}

#[test]
fn move_selected_point_without_selection_is_noop() {
    let mut c = ChaikinCurve::new();
    c.add_point(0, 0);
    c.move_selected_point(7 * U, 9 * U);
    assert_eq!(c.control_points[0].position, pt(0, 0));
}

#[test]
fn deselect_all_points_clears_every_flag() {
    let mut c = ChaikinCurve::new();
    c.add_point(0, 0);
    c.add_point(U, 0);
    assert!(c.select_point_at(0, 0));
    assert!(c.select_point_at(U, 0));
    c.deselect_all_points();
    assert!(!c.control_points[0].selected);
    assert!(!c.control_points[1].selected);
    assert_eq!(c.control_points[0].position, pt(0, 0));
    assert_eq!(c.control_points[1].position, pt(U, 0));
}

#[test]
fn current_points_returns_raw_points_in_order() {
    // End-to-end: three collinear points, not animating.
    let mut c = ChaikinCurve::new();
    c.add_point(0, 0);
    c.add_point(10 * U, 0);
    c.add_point(20 * U, 0);
    let cur = c.get_current_points();
    assert_eq!(cur, points(&[(0, 0), (10 * U, 0), (20 * U, 0)]));
}

#[test]
fn current_points_single_and_empty() {
    let c = ChaikinCurve::new();
    assert!(c.get_current_points().is_empty());
    let mut d = ChaikinCurve::new();
    d.add_point(3 * U, 4 * U);
    assert_eq!(d.get_current_points(), points(&[(3 * U, 4 * U)]));
}

#[test]
fn animation_level_one_has_expected_points() {
    // End-to-end: start the animation on (0,0), (10,0), (20,0) and read
    // level 1 of the generated steps.
    let mut c = ChaikinCurve::new();
    c.add_point(0, 0);
    c.add_point(10 * U, 0);
    c.add_point(20 * U, 0);
    c.start_animation();
    c.generate_animation_steps();
    let level1 = &c.animation_steps[1];
    let expected = points(&[
        (0, 0),
        (5 * U / 2, 0),
        (15 * U / 2, 0),
        (25 * U / 2, 0),
        (35 * U / 2, 0),
        (20 * U, 0),
    ]);
    assert_eq!(level1, &expected);
    // While animating, the displayed points are the current level.
    assert_eq!(c.get_current_points(), c.animation_steps[0]);
    c.update_animation(ANIMATION_STEP_DURATION_MS);
    assert_eq!(c.get_current_points(), expected);
}

#[test]
fn clear_points_resets_everything() {
    // End-to-end: edits and animation, then a full reset.
    let mut c = ChaikinCurve::new();
    c.add_point(0, 0);
    c.add_point(10 * U, 0);
    c.add_point(20 * U, 5 * U);
    assert!(c.select_point_at(10 * U, 0));
    c.move_selected_point(11 * U, U);
    c.start_animation();
    c.update_animation(ANIMATION_STEP_DURATION_MS);
    c.clear_points();
    assert!(c.control_points.is_empty());
    assert!(!c.animating);
    assert!(c.animation_steps.is_empty());
    assert!(c.get_current_points().is_empty());
}

#[test]
fn control_point_new_is_unselected() {
    let p = ControlPoint::new(5, -7);
    assert_eq!(p.position, pt(5, -7));
    assert!(!p.selected);
}
