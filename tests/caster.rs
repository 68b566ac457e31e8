use raycaster::caster::{cast_ray, Impact, MAX_DISTANCE, STEP};
use raycaster::enemy::Point;
use raycaster::fixed::{cos_fx, isqrt, sin_fx, sub_angle, fade_fx, ONE, TURN, QUARTER_TURN, HALF_TURN};
use raycaster::maze::Maze;
use raycaster::player::Player;

fn grid(rows: &[&str]) -> Maze {
    rows.iter().map(|r| r.chars().collect()).collect()
}

fn camera(x: i64, y: i64, a: u64) -> Player {
    Player { pos: Point { x, y }, a, fov: TURN / 6 }
}

#[test]
fn sine_and_cosine_at_quarter_turns() {
    assert_eq!(cos_fx(0), ONE);
    assert_eq!(sin_fx(0), 0);
    assert_eq!(sin_fx(QUARTER_TURN), ONE);
    assert_eq!(cos_fx(QUARTER_TURN), 0);
    assert_eq!(sin_fx(HALF_TURN), 0);
    assert_eq!(cos_fx(HALF_TURN), -ONE);
    assert_eq!(sin_fx(3 * QUARTER_TURN), -ONE);
}

#[test]
fn sine_of_thirty_degrees_is_about_a_half() {
    let s = sin_fx(TURN / 12);
    assert!((s - ONE / 2).abs() <= 20, "sin 30 = {}", s);
}

#[test]
fn angle_subtraction_wraps() {
    assert_eq!(sub_angle(10, 20), TURN - 10);
    assert_eq!(sub_angle(20, 10), 10);
}

#[test]
fn integer_square_root() {
    assert_eq!(isqrt(0), 0);
    assert_eq!(isqrt(1), 1);
    assert_eq!(isqrt(15), 3);
    assert_eq!(isqrt(16), 4);
    assert_eq!(isqrt(2_000_000 * 2_000_000 + 5), 2_000_000);
    assert_eq!(isqrt(u64::MAX), 4_294_967_295);
}

#[test]
fn fade_is_linear_then_clamped() {
    assert_eq!(fade_fx(0, 15000, 300), 1000);
    assert_eq!(fade_fx(7500, 15000, 300), 500);
    assert_eq!(fade_fx(14000, 15000, 300), 300);
    assert_eq!(fade_fx(20000, 15000, 300), 300);
}

#[test]
fn straight_ray_stops_at_the_wall_face() {
    let m = grid(&["#####", "#   #", "#####"]);
    let p = camera(1500, 1500, 0);
    let r = cast_ray(&m, &p, 0, 100);
    assert_eq!(r.impact, Impact::Wall('#'));
    // The east wall's face is at 400 units, 250 units from the camera.
    assert!(r.distance >= 2500 && r.distance < 2502, "distance {}", r.distance);
    assert_eq!(r.perpendicular_distance, r.distance);
}

#[test]
fn straight_ray_two_blocks_away() {
    let m = grid(&["#######", "#     #", "#######"]);
    let p = camera(1000 + 10, 1500, 0);
    let r = cast_ray(&m, &p, 0, 100);
    assert_eq!(r.impact, Impact::Wall('#'));
    assert!(r.distance >= 4990 && r.distance < 4992, "distance {}", r.distance);
}

#[test]
fn wall_symbol_is_reported() {
    let m = grid(&["#|###", "#   +", "#####"]);
    let east = cast_ray(&m, &camera(1500, 1500, 0), 0, 100);
    assert_eq!(east.impact, Impact::Wall('+'));
}

#[test]
fn ray_leaving_the_grid_hits_the_boundary() {
    let m = grid(&["#####", "#    ", "#####"]);
    let p = camera(1500, 1500, 0);
    let r = cast_ray(&m, &p, 0, 100);
    assert_eq!(r.impact, Impact::Boundary);
    assert_eq!(r.distance, 3500);
    assert_eq!(r.tx, 0);
}

#[test]
fn ray_past_the_range_hits_nothing() {
    let row: String = std::iter::repeat(' ').take(60).collect();
    let m = grid(&[&row]);
    let p = camera(50, 50, 0);
    let r = cast_ray(&m, &p, 0, 100);
    assert_eq!(r.impact, Impact::Nothing);
    assert_eq!(r.distance, MAX_DISTANCE + STEP);
}

#[test]
fn perpendicular_distance_never_longer() {
    let m = grid(&["#######", "#     #", "#     #", "#     #", "#######"]);
    let p = camera(3500, 2500, 1000);
    let half = p.fov / 2;
    for k in 0..=20u64 {
        let a = (p.a + TURN - half + k * p.fov / 20) % TURN;
        let r = cast_ray(&m, &p, a, 100);
        assert!(r.perpendicular_distance <= r.distance);
        assert!(r.perpendicular_distance >= 0);
    }
    let r = cast_ray(&m, &p, p.a, 100);
    assert_eq!(r.perpendicular_distance, r.distance);
}

#[test]
fn texture_u_in_range_for_all_hits() {
    let m = grid(&["#######", "#  #  #", "#     #", "# #   #", "#######"]);
    let p = camera(2500, 2500, 0);
    let mut a: u64 = 0;
    while a < TURN {
        let r = cast_ray(&m, &p, a, 100);
        assert!(r.tx <= 127);
        a += 97;
    }
    // A ray aimed at a cell corner.
    let r = cast_ray(&m, &p, TURN / 8, 100);
    assert!(r.tx <= 127);
}

#[test]
fn texture_u_follows_the_face() {
    let m = grid(&["#####", "#   #", "#####"]);
    // Eastward from the middle of row 1: the hit is on the east wall's
    // vertical face, halfway down it.
    let r = cast_ray(&m, &camera(1500, 1500, 0), 0, 100);
    assert_eq!(r.tx, 64);
    // Northward from x = 125 units: a horizontal face, a quarter along it.
    let r = cast_ray(&m, &camera(1250, 1500, 3 * QUARTER_TURN), 3 * QUARTER_TURN, 100);
    assert_eq!(r.impact, Impact::Wall('#'));
    assert_eq!(r.tx, 32);
}

#[test]
fn hit_reports_the_first_wall_cell_met() {
    // Heading a little south of east: the coarse march first meets the
    // '+' wall on row 1.
    let m = grid(&["#####", "#   +", "#####"]);
    let r = cast_ray(&m, &camera(1500, 1500, 100), 100, 100);
    assert_eq!(r.impact, Impact::Wall('+'));
}
