use raycaster::enemy::{Enemy, Point};
use raycaster::fixed::{QUARTER_TURN, TURN};
use raycaster::framebuffer::Framebuffer;
use raycaster::color::Rgba;
use raycaster::maze::{is_rectangular, load_maze, Maze};
use raycaster::player::{is_valid_position, process_events, Input, Player};

fn lines(rows: &[&str]) -> Vec<Vec<char>> {
    rows.iter().map(|r| r.chars().collect()).collect()
}

#[test]
fn level_marks_become_sprites() {
    let (maze, enemies, finish) = load_maze(&lines(&["#####", "#e w#", "#E  #", "#####"]));
    assert_eq!(maze, lines(&["#####", "#   #", "#   #", "#####"]));
    assert_eq!(enemies, vec![Enemy::new(1500, 1500), Enemy::new(1500, 2500)]);
    assert_eq!(enemies[0].texture_key, 'e');
    assert_eq!(finish, Some(Point { x: 3500, y: 1500 }));
}

#[test]
fn last_finish_mark_counts() {
    let (_, enemies, finish) = load_maze(&lines(&["w W", "  w"]));
    assert!(enemies.is_empty());
    assert_eq!(finish, Some(Point { x: 2500, y: 1500 }));
    let (maze, _, none) = load_maze(&lines(&[]));
    assert!(maze.is_empty());
    assert_eq!(none, None);
}

#[test]
fn rectangular_grids() {
    assert!(is_rectangular(&lines(&["###", "# #"])));
    assert!(!is_rectangular(&lines(&["###", "#"])));
    assert!(!is_rectangular(&lines(&[])));
    assert!(!is_rectangular(&lines(&[""])));
}

fn room() -> Maze {
    lines(&["#####", "#   #", "#   #", "#####"])
}

#[test]
fn positions_need_free_corners() {
    let m = room();
    assert!(is_valid_position(1500, 1500, &m, 100, 100));
    assert!(!is_valid_position(1050, 1500, &m, 100, 100));
    assert!(!is_valid_position(-5, 1500, &m, 100, 100));
    assert!(!is_valid_position(1500, 9000, &m, 100, 100));
}

#[test]
fn moving_forward_and_into_walls() {
    let m = room();
    let mut p = Player { pos: Point { x: 2000, y: 2000 }, a: 0, fov: TURN / 6 };
    let forward = Input { mouse_dx: 0, forward: true, back: false, left: false, right: false };
    process_events(&forward, &mut p, &m, 100);
    assert_eq!(p.pos, Point { x: 2100, y: 2000 });
    for _ in 0..20 {
        process_events(&forward, &mut p, &m, 100);
    }
    // The footprint stops a margin short of the east wall at 4000.
    assert_eq!(p.pos, Point { x: 3800, y: 2000 });
    let left = Input { mouse_dx: 0, forward: false, back: false, left: true, right: false };
    process_events(&left, &mut p, &m, 100);
    assert_eq!(p.pos, Point { x: 3800, y: 1900 });
}

#[test]
fn mouse_turns_and_wraps() {
    let m = room();
    let mut p = Player { pos: Point { x: 2000, y: 2000 }, a: 10, fov: TURN / 6 };
    let turn = Input { mouse_dx: -1, forward: false, back: false, left: false, right: false };
    process_events(&turn, &mut p, &m, 100);
    assert_eq!(p.a, TURN - 21);
    let turn = Input { mouse_dx: 100, forward: false, back: false, left: false, right: false };
    process_events(&turn, &mut p, &m, 100);
    assert_eq!(p.a, 3079);
    assert!(p.a < TURN && QUARTER_TURN > p.a);
}

#[test]
fn framebuffer_pixels() {
    let bg = Rgba::new(1, 2, 3, 255);
    let mut fb = Framebuffer::new(4, 3, bg);
    assert_eq!(fb.get_pixel(3, 2), bg);
    fb.set_current_color(Rgba::new(9, 9, 9, 255));
    fb.set_pixel(3, 2);
    fb.set_pixel(4, 2);
    fb.set_pixel(-1, 0);
    assert_eq!(fb.get_pixel(3, 2), Rgba::new(9, 9, 9, 255));
    assert_eq!(fb.get_pixel(2, 2), bg);
    fb.set_background_color(Rgba::new(0, 0, 0, 255));
    fb.clear();
    assert_eq!(fb.get_pixel(3, 2), Rgba::new(0, 0, 0, 255));
}
