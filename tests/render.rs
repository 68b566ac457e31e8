use raycaster::caster::{Impact, Intersect};
use raycaster::enemy::Point;
use raycaster::fixed::TURN;
use raycaster::maze::Maze;
use raycaster::player::Player;
use raycaster::render::{fill_depth, render3d, wall_slice, lens_of, FAR};
use raycaster::wall_textures::WallTextures;

fn grid(rows: &[&str]) -> Maze {
    rows.iter().map(|r| r.chars().collect()).collect()
}

fn hit(distance: i64, impact: Impact) -> Intersect {
    Intersect { distance, impact, tx: 0, perpendicular_distance: distance }
}

#[test]
fn enclosed_room_fills_every_column() {
    let m = grid(&["#######", "#     #", "#     #", "#     #", "#######"]);
    let p = Player { pos: Point { x: 3500, y: 2500 }, a: 0, fov: TURN / 6 };
    let t = WallTextures::disabled();
    let mut z: Vec<u64> = Vec::new();
    let rects = render3d(&p, &m, 100, &t, 640, 480, &mut z);
    assert_eq!(z.len(), 640);
    assert!(z.iter().all(|d| *d < FAR));
    assert!(rects.len() > 2);
}

#[test]
fn uncovered_rays_leave_columns_far() {
    let hits = vec![hit(500, Impact::Wall('#')), hit(50010, Impact::Nothing), hit(5, Impact::Boundary)];
    let mut z: Vec<u64> = vec![7; 3];
    fill_depth(&hits, 9, &mut z);
    // A ray that met nothing, or left the grid, leaves its columns far.
    assert_eq!(z, vec![500, 500, 500, FAR, FAR, FAR, FAR, FAR, FAR]);
}

#[test]
fn hits_past_the_cutoff_are_not_drawn() {
    let hits = vec![hit(40001, Impact::Wall('#')), hit(40000, Impact::Wall('#'))];
    let mut z: Vec<u64> = Vec::new();
    fill_depth(&hits, 4, &mut z);
    assert_eq!(z, vec![FAR, FAR, 40000, 40000]);
}

#[test]
fn near_wall_slice_is_clamped_and_cropped() {
    let p = Player { pos: Point { x: 0, y: 0 }, a: 0, fov: TURN / 4 };
    let (cf, sf) = lens_of(&p);
    // At 90 degrees the projection distance is half the width: a wall at
    // the minimum depth would be 100 * 1000 * 320 / 100 pixels high, which is
    // clamped to twice the screen height: half of it lies off screen.
    let s = wall_slice(100, 640, 480, cf, sf, 100);
    assert_eq!(s.top, 0);
    assert_eq!(s.bottom, 480);
    assert_eq!(s.tex_start, 32);
    assert_eq!(s.tex_end, 96);
}

#[test]
fn far_wall_slice_is_centered_and_whole() {
    let p = Player { pos: Point { x: 0, y: 0 }, a: 0, fov: TURN / 4 };
    let (cf, sf) = lens_of(&p);
    // 100 units at 1000 units, projection distance 320: 32 pixels.
    let s = wall_slice(100, 640, 480, cf, sf, 10000);
    assert_eq!(s.bottom - s.top, 32);
    assert_eq!(s.top, 224);
    assert_eq!(s.tex_start, 0);
    assert_eq!(s.tex_end, 128);
}

#[test]
fn near_wall_depth_is_floored() {
    let hits = vec![hit(5, Impact::Wall('#'))];
    let mut z: Vec<u64> = Vec::new();
    fill_depth(&hits, 2, &mut z);
    assert_eq!(z, vec![100, 100]);
}

#[test]
fn rays_leaving_the_grid_draw_nothing() {
    // No east wall: the middle rays leave the grid through the open side.
    let m = grid(&["#####", "#    ", "#####"]);
    let p = Player { pos: Point { x: 1500, y: 1500 }, a: 0, fov: TURN / 64 };
    let t = WallTextures::disabled();
    let mut z: Vec<u64> = Vec::new();
    let rects = render3d(&p, &m, 100, &t, 640, 480, &mut z);
    assert_eq!(z[320], FAR);
    assert!(rects[2..].iter().all(|r| !(r.x <= 320 && 320 < r.x + r.w)));
}

#[test]
fn wall_strips_keep_the_texel_alpha() {
    let m = grid(&["#######", "#     #", "#     #", "#     #", "#######"]);
    let p = Player { pos: Point { x: 3500, y: 2500 }, a: 0, fov: TURN / 6 };
    let mut pixels = Vec::new();
    for _ in 0..16 {
        pixels.extend_from_slice(&[200, 100, 50, 77]);
    }
    let img = raycaster::wall_textures::TextureImage { width: 4, height: 4, pixels };
    let t = WallTextures::new(Some(img), None, None);
    let mut z: Vec<u64> = Vec::new();
    let rects = render3d(&p, &m, 100, &t, 640, 480, &mut z);
    assert!(rects.len() > 2);
    assert!(rects[2..].iter().all(|r| r.color.a == 77));
}
