use raycaster::color::Rgba;
use raycaster::enemy::{Enemy, Point};
use raycaster::fixed::TURN;
use raycaster::player::Player;
use raycaster::render::FAR;
use raycaster::sprites::{render_enemies, render_finish, sprite_distance, sprite_order};
use raycaster::wall_textures::{TextureImage, WallTextures};

fn camera() -> Player {
    Player { pos: Point { x: 1500, y: 1500 }, a: 0, fov: TURN / 6 }
}

#[test]
fn sprites_are_ordered_far_to_near() {
    assert_eq!(sprite_order(&vec![50, 900, 300]), vec![1, 2, 0]);
}

#[test]
fn equal_distances_keep_their_order() {
    assert_eq!(sprite_order(&vec![5, 7, 5, 7]), vec![1, 3, 0, 2]);
    assert_eq!(sprite_order(&vec![]), Vec::<usize>::new());
}

#[test]
fn distance_is_rounded_down() {
    let p = camera();
    assert_eq!(sprite_distance(&p, &Point { x: 1800, y: 1900 }), 500);
    assert_eq!(sprite_distance(&p, &Point { x: 1501, y: 1501 }), 1);
}

#[test]
fn visible_sprite_is_drawn() {
    let p = camera();
    let t = WallTextures::disabled();
    let z = vec![FAR; 640];
    let r = render_finish(&p, &Some(Point { x: 3500, y: 1500 }), &t, 640, 480, &z);
    assert!(!r.is_empty());
    // Without a texture the finish marker is gold, shaded by distance:
    // 1 - 2000 / 8000 of it.
    assert_eq!(r[0].color, Rgba::new(191, 161, 0, 255));
    assert!(r.iter().all(|rc| rc.x >= 0 && rc.x + rc.w <= 640 && rc.y >= 0 && rc.y + rc.h <= 480));
}

#[test]
fn sprite_behind_a_wall_is_skipped() {
    let p = camera();
    let t = WallTextures::disabled();
    let z = vec![100; 640];
    let r = render_finish(&p, &Some(Point { x: 3500, y: 1500 }), &t, 640, 480, &z);
    assert!(r.is_empty());
}

#[test]
fn sprite_at_a_wall_corner_is_partly_drawn() {
    let p = camera();
    let t = WallTextures::disabled();
    // A wall covers the left half of the screen, up to the sprite's center.
    let mut z = vec![FAR; 640];
    for d in z.iter_mut().take(320) {
        *d = 100;
    }
    let r = render_finish(&p, &Some(Point { x: 3500, y: 1500 }), &t, 640, 480, &z);
    assert!(!r.is_empty());
    assert!(r.iter().all(|rc| rc.x >= 320));
    let whole = render_finish(&p, &Some(Point { x: 3500, y: 1500 }), &t, 640, 480, &vec![FAR; 640]);
    assert!(whole.iter().any(|rc| rc.x < 320));
}

#[test]
fn sprites_out_of_view_or_range_are_culled() {
    let p = camera();
    let t = WallTextures::disabled();
    let z = vec![FAR; 640];
    // Behind the camera.
    assert!(render_finish(&p, &Some(Point { x: 500, y: 1500 }), &t, 640, 480, &z).is_empty());
    // Too near, too far.
    assert!(render_finish(&p, &Some(Point { x: 1600, y: 1500 }), &t, 640, 480, &z).is_empty());
    assert!(render_finish(&p, &Some(Point { x: 17000, y: 1500 }), &t, 640, 480, &z).is_empty());
    // Off to the side, past the field of view and its margin.
    assert!(render_finish(&p, &Some(Point { x: 3500, y: 3500 }), &t, 640, 480, &z).is_empty());
    assert!(render_finish(&p, &None, &t, 640, 480, &z).is_empty());
}

fn solid(width: usize, height: usize, rgba: [u8; 4]) -> TextureImage {
    let mut pixels = Vec::new();
    for _ in 0..width * height {
        pixels.extend_from_slice(&rgba);
    }
    TextureImage { width, height, pixels }
}

#[test]
fn enemies_need_their_texture() {
    let p = camera();
    let z = vec![FAR; 640];
    let enemies = vec![Enemy::new(3500, 1500)];
    assert!(render_enemies(&p, &enemies, &WallTextures::disabled(), 640, 480, &z).is_empty());
    let t = WallTextures::new(None, Some(solid(4, 4, [0, 200, 0, 255])), None);
    let r = render_enemies(&p, &enemies, &t, 640, 480, &z);
    assert!(!r.is_empty());
    assert_eq!(r[0].color, Rgba::new(0, 150, 0, 255));
}

#[test]
fn transparent_texels_are_not_drawn() {
    let p = camera();
    let z = vec![FAR; 640];
    let enemies = vec![Enemy::new(3500, 1500)];
    let t = WallTextures::new(None, Some(solid(4, 4, [0, 200, 0, 9])), None);
    assert!(render_enemies(&p, &enemies, &t, 640, 480, &z).is_empty());
}

#[test]
fn nearer_enemies_are_drawn_last() {
    let p = camera();
    let z = vec![FAR; 640];
    let enemies = vec![Enemy::new(2500, 1500), Enemy::new(4500, 1500)];
    let t = WallTextures::new(None, Some(solid(4, 4, [0, 200, 0, 255])), None);
    let r = render_enemies(&p, &enemies, &t, 640, 480, &z);
    // The far enemy is drawn first, the near one after it, over it.
    let near_first = render_enemies(&p, &enemies[..1].to_vec(), &t, 640, 480, &z);
    assert_eq!(r[r.len() - near_first.len()..], near_first[..]);
}

#[test]
fn hidden_columns_inside_a_strip_are_skipped() {
    let p = camera();
    let t = WallTextures::disabled();
    // A thin wall in front of a single column to the right of the center.
    let mut z = vec![FAR; 640];
    z[331] = 100;
    let r = render_finish(&p, &Some(Point { x: 3500, y: 1500 }), &t, 640, 480, &z);
    let covers = |c: i32| r.iter().any(|rc| rc.x <= c && c < rc.x + rc.w);
    assert!(!covers(331));
    assert!(covers(330));
    assert!(covers(332));
    assert!(covers(320));
}

#[test]
fn enemies_have_the_full_sprite_size() {
    let p = camera();
    let z = vec![FAR; 640];
    let t = WallTextures::new(None, Some(solid(4, 4, [0, 200, 0, 255])), None);
    let enemies = render_enemies(&p, &vec![Enemy::new(3500, 1500)], &t, 640, 480, &z);
    let finish = render_finish(&p, &Some(Point { x: 3500, y: 1500 }), &WallTextures::disabled(), 640, 480, &z);
    let span = |r: &Vec<raycaster::render::DrawRect>| {
        (r.iter().map(|rc| rc.x).min().unwrap(), r.iter().map(|rc| rc.x + rc.w).max().unwrap())
    };
    assert_eq!(span(&enemies), span(&finish));
}
