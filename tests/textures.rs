use raycaster::color::{shade_color, Rgba};
use raycaster::wall_textures::{TextureImage, WallTextures};

fn image(width: usize, height: usize) -> TextureImage {
    // Pixel (x, y) has red x, green y.
    let mut pixels = Vec::new();
    for y in 0..height {
        for x in 0..width {
            pixels.extend_from_slice(&[x as u8, y as u8, 7, 255]);
        }
    }
    TextureImage { width, height, pixels }
}

#[test]
fn disabled_textures_give_fallback_colors() {
    let t = WallTextures::disabled();
    for u in [0usize, 1, 64, 127, 500] {
        for v in [0usize, 33, 127, 1000] {
            assert_eq!(t.get_pixel(u, v, 'e'), Rgba::new(255, 0, 0, 255));
            assert_eq!(t.get_pixel(u, v, 'w'), Rgba::new(255, 215, 0, 255));
            assert_eq!(t.get_pixel(u, v, '#'), Rgba::new(128, 128, 128, 255));
            assert_eq!(t.get_pixel(u, v, '+'), Rgba::new(128, 128, 128, 255));
        }
    }
    assert!(!t.is_enabled() && !t.is_enemy_enabled() && !t.is_finish_enabled());
}

#[test]
fn wall_texture_sets_the_size() {
    let t = WallTextures::new(Some(image(200, 200)), None, None);
    assert!(t.is_enabled());
    assert!(!t.is_enemy_enabled());
    // Texel (100, 50) of a 200-texel texture lies under coordinates (64, 32).
    assert_eq!(t.get_pixel(64, 32, '#'), Rgba::new(100, 50, 7, 255));
    // Coordinates past the last texel give the last texel.
    assert_eq!(t.get_pixel(900, 900, '#'), Rgba::new(199, 199, 7, 255));
    assert_eq!(t.get_pixel(128, 127, '#'), Rgba::new(199, 198, 7, 255));
    // The enemy texture is still missing.
    assert_eq!(t.get_pixel(1, 1, 'e'), Rgba::new(255, 0, 0, 255));
}

#[test]
fn small_images_are_scaled_up() {
    let t = WallTextures::new(Some(image(4, 2)), Some(image(4, 2)), None);
    // The texture is 128 texels wide: 32 per source column, 64 per row.
    assert_eq!(t.get_pixel(0, 0, 'e'), Rgba::new(0, 0, 7, 255));
    assert_eq!(t.get_pixel(33, 65, 'e'), Rgba::new(1, 1, 7, 255));
    assert_eq!(t.get_pixel(127, 127, '#'), Rgba::new(3, 1, 7, 255));
}

#[test]
fn extract_colors_resamples_row_by_row() {
    let c = WallTextures::extract_colors(&image(2, 2), 4);
    assert_eq!(c.len(), 16);
    assert_eq!(c[0], Rgba::new(0, 0, 7, 255));
    assert_eq!(c[2], Rgba::new(1, 0, 7, 255));
    assert_eq!(c[8], Rgba::new(0, 1, 7, 255));
    assert_eq!(c[15], Rgba::new(1, 1, 7, 255));
}

#[test]
fn short_pixel_data_gives_gray() {
    let img = TextureImage { width: 2, height: 2, pixels: vec![1, 2, 3, 4] };
    let c = WallTextures::extract_colors(&img, 2);
    assert_eq!(c[0], Rgba::new(1, 2, 3, 4));
    assert_eq!(c[1], Rgba::new(128, 128, 128, 255));
}

#[test]
fn shading_scales_color_channels() {
    let c = shade_color(Rgba::new(200, 100, 50, 77), 500, 255);
    assert_eq!(c, Rgba::new(100, 50, 25, 255));
    assert_eq!(shade_color(Rgba::new(200, 100, 50, 77), 1000, 77), Rgba::new(200, 100, 50, 77));
}

#[test]
fn missing_images_give_fallbacks() {
    let t = WallTextures::new(None, None, None);
    assert!(!t.is_enabled() && !t.is_enemy_enabled() && !t.is_finish_enabled());
    assert_eq!(t.get_pixel(3, 4, '#'), Rgba::new(128, 128, 128, 255));
    assert_eq!(t.get_pixel(3, 4, 'e'), Rgba::new(255, 0, 0, 255));
    assert_eq!(t.get_pixel(usize::MAX, usize::MAX, 'w'), Rgba::new(255, 215, 0, 255));
}
