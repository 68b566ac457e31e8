//! The texture sampler: square textures for walls, enemies and the finish
//! marker, each with a flag telling whether it was loaded, and a fallback
//! color for each when it was not.

use vstd::prelude::*;
use crate::color::{Rgba, rgba};
use crate::caster::TEXTURE_EXTENT;
use crate::enemy::{ENEMY_KEY, FINISH_KEY};
use vstd::arithmetic::div_mod::{lemma_fundamental_div_mod_converse};

verus! {

/// The smallest edge length of a loaded texture.
pub const MIN_TEXTURE_SIZE: usize = 128;

/// The largest edge length of a loaded texture.
pub const MAX_TEXTURE_SIZE: usize = 256;

/// The largest edge length of a source image.
pub const MAX_IMAGE_SIZE: usize = 65536;

/// A decoded image: `width * height` pixels, four bytes (red, green, blue,
/// alpha) each, row by row.
#[derive(Debug)]
pub struct TextureImage {
    pub width: usize,
    pub height: usize,
    pub pixels: Vec<u8>,
}

/// The textures of a level.
pub struct WallTextures {
    wall_texture: Vec<Rgba>,
    enemy_texture: Vec<Rgba>,
    finish_texture: Vec<Rgba>,
    texture_size: usize,
    enabled: bool,
    enemy_enabled: bool,
    finish_enabled: bool,
}

/// The color that stands in for a texture that was not loaded.
pub open spec fn fallback(key: char) -> Rgba {
    if key == ENEMY_KEY {
        rgba(255, 0, 0, 255)
    } else if key == FINISH_KEY {
        rgba(255, 215, 0, 255)
    } else {
        rgba(128, 128, 128, 255)
    }
}

/// A texture coordinate in `[0, TEXTURE_EXTENT)` mapped onto a texture of
/// edge `size`; a coordinate past that range gives the last texel.
pub open spec fn texel_coord(c: int, size: int) -> int {
    if c >= TEXTURE_EXTENT {
        size - 1
    } else {
        let t = c * size / (TEXTURE_EXTENT as int);
        if t > size - 1 {
            size - 1
        } else {
            t
        }
    }
}

/// What a texture gives at `(x, y)`: the texel, or `fb` where the texture is
/// disabled, empty or too short.
pub open spec fn sample_texture(tex: Seq<Rgba>, on: bool, size: int, x: int, y: int, fb: Rgba) -> Rgba {
    let idx = texel_coord(y, size) * size + texel_coord(x, size);
    if !on || tex.len() == 0 || idx >= tex.len() {
        fb
    } else {
        tex[idx]
    }
}

/// The source pixel of texel `(tx, ty)` when an image is resampled to a
/// texture of edge `target`, nearest neighbour; gray where the image holds
/// no such pixel.
pub open spec fn resampled(img: TextureImage, target: int, tx: int, ty: int) -> Rgba {
    let w = img.width as int;
    let h = img.height as int;
    let sx = if tx * w / target > w - 1 {
        w - 1
    } else {
        tx * w / target
    };
    let sy = if ty * h / target > h - 1 {
        h - 1
    } else {
        ty * h / target
    };
    let idx = (sy * w + sx) * 4;
    if w == 0 || h == 0 || idx + 3 >= img.pixels@.len() {
        rgba(128, 128, 128, 255)
    } else {
        rgba(img.pixels@[idx], img.pixels@[idx + 1], img.pixels@[idx + 2], img.pixels@[idx + 3])
    }
}

/// Texel `k` of an image resampled to edge `target`, in row order.
pub open spec fn resampled_at(img: TextureImage, target: int, k: int) -> Rgba {
    resampled(img, target, k % target, k / target)
}

/// The texture of edge `target` resampled from `img`, texel by texel.
pub open spec fn is_resampled(tex: Seq<Rgba>, img: TextureImage, target: int) -> bool {
    &&& tex.len() == target * target
    &&& forall|k: int| 0 <= k < tex.len() ==> #[trigger] tex[k] == resampled_at(img, target, k)
}

fn pixel_of(img: &TextureImage, target: usize, tx: usize, ty: usize) -> (r: Rgba)
    requires
        0 < target <= MAX_TEXTURE_SIZE,
        tx < target,
        ty < target,
        img.width <= MAX_IMAGE_SIZE,
        img.height <= MAX_IMAGE_SIZE,
    ensures
        r == resampled(*img, target as int, tx as int, ty as int),
{
    let w = img.width;
    let h = img.height;
    if w == 0 || h == 0 {
        return Rgba::gray();
    }
    assert(tx * w <= 256 * 65536) by (nonlinear_arith)
        requires
            tx < 256,
            w <= 65536,
    ;
    assert(ty * h <= 256 * 65536) by (nonlinear_arith)
        requires
            ty < 256,
            h <= 65536,
    ;
    let fx: usize = tx * w / target;
    let fy: usize = ty * h / target;
    let sx: usize = if fx > w - 1 {
        w - 1
    } else {
        fx
    };
    let sy: usize = if fy > h - 1 {
        h - 1
    } else {
        fy
    };
    assert((sy as u64) * (w as u64) + (sx as u64) <= 65536 * 65536) by (nonlinear_arith)
        requires
            sy < h <= 65536,
            sx < w <= 65536,
    ;
    let idx: u64 = ((sy as u64) * (w as u64) + (sx as u64)) * 4;
    if idx + 3 >= img.pixels.len() as u64 {
        return Rgba::gray();
    }
    let i = idx as usize;
    Rgba::new(img.pixels[i], img.pixels[i + 1], img.pixels[i + 2], img.pixels[i + 3])
}

impl WallTextures {
    /// The texture edge is a usable size.
    pub open spec fn wf(&self) -> bool {
        0 < self.size() <= MAX_TEXTURE_SIZE
    }

    /// The edge length of every texture.
    pub closed spec fn size(&self) -> int {
        self.texture_size as int
    }

    /// Whether the wall texture was loaded.
    pub closed spec fn wall_on(&self) -> bool {
        self.enabled
    }

    /// Whether the enemy texture was loaded.
    pub closed spec fn enemy_on(&self) -> bool {
        self.enemy_enabled
    }

    /// Whether the finish texture was loaded.
    pub closed spec fn finish_on(&self) -> bool {
        self.finish_enabled
    }

    /// The texels of the wall texture, row by row.
    pub closed spec fn wall_view(&self) -> Seq<Rgba> {
        self.wall_texture@
    }

    /// The texels of the enemy texture, row by row.
    pub closed spec fn enemy_view(&self) -> Seq<Rgba> {
        self.enemy_texture@
    }

    /// The texels of the finish texture, row by row.
    pub closed spec fn finish_view(&self) -> Seq<Rgba> {
        self.finish_texture@
    }

    /// Whether the texture that `key` selects was loaded.
    pub open spec fn enabled_for(&self, key: char) -> bool {
        if key == ENEMY_KEY {
            self.enemy_on()
        } else if key == FINISH_KEY {
            self.finish_on()
        } else {
            self.wall_on()
        }
    }

    /// The color at texture coordinates `(x, y)` of the texture that `key`
    /// selects: `e` enemies, `w` the finish marker, any other key walls.
    pub open spec fn sample(&self, x: int, y: int, key: char) -> Rgba {
        if key == ENEMY_KEY {
            sample_texture(self.enemy_view(), self.enemy_on(), self.size(), x, y, fallback(key))
        } else if key == FINISH_KEY {
            sample_texture(self.finish_view(), self.finish_on(), self.size(), x, y, fallback(key))
        } else {
            sample_texture(self.wall_view(), self.wall_on(), self.size(), x, y, fallback(key))
        }
    }

    /// Textures with none loaded: every sample gives the fallback colors.
    pub fn disabled() -> (r: WallTextures)
        ensures
            r.wf(),
            r.size() == MIN_TEXTURE_SIZE,
            !r.wall_on() && !r.enemy_on() && !r.finish_on(),
            r.wall_view().len() == 0 && r.enemy_view().len() == 0 && r.finish_view().len() == 0,
    {
        WallTextures {
            wall_texture: Vec::new(),
            enemy_texture: Vec::new(),
            finish_texture: Vec::new(),
            texture_size: MIN_TEXTURE_SIZE,
            enabled: false,
            enemy_enabled: false,
            finish_enabled: false,
        }
    }

    /// Textures from the decoded images that could be loaded. The wall
    /// image sets the texture edge: its width clamped to `[128, 256]`, or
    /// 128 without one. Every image is resampled to that edge.
    pub fn new(wall: Option<TextureImage>, enemy: Option<TextureImage>, finish: Option<TextureImage>) -> (r:
        WallTextures)
        requires
            wall matches Some(img) ==> img.width <= MAX_IMAGE_SIZE && img.height <= MAX_IMAGE_SIZE,
            enemy matches Some(img) ==> img.width <= MAX_IMAGE_SIZE && img.height <= MAX_IMAGE_SIZE,
            finish matches Some(img) ==> img.width <= MAX_IMAGE_SIZE && img.height <= MAX_IMAGE_SIZE,
        ensures
            r.wf(),
            r.size() == match wall {
                Some(img) => if img.width < MIN_TEXTURE_SIZE {
                    MIN_TEXTURE_SIZE as int
                } else if img.width > MAX_TEXTURE_SIZE {
                    MAX_TEXTURE_SIZE as int
                } else {
                    img.width as int
                },
                None => MIN_TEXTURE_SIZE as int,
            },
            r.wall_on() == wall is Some,
            r.enemy_on() == enemy is Some,
            r.finish_on() == finish is Some,
            wall matches Some(img) ==> is_resampled(r.wall_view(), img, r.size()),
            enemy matches Some(img) ==> is_resampled(r.enemy_view(), img, r.size()),
            finish matches Some(img) ==> is_resampled(r.finish_view(), img, r.size()),
            wall is None ==> r.wall_view().len() == 0,
            enemy is None ==> r.enemy_view().len() == 0,
            finish is None ==> r.finish_view().len() == 0,
    {
        let (wall_texture, texture_size, enabled) = match &wall {
            Some(img) => {
                let size: usize = if img.width < MIN_TEXTURE_SIZE {
                    MIN_TEXTURE_SIZE
                } else if img.width > MAX_TEXTURE_SIZE {
                    MAX_TEXTURE_SIZE
                } else {
                    img.width
                };
                (Self::extract_colors(img, size), size, true)
            },
            None => (Vec::new(), MIN_TEXTURE_SIZE, false),
        };
        let (enemy_texture, enemy_enabled) = match &enemy {
            Some(img) => (Self::extract_colors(img, texture_size), true),
            None => (Vec::new(), false),
        };
        let (finish_texture, finish_enabled) = match &finish {
            Some(img) => (Self::extract_colors(img, texture_size), true),
            None => (Vec::new(), false),
        };
        WallTextures {
            wall_texture,
            enemy_texture,
            finish_texture,
            texture_size,
            enabled,
            enemy_enabled,
            finish_enabled,
        }
    }

    /// Resamples an image to a square texture of edge `target_size`,
    /// nearest neighbour, row by row.
    pub fn extract_colors(image: &TextureImage, target_size: usize) -> (r: Vec<Rgba>)
        requires
            0 < target_size <= MAX_TEXTURE_SIZE,
            image.width <= MAX_IMAGE_SIZE,
            image.height <= MAX_IMAGE_SIZE,
        ensures
            is_resampled(r@, *image, target_size as int),
    {
        let mut colors: Vec<Rgba> = Vec::new();
        let mut ty: usize = 0;
        while ty < target_size
            invariant
                0 < target_size <= MAX_TEXTURE_SIZE,
                image.width <= MAX_IMAGE_SIZE,
                image.height <= MAX_IMAGE_SIZE,
                ty <= target_size,
                colors@.len() == ty * target_size,
                forall|k: int|
                    0 <= k < colors@.len() ==> #[trigger] colors@[k] == resampled_at(
                        *image,
                        target_size as int,
                        k,
                    ),
            decreases target_size - ty,
        {
            let mut tx: usize = 0;
            while tx < target_size
                invariant
                    0 < target_size <= MAX_TEXTURE_SIZE,
                    image.width <= MAX_IMAGE_SIZE,
                    image.height <= MAX_IMAGE_SIZE,
                    ty < target_size,
                    tx <= target_size,
                    colors@.len() == ty * target_size + tx,
                    forall|k: int|
                        0 <= k < colors@.len() ==> #[trigger] colors@[k] == resampled_at(
                            *image,
                            target_size as int,
                            k,
                        ),
                decreases target_size - tx,
            {
                let c = pixel_of(image, target_size, tx, ty);
                proof {
                    let k = ty * target_size + tx;
                    lemma_fundamental_div_mod_converse(k, target_size as int, ty as int, tx as int);
                }
                colors.push(c);
                tx = tx + 1;
            }
            assert(colors@.len() == (ty + 1) * target_size) by (nonlinear_arith)
                requires
                    colors@.len() == ty * target_size + target_size,
            ;
            ty = ty + 1;
        }
        colors
    }

    /// The color at texture coordinates `(x, y)` of the texture that `key`
    /// selects; a coordinate of 128 or more gives the last texel.
    pub fn get_pixel(&self, x: usize, y: usize, sprite_type: char) -> (r: Rgba)
        requires
            self.wf(),
        ensures
            r == self.sample(x as int, y as int, sprite_type),
            !self.enabled_for(sprite_type) ==> r == fallback(sprite_type),
    {
        if sprite_type == ENEMY_KEY {
            Self::pick(&self.enemy_texture, self.enemy_enabled, self.texture_size, x, y, Rgba::red())
        } else if sprite_type == FINISH_KEY {
            Self::pick(&self.finish_texture, self.finish_enabled, self.texture_size, x, y, Rgba::gold())
        } else {
            Self::pick(&self.wall_texture, self.enabled, self.texture_size, x, y, Rgba::gray())
        }
    }

    fn pick(tex: &Vec<Rgba>, on: bool, size: usize, x: usize, y: usize, fb: Rgba) -> (r: Rgba)
        requires
            0 < size <= MAX_TEXTURE_SIZE,
        ensures
            r == sample_texture(tex@, on, size as int, x as int, y as int, fb),
    {
        if !on || tex.len() == 0 {
            return fb;
        }
        let tx = Self::coord(x, size);
        let ty = Self::coord(y, size);
        assert(ty * size + tx < 256 * 256) by (nonlinear_arith)
            requires
                ty < size <= 256,
                tx < size,
        ;
        let idx: usize = ty * size + tx;
        if idx < tex.len() {
            tex[idx]
        } else {
            fb
        }
    }

    fn coord(c: usize, size: usize) -> (r: usize)
        requires
            0 < size <= MAX_TEXTURE_SIZE,
        ensures
            r == texel_coord(c as int, size as int),
            r < size,
    {
        if c >= 128 {
            return size - 1;
        }
        assert(c * size <= 127 * 256) by (nonlinear_arith)
            requires
                c <= 127,
                size <= 256,
        ;
        let t: usize = c * size / 128;
        if t > size - 1 {
            size - 1
        } else {
            t
        }
    }

    /// Whether the wall texture was loaded.
    pub fn is_enabled(&self) -> (r: bool)
        ensures
            r == self.wall_on(),
    {
        self.enabled
    }

    /// Whether the enemy texture was loaded.
    pub fn is_enemy_enabled(&self) -> (r: bool)
        ensures
            r == self.enemy_on(),
    {
        self.enemy_enabled
    }

    /// Whether the finish texture was loaded.
    pub fn is_finish_enabled(&self) -> (r: bool)
        ensures
            r == self.finish_on(),
    {
        self.finish_enabled
    }
}

/// With its texture disabled, every key samples to its fallback color at
/// every coordinate.
pub proof fn lemma_disabled_samples_fallback(t: WallTextures, x: int, y: int, key: char)
    requires
        !t.enabled_for(key),
    ensures
        t.sample(x, y, key) == fallback(key),
{
}

} // verus!
