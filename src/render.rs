//! The wall projector and the depth buffer: a fan of rays across the field
//! of view, one wall slice per ray, and the per-column depth of the walls.

use vstd::prelude::*;
use crate::caster::{
    Impact, Intersect, MAX_BLOCK_SIZE, MAX_DISTANCE, STEP, TEXTURE_EXTENT, cast_ray, cast_result, grid_wf,
    lemma_cast_perpendicular_bounded, lemma_exit_is_boundary, lemma_unscale_div, ray_blocked, ray_in_grid, ray_open, ray_point, span,
};
use crate::color::{Rgba, rgba, shaded, shade_color};
use crate::fixed::{
    TURN, HALF_TURN, QUARTER_TURN, SUB, ONE, SHADE_FULL, sine, cosine, sin_fx, cos_fx, fade, fade_fx,
    lemma_direction_long, lemma_half_sine_bounds, lemma_half_sine_positive, lemma_sine_bounds,
};
use crate::maze::{Maze, EMPTY, cell, row_count, col_count};
use crate::wall_textures::WallTextures;
use crate::player::Player;
use vstd::arithmetic::div_mod::{lemma_fundamental_div_mod, lemma_fundamental_div_mod_converse};

verus! {

/// The depth of a column that no wall covers: farther than any wall.
pub const FAR: u64 = 0xffff_ffff_ffff_ffff;

/// Rays cast per frame.
pub const NUM_RAYS: usize = 320;

/// Hits farther than this many sub-units are not drawn.
pub const RENDER_CUTOFF: i64 = 40000;

/// The nearest depth a wall is drawn at, in sub-units.
pub const MIN_DEPTH: i64 = 100;

/// The largest number of rays per frame.
pub const MAX_RAYS: usize = 65536;

/// The largest screen width or height, in pixels.
pub const MAX_SCREEN: i64 = 16384;

/// The angle of ray `i` of `n`, spread evenly from half the field of view
/// before the heading to half of it after.
pub open spec fn ray_angle(p: Player, i: int, n: int) -> int {
    (p.a + TURN - p.fov / 2 + i * p.fov / n) % (TURN as int)
}

/// The angle of ray `i` of `n`.
pub fn ray_angle_of(p: &Player, i: usize, n: usize) -> (r: u64)
    requires
        p.wf(),
        i < n <= MAX_RAYS,
    ensures
        r == ray_angle(*p, i as int, n as int),
        r < TURN,
{
    assert(i * p.fov <= MAX_RAYS * HALF_TURN) by (nonlinear_arith)
        requires
            i < n <= MAX_RAYS,
            p.fov < HALF_TURN,
    ;
    let off: u64 = (i as u64) * p.fov / (n as u64);
    assert(off <= p.fov) by (nonlinear_arith)
        requires
            off == (i as int) * (p.fov as int) / (n as int),
            i < n,
    ;
    (p.a + TURN - p.fov / 2 + off) % TURN
}

/// Casts the `n` rays of a frame.
pub fn cast_rays(maze: &Maze, player: &Player, block_size: usize, n: usize) -> (r: Vec<Intersect>)
    requires
        grid_wf(maze@, block_size as int),
        player.wf(),
        0 < n <= MAX_RAYS,
    ensures
        r@.len() == n,
        forall|i: int|
            0 <= i < n ==> cast_result(
                maze@,
                block_size as int,
                *player,
                ray_angle(*player, i, n as int),
                #[trigger] r@[i],
            ),
{
    let mut hits: Vec<Intersect> = Vec::new();
    let mut i: usize = 0;
    while i < n
        invariant
            grid_wf(maze@, block_size as int),
            player.wf(),
            0 < n <= MAX_RAYS,
            i <= n,
            hits@.len() == i,
            forall|k: int|
                0 <= k < i ==> cast_result(
                    maze@,
                    block_size as int,
                    *player,
                    ray_angle(*player, k, n as int),
                    #[trigger] hits@[k],
                ),
        decreases n - i,
    {
        let a = ray_angle_of(player, i, n);
        let h = cast_ray(maze, player, a, block_size);
        hits.push(h);
        i = i + 1;
    }
    hits
}

/// A hit that the wall pass draws: it met a wall within the cutoff. A ray
/// that left the grid, or met nothing, draws nothing.
pub open spec fn drawn(h: Intersect) -> bool {
    h.impact is Wall && h.distance <= RENDER_CUTOFF
}

/// The depth a drawn hit is drawn at: its perpendicular distance, floored.
pub open spec fn wall_depth(h: Intersect) -> int {
    if h.perpendicular_distance < MIN_DEPTH {
        MIN_DEPTH as int
    } else {
        h.perpendicular_distance as int
    }
}

/// The width in pixels of the screen columns of one ray: `width / n`,
/// rounded up.
pub open spec fn column_span(width: int, n: int) -> int {
    (width + n - 1) / n
}

/// The depth of column `x` after the wall pass: that of the ray whose
/// columns hold `x`, where it was drawn, else `FAR`.
pub open spec fn column_depth(hits: Seq<Intersect>, width: int, x: int) -> int {
    let i = x / column_span(width, hits.len() as int);
    if i < hits.len() && drawn(hits[i]) {
        wall_depth(hits[i])
    } else {
        FAR as int
    }
}

/// The depth of a hit, as `wall_depth` gives it.
pub fn depth_of(h: &Intersect) -> (r: u64)
    requires
        drawn(*h),
        h.perpendicular_distance <= h.distance,
    ensures
        r == wall_depth(*h),
        r <= RENDER_CUTOFF,
{
    if h.perpendicular_distance < MIN_DEPTH {
        MIN_DEPTH as u64
    } else {
        h.perpendicular_distance as u64
    }
}

fn column_span_of(width: usize, n: usize) -> (r: usize)
    requires
        0 < n <= MAX_RAYS,
        width <= MAX_SCREEN,
    ensures
        r == column_span(width as int, n as int),
{
    (width + n - 1) / n
}

/// Resets the depth buffer to `width` columns and writes, into the columns
/// of each drawn ray, that ray's depth.
pub fn fill_depth(hits: &Vec<Intersect>, width: usize, depth: &mut Vec<u64>)
    requires
        0 < hits@.len() <= MAX_RAYS,
        width <= MAX_SCREEN,
        forall|i: int| 0 <= i < hits@.len() ==> (#[trigger] hits@[i]).perpendicular_distance <= hits@[i].distance,
    ensures
        final(depth)@.len() == width,
        forall|x: int| 0 <= x < width ==> #[trigger] final(depth)@[x] == column_depth(hits@, width as int, x),
{
    let n = hits.len();
    let cw = column_span_of(width, n);
    *depth = Vec::new();
    let mut x: usize = 0;
    while x < width
        invariant
            x <= width,
            depth@.len() == x,
            forall|k: int| 0 <= k < x ==> #[trigger] depth@[k] == FAR,
        decreases width - x,
    {
        depth.push(FAR);
        x = x + 1;
    }
    if width == 0 {
        return;
    }
    assert(0 < cw <= width) by (nonlinear_arith)
        requires
            cw == (width + n - 1) / (n as int),
            0 < n,
            0 < width,
    ;
    let mut i: usize = 0;
    while i < n
        invariant
            n == hits@.len(),
            0 < n <= MAX_RAYS,
            width <= MAX_SCREEN,
            cw == column_span(width as int, n as int),
            cw > 0,
            cw <= width,
            i <= n,
            depth@.len() == width,
            forall|i: int| 0 <= i < hits@.len() ==> (#[trigger] hits@[i]).perpendicular_distance <= hits@[i].distance,
            forall|k: int|
                0 <= k < width ==> #[trigger] depth@[k] == (if k / (cw as int) < i {
                    column_depth(hits@, width as int, k)
                } else {
                    FAR as int
                }),
        decreases n - i,
    {
        assert(i * cw <= MAX_RAYS * MAX_SCREEN) by (nonlinear_arith)
            requires
                i < n <= MAX_RAYS,
                cw <= MAX_SCREEN,
        ;
        let h = &hits[i];
        if matches!(h.impact, Impact::Wall(_)) && h.distance <= RENDER_CUTOFF {
            let d = depth_of(h);
            let start: usize = i * cw;
            let end: usize = if start + cw > width {
                width
            } else {
                start + cw
            };
            let mut x: usize = start;
            proof {
                assert forall|k: int| 0 <= k < width implies #[trigger] depth@[k] == (if k / (cw as int) < i
                    || (k / (cw as int) == i && k < x) {
                    column_depth(hits@, width as int, k)
                } else {
                    FAR as int
                }) by {
                    if k / (cw as int) == i {
                        lemma_fundamental_div_mod(k, cw as int);
                        assert(k >= start) by (nonlinear_arith)
                            requires
                                k == cw * (k / (cw as int)) + k % (cw as int),
                                k % (cw as int) >= 0,
                                k / (cw as int) == i,
                                start == i * cw,
                        ;
                    }
                }
            }
            while x < end
                invariant
                    n == hits@.len(),
                    i < n,
                    cw == column_span(width as int, n as int),
                    cw > 0,
                    start == i * cw,
                    start <= x,
                    end <= width,
                    end <= start + cw,
                    depth@.len() == width,
                    drawn(hits@[i as int]),
                    d == wall_depth(hits@[i as int]),
                    forall|k: int|
                        0 <= k < width ==> #[trigger] depth@[k] == (if k / (cw as int) < i || (k / (
                        cw as int) == i && k < x) {
                            column_depth(hits@, width as int, k)
                        } else {
                            FAR as int
                        }),
                decreases end - x,
            {
                proof {
                    lemma_fundamental_div_mod_converse(x as int, cw as int, i as int, x - start);
                }
                depth.set(x, d);
                x = x + 1;
            }
            proof {
                assert forall|k: int| 0 <= k < width implies #[trigger] depth@[k] == (if k / (cw as int) < i + 1 {
                    column_depth(hits@, width as int, k)
                } else {
                    FAR as int
                }) by {
                    if k / (cw as int) == i {
                    lemma_fundamental_div_mod(k, cw as int);
                    assert(k >= start) by (nonlinear_arith)
                        requires
                            k == cw * (k / (cw as int)) + k % (cw as int),
                            k % (cw as int) >= 0,
                            k / (cw as int) == i,
                            start == i * cw,
                    ;
                    assert(k < start + cw) by (nonlinear_arith)
                        requires
                            k == cw * (k / (cw as int)) + k % (cw as int),
                            k % (cw as int) < cw,
                            k / (cw as int) == i,
                            start == i * cw,
                    ;
                    }
                }
            }
        } else {
            proof {
                assert forall|k: int| 0 <= k < width implies #[trigger] depth@[k] == (if k / (cw as int) < i + 1 {
                    column_depth(hits@, width as int, k)
                } else {
                    FAR as int
                }) by {
                }
            }
        }
        i = i + 1;
    }
}

/// A filled rectangle to draw, in screen pixels.
#[derive(Clone, Copy, Debug, PartialEq, Eq, Structural)]
pub struct DrawRect {
    pub x: i32,
    pub y: i32,
    pub w: i32,
    pub h: i32,
    pub color: Rgba,
}

/// Depth, in sub-units, over which walls fade to their darkest.
pub const WALL_FADE: u64 = 15000;

/// The darkest shade of a wall, per mille.
pub const WALL_SHADE_FLOOR: u64 = 300;

/// The lens of a frame: the cosine and sine of half the field of view,
/// whose ratio is the distance to the projection plane over half the
/// screen width.
pub open spec fn lens_ok(cf: int, sf: int) -> bool {
    0 <= cf <= ONE && 1 <= sf <= ONE
}

/// The lens of a camera.
pub fn lens_of(p: &Player) -> (r: (i64, i64))
    requires
        p.wf(),
    ensures
        r.0 == cosine((p.fov / 2) as int),
        r.1 == sine((p.fov / 2) as int),
        lens_ok(r.0 as int, r.1 as int),
{
    let half = p.fov / 2;
    proof {
        lemma_half_sine_positive(half as int);
        lemma_half_sine_bounds(half as int);
        lemma_half_sine_bounds(half + QUARTER_TURN);
    }
    (cos_fx(half), sin_fx(half))
}

/// The on-screen height, in pixels, of a wall slice at `depth`:
/// `block_size * projection distance / depth`, at most twice the screen
/// height.
pub open spec fn wall_extent(block_size: int, width: int, height: int, cf: int, sf: int, depth: int) -> int {
    let h = block_size * SUB * width * cf / (2 * sf * depth);
    if h > 2 * height {
        2 * height
    } else {
        h
    }
}

/// The vertical placement of one wall slice.
#[derive(Clone, Copy, Debug, PartialEq, Eq, Structural)]
pub struct WallSlice {
    /// First and one-past-last screen rows drawn.
    pub top: i64,
    pub bottom: i64,
    /// The texture rows at `top` and at `bottom`.
    pub tex_start: u64,
    pub tex_end: u64,
}

/// The placement of a slice of height `wh` centered on a screen of height
/// `height`: its extent clamped to the screen, and the part of the texture
/// that the clamped extent shows.
pub open spec fn slice_of(wh: int, height: int) -> WallSlice {
    let top2 = height - wh;
    let bottom2 = height + wh;
    WallSlice {
        top: (if top2 < 0 {
            0
        } else {
            top2 / 2
        }) as i64,
        bottom: (if bottom2 > 2 * height {
            height
        } else {
            bottom2 / 2
        }) as i64,
        tex_start: (if top2 < 0 {
            (-top2) * TEXTURE_EXTENT / (2 * wh)
        } else {
            0
        }) as u64,
        tex_end: (if bottom2 > 2 * height {
            (2 * height - top2) * TEXTURE_EXTENT / (2 * wh)
        } else {
            TEXTURE_EXTENT as int
        }) as u64,
    }
}

/// The placement of the wall slice of a hit drawn at `depth`.
pub fn wall_slice(block_size: usize, width: i32, height: i32, cf: i64, sf: i64, depth: u64) -> (r: WallSlice)
    requires
        0 < block_size <= MAX_BLOCK_SIZE,
        0 < width <= MAX_SCREEN,
        0 < height <= MAX_SCREEN,
        lens_ok(cf as int, sf as int),
        MIN_DEPTH <= depth <= RENDER_CUTOFF,
    ensures
        r == slice_of(
            wall_extent(block_size as int, width as int, height as int, cf as int, sf as int, depth as int),
            height as int,
        ),
        0 <= r.top <= r.bottom <= height,
        r.tex_start <= r.tex_end <= TEXTURE_EXTENT,
{
    let bs = block_size as u64;
    let w = width as u64;
    let c = cf as u64;
    let s = sf as u64;
    assert(bs * 10 * w <= 10000 * 10 * 16384) by (nonlinear_arith)
        requires
            bs <= 10000,
            w <= 16384,
    ;
    assert(bs * 10 * w * c <= 10000 * 10 * 16384 * 16384) by (nonlinear_arith)
        requires
            bs * 10 * w <= 10000 * 10 * 16384,
            c <= 16384,
    ;
    assert(2 * s * depth <= 2 * 16384 * 40000) by (nonlinear_arith)
        requires
            s <= 16384,
            depth <= 40000,
    ;
    assert(2 * s * depth >= 1) by (nonlinear_arith)
        requires
            s >= 1,
            depth >= 1,
    ;
    let raw: u64 = bs * 10 * w * c / (2 * s * depth);
    let h = height as i64;
    let wh: i64 = if raw > 2 * (h as u64) {
        2 * h
    } else {
        raw as i64
    };
    let top2: i64 = h - wh;
    let bottom2: i64 = h + wh;
    let top: i64 = if top2 < 0 {
        0
    } else {
        top2 / 2
    };
    let bottom: i64 = if bottom2 > 2 * h {
        h
    } else {
        bottom2 / 2
    };
    let tex_start: u64 = if top2 < 0 {
        assert((-top2) * 128 <= 2 * wh * 128) by (nonlinear_arith)
            requires
                top2 == h - wh,
                top2 < 0,
                h > 0,
        ;
        assert((-top2) * 128 / (2 * wh) <= 128) by (nonlinear_arith)
            requires
                0 <= (-top2) * 128 <= 2 * wh * 128,
                wh > 0,
        ;
        ((-top2) * 128 / (2 * wh)) as u64
    } else {
        0
    };
    let tex_end: u64 = if bottom2 > 2 * h {
        assert(0 < (2 * h - top2) * 128 <= 2 * wh * 128) by (nonlinear_arith)
            requires
                bottom2 > 2 * h,
                top2 == h - wh,
                bottom2 == h + wh,
                h > 0,
        ;
        assert((2 * h - top2) * 128 / (2 * wh) <= 128) by (nonlinear_arith)
            requires
                0 < (2 * h - top2) * 128 <= 2 * wh * 128,
                wh > 0,
        ;
        proof {
            if top2 < 0 {
                assert((-top2) * 128 / (2 * wh) <= (2 * h - top2) * 128 / (2 * wh)) by (nonlinear_arith)
                    requires
                        (-top2) * 128 <= (2 * h - top2) * 128,
                        wh > 0,
                ;
            }
        }
        ((2 * h - top2) * 128 / (2 * wh)) as u64
    } else {
        128
    };
    WallSlice { top, bottom, tex_start, tex_end }
}

/// Rows per strip of a textured wall slice: finer near the camera, and
/// never more than fifty strips to a slice.
pub open spec fn wall_strip_height(depth: int, visible: int) -> int {
    let base = if depth < 500 {
        16
    } else if depth < 1000 {
        8
    } else {
        4
    };
    if visible / 50 > base {
        visible / 50
    } else {
        base
    }
}

/// The texture row at screen row `y` of a slice: the visible part of the
/// texture, spread evenly over the drawn rows.
pub open spec fn wall_tex_row(s: WallSlice, y: int) -> int {
    let v = s.tex_start + (y - s.top) * (s.tex_end - s.tex_start) / (s.bottom - s.top);
    if v > TEXTURE_EXTENT - 1 {
        TEXTURE_EXTENT - 1
    } else {
        v
    }
}

/// Strip `j` of a textured wall slice drawn at column `x`.
pub open spec fn wall_strip(
    s: WallSlice,
    x: int,
    cw: int,
    step: int,
    shade: int,
    tx: int,
    symbol: char,
    t: WallTextures,
    j: int,
) -> DrawRect {
    let y = s.top + j * step;
    let end = if y + step > s.bottom {
        s.bottom as int
    } else {
        y + step
    };
    DrawRect {
        x: x as i32,
        y: y as i32,
        w: (cw + 1) as i32,
        h: (end - y) as i32,
        color: shaded(
            t.sample(tx, wall_tex_row(s, y), symbol),
            shade,
            t.sample(tx, wall_tex_row(s, y), symbol).a,
        ),
    }
}

/// The strips of a textured wall slice drawn at column `x`, top to bottom.
pub open spec fn strip_rects(
    s: WallSlice,
    x: int,
    cw: int,
    depth: int,
    shade: int,
    tx: int,
    symbol: char,
    t: WallTextures,
) -> Seq<DrawRect> {
    let step = wall_strip_height(depth, s.bottom - s.top);
    let count = (s.bottom - s.top + step - 1) / step;
    Seq::new(count as nat, |j: int| wall_strip(s, x, cw, step, shade, tx, symbol, t, j))
}

/// Appends the strips of a textured wall slice, top to bottom, each strip
/// colored by the texel at its first row, its red, green and blue shaded by
/// `shade` and its alpha kept.
pub fn wall_strips(
    s: WallSlice,
    x: i32,
    cw: i32,
    depth: u64,
    shade: u64,
    tx: usize,
    symbol: char,
    textures: &WallTextures,
    out: &mut Vec<DrawRect>,
)
    requires
        textures.wf(),
        0 <= s.top <= s.bottom <= MAX_SCREEN,
        s.tex_start <= s.tex_end <= TEXTURE_EXTENT,
        0 <= cw < MAX_SCREEN,
        shade <= SHADE_FULL,
    ensures
        ({
            let step = wall_strip_height(depth as int, s.bottom - s.top);
            let count = (s.bottom - s.top + step - 1) / step;
            &&& final(out)@.len() == old(out)@.len() + count
            &&& forall|k: int| 0 <= k < old(out)@.len() ==> #[trigger] final(out)@[k] == old(out)@[k]
            &&& forall|k: int|
                old(out)@.len() <= k < final(out)@.len() ==> #[trigger] final(out)@[k] == wall_strip(
                    s,
                    x as int,
                    cw as int,
                    step,
                    shade as int,
                    tx as int,
                    symbol,
                    *textures,
                    k - old(out)@.len(),
                )
        }),
        final(out)@ == old(out)@ + strip_rects(s, x as int, cw as int, depth as int, shade as int, tx as int, symbol, *textures),
{
    let visible: i64 = s.bottom - s.top;
    let base: i64 = if depth < 500 {
        16
    } else if depth < 1000 {
        8
    } else {
        4
    };
    let step: i64 = if visible / 50 > base {
        visible / 50
    } else {
        base
    };
    let ghost start = out@;
    let ghost start_len = out@.len();
    let ghost count = (visible + step - 1) / (step as int);
    let range: i64 = (s.tex_end - s.tex_start) as i64;
    let mut j: i64 = 0;
    let mut y: i64 = s.top;
    proof {
        if visible > 0 {
            lemma_fundamental_div_mod(visible + step - 1, step as int);
            assert(count >= 1) by (nonlinear_arith)
                requires
                    visible + step - 1 == step * count + (visible + step - 1) % (step as int),
                    (visible + step - 1) % (step as int) < step,
                    visible >= 1,
                    step > 0,
            ;
        } else {
            lemma_fundamental_div_mod_converse(visible + step - 1, step as int, 0, visible + step - 1);
        }
    }
    while y < s.bottom
        invariant
            textures.wf(),
            0 <= s.top <= s.bottom <= MAX_SCREEN,
            s.tex_start <= s.tex_end <= TEXTURE_EXTENT,
            0 <= cw < MAX_SCREEN,
            shade <= SHADE_FULL,
            visible == s.bottom - s.top,
            step == wall_strip_height(depth as int, visible as int),
            step >= 4,
            range == s.tex_end - s.tex_start,
            0 <= j,
            y == s.top + j * step,
            j * step < visible + step,
            y < s.bottom ==> j < count,
            y >= s.bottom ==> j == count,
            count == (visible + step - 1) / (step as int),
            out@.len() == start_len + j,
            forall|k: int| 0 <= k < start_len ==> #[trigger] out@[k] == old(out)@[k],
            forall|k: int|
                start_len <= k < out@.len() ==> #[trigger] out@[k] == wall_strip(
                    s,
                    x as int,
                    cw as int,
                    step as int,
                    shade as int,
                    tx as int,
                    symbol,
                    *textures,
                    k - start_len,
                ),
        decreases count - j,
    {
        let end: i64 = if y + step > s.bottom {
            s.bottom
        } else {
            y + step
        };
        assert((y - s.top) * range <= MAX_SCREEN * 128) by (nonlinear_arith)
            requires
                0 <= y - s.top <= MAX_SCREEN,
                0 <= range <= 128,
        ;
        assert(0 <= (y - s.top) * range) by (nonlinear_arith)
            requires
                0 <= y - s.top,
                0 <= range,
        ;
        let v: i64 = s.tex_start as i64 + (y - s.top) * range / visible;
        let row: usize = if v > 127 {
            127
        } else {
            v as usize
        };
        let texel = textures.get_pixel(tx, row, symbol);
        let color = shade_color(texel, shade, texel.a);
        out.push(DrawRect { x, y: y as i32, w: cw + 1, h: (end - y) as i32, color });
        proof {
            assert(j * step + step == (j + 1) * step) by (nonlinear_arith);
            let jn = j + 1;
            if y + step < s.bottom {
                // More strips follow.
                assert(jn * step < visible);
                lemma_fundamental_div_mod(visible + step - 1, step as int);
                assert(jn < count) by (nonlinear_arith)
                    requires
                        jn * step < visible,
                        count == (visible + step - 1) / (step as int),
                        step > 0,
                        visible + step - 1 == step * count + (visible + step - 1) % (step as int),
                        (visible + step - 1) % (step as int) < step,
                ;
            } else {
                lemma_fundamental_div_mod_converse(visible + step - 1, step as int, jn as int, visible + step - 1 - jn * step);
            }
        }
        j = j + 1;
        y = y + step;
    }
    assert(out@ =~= start + strip_rects(s, x as int, cw as int, depth as int, shade as int, tx as int, symbol, *textures));
}

/// The symbol a drawn hit is drawn with: that of the wall it met.
pub open spec fn hit_symbol(i: Impact) -> char {
    match i {
        Impact::Wall(c) => c,
        _ => '#',
    }
}

/// The flat color of a wall symbol, used where no wall texture is loaded.
pub open spec fn wall_base_color(symbol: char) -> Rgba {
    if symbol == '+' || symbol == '-' {
        rgba(169, 169, 169, 255)
    } else if symbol == '|' {
        rgba(128, 128, 128, 255)
    } else {
        rgba(211, 211, 211, 255)
    }
}

fn base_color_of(symbol: char) -> (r: Rgba)
    ensures
        r == wall_base_color(symbol),
{
    if symbol == '+' || symbol == '-' {
        Rgba::dark_gray()
    } else if symbol == '|' {
        Rgba::gray()
    } else {
        Rgba::light_gray()
    }
}

fn symbol_of(i: Impact) -> (r: char)
    ensures
        r == hit_symbol(i),
{
    match i {
        Impact::Wall(c) => c,
        _ => '#',
    }
}

/// What the wall pass draws for hit `i`: nothing where it is not drawn;
/// else its slice at the ray's columns, shaded by its depth, as textured
/// strips or as one rectangle of the symbol's flat color.
pub open spec fn slice_rects(
    h: Intersect,
    i: int,
    block_size: int,
    width: int,
    height: int,
    cf: int,
    sf: int,
    textured: bool,
    t: WallTextures,
) -> Seq<DrawRect> {
    if !drawn(h) {
        seq![]
    } else {
        let d = wall_depth(h);
        let s = slice_of(wall_extent(block_size, width, height, cf, sf, d), height);
        let cw = column_span(width, NUM_RAYS as int);
        let shade = fade(d, WALL_FADE as int, WALL_SHADE_FLOOR as int);
        let sym = hit_symbol(h.impact);
        if textured {
            strip_rects(s, i * cw, cw, d, shade, h.tx as int, sym, t)
        } else {
            seq![
                DrawRect {
                    x: (i * cw) as i32,
                    y: s.top as i32,
                    w: (cw + 1) as i32,
                    h: (s.bottom - s.top) as i32,
                    color: shaded(wall_base_color(sym), shade, wall_base_color(sym).a),
                },
            ]
        }
    }
}

/// What the wall pass draws for the first `k` hits, in order.
pub open spec fn pass_rects(
    hits: Seq<Intersect>,
    k: int,
    block_size: int,
    width: int,
    height: int,
    cf: int,
    sf: int,
    textured: bool,
    t: WallTextures,
) -> Seq<DrawRect>
    decreases k,
{
    if k <= 0 {
        seq![]
    } else {
        pass_rects(hits, k - 1, block_size, width, height, cf, sf, textured, t) + slice_rects(
            hits[k - 1],
            k - 1,
            block_size,
            width,
            height,
            cf,
            sf,
            textured,
            t,
        )
    }
}

/// The color of the upper half of the screen.
pub open spec fn sky_color() -> Rgba {
    rgba(25, 25, 35, 255)
}

/// The wall pass of a frame. Fills the sky and the floor, casts
/// `NUM_RAYS` rays across the field of view, writes each drawn ray's depth
/// into the depth buffer's columns under it (`FAR` elsewhere), and draws
/// each drawn ray's wall slice: textured strips where a wall texture is
/// loaded, one flat shaded rectangle otherwise.
pub fn render3d(
    player: &Player,
    maze: &Maze,
    block_size: usize,
    wall_textures: &WallTextures,
    window_width: i32,
    window_height: i32,
    zbuffer: &mut Vec<u64>,
) -> (rects: Vec<DrawRect>)
    requires
        grid_wf(maze@, block_size as int),
        player.wf(),
        wall_textures.wf(),
        0 < window_width <= MAX_SCREEN,
        0 < window_height <= MAX_SCREEN,
    ensures
        final(zbuffer)@.len() == window_width,
        exists|hits: Seq<Intersect>|
            {
                &&& hits.len() == NUM_RAYS
                &&& rects@.subrange(2, rects@.len() as int) == #[trigger] pass_rects(
                    hits,
                    NUM_RAYS as int,
                    block_size as int,
                    window_width as int,
                    window_height as int,
                    cosine((player.fov / 2) as int),
                    sine((player.fov / 2) as int),
                    wall_textures.wall_on(),
                    *wall_textures,
                )
                &&& forall|i: int|
                    0 <= i < NUM_RAYS ==> cast_result(
                        maze@,
                        block_size as int,
                        *player,
                        ray_angle(*player, i, NUM_RAYS as int),
                        #[trigger] hits[i],
                    )
                &&& forall|x: int|
                    0 <= x < window_width ==> #[trigger] final(zbuffer)@[x] == column_depth(
                        hits,
                        window_width as int,
                        x,
                    )
            },
        rects@.len() >= 2,
        rects@[0] == (DrawRect { x: 0, y: 0, w: window_width, h: (window_height / 2) as i32, color: sky_color() }),
        rects@[1] == (DrawRect {
            x: 0,
            y: (window_height / 2) as i32,
            w: window_width,
            h: (window_height / 2) as i32,
            color: rgba(0, 0, 0, 255),
        }),
{
    let hits = cast_rays(maze, player, block_size, NUM_RAYS);
    proof {
        assert forall|i: int| 0 <= i < hits@.len() implies (#[trigger] hits@[i]).perpendicular_distance
            <= hits@[i].distance by {
            lemma_cast_perpendicular_bounded(
                maze@,
                block_size as int,
                *player,
                ray_angle(*player, i, NUM_RAYS as int),
                hits@[i],
            );
        }
    }
    fill_depth(&hits, window_width as usize, zbuffer);
    let mut rects: Vec<DrawRect> = Vec::new();
    rects.push(DrawRect { x: 0, y: 0, w: window_width, h: window_height / 2, color: Rgba::new(25, 25, 35, 255) });
    rects.push(
        DrawRect {
            x: 0,
            y: window_height / 2,
            w: window_width,
            h: window_height / 2,
            color: Rgba::new(0, 0, 0, 255),
        },
    );
    let ghost first = rects@;
    let (cf, sf) = lens_of(player);
    let cw: usize = column_span_of(window_width as usize, NUM_RAYS);
    assert(cw <= MAX_SCREEN / 2) by (nonlinear_arith)
        requires
            cw == (window_width + 320 - 1) / 320int,
            window_width <= MAX_SCREEN,
    ;
    let mut i: usize = 0;
    assert(rects@.subrange(2, rects@.len() as int) =~= Seq::<DrawRect>::empty());
    while i < NUM_RAYS
        invariant
            hits@.len() == NUM_RAYS,
            forall|i: int| 0 <= i < hits@.len() ==> (#[trigger] hits@[i]).perpendicular_distance <= hits@[i].distance,
            forall|i: int| 0 <= i < hits@.len() ==> (#[trigger] hits@[i]).distance >= 0,
            wall_textures.wf(),
            0 < block_size <= MAX_BLOCK_SIZE,
            0 < window_width <= MAX_SCREEN,
            0 < window_height <= MAX_SCREEN,
            lens_ok(cf as int, sf as int),
            cw <= MAX_SCREEN / 2,
            i <= NUM_RAYS,
            rects@.len() >= 2,
            rects@[0] == first[0],
            rects@[1] == first[1],
            cf == cosine((player.fov / 2) as int),
            sf == sine((player.fov / 2) as int),
            cw == column_span(window_width as int, NUM_RAYS as int),
            rects@.subrange(2, rects@.len() as int) == pass_rects(
                hits@,
                i as int,
                block_size as int,
                window_width as int,
                window_height as int,
                cf as int,
                sf as int,
                wall_textures.wall_on(),
                *wall_textures,
            ),
        decreases NUM_RAYS - i,
    {
        let h = hits[i];
        let ghost before = rects@;
        if matches!(h.impact, Impact::Wall(_)) && h.distance <= RENDER_CUTOFF {
            let d = depth_of(&h);
            let slice = wall_slice(block_size, window_width, window_height, cf, sf, d);
            let shade = fade_fx(d, WALL_FADE, WALL_SHADE_FLOOR);
            assert(i * cw <= 320 * 8192) by (nonlinear_arith)
                requires
                    i < 320,
                    cw <= 8192,
            ;
            let x: i32 = (i * cw) as i32;
            let sym = symbol_of(h.impact);
            if wall_textures.is_enabled() {
                wall_strips(slice, x, cw as i32, d, shade, h.tx, sym, wall_textures, &mut rects);
            } else {
                let base = base_color_of(sym);
                let color = shade_color(base, shade, base.a);
                rects.push(
                    DrawRect {
                        x,
                        y: slice.top as i32,
                        w: (cw + 1) as i32,
                        h: (slice.bottom - slice.top) as i32,
                        color,
                    },
                );
            }
        }
        proof {
            let sr = slice_rects(
                hits@[i as int],
                i as int,
                block_size as int,
                window_width as int,
                window_height as int,
                cf as int,
                sf as int,
                wall_textures.wall_on(),
                *wall_textures,
            );
            assert(rects@ =~= before + sr);
            assert(rects@.subrange(2, rects@.len() as int) =~= before.subrange(2, before.len() as int) + sr);
        }
        i = i + 1;
    }
    assert(forall|x: int|
        0 <= x < window_width ==> #[trigger] zbuffer@[x] == column_depth(hits@, window_width as int, x));
    rects
}

/// Every column lies under one of the rays: `n` columns of `column_span`
/// pixels cover the screen. So where every ray of the pass was drawn,
/// every column of the depth buffer holds a finite depth, that of the ray
/// over it.
pub proof fn lemma_depth_all_finite(hits: Seq<Intersect>, width: int, depth: Seq<u64>)
    requires
        0 < hits.len(),
        0 <= width,
        depth.len() == width,
        forall|x: int| 0 <= x < width ==> #[trigger] depth[x] == column_depth(hits, width, x),
        forall|i: int| 0 <= i < hits.len() ==> drawn(#[trigger] hits[i]),
        forall|i: int| 0 <= i < hits.len() ==> (#[trigger] hits[i]).perpendicular_distance <= hits[i].distance,
    ensures
        forall|x: int|
            0 <= x < width ==> #[trigger] depth[x] < FAR && depth[x] == wall_depth(
                hits[x / column_span(width, hits.len() as int)],
            ),
{
    let n = hits.len() as int;
    let cw = column_span(width, n);
    lemma_fundamental_div_mod(width + n - 1, n);
    assert(n * cw >= width) by (nonlinear_arith)
        requires
            width + n - 1 == n * cw + (width + n - 1) % n,
            (width + n - 1) % n < n,
    ;
    assert forall|x: int| 0 <= x < width implies #[trigger] depth[x] < FAR && depth[x] == wall_depth(
        hits[x / column_span(width, hits.len() as int)],
    ) by {
        if cw > 0 {
            lemma_fundamental_div_mod(x, cw);
            assert(x / cw < n) by (nonlinear_arith)
                requires
                    x == cw * (x / cw) + x % cw,
                    0 <= x % cw,
                    x < width <= n * cw,
                    cw > 0,
            ;
            assert(0 <= x / cw) by (nonlinear_arith)
                requires
                    0 <= x,
                    cw > 0,
            ;
        } else {
            assert(n * cw <= 0) by (nonlinear_arith)
                requires
                    cw <= 0,
                    n > 0,
            ;
        }
    }
}

/// The largest extent, in sub-units, along either axis, of a walled-in
/// grid whose every ray is sure to be drawn: half the render cutoff.
pub const ROOM_EXTENT: i64 = 20000;

/// The largest extent, in sub-units, along either axis, of a grid that
/// every ray is sure to leave within the maximum range: half that range.
pub const EXIT_EXTENT: i64 = 25000;

/// Every cell on the grid's border is a wall.
pub open spec fn enclosed(m: Seq<Vec<char>>) -> bool {
    forall|j: int, i: int|
        0 <= j < row_count(m) && 0 <= i < col_count(m) && (j == 0 || j == row_count(m) - 1 || i == 0 || i
            == col_count(m) - 1) ==> #[trigger] cell(m, j, i) != EMPTY
}

/// The grid spans at most `extent` sub-units along each axis.
pub open spec fn grid_within(m: Seq<Vec<char>>, block_size: int, extent: int) -> bool {
    col_count(m) * block_size * SUB <= extent && row_count(m) * block_size * SUB <= extent
}

/// The camera stands inside the grid.
pub open spec fn camera_in_grid(m: Seq<Vec<char>>, block_size: int, p: Player) -> bool {
    &&& 0 <= p.pos.x
    &&& 0 <= p.pos.y
    &&& p.pos.x as int / (block_size * SUB) < col_count(m)
    &&& p.pos.y as int / (block_size * SUB) < row_count(m)
}

/// A coordinate that is at least `n` cells of edge `sp` lies at or past
/// cell `n`.
proof fn lemma_past_cells(v: int, sp: int, n: int)
    requires
        sp > 0,
        v >= n * sp,
    ensures
        v / sp >= n,
{
    lemma_fundamental_div_mod(v, sp);
    assert(v / sp >= n) by (nonlinear_arith)
        requires
            v == sp * (v / sp) + v % sp,
            v % sp < sp,
            v >= n * sp,
            sp > 0,
    ;
}

/// A coordinate before cell `n` lies in a cell before `n`.
proof fn lemma_before_cells(v: int, sp: int, n: int)
    requires
        sp > 0,
        0 <= v < n * sp,
    ensures
        v / sp < n,
{
    lemma_fundamental_div_mod(v, sp);
    assert(v / sp < n) by (nonlinear_arith)
        requires
            v == sp * (v / sp) + v % sp,
            v % sp >= 0,
            v < n * sp,
            sp > 0,
    ;
}

/// The camera's coordinate, scaled, lies before the grid's far edge.
proof fn lemma_camera_before_edge(v: int, cs: int, n: int, extent: int)
    requires
        cs > 0,
        0 <= v,
        v / cs < n,
        n * cs <= extent,
    ensures
        v * ONE < extent * ONE,
{
    lemma_fundamental_div_mod(v, cs);
    assert(v < n * cs) by (nonlinear_arith)
        requires
            v == cs * (v / cs) + v % cs,
            v % cs < cs,
            v / cs < n,
            cs > 0,
    ;
}

/// In a grid at most `extent` sub-units along each axis, a probe at least
/// twice that extent away from a camera
/// inside it has left the grid.
proof fn lemma_far_outside(m: Seq<Vec<char>>, block_size: int, p: Player, a: int, t: int, extent: int)
    requires
        grid_wf(m, block_size),
        camera_in_grid(m, block_size, p),
        grid_within(m, block_size, extent),
        0 <= a < TURN,
        t >= 2 * extent,
    ensures
        !ray_in_grid(m, block_size, p, a, t),
{
    let cs = block_size * SUB;
    let sp = span(block_size);
    assert(sp == cs * ONE);
    let cols = col_count(m);
    let rows = row_count(m);
    assert(cols * cs == cols * block_size * SUB && rows * cs == rows * block_size * SUB) by (nonlinear_arith)
        requires
            cs == block_size * SUB,
    ;
    lemma_camera_before_edge(p.pos.x as int, cs, cols, extent);
    lemma_camera_before_edge(p.pos.y as int, cs, rows, extent);
    assert(cols * sp <= extent * ONE) by (nonlinear_arith)
        requires
            cols * block_size * SUB <= extent,
            sp == cs * ONE,
            cs == block_size * SUB,
    ;
    assert(rows * sp <= extent * ONE) by (nonlinear_arith)
        requires
            rows * block_size * SUB <= extent,
            sp == cs * ONE,
            cs == block_size * SUB,
    ;
    lemma_direction_long(a);
    let dx = cosine(a);
    let dy = sine(a);
    let (x, y) = ray_point(p, a, t);
    assert(x == p.pos.x * ONE + t * dx);
    assert(y == p.pos.y * ONE + t * dy);
    if dx >= ONE / 2 {
        assert(t * dx >= extent * ONE) by (nonlinear_arith)
            requires
                dx >= ONE / 2,
                t >= 2 * extent,
                extent >= 0,
        ;
        lemma_past_cells(x, sp, cols);
    } else if dx <= -(ONE / 2) {
        assert(t * dx <= -extent * ONE) by (nonlinear_arith)
            requires
                dx <= -(ONE / 2),
                t >= 2 * extent,
                extent >= 0,
        ;
    } else if dy >= ONE / 2 {
        assert(t * dy >= extent * ONE) by (nonlinear_arith)
            requires
                dy >= ONE / 2,
                t >= 2 * extent,
                extent >= 0,
        ;
        lemma_past_cells(y, sp, rows);
    } else {
        assert(t * dy <= -extent * ONE) by (nonlinear_arith)
            requires
                dy <= -(ONE / 2),
                t >= 2 * extent,
                extent >= 0,
        ;
    }
}

/// One coarse step from an empty cell of a walled-in grid stays in the
/// grid: the empty cell is not on the border, and a step is no longer than
/// a cell.
proof fn lemma_step_stays(m: Seq<Vec<char>>, block_size: int, p: Player, a: int, t: int)
    requires
        grid_wf(m, block_size),
        enclosed(m),
        0 <= a < TURN,
        STEP <= t,
        ray_open(m, block_size, p, a, t - STEP),
    ensures
        ray_in_grid(m, block_size, p, a, t),
{
    let sp = span(block_size);
    assert(sp >= STEP * ONE) by (nonlinear_arith)
        requires
            sp == block_size * SUB * ONE,
            block_size >= 1,
    ;
    lemma_sine_bounds(a);
    let dx = cosine(a);
    let dy = sine(a);
    let (x0, y0) = ray_point(p, a, t - STEP);
    let (x1, y1) = ray_point(p, a, t);
    assert(x1 == x0 + STEP * dx) by (nonlinear_arith)
        requires
            x0 == p.pos.x * ONE + (t - STEP) * dx,
            x1 == p.pos.x * ONE + t * dx,
    ;
    assert(y1 == y0 + STEP * dy) by (nonlinear_arith)
        requires
            y0 == p.pos.y * ONE + (t - STEP) * dy,
            y1 == p.pos.y * ONE + t * dy,
    ;
    let ci = x0 / sp;
    let cj = y0 / sp;
    let cols = col_count(m);
    let rows = row_count(m);
    assert(cell(m, cj, ci) == EMPTY);
    assert(1 <= ci <= cols - 2 && 1 <= cj <= rows - 2);
    lemma_fundamental_div_mod(x0, sp);
    lemma_fundamental_div_mod(y0, sp);
    assert(sp <= x0 < (cols - 1) * sp) by (nonlinear_arith)
        requires
            x0 == sp * ci + x0 % sp,
            0 <= x0 % sp < sp,
            1 <= ci <= cols - 2,
    ;
    assert(sp <= y0 < (rows - 1) * sp) by (nonlinear_arith)
        requires
            y0 == sp * cj + y0 % sp,
            0 <= y0 % sp < sp,
            1 <= cj <= rows - 2,
    ;
    assert(-sp <= STEP * dx <= sp && -sp <= STEP * dy <= sp) by (nonlinear_arith)
        requires
            -ONE <= dx <= ONE,
            -ONE <= dy <= ONE,
            sp >= STEP * ONE,
    ;
    assert((cols - 1) * sp + sp == cols * sp) by (nonlinear_arith);
    assert((rows - 1) * sp + sp == rows * sp) by (nonlinear_arith);
    lemma_before_cells(x1, sp, cols);
    lemma_before_cells(y1, sp, rows);
}

/// A ray cast from inside a grid at most `EXIT_EXTENT` sub-units, half the
/// maximum range, along each axis, which
/// meets no wall cell within that range, ends at the grid's edge: the
/// boundary result, not the miss.
pub proof fn lemma_small_grid_exit_is_boundary(
    m: Seq<Vec<char>>,
    block_size: int,
    p: Player,
    a: int,
    r: Intersect,
)
    requires
        grid_wf(m, block_size),
        0 <= a < TURN,
        cast_result(m, block_size, p, a, r),
        grid_within(m, block_size, EXIT_EXTENT as int),
        camera_in_grid(m, block_size, p),
        forall|t: int| 0 <= t <= MAX_DISTANCE ==> !#[trigger] ray_blocked(m, block_size, p, a, t),
    ensures
        r.impact == Impact::Boundary,
{
    lemma_far_outside(m, block_size, p, a, MAX_DISTANCE as int, EXIT_EXTENT as int);
    lemma_exit_is_boundary(m, block_size, p, a, r, MAX_DISTANCE as int);
}

/// In a walled-in grid at most `ROOM_EXTENT` sub-units along each axis,
/// every ray cast from inside it meets a wall
/// within the render cutoff: it is drawn.
pub proof fn lemma_enclosed_ray_drawn(m: Seq<Vec<char>>, block_size: int, p: Player, a: int, r: Intersect)
    requires
        grid_wf(m, block_size),
        p.wf(),
        0 <= a < TURN,
        cast_result(m, block_size, p, a, r),
        enclosed(m),
        grid_within(m, block_size, ROOM_EXTENT as int),
        camera_in_grid(m, block_size, p),
    ensures
        drawn(r),
        r.impact is Wall,
{
    match r.impact {
        Impact::Nothing => {
            assert(ray_open(m, block_size, p, a, MAX_DISTANCE as int));
            lemma_far_outside(m, block_size, p, a, MAX_DISTANCE as int, ROOM_EXTENT as int);
        },
        Impact::Boundary => {
            let t = r.distance as int;
            if t == 0 {
                let cs = block_size * SUB;
                lemma_unscale_div(p.pos.x as int, cs);
                lemma_unscale_div(p.pos.y as int, cs);
                assert(0 * cosine(a) == 0 && 0 * sine(a) == 0);
                assert(ray_point(p, a, 0).0 == p.pos.x * ONE);
                assert(ray_point(p, a, 0).1 == p.pos.y * ONE);
                assert(span(block_size) == cs * ONE);
                assert(ray_in_grid(m, block_size, p, a, 0));
            } else {
                assert(ray_open(m, block_size, p, a, t - STEP));
                lemma_step_stays(m, block_size, p, a, t);
            }
        },
        Impact::Wall(_) => {
            if r.distance > RENDER_CUTOFF {
                lemma_far_outside(m, block_size, p, a, r.distance as int, ROOM_EXTENT as int);
            }
        },
    }
}

/// After the wall pass in a walled-in grid at most `ROOM_EXTENT` sub-units
/// along each axis, with the camera inside
/// it, every column of the depth buffer holds a finite depth.
pub proof fn lemma_enclosed_depth_finite(
    m: Seq<Vec<char>>,
    block_size: int,
    p: Player,
    hits: Seq<Intersect>,
    width: int,
    depth: Seq<u64>,
)
    requires
        grid_wf(m, block_size),
        p.wf(),
        enclosed(m),
        grid_within(m, block_size, ROOM_EXTENT as int),
        camera_in_grid(m, block_size, p),
        0 < hits.len(),
        forall|i: int|
            0 <= i < hits.len() ==> cast_result(
                m,
                block_size,
                p,
                ray_angle(p, i, hits.len() as int),
                #[trigger] hits[i],
            ),
        0 <= width,
        depth.len() == width,
        forall|x: int| 0 <= x < width ==> #[trigger] depth[x] == column_depth(hits, width, x),
    ensures
        forall|x: int| 0 <= x < width ==> #[trigger] depth[x] < FAR,
{
    let n = hits.len() as int;
    assert forall|i: int| 0 <= i < hits.len() implies drawn(#[trigger] hits[i]) && hits[i].perpendicular_distance
        <= hits[i].distance by {
        lemma_enclosed_ray_drawn(m, block_size, p, ray_angle(p, i, n), hits[i]);
        lemma_cast_perpendicular_bounded(m, block_size, p, ray_angle(p, i, n), hits[i]);
    }
    lemma_depth_all_finite(hits, width, depth);
}

} // verus!
