//! The billboard projector: sprites ordered far to near, culled against
//! the field of view, the distance range and the screen, projected to a
//! square on screen, and drawn column strip by column strip where the depth
//! buffer shows no nearer wall.

use vstd::prelude::*;
use crate::color::{Rgba, shaded, shade_color};
use crate::enemy::{Enemy, Point, ENEMY_KEY, FINISH_KEY};
use crate::fixed::{ONE, SHADE_FULL, sine, cosine, sin_fx, cos_fx, isqrt, fade, fade_fx, lemma_sine_bounds};
use crate::player::{Player, point_wf};
use crate::render::{DrawRect, MAX_SCREEN, lens_ok, lens_of};
use crate::wall_textures::WallTextures;
use crate::caster::TEXTURE_EXTENT;

verus! {

/// Sprites nearer than this, in sub-units, are not drawn.
pub const SPRITE_NEAR: u64 = 200;

/// Sprites farther than this, in sub-units, are not drawn.
pub const SPRITE_FAR: u64 = 15000;

/// The edge of a sprite in the world, in sub-units, before scaling.
pub const SPRITE_SIZE: i64 = 1000;

/// How far outside the field of view, in binary angle units, a sprite's
/// center may lie and still be drawn.
pub const FOV_MARGIN: u64 = 2086;

/// Depth, in sub-units, over which sprites fade to their darkest.
pub const SPRITE_FADE: u64 = 8000;

/// The darkest shade of a sprite, per mille.
pub const SPRITE_SHADE_FLOOR: u64 = 400;

/// Texels with an alpha below this are transparent.
pub const ALPHA_CUTOFF: u8 = 10;

/// The square of the distance from the camera to a point.
pub open spec fn dist_sq(p: Player, q: Point) -> int {
    (q.x - p.pos.x) * (q.x - p.pos.x) + (q.y - p.pos.y) * (q.y - p.pos.y)
}

/// `r` is the square root of `n`, rounded down.
pub open spec fn is_floor_sqrt(n: int, r: int) -> bool {
    0 <= r && r * r <= n < (r + 1) * (r + 1)
}

/// The square root of `n`, rounded down.
pub open spec fn floor_sqrt(n: int) -> int {
    choose|r: int| #[trigger] is_floor_sqrt(n, r)
}

/// A number whose square is at most `n` and whose successor's square is
/// more is the square root of `n`, rounded down.
pub proof fn lemma_floor_sqrt(n: int, r: int)
    requires
        0 <= r,
        r * r <= n < (r + 1) * (r + 1),
    ensures
        floor_sqrt(n) == r,
{
    assert(is_floor_sqrt(n, r));
    let c = floor_sqrt(n);
    assert(0 <= c && c * c <= n < (c + 1) * (c + 1));
    if c < r {
        assert((c + 1) * (c + 1) <= r * r) by (nonlinear_arith)
            requires
                0 <= c < r,
        ;
    }
    if r < c {
        assert((r + 1) * (r + 1) <= c * c) by (nonlinear_arith)
            requires
                0 <= r < c,
        ;
    }
}

/// The distance from the camera to a point, in sub-units, rounded down.
pub fn sprite_distance(p: &Player, q: &Point) -> (r: u64)
    requires
        point_wf(p.pos),
        point_wf(*q),
    ensures
        r * r <= dist_sq(*p, *q) < (r + 1) * (r + 1),
        r == floor_sqrt(dist_sq(*p, *q)),
{
    let dx: i64 = q.x - p.pos.x;
    let dy: i64 = q.y - p.pos.y;
    let ax: u64 = if dx < 0 {
        (-dx) as u64
    } else {
        dx as u64
    };
    let ay: u64 = if dy < 0 {
        (-dy) as u64
    } else {
        dy as u64
    };
    assert(ax * ax <= 2_000_000_000 * 2_000_000_000) by (nonlinear_arith)
        requires
            ax <= 2_000_000_000,
    ;
    assert(ay * ay <= 2_000_000_000 * 2_000_000_000) by (nonlinear_arith)
        requires
            ay <= 2_000_000_000,
    ;
    assert(ax * ax == dx * dx) by (nonlinear_arith)
        requires
            ax == dx || ax == -dx,
    ;
    assert(ay * ay == dy * dy) by (nonlinear_arith)
        requires
            ay == dy || ay == -dy,
    ;
    let r = isqrt(ax * ax + ay * ay);
    proof {
        lemma_floor_sqrt(dist_sq(*p, *q), r as int);
    }
    r
}

/// Among equal distances, `order` keeps the indices in increasing order.
pub open spec fn ties_in_order(dists: Seq<u64>, order: Seq<usize>) -> bool {
    forall|k: int, l: int|
        #![trigger order[k], order[l]]
        0 <= k < l < order.len() && dists[order[k] as int] == dists[order[l] as int] ==> order[k] < order[l]
}

/// `order` lists every index of `dists` once, farthest first.
pub open spec fn far_to_near(dists: Seq<u64>, order: Seq<usize>) -> bool {
    &&& order.len() == dists.len()
    &&& forall|k: int| 0 <= k < order.len() ==> #[trigger] order[k] < dists.len()
    &&& forall|k: int, l: int| 0 <= k < l < order.len() ==> order[k] != order[l]
    &&& forall|k: int, l: int|
        #![trigger order[k], order[l]]
        0 <= k < l < order.len() ==> dists[order[k] as int] >= dists[order[l] as int]
}

/// The indices of `dists`, ordered by distance, farthest first; equal
/// distances keep their order.
pub fn sprite_order(dists: &Vec<u64>) -> (order: Vec<usize>)
    ensures
        far_to_near(dists@, order@),
        ties_in_order(dists@, order@),
{
    let n = dists.len();
    let mut order: Vec<usize> = Vec::new();
    let mut i: usize = 0;
    while i < n
        invariant
            n == dists@.len(),
            i <= n,
            order@.len() == i,
            forall|k: int| 0 <= k < order@.len() ==> #[trigger] order@[k] < i,
            forall|k: int, l: int| 0 <= k < l < order@.len() ==> order@[k] != order@[l],
            forall|k: int, l: int|
                #![trigger order@[k], order@[l]]
                0 <= k < l < order@.len() ==> dists@[order@[k] as int] >= dists@[order@[l] as int],
            ties_in_order(dists@, order@),
        decreases n - i,
    {
        let d = dists[i];
        let mut k: usize = 0;
        while k < order.len() && dists[order[k]] >= d
            invariant
                n == dists@.len(),
                i < n,
                k <= order@.len(),
                forall|m: int| 0 <= m < order@.len() ==> #[trigger] order@[m] < i,
                forall|m: int| 0 <= m < k ==> dists@[#[trigger] order@[m] as int] >= d,
            decreases order@.len() - k,
        {
            k = k + 1;
        }
        let ghost before = order@;
        order.insert(k, i);
        proof {
            assert(order@ == before.insert(k as int, i));
            assert forall|a: int, b: int|
                #![trigger order@[a], order@[b]]
                0 <= a < b < order@.len() implies dists@[order@[a] as int] >= dists@[order@[b] as int] by {
                if b == k {
                    assert(dists@[before[a] as int] >= d);
                } else if a == k {
                    assert(k < before.len());
                    assert(dists@[before[k as int] as int] < d);
                    if b - 1 > k {
                        assert(dists@[before[k as int] as int] >= dists@[before[b - 1] as int]);
                    }
                } else if a < k && b > k {
                    assert(dists@[before[a] as int] >= dists@[before[b - 1] as int]);
                } else if a > k {
                    assert(dists@[before[a - 1] as int] >= dists@[before[b - 1] as int]);
                } else {
                    assert(dists@[before[a] as int] >= dists@[before[b] as int]);
                }
            }
        }
        i = i + 1;
    }
    order
}

/// Where a sprite lands on screen: the column of its center, its edge in
/// pixels, and its rectangle, `[x_start, x_end) x [y_start, y_end)`.
#[derive(Clone, Copy, Debug, PartialEq, Eq, Structural)]
pub struct SpriteBox {
    pub screen_x: i64,
    pub size: i64,
    pub x_start: i64,
    pub x_end: i64,
    pub y_start: i64,
    pub y_end: i64,
}

/// The heading-direction component of the vector from the camera to `q`,
/// scaled by `ONE`: its length times the cosine of its angle to the heading.
pub open spec fn heading_dot(p: Player, q: Point) -> int {
    (q.x - p.pos.x) * cosine(p.a as int) + (q.y - p.pos.y) * sine(p.a as int)
}

/// The sideways component of the vector from the camera to `q`, scaled by
/// `ONE`: its length times the sine of its angle to the heading.
pub open spec fn heading_cross(p: Player, q: Point) -> int {
    cosine(p.a as int) * (q.y - p.pos.y) - sine(p.a as int) * (q.x - p.pos.x)
}

/// The largest angle from the heading at which a sprite is drawn.
pub open spec fn view_limit(p: Player) -> int {
    p.fov / 2 + FOV_MARGIN
}

/// The sprite at `q`, at distance `dist`, lies in front of the camera, at
/// most `view_limit` away from the heading: the cosine of its angle,
/// `heading_dot / (dist * ONE)`, is at least that of the limit.
pub open spec fn in_view(p: Player, q: Point, dist: int) -> bool {
    heading_dot(p, q) > 0 && heading_dot(p, q) >= cosine(view_limit(p)) * dist
}

/// The distance lies in the range that sprites are drawn in.
pub open spec fn in_range(dist: int) -> bool {
    SPRITE_NEAR <= dist <= SPRITE_FAR
}

/// The on-screen edge of a sprite at `dist`: `SPRITE_SIZE` times the
/// projection distance over the distance.
pub open spec fn sprite_extent(width: int, cf: int, sf: int, dist: int) -> int {
    SPRITE_SIZE * width * cf / (2 * sf * dist)
}

/// The column offset of a sprite from the screen's center: the projection
/// distance times the tangent of its angle, `cross / dot`, rounded toward
/// zero.
pub open spec fn screen_offset(width: int, cf: int, sf: int, cross: int, dot: int) -> int {
    let m = (if cross >= 0 {
        cross
    } else {
        -cross
    }) * width * cf / (2 * sf * dot);
    if cross >= 0 {
        m
    } else {
        -m
    }
}

/// The screen box of a sprite.
pub open spec fn box_of(p: Player, q: Point, dist: int, width: int, height: int, cf: int, sf: int) -> SpriteBox {
    let sx = width / 2 + screen_offset(width, cf, sf, heading_cross(p, q), heading_dot(p, q));
    let size = sprite_extent(width, cf, sf, dist);
    SpriteBox {
        screen_x: sx as i64,
        size: size as i64,
        x_start: (sx - size / 2) as i64,
        x_end: (sx + size / 2) as i64,
        y_start: (height / 2 - size / 2) as i64,
        y_end: (height / 2 + size / 2) as i64,
    }
}

/// The box overlaps the screen.
pub open spec fn on_screen(b: SpriteBox, width: int, height: int) -> bool {
    !(b.x_end < 0 || b.x_start >= width || b.y_end < 0 || b.y_start >= height)
}

/// The box's center column holds a wall no farther than the sprite.
pub open spec fn center_hidden(b: SpriteBox, dist: int, depth: Seq<u64>, width: int) -> bool {
    0 <= b.screen_x < width && dist >= depth[b.screen_x as int]
}

/// The screen box of the sprite at `q`, at distance `dist`, where it is in
/// view, in range and on screen.
pub fn sprite_box(
    p: &Player,
    q: &Point,
    dist: u64,
    width: i32,
    height: i32,
    cf: i64,
    sf: i64,
) -> (r: Option<SpriteBox>)
    requires
        p.wf(),
        point_wf(*q),
        dist * dist <= dist_sq(*p, *q) < (dist + 1) * (dist + 1),
        0 < width <= MAX_SCREEN,
        0 < height <= MAX_SCREEN,
        lens_ok(cf as int, sf as int),
    ensures
        r is Some <==> in_view(*p, *q, dist as int) && in_range(dist as int) && on_screen(
            box_of(*p, *q, dist as int, width as int, height as int, cf as int, sf as int),
            width as int,
            height as int,
        ),
        r matches Some(b) ==> b == box_of(
            *p,
            *q,
            dist as int,
            width as int,
            height as int,
            cf as int,
            sf as int,
        ),
        r matches Some(b) ==> box_wf(b),
{
    proof {
        lemma_sine_bounds(p.a as int);
        lemma_sine_bounds(view_limit(*p));
    }
    let hx = cos_fx(p.a);
    let hy = sin_fx(p.a);
    let dx: i64 = q.x - p.pos.x;
    let dy: i64 = q.y - p.pos.y;
    assert(-2_000_000_000 * ONE <= dx * hx <= 2_000_000_000 * ONE) by (nonlinear_arith)
        requires
            -2_000_000_000 <= dx <= 2_000_000_000,
            -ONE <= hx <= ONE,
    ;
    assert(-2_000_000_000 * ONE <= dy * hy <= 2_000_000_000 * ONE) by (nonlinear_arith)
        requires
            -2_000_000_000 <= dy <= 2_000_000_000,
            -ONE <= hy <= ONE,
    ;
    assert(-2_000_000_000 * ONE <= hx * dy <= 2_000_000_000 * ONE) by (nonlinear_arith)
        requires
            -2_000_000_000 <= dy <= 2_000_000_000,
            -ONE <= hx <= ONE,
    ;
    assert(-2_000_000_000 * ONE <= hy * dx <= 2_000_000_000 * ONE) by (nonlinear_arith)
        requires
            -2_000_000_000 <= dx <= 2_000_000_000,
            -ONE <= hy <= ONE,
    ;
    let dot: i64 = dx * hx + dy * hy;
    let cross: i64 = hx * dy - hy * dx;
    let cl = cos_fx(p.fov / 2 + FOV_MARGIN);
    assert(dist <= 3_000_000_000) by (nonlinear_arith)
        requires
            dist * dist <= dist_sq(*p, *q),
            dist_sq(*p, *q) == dx * dx + dy * dy,
            -2_000_000_000 <= dx <= 2_000_000_000,
            -2_000_000_000 <= dy <= 2_000_000_000,
    ;
    assert(-3_000_000_000 * ONE <= cl * (dist as i64) <= 3_000_000_000 * ONE) by (nonlinear_arith)
        requires
            0 <= dist <= 3_000_000_000,
            -ONE <= cl <= ONE,
    ;
    if dot <= 0 || dot < cl * (dist as i64) {
        return None;
    }
    if dist < SPRITE_NEAR || dist > SPRITE_FAR {
        return None;
    }
    // In range, the sprite is near enough for the products below to fit.
    assert(-15000 <= dx <= 15000 && -15000 <= dy <= 15000) by (nonlinear_arith)
        requires
            dx * dx + dy * dy < (dist + 1) * (dist + 1),
            dist <= 15000,
    ;
    let d = dist as i64;
    let across: i64 = if cross >= 0 {
        cross
    } else {
        -cross
    };
    assert(across <= 2 * 15000 * ONE) by (nonlinear_arith)
        requires
            across == cross || across == -cross,
            cross == hx * dy - hy * dx,
            -15000 <= dx <= 15000,
            -15000 <= dy <= 15000,
            -ONE <= hx <= ONE,
            -ONE <= hy <= ONE,
    ;
    let w = width as i64;
    assert(across * w <= 2 * 15000 * ONE * MAX_SCREEN) by (nonlinear_arith)
        requires
            0 <= across <= 2 * 15000 * ONE,
            0 < w <= MAX_SCREEN,
    ;
    assert(across * w * cf <= 2 * 15000 * ONE * MAX_SCREEN * ONE) by (nonlinear_arith)
        requires
            0 <= across <= 2 * 15000 * ONE,
            0 < w <= MAX_SCREEN,
            0 <= cf <= ONE,
    ;
    assert(0 <= across * w * cf) by (nonlinear_arith)
        requires
            0 <= across,
            0 < w,
            0 <= cf,
    ;
    assert(2 * sf * dot >= 2) by (nonlinear_arith)
        requires
            sf >= 1,
            dot >= 1,
    ;
    assert(dx * hx <= 15000 * ONE && dy * hy <= 15000 * ONE) by (nonlinear_arith)
        requires
            -15000 <= dx <= 15000,
            -15000 <= dy <= 15000,
            -ONE <= hx <= ONE,
            -ONE <= hy <= ONE,
    ;
    let sf2: i64 = 2 * sf;
    assert(sf2 * dot <= 2 * ONE * (2 * 15000 * ONE)) by (nonlinear_arith)
        requires
            2 <= sf2 <= 2 * ONE,
            0 < dot <= 2 * 15000 * ONE,
    ;
    let den: i64 = sf2 * dot;
    let m: i64 = across * w * cf / den;
    assert(m <= across * w * cf) by (nonlinear_arith)
        requires
            m == across * w * cf / (den as int),
            den == 2 * sf * dot,
            2 * sf * dot >= 2,
            0 <= across * w * cf,
    ;
    let off: i64 = if cross >= 0 {
        m
    } else {
        -m
    };
    let sx: i64 = w / 2 + off;
    assert(SPRITE_SIZE * w <= 1000 * MAX_SCREEN) by (nonlinear_arith)
        requires
            0 < w <= MAX_SCREEN,
    ;
    assert(SPRITE_SIZE * w * cf <= 1000 * MAX_SCREEN * ONE) by (nonlinear_arith)
        requires
            0 < SPRITE_SIZE * w <= 1000 * MAX_SCREEN,
            0 <= cf <= ONE,
    ;
    assert(0 <= SPRITE_SIZE * w * cf) by (nonlinear_arith)
        requires
            0 < w,
            0 <= cf,
    ;
    assert(2 * sf * d <= 2 * ONE * 15000) by (nonlinear_arith)
        requires
            1 <= sf <= ONE,
            200 <= d <= 15000,
    ;
    assert(2 * sf * d >= 400) by (nonlinear_arith)
        requires
            1 <= sf,
            200 <= d,
    ;
    let sden: i64 = 2 * sf * d;
    let size: i64 = SPRITE_SIZE * w * cf / sden;
    assert(size <= 1000 * MAX_SCREEN * ONE / 400) by (nonlinear_arith)
        requires
            size == SPRITE_SIZE * w * cf / (sden as int),
            sden == 2 * sf * d,
            0 <= SPRITE_SIZE * w * cf <= 1000 * MAX_SCREEN * ONE,
            2 * sf * d >= 400,
    ;
    let h = height as i64;
    let b = SpriteBox {
        screen_x: sx,
        size,
        x_start: sx - size / 2,
        x_end: sx + size / 2,
        y_start: h / 2 - size / 2,
        y_end: h / 2 + size / 2,
    };
    if b.x_end < 0 || b.x_start >= w || b.y_end < 0 || b.y_start >= h {
        return None;
    }
    Some(b)
}

/// The texture coordinate of screen position `c` within a sprite whose
/// box starts at `start` and has edge `size`.
pub open spec fn sprite_tex(c: int, start: int, size: int) -> int {
    let t = (c - start) * TEXTURE_EXTENT / size;
    if t > TEXTURE_EXTENT - 1 {
        TEXTURE_EXTENT - 1
    } else {
        t
    }
}

/// The texel under the top-left pixel of a sprite rectangle.
pub open spec fn sprite_texel(b: SpriteBox, rc: DrawRect, key: char, t: WallTextures) -> Rgba {
    t.sample(
        sprite_tex(rc.x as int, b.x_start as int, b.size as int),
        sprite_tex(rc.y as int, b.y_start as int, b.size as int),
        key,
    )
}

/// A rectangle of a sprite is drawn: it lies on screen, over columns whose
/// walls are all farther than the sprite, and holds the shaded, opaque
/// texel under its top-left pixel.
pub open spec fn sprite_rect_ok(
    rc: DrawRect,
    b: SpriteBox,
    dist: int,
    key: char,
    t: WallTextures,
    width: int,
    height: int,
    depth: Seq<u64>,
) -> bool {
    &&& 0 <= rc.x
    &&& 0 < rc.w
    &&& rc.x + rc.w <= width
    &&& 0 <= rc.y
    &&& 0 < rc.h
    &&& rc.y + rc.h <= height
    &&& forall|c: int| rc.x <= c < rc.x + rc.w ==> dist < #[trigger] depth[c]
    &&& sprite_texel(b, rc, key, t).a >= ALPHA_CUTOFF
    &&& rc.color == shaded(
        sprite_texel(b, rc, key, t),
        fade(dist, SPRITE_FADE as int, SPRITE_SHADE_FLOOR as int),
        sprite_texel(b, rc, key, t).a,
    )
}

/// The screen box is consistent, as `sprite_box` makes it.
pub open spec fn box_wf(b: SpriteBox) -> bool {
    &&& 0 <= b.size <= 1_000_000_000
    &&& b.x_start <= b.screen_x
    &&& b.x_start <= b.x_end
    &&& b.x_end - b.x_start <= b.size
    &&& b.y_end - b.y_start <= b.size
    &&& b.y_start <= b.y_end
    &&& -2_000_000_000_000_000_000 <= b.x_start
    &&& b.x_end <= 2_000_000_000_000_000_000
    &&& -2_000_000_000 <= b.y_start
    &&& b.y_end <= 2_000_000_000
}

fn tex_of(c: i64, start: i64, size: i64) -> (r: usize)
    requires
        start <= c,
        c - start <= size,
        0 < size <= 1_000_000_000,
    ensures
        r == sprite_tex(c as int, start as int, size as int),
{
    assert(0 <= (c - start) * 128 <= 128_000_000_000) by (nonlinear_arith)
        requires
            0 <= c - start <= 1_000_000_000,
    ;
    let t: i64 = (c - start) * 128 / size;
    if t > 127 {
        127
    } else {
        assert(0 <= t) by (nonlinear_arith)
            requires
                t == (c - start) * 128 / (size as int),
                0 <= (c - start) * 128,
                size > 0,
        ;
        t as usize
    }
}

/// Columns per strip of a sprite `span` columns wide on screen: wider
/// strips for wider sprites, and never more than thirty strips.
pub open spec fn sprite_strip_width(span: int) -> int {
    let base = if span > 300 {
        16
    } else if span > 150 {
        8
    } else if span > 75 {
        4
    } else {
        2
    };
    if span / 30 > base {
        span / 30
    } else {
        base
    }
}

/// Rows per strip of a sprite `span` rows tall on screen.
pub open spec fn sprite_strip_height(span: int) -> int {
    if span > 400 {
        12
    } else if span > 200 {
        8
    } else {
        4
    }
}

/// The rectangles of one column strip `[x, x_end)` of a sprite, from row
/// `y` down to `y1` in strips of `step` rows: one for each strip whose
/// texel at its top-left pixel is opaque.
pub open spec fn column_rects(
    b: SpriteBox,
    key: char,
    t: WallTextures,
    shade: int,
    x: int,
    x_end: int,
    y: int,
    y1: int,
    step: int,
) -> Seq<DrawRect>
    decreases y1 - y,
{
    if y >= y1 || step <= 0 {
        seq![]
    } else {
        let row_end = if y + step > y1 {
            y1
        } else {
            y + step
        };
        let texel = t.sample(sprite_tex(x, b.x_start as int, b.size as int), sprite_tex(y, b.y_start as int, b.size as int), key);
        let here = if texel.a >= ALPHA_CUTOFF {
            seq![
                DrawRect {
                    x: x as i32,
                    y: y as i32,
                    w: (x_end - x) as i32,
                    h: (row_end - y) as i32,
                    color: shaded(texel, shade, texel.a),
                },
            ]
        } else {
            seq![]
        };
        here + column_rects(b, key, t, shade, x, x_end, row_end, y1, step)
    }
}

/// The rectangles of the column strip `[s, x)`, where it is not empty.
pub open spec fn strip_close(
    b: SpriteBox,
    key: char,
    t: WallTextures,
    shade: int,
    s: int,
    x: int,
    y0: int,
    y1: int,
    step_y: int,
) -> Seq<DrawRect> {
    if s < x {
        column_rects(b, key, t, shade, s, x, y0, y1, step_y)
    } else {
        seq![]
    }
}

/// The rectangles of a sprite's columns from `x` to `x1`, walked one
/// column at a time, where the columns `[s, x)` form the strip being
/// gathered. A column whose wall is no farther than the sprite closes the
/// strip and is skipped; a strip `step_x` columns wide is closed and the
/// next begins. So every strip covers only columns where the sprite is in
/// front of the wall.
pub open spec fn columns_rects(
    b: SpriteBox,
    dist: int,
    key: char,
    t: WallTextures,
    shade: int,
    depth: Seq<u64>,
    x: int,
    s: int,
    x1: int,
    step_x: int,
    y0: int,
    y1: int,
    step_y: int,
) -> Seq<DrawRect>
    decreases x1 - x,
{
    if x >= x1 {
        strip_close(b, key, t, shade, s, x, y0, y1, step_y)
    } else if dist >= depth[x] {
        strip_close(b, key, t, shade, s, x, y0, y1, step_y) + columns_rects(
            b,
            dist,
            key,
            t,
            shade,
            depth,
            x + 1,
            x + 1,
            x1,
            step_x,
            y0,
            y1,
            step_y,
        )
    } else if x - s >= step_x {
        strip_close(b, key, t, shade, s, x, y0, y1, step_y) + columns_rects(
            b,
            dist,
            key,
            t,
            shade,
            depth,
            x + 1,
            x,
            x1,
            step_x,
            y0,
            y1,
            step_y,
        )
    } else {
        columns_rects(b, dist, key, t, shade, depth, x + 1, s, x1, step_x, y0, y1, step_y)
    }
}

/// What a sprite's box draws: nothing where the wall at its center column
/// is no farther than the sprite; otherwise the column strips of the part
/// of the box on screen.
pub open spec fn sprite_rects(
    b: SpriteBox,
    dist: int,
    key: char,
    t: WallTextures,
    width: int,
    height: int,
    depth: Seq<u64>,
) -> Seq<DrawRect> {
    let x0 = if b.x_start < 0 {
        0
    } else {
        b.x_start as int
    };
    let x1 = if b.x_end > width {
        width
    } else {
        b.x_end as int
    };
    let y0 = if b.y_start < 0 {
        0
    } else {
        b.y_start as int
    };
    let y1 = if b.y_end > height {
        height
    } else {
        b.y_end as int
    };
    if center_hidden(b, dist, depth, width) {
        seq![]
    } else {
        columns_rects(
            b,
            dist,
            key,
            t,
            fade(dist, SPRITE_FADE as int, SPRITE_SHADE_FLOOR as int),
            depth,
            x0,
            x0,
            x1,
            sprite_strip_width(x1 - x0),
            y0,
            y1,
            sprite_strip_height(y1 - y0),
        )
    }
}

/// The rectangle covers screen column `c`.
pub open spec fn covers_column(rc: DrawRect, c: int) -> bool {
    rc.x <= c < rc.x + rc.w
}

/// Every texel of the texture that `key` selects is opaque.
pub open spec fn all_opaque(t: WallTextures, key: char) -> bool {
    forall|u: int, v: int| #[trigger] t.sample(u, v, key).a >= ALPHA_CUTOFF
}

/// A column strip with opaque texels starts with a rectangle over all its
/// columns.
proof fn lemma_strip_first(
    b: SpriteBox,
    key: char,
    t: WallTextures,
    shade: int,
    s: int,
    e: int,
    y0: int,
    y1: int,
    step: int,
)
    requires
        0 <= s < e <= MAX_SCREEN,
        y0 < y1,
        step > 0,
        all_opaque(t, key),
    ensures
        column_rects(b, key, t, shade, s, e, y0, y1, step).len() > 0,
        covers_column(column_rects(b, key, t, shade, s, e, y0, y1, step)[0], s),
        covers_column(column_rects(b, key, t, shade, s, e, y0, y1, step)[0], e - 1),
{
    let texel = t.sample(sprite_tex(s, b.x_start as int, b.size as int), sprite_tex(y0, b.y_start as int, b.size as int), key);
    assert(texel.a >= ALPHA_CUTOFF);
}

/// Walking the columns from `x`, with the strip `[s, x)` gathered so far,
/// every column from `s` on whose wall is farther than the sprite ends up
/// under some rectangle.
proof fn lemma_columns_cover(
    b: SpriteBox,
    dist: int,
    key: char,
    t: WallTextures,
    shade: int,
    depth: Seq<u64>,
    x: int,
    s: int,
    x1: int,
    step_x: int,
    y0: int,
    y1: int,
    step_y: int,
    c: int,
)
    requires
        0 <= s <= x <= x1,
        s <= c < x1 <= MAX_SCREEN,
        x1 <= depth.len(),
        dist < depth[c],
        step_x > 0,
        step_y > 0,
        y0 < y1,
        all_opaque(t, key),
    ensures
        exists|k: int|
            0 <= k < columns_rects(b, dist, key, t, shade, depth, x, s, x1, step_x, y0, y1, step_y).len()
                && covers_column(
                #[trigger] columns_rects(b, dist, key, t, shade, depth, x, s, x1, step_x, y0, y1, step_y)[k],
                c,
            ),
    decreases x1 - x,
{
    let all = columns_rects(b, dist, key, t, shade, depth, x, s, x1, step_x, y0, y1, step_y);
    let closed = strip_close(b, key, t, shade, s, x, y0, y1, step_y);
    if x >= x1 {
        lemma_strip_first(b, key, t, shade, s, x, y0, y1, step_y);
        assert(all == closed);
        assert(covers_column(all[0], c));
    } else if dist >= depth[x] || x - s >= step_x {
        let s2 = if dist >= depth[x] {
            x + 1
        } else {
            x
        };
        let rest = columns_rects(b, dist, key, t, shade, depth, x + 1, s2, x1, step_x, y0, y1, step_y);
        assert(all == closed + rest);
        if c < x {
            lemma_strip_first(b, key, t, shade, s, x, y0, y1, step_y);
            assert(all[0] == closed[0]);
            assert(covers_column(all[0], c));
        } else {
            lemma_columns_cover(b, dist, key, t, shade, depth, x + 1, s2, x1, step_x, y0, y1, step_y, c);
            let k = choose|k: int| 0 <= k < rest.len() && covers_column(#[trigger] rest[k], c);
            assert(all[closed.len() + k] == rest[k]);
        }
    } else {
        lemma_columns_cover(b, dist, key, t, shade, depth, x + 1, s, x1, step_x, y0, y1, step_y, c);
    }
}

/// Occlusion of a sprite by the depth buffer: where the wall at its
/// center column is no farther than the sprite, nothing is drawn;
/// otherwise, with an opaque texture, every on-screen column of its box
/// whose wall is farther than the sprite is covered by a rectangle (and
/// `sprite_strips` shows that no rectangle covers any other column).
pub proof fn lemma_sprite_occlusion(
    b: SpriteBox,
    dist: int,
    key: char,
    t: WallTextures,
    width: int,
    height: int,
    depth: Seq<u64>,
)
    requires
        box_wf(b),
        0 < width <= MAX_SCREEN,
        depth.len() == width,
    ensures
        center_hidden(b, dist, depth, width) ==> sprite_rects(b, dist, key, t, width, height, depth).len() == 0,
        ({
            let x0 = if b.x_start < 0 {
                0
            } else {
                b.x_start as int
            };
            let x1 = if b.x_end > width {
                width
            } else {
                b.x_end as int
            };
            let y0 = if b.y_start < 0 {
                0
            } else {
                b.y_start as int
            };
            let y1 = if b.y_end > height {
                height
            } else {
                b.y_end as int
            };
            (!center_hidden(b, dist, depth, width) && y0 < y1 && all_opaque(t, key)) ==> forall|c: int|
                x0 <= c < x1 && dist < depth[c] ==> exists|k: int|
                    0 <= k < sprite_rects(b, dist, key, t, width, height, depth).len() && covers_column(
                        #[trigger] sprite_rects(b, dist, key, t, width, height, depth)[k],
                        c,
                    )
        }),
{
    let x0 = if b.x_start < 0 {
        0
    } else {
        b.x_start as int
    };
    let x1 = if b.x_end > width {
        width
    } else {
        b.x_end as int
    };
    let y0 = if b.y_start < 0 {
        0
    } else {
        b.y_start as int
    };
    let y1 = if b.y_end > height {
        height
    } else {
        b.y_end as int
    };
    if !center_hidden(b, dist, depth, width) && y0 < y1 && all_opaque(t, key) {
        let shade = fade(dist, SPRITE_FADE as int, SPRITE_SHADE_FLOOR as int);
        let sx = sprite_strip_width(x1 - x0);
        let sy = sprite_strip_height(y1 - y0);
        assert forall|c: int| x0 <= c < x1 && dist < depth[c] implies exists|k: int|
            0 <= k < sprite_rects(b, dist, key, t, width, height, depth).len() && covers_column(
                #[trigger] sprite_rects(b, dist, key, t, width, height, depth)[k],
                c,
            ) by {
            assert(sprite_rects(b, dist, key, t, width, height, depth) == columns_rects(
                b,
                dist,
                key,
                t,
                shade,
                depth,
                x0,
                x0,
                x1,
                sx,
                y0,
                y1,
                sy,
            ));
            lemma_columns_cover(b, dist, key, t, shade, depth, x0, x0, x1, sx, y0, y1, sy, c);
        }
    }
}

/// Appends the rectangles of the column strip `[s, e)`: its row strips,
/// each taking the texel at its top-left pixel, skipped where that texel
/// is transparent.
fn emit_strip(
    b: SpriteBox,
    dist: u64,
    key: char,
    textures: &WallTextures,
    width: i32,
    height: i32,
    depth: &Vec<u64>,
    shade: u64,
    s: i64,
    e: i64,
    cy0: i64,
    cy1: i64,
    step_y: i64,
    rects: &mut Vec<DrawRect>,
)
    requires
        textures.wf(),
        box_wf(b),
        0 < width <= MAX_SCREEN,
        0 < height <= MAX_SCREEN,
        depth@.len() == width,
        0 <= s < e <= width,
        b.x_start <= s,
        e <= b.x_end,
        forall|c: int| s <= c < e ==> dist < #[trigger] depth@[c],
        0 <= cy0,
        cy0 >= b.y_start,
        cy1 <= height,
        cy1 <= b.y_end,
        4 <= step_y <= 12,
        shade == fade(dist as int, SPRITE_FADE as int, SPRITE_SHADE_FLOOR as int),
        shade <= SHADE_FULL,
        forall|k: int|
            0 <= k < old(rects)@.len() ==> sprite_rect_ok(
                #[trigger] old(rects)@[k],
                b,
                dist as int,
                key,
                *textures,
                width as int,
                height as int,
                depth@,
            ),
    ensures
        final(rects)@ == old(rects)@ + column_rects(
            b,
            key,
            *textures,
            shade as int,
            s as int,
            e as int,
            cy0 as int,
            cy1 as int,
            step_y as int,
        ),
        forall|k: int|
            0 <= k < final(rects)@.len() ==> sprite_rect_ok(
                #[trigger] final(rects)@[k],
                b,
                dist as int,
                key,
                *textures,
                width as int,
                height as int,
                depth@,
            ),
{
    let ghost before = rects@;
    let ghost col = column_rects(
        b,
        key,
        *textures,
        shade as int,
        s as int,
        e as int,
        cy0 as int,
        cy1 as int,
        step_y as int,
    );
    let u = tex_of(s, b.x_start, b.size);
    let mut y: i64 = cy0;
    while y < cy1
        invariant
            textures.wf(),
            box_wf(b),
            0 < width <= MAX_SCREEN,
            0 < height <= MAX_SCREEN,
            depth@.len() == width,
            0 <= s < e <= width,
            b.x_start <= s,
            e <= b.x_end,
            forall|c: int| s <= c < e ==> dist < #[trigger] depth@[c],
            u == sprite_tex(s as int, b.x_start as int, b.size as int),
            0 <= cy0 <= y,
            y <= cy1 || cy1 <= cy0,
            cy0 >= b.y_start,
            cy1 <= height,
            cy1 <= b.y_end,
            4 <= step_y <= 12,
            shade == fade(dist as int, SPRITE_FADE as int, SPRITE_SHADE_FLOOR as int),
            shade <= SHADE_FULL,
            rects@ + column_rects(
                b,
                key,
                *textures,
                shade as int,
                s as int,
                e as int,
                y as int,
                cy1 as int,
                step_y as int,
            ) == before + col,
            forall|k: int|
                0 <= k < rects@.len() ==> sprite_rect_ok(
                    #[trigger] rects@[k],
                    b,
                    dist as int,
                    key,
                    *textures,
                    width as int,
                    height as int,
                    depth@,
                ),
        decreases cy1 - y,
    {
        let ghost at_row = rects@;
        let row_end: i64 = if y + step_y > cy1 {
            cy1
        } else {
            y + step_y
        };
        let v = tex_of(y, b.y_start, b.size);
        let texel = textures.get_pixel(u, v, key);
        let ghost rest = column_rects(
            b,
            key,
            *textures,
            shade as int,
            s as int,
            e as int,
            row_end as int,
            cy1 as int,
            step_y as int,
        );
        if texel.a >= ALPHA_CUTOFF {
            let rc = DrawRect {
                x: s as i32,
                y: y as i32,
                w: (e - s) as i32,
                h: (row_end - y) as i32,
                color: shade_color(texel, shade, texel.a),
            };
            rects.push(rc);
            assert(rects@ + rest =~= at_row + (seq![rc] + rest));
        } else {
            assert(rects@ + rest =~= at_row + (Seq::<DrawRect>::empty() + rest));
        }
        y = row_end;
    }
    assert(rects@ =~= before + col);
}

/// Draws a sprite's screen box. The sprite is skipped whole where the wall
/// at its center column is no farther than it. Otherwise its columns are
/// walked one by one and gathered into strips of at most `step_x` columns
/// that all show the sprite in front of the wall; a column that does not
/// is skipped. Each strip is cut into row strips that take the texel at
/// their top-left pixel, skipped where that texel is transparent.
pub fn sprite_strips(
    b: SpriteBox,
    dist: u64,
    key: char,
    textures: &WallTextures,
    width: i32,
    height: i32,
    depth: &Vec<u64>,
) -> (r: Vec<DrawRect>)
    requires
        textures.wf(),
        box_wf(b),
        0 < width <= MAX_SCREEN,
        0 < height <= MAX_SCREEN,
        depth@.len() == width,
    ensures
        r@ == sprite_rects(b, dist as int, key, *textures, width as int, height as int, depth@),
        center_hidden(b, dist as int, depth@, width as int) ==> r@.len() == 0,
        forall|k: int|
            0 <= k < r@.len() ==> sprite_rect_ok(
                #[trigger] r@[k],
                b,
                dist as int,
                key,
                *textures,
                width as int,
                height as int,
                depth@,
            ),
{
    let mut rects: Vec<DrawRect> = Vec::new();
    let w = width as i64;
    let h = height as i64;
    if 0 <= b.screen_x && b.screen_x < w && dist >= depth[b.screen_x as usize] {
        return rects;
    }
    let cx0: i64 = if b.x_start < 0 {
        0
    } else {
        b.x_start
    };
    let cx1: i64 = if b.x_end > w {
        w
    } else {
        b.x_end
    };
    let cy0: i64 = if b.y_start < 0 {
        0
    } else {
        b.y_start
    };
    let cy1: i64 = if b.y_end > h {
        h
    } else {
        b.y_end
    };
    let span_x: i64 = cx1 - cx0;
    let strip_w: i64 = if span_x > 300 {
        16
    } else if span_x > 150 {
        8
    } else if span_x > 75 {
        4
    } else {
        2
    };
    let step_x: i64 = if span_x / 30 > strip_w {
        span_x / 30
    } else {
        strip_w
    };
    let span_y: i64 = cy1 - cy0;
    let step_y: i64 = if span_y > 400 {
        12
    } else if span_y > 200 {
        8
    } else {
        4
    };
    let shade = fade_fx(dist, SPRITE_FADE, SPRITE_SHADE_FLOOR);
    let ghost total = columns_rects(
        b,
        dist as int,
        key,
        *textures,
        shade as int,
        depth@,
        cx0 as int,
        cx0 as int,
        cx1 as int,
        step_x as int,
        cy0 as int,
        cy1 as int,
        step_y as int,
    );
    let mut s: i64 = cx0;
    let mut x: i64 = cx0;
    while x < cx1
        invariant
            textures.wf(),
            box_wf(b),
            0 < width <= MAX_SCREEN,
            0 < height <= MAX_SCREEN,
            w == width,
            h == height,
            depth@.len() == width,
            0 <= cx0 <= s <= x,
            cx0 >= b.x_start,
            x <= cx1 || x == cx0,
            cx1 <= w,
            cx1 <= b.x_end,
            x - s <= step_x,
            forall|c: int| s <= c < x ==> dist < #[trigger] depth@[c],
            0 <= cy0,
            cy0 >= b.y_start,
            cy1 <= h,
            cy1 <= b.y_end,
            2 <= step_x <= MAX_SCREEN,
            4 <= step_y <= 12,
            shade == fade(dist as int, SPRITE_FADE as int, SPRITE_SHADE_FLOOR as int),
            shade <= SHADE_FULL,
            rects@ + columns_rects(
                b,
                dist as int,
                key,
                *textures,
                shade as int,
                depth@,
                x as int,
                s as int,
                cx1 as int,
                step_x as int,
                cy0 as int,
                cy1 as int,
                step_y as int,
            ) == total,
            forall|k: int|
                0 <= k < rects@.len() ==> sprite_rect_ok(
                    #[trigger] rects@[k],
                    b,
                    dist as int,
                    key,
                    *textures,
                    width as int,
                    height as int,
                    depth@,
                ),
        decreases cx1 - x,
    {
        let ghost before = rects@;
        if dist >= depth[x as usize] {
            if s < x {
                emit_strip(b, dist, key, textures, width, height, depth, shade, s, x, cy0, cy1, step_y, &mut rects);
            }
            proof {
                let rest = columns_rects(
                    b,
                    dist as int,
                    key,
                    *textures,
                    shade as int,
                    depth@,
                    x + 1,
                    x + 1,
                    cx1 as int,
                    step_x as int,
                    cy0 as int,
                    cy1 as int,
                    step_y as int,
                );
                let closed = strip_close(
                    b,
                    key,
                    *textures,
                    shade as int,
                    s as int,
                    x as int,
                    cy0 as int,
                    cy1 as int,
                    step_y as int,
                );
                assert(rects@ =~= before + closed);
                assert(before + (closed + rest) =~= rects@ + rest);
            }
            s = x + 1;
        } else if x - s >= step_x {
            emit_strip(b, dist, key, textures, width, height, depth, shade, s, x, cy0, cy1, step_y, &mut rects);
            proof {
                let rest = columns_rects(
                    b,
                    dist as int,
                    key,
                    *textures,
                    shade as int,
                    depth@,
                    x + 1,
                    x as int,
                    cx1 as int,
                    step_x as int,
                    cy0 as int,
                    cy1 as int,
                    step_y as int,
                );
                let closed = strip_close(
                    b,
                    key,
                    *textures,
                    shade as int,
                    s as int,
                    x as int,
                    cy0 as int,
                    cy1 as int,
                    step_y as int,
                );
                assert(before + (closed + rest) =~= rects@ + rest);
            }
            s = x;
        }
        x = x + 1;
    }
    if s < x {
        emit_strip(b, dist, key, textures, width, height, depth, shade, s, x, cy0, cy1, step_y, &mut rects);
    }
    assert(rects@ =~= total);
    rects
}

/// A rectangle lies on a screen of `width` by `height` pixels.
pub open spec fn on_screen_rect(rc: DrawRect, width: int, height: int) -> bool {
    0 <= rc.x && 0 < rc.w && rc.x + rc.w <= width && 0 <= rc.y && 0 < rc.h && rc.y + rc.h <= height
}

/// What one sprite at `q` draws: where it is in view, in range and on
/// screen, its box's strips; nothing otherwise.
pub open spec fn sprite_draw(
    p: Player,
    q: Point,
    key: char,
    t: WallTextures,
    width: int,
    height: int,
    depth: Seq<u64>,
) -> Seq<DrawRect> {
    let dist = floor_sqrt(dist_sq(p, q));
    let cf = cosine((p.fov / 2) as int);
    let sf = sine((p.fov / 2) as int);
    let b = box_of(p, q, dist, width, height, cf, sf);
    if in_view(p, q, dist) && in_range(dist) && on_screen(b, width, height) {
        sprite_rects(b, dist, key, t, width, height, depth)
    } else {
        seq![]
    }
}

/// Projects one sprite and appends its rectangles to `out`.
fn draw_sprite(
    p: &Player,
    q: &Point,
    key: char,
    textures: &WallTextures,
    width: i32,
    height: i32,
    depth: &Vec<u64>,
    cf: i64,
    sf: i64,
    out: &mut Vec<DrawRect>,
)
    requires
        p.wf(),
        point_wf(*q),
        textures.wf(),
        0 < width <= MAX_SCREEN,
        0 < height <= MAX_SCREEN,
        depth@.len() == width,
        lens_ok(cf as int, sf as int),
        cf == cosine((p.fov / 2) as int),
        sf == sine((p.fov / 2) as int),
        forall|k: int| 0 <= k < old(out)@.len() ==> on_screen_rect(#[trigger] old(out)@[k], width as int, height as int),
    ensures
        final(out)@ == old(out)@ + sprite_draw(
            *p,
            *q,
            key,
            *textures,
            width as int,
            height as int,
            depth@,
        ),
        forall|k: int|
            0 <= k < final(out)@.len() ==> on_screen_rect(#[trigger] final(out)@[k], width as int, height as int),
{
    let dist = sprite_distance(p, q);
    match sprite_box(p, q, dist, width, height, cf, sf) {
        Some(b) => {
            let rects = sprite_strips(b, dist, key, textures, width, height, depth);
            let mut k: usize = 0;
            let ghost start = out@;
            while k < rects.len()
                invariant
                    k <= rects@.len(),
                    out@ == start + rects@.subrange(0, k as int),
                    forall|m: int|
                        0 <= m < out@.len() ==> on_screen_rect(#[trigger] out@[m], width as int, height as int),
                    forall|m: int|
                        0 <= m < rects@.len() ==> sprite_rect_ok(
                            #[trigger] rects@[m],
                            b,
                            dist as int,
                            key,
                            *textures,
                            width as int,
                            height as int,
                            depth@,
                        ),
                decreases rects@.len() - k,
            {
                out.push(rects[k]);
                assert(rects@.subrange(0, k + 1) =~= rects@.subrange(0, k as int).push(rects@[k as int]));
                k = k + 1;
            }
            assert(rects@.subrange(0, k as int) =~= rects@);
        },
        None => {
            assert(out@ =~= out@ + Seq::<DrawRect>::empty());
        },
    }
}

/// The distances from the camera to each enemy, rounded down.
pub open spec fn enemy_distances(p: Player, enemies: Seq<Enemy>) -> Seq<u64> {
    enemies.map_values(|e: Enemy| floor_sqrt(dist_sq(p, e.pos)) as u64)
}

/// What the first `k` enemies of `order` draw, in that order.
pub open spec fn enemies_draw(
    p: Player,
    enemies: Seq<Enemy>,
    order: Seq<usize>,
    k: int,
    t: WallTextures,
    width: int,
    height: int,
    depth: Seq<u64>,
) -> Seq<DrawRect>
    decreases k,
{
    if k <= 0 {
        seq![]
    } else {
        enemies_draw(p, enemies, order, k - 1, t, width, height, depth) + sprite_draw(
            p,
            enemies[order[k - 1] as int].pos,
            ENEMY_KEY,
            t,
            width,
            height,
            depth,
        )
    }
}

/// The enemy pass of a frame: nothing where the enemy texture is not
/// loaded; otherwise each enemy, farthest first (equally far ones in
/// their order in `enemies`), projected and drawn where the depth buffer shows no nearer
/// wall.
pub fn render_enemies(
    player: &Player,
    enemies: &Vec<Enemy>,
    wall_textures: &WallTextures,
    window_width: i32,
    window_height: i32,
    zbuffer: &Vec<u64>,
) -> (r: Vec<DrawRect>)
    requires
        player.wf(),
        wall_textures.wf(),
        0 < window_width <= MAX_SCREEN,
        0 < window_height <= MAX_SCREEN,
        zbuffer@.len() == window_width,
        forall|k: int| 0 <= k < enemies@.len() ==> point_wf(#[trigger] enemies@[k].pos),
    ensures
        !wall_textures.enemy_on() ==> r@.len() == 0,
        wall_textures.enemy_on() ==> exists|order: Seq<usize>|
            far_to_near(enemy_distances(*player, enemies@), order) && ties_in_order(
                enemy_distances(*player, enemies@),
                order,
            ) && r@ == #[trigger] enemies_draw(
                *player,
                enemies@,
                order,
                order.len() as int,
                *wall_textures,
                window_width as int,
                window_height as int,
                zbuffer@,
            ),
        forall|k: int| 0 <= k < r@.len() ==> on_screen_rect(#[trigger] r@[k], window_width as int, window_height as int),
{
    let mut rects: Vec<DrawRect> = Vec::new();
    if !wall_textures.is_enemy_enabled() {
        return rects;
    }
    let (cf, sf) = lens_of(player);
    let mut dists: Vec<u64> = Vec::new();
    let mut i: usize = 0;
    while i < enemies.len()
        invariant
            player.wf(),
            i <= enemies@.len(),
            dists@.len() == i,
            forall|k: int| 0 <= k < i ==> #[trigger] dists@[k] == floor_sqrt(dist_sq(*player, enemies@[k].pos)),
            forall|k: int| 0 <= k < enemies@.len() ==> point_wf(#[trigger] enemies@[k].pos),
        decreases enemies@.len() - i,
    {
        dists.push(sprite_distance(player, &enemies[i].pos));
        i = i + 1;
    }
    assert(dists@ =~= enemy_distances(*player, enemies@));
    let order = sprite_order(&dists);
    let mut k: usize = 0;
    while k < order.len()
        invariant
            player.wf(),
            wall_textures.wf(),
            0 < window_width <= MAX_SCREEN,
            0 < window_height <= MAX_SCREEN,
            zbuffer@.len() == window_width,
            lens_ok(cf as int, sf as int),
            cf == cosine((player.fov / 2) as int),
            sf == sine((player.fov / 2) as int),
            far_to_near(dists@, order@),
            ties_in_order(dists@, order@),
            dists@.len() == enemies@.len(),
            forall|k: int| 0 <= k < enemies@.len() ==> point_wf(#[trigger] enemies@[k].pos),
            forall|m: int|
                0 <= m < rects@.len() ==> on_screen_rect(#[trigger] rects@[m], window_width as int, window_height as int),
            k <= order@.len(),
            rects@ == enemies_draw(
                *player,
                enemies@,
                order@,
                k as int,
                *wall_textures,
                window_width as int,
                window_height as int,
                zbuffer@,
            ),
        decreases order@.len() - k,
    {
        let e = &enemies[order[k]];
        draw_sprite(
            player,
            &e.pos,
            ENEMY_KEY,
            wall_textures,
            window_width,
            window_height,
            zbuffer,
            cf,
            sf,
            &mut rects,
        );
        k = k + 1;
    }
    rects
}

/// The finish pass of a frame: the finish marker, where there is one,
/// projected and drawn where the depth buffer
/// shows no nearer wall; without its texture it is drawn in its fallback
/// color.
pub fn render_finish(
    player: &Player,
    finish_pos: &Option<Point>,
    wall_textures: &WallTextures,
    window_width: i32,
    window_height: i32,
    zbuffer: &Vec<u64>,
) -> (r: Vec<DrawRect>)
    requires
        player.wf(),
        wall_textures.wf(),
        0 < window_width <= MAX_SCREEN,
        0 < window_height <= MAX_SCREEN,
        zbuffer@.len() == window_width,
        *finish_pos matches Some(q) ==> point_wf(q),
    ensures
        r@ == match *finish_pos {
            Some(q) => sprite_draw(
                *player,
                q,
                FINISH_KEY,
                *wall_textures,
                window_width as int,
                window_height as int,
                zbuffer@,
            ),
            None => seq![],
        },
        forall|k: int| 0 <= k < r@.len() ==> on_screen_rect(#[trigger] r@[k], window_width as int, window_height as int),
{
    let mut rects: Vec<DrawRect> = Vec::new();
    match finish_pos {
        Some(q) => {
            let (cf, sf) = lens_of(player);
            draw_sprite(
                player,
                q,
                FINISH_KEY,
                wall_textures,
                window_width,
                window_height,
                zbuffer,
                cf,
                sf,
                &mut rects,
            );
            assert(rects@ =~= sprite_draw(
                *player,
                *q,
                FINISH_KEY,
                *wall_textures,
                window_width as int,
                window_height as int,
                zbuffer@,
            ));
        },
        None => {
            assert(rects@ =~= Seq::<DrawRect>::empty());
        },
    }
    rects
}

} // verus!
