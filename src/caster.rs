//! The ray caster: marching a probe from the camera through the grid until
//! it leaves the grid, meets a wall, or passes the maximum range.

use vstd::prelude::*;
use crate::fixed::{
    TURN, HALF_TURN, QUARTER_TURN, ONE, SUB, cosine, sine, half_sine, angle_sub, cos_fx, sin_fx, sub_angle,
    lemma_cosine_zero, lemma_half_sine_bounds, lemma_sine_bounds,
};
use crate::maze::{Maze, EMPTY, MAX_CELLS, rectangular, col_count, row_count, cell};
use crate::player::{Player, POS_LIMIT};
use vstd::arithmetic::div_mod::{
    lemma_fundamental_div_mod, lemma_fundamental_div_mod_converse, lemma_div_is_ordered,
};

verus! {

/// Distance, in sub-units, past which a ray gives up.
pub const MAX_DISTANCE: i64 = 50000;

/// The coarse marching step: one world unit.
pub const STEP: i64 = 10;

/// The refinement step: a fifth of a world unit.
pub const REFINE_STEP: i64 = 2;

/// The largest cell edge length, in world units.
pub const MAX_BLOCK_SIZE: usize = 1000;

/// Texture coordinates run over `[0, TEXTURE_EXTENT)`.
pub const TEXTURE_EXTENT: u64 = 128;

/// What a ray met.
#[derive(Clone, Copy, Debug, PartialEq, Eq, Structural)]
pub enum Impact {
    /// A wall cell, with its symbol.
    Wall(char),
    /// The edge of the grid.
    Boundary,
    /// Nothing within the maximum range.
    Nothing,
}

/// The result of one cast.
#[derive(Clone, Copy, Debug, PartialEq, Eq, Structural)]
pub struct Intersect {
    /// Marched distance, in sub-units: the number of steps of the ray's
    /// direction vector. That vector comes from the fixed-point sine and
    /// cosine, whose rational approximation makes it up to about 0.2%
    /// shorter than a unit off the axes, so there this distance can exceed
    /// the Euclidean distance to the hit by as much.
    pub distance: i64,
    pub impact: Impact,
    /// Horizontal texture coordinate on the face that was hit.
    pub tx: usize,
    /// The distance times the cosine of the ray's angle to the heading.
    pub perpendicular_distance: i64,
}

/// The grid and the cell size it is cast through are usable.
pub open spec fn grid_wf(m: Seq<Vec<char>>, block_size: int) -> bool {
    &&& rectangular(m)
    &&& m.len() <= MAX_CELLS
    &&& m[0]@.len() <= MAX_CELLS
    &&& 0 < block_size <= MAX_BLOCK_SIZE
}

/// The edge length of a cell, in sub-units scaled by `ONE`.
pub open spec fn span(block_size: int) -> int {
    block_size * SUB * ONE
}

/// A coordinate of the probe at distance `d`, scaled by `ONE`.
pub open spec fn probe(origin: int, dir: int, d: int) -> int {
    origin * ONE + d * dir
}

/// The probe point `(x, y)` of a ray at angle `a`, at distance `d`.
pub open spec fn ray_point(p: Player, a: int, d: int) -> (int, int) {
    (probe(p.pos.x as int, cosine(a), d), probe(p.pos.y as int, sine(a), d))
}

/// A scaled point lies inside the grid.
pub open spec fn in_grid(m: Seq<Vec<char>>, block_size: int, x: int, y: int) -> bool {
    &&& 0 <= x
    &&& 0 <= y
    &&& x / span(block_size) < col_count(m)
    &&& y / span(block_size) < row_count(m)
}

/// The symbol of the cell under a scaled point of the grid.
pub open spec fn symbol_at(m: Seq<Vec<char>>, block_size: int, x: int, y: int) -> char {
    cell(m, y / span(block_size), x / span(block_size))
}

/// A scaled point lies in a wall cell.
pub open spec fn blocked(m: Seq<Vec<char>>, block_size: int, x: int, y: int) -> bool {
    in_grid(m, block_size, x, y) && symbol_at(m, block_size, x, y) != EMPTY
}

/// A scaled point lies in an empty cell.
pub open spec fn open_at(m: Seq<Vec<char>>, block_size: int, x: int, y: int) -> bool {
    in_grid(m, block_size, x, y) && symbol_at(m, block_size, x, y) == EMPTY
}

/// The probe of the ray at distance `d` lies in a wall cell.
pub open spec fn ray_blocked(m: Seq<Vec<char>>, block_size: int, p: Player, a: int, d: int) -> bool {
    blocked(m, block_size, ray_point(p, a, d).0, ray_point(p, a, d).1)
}

/// The probe of the ray at distance `d` lies in an empty cell.
pub open spec fn ray_open(m: Seq<Vec<char>>, block_size: int, p: Player, a: int, d: int) -> bool {
    open_at(m, block_size, ray_point(p, a, d).0, ray_point(p, a, d).1)
}

/// The probe of the ray at distance `d` lies inside the grid.
pub open spec fn ray_in_grid(m: Seq<Vec<char>>, block_size: int, p: Player, a: int, d: int) -> bool {
    in_grid(m, block_size, ray_point(p, a, d).0, ray_point(p, a, d).1)
}

/// The distance `d` corrected by a cosine `c`, rounded toward zero.
pub open spec fn perpendicular(d: int, c: int) -> int {
    if c >= 0 {
        d * c / (ONE as int)
    } else {
        -(d * (-c) / (ONE as int))
    }
}

/// The texture coordinate of a hit at cell-local offsets `(lx, ly)`: a hit
/// within one world unit of the cell's left or right edge is on a vertical
/// face and runs along `ly`, any other on a horizontal face along `lx`.
pub open spec fn texture_u(lx: int, ly: int, cell: int) -> int {
    let along = if lx <= SUB * ONE || lx >= cell - SUB * ONE {
        ly
    } else {
        lx
    };
    let u = along * TEXTURE_EXTENT / cell;
    if u > TEXTURE_EXTENT - 1 {
        TEXTURE_EXTENT - 1
    } else {
        u
    }
}

/// The texture coordinate of a hit at a scaled point of the grid.
pub open spec fn hit_u(block_size: int, x: int, y: int) -> int {
    texture_u(x % span(block_size), y % span(block_size), span(block_size))
}

/// The coarse probe at or before a refined distance `d > 0`, strictly
/// before it: where the refinement of a hit at `d` started.
pub open spec fn coarse_start(d: int) -> int {
    ((d - 1) / (STEP as int)) * STEP
}

/// The coarse probe that found the wall of a hit refined to distance `d`.
pub open spec fn coarse_hit(d: int) -> int {
    if d == 0 {
        0
    } else {
        coarse_start(d) + STEP
    }
}

/// What `cast_ray` returns: the coarse probes before the result all lie in
/// empty cells; a boundary result is a coarse probe outside the grid; a
/// wall result is the first refined probe in a wall cell after the last
/// empty coarse probe, whose next coarse probe lies in a wall cell, and
/// reports that coarse probe's cell symbol: the first wall cell the march
/// met; a miss lies one step past the maximum range.
pub open spec fn cast_result(m: Seq<Vec<char>>, block_size: int, p: Player, a: int, r: Intersect) -> bool {
    &&& r.distance >= 0
    &&& r.tx < TEXTURE_EXTENT
    &&& r.perpendicular_distance == perpendicular(r.distance as int, cosine(angle_sub(a, p.a as int)))
    &&& forall|t: int|
        0 <= t < r.distance && t % (STEP as int) == 0 ==> #[trigger] ray_open(m, block_size, p, a, t)
    &&& match r.impact {
        Impact::Boundary => {
            &&& r.distance % STEP == 0
            &&& r.distance <= MAX_DISTANCE
            &&& !ray_in_grid(m, block_size, p, a, r.distance as int)
            &&& r.tx == 0
        },
        Impact::Nothing => {
            &&& r.distance == MAX_DISTANCE + STEP
            &&& r.tx == 0
        },
        Impact::Wall(s) => {
            &&& r.distance % REFINE_STEP == 0
            &&& r.distance <= MAX_DISTANCE
            &&& ray_blocked(m, block_size, p, a, r.distance as int)
            &&& (r.distance == 0 || !ray_blocked(m, block_size, p, a, r.distance - REFINE_STEP))
            &&& (r.distance == 0 || ray_blocked(m, block_size, p, a, coarse_start(r.distance as int) + STEP))
            &&& forall|u: int|
                0 < r.distance && coarse_start(r.distance as int) <= u < r.distance && u % (REFINE_STEP as int)
                    == 0 ==> !#[trigger] ray_blocked(m, block_size, p, a, u)
            &&& s == symbol_at(
                m,
                block_size,
                ray_point(p, a, coarse_hit(r.distance as int)).0,
                ray_point(p, a, coarse_hit(r.distance as int)).1,
            )
            &&& r.tx == hit_u(block_size, ray_point(p, a, r.distance as int).0, ray_point(p, a, r.distance as int).1)
        },
    }
}

/// The cell `(col, row)` under a scaled point, if it lies in the grid.
fn cell_under(m: &Maze, block_size: usize, x: i64, y: i64) -> (r: Option<(usize, usize)>)
    requires
        grid_wf(m@, block_size as int),
    ensures
        r is Some <==> in_grid(m@, block_size as int, x as int, y as int),
        r matches Some((i, j)) ==> {
            &&& i == x as int / span(block_size as int)
            &&& j == y as int / span(block_size as int)
            &&& i < col_count(m@)
            &&& j < row_count(m@)
        },
{
    let sp: i64 = block_size as i64 * SUB * ONE;
    if x < 0 || y < 0 {
        return None;
    }
    let i: u64 = (x as u64) / (sp as u64);
    let j: u64 = (y as u64) / (sp as u64);
    if i >= m[0].len() as u64 || j >= m.len() as u64 {
        return None;
    }
    Some((i as usize, j as usize))
}

/// Whether a scaled point lies in a wall cell.
fn is_blocked(m: &Maze, block_size: usize, x: i64, y: i64) -> (r: bool)
    requires
        grid_wf(m@, block_size as int),
    ensures
        r == blocked(m@, block_size as int, x as int, y as int),
{
    match cell_under(m, block_size, x, y) {
        Some((i, j)) => m[j][i] != EMPTY,
        None => false,
    }
}

/// The distance `d` corrected by the cosine `c`.
pub fn perpendicular_of(d: i64, c: i64) -> (r: i64)
    requires
        0 <= d <= MAX_DISTANCE + STEP,
        -ONE <= c <= ONE,
    ensures
        r == perpendicular(d as int, c as int),
{
    assert(0 <= d * (if c >= 0 { c as int } else { -c }) <= (MAX_DISTANCE + STEP) * ONE) by (nonlinear_arith)
        requires
            0 <= d <= MAX_DISTANCE + STEP,
            -ONE <= c <= ONE,
    ;
    if c >= 0 {
        d * c / ONE
    } else {
        -(d * (-c) / ONE)
    }
}

/// The texture coordinate of a hit at a scaled point inside the grid.
fn hit_u_of(block_size: usize, x: i64, y: i64) -> (r: usize)
    requires
        0 < block_size <= MAX_BLOCK_SIZE,
        0 <= x,
        0 <= y,
    ensures
        r == hit_u(block_size as int, x as int, y as int),
        r < TEXTURE_EXTENT,
{
    let sp: u64 = block_size as u64 * 10 * 16384;
    let lx: u64 = (x as u64) % sp;
    let ly: u64 = (y as u64) % sp;
    let along: u64 = if lx <= 10 * 16384 || lx >= sp - 10 * 16384 {
        ly
    } else {
        lx
    };
    assert(along * 128 <= sp * 128) by (nonlinear_arith)
        requires
            along < sp,
    ;
    let u: u64 = along * 128 / sp;
    if u > 127 {
        127
    } else {
        u as usize
    }
}

/// The coordinates of the probe of a ray at distance `d`.
fn probe_at(p: &Player, dx: i64, dy: i64, d: i64) -> (r: (i64, i64))
    requires
        -POS_LIMIT <= p.pos.x <= POS_LIMIT,
        -POS_LIMIT <= p.pos.y <= POS_LIMIT,
        -ONE <= dx <= ONE,
        -ONE <= dy <= ONE,
        0 <= d <= MAX_DISTANCE + STEP,
    ensures
        r.0 == probe(p.pos.x as int, dx as int, d as int),
        r.1 == probe(p.pos.y as int, dy as int, d as int),
{
    assert(-(MAX_DISTANCE + STEP) * ONE <= d * dx <= (MAX_DISTANCE + STEP) * ONE) by (nonlinear_arith)
        requires
            0 <= d <= MAX_DISTANCE + STEP,
            -ONE <= dx <= ONE,
    ;
    assert(-(MAX_DISTANCE + STEP) * ONE <= d * dy <= (MAX_DISTANCE + STEP) * ONE) by (nonlinear_arith)
        requires
            0 <= d <= MAX_DISTANCE + STEP,
            -ONE <= dy <= ONE,
    ;
    (p.pos.x * ONE + d * dx, p.pos.y * ONE + d * dy)
}

/// Casts a ray from the camera at angle `a`: marches in steps of one world
/// unit until the probe leaves the grid (`Boundary`), passes the maximum
/// range (`Nothing`) or enters a wall cell; a wall hit is refined in fifths
/// of a unit from the last empty probe.
pub fn cast_ray(maze: &Maze, player: &Player, a: u64, block_size: usize) -> (r: Intersect)
    requires
        grid_wf(maze@, block_size as int),
        player.wf(),
        a < TURN,
    ensures
        cast_result(maze@, block_size as int, *player, a as int, r),
{
    let dx = cos_fx(a);
    let dy = sin_fx(a);
    let c = cos_fx(sub_angle(a, player.a));
    let mut d: i64 = 0;
    loop
        invariant
            grid_wf(maze@, block_size as int),
            player.wf(),
            a < TURN,
            dx == cosine(a as int),
            dy == sine(a as int),
            -ONE <= dx <= ONE,
            -ONE <= dy <= ONE,
            c == cosine(angle_sub(a as int, player.a as int)),
            -ONE <= c <= ONE,
            0 <= d <= MAX_DISTANCE,
            d % STEP == 0,
            forall|t: int|
                0 <= t < d && t % (STEP as int) == 0 ==> #[trigger] ray_open(maze@, block_size as int, *player, a as int, t),
        decreases MAX_DISTANCE - d,
    {
        let (x, y) = probe_at(player, dx, dy, d);
        match cell_under(maze, block_size, x, y) {
            None => {
                return Intersect {
                    distance: d,
                    impact: Impact::Boundary,
                    tx: 0,
                    perpendicular_distance: perpendicular_of(d, c),
                };
            },
            Some((i, j)) => {
                if maze[j][i] != EMPTY {
                    let mut t: i64 = d;
                    let mut hx: i64 = x;
                    let mut hy: i64 = y;
                    if d > 0 {
                        t = d - STEP + REFINE_STEP;
                        assert(ray_open(maze@, block_size as int, *player, a as int, d - STEP));
                        assert forall|s: int|
                            d - STEP <= s < t && s % (REFINE_STEP as int) == 0 implies !#[trigger] ray_blocked(
                                maze@,
                                block_size as int,
                                *player,
                                a as int,
                                s,
                            ) by {
                            assert(s == d - STEP);
                        }
                        let (px, py) = probe_at(player, dx, dy, t);
                        hx = px;
                        hy = py;
                        while t < d && !is_blocked(maze, block_size, hx, hy)
                            invariant
                                grid_wf(maze@, block_size as int),
                                player.wf(),
                                -ONE <= dx <= ONE,
                                -ONE <= dy <= ONE,
                                dx == cosine(a as int),
                                dy == sine(a as int),
                                STEP <= d <= MAX_DISTANCE,
                                d % STEP == 0,
                                d - STEP < t <= d,
                                t % REFINE_STEP == 0,
                                hx == ray_point(*player, a as int, t as int).0,
                                hy == ray_point(*player, a as int, t as int).1,
                                ray_blocked(maze@, block_size as int, *player, a as int, d as int),
                                !ray_blocked(maze@, block_size as int, *player, a as int, t - REFINE_STEP),
                                forall|s: int|
                                    d - STEP <= s < t && s % (REFINE_STEP as int) == 0 ==> !#[trigger] ray_blocked(
                                        maze@,
                                        block_size as int,
                                        *player,
                                        a as int,
                                        s,
                                    ),
                            decreases d - t,
                        {
                            t = t + REFINE_STEP;
                            let (px, py) = probe_at(player, dx, dy, t);
                            hx = px;
                            hy = py;
                        }
                    }
                    proof {
                        if t > 0 {
                            lemma_fundamental_div_mod(d as int, STEP as int);
                            lemma_fundamental_div_mod_converse(
                                t - 1,
                                STEP as int,
                                d as int / (STEP as int) - 1,
                                t - 1 - (d - STEP),
                            );
                            assert(coarse_start(t as int) == d - STEP);
                        }
                    }
                    return Intersect {
                        distance: t,
                        impact: Impact::Wall(maze[j][i]),
                        tx: hit_u_of(block_size, hx, hy),
                        perpendicular_distance: perpendicular_of(t, c),
                    };
                }
            },
        }
        d = d + STEP;
        if d > MAX_DISTANCE {
            return Intersect {
                distance: d,
                impact: Impact::Nothing,
                tx: 0,
                perpendicular_distance: perpendicular_of(d, c),
            };
        }
    }
}

/// An angle lies within the camera's field of view: at most half the field
/// of view away from the heading, on either side.
pub open spec fn within_fov(p: Player, a: int) -> bool {
    let off = angle_sub(a, p.a as int);
    off <= p.fov / 2 || off >= TURN - p.fov / 2
}

/// For every heading and every ray angle within the field of view, the
/// perpendicular distance is not negative and not longer than the marched
/// distance, and it equals the marched distance along the heading itself.
pub proof fn lemma_perpendicular_not_longer(p: Player, a: int, d: int)
    requires
        p.wf(),
        0 <= a < TURN,
        within_fov(p, a),
        0 <= d,
    ensures
        0 <= perpendicular(d, cosine(angle_sub(a, p.a as int))) <= d,
        a == p.a ==> perpendicular(d, cosine(angle_sub(a, p.a as int))) == d,
{
    let off = angle_sub(a, p.a as int);
    let c = cosine(off);
    let s = (off + QUARTER_TURN) % (TURN as int);
    if off <= p.fov / 2 {
        assert(s == off + QUARTER_TURN);
    } else {
        assert(s == off + QUARTER_TURN - TURN);
    }
    lemma_half_sine_bounds(s);
    assert(0 <= c <= ONE);
    assert(0 <= d * c <= d * ONE) by (nonlinear_arith)
        requires
            0 <= c <= ONE,
            0 <= d,
    ;
    assert(d * c / (ONE as int) <= d) by (nonlinear_arith)
        requires
            0 <= d * c <= d * ONE,
    ;
    assert(0 <= d * c / (ONE as int)) by (nonlinear_arith)
        requires
            0 <= d * c,
    ;
    if a == p.a {
        lemma_cosine_zero();
        assert(off == 0);
        assert(d * ONE / (ONE as int) == d) by (nonlinear_arith);
    }
}

/// The perpendicular distance of a cast is never longer than its marched
/// distance.
pub proof fn lemma_cast_perpendicular_bounded(
    m: Seq<Vec<char>>,
    block_size: int,
    p: Player,
    a: int,
    r: Intersect,
)
    requires
        p.wf(),
        cast_result(m, block_size, p, a, r),
    ensures
        r.perpendicular_distance <= r.distance,
{
    let off = angle_sub(a, p.a as int);
    lemma_sine_bounds(off);
    let c = cosine(off);
    let d = r.distance as int;
    if c >= 0 {
        assert(d * c / (ONE as int) <= d) by (nonlinear_arith)
            requires
                0 <= c <= ONE,
                0 <= d,
        ;
    } else {
        assert(0 <= d * (-c) / (ONE as int)) by (nonlinear_arith)
            requires
                0 < -c,
                0 <= d,
        ;
    }
}

/// Dividing both sides by the fixed-point scale leaves a quotient as it is.
pub proof fn lemma_unscale_div(v: int, s: int)
    requires
        0 < s,
    ensures
        (v * ONE) / (s * ONE) == v / s,
{
    lemma_fundamental_div_mod(v, s);
    let q = v / s;
    let r = v % s;
    assert(v * ONE == q * (s * ONE) + r * ONE) by (nonlinear_arith)
        requires
            v == s * q + r,
    ;
    assert(0 <= r * ONE < s * ONE) by (nonlinear_arith)
        requires
            0 <= r < s,
    ;
    lemma_fundamental_div_mod_converse(v * ONE, s * ONE, q, r * ONE);
}

/// The probe of an eastward ray at distance `t` lies over world column
/// `(x + t) / cell` and world row `y / cell`.
proof fn lemma_east_probe(m: Seq<Vec<char>>, block_size: int, p: Player, t: int)
    requires
        0 < block_size,
        0 <= p.pos.x,
        0 <= p.pos.y,
        0 <= t,
    ensures
        ray_point(p, 0, t).0 == (p.pos.x + t) * ONE,
        ray_point(p, 0, t).1 == p.pos.y * ONE,
        ray_point(p, 0, t).0 / span(block_size) == (p.pos.x + t) / (block_size * SUB),
        ray_point(p, 0, t).1 / span(block_size) == p.pos.y as int / (block_size * SUB),
{
    lemma_cosine_zero();
    assert(half_sine(0) == 0) by {
        assert(0 * (HALF_TURN - 0) == 0);
    }
    assert(sine(0) == 0);
    assert(probe(p.pos.x as int, ONE as int, t) == (p.pos.x + t) * ONE) by (nonlinear_arith);
    assert(probe(p.pos.y as int, 0, t) == p.pos.y * ONE) by (nonlinear_arith);
    assert(span(block_size) == (block_size * SUB) * ONE) by (nonlinear_arith);
    lemma_unscale_div(p.pos.x + t, block_size * SUB);
    lemma_unscale_div(p.pos.y as int, block_size * SUB);
}

/// The smallest multiple of the coarse step that is at least `d`.
proof fn lemma_next_coarse(d: int) -> (t: int)
    requires
        0 <= d,
    ensures
        d <= t < d + STEP,
        t % (STEP as int) == 0,
{
    let q = (d + STEP - 1) / (STEP as int);
    lemma_fundamental_div_mod(d + STEP - 1, STEP as int);
    let t = q * STEP;
    lemma_fundamental_div_mod_converse(t, STEP as int, q, 0);
    t
}

/// A ray cast eastward, along a row whose cells from the camera's up to a
/// wall cell `wall_col` blocks away are empty, stops at that wall within
/// one refinement step past the wall's face.
pub proof fn lemma_straight_wall_distance(
    m: Seq<Vec<char>>,
    block_size: int,
    p: Player,
    r: Intersect,
    wall_col: int,
)
    requires
        grid_wf(m, block_size),
        p.wf(),
        p.a == 0,
        cast_result(m, block_size, p, 0, r),
        0 <= p.pos.x,
        0 <= p.pos.y,
        p.pos.y as int / (block_size * SUB) < row_count(m),
        p.pos.x as int / (block_size * SUB) < wall_col < col_count(m),
        forall|c: int|
            p.pos.x as int / (block_size * SUB) <= c < wall_col ==> #[trigger] cell(
                m,
                p.pos.y as int / (block_size * SUB),
                c,
            ) == EMPTY,
        cell(m, p.pos.y as int / (block_size * SUB), wall_col) != EMPTY,
        wall_col * block_size * SUB - p.pos.x + STEP <= MAX_DISTANCE,
    ensures
        r.impact == Impact::Wall(cell(m, p.pos.y as int / (block_size * SUB), wall_col)),
        wall_col * block_size * SUB - p.pos.x <= r.distance,
        r.distance < wall_col * block_size * SUB - p.pos.x + REFINE_STEP,
{
    let cs = block_size * SUB;
    let x0 = p.pos.x as int;
    let row = p.pos.y as int / cs;
    let wall = wall_col * cs;
    let d = wall - x0;
    assert(wall == wall_col * block_size * SUB) by (nonlinear_arith)
        requires
            wall == wall_col * cs,
            cs == block_size * SUB,
    ;
    lemma_fundamental_div_mod(x0, cs);
    assert(x0 < wall) by (nonlinear_arith)
        requires
            x0 == cs * (x0 / cs) + x0 % cs,
            x0 % cs < cs,
            x0 / cs < wall_col,
            wall == wall_col * cs,
            cs > 0,
    ;
    // Before the wall's face every probe lies in an empty cell.
    assert forall|t: int| 0 <= t < d implies #[trigger] ray_open(m, block_size, p, 0, t) by {
        lemma_east_probe(m, block_size, p, t);
        lemma_div_is_ordered(x0, x0 + t, cs);
        lemma_fundamental_div_mod(x0 + t, cs);
        assert((x0 + t) / cs < wall_col) by (nonlinear_arith)
            requires
                x0 + t == cs * ((x0 + t) / cs) + (x0 + t) % cs,
                0 <= (x0 + t) % cs,
                x0 + t < wall_col * cs,
                cs > 0,
        ;
    }
    // Within one cell past the face every probe lies in the wall cell.
    assert forall|t: int| d <= t < d + cs implies #[trigger] ray_blocked(m, block_size, p, 0, t) by {
        lemma_east_probe(m, block_size, p, t);
        assert(x0 + t == wall_col * cs + (x0 + t - wall));
        lemma_fundamental_div_mod_converse(x0 + t, cs, wall_col, x0 + t - wall);
    }
    let first = lemma_next_coarse(d);
    assert(ray_blocked(m, block_size, p, 0, first));
    match r.impact {
        Impact::Nothing => {
            assert(ray_open(m, block_size, p, 0, first));
        },
        Impact::Boundary => {
            if r.distance < d {
                assert(ray_open(m, block_size, p, 0, r.distance as int));
            } else if first < r.distance {
                assert(ray_open(m, block_size, p, 0, first));
            } else {
                assert(r.distance == first) by {
                    lemma_fundamental_div_mod(r.distance as int, STEP as int);
                    lemma_fundamental_div_mod(first, STEP as int);
                }
            }
        },
        Impact::Wall(_) => {
            if r.distance < d {
                assert(ray_open(m, block_size, p, 0, r.distance as int));
            } else if r.distance >= d + STEP {
                assert(ray_open(m, block_size, p, 0, first));
            } else if r.distance - REFINE_STEP >= d {
                assert(ray_blocked(m, block_size, p, 0, r.distance - REFINE_STEP));
            } else {
                // The coarse probe that found the wall is the first one past its face.
                let rd = r.distance as int;
                let cs0 = coarse_start(rd);
                lemma_coarse_start(rd);
                if first <= cs0 {
                    assert(ray_open(m, block_size, p, 0, first));
                }
                lemma_step_multiples(cs0 + STEP, first);
                lemma_step_multiples(first, cs0 + STEP);
                assert(coarse_hit(rd) == first);
                lemma_east_probe(m, block_size, p, first);
                assert(x0 + first == wall_col * cs + (x0 + first - wall));
                lemma_fundamental_div_mod_converse(x0 + first, cs, wall_col, x0 + first - wall);
            }
        },
    }
}

/// A ray that leaves the grid within the maximum range, and meets no wall
/// cell on its way, ends at the grid's edge and not past the range.
pub proof fn lemma_exit_is_boundary(
    m: Seq<Vec<char>>,
    block_size: int,
    p: Player,
    a: int,
    r: Intersect,
    exit: int,
)
    requires
        cast_result(m, block_size, p, a, r),
        0 <= exit <= MAX_DISTANCE,
        exit % (STEP as int) == 0,
        !ray_in_grid(m, block_size, p, a, exit),
        forall|t: int| 0 <= t <= MAX_DISTANCE ==> !#[trigger] ray_blocked(m, block_size, p, a, t),
    ensures
        r.impact == Impact::Boundary,
        r.distance <= exit,
{
    if r.distance > exit {
        assert(ray_open(m, block_size, p, a, exit));
    }
    match r.impact {
        Impact::Wall(_) => {
            assert(!ray_blocked(m, block_size, p, a, r.distance as int));
        },
        _ => {},
    }
}

/// The coarse probe where a cast stopped marching: the boundary probe, the
/// coarse probe that found the wall, or one step past the range.
pub open spec fn coarse_stop(r: Intersect) -> int {
    match r.impact {
        Impact::Boundary => r.distance as int,
        Impact::Wall(_) => if r.distance == 0 {
            0
        } else {
            coarse_start(r.distance as int) + STEP
        },
        Impact::Nothing => MAX_DISTANCE + STEP,
    }
}

/// Where a refinement starts: the multiple of the step just before `d`.
proof fn lemma_coarse_start(d: int)
    requires
        0 < d,
    ensures
        0 <= coarse_start(d) <= d - 1 < coarse_start(d) + STEP,
        coarse_start(d) % (STEP as int) == 0,
{
    lemma_fundamental_div_mod(d - 1, STEP as int);
    let q = (d - 1) / (STEP as int);
    lemma_fundamental_div_mod_converse(q * STEP, STEP as int, q, 0);
}

/// Of two multiples of the step, one less than a step past the other is
/// at most the other.
proof fn lemma_step_multiples(t: int, u: int)
    requires
        t % (STEP as int) == 0,
        u % (STEP as int) == 0,
        t < u + STEP,
    ensures
        t <= u,
{
    lemma_fundamental_div_mod(t, STEP as int);
    lemma_fundamental_div_mod(u, STEP as int);
    assert(t / (STEP as int) <= u / (STEP as int)) by (nonlinear_arith)
        requires
            t == STEP * (t / (STEP as int)),
            u == STEP * (u / (STEP as int)),
            t < u + STEP,
    ;
    assert(t <= u) by (nonlinear_arith)
        requires
            t == STEP * (t / (STEP as int)),
            u == STEP * (u / (STEP as int)),
            t / (STEP as int) <= u / (STEP as int),
    ;
}

/// Every coarse probe before a cast's stop lies in an empty cell, and the
/// stop itself, where it is within range, does not.
proof fn lemma_coarse_stop(m: Seq<Vec<char>>, block_size: int, p: Player, a: int, r: Intersect)
    requires
        cast_result(m, block_size, p, a, r),
    ensures
        0 <= coarse_stop(r) <= MAX_DISTANCE + STEP,
        coarse_stop(r) % (STEP as int) == 0,
        forall|t: int|
            0 <= t < coarse_stop(r) && t % (STEP as int) == 0 ==> #[trigger] ray_open(m, block_size, p, a, t),
        coarse_stop(r) <= MAX_DISTANCE ==> !ray_open(m, block_size, p, a, coarse_stop(r)),
{
    match r.impact {
        Impact::Wall(_) => {
            if r.distance > 0 {
                let cs = coarse_start(r.distance as int);
                lemma_coarse_start(r.distance as int);
                lemma_fundamental_div_mod(r.distance as int, REFINE_STEP as int);
                assert(cs + STEP <= MAX_DISTANCE) by {
                    lemma_step_multiples(cs + STEP, MAX_DISTANCE as int);
                }
                assert forall|t: int|
                    0 <= t < coarse_stop(r) && t % (STEP as int) == 0 implies #[trigger] ray_open(
                    m,
                    block_size,
                    p,
                    a,
                    t,
                ) by {
                    lemma_step_multiples(t, cs);
                }
            }
        },
        _ => {},
    }
}

/// A cast has one result: any two results that meet `cast_result` for the
/// same grid, camera and angle are equal.
pub proof fn lemma_cast_result_unique(
    m: Seq<Vec<char>>,
    block_size: int,
    p: Player,
    a: int,
    r1: Intersect,
    r2: Intersect,
)
    requires
        cast_result(m, block_size, p, a, r1),
        cast_result(m, block_size, p, a, r2),
    ensures
        r1 == r2,
{
    lemma_coarse_stop(m, block_size, p, a, r1);
    lemma_coarse_stop(m, block_size, p, a, r2);
    let s1 = coarse_stop(r1);
    let s2 = coarse_stop(r2);
    if s1 < s2 {
        lemma_step_multiples(s1 + STEP, s2);
        assert(ray_open(m, block_size, p, a, s1));
    }
    if s2 < s1 {
        lemma_step_multiples(s2 + STEP, s1);
        assert(ray_open(m, block_size, p, a, s2));
    }
    assert(s1 == s2);
    match (r1.impact, r2.impact) {
        (Impact::Wall(_), Impact::Wall(_)) => {
            let d1 = r1.distance as int;
            let d2 = r2.distance as int;
            if d1 > 0 {
                lemma_coarse_start(d1);
            }
            if d2 > 0 {
                lemma_coarse_start(d2);
            }
            if d1 < d2 {
                assert(!ray_blocked(m, block_size, p, a, d1));
            }
            if d2 < d1 {
                assert(!ray_blocked(m, block_size, p, a, d2));
            }
        },
        _ => {},
    }
}

} // verus!
