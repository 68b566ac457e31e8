//! The camera: a player's position, heading and field of view.

use vstd::prelude::*;
use crate::enemy::Point;
use crate::fixed::{TURN, HALF_TURN, QUARTER_TURN, ONE, SUB, cosine, sine, cos_fx, sin_fx};
use crate::maze::{Maze, EMPTY, MAX_CELLS, cell, row_count, col_count};
use crate::caster::grid_wf;
use vstd::arithmetic::div_mod::{lemma_fundamental_div_mod, lemma_fundamental_div_mod_converse};

verus! {

/// The largest distance of a position from the origin, along either axis,
/// in sub-units.
pub const POS_LIMIT: i64 = 1_000_000_000;

/// A camera: position in sub-units, heading and field of view in binary
/// angle units.
#[derive(Clone, Copy, Debug, PartialEq, Eq, Structural)]
pub struct Player {
    pub pos: Point,
    pub a: u64,
    pub fov: u64,
}

/// A position whose coordinates stay within `POS_LIMIT`.
pub open spec fn point_wf(p: Point) -> bool {
    -POS_LIMIT <= p.x <= POS_LIMIT && -POS_LIMIT <= p.y <= POS_LIMIT
}

impl Player {
    /// The heading is a binary angle, the field of view is wider than one
    /// unit and narrower than a half turn.
    pub open spec fn wf(&self) -> bool {
        &&& point_wf(self.pos)
        &&& self.a < TURN
        &&& 1 < self.fov < HALF_TURN
    }
}

/// Binary angle units the heading turns per pixel of mouse motion.
pub const MOUSE_TURN: i64 = 31;

/// The largest mouse motion in one frame, in pixels.
pub const MAX_MOUSE_DELTA: i64 = 1_000_000;

/// How far one frame's step moves the player, in sub-units.
pub const MOVE_SPEED: i64 = 100;

/// Half the edge of the player's square footprint, in sub-units.
pub const COLLISION_MARGIN: i64 = 100;

/// One frame's input: horizontal mouse motion and the movement keys held.
#[derive(Clone, Copy, Debug, PartialEq, Eq, Structural)]
pub struct Input {
    pub mouse_dx: i64,
    pub forward: bool,
    pub back: bool,
    pub left: bool,
    pub right: bool,
}

/// The point `(x, y)` lies in an empty cell of the grid.
pub open spec fn corner_free(m: Seq<Vec<char>>, block_size: int, x: int, y: int) -> bool {
    let cs = block_size * SUB;
    &&& 0 <= x
    &&& 0 <= y
    &&& y / cs < row_count(m)
    &&& x / cs < col_count(m)
    &&& cell(m, y / cs, x / cs) == EMPTY
}

/// All four corners of the square of half edge `margin` around `(x, y)`
/// lie in empty cells.
pub open spec fn position_free(m: Seq<Vec<char>>, block_size: int, x: int, y: int, margin: int) -> bool {
    &&& corner_free(m, block_size, x - margin, y - margin)
    &&& corner_free(m, block_size, x + margin, y - margin)
    &&& corner_free(m, block_size, x - margin, y + margin)
    &&& corner_free(m, block_size, x + margin, y + margin)
}

/// A step of `MOVE_SPEED` scaled by a fixed-point component, rounded
/// toward zero.
pub open spec fn step_along(v: int) -> int {
    if v >= 0 {
        MOVE_SPEED * v / (ONE as int)
    } else {
        -(MOVE_SPEED * (-v) / (ONE as int))
    }
}

/// The position after a step from `pos` along `angle` (backward where
/// `sign` is negative), kept only where the footprint there is free.
pub open spec fn moved(m: Seq<Vec<char>>, block_size: int, pos: Point, angle: int, sign: int) -> Point {
    let nx = pos.x + sign * step_along(cosine(angle));
    let ny = pos.y + sign * step_along(sine(angle));
    if position_free(m, block_size, nx, ny, COLLISION_MARGIN as int) {
        Point { x: nx as i64, y: ny as i64 }
    } else {
        pos
    }
}

/// The heading after turning by `mouse_dx` pixels, wrapped into a turn.
pub open spec fn turned(a: int, mouse_dx: int) -> int {
    (a + mouse_dx * MOUSE_TURN) % (TURN as int)
}

/// The camera after one frame's input: turned by the mouse, then moved
/// forward, back, left and right in that order for each key held.
pub open spec fn after_input(m: Seq<Vec<char>>, block_size: int, p: Player, input: Input) -> Player {
    let a = turned(p.a as int, input.mouse_dx as int);
    let ahead = if input.forward {
        moved(m, block_size, p.pos, a, 1)
    } else {
        p.pos
    };
    let behind = if input.back {
        moved(m, block_size, ahead, a, -1)
    } else {
        ahead
    };
    let leftward = if input.left {
        moved(m, block_size, behind, (a + TURN - QUARTER_TURN) % (TURN as int), 1)
    } else {
        behind
    };
    let rightward = if input.right {
        moved(m, block_size, leftward, (a + QUARTER_TURN) % (TURN as int), 1)
    } else {
        leftward
    };
    Player { pos: rightward, a: a as u64, fov: p.fov }
}

fn corner_free_of(m: &Maze, block_size: usize, x: i64, y: i64) -> (r: bool)
    requires
        grid_wf(m@, block_size as int),
    ensures
        r == corner_free(m@, block_size as int, x as int, y as int),
{
    if x < 0 || y < 0 {
        return false;
    }
    let cs: u64 = block_size as u64 * 10;
    let i: u64 = (x as u64) / cs;
    let j: u64 = (y as u64) / cs;
    if j >= m.len() as u64 || i >= m[0].len() as u64 {
        return false;
    }
    m[j as usize][i as usize] == EMPTY
}

/// Whether the square of half edge `margin` around `(x, y)` lies in empty
/// cells at all four corners.
pub fn is_valid_position(x: i64, y: i64, maze: &Maze, block_size: usize, margin: i64) -> (r: bool)
    requires
        grid_wf(maze@, block_size as int),
        -2 * POS_LIMIT <= x <= 2 * POS_LIMIT,
        -2 * POS_LIMIT <= y <= 2 * POS_LIMIT,
        0 <= margin <= POS_LIMIT,
    ensures
        r == position_free(maze@, block_size as int, x as int, y as int, margin as int),
{
    corner_free_of(maze, block_size, x - margin, y - margin) && corner_free_of(
        maze,
        block_size,
        x + margin,
        y - margin,
    ) && corner_free_of(maze, block_size, x - margin, y + margin) && corner_free_of(
        maze,
        block_size,
        x + margin,
        y + margin,
    )
}

/// A free position lies within the grid, and so within `POS_LIMIT`.
proof fn lemma_free_is_wf(m: Seq<Vec<char>>, block_size: int, x: int, y: int)
    requires
        grid_wf(m, block_size),
        position_free(m, block_size, x, y, COLLISION_MARGIN as int),
    ensures
        -POS_LIMIT <= x <= POS_LIMIT,
        -POS_LIMIT <= y <= POS_LIMIT,
{
    let cs = block_size * SUB;
    let xx = x + COLLISION_MARGIN;
    let yy = y + COLLISION_MARGIN;
    lemma_fundamental_div_mod(xx, cs);
    lemma_fundamental_div_mod(yy, cs);
    assert(xx < MAX_CELLS * cs) by (nonlinear_arith)
        requires
            xx == cs * (xx / cs) + xx % cs,
            xx % cs < cs,
            xx / cs < MAX_CELLS,
            cs > 0,
    ;
    assert(yy < MAX_CELLS * cs) by (nonlinear_arith)
        requires
            yy == cs * (yy / cs) + yy % cs,
            yy % cs < cs,
            yy / cs < MAX_CELLS,
            cs > 0,
    ;
    assert(MAX_CELLS * cs <= 10000 * 10000) by (nonlinear_arith)
        requires
            cs == block_size * SUB,
            block_size <= 1000,
    ;
}

fn step_of(v: i64) -> (r: i64)
    requires
        -ONE <= v <= ONE,
    ensures
        r == step_along(v as int),
        -MOVE_SPEED <= r <= MOVE_SPEED,
{
    if v >= 0 {
        assert(MOVE_SPEED * v / (ONE as int) <= MOVE_SPEED) by (nonlinear_arith)
            requires
                0 <= v <= ONE,
        ;
        assert(0 <= MOVE_SPEED * v / (ONE as int)) by (nonlinear_arith)
            requires
                0 <= v,
        ;
        MOVE_SPEED * v / ONE
    } else {
        assert(MOVE_SPEED * (-v) / (ONE as int) <= MOVE_SPEED) by (nonlinear_arith)
            requires
                0 <= -v <= ONE,
        ;
        assert(0 <= MOVE_SPEED * (-v) / (ONE as int)) by (nonlinear_arith)
            requires
                0 <= -v,
        ;
        -(MOVE_SPEED * (-v) / ONE)
    }
}

fn try_move(m: &Maze, block_size: usize, pos: Point, angle: u64, sign: i64) -> (r: Point)
    requires
        grid_wf(m@, block_size as int),
        point_wf(pos),
        angle < TURN,
        sign == 1 || sign == -1,
    ensures
        r == moved(m@, block_size as int, pos, angle as int, sign as int),
        point_wf(r),
{
    let sx = step_of(cos_fx(angle));
    let sy = step_of(sin_fx(angle));
    let nx: i64 = pos.x + sign * sx;
    let ny: i64 = pos.y + sign * sy;
    if is_valid_position(nx, ny, m, block_size, COLLISION_MARGIN) {
        proof {
            lemma_free_is_wf(m@, block_size as int, nx as int, ny as int);
        }
        Point { x: nx, y: ny }
    } else {
        pos
    }
}

/// Applies one frame's input to the camera: turns the heading by the
/// mouse motion, then takes a step for each movement key held (forward,
/// back, strafe left, strafe right), each only where the player's
/// footprint would lie in empty cells.
pub fn process_events(input: &Input, player: &mut Player, maze: &Maze, block_size: usize)
    requires
        old(player).wf(),
        grid_wf(maze@, block_size as int),
        -MAX_MOUSE_DELTA <= input.mouse_dx <= MAX_MOUSE_DELTA,
    ensures
        *final(player) == after_input(maze@, block_size as int, *old(player), *input),
        final(player).wf(),
{
    let shifted: i64 = player.a as i64 + 1000 * (TURN as i64) + input.mouse_dx * MOUSE_TURN;
    let a: u64 = (shifted as u64) % TURN;
    proof {
        let t = player.a + input.mouse_dx * MOUSE_TURN;
        lemma_fundamental_div_mod(t, TURN as int);
        lemma_fundamental_div_mod_converse(shifted as int, TURN as int, t / (TURN as int) + 1000, t % (TURN as int));
    }
    player.a = a;
    if input.forward {
        player.pos = try_move(maze, block_size, player.pos, a, 1);
    }
    if input.back {
        player.pos = try_move(maze, block_size, player.pos, a, -1);
    }
    if input.left {
        player.pos = try_move(maze, block_size, player.pos, (a + TURN - QUARTER_TURN) % TURN, 1);
    }
    if input.right {
        player.pos = try_move(maze, block_size, player.pos, (a + QUARTER_TURN) % TURN, 1);
    }
}

} // verus!
