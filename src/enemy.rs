//! Points of the world plane and enemies, the billboard sprites that
//! stand on them.

use vstd::prelude::*;

verus! {

/// A point of the world plane, in sub-units.
#[derive(Clone, Copy, Debug, PartialEq, Eq, Structural)]
pub struct Point {
    pub x: i64,
    pub y: i64,
}

/// An enemy: a sprite at a position, drawn with the enemy texture.
#[derive(Clone, Copy, Debug, PartialEq, Eq, Structural)]
pub struct Enemy {
    pub pos: Point,
    pub texture_key: char,
}

/// The texture key of enemies.
pub const ENEMY_KEY: char = 'e';

/// The texture key of the finish marker.
pub const FINISH_KEY: char = 'w';

/// The enemy standing at `(x, y)`.
pub open spec fn enemy_at(x: int, y: int) -> Enemy {
    Enemy { pos: Point { x: x as i64, y: y as i64 }, texture_key: ENEMY_KEY }
}

impl Enemy {
    /// An enemy at `(x, y)`, with the enemy texture key.
    pub fn new(x: i64, y: i64) -> (r: Enemy)
        ensures
            r == enemy_at(x as int, y as int),
    {
        Enemy { pos: Point { x, y }, texture_key: ENEMY_KEY }
    }
}

} // verus!
