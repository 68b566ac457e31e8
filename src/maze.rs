//! The grid model: a rectangular array of cell symbols, where `' '` is an
//! empty cell and any other symbol a wall, and the reading of a level's
//! text into a grid, its enemies and its finish marker.

use vstd::prelude::*;
use crate::enemy::{Enemy, Point, enemy_at};

verus! {

/// Rows of cell symbols, indexed `[row][col]`.
pub type Maze = Vec<Vec<char>>;

/// The symbol of an empty cell.
pub const EMPTY: char = ' ';

/// Edge length of a cell, in world units, for levels read by `load_maze`.
pub const LEVEL_BLOCK_SIZE: i64 = 100;

/// The largest number of rows, and of cells in a row, of a level.
pub const MAX_CELLS: usize = 10000;

/// All rows have the same, non-zero, length.
pub open spec fn rectangular(m: Seq<Vec<char>>) -> bool {
    &&& m.len() > 0
    &&& m[0]@.len() > 0
    &&& forall|j: int| 0 <= j < m.len() ==> (#[trigger] m[j])@.len() == m[0]@.len()
}

/// The number of rows of a grid.
pub open spec fn row_count(m: Seq<Vec<char>>) -> int {
    m.len() as int
}

/// The number of columns of a rectangular grid.
pub open spec fn col_count(m: Seq<Vec<char>>) -> int {
    m[0]@.len() as int
}

/// The symbol at `[row][col]`.
pub open spec fn cell(m: Seq<Vec<char>>, row: int, col: int) -> char {
    m[row]@[col]
}

/// Tests whether every row of `m` has the length of the first one, and
/// that length is not zero.
pub fn is_rectangular(m: &Maze) -> (r: bool)
    ensures
        r == rectangular(m@),
{
    if m.len() == 0 || m[0].len() == 0 {
        return false;
    }
    let w = m[0].len();
    let mut j: usize = 0;
    while j < m.len()
        invariant
            0 <= j <= m@.len(),
            w == m@[0]@.len(),
            forall|k: int| 0 <= k < j ==> (#[trigger] m@[k])@.len() == w,
        decreases m@.len() - j,
    {
        if m[j].len() != w {
            return false;
        }
        j = j + 1;
    }
    true
}

/// An enemy spawn mark.
pub open spec fn is_enemy_mark(c: char) -> bool {
    c == 'e' || c == 'E'
}

/// A finish mark.
pub open spec fn is_finish_mark(c: char) -> bool {
    c == 'w' || c == 'W'
}

/// The grid symbol that a level's character leaves: marks become empty cells.
pub open spec fn grid_symbol(c: char) -> char {
    if is_enemy_mark(c) || is_finish_mark(c) {
        EMPTY
    } else {
        c
    }
}

/// The enemy marks among the first `n` characters of row `j`, as `(row, col)`.
pub open spec fn enemy_marks_in_row(row: Seq<char>, j: int, n: int) -> Seq<(int, int)>
    decreases n,
{
    if n <= 0 {
        seq![]
    } else {
        let prev = enemy_marks_in_row(row, j, n - 1);
        if is_enemy_mark(row[n - 1]) {
            prev.push((j, n - 1))
        } else {
            prev
        }
    }
}

/// The enemy marks of the first `n` rows, in reading order.
pub open spec fn enemy_marks(lines: Seq<Vec<char>>, n: int) -> Seq<(int, int)>
    decreases n,
{
    if n <= 0 {
        seq![]
    } else {
        enemy_marks(lines, n - 1) + enemy_marks_in_row(lines[n - 1]@, n - 1, lines[n - 1]@.len() as int)
    }
}

/// The last finish mark among the first `n` characters of row `j`.
pub open spec fn finish_mark_in_row(row: Seq<char>, j: int, n: int) -> Option<(int, int)>
    decreases n,
{
    if n <= 0 {
        None
    } else if is_finish_mark(row[n - 1]) {
        Some((j, n - 1))
    } else {
        finish_mark_in_row(row, j, n - 1)
    }
}

/// The last finish mark of the first `n` rows, in reading order.
pub open spec fn finish_mark(lines: Seq<Vec<char>>, n: int) -> Option<(int, int)>
    decreases n,
{
    if n <= 0 {
        None
    } else {
        match finish_mark_in_row(lines[n - 1]@, n - 1, lines[n - 1]@.len() as int) {
            Some(p) => Some(p),
            None => finish_mark(lines, n - 1),
        }
    }
}

/// The world coordinate, in sub-units, of the center of cell `k` of a level.
pub open spec fn level_center(k: int) -> int {
    k * LEVEL_BLOCK_SIZE * crate::fixed::SUB + LEVEL_BLOCK_SIZE * crate::fixed::SUB / 2
}

/// The enemies standing at the centers of the given `(row, col)` cells.
pub open spec fn enemies_at(marks: Seq<(int, int)>) -> Seq<Enemy> {
    marks.map_values(|p: (int, int)| enemy_at(level_center(p.1), level_center(p.0)))
}

fn center_of(k: usize) -> (r: i64)
    requires
        k <= MAX_CELLS,
    ensures
        r == level_center(k as int),
{
    (k as i64) * 1000 + 500
}

/// Reads a level's lines: each character becomes a cell, except enemy marks
/// (`e`, `E`) and finish marks (`w`, `W`), which leave an empty cell and
/// place an enemy, or the finish, at the cell's center. Where there are
/// several finish marks the last one counts.
pub fn load_maze(lines: &Vec<Vec<char>>) -> (r: (Maze, Vec<Enemy>, Option<Point>))
    requires
        lines@.len() <= MAX_CELLS,
        forall|j: int| 0 <= j < lines@.len() ==> (#[trigger] lines@[j])@.len() <= MAX_CELLS,
    ensures
        r.0@.len() == lines@.len(),
        forall|j: int|
            0 <= j < lines@.len() ==> (#[trigger] r.0@[j])@.len() == lines@[j]@.len(),
        forall|j: int, i: int|
            0 <= j < lines@.len() && 0 <= i < lines@[j]@.len() ==> #[trigger] r.0@[j]@[i]
                == grid_symbol(lines@[j]@[i]),
        r.1@ == enemies_at(enemy_marks(lines@, lines@.len() as int)),
        match finish_mark(lines@, lines@.len() as int) {
            Some(p) => r.2 == Some(Point { x: level_center(p.1) as i64, y: level_center(p.0) as i64 }),
            None => r.2 is None,
        },
{
    let mut maze: Maze = Vec::new();
    let mut enemies: Vec<Enemy> = Vec::new();
    let mut finish: Option<Point> = None;
    let mut j: usize = 0;
    while j < lines.len()
        invariant
            0 <= j <= lines@.len(),
            lines@.len() <= MAX_CELLS,
            forall|k: int| 0 <= k < lines@.len() ==> (#[trigger] lines@[k])@.len() <= MAX_CELLS,
            maze@.len() == j,
            forall|k: int| 0 <= k < j ==> (#[trigger] maze@[k])@.len() == lines@[k]@.len(),
            forall|k: int, i: int|
                0 <= k < j && 0 <= i < lines@[k]@.len() ==> #[trigger] maze@[k]@[i]
                    == grid_symbol(lines@[k]@[i]),
            enemies@ == enemies_at(enemy_marks(lines@, j as int)),
            match finish_mark(lines@, j as int) {
                Some(p) => finish == Some(Point { x: level_center(p.1) as i64, y: level_center(p.0) as i64 }),
                None => finish is None,
            },
        decreases lines@.len() - j,
    {
        let line = &lines[j];
        let mut row: Vec<char> = Vec::new();
        let mut i: usize = 0;
        let ghost before = enemies@;
        let ghost finish_before = finish;
        while i < line.len()
            invariant
                0 <= i <= line@.len(),
                line == lines@[j as int],
                j < lines@.len(),
                line@.len() <= MAX_CELLS,
                j <= MAX_CELLS,
                row@.len() == i,
                forall|k: int| 0 <= k < i ==> #[trigger] row@[k] == grid_symbol(line@[k]),
                before == enemies_at(enemy_marks(lines@, j as int)),
                enemies@ == before + enemies_at(enemy_marks_in_row(line@, j as int, i as int)),
                match finish_mark_in_row(line@, j as int, i as int) {
                    Some(p) => finish == Some(Point { x: level_center(p.1) as i64, y: level_center(p.0) as i64 }),
                    None => finish == finish_before,
                },
            decreases line@.len() - i,
        {
            let c = line[i];
            if c == 'e' || c == 'E' {
                enemies.push(Enemy::new(center_of(i), center_of(j)));
                proof {
                    let m = enemy_marks_in_row(line@, j as int, i as int);
                    assert(enemy_marks_in_row(line@, j as int, i + 1) == m.push((j as int, i as int)));
                    assert(enemies_at(m.push((j as int, i as int))) =~= enemies_at(m).push(
                        enemy_at(level_center(i as int), level_center(j as int)),
                    ));
                    assert(enemies@ =~= before + enemies_at(enemy_marks_in_row(line@, j as int, i + 1)));
                }
                row.push(EMPTY);
            } else if c == 'w' || c == 'W' {
                finish = Some(Point { x: center_of(i), y: center_of(j) });
                row.push(EMPTY);
            } else {
                row.push(c);
            }
            proof {
                if !(c == 'e' || c == 'E') {
                    assert(enemy_marks_in_row(line@, j as int, i + 1) == enemy_marks_in_row(
                        line@,
                        j as int,
                        i as int,
                    ));
                }
            }
            i = i + 1;
        }
        proof {
            assert(line@.len() == i);
            let a = enemy_marks(lines@, j as int);
            let b = enemy_marks_in_row(line@, j as int, i as int);
            assert(enemy_marks(lines@, j + 1) == a + b);
            assert(enemies_at(a + b) =~= enemies_at(a) + enemies_at(b));
        }
        maze.push(row);
        j = j + 1;
    }
    (maze, enemies, finish)
}

} // verus!
