use vstd::prelude::*;

verus! {

/// Positions are fixed-point: one grid cell is `UNIT` position units.
pub const UNIT: i64 = 1024;

/// Largest magnitude of a position coordinate.
pub const MAX_COORD: i64 = 0x100_0000;

/// Largest accepted pixel edge of one cell.
pub const MAX_BLOCK: usize = 4096;

/// The walkable tile.
pub const EMPTY: char = ' ';

/// The walkable tile that wins the level.
pub const GOAL: char = 'g';

/// Every other symbol is a wall.
pub open spec fn is_wall_tile(t: char) -> bool {
    t != EMPTY && t != GOAL
}

/// The rows of a grid as sequences of tiles.
pub open spec fn grid_of(maze: &Vec<Vec<char>>) -> Seq<Seq<char>> {
    maze@.map_values(|row: Vec<char>| row@)
}

/// The tile in row `row`, column `col`; `None` outside the grid.
pub open spec fn tile_at(g: Seq<Seq<char>>, row: int, col: int) -> Option<char> {
    if 0 <= row < g.len() && 0 <= col < g[row].len() {
        Some(g[row][col])
    } else {
        None
    }
}

/// The cell index holding a position coordinate (floor division).
pub open spec fn cell_of(p: int) -> int {
    p / (UNIT as int)
}

/// A position is blocked when a coordinate is beyond `MAX_COORD`, or its cell
/// lies outside the grid or holds a wall.
pub open spec fn blocked(g: Seq<Seq<char>>, x: int, y: int) -> bool {
    if !(-MAX_COORD <= x <= MAX_COORD && -MAX_COORD <= y <= MAX_COORD) {
        true
    } else {
        match tile_at(g, cell_of(y), cell_of(x)) {
            None => true,
            Some(t) => is_wall_tile(t),
        }
    }
}

/// A position is on the goal when its coordinates are within `MAX_COORD` and
/// its cell holds the goal tile.
pub open spec fn on_goal(g: Seq<Seq<char>>, x: int, y: int) -> bool {
    &&& -MAX_COORD <= x <= MAX_COORD
    &&& -MAX_COORD <= y <= MAX_COORD
    &&& tile_at(g, cell_of(y), cell_of(x)) == Some(GOAL)
}

/// Validity of a block size.
pub open spec fn block_ok(block_size: usize) -> bool {
    0 < block_size <= MAX_BLOCK
}

proof fn lemma_pixel_cell(p: int, bs: int)
    requires
        0 <= p,
        0 < bs,
    ensures
        (p * bs / (UNIT as int)) / bs == p / (UNIT as int),
{
    let u = UNIT as int;
    let q = p / u;
    let r = p % u;
    assert(p == q * u + r && 0 <= r < u);
    assert(p * bs == (q * bs) * u + r * bs) by (nonlinear_arith)
        requires p == q * u + r;
    assert(0 <= r * bs < u * bs) by (nonlinear_arith)
        requires 0 <= r < u, 0 < bs;
    let k = (r * bs) / u;
    assert(0 <= k < bs) by (nonlinear_arith)
        requires k == (r * bs) / u, 0 <= r * bs < u * bs, u > 0;
    assert(p * bs / u == q * bs + k) by (nonlinear_arith)
        requires p * bs == (q * bs) * u + r * bs, k == (r * bs) / u, u > 0, 0 <= r * bs;
    assert((q * bs + k) / bs == q) by (nonlinear_arith)
        requires 0 <= k < bs, bs > 0, q >= 0;
}

/// The cell index of a non-negative coordinate, computed the way the ray
/// caster maps it: first to a pixel, then to a cell.
fn cell_index(p: i64, block_size: usize) -> (c: usize)
    requires
        0 <= p <= MAX_COORD,
        block_ok(block_size),
    ensures
        c as int == cell_of(p as int),
{
    let bs = block_size as i64;
    assert(0 <= p * bs <= MAX_COORD * (MAX_BLOCK as int)) by (nonlinear_arith)
        requires 0 <= p <= MAX_COORD, 0 < bs <= MAX_BLOCK;
    let pixel = p * bs / UNIT;
    proof {
        lemma_pixel_cell(p as int, bs as int);
    }
    (pixel / bs) as usize
}

/// Whether `(x, y)` lies in a wall cell or outside the grid.
pub fn is_collision(x: i64, y: i64, maze: &Vec<Vec<char>>, block_size: usize) -> (r: bool)
    requires
        block_ok(block_size),
    ensures
        r == blocked(grid_of(maze), x as int, y as int),
{
    if x < 0 || y < 0 || x > MAX_COORD || y > MAX_COORD {
        return true;
    }
    let maze_x = cell_index(x, block_size);
    let maze_y = cell_index(y, block_size);
    if maze_y >= maze.len() || maze_x >= maze[maze_y].len() {
        return true;
    }
    let t = maze[maze_y][maze_x];
    t != EMPTY && t != GOAL
}

/// Whether `(x, y)` lies in a goal cell.
pub fn has_won(x: i64, y: i64, maze: &Vec<Vec<char>>, block_size: usize) -> (r: bool)
    requires
        block_ok(block_size),
    ensures
        r == on_goal(grid_of(maze), x as int, y as int),
{
    if x < 0 || y < 0 || x > MAX_COORD || y > MAX_COORD {
        return false;
    }
    let maze_x = cell_index(x, block_size);
    let maze_y = cell_index(y, block_size);
    if maze_y >= maze.len() || maze_x >= maze[maze_y].len() {
        return false;
    }
    maze[maze_y][maze_x] == GOAL
}

} // verus!
