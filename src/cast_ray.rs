use vstd::prelude::*;
use crate::angle::{TrigTable, TRIG_ONE, normalize_angle, wrap_spec};
use crate::color::Color;
use crate::framebuffer::Framebuffer;
use crate::grid::{EMPTY, UNIT, MAX_COORD, block_ok, grid_of, tile_at};
use crate::player::Player;

verus! {

/// Reference width and height of a wall texture, in texels.
pub const TEXTURE_SIZE: usize = 512;

/// Largest number of rows, and of columns in the first row, of a grid that
/// rays are cast in.
pub const MAX_CELLS: usize = 0x4000;

/// The symbol reported for a probe that left the grid.
pub const BOUNDARY: char = '#';

/// The result of one ray cast: steps marched, the tile struck and the
/// texture column at the point struck.
#[derive(Debug, Clone, Copy, PartialEq, Eq, Structural)]
pub struct Intersect {
    pub distance: usize,
    pub impact: char,
    pub tx: usize,
}

/// Sizes of a grid that rays can be cast in.
pub open spec fn grid_size_ok(g: Seq<Seq<char>>) -> bool {
    g.len() <= MAX_CELLS && (g.len() > 0 ==> g[0].len() <= MAX_CELLS)
}

/// The number of unit steps after which a ray stops though it struck nothing.
pub open spec fn march_limit(g: Seq<Seq<char>>, bs: int) -> int {
    if g.len() == 0 {
        0
    } else {
        (g.len() + g[0].len()) * bs
    }
}

/// The pixel coordinate of a probe, times `UNIT * TRIG_ONE`: coordinate `p`
/// of the start scaled to pixels, plus `d` unit steps along direction
/// component `c`.
pub open spec fn ray_num(p: int, c: int, d: int, bs: int) -> int {
    p * bs * (TRIG_ONE as int) + d * c * (UNIT as int)
}

/// The pixel whose scaled coordinate is `n` (floor).
pub open spec fn pixel_of(n: int) -> int {
    n / ((UNIT * TRIG_ONE) as int)
}

/// The tile under a probe; `None` where it lies outside the grid.
pub open spec fn probe_tile(g: Seq<Seq<char>>, nx: int, ny: int, bs: int) -> Option<char> {
    if nx < 0 || ny < 0 {
        None
    } else {
        tile_at(g, pixel_of(ny) / bs, pixel_of(nx) / bs)
    }
}

/// A probe stops the march unless it lies on an empty tile.
pub open spec fn probe_hits(g: Seq<Seq<char>>, nx: int, ny: int, bs: int) -> bool {
    probe_tile(g, nx, ny, bs) != Some(EMPTY)
}

/// Whether the probe `d` steps from `(x, y)` along `(c, s)` stops the march.
pub open spec fn ray_hits(g: Seq<Seq<char>>, x: int, y: int, c: int, s: int, bs: int, d: int) -> bool {
    probe_hits(g, ray_num(x, c, d, bs), ray_num(y, s, d, bs), bs)
}

/// The symbol a probe reports.
pub open spec fn impact_of(g: Seq<Seq<char>>, nx: int, ny: int, bs: int) -> char {
    match probe_tile(g, nx, ny, bs) {
        None => BOUNDARY,
        Some(t) => t,
    }
}

/// The texture column of a probe: the offset within its cell along x where
/// it lies strictly inside `(1, bs - 1)`, else along y, scaled to
/// `TEXTURE_SIZE`.
pub open spec fn tex_column(nx: int, ny: int, bs: int) -> int {
    if nx < 0 || ny < 0 {
        0
    } else {
        let hx = pixel_of(nx) % bs;
        let hy = pixel_of(ny) % bs;
        let m = if 1 < hx && hx < bs - 1 {
            hx
        } else {
            hy
        };
        m * (TEXTURE_SIZE as int) / bs
    }
}

/// The first step at which the march stops: every earlier probe lies on an
/// empty tile, and this one does not or is the last allowed.
pub open spec fn first_stop(g: Seq<Seq<char>>, x: int, y: int, c: int, s: int, bs: int, d: int) -> bool {
    &&& 0 <= d <= march_limit(g, bs)
    &&& forall|e: int| 0 <= e < d ==> !#[trigger] ray_hits(g, x, y, c, s, bs, e)
    &&& ray_hits(g, x, y, c, s, bs, d) || d == march_limit(g, bs)
}

/// Bound on a scaled probe coordinate.
pub const PROBE_MAX: i64 = 0x10_0000_0000_0000;

/// The step at which the march from `(x, y)` along `(c, s)` stops.
pub open spec fn march(g: Seq<Seq<char>>, x: int, y: int, c: int, s: int, bs: int) -> int {
    choose|d: int| first_stop(g, x, y, c, s, bs, d)
}

/// The march stops at one step only.
pub proof fn lemma_first_stop_unique(g: Seq<Seq<char>>, x: int, y: int, c: int, s: int, bs: int, d: int)
    requires
        first_stop(g, x, y, c, s, bs, d),
    ensures
        march(g, x, y, c, s, bs) == d,
{
    let e = march(g, x, y, c, s, bs);
    assert(first_stop(g, x, y, c, s, bs, e));
    if e < d {
        assert(!ray_hits(g, x, y, c, s, bs, e));
    } else if d < e {
        assert(!ray_hits(g, x, y, c, s, bs, d));
    }
}

/// Moving the start of a ray `k` whole steps along its direction, with
/// `0 < k <= d` where `d` is the step at which the march from the old start
/// struck a tile, makes the march from the new start stop after exactly
/// `d - k` steps: strictly fewer.
pub proof fn lemma_closer_start_shorter_ray(
    g: Seq<Seq<char>>,
    x0: int,
    y0: int,
    x1: int,
    y1: int,
    c: int,
    s: int,
    bs: int,
    d: int,
    k: int,
)
    requires
        0 < bs,
        0 < k <= d,
        x1 * bs * (TRIG_ONE as int) == x0 * bs * (TRIG_ONE as int) + k * c * (UNIT as int),
        y1 * bs * (TRIG_ONE as int) == y0 * bs * (TRIG_ONE as int) + k * s * (UNIT as int),
        first_stop(g, x0, y0, c, s, bs, d),
        ray_hits(g, x0, y0, c, s, bs, d),
    ensures
        first_stop(g, x1, y1, c, s, bs, d - k),
        forall|e: int| first_stop(g, x1, y1, c, s, bs, e) ==> e == d - k,
        d - k < d,
{
    assert forall|e: int| #![trigger ray_hits(g, x1, y1, c, s, bs, e)]
        ray_hits(g, x1, y1, c, s, bs, e) == ray_hits(g, x0, y0, c, s, bs, e + k) by {
        assert(ray_num(x1, c, e, bs) == ray_num(x0, c, e + k, bs)) by (nonlinear_arith)
            requires
                x1 * bs * (TRIG_ONE as int) == x0 * bs * (TRIG_ONE as int) + k * c * (UNIT as int),
        ;
        assert(ray_num(y1, s, e, bs) == ray_num(y0, s, e + k, bs)) by (nonlinear_arith)
            requires
                y1 * bs * (TRIG_ONE as int) == y0 * bs * (TRIG_ONE as int) + k * s * (UNIT as int),
        ;
    }
    assert forall|e: int| 0 <= e < d - k implies !#[trigger] ray_hits(g, x1, y1, c, s, bs, e) by {
        assert(!ray_hits(g, x0, y0, c, s, bs, e + k));
    }
    assert(ray_hits(g, x1, y1, c, s, bs, d - k));
    assert forall|e: int| first_stop(g, x1, y1, c, s, bs, e) implies e == d - k by {
        if e < d - k {
            assert(ray_hits(g, x1, y1, c, s, bs, e) || e == march_limit(g, bs));
        } else if e > d - k {
            assert(!ray_hits(g, x1, y1, c, s, bs, d - k));
        }
    }
}

/// The scaled probe coordinate `d` steps from `p` along `c`.
fn probe_num(p: i64, c: i64, d: usize, block_size: usize) -> (n: i64)
    requires
        -MAX_COORD <= p <= MAX_COORD,
        -TRIG_ONE <= c <= TRIG_ONE,
        block_ok(block_size),
        d <= 2 * MAX_CELLS * 4096,
    ensures
        n == ray_num(p as int, c as int, d as int, block_size as int),
        n <= PROBE_MAX,
{
    let bs = block_size as i64;
    let di = d as i64;
    assert(-MAX_COORD * 4096 * TRIG_ONE <= p * bs * TRIG_ONE <= MAX_COORD * 4096 * TRIG_ONE)
        by (nonlinear_arith)
        requires -MAX_COORD <= p <= MAX_COORD, 0 < bs <= 4096;
    assert(-(2 * MAX_CELLS * 4096) * TRIG_ONE * UNIT <= di * c * UNIT <= (2 * MAX_CELLS * 4096)
        * TRIG_ONE * UNIT) by (nonlinear_arith)
        requires 0 <= di <= 2 * MAX_CELLS * 4096, -TRIG_ONE <= c <= TRIG_ONE;
    p * bs * TRIG_ONE + di * c * UNIT
}

/// The tile under a probe, as `probe_tile` gives it.
fn probe_tile_at(maze: &Vec<Vec<char>>, nx: i64, ny: i64, block_size: usize) -> (t: Option<char>)
    requires
        block_ok(block_size),
        nx <= PROBE_MAX,
        ny <= PROBE_MAX,
    ensures
        t == probe_tile(grid_of(maze), nx as int, ny as int, block_size as int),
{
    if nx < 0 || ny < 0 {
        return None;
    }
    let bs = block_size as i64;
    let i = (nx / (UNIT * TRIG_ONE) / bs) as usize;
    let j = (ny / (UNIT * TRIG_ONE) / bs) as usize;
    if j < maze.len() && i < maze[j].len() {
        assert(grid_of(maze)[j as int] == maze@[j as int]@);
        Some(maze[j][i])
    } else {
        None
    }
}

/// The texture column of a probe, as `tex_column` gives it.
fn probe_column(nx: i64, ny: i64, block_size: usize) -> (tx: usize)
    requires
        block_ok(block_size),
        nx <= PROBE_MAX,
        ny <= PROBE_MAX,
    ensures
        tx == tex_column(nx as int, ny as int, block_size as int),
        tx < TEXTURE_SIZE,
{
    if nx < 0 || ny < 0 {
        return 0;
    }
    let bs = block_size as i64;
    let hx = nx / (UNIT * TRIG_ONE) % bs;
    let hy = ny / (UNIT * TRIG_ONE) % bs;
    let m = if 1 < hx && hx < bs - 1 {
        hx
    } else {
        hy
    };
    assert((m as int) * 512 / (bs as int) < 512) by (nonlinear_arith)
        requires m < bs, bs > 0;
    (m * 512 / bs) as usize
}

/// Marches a ray from the player's position along `angle` in unit pixel
/// steps until it meets a tile that is not empty, leaves the grid, or has
/// gone `march_limit` steps; with `draw_line` each probe is plotted.
pub fn cast_rays(
    framebuffer: &mut Framebuffer,
    maze: &Vec<Vec<char>>,
    player: &Player,
    table: &TrigTable,
    angle: i64,
    block_size: usize,
    draw_line: bool,
) -> (r: Intersect)
    requires
        old(framebuffer).wf(),
        table.wf(),
        player.wf(),
        block_ok(block_size),
        grid_size_ok(grid_of(maze)),
    ensures
        final(framebuffer).wf(),
        final(framebuffer).width == old(framebuffer).width,
        final(framebuffer).height == old(framebuffer).height,
        !draw_line ==> *final(framebuffer) == *old(framebuffer),
        ({
            let g = grid_of(maze);
            let a = wrap_spec(angle as int);
            let (x, y) = (player.pos.x as int, player.pos.y as int);
            let (c, s) = (table.cos@[a] as int, table.sin@[a] as int);
            let bs = block_size as int;
            let d = r.distance as int;
            &&& first_stop(g, x, y, c, s, bs, d)
            &&& r.impact == impact_of(g, ray_num(x, c, d, bs), ray_num(y, s, d, bs), bs)
            &&& r.tx == tex_column(ray_num(x, c, d, bs), ray_num(y, s, d, bs), bs)
        }),
        r.tx < TEXTURE_SIZE,
{
    let ghost g = grid_of(maze);
    let a = normalize_angle(angle);
    let c = table.cos_at(a);
    let s = table.sin_at(a);
    let limit: usize = if maze.len() == 0 {
        0
    } else {
        assert(g[0] == maze@[0]@);
        let n = maze.len() + maze[0].len();
        assert(n * block_size <= 2 * MAX_CELLS * 4096) by (nonlinear_arith)
            requires n <= 2 * MAX_CELLS, block_size <= 4096;
        (maze.len() + maze[0].len()) * block_size
    };
    assert(limit == march_limit(g, block_size as int));
    let mut d: usize = 0;
    loop
        invariant
            framebuffer.wf(),
            framebuffer.width == old(framebuffer).width,
            framebuffer.height == old(framebuffer).height,
            !draw_line ==> *framebuffer == *old(framebuffer),
            table.wf(),
            player.wf(),
            block_ok(block_size),
            -TRIG_ONE <= c <= TRIG_ONE,
            -TRIG_ONE <= s <= TRIG_ONE,
            a == wrap_spec(angle as int),
            c == table.cos@[a as int],
            s == table.sin@[a as int],
            limit == march_limit(g, block_size as int),
            limit <= 2 * MAX_CELLS * 4096,
            d <= limit,
            g == grid_of(maze),
            forall|e: int|
                0 <= e < d ==> !#[trigger] ray_hits(
                    g,
                    player.pos.x as int,
                    player.pos.y as int,
                    c as int,
                    s as int,
                    block_size as int,
                    e,
                ),
        decreases limit - d,
    {
        let nx = probe_num(player.pos.x, c, d, block_size);
        let ny = probe_num(player.pos.y, s, d, block_size);
        if draw_line && nx >= 0 && ny >= 0 {
            assert(nx as int / (UNIT * TRIG_ONE) as int <= 0x1000_0000) by (nonlinear_arith)
                requires 0 <= nx <= PROBE_MAX;
            assert(ny as int / (UNIT * TRIG_ONE) as int <= 0x1000_0000) by (nonlinear_arith)
                requires 0 <= ny <= PROBE_MAX;
            let x = (nx / (UNIT * TRIG_ONE)) as usize;
            let y = (ny / (UNIT * TRIG_ONE)) as usize;
            framebuffer.point_with_color(x, y, Color::from_hex(0xFF33DD));
        }
        let t = probe_tile_at(maze, nx, ny, block_size);
        let hit = match t {
            Some(k) => k != EMPTY,
            None => true,
        };
        if hit || d == limit {
            let impact = match t {
                Some(k) => k,
                None => BOUNDARY,
            };
            let tx = probe_column(nx, ny, block_size);
            proof {
                let (x, y) = (player.pos.x as int, player.pos.y as int);
                let bs = block_size as int;
                assert(hit == ray_hits(g, x, y, c as int, s as int, bs, d as int));
                assert(first_stop(g, x, y, c as int, s as int, bs, d as int));
            }
            return Intersect { distance: d, impact, tx };
        }
        d += 1;
    }
}

} // verus!
