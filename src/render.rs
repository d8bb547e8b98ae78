use vstd::prelude::*;
use crate::angle::{TrigTable, TURN, wrap_spec};
use crate::cast_ray::{
    MAX_CELLS,
    TEXTURE_SIZE,
    grid_size_ok,
    cast_rays,
    march,
    ray_num,
    tex_column,
    lemma_first_stop_unique,
};
use crate::color::{Color, color_of};
use crate::framebuffer::{Framebuffer, MAX_SCREEN, packed, scaled_texel, lemma_index_distinct};
use crate::grid::{UNIT, MAX_COORD, grid_of, tile_at};
use crate::player::Player;
use crate::sprite::{Sprite, sprite_pixel};
use crate::texture::Texture;

verus! {

/// Pixel edge of one cell in the first-person view.
pub const BLOCK_SIZE: usize = 100;

/// Distance from the eye to the projection plane, in pixels.
pub const PROJECTION_DISTANCE: usize = 100;

/// How many times smaller the minimap draws a cell than the view does.
pub const MINI_MAP_SCALE: usize = 8;

/// Gap between the minimap and the framebuffer's right and bottom edges.
pub const MINI_MAP_MARGIN: usize = 10;

/// Ceiling, floor and minimap marker colors.
pub const CEILING: u32 = 0x88814a;

pub const FLOOR: u32 = 0x58450e;

pub const MARKER: u32 = 0x5F88CC;

/// The minimap color of a tile.
pub open spec fn cell_hex(cell: char) -> u32 {
    if cell == '+' {
        0xD6C34E
    } else if cell == '-' {
        0xBFAA25
    } else if cell == '|' {
        0xB9AB53
    } else if cell == 'g' {
        0xc92828
    } else if cell == ' ' {
        0x7F5A1B
    } else {
        0x000000
    }
}

/// Draws one minimap cell: a `block_size` square at `(x, y)` in the tile's
/// color.
pub fn draw_cell(framebuffer: &mut Framebuffer, x: usize, y: usize, block_size: usize, cell: char)
    requires
        old(framebuffer).wf(),
        x + block_size <= usize::MAX,
        y + block_size <= usize::MAX,
    ensures
        final(framebuffer).wf(),
        final(framebuffer).width == old(framebuffer).width,
        final(framebuffer).height == old(framebuffer).height,
        forall|px: int, py: int|
            #![trigger final(framebuffer).pixel(px, py)]
            old(framebuffer).in_bounds(px, py) ==> final(framebuffer).pixel(px, py) == if x <= px
                < x + block_size && y <= py < y + block_size {
                packed(color_of(cell_hex(cell)))
            } else {
                old(framebuffer).pixel(px, py)
            },
{
    let hex: u32 = match cell {
        '+' => 0xD6C34E,
        '-' => 0xBFAA25,
        '|' => 0xB9AB53,
        'g' => 0xc92828,
        ' ' => 0x7F5A1B,
        _ => 0x000000,
    };
    let color = Color::from_hex(hex);
    framebuffer.draw_rectangle(x, y, block_size, block_size, color);
}

/// Fills the whole framebuffer with `screen` scaled to its size.
fn draw_full_screen(framebuffer: &mut Framebuffer, screen: &Texture)
    requires
        old(framebuffer).wf(),
        screen.wf(),
    ensures
        final(framebuffer).wf(),
        final(framebuffer).width == old(framebuffer).width,
        final(framebuffer).height == old(framebuffer).height,
        forall|px: int, py: int|
            #![trigger final(framebuffer).pixel(px, py)]
            final(framebuffer).in_bounds(px, py) ==> final(framebuffer).pixel(px, py) == packed(
                color_of(
                    scaled_texel(
                        screen,
                        0,
                        0,
                        final(framebuffer).width as int,
                        final(framebuffer).height as int,
                        px,
                        py,
                    ),
                ),
            ),
{
    let width = framebuffer.width;
    let height = framebuffer.height;
    if width > 0 && height > 0 {
        framebuffer.blit_scaled(screen, 0, 0, width, height, width, height, false);
    }
}

/// Draws the start screen image over the whole framebuffer.
pub fn render_start_screen(framebuffer: &mut Framebuffer, start_screen: &Texture)
    requires
        old(framebuffer).wf(),
        start_screen.wf(),
    ensures
        final(framebuffer).wf(),
        final(framebuffer).width == old(framebuffer).width,
        final(framebuffer).height == old(framebuffer).height,
        forall|px: int, py: int|
            #![trigger final(framebuffer).pixel(px, py)]
            final(framebuffer).in_bounds(px, py) ==> final(framebuffer).pixel(px, py) == packed(
                color_of(
                    scaled_texel(
                        start_screen,
                        0,
                        0,
                        final(framebuffer).width as int,
                        final(framebuffer).height as int,
                        px,
                        py,
                    ),
                ),
            ),
{
    draw_full_screen(framebuffer, start_screen);
}

/// Draws the defeat screen image over the whole framebuffer.
pub fn render_lost_screen(framebuffer: &mut Framebuffer, lost_screen: &Texture)
    requires
        old(framebuffer).wf(),
        lost_screen.wf(),
    ensures
        final(framebuffer).wf(),
        final(framebuffer).width == old(framebuffer).width,
        final(framebuffer).height == old(framebuffer).height,
        forall|px: int, py: int|
            #![trigger final(framebuffer).pixel(px, py)]
            final(framebuffer).in_bounds(px, py) ==> final(framebuffer).pixel(px, py) == packed(
                color_of(
                    scaled_texel(
                        lost_screen,
                        0,
                        0,
                        final(framebuffer).width as int,
                        final(framebuffer).height as int,
                        px,
                        py,
                    ),
                ),
            ),
{
    draw_full_screen(framebuffer, lost_screen);
}

/// Sizes of a grid that the minimap can draw: at most `MAX_CELLS` rows of at
/// most `MAX_CELLS` tiles.
pub open spec fn grid_drawable(g: Seq<Seq<char>>) -> bool {
    &&& g.len() <= MAX_CELLS
    &&& forall|r: int| 0 <= r < g.len() ==> #[trigger] g[r].len() <= MAX_CELLS
}

/// The minimap marker's top-left coordinate for a player coordinate `p`:
/// `offset + p * block_size / UNIT`, with a negative `p` taken as 0.
pub open spec fn marker_origin(offset: int, p: int, block_size: int) -> int {
    if p < 0 {
        offset
    } else {
        offset + p * block_size / (UNIT as int)
    }
}

/// The pixel that the minimap's cells give `(px, py)`: the color of the tile
/// whose `block_size` square, laid out from `(x_offset, y_offset)`, holds it;
/// `None` where no cell's square does.
pub open spec fn minimap_cell(
    g: Seq<Seq<char>>,
    block_size: int,
    x_offset: int,
    y_offset: int,
    px: int,
    py: int,
) -> Option<u32> {
    if block_size > 0 && px >= x_offset && py >= y_offset {
        match tile_at(g, (py - y_offset) / block_size, (px - x_offset) / block_size) {
            Some(t) => Some(packed(color_of(cell_hex(t)))),
            None => None,
        }
    } else {
        None
    }
}

/// The pixel that the minimap paints at `(px, py)`: the player's marker, a
/// square of half a cell at the player's scaled position, over the cells.
pub open spec fn minimap_pixel(
    g: Seq<Seq<char>>,
    p: Player,
    block_size: int,
    x_offset: int,
    y_offset: int,
    px: int,
    py: int,
) -> Option<u32> {
    let mx = marker_origin(x_offset, p.pos.x as int, block_size);
    let my = marker_origin(y_offset, p.pos.y as int, block_size);
    if mx <= px < mx + block_size / 2 && my <= py < my + block_size / 2 {
        Some(packed(color_of(MARKER)))
    } else {
        minimap_cell(g, block_size, x_offset, y_offset, px, py)
    }
}

/// Whether the cell square holding `(px, py)` comes before cell
/// `(row, col)` in row-major order.
pub open spec fn cell_drawn(
    g: Seq<Seq<char>>,
    block_size: int,
    x_offset: int,
    y_offset: int,
    px: int,
    py: int,
    row: int,
    col: int,
) -> bool {
    let r = (py - y_offset) / block_size;
    let c = (px - x_offset) / block_size;
    minimap_cell(g, block_size, x_offset, y_offset, px, py) is Some && (r < row || (r == row && c
        < col))
}

/// `q` lies in the `k`-th span of `bs` from `o` exactly when `(q - o) / bs == k`.
proof fn lemma_in_span(q: int, o: int, k: int, bs: int)
    requires
        bs > 0,
        q >= o,
        k >= 0,
    ensures
        (o + k * bs <= q < o + k * bs + bs) <==> (q - o) / bs == k,
{
    let d = (q - o) / bs;
    assert(d * bs <= q - o < d * bs + bs) by (nonlinear_arith)
        requires d == (q - o) / bs, bs > 0, q - o >= 0;
    if d < k {
        assert(d * bs + bs <= k * bs) by (nonlinear_arith)
            requires d < k, bs > 0;
    } else if d > k {
        assert(k * bs + bs <= d * bs) by (nonlinear_arith)
            requires d > k, bs > 0;
    }
}

/// Draws the grid as a minimap of `block_size` squares from
/// `(x_offset, y_offset)`, then the player's marker, a square of half that
/// side at the player's scaled position.
pub fn render2d_mini_map(
    framebuffer: &mut Framebuffer,
    player: &Player,
    maze: &Vec<Vec<char>>,
    block_size: usize,
    x_offset: usize,
    y_offset: usize,
)
    requires
        old(framebuffer).wf(),
        player.wf(),
        grid_drawable(grid_of(maze)),
        block_size <= MAX_SCREEN,
        x_offset <= MAX_SCREEN,
        y_offset <= MAX_SCREEN,
    ensures
        final(framebuffer).wf(),
        final(framebuffer).width == old(framebuffer).width,
        final(framebuffer).height == old(framebuffer).height,
        forall|px: int, py: int|
            #![trigger final(framebuffer).pixel(px, py)]
            old(framebuffer).in_bounds(px, py) ==> final(framebuffer).pixel(px, py) == match minimap_pixel(
                grid_of(maze),
                *player,
                block_size as int,
                x_offset as int,
                y_offset as int,
                px,
                py,
            ) {
                Some(v) => v,
                None => old(framebuffer).pixel(px, py),
            },
{
    let ghost g = grid_of(maze);
    let ghost bs = block_size as int;
    let ghost xo = x_offset as int;
    let ghost yo = y_offset as int;
    let mut row: usize = 0;
    while row < maze.len()
        invariant
            framebuffer.wf(),
            framebuffer.width == old(framebuffer).width,
            framebuffer.height == old(framebuffer).height,
            g == grid_of(maze),
            grid_drawable(g),
            bs == block_size,
            xo == x_offset,
            yo == y_offset,
            block_size <= MAX_SCREEN,
            x_offset <= MAX_SCREEN,
            y_offset <= MAX_SCREEN,
            row <= maze@.len(),
            forall|qx: int, qy: int|
                #![trigger framebuffer.pixel(qx, qy)]
                old(framebuffer).in_bounds(qx, qy) ==> framebuffer.pixel(qx, qy) == if cell_drawn(
                    g,
                    bs,
                    xo,
                    yo,
                    qx,
                    qy,
                    row as int,
                    0,
                ) {
                    minimap_cell(g, bs, xo, yo, qx, qy)->Some_0
                } else {
                    old(framebuffer).pixel(qx, qy)
                },
        decreases maze@.len() - row,
    {
        let mut col: usize = 0;
        assert(g[row as int] == maze@[row as int]@);
        while col < maze[row].len()
            invariant
                framebuffer.wf(),
                framebuffer.width == old(framebuffer).width,
                framebuffer.height == old(framebuffer).height,
                g == grid_of(maze),
                g[row as int] == maze@[row as int]@,
                bs == block_size,
                xo == x_offset,
                yo == y_offset,
                row < maze@.len(),
                maze@.len() <= MAX_CELLS,
                maze@[row as int]@.len() <= MAX_CELLS,
                col <= maze@[row as int]@.len(),
                block_size <= MAX_SCREEN,
                x_offset <= MAX_SCREEN,
                y_offset <= MAX_SCREEN,
                forall|qx: int, qy: int|
                    #![trigger framebuffer.pixel(qx, qy)]
                    old(framebuffer).in_bounds(qx, qy) ==> framebuffer.pixel(qx, qy) == if cell_drawn(
                        g,
                        bs,
                        xo,
                        yo,
                        qx,
                        qy,
                        row as int,
                        col as int,
                    ) {
                        minimap_cell(g, bs, xo, yo, qx, qy)->Some_0
                    } else {
                        old(framebuffer).pixel(qx, qy)
                    },
            decreases maze@[row as int]@.len() - col,
        {
            assert(col * block_size <= MAX_CELLS * MAX_SCREEN) by (nonlinear_arith)
                requires col <= MAX_CELLS, block_size <= MAX_SCREEN;
            assert(row * block_size <= MAX_CELLS * MAX_SCREEN) by (nonlinear_arith)
                requires row <= MAX_CELLS, block_size <= MAX_SCREEN;
            let ghost before = *framebuffer;
            let x = x_offset + col * block_size;
            let y = y_offset + row * block_size;
            let t = maze[row][col];
            draw_cell(framebuffer, x, y, block_size, t);
            proof {
                assert forall|qx: int, qy: int|
                    #![trigger framebuffer.pixel(qx, qy)]
                    old(framebuffer).in_bounds(qx, qy) implies framebuffer.pixel(qx, qy) == if cell_drawn(
                        g,
                        bs,
                        xo,
                        yo,
                        qx,
                        qy,
                        row as int,
                        col + 1,
                    ) {
                        minimap_cell(g, bs, xo, yo, qx, qy)->Some_0
                    } else {
                        old(framebuffer).pixel(qx, qy)
                    } by {
                    assert(before.pixel(qx, qy) == if cell_drawn(g, bs, xo, yo, qx, qy, row as int, col as int) {
                        minimap_cell(g, bs, xo, yo, qx, qy)->Some_0
                    } else {
                        old(framebuffer).pixel(qx, qy)
                    });
                    if bs > 0 && qx >= xo && qy >= yo {
                        lemma_in_span(qx, xo, col as int, bs);
                        lemma_in_span(qy, yo, row as int, bs);
                    }
                }
            }
            col += 1;
        }
        proof {
            assert forall|qx: int, qy: int|
                #![trigger framebuffer.pixel(qx, qy)]
                old(framebuffer).in_bounds(qx, qy) implies cell_drawn(g, bs, xo, yo, qx, qy, row as int, col as int)
                    == cell_drawn(g, bs, xo, yo, qx, qy, row + 1, 0) by {
            }
        }
        row += 1;
    }
    let mx = marker_offset(x_offset, player.pos.x, block_size);
    let my = marker_offset(y_offset, player.pos.y, block_size);
    framebuffer.draw_rectangle(mx, my, block_size / 2, block_size / 2, Color::from_hex(MARKER));
    proof {
        assert forall|qx: int, qy: int|
            old(framebuffer).in_bounds(qx, qy) implies #[trigger] cell_drawn(
                g,
                bs,
                xo,
                yo,
                qx,
                qy,
                row as int,
                0,
            ) == (minimap_cell(g, bs, xo, yo, qx, qy) is Some) by {
        }
    }
}

/// `marker_origin`, computed.
fn marker_offset(offset: usize, p: i64, block_size: usize) -> (r: usize)
    requires
        -MAX_COORD <= p <= MAX_COORD,
        block_size <= MAX_SCREEN,
        offset <= MAX_SCREEN,
    ensures
        r == marker_origin(offset as int, p as int, block_size as int),
        r <= MAX_SCREEN + 0x1000_0000,
{
    if p < 0 {
        offset
    } else {
        let bs = block_size as i64;
        assert(0 <= p * bs <= 0x40_0000_0000) by (nonlinear_arith)
            requires 0 <= p <= MAX_COORD, 0 <= bs <= MAX_SCREEN;
        let q = p * bs / UNIT;
        assert(q as int <= 0x1000_0000) by (nonlinear_arith)
            requires q as int == (p * bs) as int / 1024, 0 <= p * bs <= 0x40_0000_0000;
        offset + q as usize
    }
}

/// The ceiling color above the middle row, the floor color from it down.
pub open spec fn background(height: int, py: int) -> u32 {
    if py < height / 2 {
        packed(color_of(CEILING))
    } else {
        packed(color_of(FLOOR))
    }
}

/// The angle of the ray of column `i` of `width`: the fan spans the field of
/// view from its left edge in equal steps.
pub open spec fn ray_angle(p: Player, i: int, width: int) -> int {
    p.angle - p.fov / 2 + p.fov * i / width
}

/// The wall pixel at `(px, py)`: where the ray of column `px` stops after
/// a positive number of steps and row `py` lies in its strip, the texel
/// that the strip shows there.
pub open spec fn wall_pixel(
    g: Seq<Seq<char>>,
    p: Player,
    t: &TrigTable,
    wall: &Texture,
    width: int,
    height: int,
    px: int,
    py: int,
) -> Option<u32> {
    let a = wrap_spec(ray_angle(p, px, width));
    let x = p.pos.x as int;
    let y = p.pos.y as int;
    let c = t.cos@[a] as int;
    let s = t.sin@[a] as int;
    let bs = BLOCK_SIZE as int;
    let d = march(g, x, y, c, s, bs);
    let (top, bottom) = stake_bounds(d, height);
    if d > 0 && top <= py < bottom {
        let tx = tex_column(ray_num(x, c, d, bs), ray_num(y, s, d, bs), bs);
        Some(packed(color_of(stake_texel(wall, tx, top, bottom, py))))
    } else {
        None
    }
}

/// Walls over ceiling and floor.
pub open spec fn frame_base(
    g: Seq<Seq<char>>,
    p: Player,
    t: &TrigTable,
    wall: &Texture,
    width: int,
    height: int,
    px: int,
    py: int,
) -> u32 {
    match wall_pixel(g, p, t, wall, width, height, px, py) {
        Some(v) => v,
        None => background(height, py),
    }
}

/// Where the minimap goes: its top-left corner, `MINI_MAP_MARGIN` from the
/// right and bottom edges, or `None` where the grid is empty or the minimap
/// does not fit.
pub open spec fn minimap_origin(g: Seq<Seq<char>>, width: int, height: int) -> Option<(int, int)> {
    let cell = (BLOCK_SIZE / MINI_MAP_SCALE) as int;
    if g.len() > 0 && g[0].len() * cell + MINI_MAP_MARGIN <= width && g.len() * cell
        + MINI_MAP_MARGIN <= height {
        Some((width - g[0].len() * cell - MINI_MAP_MARGIN, height - g.len() * cell - MINI_MAP_MARGIN))
    } else {
        None
    }
}

/// The pixel at `(px, py)` of a whole frame: the minimap over the sprite
/// over the walls over ceiling and floor.
pub open spec fn frame_pixel(
    g: Seq<Seq<char>>,
    p: Player,
    sprite: &Sprite,
    t: &TrigTable,
    wall: &Texture,
    width: int,
    height: int,
    px: int,
    py: int,
) -> u32 {
    let mini = match minimap_origin(g, width, height) {
        Some((xo, yo)) => minimap_pixel(g, p, (BLOCK_SIZE / MINI_MAP_SCALE) as int, xo, yo, px, py),
        None => None,
    };
    match mini {
        Some(v) => v,
        None => match sprite_pixel(sprite, p, t, width, height, px, py) {
            Some(v) => v,
            None => frame_base(g, p, t, wall, width, height, px, py),
        },
    }
}

/// Draws one first-person frame: ceiling and floor, one textured wall strip
/// per column from a fan of rays across the field of view, the sprite, and
/// the minimap in the bottom-right corner where it fits.
pub fn render3d(
    framebuffer: &mut Framebuffer,
    player: &Player,
    maze: &Vec<Vec<char>>,
    sprite: &Sprite,
    wall: &Texture,
    table: &TrigTable,
)
    requires
        old(framebuffer).wf(),
        player.wf(),
        sprite.wf(),
        wall.wf(),
        table.wf(),
        grid_drawable(grid_of(maze)),
    ensures
        final(framebuffer).wf(),
        final(framebuffer).width == old(framebuffer).width,
        final(framebuffer).height == old(framebuffer).height,
        forall|px: int, py: int|
            #![trigger final(framebuffer).pixel(px, py)]
            old(framebuffer).in_bounds(px, py) ==> final(framebuffer).pixel(px, py) == frame_pixel(
                grid_of(maze),
                *player,
                sprite,
                table,
                wall,
                old(framebuffer).width as int,
                old(framebuffer).height as int,
                px,
                py,
            ),
{
    let ghost g = grid_of(maze);
    let width = framebuffer.width;
    let height = framebuffer.height;
    let ghost (w, h) = (width as int, height as int);
    framebuffer.draw_rectangle(0, 0, width, height / 2, Color::from_hex(CEILING));
    framebuffer.draw_rectangle(0, height / 2, width, height - height / 2, Color::from_hex(FLOOR));
    proof {
        if g.len() > 0 {
            assert(g[0].len() <= MAX_CELLS);
        }
    }
    let mut i: usize = 0;
    while i < width
        invariant
            framebuffer.wf(),
            framebuffer.width == width,
            framebuffer.height == height,
            width == old(framebuffer).width,
            height == old(framebuffer).height,
            w == width,
            h == height,
            g == grid_of(maze),
            player.wf(),
            wall.wf(),
            table.wf(),
            grid_size_ok(g),
            i <= width,
            forall|qx: int, qy: int|
                #![trigger framebuffer.pixel(qx, qy)]
                old(framebuffer).in_bounds(qx, qy) ==> framebuffer.pixel(qx, qy) == if qx < i {
                    frame_base(g, *player, table, wall, w, h, qx, qy)
                } else {
                    background(h, qy)
                },
        decreases width - i,
    {
        let ww = width as i64;
        let ii = i as i64;
        assert(0 <= player.fov * ii <= TURN * MAX_SCREEN) by (nonlinear_arith)
            requires 0 < player.fov < TURN, 0 <= ii <= MAX_SCREEN;
        let a = player.angle - player.fov / 2 + player.fov * ii / ww;
        assert(a == ray_angle(*player, i as int, w));
        let ghost before = *framebuffer;
        let hit = cast_rays(framebuffer, maze, player, table, a, BLOCK_SIZE, false);
        proof {
            let aw = wrap_spec(a as int);
            lemma_first_stop_unique(
                g,
                player.pos.x as int,
                player.pos.y as int,
                table.cos@[aw] as int,
                table.sin@[aw] as int,
                BLOCK_SIZE as int,
                hit.distance as int,
            );
        }
        if hit.distance > 0 {
            draw_stake(framebuffer, i, hit.distance, hit.tx, wall);
        }
        proof {
            assert forall|qx: int, qy: int|
                #![trigger framebuffer.pixel(qx, qy)]
                old(framebuffer).in_bounds(qx, qy) implies framebuffer.pixel(qx, qy) == if qx < i + 1 {
                    frame_base(g, *player, table, wall, w, h, qx, qy)
                } else {
                    background(h, qy)
                } by {
                assert(before.pixel(qx, qy) == if qx < i {
                    frame_base(g, *player, table, wall, w, h, qx, qy)
                } else {
                    background(h, qy)
                });
            }
        }
        i += 1;
    }
    let ghost walls = *framebuffer;
    sprite.render(framebuffer, player, table);
    let ghost with_sprite = *framebuffer;
    let cell = BLOCK_SIZE / MINI_MAP_SCALE;
    if maze.len() > 0 {
        let rows = maze.len();
        let cols = maze[0].len();
        assert(g[0] == maze@[0]@);
        if cols * cell + MINI_MAP_MARGIN <= width && rows * cell + MINI_MAP_MARGIN <= height {
            let x_offset = width - cols * cell - MINI_MAP_MARGIN;
            let y_offset = height - rows * cell - MINI_MAP_MARGIN;
            render2d_mini_map(framebuffer, player, maze, cell, x_offset, y_offset);
        }
    }
    proof {
        assert forall|qx: int, qy: int|
            #![trigger framebuffer.pixel(qx, qy)]
            old(framebuffer).in_bounds(qx, qy) implies framebuffer.pixel(qx, qy) == frame_pixel(
                g,
                *player,
                sprite,
                table,
                wall,
                w,
                h,
                qx,
                qy,
            ) by {
            assert(walls.pixel(qx, qy) == frame_base(g, *player, table, wall, w, h, qx, qy));
            assert(with_sprite.pixel(qx, qy) == match sprite_pixel(sprite, *player, table, w, h, qx, qy) {
                Some(v) => v,
                None => walls.pixel(qx, qy),
            });
        }
    }
}

/// The rows `[top, bottom)` of the wall strip for a hit `dist` pixels away
/// on a screen `height` rows tall, before clipping: a strip
/// `(height / 2) * PROJECTION_DISTANCE / dist` tall centred on the middle row.
pub open spec fn stake_bounds(dist: int, height: int) -> (int, int) {
    let hh = height / 2;
    let sh = hh * PROJECTION_DISTANCE / dist;
    let top = if hh - sh / 2 < 0 {
        0
    } else {
        hh - sh / 2
    };
    (top, hh + sh / 2)
}

/// The wall texel shown at row `y` of a strip `[top, bottom)`.
pub open spec fn stake_texel(wall: &Texture, tx: int, top: int, bottom: int, y: int) -> u32 {
    wall.texel(tx, (y - top) * TEXTURE_SIZE / (bottom - top))
}

/// Draws the wall strip of column `column` for a hit `dist` pixels away,
/// showing texture column `tx` of `wall` stretched over the strip.
pub fn draw_stake(framebuffer: &mut Framebuffer, column: usize, dist: usize, tx: usize, wall: &Texture)
    requires
        old(framebuffer).wf(),
        wall.wf(),
        dist > 0,
    ensures
        final(framebuffer).wf(),
        final(framebuffer).width == old(framebuffer).width,
        final(framebuffer).height == old(framebuffer).height,
        forall|px: int, py: int|
            #![trigger final(framebuffer).pixel(px, py)]
            old(framebuffer).in_bounds(px, py) ==> final(framebuffer).pixel(px, py) == ({
                let (top, bottom) = stake_bounds(dist as int, old(framebuffer).height as int);
                if px == column && top <= py < bottom {
                    packed(color_of(stake_texel(wall, tx as int, top, bottom, py)))
                } else {
                    old(framebuffer).pixel(px, py)
                }
            }),
{
    let hh = framebuffer.height / 2;
    let sh = hh * PROJECTION_DISTANCE / dist;
    let top = if hh < sh / 2 { 0 } else { hh - sh / 2 };
    let bottom = hh + sh / 2;
    let ghost bounds = stake_bounds(dist as int, old(framebuffer).height as int);
    assert(bounds == (top as int, bottom as int));
    if column >= framebuffer.width {
        return;
    }
    let end = if bottom < framebuffer.height { bottom } else { framebuffer.height };
    let mut y = top;
    while y < end
        invariant
            framebuffer.wf(),
            wall.wf(),
            framebuffer.width == old(framebuffer).width,
            framebuffer.height == old(framebuffer).height,
            column < framebuffer.width,
            bounds == (top as int, bottom as int),
            top <= y,
            y <= end || y == top,
            end <= bottom,
            end <= framebuffer.height,
            end == bottom || end == framebuffer.height,
            hh <= MAX_SCREEN,
            bottom <= 2 * MAX_SCREEN * PROJECTION_DISTANCE,
            forall|px: int, py: int|
                #![trigger framebuffer.pixel(px, py)]
                old(framebuffer).in_bounds(px, py) ==> framebuffer.pixel(px, py) == if px == column
                    && top <= py < y {
                    packed(color_of(stake_texel(wall, tx as int, top as int, bottom as int, py)))
                } else {
                    old(framebuffer).pixel(px, py)
                },
        decreases end - y,
    {
        let ghost before = *framebuffer;
        assert((y - top) * TEXTURE_SIZE <= 2 * MAX_SCREEN * PROJECTION_DISTANCE * TEXTURE_SIZE)
            by (nonlinear_arith)
            requires y - top <= 2 * MAX_SCREEN * PROJECTION_DISTANCE;
        let ty = (y - top) * TEXTURE_SIZE / (bottom - top);
        let color = wall.get_pixel(tx, ty);
        framebuffer.point_with_color(column, y, color);
        proof {
            assert forall|px: int, py: int|
                #![trigger framebuffer.pixel(px, py)]
                old(framebuffer).in_bounds(px, py) implies framebuffer.pixel(px, py) == if px == column
                    && top <= py < y + 1 {
                    packed(color_of(stake_texel(wall, tx as int, top as int, bottom as int, py)))
                } else {
                    old(framebuffer).pixel(px, py)
                } by {
                lemma_index_distinct(
                    framebuffer.width as int,
                    framebuffer.height as int,
                    px,
                    py,
                    column as int,
                    y as int,
                );
                lemma_index_distinct(
                    framebuffer.width as int,
                    framebuffer.height as int,
                    column as int,
                    y as int,
                    px,
                    py,
                );
                assert(framebuffer.pixel(px, py) == framebuffer.buffer@[framebuffer.index(px, py)]);
                assert(before.pixel(px, py) == before.buffer@[before.index(px, py)]);
            }
        }
        y += 1;
    }
    assert forall|px: int, py: int|
        #![trigger framebuffer.pixel(px, py)]
        old(framebuffer).in_bounds(px, py) implies framebuffer.pixel(px, py) == if px == column
            && top <= py < bottom {
            packed(color_of(stake_texel(wall, tx as int, top as int, bottom as int, py)))
        } else {
            old(framebuffer).pixel(px, py)
        } by {
        if px == column && top <= py {
            assert(py < y <==> py < bottom);
        }
    }
}

} // verus!
