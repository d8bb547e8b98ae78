use vstd::prelude::*;
use crate::angle::{TrigTable, TURN, TRIG_ONE, isqrt, tdiv, wrap_spec, normalize_angle};
use crate::framebuffer::{Framebuffer, MAX_SCREEN, is_black, packed, scaled_texel};
use crate::color::color_of;
use crate::grid::{MAX_COORD, blocked, block_ok, grid_of, is_collision};
use crate::player::{MAX_SPEED, Player, div_trunc};
use crate::texture::Texture;

verus! {

/// Nearest distance, in position units, at which a sprite is drawn.
pub const NEAR: i64 = 512;

/// Farthest distance, in position units, at which a sprite is drawn.
pub const FAR: i64 = 51200;

/// Largest sprite size, in position units.
pub const MAX_SIZE: i64 = 0x10000;

/// A textured billboard that pursues the player.
pub struct Sprite {
    pub texture: Texture,
    pub x: i64,
    pub y: i64,
    pub size: i64,
    pub speed: i64,
}

/// `r` is the floor of the square root of `n`.
pub open spec fn is_sqrt_floor(n: int, r: int) -> bool {
    0 <= r && r * r <= n < (r + 1) * (r + 1)
}

/// The floor of the square root of `n`.
pub open spec fn sqrt_floor(n: int) -> int {
    choose|r: int| #[trigger] is_sqrt_floor(n, r)
}

/// `r` is the floor of the square root of `n`.
pub proof fn lemma_sqrt_floor(n: int, r: int)
    requires
        0 <= r,
        r * r <= n < (r + 1) * (r + 1),
    ensures
        sqrt_floor(n) == r,
{
    assert(is_sqrt_floor(n, r));
    let q = sqrt_floor(n);
    assert(is_sqrt_floor(n, q));
    if q < r {
        assert((q + 1) * (q + 1) <= r * r) by (nonlinear_arith)
            requires 0 <= q, q + 1 <= r;
    } else if r < q {
        assert((r + 1) * (r + 1) <= q * q) by (nonlinear_arith)
            requires 0 <= r, r + 1 <= q;
    }
}

/// The Euclidean length of `(dx, dy)`, rounded down.
pub open spec fn dist_spec(dx: int, dy: int) -> int {
    sqrt_floor(dx * dx + dy * dy)
}

/// -1 for a negative value, else 1.
pub open spec fn sign_of(v: int) -> int {
    if v < 0 {
        -1
    } else {
        1
    }
}

/// Where a sprite at `(sx, sy)` moving at `speed` ends up after one pursuit
/// step toward `(px, py)`: a step along the normalized direction; where the
/// x part alone is blocked, slide along y instead, and likewise for y; where
/// both slides are blocked, step away; then each axis is taken only if its
/// own target is free.
pub open spec fn pursuit(g: Seq<Seq<char>>, sx: int, sy: int, px: int, py: int, speed: int) -> (
    int,
    int,
) {
    let dx = px - sx;
    let dy = py - sy;
    let dist = dist_spec(dx, dy);
    if dist <= 0 {
        (sx, sy)
    } else {
        let ux = tdiv(dx * speed, dist);
        let uy = tdiv(dy * speed, dist);
        let (x1, y1) = if blocked(g, sx + ux, sy) {
            (sx, sy + uy + speed * sign_of(dy))
        } else {
            (sx + ux, sy + uy)
        };
        let (x2, y2) = if blocked(g, sx, y1) {
            (x1 + speed * sign_of(dx), sy)
        } else {
            (x1, y1)
        };
        let (x3, y3) = if blocked(g, x2, sy) && blocked(g, sx, y2) {
            (sx - ux, sy - uy)
        } else {
            (x2, y2)
        };
        let fx = if blocked(g, x3, sy) {
            sx
        } else {
            x3
        };
        let fy = if blocked(g, fx, y3) {
            sy
        } else {
            y3
        };
        (fx, fy)
    }
}

/// The distance from `(ax, ay)` to `(bx, by)`, rounded down.
pub fn distance(ax: i64, ay: i64, bx: i64, by: i64) -> (d: i64)
    requires
        -MAX_COORD <= ax <= MAX_COORD,
        -MAX_COORD <= ay <= MAX_COORD,
        -MAX_COORD <= bx <= MAX_COORD,
        -MAX_COORD <= by <= MAX_COORD,
    ensures
        d == dist_spec(bx - ax, by - ay),
        d >= 0,
        d == 0 <==> (ax == bx && ay == by),
{
    let dx = bx - ax;
    let dy = by - ay;
    assert(0 <= dx * dx <= 4 * MAX_COORD * MAX_COORD) by (nonlinear_arith)
        requires -2 * MAX_COORD <= dx <= 2 * MAX_COORD;
    assert(0 <= dy * dy <= 4 * MAX_COORD * MAX_COORD) by (nonlinear_arith)
        requires -2 * MAX_COORD <= dy <= 2 * MAX_COORD;
    let n = (dx * dx + dy * dy) as u64;
    assert(n as int == dx * dx + dy * dy);
    let r = isqrt(n);
    proof {
        lemma_sqrt_floor(n as int, r as int);
        if dx != 0 || dy != 0 {
            assert(dx * dx > 0 || dy * dy > 0) by (nonlinear_arith)
                requires dx != 0 || dy != 0;
        } else {
            assert(dx * dx == 0 && dy * dy == 0) by (nonlinear_arith)
                requires dx == 0, dy == 0;
        }
        assert(r >= 1 <==> n >= 1) by (nonlinear_arith)
            requires r * r <= n < (r + 1) * (r + 1);
    }
    r as i64
}

/// Where the direct step and both of its single-axis parts land on free
/// positions, a pursuit step at a speed of at least 2 and at most the
/// distance to the player takes the direct step, and the squared distance
/// to the player strictly decreases.
pub proof fn lemma_pursuit_closes_in(g: Seq<Seq<char>>, sx: int, sy: int, px: int, py: int, speed: int)
    requires
        2 <= speed <= dist_spec(px - sx, py - sy),
        ({
            let dist = dist_spec(px - sx, py - sy);
            let ux = tdiv((px - sx) * speed, dist);
            let uy = tdiv((py - sy) * speed, dist);
            &&& !blocked(g, sx + ux, sy)
            &&& !blocked(g, sx, sy + uy)
            &&& !blocked(g, sx + ux, sy + uy)
        }),
    ensures
        ({
            let dist = dist_spec(px - sx, py - sy);
            let ux = tdiv((px - sx) * speed, dist);
            let uy = tdiv((py - sy) * speed, dist);
            pursuit(g, sx, sy, px, py, speed) == (sx + ux, sy + uy)
        }),
        ({
            let (nx, ny) = pursuit(g, sx, sy, px, py, speed);
            (px - nx) * (px - nx) + (py - ny) * (py - ny) < (px - sx) * (px - sx) + (py - sy) * (py
                - sy)
        }),
{
    let dx = px - sx;
    let dy = py - sy;
    let n = dx * dx + dy * dy;
    let dist = dist_spec(dx, dy);
    assert(0 <= n) by (nonlinear_arith)
        requires n == dx * dx + dy * dy;
    lemma_sqrt_exists(n);
    assert(is_sqrt_floor(n, dist));
    let ux = tdiv(dx * speed, dist);
    let uy = tdiv(dy * speed, dist);
    lemma_step_shrinks(dx, speed, dist);
    lemma_step_shrinks(dy, speed, dist);
    // the longer side is at least half the distance, so its step is not zero
    if dx * dx >= dy * dy {
        assert(dist <= 2 * abs_spec(dx)) by (nonlinear_arith)
            requires
                dist * dist <= dx * dx + dy * dy,
                dx * dx >= dy * dy,
                dist >= 0,
        ;
        assert((dx - ux) * (dx - ux) < dx * dx);
        assert((dy - uy) * (dy - uy) <= dy * dy);
    } else {
        assert(dist <= 2 * abs_spec(dy)) by (nonlinear_arith)
            requires
                dist * dist <= dx * dx + dy * dy,
                dx * dx < dy * dy,
                dist >= 0,
        ;
        assert((dy - uy) * (dy - uy) < dy * dy);
        assert((dx - ux) * (dx - ux) <= dx * dx);
    }
}

/// Magnitude.
pub open spec fn abs_spec(v: int) -> int {
    if v < 0 {
        -v
    } else {
        v
    }
}

/// Every non-negative number has an integer square root.
proof fn lemma_sqrt_exists(n: int)
    requires
        0 <= n,
    ensures
        is_sqrt_floor(n, sqrt_floor(n)),
    decreases n,
{
    if n == 0 {
        assert(is_sqrt_floor(0, 0));
    } else {
        lemma_sqrt_exists(n - 1);
        let r = sqrt_floor(n - 1);
        if (r + 1) * (r + 1) <= n {
            assert((r + 1) * (r + 1) == n) by (nonlinear_arith)
                requires r * r <= n - 1 < (r + 1) * (r + 1), (r + 1) * (r + 1) <= n;
            assert((r + 2) * (r + 2) > n) by (nonlinear_arith)
                requires (r + 1) * (r + 1) == n, r >= 0;
            assert(is_sqrt_floor(n, r + 1));
        } else {
            assert(is_sqrt_floor(n, r));
        }
    }
}

/// A step of `tdiv(d * speed, dist)` toward `d`, with `speed <= dist`, does
/// not overshoot: what is left has the same sign and is no longer; it is
/// shorter when `2 * |d| >= dist` and `speed >= 2`.
proof fn lemma_step_shrinks(d: int, speed: int, dist: int)
    requires
        2 <= speed <= dist,
    ensures
        (d - tdiv(d * speed, dist)) * (d - tdiv(d * speed, dist)) <= d * d,
        dist <= 2 * abs_spec(d) ==> (d - tdiv(d * speed, dist)) * (d - tdiv(d * speed, dist)) < d
            * d,
{
    let u = tdiv(d * speed, dist);
    if d >= 0 {
        assert(d * speed >= 0) by (nonlinear_arith)
            requires d >= 0, speed >= 2;
        assert(0 <= u <= d) by (nonlinear_arith)
            requires u == (d * speed) / dist, 0 <= d, 2 <= speed <= dist;
        if dist <= 2 * d {
            assert(u >= 1) by (nonlinear_arith)
                requires u == (d * speed) / dist, dist <= 2 * d, 2 <= speed <= dist;
        }
        assert((d - u) * (d - u) <= d * d) by (nonlinear_arith)
            requires 0 <= u <= d;
        if u >= 1 {
            assert((d - u) * (d - u) < d * d) by (nonlinear_arith)
                requires 1 <= u <= d;
        }
    } else {
        assert(d * speed < 0) by (nonlinear_arith)
            requires d < 0, speed >= 2;
        assert(0 <= -u <= -d) by (nonlinear_arith)
            requires u == -((-(d * speed)) / dist), d < 0, 2 <= speed <= dist;
        if dist <= -2 * d {
            assert(-u >= 1) by (nonlinear_arith)
                requires u == -((-(d * speed)) / dist), dist <= -2 * d, 2 <= speed <= dist;
        }
        assert((d - u) * (d - u) <= d * d) by (nonlinear_arith)
            requires 0 <= -u <= -d;
        if -u >= 1 {
            assert((d - u) * (d - u) < d * d) by (nonlinear_arith)
                requires 1 <= -u <= -d;
        }
    }
}

/// Truncating division by a positive number does not grow the magnitude.
proof fn lemma_tdiv_bound(a: int, d: int)
    requires
        d >= 1,
    ensures
        a >= 0 ==> 0 <= tdiv(a, d) <= a,
        a < 0 ==> a <= tdiv(a, d) <= 0,
{
    if a >= 0 {
        assert(0 <= a / d <= a) by (nonlinear_arith)
            requires d >= 1, a >= 0;
    } else {
        assert(0 <= (-a) / d <= -a) by (nonlinear_arith)
            requires d >= 1, -a >= 0;
    }
}

/// Added to the alignment of a direction that points ahead of the target.
pub const AHEAD: i64 = 0x400_0000_0000;

/// The dot product of direction `a` of the table with `(dx, dy)`.
pub open spec fn dot_spec(t: &TrigTable, dx: int, dy: int, a: int) -> int {
    t.cos@[a] * dx + t.sin@[a] * dy
}

/// The cross product of direction `a` of the table with `(dx, dy)`.
pub open spec fn cross_spec(t: &TrigTable, dx: int, dy: int, a: int) -> int {
    t.cos@[a] * dy - t.sin@[a] * dx
}

/// How well direction `a` of the table points at `(dx, dy)`: directions
/// ahead of it (positive dot product) rank above the others, and within each
/// group a smaller sideways deviation (magnitude of the cross product) ranks
/// higher.
pub open spec fn alignment(t: &TrigTable, dx: int, dy: int, a: int) -> int {
    if dot_spec(t, dx, dy, a) > 0 {
        AHEAD - abs_spec(cross_spec(t, dx, dy, a))
    } else {
        -abs_spec(cross_spec(t, dx, dy, a))
    }
}

/// `a` is the first angle of the table with the best alignment with
/// `(dx, dy)`: the bearing of `(dx, dy)` to the table's resolution.
pub open spec fn is_bearing(t: &TrigTable, dx: int, dy: int, a: int) -> bool {
    &&& 0 <= a < TURN
    &&& forall|b: int| 0 <= b < TURN ==> #[trigger] alignment(t, dx, dy, b) <= alignment(t, dx, dy, a)
    &&& forall|b: int| 0 <= b < a ==> #[trigger] alignment(t, dx, dy, b) < alignment(t, dx, dy, a)
}

/// The bearing of `(dx, dy)`.
pub open spec fn bearing(t: &TrigTable, dx: int, dy: int) -> int {
    choose|a: int| #[trigger] is_bearing(t, dx, dy, a)
}

/// There is one bearing.
pub proof fn lemma_bearing_unique(t: &TrigTable, dx: int, dy: int, a: int)
    requires
        is_bearing(t, dx, dy, a),
    ensures
        bearing(t, dx, dy) == a,
{
    let b = bearing(t, dx, dy);
    assert(is_bearing(t, dx, dy, b));
    if b < a {
        assert(alignment(t, dx, dy, b) < alignment(t, dx, dy, a));
    } else if a < b {
        assert(alignment(t, dx, dy, a) < alignment(t, dx, dy, b));
    }
}

/// The bearing of `(dx, dy)`: the first table angle with the largest
/// alignment.
pub fn angle_toward(table: &TrigTable, dx: i64, dy: i64) -> (a: i64)
    requires
        table.wf(),
        -2 * MAX_COORD <= dx <= 2 * MAX_COORD,
        -2 * MAX_COORD <= dy <= 2 * MAX_COORD,
    ensures
        is_bearing(table, dx as int, dy as int, a as int),
        a as int == bearing(table, dx as int, dy as int),
{
    let mut best: i64 = 0;
    let mut best_val: i64 = dot(table, dx, dy, 0);
    let mut b: i64 = 1;
    while b < TURN
        invariant
            table.wf(),
            -2 * MAX_COORD <= dx <= 2 * MAX_COORD,
            -2 * MAX_COORD <= dy <= 2 * MAX_COORD,
            1 <= b <= TURN,
            0 <= best < b,
            best_val == alignment(table, dx as int, dy as int, best as int),
            forall|k: int| 0 <= k < b ==> #[trigger] alignment(table, dx as int, dy as int, k) <= best_val,
            forall|k: int| 0 <= k < best ==> #[trigger] alignment(table, dx as int, dy as int, k) < best_val,
        decreases TURN - b,
    {
        let v = dot(table, dx, dy, b);
        if v > best_val {
            best = b;
            best_val = v;
        }
        b += 1;
    }
    proof {
        lemma_bearing_unique(table, dx as int, dy as int, best as int);
    }
    best
}

/// The alignment of angle `a` with `(dx, dy)`.
fn dot(table: &TrigTable, dx: i64, dy: i64, a: i64) -> (v: i64)
    requires
        table.wf(),
        -2 * MAX_COORD <= dx <= 2 * MAX_COORD,
        -2 * MAX_COORD <= dy <= 2 * MAX_COORD,
        0 <= a < TURN,
    ensures
        v == alignment(table, dx as int, dy as int, a as int),
{
    let c = table.cos_at(a);
    let s = table.sin_at(a);
    assert(-2 * MAX_COORD * TRIG_ONE <= c * dx <= 2 * MAX_COORD * TRIG_ONE) by (nonlinear_arith)
        requires -TRIG_ONE <= c <= TRIG_ONE, -2 * MAX_COORD <= dx <= 2 * MAX_COORD;
    assert(-2 * MAX_COORD * TRIG_ONE <= s * dy <= 2 * MAX_COORD * TRIG_ONE) by (nonlinear_arith)
        requires -TRIG_ONE <= s <= TRIG_ONE, -2 * MAX_COORD <= dy <= 2 * MAX_COORD;
    assert(-2 * MAX_COORD * TRIG_ONE <= c * dy <= 2 * MAX_COORD * TRIG_ONE) by (nonlinear_arith)
        requires -TRIG_ONE <= c <= TRIG_ONE, -2 * MAX_COORD <= dy <= 2 * MAX_COORD;
    assert(-2 * MAX_COORD * TRIG_ONE <= s * dx <= 2 * MAX_COORD * TRIG_ONE) by (nonlinear_arith)
        requires -TRIG_ONE <= s <= TRIG_ONE, -2 * MAX_COORD <= dx <= 2 * MAX_COORD;
    let along = c * dx + s * dy;
    let side = c * dy - s * dx;
    let deviation = if side < 0 { -side } else { side };
    if along > 0 {
        AHEAD - deviation
    } else {
        -deviation
    }
}

/// The difference `a - b` of two angles, wrapped into `(-TURN / 2, TURN / 2]`.
pub open spec fn signed_diff(a: int, b: int) -> int {
    let m = wrap_spec(a - b);
    if m > TURN / 2 {
        m - TURN
    } else {
        m
    }
}

/// The difference `a - b` wrapped into `(-TURN / 2, TURN / 2]`.
pub fn angle_diff(a: i64, b: i64) -> (r: i64)
    requires
        -TURN <= a <= TURN,
        -TURN <= b <= TURN,
    ensures
        r == signed_diff(a as int, b as int),
        -TURN / 2 < r <= TURN / 2,
{
    let m = normalize_angle(a - b);
    if m > TURN / 2 {
        m - TURN
    } else {
        m
    }
}

/// A sprite is drawn when its distance lies in `[NEAR, FAR]` and its angle
/// off the facing direction is at most half the field of view, the boundary
/// included.
pub open spec fn billboard_visible(dist: int, diff: int, fov: int) -> bool {
    &&& NEAR <= dist <= FAR
    &&& 2 * diff <= fov
    &&& -fov <= 2 * diff
}

/// The screen square a visible sprite covers: columns `[start_x, end_x)`,
/// rows `[start_y, end_y)`, side `extent` before clipping.
#[derive(Debug, Clone, Copy, PartialEq, Eq, Structural)]
pub struct Billboard {
    pub start_x: usize,
    pub end_x: usize,
    pub start_y: usize,
    pub end_y: usize,
    pub extent: usize,
}

/// The screen square of a visible sprite: centred at column
/// `width / 2 * (1 + diff / fov)` and on the middle row, with side
/// `max(1, height * size / dist)`, clipped to the screen.
pub open spec fn billboard_spec(dist: int, diff: int, fov: int, size: int, width: int, height: int) -> Billboard {
    let screen_x = width * (fov + diff) / (2 * fov);
    let e = height * size / dist;
    let extent = if e < 1 {
        1
    } else {
        e
    };
    let sx = screen_x - extent / 2;
    let start_x = if sx < 0 {
        0
    } else {
        sx
    };
    let end_x = if start_x + extent < width {
        start_x + extent
    } else {
        width
    };
    let sy0 = height / 2 - extent / 2;
    let sy1 = if sy0 < 0 {
        0
    } else {
        sy0
    };
    let start_y = if sy1 < height {
        sy1
    } else {
        height
    };
    let end_y = if start_y + extent < height {
        start_y + extent
    } else {
        height
    };
    Billboard {
        start_x: start_x as usize,
        end_x: end_x as usize,
        start_y: start_y as usize,
        end_y: end_y as usize,
        extent: extent as usize,
    }
}

/// The screen square of a sprite at distance `dist` and angle `diff` off the
/// facing direction, or `None` where it is culled.
pub fn project_billboard(dist: i64, diff: i64, fov: i64, size: i64, width: usize, height: usize) -> (r:
    Option<Billboard>)
    requires
        0 < fov < TURN,
        -TURN <= diff <= TURN,
        0 < size <= MAX_SIZE,
        width <= MAX_SCREEN,
        height <= MAX_SCREEN,
    ensures
        r is Some <==> billboard_visible(dist as int, diff as int, fov as int),
        r matches Some(b) ==> b == billboard_spec(
            dist as int,
            diff as int,
            fov as int,
            size as int,
            width as int,
            height as int,
        ) && b.end_x <= width && b.end_y <= height && b.extent > 0,
{
    if dist < NEAR || dist > FAR || 2 * diff > fov || 2 * diff < -fov {
        return None;
    }
    let w = width as i64;
    let h = height as i64;
    assert(0 <= w * (fov + diff) <= MAX_SCREEN * 2 * TURN) by (nonlinear_arith)
        requires 0 <= w <= MAX_SCREEN, 0 <= fov + diff <= 2 * TURN;
    let screen_x = w * (fov + diff) / (2 * fov);
    assert(0 <= screen_x as int <= w as int) by (nonlinear_arith)
        requires
            screen_x as int == (w * (fov + diff)) as int / (2 * fov) as int,
            2 * diff <= fov,
            fov > 0,
            w >= 0,
            fov + diff >= 0;
    assert(0 <= h * size <= MAX_SCREEN * MAX_SIZE) by (nonlinear_arith)
        requires 0 <= h <= MAX_SCREEN, 0 < size <= MAX_SIZE;
    let e = h * size / dist;
    assert(e as int <= h * size) by (nonlinear_arith)
        requires e as int == (h * size) as int / dist as int, dist >= 1, h * size >= 0;
    let extent = if e < 1 { 1 } else { e };
    let sx = screen_x - extent / 2;
    let start_x = if sx < 0 { 0 } else { sx };
    let end_x = if start_x + extent < w { start_x + extent } else { w };
    let sy0 = h / 2 - extent / 2;
    let sy1 = if sy0 < 0 { 0 } else { sy0 };
    let start_y = if sy1 < h { sy1 } else { h };
    let end_y = if start_y + extent < h { start_y + extent } else { h };
    Some(
        Billboard {
            start_x: start_x as usize,
            end_x: end_x as usize,
            start_y: start_y as usize,
            end_y: end_y as usize,
            extent: extent as usize,
        },
    )
}

/// The pixel that sprite `s`, seen by player `p`, paints at `(px, py)` on a
/// `width × height` screen: the scaled texel of its billboard square where
/// the billboard is visible, the square holds the pixel and the texel is
/// not black; `None` elsewhere.
pub open spec fn sprite_pixel(
    s: &Sprite,
    p: Player,
    t: &TrigTable,
    width: int,
    height: int,
    px: int,
    py: int,
) -> Option<u32> {
    let dx = s.x - p.pos.x;
    let dy = s.y - p.pos.y;
    let dist = dist_spec(dx, dy);
    let diff = signed_diff(bearing(t, dx, dy), p.angle as int);
    if billboard_visible(dist, diff, p.fov as int) {
        let b = billboard_spec(dist, diff, p.fov as int, s.size as int, width, height);
        let v = scaled_texel(
            &s.texture,
            b.start_x as int,
            b.start_y as int,
            b.extent as int,
            b.extent as int,
            px,
            py,
        );
        if b.start_x <= px < b.end_x && b.start_y <= py < b.end_y && !is_black(v) {
            Some(packed(color_of(v)))
        } else {
            None
        }
    } else {
        None
    }
}

impl Sprite {
    pub open spec fn wf(&self) -> bool {
        &&& self.texture.wf()
        &&& -MAX_COORD <= self.x <= MAX_COORD
        &&& -MAX_COORD <= self.y <= MAX_COORD
        &&& 0 < self.size <= MAX_SIZE
        &&& 0 <= self.speed <= MAX_SPEED
    }

    pub fn new(texture: Texture, maze_x: i64, maze_y: i64, size: i64, speed: i64) -> (s: Sprite)
        ensures
            s.texture == texture,
            s.x == maze_x,
            s.y == maze_y,
            s.size == size,
            s.speed == speed,
    {
        Sprite { texture, x: maze_x, y: maze_y, size, speed }
    }

    /// One greedy pursuit step toward the player, as `pursuit` gives it.
    pub fn move_towards_player(&mut self, player: &Player, maze: &Vec<Vec<char>>, block_size: usize)
        requires
            old(self).wf(),
            player.wf(),
            block_ok(block_size),
        ensures
            final(self).wf(),
            final(self).texture == old(self).texture,
            final(self).size == old(self).size,
            final(self).speed == old(self).speed,
            (final(self).x as int, final(self).y as int) == pursuit(
                grid_of(maze),
                old(self).x as int,
                old(self).y as int,
                player.pos.x as int,
                player.pos.y as int,
                old(self).speed as int,
            ),
    {
        let ghost g = grid_of(maze);
        let dx = player.pos.x - self.x;
        let dy = player.pos.y - self.y;
        let dist = distance(self.x, self.y, player.pos.x, player.pos.y);
        if dist > 0 {
            let speed = self.speed;
            assert(-2 * MAX_COORD * MAX_SPEED <= dx * speed <= 2 * MAX_COORD * MAX_SPEED)
                by (nonlinear_arith)
                requires -2 * MAX_COORD <= dx <= 2 * MAX_COORD, 0 <= speed <= MAX_SPEED;
            assert(-2 * MAX_COORD * MAX_SPEED <= dy * speed <= 2 * MAX_COORD * MAX_SPEED)
                by (nonlinear_arith)
                requires -2 * MAX_COORD <= dy <= 2 * MAX_COORD, 0 <= speed <= MAX_SPEED;
            let ux = div_trunc(dx * speed, dist);
            let uy = div_trunc(dy * speed, dist);
            proof {
                lemma_tdiv_bound(dx * speed, dist as int);
                lemma_tdiv_bound(dy * speed, dist as int);
            }
            let sx = self.x;
            let sy = self.y;
            let sgn_x: i64 = if dx < 0 { -1 } else { 1 };
            let sgn_y: i64 = if dy < 0 { -1 } else { 1 };
            let mut new_x = sx + ux;
            let mut new_y = sy + uy;
            if is_collision(new_x, sy, maze, block_size) {
                new_x = sx;
                new_y = new_y + speed * sgn_y;
            }
            if is_collision(sx, new_y, maze, block_size) {
                new_y = sy;
                new_x = new_x + speed * sgn_x;
            }
            if is_collision(new_x, sy, maze, block_size) && is_collision(sx, new_y, maze, block_size) {
                new_x = sx - ux;
                new_y = sy - uy;
            }
            if !is_collision(new_x, sy, maze, block_size) {
                self.x = new_x;
            }
            if !is_collision(self.x, new_y, maze, block_size) {
                self.y = new_y;
            }
        }
    }

    /// Draws the sprite as a billboard seen by the player: culled by
    /// `billboard_visible`, else its texture scaled into the square of
    /// `billboard_spec`, black texels left out.
    pub fn render(&self, framebuffer: &mut Framebuffer, player: &Player, table: &TrigTable)
        requires
            self.wf(),
            player.wf(),
            table.wf(),
            old(framebuffer).wf(),
        ensures
            final(framebuffer).wf(),
            final(framebuffer).width == old(framebuffer).width,
            final(framebuffer).height == old(framebuffer).height,
            forall|px: int, py: int|
                #![trigger final(framebuffer).pixel(px, py)]
                old(framebuffer).in_bounds(px, py) ==> final(framebuffer).pixel(px, py) == match sprite_pixel(
                    self,
                    *player,
                    table,
                    old(framebuffer).width as int,
                    old(framebuffer).height as int,
                    px,
                    py,
                ) {
                    Some(v) => v,
                    None => old(framebuffer).pixel(px, py),
                },
            !billboard_visible(
                dist_spec(self.x - player.pos.x, self.y - player.pos.y),
                signed_diff(
                    bearing(table, self.x - player.pos.x, self.y - player.pos.y),
                    player.angle as int,
                ),
                player.fov as int,
            ) ==> *final(framebuffer) == *old(framebuffer),
    {
        let dx = self.x - player.pos.x;
        let dy = self.y - player.pos.y;
        let dist = distance(player.pos.x, player.pos.y, self.x, self.y);
        let bearing_angle = angle_toward(table, dx, dy);
        let diff = angle_diff(bearing_angle, player.angle);
        match project_billboard(
            dist,
            diff,
            player.fov,
            self.size,
            framebuffer.width,
            framebuffer.height,
        ) {
            None => {},
            Some(b) => {
                framebuffer.blit_scaled(
                    &self.texture,
                    b.start_x,
                    b.start_y,
                    b.end_x,
                    b.end_y,
                    b.extent,
                    b.extent,
                    true,
                );
            },
        }
    }
}

} // verus!
