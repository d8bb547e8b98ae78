use vstd::prelude::*;
use crate::angle::{TrigTable, TURN, TRIG_ONE, normalize_angle, wrap_spec, tdiv};
use crate::grid::{MAX_COORD, blocked, block_ok, grid_of, is_collision};

verus! {

/// Largest speed, in position units per step.
pub const MAX_SPEED: i64 = 0x10000;

/// A 2D integer vector.
#[derive(Debug, Clone, Copy, PartialEq, Eq, Structural)]
pub struct Vec2 {
    pub x: i64,
    pub y: i64,
}

/// The camera pose: position in fixed-point cell units, a heading vector
/// scaled by `TRIG_ONE`, the facing angle, the linear and angular speed and
/// the field of view.
#[derive(Debug, Clone, Copy, PartialEq, Eq, Structural)]
pub struct Player {
    pub pos: Vec2,
    pub dir: Vec2,
    pub angle: i64,
    pub speed: i64,
    pub rotation_speed: i64,
    pub fov: i64,
}

/// One player command, decoded from a key or a gamepad button.
#[derive(Debug, Clone, Copy, PartialEq, Eq, Structural)]
pub enum Command {
    Forward,
    Backward,
    TurnLeft,
    TurnRight,
}

impl Player {
    /// Ranges of the fields.
    pub open spec fn wf(&self) -> bool {
        &&& -MAX_COORD <= self.pos.x <= MAX_COORD
        &&& -MAX_COORD <= self.pos.y <= MAX_COORD
        &&& -TRIG_ONE <= self.dir.x <= TRIG_ONE
        &&& -TRIG_ONE <= self.dir.y <= TRIG_ONE
        &&& 0 <= self.angle < TURN
        &&& 0 <= self.speed <= MAX_SPEED
        &&& 0 <= self.rotation_speed <= TURN
        &&& 0 < self.fov < TURN
    }

    /// The heading is the table's cosine and sine of the angle.
    pub open spec fn heading_ok(&self, t: &TrigTable) -> bool {
        &&& 0 <= self.angle < TURN
        &&& self.dir.x == t.cos@[self.angle as int]
        &&& self.dir.y == t.sin@[self.angle as int]
    }

    /// A player at `(x, y)` facing angle 0; the rotation speed given is
    /// scaled by three tenths.
    pub fn new(x: i64, y: i64, fov: i64, speed: i64, rotation_speed: i64, table: &TrigTable) -> (p:
        Player)
        requires
            table.wf(),
            -MAX_COORD <= x <= MAX_COORD,
            -MAX_COORD <= y <= MAX_COORD,
            0 < fov < TURN,
            0 <= speed <= MAX_SPEED,
            0 <= rotation_speed <= TURN,
        ensures
            p.wf(),
            p.heading_ok(table),
            p.pos == (Vec2 { x, y }),
            p.angle == 0,
            p.speed == speed,
            p.rotation_speed == rotation_speed * 3 / 10,
            p.fov == fov,
    {
        let angle: i64 = 0;
        Player {
            pos: Vec2 { x, y },
            dir: Vec2 { x: table.cos_at(angle), y: table.sin_at(angle) },
            angle,
            speed,
            rotation_speed: rotation_speed * 3 / 10,
            fov,
        }
    }
}

/// Machine division of `a` by a positive `b`, rounding toward zero.
pub fn div_trunc(a: i64, b: i64) -> (r: i64)
    requires
        a > i64::MIN,
        b > 0,
    ensures
        r == tdiv(a as int, b as int),
{
    if a >= 0 {
        a / b
    } else {
        -((-a) / b)
    }
}

/// Recomputes the heading from the angle.
pub fn update_direction(player: &mut Player, table: &TrigTable)
    requires
        table.wf(),
        old(player).wf(),
    ensures
        final(player).wf(),
        final(player).heading_ok(table),
        *final(player) == (Player {
            dir: Vec2 { x: table.cos@[old(player).angle as int], y: table.sin@[old(player).angle as int] },
            ..*old(player)
        }),
{
    player.dir = Vec2 { x: table.cos_at(player.angle), y: table.sin_at(player.angle) };
}

/// The player turned by `delta` angle units, heading recomputed.
pub open spec fn turned(p: Player, t: &TrigTable, delta: int) -> Player {
    let a = wrap_spec(p.angle + delta);
    Player { angle: a as i64, dir: Vec2 { x: t.cos@[a], y: t.sin@[a] }, ..p }
}

/// The position one step along the heading (`sign` 1) or against it (`-1`).
pub open spec fn step_target(p: Player, sign: int) -> (int, int) {
    (
        p.pos.x + sign * tdiv(p.dir.x * p.speed, TRIG_ONE as int),
        p.pos.y + sign * tdiv(p.dir.y * p.speed, TRIG_ONE as int),
    )
}

/// The player after one command, and whether it moved or turned.
pub open spec fn command_result(g: Seq<Seq<char>>, t: &TrigTable, p: Player, c: Command) -> (
    Player,
    bool,
) {
    match c {
        Command::TurnLeft => (turned(p, t, -p.rotation_speed), true),
        Command::TurnRight => (turned(p, t, p.rotation_speed as int), true),
        Command::Forward | Command::Backward => {
            let sign = if c == Command::Forward { 1int } else { -1int };
            let (nx, ny) = step_target(p, sign);
            if blocked(g, nx, ny) {
                (p, false)
            } else {
                (Player { pos: Vec2 { x: nx as i64, y: ny as i64 }, ..p }, true)
            }
        },
    }
}

/// The player after a sequence of commands in order, and whether any of
/// them moved or turned it.
pub open spec fn commands_result(g: Seq<Seq<char>>, t: &TrigTable, p: Player, cs: Seq<Command>) -> (
    Player,
    bool,
)
    decreases cs.len(),
{
    if cs.len() == 0 {
        (p, false)
    } else {
        let (q, moved) = commands_result(g, t, p, cs.drop_last());
        let (r, m) = command_result(g, t, q, cs.last());
        (r, moved || m)
    }
}

/// Applies one command: a step is taken only where its target is free.
pub fn apply_command(
    player: &mut Player,
    command: Command,
    maze: &Vec<Vec<char>>,
    block_size: usize,
    table: &TrigTable,
) -> (moved: bool)
    requires
        table.wf(),
        block_ok(block_size),
        old(player).wf(),
    ensures
        final(player).wf(),
        (old(player).heading_ok(table) || command == Command::TurnLeft || command
            == Command::TurnRight) ==> final(player).heading_ok(table),
        (*final(player), moved) == command_result(grid_of(maze), table, *old(player), command),
{
    match command {
        Command::TurnLeft => {
            player.angle = normalize_angle(player.angle - player.rotation_speed);
            update_direction(player, table);
            true
        },
        Command::TurnRight => {
            player.angle = normalize_angle(player.angle + player.rotation_speed);
            update_direction(player, table);
            true
        },
        Command::Forward | Command::Backward => {
            proof {
                assert(-TRIG_ONE * MAX_SPEED <= player.dir.x * player.speed <= TRIG_ONE * MAX_SPEED)
                    by (nonlinear_arith)
                    requires
                        -TRIG_ONE <= player.dir.x <= TRIG_ONE,
                        0 <= player.speed <= MAX_SPEED,
                ;
                assert(-TRIG_ONE * MAX_SPEED <= player.dir.y * player.speed <= TRIG_ONE * MAX_SPEED)
                    by (nonlinear_arith)
                    requires
                        -TRIG_ONE <= player.dir.y <= TRIG_ONE,
                        0 <= player.speed <= MAX_SPEED,
                ;
            }
            let sx = div_trunc(player.dir.x * player.speed, TRIG_ONE);
            let sy = div_trunc(player.dir.y * player.speed, TRIG_ONE);
            let (nx, ny) = if command == Command::Forward {
                (player.pos.x + sx, player.pos.y + sy)
            } else {
                (player.pos.x - sx, player.pos.y - sy)
            };
            if is_collision(nx, ny, maze, block_size) {
                false
            } else {
                player.pos = Vec2 { x: nx, y: ny };
                true
            }
        },
    }
}

/// Applies the commands in order and tells whether any of them moved or
/// turned the player.
pub fn process_events(
    player: &mut Player,
    commands: &Vec<Command>,
    maze: &Vec<Vec<char>>,
    block_size: usize,
    table: &TrigTable,
) -> (moved: bool)
    requires
        table.wf(),
        block_ok(block_size),
        old(player).wf(),
        old(player).heading_ok(table),
    ensures
        final(player).wf(),
        final(player).heading_ok(table),
        (*final(player), moved) == commands_result(grid_of(maze), table, *old(player), commands@),
{
    let mut moved = false;
    let mut i: usize = 0;
    while i < commands.len()
        invariant
            table.wf(),
            block_ok(block_size),
            i <= commands@.len(),
            player.wf(),
            player.heading_ok(table),
            (*player, moved) == commands_result(
                grid_of(maze),
                table,
                *old(player),
                commands@.subrange(0, i as int),
            ),
        decreases commands@.len() - i,
    {
        let m = apply_command(player, commands[i], maze, block_size, table);
        moved = moved || m;
        proof {
            let s = commands@.subrange(0, i + 1);
            assert(s.drop_last() =~= commands@.subrange(0, i as int));
            assert(s.last() == commands@[i as int]);
        }
        i += 1;
    }
    assert(commands@.subrange(0, commands@.len() as int) =~= commands@);
    moved
}

} // verus!
