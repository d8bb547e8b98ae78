use vstd::prelude::*;
use crate::angle::{TrigTable, TURN, wrap_spec};
use crate::grid::{EMPTY, GOAL, MAX_COORD, UNIT, blocked, cell_of, is_wall_tile, on_goal, tile_at};
use crate::player::{Player, Vec2, turned};
use crate::sprite::{NEAR, Sprite, dist_spec, distance};

verus! {

/// The screens of a game.
#[derive(Debug, Clone, Copy, PartialEq, Eq, Structural)]
pub enum GameState {
    StartScreen,
    Playing,
    Won,
    Lost,
}

/// Player start, in position units: the middle of cell `(1, 1)`.
pub const PLAYER_START_X: i64 = 1536;

pub const PLAYER_START_Y: i64 = 1536;

/// Field of view: a sixth of a turn.
pub const PLAYER_FOV: i64 = 6000;

pub const PLAYER_SPEED: i64 = 20;

/// Turning speed before `Player::new` scales it.
pub const PLAYER_ROTATION_SPEED: i64 = 573;

/// Sprite start, in position units: the middle of cell `(1, 3)`.
pub const SPRITE_START_X: i64 = 1536;

pub const SPRITE_START_Y: i64 = 3584;

pub const SPRITE_SIZE: i64 = 1024;

pub const SPRITE_SPEED: i64 = 7;

/// The next screen, and whether a new round is to be set up, after a frame
/// in `state` in which a key was pressed or not, the player reached the
/// goal or not and the sprite caught the player or not. Being caught wins
/// over reaching the goal.
pub open spec fn next_state_spec(state: GameState, key_pressed: bool, won: bool, caught: bool) -> (
    GameState,
    bool,
) {
    match state {
        GameState::StartScreen => if key_pressed {
            (GameState::Playing, true)
        } else {
            (GameState::StartScreen, false)
        },
        GameState::Playing => if caught {
            (GameState::Lost, false)
        } else if won {
            (GameState::Won, false)
        } else {
            (GameState::Playing, false)
        },
        GameState::Won | GameState::Lost => if key_pressed {
            (GameState::StartScreen, true)
        } else {
            (state, false)
        },
    }
}

/// One step of the screen state machine, as `next_state_spec` gives it.
pub fn next_state(state: GameState, key_pressed: bool, won: bool, caught: bool) -> (r: (
    GameState,
    bool,
))
    ensures
        r == next_state_spec(state, key_pressed, won, caught),
{
    match state {
        GameState::StartScreen => if key_pressed {
            (GameState::Playing, true)
        } else {
            (GameState::StartScreen, false)
        },
        GameState::Playing => if caught {
            (GameState::Lost, false)
        } else if won {
            (GameState::Won, false)
        } else {
            (GameState::Playing, false)
        },
        GameState::Won => if key_pressed {
            (GameState::StartScreen, true)
        } else {
            (GameState::Won, false)
        },
        GameState::Lost => if key_pressed {
            (GameState::StartScreen, true)
        } else {
            (GameState::Lost, false)
        },
    }
}

/// Whether the sprite is closer to the player than `NEAR`.
pub fn check_collision(player: &Player, sprite: &Sprite) -> (r: bool)
    requires
        player.wf(),
        sprite.wf(),
    ensures
        r == (dist_spec(player.pos.x - sprite.x, player.pos.y - sprite.y) < NEAR),
{
    let d = distance(sprite.x, sprite.y, player.pos.x, player.pos.y);
    d < NEAR
}

/// Sets up a new round: player and sprite back at their starts, the grid
/// replaced by `fresh_maze`. The sprite keeps its texture.
pub fn reset_game(
    player: &mut Player,
    sprite: &mut Sprite,
    maze: &mut Vec<Vec<char>>,
    fresh_maze: Vec<Vec<char>>,
    table: &TrigTable,
)
    requires
        table.wf(),
        old(sprite).texture.wf(),
    ensures
        final(player).wf(),
        final(player).heading_ok(table),
        final(player).pos == (Vec2 { x: PLAYER_START_X, y: PLAYER_START_Y }),
        final(player).angle == 0,
        final(player).fov == PLAYER_FOV,
        final(player).speed == PLAYER_SPEED,
        final(player).rotation_speed == PLAYER_ROTATION_SPEED * 3 / 10,
        final(sprite).wf(),
        final(sprite).texture == old(sprite).texture,
        final(sprite).x == SPRITE_START_X,
        final(sprite).y == SPRITE_START_Y,
        final(sprite).size == SPRITE_SIZE,
        final(sprite).speed == SPRITE_SPEED,
        final(maze)@ == fresh_maze@,
{
    *player = Player::new(
        PLAYER_START_X,
        PLAYER_START_Y,
        PLAYER_FOV,
        PLAYER_SPEED,
        PLAYER_ROTATION_SPEED,
        table,
    );
    sprite.x = SPRITE_START_X;
    sprite.y = SPRITE_START_Y;
    sprite.size = SPRITE_SIZE;
    sprite.speed = SPRITE_SPEED;
    *maze = fresh_maze;
}

/// A position whose cell holds a tile is blocked exactly when the tile is a
/// wall: never on an empty or a goal tile.
pub proof fn lemma_blocked_iff_wall(g: Seq<Seq<char>>, x: int, y: int, t: char)
    requires
        -MAX_COORD <= x <= MAX_COORD,
        -MAX_COORD <= y <= MAX_COORD,
        tile_at(g, cell_of(y), cell_of(x)) == Some(t),
    ensures
        blocked(g, x, y) == is_wall_tile(t),
        t == EMPTY ==> !blocked(g, x, y),
        t == GOAL ==> !blocked(g, x, y),
        t != EMPTY && t != GOAL ==> blocked(g, x, y),
{
}

/// Every coordinate from `c * UNIT` up to, not including, `(c + 1) * UNIT`
/// lies in cell `c`: the cells tile the line with no gap at their edges.
pub proof fn lemma_cell_covers(c: int, x: int)
    requires
        c * UNIT <= x < (c + 1) * UNIT,
    ensures
        cell_of(x) == c,
{
    assert(x / (UNIT as int) == c) by (nonlinear_arith)
        requires c * 1024 <= x < (c + 1) * 1024;
}

/// A position is on the goal exactly when its cell holds the goal tile; the
/// goal is walkable; reaching it while playing moves the game to `Won` (when
/// not caught in the same frame), and further frames on the goal leave it
/// there until a key is pressed.
pub proof fn lemma_goal_flips_once(g: Seq<Seq<char>>, x: int, y: int, won: bool, caught: bool)
    requires
        -MAX_COORD <= x <= MAX_COORD,
        -MAX_COORD <= y <= MAX_COORD,
    ensures
        on_goal(g, x, y) <==> tile_at(g, cell_of(y), cell_of(x)) == Some(GOAL),
        on_goal(g, x, y) ==> !blocked(g, x, y),
        on_goal(g, x, y) ==> next_state_spec(GameState::Playing, false, on_goal(g, x, y), false).0
            == GameState::Won,
        next_state_spec(GameState::Won, false, won, caught) == (GameState::Won, false),
{
}

/// Turning by any amount leaves the angle in `[0, TURN)`, congruent to the
/// old angle plus the turn, and the heading equal to the table's cosine and
/// sine of it.
pub proof fn lemma_turn_normalizes(p: Player, t: &TrigTable, delta: int)
    requires
        t.wf(),
        p.wf(),
    ensures
        0 <= turned(p, t, delta).angle < TURN,
        (turned(p, t, delta).angle - (p.angle + delta)) % (TURN as int) == 0,
        turned(p, t, delta).heading_ok(t),
{
    let a = wrap_spec(p.angle + delta);
    assert(0 <= a < TURN);
    assert((a - (p.angle + delta)) % (TURN as int) == 0) by (nonlinear_arith)
        requires a == (p.angle + delta) % 36000;
}

} // verus!
