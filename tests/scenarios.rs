use backrooms::angle::{isqrt, normalize_angle, TrigTable, TRIG_ONE, TURN};
use backrooms::cast_ray::{cast_rays, BOUNDARY, TEXTURE_SIZE};
use backrooms::color::Color;
use backrooms::framebuffer::Framebuffer;
use backrooms::game::{check_collision, next_state, reset_game, GameState};
use backrooms::grid::{has_won, is_collision, UNIT};
use backrooms::player::{process_events, update_direction, Command, Player};
use backrooms::render::{draw_cell, draw_stake, render3d, render_start_screen, CEILING, FLOOR};
use backrooms::sprite::{angle_toward, angle_diff, distance, project_billboard, Sprite, FAR, NEAR};
use backrooms::texture::Texture;

fn table() -> TrigTable {
    let mut cos = Vec::new();
    let mut sin = Vec::new();
    for a in 0..TURN {
        let r = (a as f64) * std::f64::consts::PI * 2.0 / (TURN as f64);
        cos.push((r.cos() * TRIG_ONE as f64).round() as i64);
        sin.push((r.sin() * TRIG_ONE as f64).round() as i64);
    }
    TrigTable::from_samples(cos, sin).unwrap()
}

fn grid(rows: &[&str]) -> Vec<Vec<char>> {
    rows.iter().map(|r| r.chars().collect()).collect()
}

fn sealed_with_goal() -> Vec<Vec<char>> {
    grid(&["+-+-+", "|   |", "+   +", "|  g|", "+-+-+"])
}

fn open_room() -> Vec<Vec<char>> {
    grid(&["+---+", "|   |", "|   |", "|   |", "+---+"])
}

fn plain_texture(w: u32, h: u32, hex: u32) -> Texture {
    Texture::from_pixels(w, h, vec![hex; (w * h) as usize]).unwrap()
}

#[test]
fn color_new_clamps_each_channel() {
    assert_eq!(Color::new(-5, 300, 128), Color { r: 0, g: 255, b: 128 });
}

#[test]
fn color_hex_round_trip() {
    let c = Color::from_hex(0xFF33DD);
    assert_eq!(c, Color { r: 0xFF, g: 0x33, b: 0xDD });
    assert_eq!(c.to_hex(), 0xFF33DD);
    assert_eq!(Color::from_hex(0x12ABCDEF).to_hex(), 0xABCDEF);
    assert_eq!(Color::from(0x010203u32), Color { r: 1, g: 2, b: 3 });
}

#[test]
fn color_add_saturates() {
    let a = Color { r: 200, g: 10, b: 255 };
    let b = Color { r: 100, g: 20, b: 1 };
    assert_eq!(a + b, Color { r: 255, g: 30, b: 255 });
}

#[test]
fn normalize_angle_wraps_into_one_turn() {
    assert_eq!(normalize_angle(-1), TURN - 1);
    assert_eq!(normalize_angle(TURN), 0);
    assert_eq!(normalize_angle(2 * TURN + 1), 1);
    assert_eq!(normalize_angle(-3 * TURN - 5), TURN - 5);
    assert_eq!(normalize_angle(123), 123);
}

#[test]
fn heading_follows_angle() {
    let t = table();
    let mut p = Player::new(1536, 1536, 6000, 20, 1000, &t);
    assert_eq!(p.rotation_speed, 300);
    assert_eq!((p.dir.x, p.dir.y), (TRIG_ONE, 0));
    p.angle = 9000;
    update_direction(&mut p, &t);
    assert_eq!((p.dir.x, p.dir.y), (0, TRIG_ONE));
    let maze = open_room();
    let moved = process_events(&mut p, &vec![Command::TurnLeft; 31], &maze, 100, &t);
    assert!(moved);
    assert_eq!(p.angle, normalize_angle(9000 - 31 * 300));
    assert_eq!(p.angle, TURN - 300);
    assert_eq!((p.dir.x, p.dir.y), (t.cos[(TURN - 300) as usize], t.sin[(TURN - 300) as usize]));
}

#[test]
fn isqrt_is_floor_of_root() {
    assert_eq!(isqrt(0), 0);
    assert_eq!(isqrt(15), 3);
    assert_eq!(isqrt(16), 4);
    assert_eq!(isqrt(1 << 50), 1 << 25);
    assert_eq!(distance(0, 0, 3, 4), 5);
}

#[test]
fn collision_matches_tiles() {
    let maze = sealed_with_goal();
    // walls of every symbol
    assert!(is_collision(0, 0, &maze, 100));
    assert!(is_collision(2 * UNIT + 5, 0, &maze, 100));
    assert!(is_collision(0, UNIT + 5, &maze, 100));
    // empty and goal tiles are walkable
    assert!(!is_collision(UNIT, UNIT, &maze, 100));
    assert!(!is_collision(3 * UNIT, 3 * UNIT, &maze, 100));
    assert!(!is_collision(4 * UNIT - 1, 4 * UNIT - 1, &maze, 100));
    // outside the grid
    assert!(is_collision(-1, UNIT, &maze, 100));
    assert!(is_collision(UNIT, 5 * UNIT, &maze, 100));
    assert!(is_collision(i64::MAX, UNIT, &maze, 100));
}

#[test]
fn goal_detection_at_cell_edges() {
    let maze = sealed_with_goal();
    assert!(has_won(3 * UNIT, 3 * UNIT, &maze, 100));
    assert!(has_won(4 * UNIT - 1, 4 * UNIT - 1, &maze, 100));
    assert!(!has_won(3 * UNIT - 1, 3 * UNIT, &maze, 100));
    assert!(!has_won(3 * UNIT, 4 * UNIT, &maze, 100));
    assert!(!has_won(-5, 3 * UNIT, &maze, 100));
    // the same answer for any block size
    assert!(has_won(3 * UNIT, 3 * UNIT, &maze, 7));
    assert!(!is_collision(3 * UNIT, 3 * UNIT, &maze, 7));
}

#[test]
fn walking_to_the_goal_wins_without_collision() {
    let t = table();
    let maze = sealed_with_goal();
    let mut p = Player::new(UNIT, UNIT, 6000, 20, 100, &t);
    p.angle = 4500;
    update_direction(&mut p, &t);
    let mut steps = 0;
    while !has_won(p.pos.x, p.pos.y, &maze, 100) {
        assert!(steps < 1000);
        let before = p.pos;
        assert!(process_events(&mut p, &vec![Command::Forward], &maze, 100, &t));
        assert!(p.pos.x > before.x && p.pos.y > before.y);
        assert!(!is_collision(p.pos.x, p.pos.y, &maze, 100));
        steps += 1;
    }
    assert!(p.pos.x >= 3 * UNIT && p.pos.y >= 3 * UNIT);
    let (state, reset) = next_state(GameState::Playing, false, true, false);
    assert_eq!((state, reset), (GameState::Won, false));
    assert_eq!(next_state(state, false, true, false), (GameState::Won, false));
}

#[test]
fn blocked_step_leaves_player_in_place() {
    let t = table();
    let maze = open_room();
    let mut p = Player::new(UNIT + 10, 2 * UNIT, 6000, 20, 100, &t);
    p.angle = 18000;
    update_direction(&mut p, &t);
    assert!(!process_events(&mut p, &vec![Command::Forward], &maze, 100, &t));
    assert_eq!((p.pos.x, p.pos.y), (UNIT + 10, 2 * UNIT));
    assert!(process_events(&mut p, &vec![Command::Backward], &maze, 100, &t));
    assert_eq!((p.pos.x, p.pos.y), (UNIT + 30, 2 * UNIT));
}

#[test]
fn sprite_closes_in_on_player() {
    let maze = open_room();
    let t = table();
    let player = Player::new(3584, 3584, 6000, 20, 100, &t);
    let mut s = Sprite::new(plain_texture(2, 2, 0xFFFFFF), 1536, 3584, 1024, 7);
    let mut d = distance(s.x, s.y, player.pos.x, player.pos.y);
    assert_eq!(d, 2048);
    let mut steps = 0;
    while !check_collision(&player, &s) {
        s.move_towards_player(&player, &maze, 100);
        let nd = distance(s.x, s.y, player.pos.x, player.pos.y);
        assert!(nd < d);
        assert!(!is_collision(s.x, s.y, &maze, 100));
        d = nd;
        steps += 1;
        assert!(steps < 1000);
    }
    assert_eq!(s.y, 3584);
    assert!(d < NEAR);
}

#[test]
fn sprite_on_player_does_not_move() {
    let maze = open_room();
    let t = table();
    let player = Player::new(2000, 2000, 6000, 20, 100, &t);
    let mut s = Sprite::new(plain_texture(1, 1, 0), 2000, 2000, 1024, 7);
    s.move_towards_player(&player, &maze, 100);
    assert_eq!((s.x, s.y), (2000, 2000));
    assert!(check_collision(&player, &s));
}

#[test]
fn sprite_slides_along_wall() {
    // player straight up-left through a wall: x alone is blocked, so the
    // sprite slides along y
    let maze = open_room();
    let t = table();
    let player = Player::new(-2000, 1100, 6000, 20, 100, &t);
    let mut s = Sprite::new(plain_texture(1, 1, 0), UNIT + 3, 2000, 1024, 7);
    s.move_towards_player(&player, &maze, 100);
    assert_eq!(s.x, UNIT + 3);
    assert!(s.y < 2000);
}

#[test]
fn ray_hits_facing_wall() {
    let t = table();
    let maze = open_room();
    let mut fb = Framebuffer::new(4, 4);
    let p = Player::new(2560, 2560, 6000, 20, 100, &t);
    let hit = cast_rays(&mut fb, &maze, &p, &t, 0, 100, false);
    assert_eq!(hit.distance, 150);
    assert_eq!(hit.impact, '|');
    assert_eq!(hit.tx, 50 * 512 / 100);
    assert!(hit.tx < TEXTURE_SIZE);
    // facing down hits the bottom wall, whose x offset selects the column
    let down = cast_rays(&mut fb, &maze, &p, &t, 9000, 100, false);
    assert_eq!(down.distance, 150);
    assert_eq!(down.impact, '-');
    assert_eq!(down.tx, 50 * 512 / 100);
    assert!(fb.buffer.iter().all(|&v| v == 0));
}

#[test]
fn closer_player_sees_shorter_ray() {
    let t = table();
    let maze = open_room();
    let mut fb = Framebuffer::new(4, 4);
    let mut last = usize::MAX;
    for x in [1536i64, 2048, 2560, 3072, 3584, 4000] {
        let p = Player::new(x, 2560, 6000, 20, 100, &t);
        let hit = cast_rays(&mut fb, &maze, &p, &t, 0, 100, false);
        assert!(hit.distance < last);
        last = hit.distance;
    }
    assert_eq!(last, 400 - 390);
}

#[test]
fn ray_from_outside_reports_boundary() {
    let t = table();
    let maze = open_room();
    let mut fb = Framebuffer::new(4, 4);
    let p = Player::new(-100, 2560, 6000, 20, 100, &t);
    let hit = cast_rays(&mut fb, &maze, &p, &t, 0, 100, false);
    assert_eq!(hit.distance, 0);
    assert_eq!(hit.impact, BOUNDARY);
    assert_eq!(hit.tx, 0);
}

#[test]
fn ray_plotting_draws_probes() {
    let t = table();
    let maze = open_room();
    let mut fb = Framebuffer::new(500, 500);
    let p = Player::new(2560, 2560, 6000, 20, 100, &t);
    cast_rays(&mut fb, &maze, &p, &t, 0, 100, true);
    assert_eq!(fb.buffer[250 * 500 + 300], 0xFF33DD);
    assert_eq!(fb.buffer[250 * 500 + 200], 0);
}

#[test]
fn billboard_culling_boundary_is_inclusive() {
    // exactly half the field of view is visible, one unit more is culled
    assert!(project_billboard(2048, 3000, 6000, 1024, 1300, 900).is_some());
    assert!(project_billboard(2048, -3000, 6000, 1024, 1300, 900).is_some());
    assert!(project_billboard(2048, 3001, 6000, 1024, 1300, 900).is_none());
    assert!(project_billboard(2048, -3001, 6000, 1024, 1300, 900).is_none());
    // distance bounds are inclusive too
    assert!(project_billboard(NEAR, 0, 6000, 1024, 1300, 900).is_some());
    assert!(project_billboard(NEAR - 1, 0, 6000, 1024, 1300, 900).is_none());
    assert!(project_billboard(FAR, 0, 6000, 1024, 1300, 900).is_some());
    assert!(project_billboard(FAR + 1, 0, 6000, 1024, 1300, 900).is_none());
}

#[test]
fn billboard_projection_values() {
    let b = project_billboard(2048, 0, 6000, 1024, 1300, 900).unwrap();
    assert_eq!(b.extent, 450);
    assert_eq!((b.start_x, b.end_x), (650 - 225, 650 + 225));
    assert_eq!((b.start_y, b.end_y), (450 - 225, 450 + 225));
    let edge = project_billboard(2048, 3000, 6000, 1024, 1300, 900).unwrap();
    assert_eq!((edge.start_x, edge.end_x), (975 - 225, 975 + 225));
}

#[test]
fn bearing_and_angle_difference() {
    let t = table();
    assert_eq!(angle_toward(&t, 100, 0), 0);
    assert_eq!(angle_toward(&t, 0, 100), 9000);
    assert_eq!(angle_toward(&t, -100, 0), 18000);
    assert_eq!(angle_diff(100, 35900), 200);
    assert_eq!(angle_diff(35900, 100), -200);
    assert_eq!(angle_diff(18000, 0), 18000);
    assert_eq!(angle_diff(0, 18000), 18000);
}

#[test]
fn sprite_render_draws_or_culls() {
    let t = table();
    let tex = Texture::from_pixels(2, 1, vec![0x000000, 0x00FF00]).unwrap();
    let s = Sprite::new(tex, 4096, 2048, 1024, 7);
    let p = Player::new(2048, 2048, 6000, 20, 100, &t);
    let mut fb = Framebuffer::new(100, 100);
    s.render(&mut fb, &p, &t);
    // extent 100 * 1024 / 2048 = 50 centred at column 50, rows 25..75
    assert_eq!(fb.buffer[50 * 100 + 30], 0);
    assert_eq!(fb.buffer[50 * 100 + 60], 0x00FF00);
    assert_eq!(fb.buffer[10 * 100 + 60], 0);
    // facing away: culled
    let mut away = Player::new(2048, 2048, 6000, 20, 100, &t);
    away.angle = 18000;
    update_direction(&mut away, &t);
    let mut fb2 = Framebuffer::new(100, 100);
    s.render(&mut fb2, &away, &t);
    assert!(fb2.buffer.iter().all(|&v| v == 0));
}

#[test]
fn framebuffer_primitives() {
    let mut fb = Framebuffer::new(10, 5);
    fb.point_with_color(3, 2, Color::from_hex(0x123456));
    assert_eq!(fb.buffer[2 * 10 + 3], 0x123456);
    fb.point_with_color(10, 2, Color::from_hex(0xFFFFFF));
    assert_eq!(fb.buffer.iter().filter(|&&v| v != 0).count(), 1);
    fb.draw_rectangle(8, 3, 5, 5, Color::from_hex(0x00FF00));
    assert_eq!(fb.buffer.iter().filter(|&&v| v == 0x00FF00).count(), 4);
    assert_eq!(fb.to_u32_buffer(), fb.buffer);
    fb.clear();
    assert!(fb.buffer.iter().all(|&v| v == 0));
}

#[test]
fn draw_cell_uses_tile_color() {
    let mut fb = Framebuffer::new(10, 10);
    draw_cell(&mut fb, 2, 2, 3, 'g');
    assert_eq!(fb.buffer[3 * 10 + 3], 0xc92828);
    draw_cell(&mut fb, 5, 5, 2, '?');
    assert_eq!(fb.buffer[5 * 10 + 5], 0);
    draw_cell(&mut fb, 0, 0, 1, '+');
    assert_eq!(fb.buffer[0], 0xD6C34E);
}

#[test]
fn texture_sampling_clamps() {
    let tex = Texture::from_pixels(2, 2, vec![1, 2, 3, 4]).unwrap();
    assert_eq!(tex.get_pixel(1, 1).to_hex(), 4);
    assert_eq!(tex.get_pixel(9, 0).to_hex(), 2);
    assert_eq!(tex.get_pixel(0, 9).to_hex(), 3);
    assert!(Texture::from_pixels(2, 2, vec![1, 2, 3]).is_none());
    assert!(Texture::from_pixels(0, 2, vec![]).is_none());
}

#[test]
fn start_screen_scales_image() {
    let tex = Texture::from_pixels(2, 1, vec![0xAA0000, 0x0000BB]).unwrap();
    let mut fb = Framebuffer::new(4, 2);
    render_start_screen(&mut fb, &tex);
    assert_eq!(fb.buffer, vec![0xAA0000, 0xAA0000, 0x0000BB, 0x0000BB, 0xAA0000, 0xAA0000, 0x0000BB, 0x0000BB]);
}

#[test]
fn wall_strip_is_centred_and_textured() {
    let wall = plain_texture(4, 4, 0x777777);
    let mut fb = Framebuffer::new(3, 100);
    // height 50 * 100 / 200 = 25: rows 38..62
    draw_stake(&mut fb, 1, 200, 0, &wall);
    assert_eq!(fb.buffer[38 * 3 + 1], 0x777777);
    assert_eq!(fb.buffer[61 * 3 + 1], 0x777777);
    assert_eq!(fb.buffer[37 * 3 + 1], 0);
    assert_eq!(fb.buffer[62 * 3 + 1], 0);
    assert_eq!(fb.buffer[50 * 3], 0);
}

#[test]
fn full_frame_fills_ceiling_and_floor() {
    let t = table();
    let maze = open_room();
    let wall = plain_texture(4, 4, 0x777777);
    let p = Player::new(2560, 2560, 6000, 20, 100, &t);
    let s = Sprite::new(plain_texture(1, 1, 0x00FF00), 2560, 2560, 1024, 7);
    let mut fb = Framebuffer::new(200, 200);
    render3d(&mut fb, &p, &maze, &s, &wall, &t);
    assert_eq!(fb.buffer[0], CEILING);
    assert_eq!(fb.buffer[199 * 200], FLOOR);
    assert_eq!(fb.buffer[100 * 200 + 100], 0x777777);
}

#[test]
fn screens_follow_transition_table() {
    assert_eq!(next_state(GameState::StartScreen, true, false, false), (GameState::Playing, true));
    assert_eq!(next_state(GameState::StartScreen, false, true, true), (GameState::StartScreen, false));
    assert_eq!(next_state(GameState::Playing, true, false, false), (GameState::Playing, false));
    assert_eq!(next_state(GameState::Playing, false, true, true), (GameState::Lost, false));
    assert_eq!(next_state(GameState::Lost, true, false, false), (GameState::StartScreen, true));
    assert_eq!(next_state(GameState::Won, true, false, false), (GameState::StartScreen, true));
}

#[test]
fn reset_restores_start() {
    let t = table();
    let mut p = Player::new(9, 9, 100, 1, 1, &t);
    let mut s = Sprite::new(plain_texture(1, 1, 5), 9, 9, 1, 1);
    let mut maze = open_room();
    reset_game(&mut p, &mut s, &mut maze, sealed_with_goal(), &t);
    assert_eq!((p.pos.x, p.pos.y, p.angle, p.fov), (1536, 1536, 0, 6000));
    assert_eq!((s.x, s.y, s.size, s.speed), (1536, 3584, 1024, 7));
    assert_eq!(maze, sealed_with_goal());
    assert_eq!(s.texture.pixels, vec![5]);
}
