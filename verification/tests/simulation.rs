use platman::collide::{resolve, BOUND_NEG_X, BOUND_POS_X};
use platman::game::Game;
use platman::player::{move_player, player_input, Player, PLAYER_HALF};
use platman::round::{
    start_round, MapLoadError, Round, Scoreboard, OUT_OF_BOUNDS_Y, PLAYER_START_X,
    PLAYER_START_Y,
};
use platman::tile::{Tile, TileType, COIN_HALF, WALL_HALF};
use platman::types::GameState;

/// One world unit, in micro-units.
const U: i64 = 1_000_000;

fn idle_player() -> Player {
    Player {
        x: 0,
        y: 0,
        vx: 0,
        vy: 0,
        grounded: false,
        jump_held_ms: 0,
        input_x: 0,
        input_y: 0,
    }
}

fn wall_at(x: i64, y: i64) -> Tile {
    Tile { kind: TileType::Wall, x, y, half_x: WALL_HALF, half_y: WALL_HALF }
}

fn coin_at(x: i64, y: i64) -> Tile {
    Tile { kind: TileType::Coin, x, y, half_x: COIN_HALF, half_y: COIN_HALF }
}

fn teleporter_at(x: i64, y: i64) -> Tile {
    Tile { kind: TileType::Teleporter, x, y, half_x: COIN_HALF, half_y: COIN_HALF }
}

#[test]
fn wall_on_left_blocks_leftward_input() {
    let mut p = idle_player();
    p.input_x = -1;
    let tiles = vec![wall_at(-20 * U, 0)];
    let coins = resolve(&mut p, &tiles);
    assert_eq!(p.input_x, 0);
    assert!(coins.is_empty());
    assert!(!p.grounded);
}

#[test]
fn wall_on_left_lets_rightward_input_pass() {
    let mut p = idle_player();
    p.input_x = 1;
    let tiles = vec![wall_at(-20 * U, 0)];
    resolve(&mut p, &tiles);
    assert_eq!(p.input_x, 1);
}

#[test]
fn wall_below_grounds_and_snaps() {
    let mut p = idle_player();
    let tiles = vec![wall_at(0, -20 * U)];
    resolve(&mut p, &tiles);
    assert!(p.grounded);
    // Snapped so the player's bottom edge rests on the wall's top edge.
    assert_eq!(p.y, -20 * U + WALL_HALF + PLAYER_HALF);
}

#[test]
fn wall_above_zeroes_vertical_motion() {
    let mut p = idle_player();
    p.vy = 100_000;
    p.input_y = 1;
    let tiles = vec![wall_at(0, 20 * U)];
    resolve(&mut p, &tiles);
    assert_eq!(p.vy, 0);
    assert_eq!(p.input_y, 0);
}

#[test]
fn teleporter_wraps_both_ways() {
    // Left contact wraps to the positive bound, whatever the velocity.
    let mut p = idle_player();
    p.vx = -250_000;
    let tiles = vec![teleporter_at(-16 * U, 0)];
    resolve(&mut p, &tiles);
    assert_eq!(p.x, BOUND_POS_X);
    // Right contact wraps to the negative bound.
    let mut q = idle_player();
    q.vx = 250_000;
    let tiles = vec![teleporter_at(16 * U, 0)];
    resolve(&mut q, &tiles);
    assert_eq!(q.x, BOUND_NEG_X);
}

#[test]
fn grounded_is_recomputed_every_tick() {
    let mut p = idle_player();
    p.grounded = true;
    // No tile supplies a bottom wall contact: grounded must drop to false,
    // regardless of its value entering the tick.
    let tiles: Vec<Tile> = Vec::new();
    resolve(&mut p, &tiles);
    assert!(!p.grounded);
    // A coin below is no wall: it does not ground either.
    let mut q = idle_player();
    q.grounded = true;
    let tiles = vec![coin_at(0, -16 * U)];
    resolve(&mut q, &tiles);
    assert!(!q.grounded);
}

#[test]
fn grounded_jump_applies_impulse() {
    let mut p = idle_player();
    p.grounded = true;
    p.input_y = 1;
    move_player(&mut p, 16);
    assert_eq!(p.vy, 20_000 * 16);
    assert_eq!(p.jump_held_ms, 16);
    assert_eq!(p.y, 20_000 * 16 * 16);
}

#[test]
fn grounded_without_jump_rests() {
    let mut p = idle_player();
    p.grounded = true;
    p.vy = 123;
    move_player(&mut p, 16);
    assert_eq!(p.vy, 0);
    assert_eq!(p.y, 0);
}

#[test]
fn airborne_held_jump_extends_within_window() {
    let mut p = idle_player();
    p.jump_held_ms = 100;
    p.input_y = 1;
    p.vy = 50_000;
    move_player(&mut p, 100);
    // Held boost: +100 per millisecond of tick.
    assert_eq!(p.vy, 50_000 + 100 * 100);
    assert_eq!(p.jump_held_ms, 200);
}

#[test]
fn jump_hold_window_is_a_hard_bound() {
    // Past 175 ms of hold, the held boost stops even with jump still held:
    // only gravity applies, and the stopwatch resets.
    let mut p = idle_player();
    p.jump_held_ms = 175;
    p.input_y = 1;
    p.vy = 0;
    move_player(&mut p, 100);
    assert_eq!(p.vy, -2_500 * 100);
    assert_eq!(p.jump_held_ms, 0);
}

#[test]
fn airborne_release_resets_hold_and_falls() {
    let mut p = idle_player();
    p.jump_held_ms = 100;
    p.input_y = 0;
    p.vy = 7_000;
    move_player(&mut p, 16);
    assert_eq!(p.vy, 7_000 - 2_500 * 16);
    assert_eq!(p.jump_held_ms, 0);
}

#[test]
fn horizontal_speed_is_instantaneous() {
    let mut p = idle_player();
    p.input_x = 1;
    move_player(&mut p, 16);
    assert_eq!(p.vx, 250_000);
    assert_eq!(p.x, 250_000 * 16);
    p.input_x = -1;
    move_player(&mut p, 16);
    assert_eq!(p.vx, -250_000);
}

#[test]
fn player_input_mapping() {
    assert_eq!(player_input(false, true, true), (1, 1));
    assert_eq!(player_input(true, false, false), (-1, 0));
    assert_eq!(player_input(false, false, false), (0, 0));
    // Right wins over left when both are held.
    assert_eq!(player_input(true, true, false), (1, 0));
}

#[test]
fn coin_scores_once_and_is_removed() {
    let mut round = Round {
        player: idle_player(),
        tiles: vec![coin_at(0, -16 * U)],
        scoreboard: Scoreboard { score: 0 },
    };
    let over = round.tick(0, 0, 0);
    assert!(!over);
    assert_eq!(round.scoreboard.score, 1);
    assert_eq!(round.tiles.len(), 0);
    // The collected coin is gone: a second pass cannot re-trigger it.
    let over = round.tick(0, 0, 0);
    assert!(!over);
    assert_eq!(round.scoreboard.score, 1);
}

#[test]
fn only_overlapping_coins_are_collected() {
    let mut round = Round {
        player: idle_player(),
        tiles: vec![coin_at(0, -16 * U), coin_at(100 * U, 0), wall_at(0, -20 * U)],
        scoreboard: Scoreboard { score: 0 },
    };
    round.tick(0, 0, 0);
    assert_eq!(round.scoreboard.score, 1);
    // The far coin and the wall survive.
    assert_eq!(round.tiles.len(), 2);
    assert_eq!(round.tiles[0].kind, TileType::Coin);
    assert_eq!(round.tiles[1].kind, TileType::Wall);
}

#[test]
fn forty_coins_end_the_round_exactly_then() {
    // 39 coins do not end the round...
    let mut round = Round {
        player: idle_player(),
        tiles: (0..39).map(|_| coin_at(0, -16 * U)).collect(),
        scoreboard: Scoreboard { score: 0 },
    };
    assert!(!round.tick(0, 0, 0));
    assert_eq!(round.scoreboard.score, 39);
    // ...the 40th, collected on a later tick, does: exactly once, after
    // the 40th collection and not before.
    round.tiles.push(coin_at(0, -16 * U));
    let mut game = Game { state: GameState::InGame, round: Some(round) };
    let over = game.tick(0, 0, 16);
    assert!(over);
    assert_eq!(game.state, GameState::GameOver);
    assert!(game.round.is_none());
}

#[test]
fn falling_out_of_bounds_ends_the_round() {
    let mut p = idle_player();
    p.y = OUT_OF_BOUNDS_Y - U;
    let round = Round {
        player: p,
        tiles: Vec::new(),
        scoreboard: Scoreboard { score: 0 },
    };
    let mut game = Game { state: GameState::InGame, round: Some(round) };
    let over = game.tick(0, 0, 16);
    assert!(over);
    assert_eq!(game.state, GameState::GameOver);
    assert!(game.round.is_none());
}

#[test]
fn in_bounds_round_continues() {
    let round = Round {
        player: idle_player(),
        tiles: Vec::new(),
        scoreboard: Scoreboard { score: 0 },
    };
    let mut game = Game { state: GameState::InGame, round: Some(round) };
    assert!(!game.tick(0, 0, 16));
    assert_eq!(game.state, GameState::InGame);
}

#[test]
fn menu_confirm_starts_a_fresh_round() {
    let mut game = Game::new();
    assert_eq!(game.state, GameState::MainMenu);
    let map = Some(b"1,2,3".to_vec());
    let r = game.menu_step(true, false, &map);
    assert!(r.is_ok());
    assert_eq!(game.state, GameState::InGame);
    let round = game.round.as_ref().unwrap();
    // Scoreboard reset to 0, exactly one player at the start coordinate.
    assert_eq!(round.scoreboard.score, 0);
    assert_eq!(round.player.x, PLAYER_START_X);
    assert_eq!(round.player.y, PLAYER_START_Y);
    assert_eq!(round.tiles.len(), 3);
}

#[test]
fn menu_without_confirm_stays() {
    let mut game = Game::new();
    let r = game.menu_step(false, true, &None);
    assert!(r.is_ok());
    assert_eq!(game.state, GameState::MainMenu);
    assert!(game.round.is_none());
}

#[test]
fn missing_map_is_fatal_and_round_not_entered() {
    let mut game = Game::new();
    let r = game.menu_step(true, false, &None);
    assert_eq!(r, Err(MapLoadError));
    assert_eq!(game.state, GameState::MainMenu);
    assert!(game.round.is_none());
    assert!(start_round(&None).is_err());
}

#[test]
fn game_over_cancel_returns_to_menu() {
    let mut game = Game { state: GameState::GameOver, round: None };
    let r = game.menu_step(false, true, &None);
    assert!(r.is_ok());
    assert_eq!(game.state, GameState::MainMenu);
}

#[test]
fn game_over_confirm_restarts() {
    let mut game = Game { state: GameState::GameOver, round: None };
    let map = Some(b"3".to_vec());
    let r = game.menu_step(true, false, &map);
    assert!(r.is_ok());
    assert_eq!(game.state, GameState::InGame);
    assert_eq!(game.round.as_ref().unwrap().scoreboard.score, 0);
}

#[test]
fn game_over_cancel_wins_over_confirm() {
    let mut game = Game { state: GameState::GameOver, round: None };
    let map = Some(b"3".to_vec());
    game.menu_step(true, true, &map).unwrap();
    assert_eq!(game.state, GameState::MainMenu);
}

#[test]
fn default_state_is_main_menu() {
    assert_eq!(GameState::default(), GameState::MainMenu);
}

#[test]
fn full_round_lands_on_a_loaded_floor() {
    // Two rows of unrecognized tokens (they advance the cursor but build
    // nothing), then a full row of walls: a floor at row 2, whose top edge
    // sits at -299.5 world units.
    let mut tokens: Vec<&str> = Vec::new();
    for _ in 0..82 {
        tokens.push("0");
    }
    for _ in 0..41 {
        tokens.push("1");
    }
    let map = Some(tokens.join(",").into_bytes());

    let mut game = Game::new();
    game.menu_step(true, false, &map).unwrap();
    assert_eq!(game.state, GameState::InGame);
    assert_eq!(game.round.as_ref().unwrap().tiles.len(), 41);

    // The spawn point overlaps the floor from above: the first tick snaps
    // the player's bottom edge onto the floor's top edge and grounds it.
    assert!(!game.tick(0, 0, 16));
    {
        let r = game.round.as_ref().unwrap();
        assert_eq!(r.player.y, -287 * U);
        assert!(r.player.grounded);
    }
    // Exactly on the edge there is no strict overlap: the player falls by
    // gravity for one tick (2500 * 16 ms = 40000 milli-units/s over 16 ms).
    assert!(!game.tick(0, 0, 16));
    assert_eq!(game.round.as_ref().unwrap().player.y, -287 * U - 640_000);
    // ...and the next tick snaps it back onto the floor.
    assert!(!game.tick(0, 0, 16));
    {
        let r = game.round.as_ref().unwrap();
        assert_eq!(r.player.y, -287 * U);
        assert!(r.player.grounded);
        assert_eq!(r.scoreboard.score, 0);
    }
}
