//! Behaviour of the simulation engine and the session state machine.
use tile_game::game_state::{Difficulty, GameState, TileGameState};
use tile_game::tile::{Tile, CENTERED_DISTANCE, TILE_HEIGHT};

fn fresh() -> TileGameState {
    TileGameState::default()
}

fn playing(slot_count: u8) -> TileGameState {
    let mut s = TileGameState::default();
    s.start_game(Difficulty::Normal, slot_count, 0);
    s
}

fn spawn_interval_for(hit_count: i32) -> u32 {
    let mut s = fresh();
    s.tile_hit_count = hit_count;
    s.update_tile_spawn_time();
    s.tile_spawn_time
}

#[test]
fn spawn_interval_below_zero() {
    assert_eq!(spawn_interval_for(-1), 1750);
    assert_eq!(spawn_interval_for(-100), 1750);
}

#[test]
fn spawn_interval_boundaries() {
    assert_eq!(spawn_interval_for(0), 1500);
    assert_eq!(spawn_interval_for(5), 1500);
    assert_eq!(spawn_interval_for(6), 1250);
    assert_eq!(spawn_interval_for(10), 1250);
    assert_eq!(spawn_interval_for(11), 1000);
    assert_eq!(spawn_interval_for(20), 1000);
    assert_eq!(spawn_interval_for(21), 750);
    assert_eq!(spawn_interval_for(30), 750);
    assert_eq!(spawn_interval_for(31), 500);
    assert_eq!(spawn_interval_for(50), 500);
    assert_eq!(spawn_interval_for(51), 250);
    assert_eq!(spawn_interval_for(1000), 250);
}

#[test]
fn is_hit_needs_matching_slot() {
    let t = Tile { distance: CENTERED_DISTANCE, slot: 1, speed: 200 };
    assert!(!t.is_hit(0));
    assert!(!t.is_hit(2));
    assert!(t.is_hit(1));
    let far = Tile { distance: -TILE_HEIGHT, slot: 1, speed: 200 };
    assert!(!far.is_hit(0));
}

#[test]
fn is_hit_window_boundaries() {
    // The window around the centered distance is 6250 hundredths wide on
    // each side.
    let at = |d: i64| Tile { distance: d, slot: 0, speed: 200 };
    assert!(at(CENTERED_DISTANCE).is_hit(0));
    assert!(at(CENTERED_DISTANCE - 6250).is_hit(0));
    assert!(!at(CENTERED_DISTANCE - 6251).is_hit(0));
    assert!(at(CENTERED_DISTANCE + 6250).is_hit(0));
    assert!(!at(CENTERED_DISTANCE + 6251).is_hit(0));
}

#[test]
fn centered_tile_is_removed_and_scores_two() {
    let mut s = playing(3);
    s.tiles.push(Tile { distance: CENTERED_DISTANCE, slot: 0, speed: 200 });
    s.press_slot(0, 77);
    assert_eq!(s.tile_hit_count, 2);
    assert_eq!(s.slot_clicks, 0);
    assert!(s.tiles.is_empty());
    assert_eq!(s.slot_press_time[0], 77);
}

#[test]
fn out_of_window_tile_stays_and_press_is_a_strike() {
    let mut s = playing(3);
    s.tiles.push(Tile { distance: 0, slot: 0, speed: 200 });
    s.press_slot(0, 5);
    assert_eq!(s.tile_hit_count, 0);
    assert_eq!(s.slot_clicks, 1);
    assert_eq!(s.tiles.len(), 1);
}

#[test]
fn press_on_other_slot_does_not_remove() {
    let mut s = playing(3);
    s.tiles.push(Tile { distance: CENTERED_DISTANCE, slot: 1, speed: 200 });
    s.press_slot(0, 5);
    assert_eq!(s.tiles.len(), 1);
    assert_eq!(s.tile_hit_count, 0);
    assert_eq!(s.slot_clicks, 1);
}

#[test]
fn score_is_hits_minus_strikes() {
    let mut s = playing(2);
    s.tiles.push(Tile { distance: CENTERED_DISTANCE, slot: 0, speed: 200 });
    s.press_slot(0, 1); // hit: +2
    s.press_slot(1, 2); // miss-press: one strike
    s.press_slot(1, 3); // miss-press: one strike
    assert_eq!(s.tile_hit_count, 2);
    assert_eq!(s.slot_clicks, 2);
    assert_eq!(s.get_score(), 0);
    // The equation holds after ticks as well.
    s.tick_game_state(0, &vec![]);
    assert_eq!(s.get_score(), s.tile_hit_count - s.slot_clicks);
}

#[test]
fn fresh_session_normal_three_slots() {
    let s = playing(3);
    assert!(s.tiles.is_empty());
    assert_eq!(s.lives, 10);
    assert_eq!(s.get_score(), 0);
    assert_eq!(s.state, GameState::Playing(Difficulty::Normal));
    assert_eq!(s.slot_count, 3);
    assert_eq!(s.slot_press_time, vec![0, 0, 0]);
}

#[test]
fn hard_start_preseeds_counters() {
    let mut s = fresh();
    s.start_game(Difficulty::Hard, 3, 0);
    // Before any tick runs.
    assert_eq!(s.tile_hit_count, 30);
    assert_eq!(s.lives, 5);
    assert_eq!(s.state, GameState::Playing(Difficulty::Hard));
}

#[test]
fn tick_advances_tiles_by_their_speed() {
    let mut s = playing(1);
    s.tiles.push(Tile { distance: 1000, slot: 0, speed: 300 });
    s.time_since_tile = 50;
    s.tick_game_state(50, &vec![]); // elapsed 0: no spawn
    assert_eq!(s.tiles.len(), 1);
    assert_eq!(s.tiles[0].distance, 1300);
}

#[test]
fn tick_spawns_when_interval_elapsed() {
    let mut s = playing(3);
    s.time_since_tile = 0;
    s.tick_game_state(1500, &vec![]); // hit count 0: interval 1500
    assert_eq!(s.tiles.len(), 1);
    assert_eq!(s.tiles[0].distance, -TILE_HEIGHT);
    assert_eq!(s.tiles[0].speed, 200);
    assert!(s.tiles[0].slot < 3);
    assert_eq!(s.time_since_tile, 1500);
    // Below the interval nothing spawns.
    s.tick_game_state(2000, &vec![]);
    assert_eq!(s.tiles.len(), 1);
}

#[test]
fn missed_tiles_cost_lives() {
    let mut s = playing(1);
    for _ in 0..6 {
        s.tiles.push(Tile { distance: 60000, slot: 0, speed: 200 });
    }
    s.cleanup_tiles();
    assert_eq!(s.lives, 4);
    assert!(s.tiles.is_empty());
}

#[test]
fn session_ends_the_tick_lives_would_go_negative() {
    let mut s = playing(1);
    // One miss per tick; the spawn clock is reset each tick so nothing new
    // spawns.
    for round in 0..11 {
        assert_eq!(s.state, GameState::Playing(Difficulty::Normal));
        assert_eq!(s.lives, 10 - round);
        s.tiles.push(Tile { distance: 59999, slot: 0, speed: 200 });
        s.time_since_tile = round as u64;
        s.tick_game_state(round as u64, &vec![]);
    }
    // Ten misses brought lives to zero while still playing; the eleventh
    // drives them negative and ends the session.
    assert_eq!(s.lives, -1);
    assert_eq!(s.state, GameState::ScoreScreen);
}

#[test]
fn invalid_slots_in_the_pressed_set_are_ignored() {
    let mut s = playing(2);
    s.time_since_tile = 10;
    s.tick_game_state(10, &vec![7, 250]);
    assert_eq!(s.slot_clicks, 0);
    assert_eq!(s.tile_hit_count, 0);
}

#[test]
fn duplicate_pressed_slots_count_once() {
    let mut s = playing(2);
    s.time_since_tile = 10;
    s.tick_game_state(10, &vec![1, 1, 1]);
    assert_eq!(s.slot_clicks, 1);
}

#[test]
fn start_game_is_only_valid_at_the_menu() {
    let mut s = playing(3);
    s.tile_hit_count = 7;
    s.start_game(Difficulty::Hard, 5, 9);
    // No-op: the session is untouched.
    assert_eq!(s.state, GameState::Playing(Difficulty::Normal));
    assert_eq!(s.tile_hit_count, 7);
    assert_eq!(s.slot_count, 3);
}

#[test]
fn back_to_menu_from_score_screen_and_leaderboards() {
    let mut s = fresh();
    s.state = GameState::ScoreScreen;
    s.goto_main_menu();
    assert_eq!(s.state, GameState::MainMenu);

    s.state = GameState::Leaderboards;
    s.goto_main_menu();
    assert_eq!(s.state, GameState::MainMenu);

    // Not a valid transition while playing.
    let mut p = playing(2);
    p.goto_main_menu();
    assert_eq!(p.state, GameState::Playing(Difficulty::Normal));
}

#[test]
fn leaderboard_view_opens_from_the_menu_only() {
    let mut s = fresh();
    s.goto_leaderboards();
    assert_eq!(s.state, GameState::Leaderboards);
    s.goto_leaderboards();
    assert_eq!(s.state, GameState::Leaderboards);
    s.goto_main_menu();
    assert_eq!(s.state, GameState::MainMenu);
}

#[test]
fn hard_mode_speeds_stay_in_the_allowed_set() {
    let mut s = fresh();
    s.start_game(Difficulty::Hard, 3, 0);
    s.tile_hit_count = 30;
    for _ in 0..20 {
        let v = s.get_tile_speed();
        assert!(v == 200 || v == 400);
    }
    s.tile_hit_count = 41;
    for _ in 0..20 {
        let v = s.get_tile_speed();
        assert!(v == 200 || v == 400 || v == 600);
    }
}

#[test]
fn normal_mode_speed_ramp_is_fixed() {
    let mut s = playing(3);
    s.tile_hit_count = 20;
    assert_eq!(s.get_tile_speed(), 200);
    s.tile_hit_count = 21;
    assert_eq!(s.get_tile_speed(), 400);
    s.tile_hit_count = 40;
    assert_eq!(s.get_tile_speed(), 400);
    s.tile_hit_count = 41;
    assert_eq!(s.get_tile_speed(), 600);
}
