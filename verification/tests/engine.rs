use raycaster::engine::update::movement_input;
use raycaster::engine::Engine;
use raycaster::run_game;
use raycaster::world::map::TileMap;

fn room() -> TileMap {
    // 4 columns, 3 rows
    TileMap {
        map_width: 4,
        map_height: 3,
        wall_map: vec![1, 1, 1, 1, 1, 0, 2, 1, 1, 1, 1, 1],
    }
}

fn hall() -> TileMap {
    TileMap { map_width: 2, map_height: 2, wall_map: vec![0, 3, 0, 0] }
}

#[test]
fn no_levels_no_game() {
    assert!(run_game(Vec::new(), 640, 480).is_none());
}

#[test]
fn game_starts_on_first_level() {
    let engine = run_game(vec![room(), hall()], 640, 480).unwrap();
    assert_eq!(engine.current_level_idx, 0);
    assert!(!engine.is_paused);
    assert!(!engine.show_debug);
    assert_eq!(engine.level_count(), 2);
    assert_eq!(engine.scr_width(), 640);
    assert_eq!(engine.scr_height(), 480);
}

#[test]
fn get_tile_reads_row_by_row() {
    let engine = Engine::new(vec![room()], 640, 480);
    assert_eq!(engine.get_tile(1, 1), 0);
    assert_eq!(engine.get_tile(2, 1), 2);
    assert_eq!(engine.get_tile(0, 0), 1);
}

#[test]
fn get_tile_outside_is_wall() {
    let engine = Engine::new(vec![hall()], 640, 480);
    assert_eq!(engine.get_tile(0, 0), 0);
    assert_eq!(engine.get_tile(2, 0), 1);
    assert_eq!(engine.get_tile(0, 2), 1);
    assert_eq!(engine.get_tile(usize::MAX, usize::MAX), 1);
}

#[test]
fn get_tile_past_stored_tiles_is_wall() {
    let short = TileMap { map_width: 3, map_height: 3, wall_map: vec![0, 0, 0, 0] };
    let engine = Engine::new(vec![short], 640, 480);
    assert_eq!(engine.get_tile(0, 1), 0);
    assert_eq!(engine.get_tile(1, 1), 1);
}

#[test]
fn change_level_switches_maps() {
    let mut engine = Engine::new(vec![room(), hall()], 640, 480);
    assert!(engine.change_level(1));
    assert_eq!(engine.current_level_idx, 1);
    assert_eq!(engine.get_tile(1, 0), 3);
    assert_eq!(engine.current_map().map_width, 2);
}

#[test]
fn change_level_past_last_is_ignored() {
    let mut engine = Engine::new(vec![room(), hall()], 640, 480);
    assert!(!engine.change_level(2));
    assert_eq!(engine.current_level_idx, 0);
    assert!(engine.change_level(1));
    assert!(!engine.change_level(7));
    assert_eq!(engine.current_level_idx, 1);
}

#[test]
fn lost_focus_pauses() {
    let mut engine = Engine::new(vec![room()], 640, 480);
    let plan = engine.begin_frame(true);
    assert!(plan.handle_input && plan.update_entities && !plan.draw_pause && !plan.draw_debug);
    let plan = engine.begin_frame(false);
    assert!(engine.is_paused);
    assert!(!plan.handle_input && !plan.update_entities && plan.draw_pause);
}

#[test]
fn pause_sticks_when_focus_returns() {
    let mut engine = Engine::new(vec![room()], 640, 480);
    engine.begin_frame(false);
    for _ in 0..3 {
        let plan = engine.begin_frame(true);
        assert!(engine.is_paused);
        assert!(plan.draw_pause);
    }
}

#[test]
fn debug_overlay_follows_switch() {
    let mut engine = Engine::new(vec![room()], 640, 480);
    engine.show_debug = true;
    let plan = engine.begin_frame(true);
    assert!(plan.draw_debug);
}

#[test]
fn entity_collision_reads_column_major() {
    let map = room();
    // index = x * map_width + y
    assert!(map.entity_can_enter(1, 1));
    assert!(!map.entity_can_enter(0, 1));
    assert!(!map.entity_can_enter(1, 2));
    assert!(!map.entity_can_enter(5, 0));
}

#[test]
fn movement_keys() {
    assert_eq!(movement_input(false, false, false, false), (0, 0));
    assert_eq!(movement_input(true, false, false, false), (0, 1));
    assert_eq!(movement_input(false, true, false, false), (0, -1));
    assert_eq!(movement_input(false, false, true, false), (-1, 0));
    assert_eq!(movement_input(false, false, false, true), (1, 0));
    assert_eq!(movement_input(true, true, true, true), (0, 0));
    assert_eq!(movement_input(true, false, true, false), (-1, 1));
}

#[test]
fn active_window_never_pauses() {
    let mut engine = Engine::new(vec![room()], 640, 480);
    for _ in 0..5 {
        let plan = engine.begin_frame(true);
        assert!(!engine.is_paused);
        assert!(plan.handle_input);
    }
}

#[test]
fn entity_lookup_past_end_is_wall() {
    let map = hall();
    // x * map_width + y
    assert!(map.entity_can_enter(0, 0));
    assert!(!map.entity_can_enter(0, 1));
    assert!(map.entity_can_enter(1, 0));
    assert!(map.entity_can_enter(1, 1));
    assert!(!map.entity_can_enter(2, 0));
}
