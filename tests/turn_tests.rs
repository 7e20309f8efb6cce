use roguelike::combat::WantsToMelee;
use roguelike::enemy::{enemy_ai, is_adjacent, next_ai_state, AiState, NavigationPath};
use roguelike::items::WantsToPickupItem;
use roguelike::map::{map_index, GameMap, Occupant, Position, Rect, TileType};
use roguelike::player::{player_input, GroundItem, PlayerAction, PlayerIntent};
use roguelike::state::{next_phase, AppState, AppStateManager, GameState, TurnPhase};
use roguelike::visibility::Viewshed;

fn room_map() -> GameMap {
    let mut map = GameMap::new(10, 10);
    map.apply_room_to_map(&Rect::new(0, 0, 8, 8));
    map.populate_blocked();
    map
}

#[test]
fn phases_cycle_in_order() {
    assert_eq!(next_phase(TurnPhase::PreRun, false, false), TurnPhase::AwaitingInput);
    assert_eq!(next_phase(TurnPhase::AwaitingInput, false, false), TurnPhase::AwaitingInput);
    assert_eq!(next_phase(TurnPhase::AwaitingInput, true, false), TurnPhase::PlayerTurn);
    assert_eq!(next_phase(TurnPhase::PlayerTurn, false, false), TurnPhase::MonsterTurn);
    assert_eq!(next_phase(TurnPhase::MonsterTurn, false, false), TurnPhase::AwaitingInput);
    assert_eq!(next_phase(TurnPhase::MonsterTurn, true, true), TurnPhase::PreRun);
}

#[test]
fn state_manager_requests() {
    let mut m = AppStateManager::new();
    m.start_game();
    assert_eq!(m.app_next_state, Some(AppState::InGame));
    assert_eq!(m.game_next_state, Some(GameState::Playing));
    m.start_tootip();
    assert_eq!(m.game_next_state, Some(GameState::ToolTip));
    m.start_tab();
    assert_eq!(m.game_next_state, Some(GameState::Tab));
    m.start_playing();
    assert_eq!(m.game_next_state, Some(GameState::Playing));
    assert_eq!(m.app_next_state, Some(AppState::InGame));
    m.end_game();
    assert_eq!(m.app_next_state, Some(AppState::Menu));
    assert_eq!(m.game_next_state, Some(GameState::Inactive));
}

#[test]
fn player_moves_and_finds_items() {
    let map = room_map();
    let mut pos = Position { x: 3, y: 3 };
    let mut phase = TurnPhase::AwaitingInput;
    let items = vec![GroundItem { item: 5, position: Position { x: 4, y: 3 } }];
    let r = player_input(&map, 0, &mut pos, PlayerIntent::Move { dx: 1, dy: 0 }, &items, &mut phase);
    assert_eq!(
        r,
        PlayerAction::Moved {
            to: Position { x: 4, y: 3 },
            pickup: Some(WantsToPickupItem { collected_by: 0, item: 5 })
        }
    );
    assert_eq!(pos, Position { x: 4, y: 3 });
    assert_eq!(phase, TurnPhase::PlayerTurn);
    let r = player_input(&map, 0, &mut pos, PlayerIntent::Move { dx: 0, dy: 1 }, &items, &mut phase);
    assert_eq!(r, PlayerAction::Moved { to: Position { x: 4, y: 4 }, pickup: None });
    assert_eq!(player_input(&map, 0, &mut pos, PlayerIntent::Wait, &items, &mut phase), PlayerAction::Waited);
    assert_eq!(pos, Position { x: 4, y: 4 });
}

#[test]
fn player_is_stopped_by_walls() {
    let map = room_map();
    let mut pos = Position { x: 1, y: 1 };
    let mut phase = TurnPhase::AwaitingInput;
    assert_eq!(map.tiles[map.xy_idx(0, 1)], TileType::Wall);
    let r = player_input(&map, 0, &mut pos, PlayerIntent::Move { dx: -1, dy: 0 }, &vec![], &mut phase);
    assert_eq!(r, PlayerAction::Blocked);
    assert_eq!(pos, Position { x: 1, y: 1 });
    assert_eq!(phase, TurnPhase::AwaitingInput);
}

#[test]
fn player_moves_are_clamped_to_the_map() {
    let mut map = GameMap::new(3, 3);
    for i in 0..9 {
        map.tiles[i] = TileType::Floor;
    }
    map.populate_blocked();
    let mut pos = Position { x: 0, y: 0 };
    let mut phase = TurnPhase::AwaitingInput;
    let r = player_input(&map, 0, &mut pos, PlayerIntent::Move { dx: -1, dy: 0 }, &vec![], &mut phase);
    assert_eq!(r, PlayerAction::Moved { to: Position { x: 0, y: 0 }, pickup: None });
}

#[test]
fn player_attacks_instead_of_moving() {
    let mut map = room_map();
    map_index(&mut map, &vec![Occupant { position: Position { x: 3, y: 2 }, entity: 4, blocks_tile: true }]);
    let mut pos = Position { x: 3, y: 3 };
    let mut phase = TurnPhase::AwaitingInput;
    let r = player_input(&map, 0, &mut pos, PlayerIntent::Move { dx: 0, dy: -1 }, &vec![], &mut phase);
    assert_eq!(r, PlayerAction::Attack(WantsToMelee { attacker: 0, target: 4 }));
    assert_eq!(pos, Position { x: 3, y: 3 });
    assert_eq!(phase, TurnPhase::PlayerTurn);
}

#[test]
fn adjacency_includes_diagonals() {
    let o = Position { x: 5, y: 5 };
    assert!(is_adjacent(o, Position { x: 6, y: 6 }));
    assert!(is_adjacent(o, Position { x: 5, y: 4 }));
    assert!(!is_adjacent(o, Position { x: 7, y: 5 }));
    assert!(!is_adjacent(o, Position { x: i32::MIN, y: 5 }));
}

#[test]
fn monsters_follow_what_they_see() {
    let mut vs = Viewshed::new(9);
    vs.visible_tiles = vec![Position { x: 2, y: 2 }];
    assert_eq!(next_ai_state(&vs, AiState::Idle, Position { x: 2, y: 2 }), AiState::Follow);
    assert_eq!(next_ai_state(&vs, AiState::Follow, Position { x: 3, y: 2 }), AiState::Idle);
}

#[test]
fn adjacent_monster_attacks() {
    let map = room_map();
    let mut pos = Position { x: 3, y: 3 };
    let mut vs = Viewshed::new(9);
    vs.dirty = false;
    let path = NavigationPath { success: true, steps: vec![33, 34] };
    let r = enemy_ai(&map, 2, AiState::Follow, &mut pos, &mut vs, 0, Position { x: 4, y: 4 }, &path);
    assert_eq!(r, Some(WantsToMelee { attacker: 2, target: 0 }));
    assert_eq!(pos, Position { x: 3, y: 3 });
    assert!(!vs.dirty);
}

#[test]
fn failed_or_short_paths_leave_monsters_standing() {
    let map = room_map();
    let mut pos = Position { x: 1, y: 1 };
    let mut vs = Viewshed::new(9);
    vs.dirty = false;
    let target = Position { x: 6, y: 6 };
    let failed = NavigationPath { success: false, steps: vec![11, 22] };
    assert_eq!(enemy_ai(&map, 2, AiState::Follow, &mut pos, &mut vs, 0, target, &failed), None);
    let short = NavigationPath { success: true, steps: vec![11] };
    assert_eq!(enemy_ai(&map, 2, AiState::Follow, &mut pos, &mut vs, 0, target, &short), None);
    assert_eq!(pos, Position { x: 1, y: 1 });
    let good = NavigationPath { success: true, steps: vec![11, 22] };
    assert_eq!(enemy_ai(&map, 2, AiState::Idle, &mut pos, &mut vs, 0, target, &good), None);
    assert_eq!(pos, Position { x: 1, y: 1 });
    assert!(!vs.dirty);
    assert_eq!(enemy_ai(&map, 2, AiState::Follow, &mut pos, &mut vs, 0, target, &good), None);
    assert_eq!(pos, Position { x: 2, y: 2 });
    assert!(vs.dirty);
}
