use roguelike::spawner::{enemy_type_for, item_for, pick_spawn_points, plan_room};
use bracket_pathfinding::prelude::{field_of_view, Algorithm2D, BaseMap, Point};
use roguelike::enemy::NavigationPath;
use roguelike::items::{health_potion, magic_missile_scroll};
use roguelike::map::{GameMap, Position, Rect};
use roguelike::player::{PlayerAction, PlayerIntent};
use roguelike::rng::RandomNumberGenerator;
use roguelike::spawner::{enemy, goblin, orc, player, random_enemy, random_item, spawn_room, ActorKind};
use roguelike::enemy::{AiState, EnemyType};
use roguelike::state::TurnPhase;
use roguelike::world::World;

struct Sight<'a>(&'a GameMap);

impl BaseMap for Sight<'_> {
    fn is_opaque(&self, idx: usize) -> bool {
        self.0.is_opaque(idx)
    }
}

impl Algorithm2D for Sight<'_> {
    fn dimensions(&self) -> Point {
        Point::new(self.0.width, self.0.height)
    }
}

#[test]
fn templates_have_their_stats() {
    let p = player(3, 4);
    assert_eq!(p.kind, ActorKind::Player);
    assert_eq!((p.stats.max_hp, p.stats.hp, p.stats.defense, p.stats.power), (30, 30, 2, 5));
    assert!(!p.blocks_tile && p.viewshed.dirty && p.viewshed.range == 9);
    let e = enemy(EnemyType::O, 7, 1, 2);
    assert_eq!((e.stats.max_hp, e.stats.hp, e.stats.defense, e.stats.power), (16, 16, 1, 3));
    assert!(e.blocks_tile);
    assert_eq!(e.ai, AiState::Idle);
    assert_eq!(goblin(1, 0, 0).kind, ActorKind::Enemy { enemy_type: EnemyType::G, index: 1 });
    assert_eq!(orc(2, 0, 0).kind, ActorKind::Enemy { enemy_type: EnemyType::O, index: 2 });
}

#[test]
fn random_picks_stay_among_templates() {
    let mut rng = RandomNumberGenerator::seeded(9);
    let mut kinds = vec![];
    for i in 0..40 {
        let it = random_item(&mut rng);
        assert!(it == health_potion() || it == magic_missile_scroll());
        let e = random_enemy(&mut rng, 1, 1, i);
        assert_eq!(e.position, Position { x: 1, y: 1 });
        kinds.push(e.kind);
    }
    assert!(kinds.iter().any(|k| matches!(k, ActorKind::Enemy { enemy_type: EnemyType::G, .. })));
    assert!(kinds.iter().any(|k| matches!(k, ActorKind::Enemy { enemy_type: EnemyType::O, .. })));
}

#[test]
fn room_spawns_are_inside_and_distinct() {
    let mut rng = RandomNumberGenerator::seeded(4);
    let room = Rect::new(10, 10, 6, 5);
    for _ in 0..50 {
        let plan = spawn_room(&mut rng, &room, 2, 4, 4);
        assert_eq!(plan.monster_numbers, (0..plan.monsters.len()).map(|k| 8 + k).collect::<Vec<usize>>());
        assert!(plan.monsters.len() <= 3 && plan.items.len() <= 3);
        for list in [&plan.monsters, &plan.items] {
            for (i, p) in list.iter().enumerate() {
                assert!(p.x > room.x1 && p.x <= room.x2 && p.y > room.y1 && p.y <= room.y2);
                assert!(!list[i + 1..].contains(p));
            }
        }
    }
}

#[test]
fn session_starts_in_the_first_room() {
    let mut rng = RandomNumberGenerator::seeded(21);
    let w = World::setup_game(&mut rng);
    assert_eq!(w.player, 0);
    assert_eq!(w.kinds[0], ActorKind::Player);
    let (cx, cy) = w.map.rooms[0].center();
    assert_eq!(w.positions[0], Position { x: cx, y: cy });
    assert_eq!(w.phase, TurnPhase::PreRun);
    assert_eq!(w.stats.len(), w.kinds.len());
    assert_eq!(w.items.len(), w.on_ground.len());
    for k in &w.kinds[1..] {
        assert!(matches!(k, ActorKind::Enemy { .. }));
    }
    let mut again = RandomNumberGenerator::seeded(21);
    let w2 = World::setup_game(&mut again);
    assert_eq!(w.positions, w2.positions);
    assert_eq!(w.map.tiles, w2.map.tiles);
}

#[test]
fn one_full_round() {
    let mut rng = RandomNumberGenerator::seeded(21);
    let mut w = World::setup_game(&mut rng);
    w.advance_phase(false, false);
    assert_eq!(w.phase, TurnPhase::AwaitingInput);
    w.refresh_occupancy();
    for a in w.dirty_viewers() {
        let p = w.positions[a];
        let field: Vec<Position> = field_of_view(Point::new(p.x, p.y), w.viewsheds[a].range, &Sight(&w.map))
            .into_iter()
            .map(|q| Position { x: q.x, y: q.y })
            .collect();
        w.apply_field_of_view(a, &field);
    }
    assert!(w.dirty_viewers().is_empty());
    let p0 = w.positions[0];
    assert!(w.map.visible_tiles[w.map.xy_idx(p0.x, p0.y)]);
    let action = w.player_turn(PlayerIntent::Wait);
    assert_eq!(action, PlayerAction::Waited);
    let paths: Vec<NavigationPath> = (0..w.kinds.len()).map(|_| NavigationPath { success: false, steps: vec![] }).collect();
    w.monster_turn(&paths);
    let dead = w.resolve();
    assert!(!dead);
    assert!(w.pending.iter().all(|p| p.is_none()));
    assert_eq!(w.hostiles().len(), w.kinds.len() - 1);
    assert_eq!(w.ground_items().len(), w.items.len());
    assert_eq!(w.use_player_item(0), None);
}

#[test]
fn player_picks_up_and_uses_a_potion() {
    let mut rng = RandomNumberGenerator::seeded(21);
    let mut w = World::setup_game(&mut rng);
    let p0 = w.positions[0];
    let id = w.items.len();
    w.items.push(health_potion());
    w.item_positions.push(Position { x: p0.x + 1, y: p0.y });
    w.on_ground.push(true);
    w.refresh_occupancy();
    let action = w.player_turn(PlayerIntent::Move { dx: 1, dy: 0 });
    assert!(matches!(action, PlayerAction::Moved { pickup: Some(_), .. }));
    assert_eq!(w.positions[0], Position { x: p0.x + 1, y: p0.y });
    assert!(!w.on_ground[id]);
    assert!(w.viewsheds[0].dirty);
    assert_eq!(w.backpacks.count_of(0, roguelike::backpack::ItemType::HealthPotion), 1);
    w.stats[0].hp = 12;
    let out = w.use_player_item(id).unwrap();
    assert!(out.applied);
    assert_eq!(w.stats[0].hp, 22);
    assert_eq!(w.backpacks.count_of(0, roguelike::backpack::ItemType::HealthPotion), 0);
}

#[test]
fn seeing_monster_next_to_the_player_attacks() {
    let mut rng = RandomNumberGenerator::seeded(21);
    let mut w = World::setup_game(&mut rng);
    assert!(w.kinds.len() > 1);
    let p0 = w.positions[0];
    w.positions[1] = Position { x: p0.x + 1, y: p0.y };
    w.viewsheds[1].visible_tiles = vec![p0];
    w.viewsheds[1].dirty = false;
    let paths: Vec<NavigationPath> = vec![];
    w.monster_turn(&paths);
    assert_eq!(w.ai[1], AiState::Follow);
    assert_eq!(w.melees, vec![roguelike::combat::WantsToMelee { attacker: 1, target: 0 }]);
    assert!(!w.resolve());
    assert_eq!(w.stats[0].hp, 29);
    assert!(w.melees.is_empty());
}

#[test]
fn taken_spawn_points_are_refused() {
    let mut pts = vec![Position { x: 1, y: 1 }];
    assert!(roguelike::spawner::add_spawn_point(&mut pts, Position { x: 2, y: 1 }));
    assert!(!roguelike::spawner::add_spawn_point(&mut pts, Position { x: 1, y: 1 }));
    assert_eq!(pts, vec![Position { x: 1, y: 1 }, Position { x: 2, y: 1 }]);
}

#[test]
fn rolls_choose_kinds() {
    assert_eq!(enemy_type_for(1), EnemyType::G);
    assert_eq!(enemy_type_for(2), EnemyType::O);
    assert_eq!(item_for(1), health_potion());
    assert_eq!(item_for(2), magic_missile_scroll());
}

#[test]
fn spawn_plan_takes_first_distinct_draws() {
    let a = Position { x: 1, y: 1 };
    let b = Position { x: 2, y: 1 };
    let c = Position { x: 3, y: 2 };
    assert_eq!(pick_spawn_points(2, &vec![a, a, b, c]), vec![a, b]);
    assert_eq!(pick_spawn_points(0, &vec![a, b]), vec![]);
    assert_eq!(pick_spawn_points(-2, &vec![a, b]), vec![]);
    let plan = plan_room(5, 4, 6, 3, &vec![c, a, c, b], &vec![a]);
    assert_eq!(plan.monster_numbers, vec![20, 21, 22]);
    assert_eq!(plan.monsters, vec![c, a, b]);
    assert!(plan.items.is_empty());
}

#[test]
fn input_passes_the_turn_only_when_accepted() {
    let mut rng = RandomNumberGenerator::seeded(21);
    let mut w = World::setup_game(&mut rng);
    w.advance_phase(false, false);
    w.refresh_occupancy();
    assert_eq!(w.player_turn(PlayerIntent::Wait), PlayerAction::Waited);
    assert_eq!(w.phase, TurnPhase::AwaitingInput);
    let action = w.player_turn(PlayerIntent::Move { dx: 1, dy: 0 });
    assert!(matches!(action, PlayerAction::Moved { .. }));
    assert_eq!(w.phase, TurnPhase::PlayerTurn);
    w.advance_phase(false, true);
    assert_eq!(w.phase, TurnPhase::PreRun);
}

#[test]
fn monsters_are_numbered_by_room_and_place() {
    let mut rng = RandomNumberGenerator::seeded(33);
    let w = World::setup_game(&mut rng);
    for i in 1..w.kinds.len() {
        let n = match w.kinds[i] {
            ActorKind::Enemy { index, .. } => index,
            ActorKind::Player => panic!("only the first actor is the player"),
        };
        let room = w.map.rooms[n / 4 + 1];
        let p = w.positions[i];
        assert!(n % 4 < 3);
        assert!(p.x > room.x1 && p.x <= room.x2 && p.y > room.y1 && p.y <= room.y2);
        for j in i + 1..w.kinds.len() {
            assert_ne!(w.positions[i], w.positions[j]);
        }
    }
    assert!(w.on_ground.iter().all(|g| *g));
}

#[test]
fn a_used_potion_cannot_be_used_again() {
    let mut rng = RandomNumberGenerator::seeded(21);
    let mut w = World::setup_game(&mut rng);
    let first = w.items.len();
    for _ in 0..2 {
        w.items.push(health_potion());
        w.item_positions.push(Position { x: 0, y: 0 });
        w.on_ground.push(false);
    }
    w.backpacks.add_item(0, roguelike::backpack::ItemType::HealthPotion, first);
    w.backpacks.add_item(0, roguelike::backpack::ItemType::HealthPotion, first + 1);
    w.stats[0].hp = 1;
    assert_eq!(w.use_player_item(first), None);
    assert!(w.use_player_item(first + 1).is_some());
    assert_eq!(w.stats[0].hp, 11);
    assert_eq!(w.use_player_item(first + 1), None);
    assert_eq!(w.stats[0].hp, 11);
    assert!(w.use_player_item(first).is_some());
    assert_eq!(w.stats[0].hp, 21);
    assert_eq!(w.use_player_item(first), None);
    assert_eq!(w.backpacks.count_of(0, roguelike::backpack::ItemType::HealthPotion), 0);
}
