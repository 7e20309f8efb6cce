use roguelike::dungeon::{build_dungeon, place_room, RoomAttempt};
use roguelike::map::Rect;
use roguelike::dungeon::{generate_map, new_map_rooms_and_corridors, MAP_HEIGHT, MAP_WIDTH};
use roguelike::map::{GameMap, TileType};
use roguelike::rng::RandomNumberGenerator;

fn check_rooms(map: &GameMap, min: i32, max: i32) {
    for (i, a) in map.rooms.iter().enumerate() {
        assert!(a.x1 >= 0 && a.y1 >= 0 && a.x2 <= map.width - 2 && a.y2 <= map.height - 2);
        assert!(a.x2 - a.x1 >= min && a.x2 - a.x1 <= max);
        assert!(a.y2 - a.y1 >= min && a.y2 - a.y1 <= max);
        for (j, b) in map.rooms.iter().enumerate() {
            if i != j {
                assert!(!a.intersect(b), "rooms {i} and {j} overlap");
            }
        }
        for y in a.y1 + 1..=a.y2 {
            for x in a.x1 + 1..=a.x2 {
                assert_eq!(map.tiles[map.xy_idx(x, y)], TileType::Floor);
            }
        }
    }
}

#[test]
fn generation_is_reproducible_from_a_seed() {
    let mut a = RandomNumberGenerator::seeded(42);
    let mut b = RandomNumberGenerator::seeded(42);
    let m1 = new_map_rooms_and_corridors(&mut a);
    let m2 = new_map_rooms_and_corridors(&mut b);
    assert_eq!(m1.width, MAP_WIDTH);
    assert_eq!(m1.height, MAP_HEIGHT);
    assert_eq!(m1.rooms.len(), m2.rooms.len());
    assert!(!m1.rooms.is_empty());
    assert_eq!(m1.rooms[0].center(), m2.rooms[0].center());
    assert_eq!(m1.rooms, m2.rooms);
    assert_eq!(m1.tiles, m2.tiles);
}

#[test]
fn generated_rooms_never_overlap() {
    for seed in 0..40u64 {
        let mut rng = RandomNumberGenerator::seeded(seed);
        let map = new_map_rooms_and_corridors(&mut rng);
        assert!(!map.rooms.is_empty() && map.rooms.len() <= 30);
        check_rooms(&map, 6, 10);
        assert!(map.revealed_tiles.iter().all(|r| !*r));
        for i in 0..map.tiles.len() {
            assert_eq!(map.blocked[i], map.tiles[i] == TileType::Wall);
        }
    }
}

#[test]
fn different_seeds_give_different_layouts() {
    let mut a = RandomNumberGenerator::seeded(1);
    let mut b = RandomNumberGenerator::seeded(2);
    let m1 = new_map_rooms_and_corridors(&mut a);
    let m2 = new_map_rooms_and_corridors(&mut b);
    assert_ne!(m1.tiles, m2.tiles);
    assert!(m1.tiles.iter().any(|t| *t == TileType::Floor));
}

#[test]
fn consecutive_rooms_are_connected_by_floor() {
    for seed in [7u64, 8, 9] {
        let mut rng = RandomNumberGenerator::seeded(seed);
        let map = new_map_rooms_and_corridors(&mut rng);
        let floor = |x: i32, y: i32| map.tiles[map.xy_idx(x, y)] == TileType::Floor;
        let h = |x1: i32, x2: i32, y: i32| (x1.min(x2)..=x1.max(x2)).all(|x| floor(x, y));
        let v = |y1: i32, y2: i32, x: i32| (y1.min(y2)..=y1.max(y2)).all(|y| floor(x, y));
        for k in 1..map.rooms.len() {
            let (ax, ay) = map.rooms[k - 1].center();
            let (bx, by) = map.rooms[k].center();
            assert!((h(ax, bx, ay) && v(ay, by, bx)) || (v(ay, by, ax) && h(ax, bx, by)));
        }
    }
}

#[test]
fn small_custom_dungeon() {
    let mut rng = RandomNumberGenerator::seeded(3);
    let map = generate_map(20, 16, 5, 3, 5, &mut rng);
    assert_eq!((map.width, map.height), (20, 16));
    assert!(!map.rooms.is_empty() && map.rooms.len() <= 5);
    check_rooms(&map, 3, 5);
}

#[test]
fn no_attempts_no_rooms() {
    let mut rng = RandomNumberGenerator::seeded(3);
    let map = generate_map(20, 16, 0, 3, 5, &mut rng);
    assert!(map.rooms.is_empty());
    assert!(map.tiles.iter().all(|t| *t == TileType::Wall));
}

#[test]
fn place_room_keeps_only_free_candidates() {
    let mut map = GameMap::new(30, 20);
    let mut rooms = vec![];
    assert!(place_room(&mut map, &mut rooms, Rect::new(1, 1, 4, 4), true));
    assert_eq!(rooms.len(), 1);
    let before = map.tiles.clone();
    assert!(!place_room(&mut map, &mut rooms, Rect::new(5, 2, 3, 3), true));
    assert_eq!(rooms.len(), 1);
    assert_eq!(map.tiles, before);
    assert!(place_room(&mut map, &mut rooms, Rect::new(15, 10, 6, 4), true));
    assert_eq!(rooms.len(), 2);
    let (ax, ay) = rooms[0].center();
    let (bx, by) = rooms[1].center();
    assert_eq!(((ax, ay), (bx, by)), ((3, 3), (18, 12)));
    for x in ax..=bx {
        assert_eq!(map.tiles[map.xy_idx(x, ay)], TileType::Floor);
    }
    for y in ay..=by {
        assert_eq!(map.tiles[map.xy_idx(bx, y)], TileType::Floor);
    }
    assert_eq!(map.tiles[map.xy_idx(ax, by)], TileType::Wall);
}

#[test]
fn vertical_first_corridor_bends_the_other_way() {
    let mut map = GameMap::new(30, 20);
    let mut rooms = vec![];
    place_room(&mut map, &mut rooms, Rect::new(1, 1, 4, 4), false);
    place_room(&mut map, &mut rooms, Rect::new(15, 10, 6, 4), false);
    assert_eq!(map.tiles[map.xy_idx(3, 12)], TileType::Floor);
    assert_eq!(map.tiles[map.xy_idx(18, 3)], TileType::Wall);
}

#[test]
fn built_dungeon_is_exactly_its_rooms_and_corridors() {
    let attempts = vec![
        RoomAttempt { room: Rect::new(1, 1, 3, 3), horizontal_first: true },
        RoomAttempt { room: Rect::new(2, 2, 3, 3), horizontal_first: true },
        RoomAttempt { room: Rect::new(10, 1, 3, 3), horizontal_first: false },
    ];
    let map = build_dungeon(16, 8, &attempts);
    assert_eq!(map.rooms, vec![Rect::new(1, 1, 3, 3), Rect::new(10, 1, 3, 3)]);
    let floors = map.tiles.iter().filter(|t| **t == TileType::Floor).count();
    assert_eq!(floors, 9 + 9 + 6);
    for i in 0..map.tiles.len() {
        assert_eq!(map.blocked[i], map.tiles[i] == TileType::Wall);
    }
}

#[test]
fn the_outer_ring_stays_wall() {
    for seed in 0..20u64 {
        let mut rng = RandomNumberGenerator::seeded(seed);
        let map = new_map_rooms_and_corridors(&mut rng);
        for x in 0..map.width {
            assert_eq!(map.tiles[map.xy_idx(x, 0)], TileType::Wall);
            assert_eq!(map.tiles[map.xy_idx(x, map.height - 1)], TileType::Wall);
        }
        for y in 0..map.height {
            assert_eq!(map.tiles[map.xy_idx(0, y)], TileType::Wall);
            assert_eq!(map.tiles[map.xy_idx(map.width - 1, y)], TileType::Wall);
        }
    }
}
