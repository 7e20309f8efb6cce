use roguelike::map::{map_index, GameMap, Occupant, Position, Rect, TileType};

fn open_map(w: i32, h: i32) -> GameMap {
    let mut map = GameMap::new(w, h);
    map.apply_room_to_map(&Rect::new(0, 0, w - 2, h - 2));
    map.populate_blocked();
    map
}

#[test]
fn rect_touching_edges_intersect() {
    let a = Rect::new(0, 0, 5, 5);
    let b = Rect::new(5, 0, 3, 3);
    assert!(a.intersect(&b));
    assert!(b.intersect(&a));
}

#[test]
fn rect_apart_do_not_intersect() {
    let a = Rect::new(0, 0, 3, 3);
    let b = Rect::new(10, 10, 2, 2);
    assert!(!a.intersect(&b));
    let c = Rect::new(4, 0, 3, 3);
    assert!(!a.intersect(&c));
}

#[test]
fn rect_center_values() {
    let r = Rect::new(2, 4, 6, 4);
    assert_eq!((r.x1, r.y1, r.x2, r.y2), (2, 4, 8, 8));
    assert_eq!(r.center(), (5, 6));
    let odd = Rect::new(1, 1, 3, 4);
    assert_eq!(odd.center(), (2, 3));
    let neg = Rect { x1: -3, x2: 0, y1: -5, y2: 0 };
    assert_eq!(neg.center(), (-1, -2));
}

#[test]
fn new_map_is_all_wall_and_unseen() {
    let map = GameMap::new(4, 3);
    assert_eq!(map.tiles.len(), 12);
    assert!(map.tiles.iter().all(|t| *t == TileType::Wall));
    assert!(map.revealed_tiles.iter().all(|b| !*b));
    assert!(map.visible_tiles.iter().all(|b| !*b));
    assert!(map.blocked.iter().all(|b| !*b));
    assert!(map.tile_content.iter().all(|c| c.is_empty()));
    assert!(map.rooms.is_empty());
}

#[test]
fn xy_idx_is_row_major() {
    let map = GameMap::new(80, 50);
    assert_eq!(map.xy_idx(3, 2), 163);
    assert_eq!(map.xy_idx(0, 0), 0);
    assert_eq!(map.xy_idx(79, 49), 3999);
}

#[test]
fn room_carves_only_its_inside() {
    let mut map = GameMap::new(10, 10);
    map.apply_room_to_map(&Rect::new(2, 3, 3, 2));
    for y in 0..10 {
        for x in 0..10 {
            let inside = x > 2 && x <= 5 && y > 3 && y <= 5;
            let t = map.tiles[map.xy_idx(x, y)];
            assert_eq!(t == TileType::Floor, inside, "cell {x},{y}");
        }
    }
}

#[test]
fn tunnels_carve_inclusive_ranges() {
    let mut map = GameMap::new(10, 10);
    map.apply_horizontal_tunnel(6, 2, 1);
    map.apply_vertical_tunnel(7, 4, 8);
    for x in 0..10 {
        assert_eq!(map.tiles[map.xy_idx(x, 1)] == TileType::Floor, (2..=6).contains(&x));
    }
    for y in 0..10 {
        assert_eq!(map.tiles[map.xy_idx(8, y)] == TileType::Floor, (4..=7).contains(&y));
    }
    map.apply_horizontal_tunnel(-5, 20, 9);
    assert!((0..10).all(|x| map.tiles[map.xy_idx(x, 9)] == TileType::Floor));
}

#[test]
fn populate_blocked_marks_walls() {
    let map = open_map(5, 5);
    for i in 0..25 {
        assert_eq!(map.blocked[i], map.tiles[i] == TileType::Wall);
    }
    assert!(!map.blocked[map.xy_idx(2, 2)]);
    assert!(map.blocked[0]);
}

#[test]
fn map_index_lists_blocking_occupants() {
    let mut map = open_map(6, 6);
    map.tile_content[0].push(99);
    let occ = vec![
        Occupant { position: Position { x: 2, y: 2 }, entity: 7, blocks_tile: true },
        Occupant { position: Position { x: 1, y: 1 }, entity: 8, blocks_tile: false },
        Occupant { position: Position { x: 2, y: 2 }, entity: 9, blocks_tile: true },
    ];
    map_index(&mut map, &occ);
    let i = map.xy_idx(2, 2);
    assert_eq!(map.tile_content[i], vec![7, 9]);
    assert!(map.blocked[i]);
    let j = map.xy_idx(1, 1);
    assert!(map.tile_content[j].is_empty());
    assert!(!map.blocked[j]);
    assert!(map.tile_content[0].is_empty());
    assert!(map.blocked[0]);
}

#[test]
fn exits_skip_corners_next_to_walls() {
    let mut map = open_map(5, 5);
    let west = map.xy_idx(1, 2);
    map.tiles[west] = TileType::Wall;
    map.populate_blocked();
    let exits = map.get_available_exits(map.xy_idx(2, 2));
    assert_eq!(exits, vec![(13, 100), (7, 100), (17, 100), (8, 145), (18, 145)]);
}

#[test]
fn exits_in_open_ground_cover_eight_neighbours() {
    let map = open_map(7, 7);
    let exits = map.get_available_exits(map.xy_idx(3, 3));
    assert_eq!(
        exits,
        vec![(23, 100), (25, 100), (17, 100), (31, 100), (16, 145), (18, 145), (30, 145), (32, 145)]
    );
    assert!(map.is_exit_valid(3, 3));
    assert!(!map.is_exit_valid(0, 3));
    assert!(!map.is_exit_valid(3, 7));
}

#[test]
fn opaque_means_wall() {
    let map = open_map(5, 5);
    assert!(map.is_opaque(0));
    assert!(!map.is_opaque(map.xy_idx(2, 2)));
}
