use bracket_pathfinding::prelude::{
    a_star_search, field_of_view, Algorithm2D, BaseMap, DistanceAlg, Point, SmallVec,
};
use roguelike::dungeon::new_map_rooms_and_corridors;
use roguelike::enemy::{enemy_ai, AiState, NavigationPath};
use roguelike::map::{GameMap, Position, Rect};
use roguelike::rng::RandomNumberGenerator;
use roguelike::visibility::{look_player, update_viewshed, Viewshed};

struct Grid<'a>(&'a GameMap);

impl BaseMap for Grid<'_> {
    fn is_opaque(&self, idx: usize) -> bool {
        self.0.is_opaque(idx)
    }

    fn get_available_exits(&self, idx: usize) -> SmallVec<[(usize, f32); 10]> {
        self.0
            .get_available_exits(idx)
            .into_iter()
            .map(|(i, c)| (i, c as f32 / 100.0))
            .collect()
    }

    fn get_pathing_distance(&self, a: usize, b: usize) -> f32 {
        let w = self.0.width as usize;
        DistanceAlg::Pythagoras.distance2d(Point::new(a % w, a / w), Point::new(b % w, b / w))
    }
}

impl Algorithm2D for Grid<'_> {
    fn dimensions(&self) -> Point {
        Point::new(self.0.width, self.0.height)
    }
}

fn fov(map: &GameMap, p: Position, range: i32) -> Vec<Position> {
    field_of_view(Point::new(p.x, p.y), range, &Grid(map))
        .into_iter()
        .map(|q| Position { x: q.x, y: q.y })
        .collect()
}

fn seeded_map(seed: u64) -> GameMap {
    let mut rng = RandomNumberGenerator::seeded(seed);
    new_map_rooms_and_corridors(&mut rng)
}

fn check_visible_revealed(map: &GameMap) {
    for i in 0..map.visible_tiles.len() {
        if map.visible_tiles[i] {
            assert!(map.revealed_tiles[i]);
        }
    }
}

#[test]
fn viewer_at_origin_sees_nothing_off_the_map() {
    let mut map = GameMap::new(80, 50);
    map.apply_room_to_map(&Rect::new(0, 0, 20, 20));
    map.populate_blocked();
    let mut vs = Viewshed::new(8);
    let field = fov(&map, Position { x: 0, y: 0 }, 8);
    update_viewshed(&mut map, &mut vs, &field, true);
    assert!(!vs.dirty);
    assert!(!vs.visible_tiles.is_empty());
    for p in &vs.visible_tiles {
        assert!(p.x >= 0 && p.y >= 0 && p.x < 80 && p.y < 50);
    }
    check_visible_revealed(&map);
}

#[test]
fn off_map_points_are_dropped() {
    let mut map = GameMap::new(10, 10);
    let mut vs = Viewshed::new(8);
    let field = vec![
        Position { x: -1, y: 0 },
        Position { x: 0, y: 0 },
        Position { x: 3, y: -2 },
        Position { x: 9, y: 9 },
        Position { x: 10, y: 1 },
    ];
    update_viewshed(&mut map, &mut vs, &field, true);
    assert_eq!(vs.visible_tiles, vec![Position { x: 0, y: 0 }, Position { x: 9, y: 9 }]);
    let seen: Vec<usize> = (0..100).filter(|i| map.visible_tiles[*i]).collect();
    assert_eq!(seen, vec![0, 99]);
    assert_eq!(map.revealed_tiles.iter().filter(|b| **b).count(), 2);
}

#[test]
fn revealed_cells_stay_revealed() {
    let mut map = seeded_map(5);
    let a = map.rooms[0].center();
    let b = map.rooms[map.rooms.len() - 1].center();
    let mut vs = Viewshed::new(9);
    let f1 = fov(&map, Position { x: a.0, y: a.1 }, 9);
    update_viewshed(&mut map, &mut vs, &f1, true);
    let first = map.revealed_tiles.clone();
    assert!(first.iter().any(|r| *r));
    vs.dirty = true;
    let f2 = fov(&map, Position { x: b.0, y: b.1 }, 9);
    update_viewshed(&mut map, &mut vs, &f2, true);
    for i in 0..first.len() {
        if first[i] {
            assert!(map.revealed_tiles[i]);
        }
    }
    check_visible_revealed(&map);
    let visible: Vec<usize> = (0..map.visible_tiles.len()).filter(|i| map.visible_tiles[*i]).collect();
    let mut expected: Vec<usize> = vs.visible_tiles.iter().map(|p| map.xy_idx(p.x, p.y)).collect();
    expected.sort();
    expected.dedup();
    assert_eq!(visible, expected);
}

#[test]
fn clean_viewshed_is_left_alone() {
    let mut map = GameMap::new(10, 10);
    let mut vs = Viewshed::new(8);
    vs.dirty = false;
    update_viewshed(&mut map, &mut vs, &vec![Position { x: 1, y: 1 }], true);
    assert!(vs.visible_tiles.is_empty());
    assert!(map.revealed_tiles.iter().all(|r| !*r));
}

#[test]
fn monster_viewshed_leaves_map_bitmaps() {
    let mut map = GameMap::new(10, 10);
    let mut vs = Viewshed::new(8);
    update_viewshed(&mut map, &mut vs, &vec![Position { x: 1, y: 1 }], false);
    assert_eq!(vs.visible_tiles, vec![Position { x: 1, y: 1 }]);
    assert!(map.revealed_tiles.iter().all(|r| !*r));
    assert!(map.visible_tiles.iter().all(|r| !*r));
    assert!(look_player(&vs, Position { x: 1, y: 1 }));
    assert!(!look_player(&vs, Position { x: 2, y: 1 }));
}

#[test]
fn path_search_is_repeatable() {
    let map = seeded_map(11);
    let s = map.rooms[0].center();
    let g = map.rooms[map.rooms.len() - 1].center();
    let start = map.xy_idx(s.0, s.1);
    let goal = map.xy_idx(g.0, g.1);
    let p1 = a_star_search(start, goal, &Grid(&map));
    let p2 = a_star_search(start, goal, &Grid(&map));
    assert!(p1.success);
    assert_eq!(p1.steps, p2.steps);
    assert_eq!(p1.steps[0], start);
    assert_eq!(*p1.steps.last().unwrap(), goal);
}

#[test]
fn monster_steps_along_the_path() {
    let map = seeded_map(11);
    let s = map.rooms[0].center();
    let g = map.rooms[map.rooms.len() - 1].center();
    let start = map.xy_idx(s.0, s.1);
    let goal = map.xy_idx(g.0, g.1);
    let found = a_star_search(start, goal, &Grid(&map));
    let path = NavigationPath { success: found.success, steps: found.steps.clone() };
    let mut pos = Position { x: s.0, y: s.1 };
    let mut vs = Viewshed::new(9);
    vs.dirty = false;
    let r = enemy_ai(&map, 3, AiState::Follow, &mut pos, &mut vs, 0, Position { x: g.0, y: g.1 }, &path);
    assert!(r.is_none());
    assert_eq!(map.xy_idx(pos.x, pos.y), found.steps[1]);
    assert!(vs.dirty);
}
