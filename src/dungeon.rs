//! Rooms-and-corridors dungeon generation.

use vstd::prelude::*;
use crate::map::{push_if, GameMap, Rect, TileType, MAX_CELLS};
use crate::rng::RandomNumberGenerator;

verus! {

pub const MAP_WIDTH: i32 = 80;

pub const MAP_HEIGHT: i32 = 50;

pub const MAX_ROOMS: i32 = 30;

pub const MIN_SIZE: i32 = 6;

pub const MAX_SIZE: i32 = 10;

/// A room lies inside the map, off its last row and column, with sides in
/// `[min_size, max_size]`.
pub open spec fn room_fits(room: Rect, width: int, height: int, min_size: int, max_size: int) -> bool {
    &&& 0 <= room.x1
    &&& room.x2 <= width - 2
    &&& 0 <= room.y1
    &&& room.y2 <= height - 2
    &&& min_size <= room.x2 - room.x1 <= max_size
    &&& min_size <= room.y2 - room.y1 <= max_size
}

/// A room lies inside the map, off its last row and column.
pub open spec fn room_inside(room: Rect, width: int, height: int) -> bool {
    0 <= room.x1 <= room.x2 <= width - 2 && 0 <= room.y1 <= room.y2 <= height - 2
}

/// No two distinct rooms of `rooms` overlap.
pub open spec fn rooms_disjoint(rooms: Seq<Rect>) -> bool {
    forall|i: int, j: int|
        0 <= i < rooms.len() && 0 <= j < rooms.len() && i != j ==> !(#[trigger] rooms[i]).overlaps(
            #[trigger] rooms[j],
        )
}

/// Every room's inside is floor.
pub open spec fn rooms_carved(map: &GameMap, rooms: Seq<Rect>) -> bool {
    forall|k: int, a: int, b: int|
        #![trigger rooms[k], map.tile_at(a, b)]
        0 <= k < rooms.len() && GameMap::in_interior(rooms[k], a, b) ==> map.tile_at(a, b) == TileType::Floor
}

/// Row `y` is floor from column `x1` to column `x2`, both included.
pub open spec fn h_run(map: &GameMap, x1: int, x2: int, y: int) -> bool {
    forall|x: int| (x1 <= x <= x2 || x2 <= x <= x1) ==> #[trigger] map.tile_at(x, y) == TileType::Floor
}

/// Column `x` is floor from row `y1` to row `y2`, both included.
pub open spec fn v_run(map: &GameMap, y1: int, y2: int, x: int) -> bool {
    forall|y: int| (y1 <= y <= y2 || y2 <= y <= y1) ==> #[trigger] map.tile_at(x, y) == TileType::Floor
}

/// An L-shaped floor corridor joins the centers `a` and `b`, bending at
/// one of its two corners.
pub open spec fn joined(map: &GameMap, a: (int, int), b: (int, int)) -> bool {
    (h_run(map, a.0, b.0, a.1) && v_run(map, a.1, b.1, b.0)) || (v_run(map, a.1, b.1, a.0) && h_run(map, a.0, b.0, b.1))
}

/// Each room is joined to the one before it.
pub open spec fn rooms_joined(map: &GameMap, rooms: Seq<Rect>) -> bool {
    forall|k: int| 1 <= k < rooms.len() ==> joined(map, (#[trigger] rooms[k - 1]).center_of(), rooms[k].center_of())
}

/// Floor stays floor from `a` to `b`.
pub open spec fn floors_kept(a: &GameMap, b: &GameMap) -> bool {
    forall|x: int, y: int| a.in_bounds(x, y) && #[trigger] a.tile_at(x, y) == TileType::Floor ==> b.tile_at(x, y) == TileType::Floor
}

proof fn lemma_joined_kept(a: &GameMap, b: &GameMap, rooms: Seq<Rect>, width: int, height: int)
    requires
        floors_kept(a, b),
        a.width == width,
        a.height == height,
        forall|k: int| 0 <= k < rooms.len() ==> room_inside(#[trigger] rooms[k], width, height),
        rooms_joined(a, rooms),
    ensures
        rooms_joined(b, rooms),
{
    assert forall|k: int| 1 <= k < rooms.len() implies joined(b, (#[trigger] rooms[k - 1]).center_of(), rooms[k].center_of()) by {
        let p = rooms[k - 1].center_of();
        let q = rooms[k].center_of();
        assert(room_inside(rooms[k - 1], width, height));
        assert(room_inside(rooms[k], width, height));
        if h_run(a, p.0, q.0, p.1) && v_run(a, p.1, q.1, q.0) {
            assert forall|x: int| (p.0 <= x <= q.0 || q.0 <= x <= p.0) implies #[trigger] b.tile_at(x, p.1) == TileType::Floor by {
                assert(a.tile_at(x, p.1) == TileType::Floor);
            }
            assert forall|y: int| (p.1 <= y <= q.1 || q.1 <= y <= p.1) implies #[trigger] b.tile_at(q.0, y) == TileType::Floor by {
                assert(a.tile_at(q.0, y) == TileType::Floor);
            }
        } else {
            assert forall|y: int| (p.1 <= y <= q.1 || q.1 <= y <= p.1) implies #[trigger] b.tile_at(p.0, y) == TileType::Floor by {
                assert(a.tile_at(p.0, y) == TileType::Floor);
            }
            assert forall|x: int| (p.0 <= x <= q.0 || q.0 <= x <= p.0) implies #[trigger] b.tile_at(x, q.1) == TileType::Floor by {
                assert(a.tile_at(x, q.1) == TileType::Floor);
            }
        }
    }
}

/// What generation guarantees of the map it returns.
pub open spec fn generated(
    map: &GameMap,
    width: int,
    height: int,
    max_rooms: int,
    min_size: int,
    max_size: int,
) -> bool {
    &&& map.wf()
    &&& map.width == width
    &&& map.height == height
    &&& max_rooms >= 1 ==> map.rooms@.len() >= 1
    &&& 0 <= max_rooms ==> map.rooms@.len() <= max_rooms
    &&& max_rooms < 0 ==> map.rooms@.len() == 0
    &&& rooms_disjoint(map.rooms@)
    &&& forall|k: int|
        0 <= k < map.rooms@.len() ==> room_fits(#[trigger] map.rooms@[k], width, height, min_size, max_size)
    &&& rooms_carved(map, map.rooms@)
    &&& rooms_joined(map, map.rooms@)
    &&& min_size >= 2 ==> border_walled(map)
    &&& fresh_indices(map)
}

/// Cells on the map's outer ring are wall.
pub open spec fn border_walled(map: &GameMap) -> bool {
    forall|a: int, b: int|
        map.in_bounds(a, b) && (a == 0 || b == 0 || a == map.width - 1 || b == map.height - 1) ==> #[trigger] map.tile_at(
            a,
            b,
        ) == TileType::Wall
}

/// Nothing seen yet, exactly the walls blocked, nobody indexed.
pub open spec fn fresh_indices(map: &GameMap) -> bool {
    &&& forall|i: int| 0 <= i < map.cells() ==> !#[trigger] map.revealed_tiles@[i]
    &&& forall|i: int| 0 <= i < map.cells() ==> !#[trigger] map.visible_tiles@[i]
    &&& forall|i: int| 0 <= i < map.cells() ==> #[trigger] map.blocked@[i] == (map.tiles@[i] == TileType::Wall)
    &&& forall|i: int| 0 <= i < map.cells() ==> (#[trigger] map.tile_content@[i])@.len() == 0
}

/// One drawn attempt: a candidate room, and whether the corridor that would
/// join it to the previous room runs horizontally first.
#[derive(PartialEq, Eq, Structural, Clone, Copy, Debug)]
pub struct RoomAttempt {
    pub room: Rect,
    pub horizontal_first: bool,
}

/// `v` lies between `a` and `b`, both included.
pub open spec fn between(v: int, a: int, b: int) -> bool {
    a <= v <= b || b <= v <= a
}

/// Cell `(a, b)` lies on the L-shaped corridor from center `p` to center
/// `q`, which bends at `(q.0, p.1)` when it runs horizontally first and at
/// `(p.0, q.1)` otherwise.
pub open spec fn on_corridor(p: (int, int), q: (int, int), horizontal_first: bool, a: int, b: int) -> bool {
    if horizontal_first {
        (b == p.1 && between(a, p.0, q.0)) || (a == q.0 && between(b, p.1, q.1))
    } else {
        (a == p.0 && between(b, p.1, q.1)) || (b == q.1 && between(a, p.0, q.0))
    }
}

/// `c` overlaps none of `rooms`.
pub open spec fn overlaps_none(c: Rect, rooms: Seq<Rect>) -> bool {
    forall|j: int| 0 <= j < rooms.len() ==> !c.overlaps(#[trigger] rooms[j])
}

/// Placing `c` after `rooms` digs cell `(a, b)`: it lies inside `c`, or on
/// the corridor from the last of `rooms` to `c`.
pub open spec fn carved_by(rooms: Seq<Rect>, c: Rect, horizontal_first: bool, a: int, b: int) -> bool {
    GameMap::in_interior(c, a, b) || (rooms.len() > 0 && on_corridor(
        rooms.last().center_of(),
        c.center_of(),
        horizontal_first,
        a,
        b,
    ))
}

/// The rooms that the attempts `att` keep, in order: each candidate that
/// overlaps no room kept before it.
pub open spec fn kept_rooms(att: Seq<RoomAttempt>) -> Seq<Rect>
    decreases att.len(),
{
    if att.len() == 0 {
        Seq::empty()
    } else {
        let prev = kept_rooms(att.drop_last());
        push_if(prev, overlaps_none(att.last().room, prev), att.last().room)
    }
}

/// Whether the attempts `att` dig cell `(a, b)` to floor.
pub open spec fn dug(att: Seq<RoomAttempt>, a: int, b: int) -> bool
    decreases att.len(),
{
    if att.len() == 0 {
        false
    } else {
        let prev = kept_rooms(att.drop_last());
        let t = att.last();
        dug(att.drop_last(), a, b) || (overlaps_none(t.room, prev) && carved_by(prev, t.room, t.horizontal_first, a, b))
    }
}

/// `map` holds exactly the dungeon that `att` describes.
pub open spec fn built_from(map: &GameMap, att: Seq<RoomAttempt>) -> bool {
    &&& map.rooms@ == kept_rooms(att)
    &&& forall|a: int, b: int|
        map.in_bounds(a, b) ==> #[trigger] map.tile_at(a, b) == if dug(att, a, b) {
            TileType::Floor
        } else {
            TileType::Wall
        }
}

/// Each attempt's room lies inside the map with sides in
/// `[min_size, max_size]`.
pub open spec fn attempts_fit(att: Seq<RoomAttempt>, width: int, height: int, min_size: int, max_size: int) -> bool {
    forall|k: int| 0 <= k < att.len() ==> room_fits((#[trigger] att[k]).room, width, height, min_size, max_size)
}

/// Every kept room is the room of some attempt.
pub proof fn lemma_kept_from(att: Seq<RoomAttempt>, k: int)
    requires
        0 <= k < kept_rooms(att).len(),
    ensures
        exists|j: int| 0 <= j < att.len() && att[j].room == kept_rooms(att)[k],
        kept_rooms(att).len() <= att.len(),
    decreases att.len(),
{
    let prev = kept_rooms(att.drop_last());
    lemma_kept_len(att.drop_last());
    if k < prev.len() {
        lemma_kept_from(att.drop_last(), k);
        let j = choose|j: int| 0 <= j < att.drop_last().len() && att.drop_last()[j].room == prev[k];
        assert(att[j] == att.drop_last()[j]);
    } else {
        assert(att[att.len() - 1] == att.last());
    }
    lemma_kept_len(att);
}

pub proof fn lemma_kept_len(att: Seq<RoomAttempt>)
    ensures
        kept_rooms(att).len() <= att.len(),
        att.len() >= 1 ==> kept_rooms(att).len() >= 1,
    decreases att.len(),
{
    if att.len() > 0 {
        lemma_kept_len(att.drop_last());
    }
}

/// Places one drawn candidate: it is kept when it overlaps no room kept
/// before, and then its inside is carved, and so is the corridor from the
/// previous room's center to its own, bending as `horizontal_first` says.
/// A candidate that overlaps changes nothing.
pub fn place_room(map: &mut GameMap, rooms: &mut Vec<Rect>, candidate: Rect, horizontal_first: bool) -> (kept: bool)
    requires
        old(map).wf(),
        room_inside(candidate, old(map).width as int, old(map).height as int),
        forall|k: int| 0 <= k < old(rooms)@.len() ==> room_inside(#[trigger] old(rooms)@[k], old(map).width as int, old(map).height as int),
    ensures
        kept == overlaps_none(candidate, old(rooms)@),
        final(rooms)@ == push_if(old(rooms)@, kept, candidate),
        final(map).wf(),
        final(map).same_but_tiles(old(map)),
        forall|a: int, b: int|
            final(map).in_bounds(a, b) ==> #[trigger] final(map).tile_at(a, b) == if kept && carved_by(
                old(rooms)@,
                candidate,
                horizontal_first,
                a,
                b,
            ) {
                TileType::Floor
            } else {
                old(map).tile_at(a, b)
            },
{
    let mut ok = true;
    let mut k: usize = 0;
    while k < rooms.len()
        invariant
            k <= rooms@.len(),
            ok <==> forall|j: int| 0 <= j < k ==> !candidate.overlaps(#[trigger] rooms@[j]),
        decreases rooms@.len() - k,
    {
        if candidate.intersect(&rooms[k]) {
            ok = false;
        }
        k = k + 1;
    }
    if !ok {
        return false;
    }
    map.apply_room_to_map(&candidate);
    if rooms.len() > 0 {
        let (new_x, new_y) = candidate.center();
        let (prev_x, prev_y) = rooms[rooms.len() - 1].center();
        assert(room_inside(rooms@[rooms@.len() - 1], map.width as int, map.height as int));
        if horizontal_first {
            map.apply_horizontal_tunnel(prev_x, new_x, prev_y);
            map.apply_vertical_tunnel(prev_y, new_y, new_x);
        } else {
            map.apply_vertical_tunnel(prev_y, new_y, prev_x);
            map.apply_horizontal_tunnel(prev_x, new_x, new_y);
        }
    }
    rooms.push(candidate);
    true
}

/// Builds the dungeon that the drawn attempts `attempts` describe, placing
/// them in order on an all-wall map.
pub fn build_dungeon(width: i32, height: i32, attempts: &Vec<RoomAttempt>) -> (r: GameMap)
    requires
        0 < width,
        0 < height,
        width * height <= MAX_CELLS,
        forall|k: int| 0 <= k < attempts@.len() ==> room_inside((#[trigger] attempts@[k]).room, width as int, height as int),
    ensures
        r.wf(),
        r.width == width,
        r.height == height,
        built_from(&r, attempts@),
        rooms_disjoint(r.rooms@),
        rooms_carved(&r, r.rooms@),
        rooms_joined(&r, r.rooms@),
        fresh_indices(&r),
        (forall|k: int| 0 <= k < attempts@.len() ==> {
            &&& (#[trigger] attempts@[k]).room.x2 - attempts@[k].room.x1 >= 2
            &&& attempts@[k].room.y2 - attempts@[k].room.y1 >= 2
        }) ==> border_walled(&r),
{
    let mut map = GameMap::new(width, height);
    assert forall|a: int, b: int| map.in_bounds(a, b) implies #[trigger] map.tile_at(a, b) == TileType::Wall by {
        crate::map::lemma_idx_in_range(width as int, height as int, a, b);
    }
    assert(attempts@.subrange(0, 0) =~= Seq::<RoomAttempt>::empty());
    let mut rooms: Vec<Rect> = Vec::new();
    let n = attempts.len();
    let mut k: usize = 0;
    while k < n
        invariant
            n == attempts@.len(),
            k <= n,
            forall|j: int| 0 <= j < attempts@.len() ==> room_inside((#[trigger] attempts@[j]).room, width as int, height as int),
            map.wf(),
            map.width == width,
            map.height == height,
            map.rooms@.len() == 0,
            rooms@ == kept_rooms(attempts@.subrange(0, k as int)),
            forall|a: int, b: int|
                map.in_bounds(a, b) ==> #[trigger] map.tile_at(a, b) == if dug(attempts@.subrange(0, k as int), a, b) {
                    TileType::Floor
                } else {
                    TileType::Wall
                },
            rooms_disjoint(rooms@),
            forall|j: int| 0 <= j < rooms@.len() ==> room_inside(#[trigger] rooms@[j], width as int, height as int),
            rooms_carved(&map, rooms@),
            rooms_joined(&map, rooms@),
            forall|i: int| 0 <= i < map.cells() ==> !#[trigger] map.revealed_tiles@[i],
            forall|i: int| 0 <= i < map.cells() ==> !#[trigger] map.visible_tiles@[i],
            forall|i: int| 0 <= i < map.cells() ==> (#[trigger] map.tile_content@[i])@.len() == 0,
        decreases n - k,
    {
        let t = attempts[k];
        let ghost pre = attempts@.subrange(0, k as int);
        let ghost post = attempts@.subrange(0, k as int + 1);
        assert(post.drop_last() =~= pre);
        assert(post.last() == t);
        assert(room_inside(attempts@[k as int].room, width as int, height as int));
        let ghost before = map;
        let ghost old_rooms = rooms@;
        let kept = place_room(&mut map, &mut rooms, t.room, t.horizontal_first);
        proof {
            assert(floors_kept(&before, &map));
            lemma_joined_kept(&before, &map, old_rooms, width as int, height as int);
            if kept && old_rooms.len() > 0 {
                let p = old_rooms.last().center_of();
                let q = t.room.center_of();
                assert(room_inside(old_rooms[old_rooms.len() - 1], width as int, height as int));
                if t.horizontal_first {
                    assert forall|x: int| (p.0 <= x <= q.0 || q.0 <= x <= p.0) implies #[trigger] map.tile_at(x, p.1) == TileType::Floor by {
                        assert(on_corridor(p, q, t.horizontal_first, x, p.1));
                    }
                    assert forall|y: int| (p.1 <= y <= q.1 || q.1 <= y <= p.1) implies #[trigger] map.tile_at(q.0, y) == TileType::Floor by {
                        assert(on_corridor(p, q, t.horizontal_first, q.0, y));
                    }
                } else {
                    assert forall|y: int| (p.1 <= y <= q.1 || q.1 <= y <= p.1) implies #[trigger] map.tile_at(p.0, y) == TileType::Floor by {
                        assert(on_corridor(p, q, t.horizontal_first, p.0, y));
                    }
                    assert forall|x: int| (p.0 <= x <= q.0 || q.0 <= x <= p.0) implies #[trigger] map.tile_at(x, q.1) == TileType::Floor by {
                        assert(on_corridor(p, q, t.horizontal_first, x, q.1));
                    }
                }
                assert(joined(&map, old_rooms[old_rooms.len() - 1].center_of(), q));
            }
            if kept {
                let m = rooms@.len() as int;
                assert(rooms@ =~= old_rooms.push(t.room));
                assert forall|j: int| 1 <= j < m implies joined(&map, (#[trigger] rooms@[j - 1]).center_of(), rooms@[j].center_of()) by {
                    if j < m - 1 {
                        assert(rooms@[j - 1] == old_rooms[j - 1]);
                        assert(rooms@[j] == old_rooms[j]);
                    }
                }
                assert forall|i: int, j: int|
                    0 <= i < rooms@.len() && 0 <= j < rooms@.len() && i != j implies !(#[trigger] rooms@[i]).overlaps(
                        #[trigger] rooms@[j],
                    ) by {
                    if i == m - 1 {
                        assert(!t.room.overlaps(old_rooms[j]));
                    } else if j == m - 1 {
                        assert(!t.room.overlaps(old_rooms[i]));
                    } else {
                        assert(rooms@[i] == old_rooms[i]);
                        assert(rooms@[j] == old_rooms[j]);
                    }
                }
                assert forall|j: int| 0 <= j < rooms@.len() implies room_inside(#[trigger] rooms@[j], width as int, height as int) by {
                    if j < m - 1 {
                        assert(rooms@[j] == old_rooms[j]);
                    }
                }
                assert forall|kk: int, a: int, b: int|
                    #![trigger rooms@[kk], map.tile_at(a, b)]
                    0 <= kk < rooms@.len() && GameMap::in_interior(rooms@[kk], a, b) implies map.tile_at(a, b) == TileType::Floor by {
                    if kk < m - 1 {
                        assert(rooms@[kk] == old_rooms[kk]);
                        assert(before.tile_at(a, b) == TileType::Floor);
                    } else {
                        assert(map.in_bounds(a, b));
                    }
                }
            } else {
                assert forall|kk: int, a: int, b: int|
                    #![trigger rooms@[kk], map.tile_at(a, b)]
                    0 <= kk < rooms@.len() && GameMap::in_interior(rooms@[kk], a, b) implies map.tile_at(a, b) == TileType::Floor by {
                    assert(room_inside(rooms@[kk], width as int, height as int));
                    assert(before.tile_at(a, b) == TileType::Floor);
                }
            }
        }
        k = k + 1;
    }
    assert(attempts@.subrange(0, n as int) =~= attempts@);
    let ghost carved = map;
    map.populate_blocked();
    map.rooms = rooms;
    proof {
        assert(floors_kept(&carved, &map));
        lemma_joined_kept(&carved, &map, map.rooms@, width as int, height as int);
        assert forall|a: int, b: int| map.in_bounds(a, b) implies #[trigger] map.tile_at(a, b) == if dug(attempts@, a, b) {
            TileType::Floor
        } else {
            TileType::Wall
        } by {
            assert(carved.tile_at(a, b) == map.tile_at(a, b));
        }
        assert forall|kk: int, a: int, b: int|
            #![trigger map.rooms@[kk], map.tile_at(a, b)]
            0 <= kk < map.rooms@.len() && GameMap::in_interior(map.rooms@[kk], a, b) implies map.tile_at(a, b) == TileType::Floor by {
            assert(carved.tile_at(a, b) == TileType::Floor);
        }
        if forall|kk: int| 0 <= kk < attempts@.len() ==> {
            &&& (#[trigger] attempts@[kk]).room.x2 - attempts@[kk].room.x1 >= 2
            &&& attempts@[kk].room.y2 - attempts@[kk].room.y1 >= 2
        } {
            assert forall|a: int, b: int|
                map.in_bounds(a, b) && (a == 0 || b == 0 || a == map.width - 1 || b == map.height - 1) implies #[trigger] map.tile_at(
                a,
                b,
            ) == TileType::Wall by {
                lemma_dug_off_border(attempts@, width as int, height as int, a, b);
            }
        }
    }
    map
}

/// With every attempted room at least two cells across, nothing is dug on
/// the map's outer ring.
proof fn lemma_dug_off_border(att: Seq<RoomAttempt>, width: int, height: int, a: int, b: int)
    requires
        forall|k: int| 0 <= k < att.len() ==> room_inside((#[trigger] att[k]).room, width, height),
        forall|k: int| 0 <= k < att.len() ==> {
            &&& (#[trigger] att[k]).room.x2 - att[k].room.x1 >= 2
            &&& att[k].room.y2 - att[k].room.y1 >= 2
        },
        a == 0 || b == 0 || a == width - 1 || b == height - 1,
    ensures
        !dug(att, a, b),
    decreases att.len(),
{
    if att.len() > 0 {
        let d = att.drop_last();
        assert forall|k: int| 0 <= k < d.len() implies room_inside((#[trigger] d[k]).room, width, height) && d[k].room.x2 - d[k].room.x1 >= 2
            && d[k].room.y2 - d[k].room.y1 >= 2 by {
            assert(d[k] == att[k]);
        }
        lemma_dug_off_border(d, width, height, a, b);
        let t = att[att.len() - 1];
        assert(t == att.last());
        let prev = kept_rooms(d);
        if prev.len() > 0 {
            lemma_kept_from(d, prev.len() - 1);
            let j = choose|j: int| 0 <= j < d.len() && d[j].room == prev[prev.len() - 1];
            assert(d[j] == att[j]);
        }
    }
}

/// Draws the attempts: up to `max_rooms` times a room with sides in
/// `[min_size, max_size]` at a position inside the map, and a coin for the
/// bend of its corridor; then builds the dungeon they describe.
pub fn generate_map(
    width: i32,
    height: i32,
    max_rooms: i32,
    min_size: i32,
    max_size: i32,
    rng: &mut RandomNumberGenerator,
) -> (r: GameMap)
    requires
        1 <= min_size <= max_size,
        max_size + 2 <= width,
        max_size + 2 <= height,
        width * height <= MAX_CELLS,
    ensures
        generated(&r, width as int, height as int, max_rooms as int, min_size as int, max_size as int),
        exists|att: Seq<RoomAttempt>|
            #![trigger built_from(&r, att)]
            att.len() == (if max_rooms < 0 { 0 } else { max_rooms as int }) && attempts_fit(
                att,
                width as int,
                height as int,
                min_size as int,
                max_size as int,
            ) && built_from(&r, att),
{
    let mut attempts: Vec<RoomAttempt> = Vec::new();
    let mut attempt: i32 = 0;
    while attempt < max_rooms
        invariant
            1 <= min_size <= max_size,
            max_size + 2 <= width,
            max_size + 2 <= height,
            0 <= attempt,
            0 <= max_rooms ==> attempt <= max_rooms,
            max_rooms < 0 ==> attempt == 0,
            attempts@.len() == attempt,
            attempts_fit(attempts@, width as int, height as int, min_size as int, max_size as int),
        decreases max_rooms - attempt,
    {
        let w = rng.range(min_size, max_size + 1);
        let h = rng.range(min_size, max_size + 1);
        let x = rng.roll_die(width - w - 1) - 1;
        let y = rng.roll_die(height - h - 1) - 1;
        let horizontal_first = rng.range(0, 2) == 1;
        attempts.push(RoomAttempt { room: Rect::new(x, y, w, h), horizontal_first });
        attempt = attempt + 1;
    }
    assert forall|k: int| 0 <= k < attempts@.len() implies room_inside((#[trigger] attempts@[k]).room, width as int, height as int) by {
        assert(room_fits(attempts@[k].room, width as int, height as int, min_size as int, max_size as int));
    }
    let map = build_dungeon(width, height, &attempts);
    proof {
        let att = attempts@;
        lemma_kept_len(att);
        assert forall|k: int| 0 <= k < map.rooms@.len() implies room_fits(
            #[trigger] map.rooms@[k],
            width as int,
            height as int,
            min_size as int,
            max_size as int,
        ) by {
            lemma_kept_from(att, k);
            let j = choose|j: int| 0 <= j < att.len() && att[j].room == kept_rooms(att)[k];
            assert(room_fits(att[j].room, width as int, height as int, min_size as int, max_size as int));
        }
        if min_size >= 2 {
            assert forall|k: int| 0 <= k < att.len() implies {
                &&& (#[trigger] att[k]).room.x2 - att[k].room.x1 >= 2
                &&& att[k].room.y2 - att[k].room.y1 >= 2
            } by {
                assert(room_fits(att[k].room, width as int, height as int, min_size as int, max_size as int));
            }
        }
        assert(built_from(&map, att));
    }
    map
}

/// The standard dungeon: an 80 by 50 map with up to 30 rooms whose sides
/// range from 6 to 10.
pub fn new_map_rooms_and_corridors(rng: &mut RandomNumberGenerator) -> (r: GameMap)
    ensures
        generated(&r, MAP_WIDTH as int, MAP_HEIGHT as int, MAX_ROOMS as int, MIN_SIZE as int, MAX_SIZE as int),
        exists|att: Seq<RoomAttempt>|
            #![trigger built_from(&r, att)]
            att.len() == MAX_ROOMS && attempts_fit(
                att,
                MAP_WIDTH as int,
                MAP_HEIGHT as int,
                MIN_SIZE as int,
                MAX_SIZE as int,
            ) && built_from(&r, att),
{
    generate_map(MAP_WIDTH, MAP_HEIGHT, MAX_ROOMS, MIN_SIZE, MAX_SIZE, rng)
}

} // verus!
