//! Actor and item templates, and the population of a room.

use vstd::prelude::*;
use crate::combat::CombatStats;
use crate::enemy::{AiState, EnemyType};
use crate::items::{health_potion, magic_missile_scroll, potion_spec, scroll_spec, Item};
use crate::map::{push_if, GameMap, Position, Rect};
use crate::rng::RandomNumberGenerator;
use crate::visibility::Viewshed;

verus! {

/// How far every actor sees.
pub const VIEW_RANGE: i32 = 9;

/// How many points a room draws for each monster or item it wants.
pub const MAX_SPAWN_TRIES: u32 = 100;

#[derive(PartialEq, Eq, Structural, Clone, Copy, Debug)]
pub enum ActorKind {
    Player,
    /// A monster and its number among all monsters, for its name.
    Enemy { enemy_type: EnemyType, index: usize },
}

/// An actor as spawned.
#[derive(Debug)]
pub struct Actor {
    pub kind: ActorKind,
    pub position: Position,
    pub stats: CombatStats,
    pub viewshed: Viewshed,
    pub blocks_tile: bool,
    pub ai: AiState,
}

/// The points where a room's monsters and items go, and the number each
/// monster is named with.
#[derive(Debug)]
pub struct SpawnPlan {
    pub monsters: Vec<Position>,
    pub monster_numbers: Vec<usize>,
    pub items: Vec<Position>,
}

pub open spec fn player_stats() -> CombatStats {
    CombatStats { max_hp: 30, hp: 30, defense: 2, power: 5 }
}

pub open spec fn enemy_stats() -> CombatStats {
    CombatStats { max_hp: 16, hp: 16, defense: 1, power: 3 }
}

/// A fresh actor: full stats, a viewshed due for computation, idle.
pub open spec fn fresh(a: &Actor, kind: ActorKind, x: i32, y: i32, stats: CombatStats, blocks: bool) -> bool {
    &&& a.kind == kind
    &&& a.position == Position { x, y }
    &&& a.stats == stats
    &&& a.viewshed.visible_tiles@.len() == 0
    &&& a.viewshed.range == VIEW_RANGE
    &&& a.viewshed.dirty
    &&& a.blocks_tile == blocks
    &&& a.ai == AiState::Idle
}

/// The player: it does not block the occupancy index.
pub fn player(x: i32, y: i32) -> (r: Actor)
    ensures
        fresh(&r, ActorKind::Player, x, y, player_stats(), false),
{
    Actor {
        kind: ActorKind::Player,
        position: Position { x, y },
        stats: CombatStats { max_hp: 30, hp: 30, defense: 2, power: 5 },
        viewshed: Viewshed::new(VIEW_RANGE),
        blocks_tile: false,
        ai: AiState::Idle,
    }
}

/// A monster, which blocks its cell.
pub fn enemy(enemy_type: EnemyType, index: usize, x: i32, y: i32) -> (r: Actor)
    ensures
        fresh(&r, ActorKind::Enemy { enemy_type, index }, x, y, enemy_stats(), true),
{
    Actor {
        kind: ActorKind::Enemy { enemy_type, index },
        position: Position { x, y },
        stats: CombatStats { max_hp: 16, hp: 16, defense: 1, power: 3 },
        viewshed: Viewshed::new(VIEW_RANGE),
        blocks_tile: true,
        ai: AiState::Idle,
    }
}

pub fn goblin(index: usize, x: i32, y: i32) -> (r: Actor)
    ensures
        fresh(&r, ActorKind::Enemy { enemy_type: EnemyType::G, index }, x, y, enemy_stats(), true),
{
    enemy(EnemyType::G, index, x, y)
}

pub fn orc(index: usize, x: i32, y: i32) -> (r: Actor)
    ensures
        fresh(&r, ActorKind::Enemy { enemy_type: EnemyType::O, index }, x, y, enemy_stats(), true),
{
    enemy(EnemyType::O, index, x, y)
}

/// The monster kind that a roll of the two-sided die gives.
pub open spec fn enemy_type_of(roll: int) -> EnemyType {
    if roll == 1 {
        EnemyType::G
    } else {
        EnemyType::O
    }
}

/// The item that a roll of the two-sided die gives.
pub open spec fn item_of(roll: int) -> Item {
    if roll == 1 {
        potion_spec()
    } else {
        scroll_spec()
    }
}

/// A one on the die is a goblin, anything else an orc.
pub fn enemy_type_for(roll: i32) -> (r: EnemyType)
    ensures
        r == enemy_type_of(roll as int),
{
    if roll == 1 {
        EnemyType::G
    } else {
        EnemyType::O
    }
}

/// A one on the die is a health potion, anything else a scroll.
pub fn item_for(roll: i32) -> (r: Item)
    ensures
        r == item_of(roll as int),
{
    if roll == 1 {
        health_potion()
    } else {
        magic_missile_scroll()
    }
}

/// A goblin or an orc, as a two-sided die falls.
pub fn random_enemy(rng: &mut RandomNumberGenerator, x: i32, y: i32, index: usize) -> (r: Actor)
    ensures
        exists|roll: int|
            1 <= roll <= 2 && #[trigger] fresh(&r, ActorKind::Enemy { enemy_type: enemy_type_of(roll), index }, x, y, enemy_stats(), true),
{
    let roll = rng.roll_die(2);
    let r = enemy(enemy_type_for(roll), index, x, y);
    assert(fresh(&r, ActorKind::Enemy { enemy_type: enemy_type_of(roll as int), index }, x, y, enemy_stats(), true));
    r
}

/// A health potion or a magic missile scroll, as a two-sided die falls.
pub fn random_item(rng: &mut RandomNumberGenerator) -> (r: Item)
    ensures
        exists|roll: int| 1 <= roll <= 2 && r == #[trigger] item_of(roll),
{
    let roll = rng.roll_die(2);
    let r = item_for(roll);
    assert(r == item_of(roll as int));
    r
}

/// Spawn points lie inside the room and are pairwise distinct.
pub open spec fn good_points(room: Rect, ps: Seq<Position>) -> bool {
    &&& forall|k: int| 0 <= k < ps.len() ==> GameMap::in_interior(room, (#[trigger] ps[k]).x as int, ps[k].y as int)
    &&& forall|i: int, j: int| 0 <= i < ps.len() && 0 <= j < ps.len() && i != j ==> #[trigger] ps[i] != #[trigger] ps[j]
}

/// Takes the drawn point `p` unless it is already taken.
pub fn add_spawn_point(points: &mut Vec<Position>, p: Position) -> (added: bool)
    ensures
        added == !old(points)@.contains(p),
        final(points)@ == if added {
            old(points)@.push(p)
        } else {
            old(points)@
        },
{
    let mut k: usize = 0;
    while k < points.len()
        invariant
            k <= points.len(),
            points@ == old(points)@,
            forall|j: int| 0 <= j < k ==> points@[j] != p,
        decreases points.len() - k,
    {
        if points[k] == p {
            assert(points@[k as int] == p);
            return false;
        }
        k = k + 1;
    }
    points.push(p);
    true
}

/// The first distinct points of `draws`, in drawing order, up to `n` of
/// them: a drawn point already taken is a retry.
pub open spec fn distinct_points(draws: Seq<Position>, n: int) -> Seq<Position>
    decreases draws.len(),
{
    if draws.len() == 0 {
        Seq::empty()
    } else {
        let prev = distinct_points(draws.drop_last(), n);
        push_if(prev, prev.len() < n && !prev.contains(draws.last()), draws.last())
    }
}

/// The spawn count that a room's die roll gives: three less than the roll.
pub open spec fn count_of_roll(roll: int) -> int {
    roll - 3
}

/// The points of `distinct_points` are distinct, drawn, and at most `n`.
pub proof fn lemma_distinct_points(draws: Seq<Position>, n: int)
    ensures
        distinct_points(draws, n).len() <= if n < 0 { 0 } else { n },
        forall|i: int, j: int|
            0 <= i < distinct_points(draws, n).len() && 0 <= j < distinct_points(draws, n).len() && i != j
                ==> #[trigger] distinct_points(draws, n)[i] != #[trigger] distinct_points(draws, n)[j],
        forall|i: int| 0 <= i < distinct_points(draws, n).len() ==> draws.contains(#[trigger] distinct_points(draws, n)[i]),
    decreases draws.len(),
{
    if draws.len() > 0 {
        let d = draws.drop_last();
        lemma_distinct_points(d, n);
        let prev = distinct_points(d, n);
        let cur = distinct_points(draws, n);
        assert forall|i: int| 0 <= i < cur.len() implies draws.contains(#[trigger] cur[i]) by {
            if i < prev.len() {
                assert(cur[i] == prev[i]);
                let w = choose|w: int| 0 <= w < d.len() && d[w] == prev[i];
                assert(draws[w] == d[w]);
            } else {
                assert(draws[draws.len() - 1] == draws.last());
            }
        }
        assert forall|i: int, j: int| 0 <= i < cur.len() && 0 <= j < cur.len() && i != j implies #[trigger] cur[i] != #[trigger] cur[j] by {
            if i < prev.len() && j < prev.len() {
                assert(cur[i] == prev[i]);
                assert(cur[j] == prev[j]);
            } else if i < prev.len() {
                assert(cur[i] == prev[i]);
                assert(prev.contains(cur[i]));
            } else if j < prev.len() {
                assert(cur[j] == prev[j]);
                assert(prev.contains(cur[j]));
            }
        }
    }
}

/// Takes, in drawing order, the first `n` distinct points of `draws`.
pub fn pick_spawn_points(n: i32, draws: &Vec<Position>) -> (r: Vec<Position>)
    ensures
        r@ == distinct_points(draws@, n as int),
{
    let mut points: Vec<Position> = Vec::new();
    let mut k: usize = 0;
    while k < draws.len()
        invariant
            k <= draws.len(),
            points@ == distinct_points(draws@.subrange(0, k as int), n as int),
        decreases draws.len() - k,
    {
        let ghost post = draws@.subrange(0, k as int + 1);
        let ghost prev = points@;
        assert(post.drop_last() =~= draws@.subrange(0, k as int));
        assert(post.last() == draws@[k as int]);
        if n > 0 && points.len() < n as usize {
            let added = add_spawn_point(&mut points, draws[k]);
            assert(added == !prev.contains(draws@[k as int]));
            assert(points@ == push_if(prev, !prev.contains(draws@[k as int]), draws@[k as int]));
        }
        assert(points@ == push_if(prev, prev.len() < n && !prev.contains(draws@[k as int]), draws@[k as int]));
        assert(distinct_points(post, n as int) == push_if(
            prev,
            prev.len() < n && !prev.contains(draws@[k as int]),
            draws@[k as int],
        ));
        k = k + 1;
    }
    assert(draws@.subrange(0, draws.len() as int) =~= draws@);
    points
}

/// The population of room number `room_index` from its two count rolls
/// and the points drawn for its monsters and its items. Its `k`-th monster
/// is numbered `room_index * max_enemy + k`.
pub fn plan_room(
    room_index: usize,
    max_enemy: i32,
    monster_roll: i32,
    item_roll: i32,
    monster_draws: &Vec<Position>,
    item_draws: &Vec<Position>,
) -> (r: SpawnPlan)
    requires
        0 <= max_enemy,
        (room_index + 1) * max_enemy <= usize::MAX,
        monster_roll >= i32::MIN + 3,
        item_roll >= i32::MIN + 3,
        monster_roll - 3 <= max_enemy,
    ensures
        r.monsters@ == distinct_points(monster_draws@, count_of_roll(monster_roll as int)),
        r.items@ == distinct_points(item_draws@, count_of_roll(item_roll as int)),
        r.monster_numbers@.len() == r.monsters@.len(),
        forall|k: int| 0 <= k < r.monster_numbers@.len() ==> #[trigger] r.monster_numbers@[k] == room_index * max_enemy + k,
{
    let monsters = pick_spawn_points(monster_roll - 3, monster_draws);
    proof {
        lemma_distinct_points(monster_draws@, monster_roll - 3);
        assert((room_index + 1) * max_enemy == room_index * max_enemy + max_enemy) by (nonlinear_arith);
    }
    let base: usize = room_index * (max_enemy as usize);
    let mut monster_numbers: Vec<usize> = Vec::new();
    let mut k: usize = 0;
    while k < monsters.len()
        invariant
            k <= monsters@.len(),
            monsters@.len() <= max_enemy,
            base == room_index * max_enemy,
            base + max_enemy <= usize::MAX,
            monster_numbers@.len() == k,
            forall|j: int| 0 <= j < k ==> #[trigger] monster_numbers@[j] == room_index * max_enemy + j,
        decreases monsters@.len() - k,
    {
        monster_numbers.push(base + k);
        k = k + 1;
    }
    SpawnPlan { monsters, monster_numbers, items: pick_spawn_points(item_roll - 3, item_draws) }
}

/// Draws `budget` points inside `room`.
fn draw_points(rng: &mut RandomNumberGenerator, room: &Rect, budget: u64) -> (r: Vec<Position>)
    requires
        room.x1 < room.x2,
        room.y1 < room.y2,
        room.x2 - room.x1 < i32::MAX,
        room.y2 - room.y1 < i32::MAX,
    ensures
        r@.len() == budget,
        forall|k: int| 0 <= k < r@.len() ==> GameMap::in_interior(*room, (#[trigger] r@[k]).x as int, r@[k].y as int),
{
    let dx: i64 = room.x2 as i64 - room.x1 as i64;
    let dy: i64 = room.y2 as i64 - room.y1 as i64;
    let mut points: Vec<Position> = Vec::new();
    let mut k: u64 = 0;
    while k < budget
        invariant
            points@.len() == k,
            k <= budget,
            dx == room.x2 - room.x1,
            dy == room.y2 - room.y1,
            1 <= dx < i32::MAX,
            1 <= dy < i32::MAX,
            forall|j: int| 0 <= j < points@.len() ==> GameMap::in_interior(*room, (#[trigger] points@[j]).x as int, points@[j].y as int),
        decreases budget - k,
    {
        let x = room.x1 + rng.roll_die(dx as i32);
        let y = room.y1 + rng.roll_die(dy as i32);
        points.push(Position { x, y });
        k = k + 1;
    }
    points
}

/// Plans the population of room number `room_index`: the numbers of
/// monsters and of items are rolled on a die of `max + 2` sides less three;
/// then `MAX_SPAWN_TRIES` points inside the room are drawn for each wanted
/// one, and the first distinct ones are kept. A draw on a taken point is a
/// retry, so a crowded room may get fewer spawns than it rolled.
pub fn spawn_room(
    rng: &mut RandomNumberGenerator,
    room: &Rect,
    room_index: usize,
    max_enemy: i32,
    max_item: i32,
) -> (r: SpawnPlan)
    requires
        room.x1 < room.x2,
        room.y1 < room.y2,
        room.x2 - room.x1 < i32::MAX,
        room.y2 - room.y1 < i32::MAX,
        0 <= max_enemy < i32::MAX - 2,
        0 <= max_item < i32::MAX - 2,
        (room_index + 1) * max_enemy <= usize::MAX,
    ensures
        good_points(*room, r.monsters@),
        good_points(*room, r.items@),
        r.monsters@.len() <= if max_enemy < 1 { 0 } else { max_enemy - 1 },
        r.items@.len() <= if max_item < 1 { 0 } else { max_item - 1 },
        r.monster_numbers@.len() == r.monsters@.len(),
        forall|k: int| 0 <= k < r.monster_numbers@.len() ==> #[trigger] r.monster_numbers@[k] == room_index * max_enemy + k,
        exists|mr: int, ir: int, md: Seq<Position>, id: Seq<Position>|
            #![trigger distinct_points(md, count_of_roll(mr)), distinct_points(id, count_of_roll(ir))]
            {
                &&& 1 <= mr <= max_enemy + 2
                &&& 1 <= ir <= max_item + 2
                &&& md.len() == if mr > 3 { (mr - 3) * MAX_SPAWN_TRIES } else { 0 }
                &&& id.len() == if ir > 3 { (ir - 3) * MAX_SPAWN_TRIES } else { 0 }
                &&& forall|k: int| 0 <= k < md.len() ==> GameMap::in_interior(*room, (#[trigger] md[k]).x as int, md[k].y as int)
                &&& forall|k: int| 0 <= k < id.len() ==> GameMap::in_interior(*room, (#[trigger] id[k]).x as int, id[k].y as int)
                &&& r.monsters@ == distinct_points(md, count_of_roll(mr))
                &&& r.items@ == distinct_points(id, count_of_roll(ir))
            },
{
    let monster_roll = rng.roll_die(max_enemy + 2);
    let item_roll = rng.roll_die(max_item + 2);
    let mn: u64 = if monster_roll > 3 { (monster_roll - 3) as u64 } else { 0 };
    let inn: u64 = if item_roll > 3 { (item_roll - 3) as u64 } else { 0 };
    let tries: u64 = MAX_SPAWN_TRIES as u64;
    assert(mn * tries <= 0xffff_ffff * 100 && inn * tries <= 0xffff_ffff * 100) by (nonlinear_arith)
        requires
            mn <= 0xffff_ffff,
            inn <= 0xffff_ffff,
            tries == 100,
    ;
    let monster_draws = draw_points(rng, room, mn * tries);
    let item_draws = draw_points(rng, room, inn * tries);
    let plan = plan_room(room_index, max_enemy, monster_roll, item_roll, &monster_draws, &item_draws);
    proof {
        lemma_distinct_points(monster_draws@, monster_roll - 3);
        lemma_distinct_points(item_draws@, item_roll - 3);
        let ms = plan.monsters@;
        assert forall|k: int| 0 <= k < ms.len() implies GameMap::in_interior(*room, (#[trigger] ms[k]).x as int, ms[k].y as int) by {
            assert(monster_draws@.contains(ms[k]));
        }
        let is = plan.items@;
        assert forall|k: int| 0 <= k < is.len() implies GameMap::in_interior(*room, (#[trigger] is[k]).x as int, is[k].y as int) by {
            assert(item_draws@.contains(is[k]));
        }
        assert(distinct_points(monster_draws@, count_of_roll(monster_roll as int)) == plan.monsters@);
    }
    plan
}

} // verus!
