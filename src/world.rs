//! A session: the map, the actors, the items, and the steps of a turn in
//! their fixed order. Actors and items are kept in arenas and named by their
//! index; actor 0 is the player.

use vstd::prelude::*;
use crate::backpack::{ItemInBackpacks, ItemRemoveEvent, ItemType};
use crate::combat::{
    all_nonnegative, damages_to, hp_after, melee_refs_ok, pending_amounts, resolve_combat, swept, CombatStats, GameLog,
    LogEntry, SufferDamage, WantsToMelee,
};
use crate::dungeon::{generated, new_map_rooms_and_corridors, room_fits, MAP_HEIGHT, MAP_WIDTH, MAX_ROOMS, MAX_SIZE, MIN_SIZE};
use crate::enemy::{adjacent, enemy_ai, next_ai_state, next_step, AiState, NavigationPath};
use crate::items::{affected, heal_all, use_item, wasted, Hostile, Item, ItemUseOutcome};
use crate::map::{map_index, push_if, GameMap, Occupant, Position, Rect};
use vstd::arithmetic::div_mod::{lemma_fundamental_div_mod_converse_div, lemma_fundamental_div_mod_converse_mod};
use crate::player::{accepted, first_item_at, input_outcome, player_input, GroundItem, PlayerAction, PlayerIntent};
use crate::rng::RandomNumberGenerator;
use crate::spawner::{player, random_enemy, random_item, spawn_room, ActorKind, Actor};
use crate::state::{next_phase, phase_after, TurnPhase};
use crate::visibility::{clip, covers, update_viewshed, Viewshed};

verus! {

/// Monsters and items that a room may hold, at most one less each.
pub const ROOM_SPAWN_MAX: i32 = 4;

/// The state of one session. The per-actor vectors are indexed by actor
/// id, the per-item vectors by item id.
#[derive(Debug)]
pub struct World {
    pub map: GameMap,
    pub kinds: Vec<ActorKind>,
    pub positions: Vec<Position>,
    pub stats: Vec<CombatStats>,
    pub viewsheds: Vec<Viewshed>,
    pub ai: Vec<AiState>,
    pub blocks: Vec<bool>,
    pub alive: Vec<bool>,
    pub pending: Vec<Option<SufferDamage>>,
    pub melees: Vec<WantsToMelee>,
    pub items: Vec<Item>,
    pub item_positions: Vec<Position>,
    pub on_ground: Vec<bool>,
    pub backpacks: ItemInBackpacks,
    pub log: GameLog,
    pub player: usize,
    pub phase: TurnPhase,
}

impl World {
    pub open spec fn actors(&self) -> int {
        self.kinds@.len() as int
    }

    /// The arenas line up, every actor stands on the map, pending records
    /// name real actors, and the map and the backpack index are well formed.
    pub open spec fn wf(&self) -> bool {
        &&& self.parts_wf()
        &&& self.player < self.actors()
    }

    /// Everything of `wf` but that the player exists.
    pub open spec fn parts_wf(&self) -> bool {
        &&& self.map.wf()
        &&& self.positions@.len() == self.actors()
        &&& self.stats@.len() == self.actors()
        &&& self.viewsheds@.len() == self.actors()
        &&& self.ai@.len() == self.actors()
        &&& self.blocks@.len() == self.actors()
        &&& self.alive@.len() == self.actors()
        &&& self.pending@.len() == self.actors()
        &&& forall|i: int|
            0 <= i < self.actors() ==> self.map.in_bounds(
                (#[trigger] self.positions@[i]).x as int,
                self.positions@[i].y as int,
            )
        &&& melee_refs_ok(self.stats@, self.melees@)
        &&& forall|i: int| 0 <= i < self.actors() ==> all_nonnegative(pending_amounts(#[trigger] self.pending@[i]))
        &&& self.item_positions@.len() == self.items@.len()
        &&& self.on_ground@.len() == self.items@.len()
        &&& self.backpacks.wf()
    }

    fn add_actor(&mut self, a: Actor)
        requires
            old(self).parts_wf(),
            old(self).map.in_bounds(a.position.x as int, a.position.y as int),
            old(self).actors() < usize::MAX,
        ensures
            final(self).parts_wf(),
            final(self).actors() == old(self).actors() + 1,
            final(self).map == old(self).map,
            final(self).player == old(self).player,
            final(self).positions@ == old(self).positions@.push(a.position),
            final(self).stats@ == old(self).stats@.push(a.stats),
            final(self).kinds@ == old(self).kinds@.push(a.kind),
            final(self).alive@ == old(self).alive@.push(true),
            final(self).items@ == old(self).items@,
            final(self).item_positions@ == old(self).item_positions@,
            final(self).on_ground@ == old(self).on_ground@,
            final(self).phase == old(self).phase,
    {
        let Actor { kind, position, stats, viewshed, blocks_tile, ai } = a;
        self.kinds.push(kind);
        self.positions.push(position);
        self.stats.push(stats);
        self.viewsheds.push(viewshed);
        self.ai.push(ai);
        self.blocks.push(blocks_tile);
        self.alive.push(true);
        self.pending.push(None);
        proof {
            assert forall|k: int| 0 <= k < self.melees@.len() implies (#[trigger] self.melees@[k]).attacker < self.stats@.len()
                && self.melees@[k].target < self.stats@.len() by {
                assert(old(self).melees@[k] == self.melees@[k]);
            }
            assert forall|i: int| 0 <= i < self.actors() implies all_nonnegative(pending_amounts(#[trigger] self.pending@[i])) by {
                if i < old(self).actors() {
                    assert(self.pending@[i] == old(self).pending@[i]);
                }
            }
            assert forall|i: int| 0 <= i < self.actors() implies self.map.in_bounds(
                (#[trigger] self.positions@[i]).x as int,
                self.positions@[i].y as int,
            ) by {
                if i < old(self).actors() {
                    assert(self.positions@[i] == old(self).positions@[i]);
                }
            }
        }
    }

    fn add_item(&mut self, item: Item, position: Position)
        requires
            old(self).wf(),
        ensures
            final(self).wf(),
            final(self).actors() == old(self).actors(),
            final(self).map == old(self).map,
            final(self).player == old(self).player,
            final(self).positions@ == old(self).positions@,
            final(self).stats@ == old(self).stats@,
            final(self).kinds@ == old(self).kinds@,
            final(self).alive@ == old(self).alive@,
            final(self).phase == old(self).phase,
            final(self).items@ == old(self).items@.push(item),
            final(self).item_positions@ == old(self).item_positions@.push(position),
            final(self).on_ground@ == old(self).on_ground@.push(true),
    {
        self.items.push(item);
        self.item_positions.push(position);
        self.on_ground.push(true);
    }

    /// Builds a new session: the standard dungeon, the player at the center
    /// of its first room, and every other room populated.
    pub fn setup_game(rng: &mut RandomNumberGenerator) -> (w: World)
        ensures
            w.wf(),
            w.player == 0,
            w.kinds@[0] == ActorKind::Player,
            w.positions@[0].x == w.map.rooms@[0].center_of().0,
            w.positions@[0].y == w.map.rooms@[0].center_of().1,
            w.stats@[0] == crate::spawner::player_stats(),
            forall|i: int|
                1 <= i < w.actors() ==> spawned_in_room(&w.map, #[trigger] w.kinds@[i], w.positions@[i])
                    && w.stats@[i] == crate::spawner::enemy_stats(),
            forall|i1: int, i2: int|
                1 <= i1 < w.actors() && 1 <= i2 < w.actors() && i1 != i2 ==> #[trigger] w.positions@[i1]
                    != #[trigger] w.positions@[i2],
            forall|i: int| 0 <= i < w.actors() ==> #[trigger] w.alive@[i],
            w.items_in_rooms(),
            w.phase == TurnPhase::PreRun,
            generated(&w.map, MAP_WIDTH as int, MAP_HEIGHT as int, MAX_ROOMS as int, MIN_SIZE as int, MAX_SIZE as int),
    {
        let map = new_map_rooms_and_corridors(rng);
        let ghost map0 = map;
        let (px, py) = map.rooms[0].center();
        let mut w = World {
            map,
            kinds: Vec::new(),
            positions: Vec::new(),
            stats: Vec::new(),
            viewsheds: Vec::new(),
            ai: Vec::new(),
            blocks: Vec::new(),
            alive: Vec::new(),
            pending: Vec::new(),
            melees: Vec::new(),
            items: Vec::new(),
            item_positions: Vec::new(),
            on_ground: Vec::new(),
            backpacks: ItemInBackpacks::new(),
            log: GameLog::new(),
            player: 0,
            phase: TurnPhase::PreRun,
        };
        assert(room_fits(w.map.rooms@[0], MAP_WIDTH as int, MAP_HEIGHT as int, MIN_SIZE as int, MAX_SIZE as int));
        assert(w.map.in_bounds(px as int, py as int));
        w.add_actor(player(px, py));
        let nrooms = w.map.rooms.len();
        let mut r: usize = 1;
        while r < nrooms
            invariant
                w.wf(),
                w.map == map0,
                nrooms == map0.rooms@.len(),
                nrooms <= 30,
                1 <= r <= nrooms,
                w.player == 0,
                w.actors() >= 1,
                w.actors() <= 4 * r - 3,
                w.kinds@[0] == ActorKind::Player,
                w.positions@[0] == (Position { x: px, y: py }),
                w.stats@[0] == crate::spawner::player_stats(),
                forall|i: int|
                    1 <= i < w.actors() ==> spawned_in_room(&map0, #[trigger] w.kinds@[i], w.positions@[i])
                        && enemy_number(w.kinds@[i]) / 4 + 1 < r && w.stats@[i] == crate::spawner::enemy_stats(),
                forall|i1: int, i2: int|
                    1 <= i1 < w.actors() && 1 <= i2 < w.actors() && i1 != i2 ==> #[trigger] w.positions@[i1]
                        != #[trigger] w.positions@[i2],
                forall|i: int| 0 <= i < w.actors() ==> #[trigger] w.alive@[i],
                forall|k: int|
                    0 <= k < w.items@.len() ==> (#[trigger] w.on_ground@[k]) && in_some_room(&map0, w.item_positions@[k]),
                w.phase == TurnPhase::PreRun,
                generated(&map0, MAP_WIDTH as int, MAP_HEIGHT as int, MAX_ROOMS as int, MIN_SIZE as int, MAX_SIZE as int),
            decreases nrooms - r,
        {
            let room = w.map.rooms[r];
            assert(room_fits(map0.rooms@[r as int], MAP_WIDTH as int, MAP_HEIGHT as int, MIN_SIZE as int, MAX_SIZE as int));
            let plan = spawn_room(rng, &room, r - 1, ROOM_SPAWN_MAX, ROOM_SPAWN_MAX);
            let mut j: usize = 0;
            while j < plan.monsters.len()
                invariant
                    w.wf(),
                    w.map == map0,
                    room == map0.rooms@[r as int],
                    map0.width == MAP_WIDTH,
                    map0.height == MAP_HEIGHT,
                    room_fits(room, MAP_WIDTH as int, MAP_HEIGHT as int, MIN_SIZE as int, MAX_SIZE as int),
                    crate::spawner::good_points(room, plan.monsters@),
                    plan.monsters@.len() <= 3,
                    plan.monster_numbers@.len() == plan.monsters@.len(),
                    forall|k: int| 0 <= k < plan.monster_numbers@.len() ==> #[trigger] plan.monster_numbers@[k] == (r - 1) * 4 + k,
                    1 <= r < nrooms,
                    nrooms == map0.rooms@.len(),
                    nrooms <= 30,
                    j <= plan.monsters@.len(),
                    w.player == 0,
                    w.actors() >= 1,
                    w.actors() <= 4 * r - 3 + j,
                    w.kinds@[0] == ActorKind::Player,
                    w.positions@[0] == (Position { x: px, y: py }),
                    w.stats@[0] == crate::spawner::player_stats(),
                    forall|i: int|
                        1 <= i < w.actors() ==> spawned_in_room(&map0, #[trigger] w.kinds@[i], w.positions@[i])
                            && w.stats@[i] == crate::spawner::enemy_stats() && (enemy_number(w.kinds@[i]) / 4 + 1 < r || (
                        enemy_number(w.kinds@[i]) / 4 + 1 == r && enemy_number(w.kinds@[i]) % 4 < j
                            && w.positions@[i] == plan.monsters@[enemy_number(w.kinds@[i]) % 4])),
                    forall|i1: int, i2: int|
                        1 <= i1 < w.actors() && 1 <= i2 < w.actors() && i1 != i2 ==> #[trigger] w.positions@[i1]
                            != #[trigger] w.positions@[i2],
                    forall|i: int| 0 <= i < w.actors() ==> #[trigger] w.alive@[i],
                    forall|k: int|
                        0 <= k < w.items@.len() ==> (#[trigger] w.on_ground@[k]) && in_some_room(&map0, w.item_positions@[k]),
                    w.phase == TurnPhase::PreRun,
                    generated(&map0, MAP_WIDTH as int, MAP_HEIGHT as int, MAX_ROOMS as int, MIN_SIZE as int, MAX_SIZE as int),
                decreases plan.monsters@.len() - j,
            {
                let p = plan.monsters[j];
                assert(GameMap::in_interior(room, p.x as int, p.y as int)) by {
                    assert(plan.monsters@[j as int] == p);
                }
                let index: usize = plan.monster_numbers[j];
                assert(index == (r - 1) * 4 + j);
                assert(w.map.in_bounds(p.x as int, p.y as int));
                assert(w.actors() < usize::MAX);
                let a = random_enemy(rng, p.x, p.y, index);
                let ghost before = w;
                let ghost n = before.actors();
                w.add_actor(a);
                proof {
                    let roll = choose|roll: int|
                        1 <= roll <= 2 && #[trigger] crate::spawner::fresh(
                            &a,
                            ActorKind::Enemy { enemy_type: crate::spawner::enemy_type_of(roll), index },
                            p.x,
                            p.y,
                            crate::spawner::enemy_stats(),
                            true,
                        );
                    let ii = index as int;
                    lemma_fundamental_div_mod_converse_div(ii, 4, r as int - 1, j as int);
                    lemma_fundamental_div_mod_converse_mod(ii, 4, r as int - 1, j as int);
                    assert(enemy_number(w.kinds@[n]) == ii);
                    assert(w.positions@[n] == p);
                    assert forall|i: int| 1 <= i < w.actors() implies spawned_in_room(&map0, #[trigger] w.kinds@[i], w.positions@[i])
                        && w.stats@[i] == crate::spawner::enemy_stats() && (enemy_number(w.kinds@[i]) / 4 + 1 < r || (
                    enemy_number(w.kinds@[i]) / 4 + 1 == r && enemy_number(w.kinds@[i]) % 4 < j + 1
                        && w.positions@[i] == plan.monsters@[enemy_number(w.kinds@[i]) % 4])) by {
                        if i < n {
                            assert(w.kinds@[i] == before.kinds@[i]);
                            assert(w.positions@[i] == before.positions@[i]);
                            assert(w.stats@[i] == before.stats@[i]);
                        }
                    }
                    assert forall|i1: int, i2: int|
                        1 <= i1 < w.actors() && 1 <= i2 < w.actors() && i1 != i2 implies #[trigger] w.positions@[i1]
                            != #[trigger] w.positions@[i2] by {
                        if i1 == n || i2 == n {
                            let o = if i1 == n { i2 } else { i1 };
                            assert(w.positions@[o] == before.positions@[o]);
                            assert(w.kinds@[o] == before.kinds@[o]);
                            let on = enemy_number(before.kinds@[o]);
                            if on / 4 + 1 < r {
                                let other = map0.rooms@[on / 4 + 1];
                                assert(!map0.rooms@[r as int].overlaps(other));
                                lemma_interiors_apart(room, other, p);
                            } else {
                                assert(plan.monsters@[on % 4] != plan.monsters@[j as int]);
                            }
                        } else {
                            assert(w.positions@[i1] == before.positions@[i1]);
                            assert(w.positions@[i2] == before.positions@[i2]);
                        }
                    }
                }
                j = j + 1;
            }
            let mut j: usize = 0;
            while j < plan.items.len()
                invariant
                    w.wf(),
                    w.map == map0,
                    room == map0.rooms@[r as int],
                    crate::spawner::good_points(room, plan.items@),
                    1 <= r < nrooms,
                    nrooms == map0.rooms@.len(),
                    nrooms <= 30,
                    j <= plan.items@.len(),
                    w.player == 0,
                    w.actors() >= 1,
                    w.actors() <= 4 * r,
                    w.kinds@[0] == ActorKind::Player,
                    w.positions@[0] == (Position { x: px, y: py }),
                    w.stats@[0] == crate::spawner::player_stats(),
                    forall|i: int|
                        1 <= i < w.actors() ==> spawned_in_room(&map0, #[trigger] w.kinds@[i], w.positions@[i])
                            && enemy_number(w.kinds@[i]) / 4 + 1 < r + 1 && w.stats@[i] == crate::spawner::enemy_stats(),
                    forall|i1: int, i2: int|
                        1 <= i1 < w.actors() && 1 <= i2 < w.actors() && i1 != i2 ==> #[trigger] w.positions@[i1]
                            != #[trigger] w.positions@[i2],
                    forall|i: int| 0 <= i < w.actors() ==> #[trigger] w.alive@[i],
                    forall|k: int|
                        0 <= k < w.items@.len() ==> (#[trigger] w.on_ground@[k]) && in_some_room(&map0, w.item_positions@[k]),
                    w.phase == TurnPhase::PreRun,
                    generated(&map0, MAP_WIDTH as int, MAP_HEIGHT as int, MAX_ROOMS as int, MIN_SIZE as int, MAX_SIZE as int),
                decreases plan.items@.len() - j,
            {
                let p = plan.items[j];
                let item = random_item(rng);
                let ghost before = w;
                w.add_item(item, p);
                proof {
                    assert(plan.items@[j as int] == p);
                    assert(GameMap::in_interior(map0.rooms@[r as int], p.x as int, p.y as int));
                    assert forall|k: int| 0 <= k < w.items@.len() implies (#[trigger] w.on_ground@[k]) && in_some_room(&map0, w.item_positions@[k]) by {
                        if k < before.items@.len() {
                            assert(w.on_ground@[k] == before.on_ground@[k]);
                            assert(w.item_positions@[k] == before.item_positions@[k]);
                        } else {
                            assert(w.item_positions@[k] == p);
                        }
                    }
                }
                j = j + 1;
            }
            r = r + 1;
        }
        assert forall|k: int| 0 <= k < w.items@.len() implies (#[trigger] w.on_ground@[k]) && in_some_room(&w.map, w.item_positions@[k]) by {
            assert(w.on_ground@[k] && in_some_room(&map0, w.item_positions@[k]));
            let rr = choose|rr: int| 1 <= rr < map0.rooms@.len() && GameMap::in_interior(
                #[trigger] map0.rooms@[rr],
                w.item_positions@[k].x as int,
                w.item_positions@[k].y as int,
            );
            assert(w.map.rooms@[rr] == map0.rooms@[rr]);
        }
        assert(w.items_in_rooms());
        w
    }

    /// What the occupancy index sees of actor `i`: a living blocking actor
    /// blocks its cell.
    pub open spec fn occupant_of(&self, i: int) -> Occupant {
        Occupant { position: self.positions@[i], entity: i as usize, blocks_tile: self.blocks@[i] && self.alive@[i] }
    }

    fn occupant_list(&self) -> (r: Vec<Occupant>)
        requires
            self.wf(),
        ensures
            r@.len() == self.actors(),
            forall|i: int| 0 <= i < self.actors() ==> #[trigger] r@[i] == self.occupant_of(i),
    {
        let mut r: Vec<Occupant> = Vec::new();
        let mut i: usize = 0;
        while i < self.kinds.len()
            invariant
                self.wf(),
                i <= self.actors(),
                r@.len() == i,
                forall|j: int| 0 <= j < i ==> #[trigger] r@[j] == self.occupant_of(j),
            decreases self.actors() - i,
        {
            r.push(Occupant { position: self.positions[i], entity: i, blocks_tile: self.blocks[i] && self.alive[i] });
            i = i + 1;
        }
        r
    }

    /// Rebuilds the blocked bitmap and the occupant lists from the living
    /// blocking actors.
    pub fn refresh_occupancy(&mut self)
        requires
            old(self).wf(),
        ensures
            final(self).wf(),
            forall|i: int|
                0 <= i < final(self).map.cells() ==> (#[trigger] final(self).map.tile_content@[i])@ == old(self).map.occupants_at(
                    Seq::new(old(self).actors() as nat, |j: int| old(self).occupant_of(j)),
                    i,
                ),
            forall|i: int|
                0 <= i < final(self).map.cells() ==> #[trigger] final(self).map.blocked@[i] == (old(self).map.tiles@[i]
                    == crate::map::TileType::Wall || old(self).map.occupants_at(
                    Seq::new(old(self).actors() as nat, |j: int| old(self).occupant_of(j)),
                    i,
                ).len() > 0),
            final(self).positions == old(self).positions,
            final(self).stats == old(self).stats,
    {
        let occ = self.occupant_list();
        assert(occ@ =~= Seq::new(self.actors() as nat, |j: int| self.occupant_of(j)));
        assert forall|k: int| 0 <= k < occ.len() implies self.map.in_bounds(
            (#[trigger] occ@[k]).position.x as int,
            occ@[k].position.y as int,
        ) by {
            assert(occ@[k].position == self.positions@[k]);
        }
        map_index(&mut self.map, &occ);
    }

    /// Recomputes actor `actor`'s viewshed from `field`, the cells that the
    /// field-of-view search found from its position. For the player this
    /// also sets the map's visible bitmap and reveals what it sees.
    pub fn apply_field_of_view(&mut self, actor: usize, field: &Vec<Position>)
        requires
            old(self).wf(),
            actor < old(self).actors(),
        ensures
            final(self).wf(),
            forall|i: int|
                0 <= i < old(self).map.cells() && #[trigger] old(self).map.revealed_tiles@[i] ==> final(self).map.revealed_tiles@[i],
            old(self).viewsheds@[actor as int].dirty ==> final(self).viewsheds@[actor as int].visible_tiles@ == clip(
                &old(self).map,
                field@,
            ) && !final(self).viewsheds@[actor as int].dirty,
            !old(self).viewsheds@[actor as int].dirty ==> final(self).viewsheds@[actor as int].visible_tiles@ == old(
                self,
            ).viewsheds@[actor as int].visible_tiles@,
            old(self).viewsheds@[actor as int].dirty && actor == old(self).player ==> forall|i: int|
                #![trigger final(self).map.visible_tiles@[i]]
                #![trigger final(self).map.revealed_tiles@[i]]
                0 <= i < final(self).map.cells() ==> (final(self).map.visible_tiles@[i] == covers(
                    &old(self).map,
                    clip(&old(self).map, field@),
                    i,
                ) && final(self).map.revealed_tiles@[i] == (old(self).map.revealed_tiles@[i] || covers(
                    &old(self).map,
                    clip(&old(self).map, field@),
                    i,
                ))),
            !(old(self).viewsheds@[actor as int].dirty && actor == old(self).player) ==> final(self).map == old(self).map,
            forall|j: int| 0 <= j < final(self).actors() && j != actor ==> #[trigger] final(self).viewsheds@[j] == old(self).viewsheds@[j],
            final(self).positions == old(self).positions,
            final(self).stats == old(self).stats,
    {
        let is_player = actor == self.player;
        update_viewshed(&mut self.map, &mut self.viewsheds[actor], field, is_player);
    }

    /// The living actors among the first `n` whose viewsheds are due.
    pub open spec fn dirty_upto(&self, n: int) -> Seq<usize>
        decreases n,
    {
        if n <= 0 {
            Seq::empty()
        } else {
            push_if(self.dirty_upto(n - 1), self.alive@[n - 1] && self.viewsheds@[n - 1].dirty, (n - 1) as usize)
        }
    }

    /// The items among the first `n` that lie on the map.
    pub open spec fn ground_upto(&self, n: int) -> Seq<GroundItem>
        decreases n,
    {
        if n <= 0 {
            Seq::empty()
        } else {
            push_if(
                self.ground_upto(n - 1),
                self.on_ground@[n - 1],
                GroundItem { item: (n - 1) as usize, position: self.item_positions@[n - 1] },
            )
        }
    }

    /// Item `i` can be used: it is known, not on the map, the most recent
    /// item of its kind in the player's backpack, and its amounts are not
    /// negative.
    pub open spec fn usable(&self, i: int) -> bool {
        &&& 0 <= i < self.items@.len()
        &&& !self.on_ground@[i]
        &&& self.backpacks.items_of(self.player, self.items@[i].kind).len() > 0
        &&& self.backpacks.items_of(self.player, self.items@[i].kind).last() == i as usize
        &&& self.items@[i].healing matches Some(h) ==> h.heal_amount >= 0
        &&& self.items@[i].damage matches Some(d) ==> d.damage >= 0
    }

    /// Every item lies on the map, inside one of the rooms after the first.
    pub open spec fn items_in_rooms(&self) -> bool {
        forall|k: int|
            0 <= k < self.items@.len() ==> (#[trigger] self.on_ground@[k]) && in_some_room(&self.map, self.item_positions@[k])
    }

    /// Actor `i` is a living monster.
    pub open spec fn is_monster(&self, i: int) -> bool {
        self.alive@[i] && i != self.player && self.kinds@[i] is Enemy
    }

    /// The living monsters among the first `n`, with where they stand.
    pub open spec fn hostiles_upto(&self, n: int) -> Seq<Hostile>
        decreases n,
    {
        if n <= 0 {
            Seq::empty()
        } else {
            push_if(
                self.hostiles_upto(n - 1),
                self.is_monster(n - 1),
                Hostile { entity: (n - 1) as usize, position: self.positions@[n - 1] },
            )
        }
    }

    /// The living actors whose viewsheds are due for recomputation.
    pub fn dirty_viewers(&self) -> (r: Vec<usize>)
        requires
            self.wf(),
        ensures
            r@ == self.dirty_upto(self.actors()),
    {
        let mut r: Vec<usize> = Vec::new();
        let mut i: usize = 0;
        while i < self.kinds.len()
            invariant
                self.wf(),
                i <= self.actors(),
                r@ == self.dirty_upto(i as int),
            decreases self.actors() - i,
        {
            if self.alive[i] && self.viewsheds[i].dirty {
                r.push(i);
            }
            i = i + 1;
        }
        r
    }

    /// The items lying on the map.
    pub fn ground_items(&self) -> (r: Vec<GroundItem>)
        requires
            self.wf(),
        ensures
            r@ == self.ground_upto(self.items@.len() as int),
    {
        let mut r: Vec<GroundItem> = Vec::new();
        let mut i: usize = 0;
        while i < self.items.len()
            invariant
                self.wf(),
                i <= self.items@.len(),
                r@ == self.ground_upto(i as int),
            decreases self.items@.len() - i,
        {
            if self.on_ground[i] {
                r.push(GroundItem { item: i, position: self.item_positions[i] });
            }
            i = i + 1;
        }
        r
    }

    /// The living monsters, with where they stand.
    pub fn hostiles(&self) -> (r: Vec<Hostile>)
        requires
            self.wf(),
        ensures
            r@ == self.hostiles_upto(self.actors()),
    {
        let mut r: Vec<Hostile> = Vec::new();
        let mut i: usize = 0;
        while i < self.kinds.len()
            invariant
                self.wf(),
                i <= self.actors(),
                r@ == self.hostiles_upto(i as int),
            decreases self.actors() - i,
        {
            let is_enemy = match self.kinds[i] {
                ActorKind::Enemy { .. } => true,
                ActorKind::Player => false,
            };
            if self.alive[i] && i != self.player && is_enemy {
                r.push(Hostile { entity: i, position: self.positions[i] });
            }
            i = i + 1;
        }
        r
    }

    /// Takes the player's input for this tick. An attack is queued, a move
    /// dirties the player's viewshed, and an item found where the player
    /// lands goes into the player's backpack. While input is awaited, an
    /// accepted move or attack passes the turn to the player.
    pub fn player_turn(&mut self, intent: PlayerIntent) -> (r: PlayerAction)
        requires
            old(self).wf(),
        ensures
            final(self).wf(),
            ({
                let p = old(self).player as int;
                let (action, to) = input_outcome(
                    &old(self).map,
                    old(self).player,
                    old(self).positions@[p],
                    intent,
                    old(self).ground_upto(old(self).items@.len() as int),
                );
                &&& r == action
                &&& final(self).positions@ == old(self).positions@.update(p, to)
                &&& final(self).melees@ == match r {
                    PlayerAction::Attack(m) => if m.target < old(self).actors() {
                        old(self).melees@.push(m)
                    } else {
                        old(self).melees@
                    },
                    _ => old(self).melees@,
                }
                &&& r is Moved ==> final(self).viewsheds@[p].dirty
                &&& final(self).on_ground@ == match r {
                    PlayerAction::Moved { pickup: Some(want), .. } => old(self).on_ground@.update(want.item as int, false),
                    _ => old(self).on_ground@,
                }
                &&& final(self).log.entries@ == match r {
                    PlayerAction::Moved { pickup: Some(want), .. } => old(self).log.entries@.push(
                        LogEntry::PickUp { owner: old(self).player, item: want.item },
                    ),
                    _ => old(self).log.entries@,
                }
                &&& forall|o: usize, t: ItemType| #[trigger] final(self).backpacks.items_of(o, t) == match r {
                    PlayerAction::Moved { pickup: Some(want), .. } => if o == old(self).player && t == old(
                        self,
                    ).items@[want.item as int].kind && old(self).backpacks.items_of(o, t).len() < i32::MAX - 1 {
                        old(self).backpacks.items_of(o, t).push(want.item)
                    } else {
                        old(self).backpacks.items_of(o, t)
                    },
                    _ => old(self).backpacks.items_of(o, t),
                }
                &&& final(self).phase == if old(self).phase == TurnPhase::AwaitingInput {
                    phase_after(TurnPhase::AwaitingInput, accepted(r), false)
                } else {
                    old(self).phase
                }
            }),
            final(self).stats == old(self).stats,
            final(self).map == old(self).map,
    {
        let ghost w0 = *self;
        let ground = self.ground_items();
        let p = self.player;
        let mut pos = self.positions[p];
        let mut phase = self.phase;
        let action = player_input(&self.map, p, &mut pos, intent, &ground, &mut phase);
        self.positions[p] = pos;
        proof {
            assert forall|i: int| 0 <= i < self.actors() implies self.map.in_bounds(
                (#[trigger] self.positions@[i]).x as int,
                self.positions@[i].y as int,
            ) by {
                if i != p {
                    assert(self.positions@[i] == old(self).positions@[i]);
                }
            }
        }
        match action {
            PlayerAction::Attack(m) => {
                if m.target < self.stats.len() {
                    self.melees.push(m);
                    proof {
                        assert forall|k: int| 0 <= k < self.melees@.len() implies (#[trigger] self.melees@[k]).attacker
                            < self.stats@.len() && self.melees@[k].target < self.stats@.len() by {
                            if k < old(self).melees@.len() {
                                assert(self.melees@[k] == old(self).melees@[k]);
                            }
                        }
                    }
                }
            },
            PlayerAction::Moved { to, pickup } => {
                self.viewsheds[p].dirty = true;
                match pickup {
                    Some(want) => {
                        proof {
                            lemma_first_item_on_ground(&w0, ground@, to);
                        }
                        if want.item < self.items.len() && self.on_ground[want.item] {
                            let it = want.item;
                            let kind = self.items[it].kind;
                            self.on_ground[it] = false;
                            self.log.entries.push(LogEntry::PickUp { owner: p, item: it });
                            if self.backpacks.count_of(p, kind) < i32::MAX - 1 {
                                self.backpacks.add_item(p, kind, it);
                            }
                        }
                    },
                    None => {},
                }
            },
            _ => {},
        }
        self.phase = phase;
        action
    }

    /// Where monster `i` wants to go this turn: following if it sees the
    /// player, idle otherwise.
    pub open spec fn mood_after(&self, i: int) -> AiState {
        if self.viewsheds@[i].visible_tiles@.contains(self.positions@[self.player as int]) {
            AiState::Follow
        } else {
            AiState::Idle
        }
    }

    /// Monster `i` follows the player and stands next to it.
    pub open spec fn strikes(&self, i: int) -> bool {
        self.is_monster(i) && self.mood_after(i) == AiState::Follow && adjacent(
            self.positions@[i],
            self.positions@[self.player as int],
        )
    }

    /// Monster `i` follows the player from afar.
    pub open spec fn walks(&self, i: int) -> bool {
        self.is_monster(i) && self.mood_after(i) == AiState::Follow && !adjacent(
            self.positions@[i],
            self.positions@[self.player as int],
        )
    }

    /// The attacks of the striking monsters among the first `n`, in order.
    pub open spec fn attacks_upto(&self, n: int) -> Seq<WantsToMelee>
        decreases n,
    {
        if n <= 0 {
            Seq::empty()
        } else {
            push_if(self.attacks_upto(n - 1), self.strikes(n - 1), WantsToMelee { attacker: (n - 1) as usize, target: self.player })
        }
    }

    /// Runs every living monster once: its mood follows whether it sees the
    /// player, and a following monster attacks the player next to it, or
    /// takes the first step of `paths[i]`, the path searched for it toward
    /// the player. The monsters act in the order of their ids.
    pub fn monster_turn(&mut self, paths: &Vec<NavigationPath>)
        requires
            old(self).wf(),
        ensures
            final(self).wf(),
            final(self).stats == old(self).stats,
            final(self).map == old(self).map,
            final(self).kinds == old(self).kinds,
            final(self).alive == old(self).alive,
            final(self).player == old(self).player,
            final(self).melees@ == old(self).melees@ + old(self).attacks_upto(old(self).actors()),
            forall|i: int|
                0 <= i < old(self).actors() ==> #[trigger] final(self).ai@[i] == if old(self).is_monster(i) {
                    old(self).mood_after(i)
                } else {
                    old(self).ai@[i]
                },
            forall|i: int|
                0 <= i < old(self).actors() ==> #[trigger] final(self).positions@[i] == if old(self).walks(i) && step_for(
                    &old(self).map,
                    paths@,
                    i,
                ) is Some {
                    cell_at(&old(self).map, step_for(&old(self).map, paths@, i)->Some_0)
                } else {
                    old(self).positions@[i]
                },
            forall|i: int|
                0 <= i < old(self).actors() ==> (#[trigger] final(self).viewsheds@[i]).dirty == (old(self).viewsheds@[i].dirty
                    || (old(self).walks(i) && step_for(&old(self).map, paths@, i) is Some)),
            forall|i: int|
                0 <= i < old(self).actors() ==> (#[trigger] final(self).viewsheds@[i]).visible_tiles@ == old(
                    self,
                ).viewsheds@[i].visible_tiles@,
    {
        let empty = NavigationPath { success: false, steps: Vec::new() };
        let n = self.kinds.len();
        let p = self.player;
        let mut i: usize = 0;
        while i < n
            invariant
                self.wf(),
                n == self.actors(),
                n == old(self).actors(),
                p == self.player,
                p == old(self).player,
                self.stats == old(self).stats,
                self.map == old(self).map,
                self.kinds == old(self).kinds,
                self.alive == old(self).alive,
                !empty.success,
                i <= n,
                self.positions@[p as int] == old(self).positions@[p as int],
                self.melees@ == old(self).melees@ + old(self).attacks_upto(i as int),
                forall|j: int| i <= j < n ==> #[trigger] self.ai@[j] == old(self).ai@[j],
                forall|j: int| i <= j < n ==> #[trigger] self.positions@[j] == old(self).positions@[j],
                forall|j: int| i <= j < n ==> #[trigger] self.viewsheds@[j] == old(self).viewsheds@[j],
                forall|j: int|
                    0 <= j < i ==> #[trigger] self.ai@[j] == if old(self).is_monster(j) {
                        old(self).mood_after(j)
                    } else {
                        old(self).ai@[j]
                    },
                forall|j: int|
                    0 <= j < i ==> #[trigger] self.positions@[j] == if old(self).walks(j) && step_for(
                        &old(self).map,
                        paths@,
                        j,
                    ) is Some {
                        cell_at(&old(self).map, step_for(&old(self).map, paths@, j)->Some_0)
                    } else {
                        old(self).positions@[j]
                    },
                forall|j: int|
                    0 <= j < i ==> (#[trigger] self.viewsheds@[j]).dirty == (old(self).viewsheds@[j].dirty || (old(
                        self,
                    ).walks(j) && step_for(&old(self).map, paths@, j) is Some)),
                forall|j: int|
                    0 <= j < n ==> (#[trigger] self.viewsheds@[j]).visible_tiles@ == old(self).viewsheds@[j].visible_tiles@,
            decreases n - i,
        {
            let ghost before = *self;
            let ghost ii = i as int;
            let is_enemy = match self.kinds[i] {
                ActorKind::Enemy { .. } => true,
                ActorKind::Player => false,
            };
            if self.alive[i] && i != p && is_enemy {
                let target = self.positions[p];
                let state = next_ai_state(&self.viewsheds[i], self.ai[i], target);
                self.ai.set(i, state);
                let path = if i < paths.len() { &paths[i] } else { &empty };
                assert(next_step(&self.map, path) == step_for(&old(self).map, paths@, ii));
                let mut pos = self.positions[i];
                let attack = enemy_ai(&self.map, i, state, &mut pos, &mut self.viewsheds[i], p, target, path);
                self.positions.set(i, pos);
                proof {
                    if old(self).walks(ii) && step_for(&old(self).map, paths@, ii) is Some {
                        lemma_cell_at(&old(self).map, pos);
                    }
                    assert forall|j: int| 0 <= j < self.actors() implies self.map.in_bounds(
                        (#[trigger] self.positions@[j]).x as int,
                        self.positions@[j].y as int,
                    ) by {
                        if j != ii {
                            assert(self.positions@[j] == before.positions@[j]);
                        } else {
                            assert(before.map.in_bounds(before.positions@[j].x as int, before.positions@[j].y as int));
                        }
                    }
                }
                match attack {
                    Some(m) => {
                        self.melees.push(m);
                        proof {
                            assert forall|k: int| 0 <= k < self.melees@.len() implies (#[trigger] self.melees@[k]).attacker
                                < self.stats@.len() && self.melees@[k].target < self.stats@.len() by {
                                if k < before.melees@.len() {
                                    assert(self.melees@[k] == before.melees@[k]);
                                }
                            }
                        }
                    },
                    None => {},
                }
                proof {
                    let prev = old(self).melees@ + old(self).attacks_upto(ii);
                    if old(self).strikes(ii) {
                        assert(old(self).melees@ + old(self).attacks_upto(ii).push(WantsToMelee { attacker: i, target: p }) =~= prev.push(
                            WantsToMelee { attacker: i, target: p },
                        ));
                    }
                }
            }
            i = i + 1;
        }
    }

    /// The player uses `item`, which must be the most recent item of its
    /// kind in the player's backpack: the one that a removal destroys, so a
    /// destroyed item is never used again. Other items, unknown ids and
    /// items with a negative amount are refused with `None`.
    pub fn use_player_item(&mut self, item: usize) -> (r: Option<ItemUseOutcome>)
        requires
            old(self).wf(),
        ensures
            final(self).wf(),
            final(self).map == old(self).map,
            final(self).positions == old(self).positions,
            r is None <==> !old(self).usable(item as int),
            final(self).items == old(self).items,
            final(self).on_ground == old(self).on_ground,
            r is None ==> final(self).stats == old(self).stats && final(self).pending == old(self).pending
                && final(self).backpacks == old(self).backpacks,
            final(self).phase == if old(self).phase == TurnPhase::AwaitingInput {
                phase_after(TurnPhase::AwaitingInput, r is Some, false)
            } else {
                old(self).phase
            },
            r matches Some(o) ==> ({
                let it = old(self).items@[item as int];
                let p = old(self).player;
                let pos = old(self).positions@[p as int];
                let hs = old(self).hostiles_upto(old(self).actors());
                let targets = affected(&old(self).map, it, p, pos, hs);
                &&& o.applied == !wasted(it, pos, hs)
                &&& o.removal == if wasted(it, pos, hs) || it.consumable {
                    Some(ItemRemoveEvent { item, owner: p, kind: it.kind })
                } else {
                    None
                }
                &&& final(self).stats@ == if wasted(it, pos, hs) {
                    old(self).stats@
                } else {
                    match it.healing {
                        Some(h) => heal_all(old(self).stats@, targets, h.heal_amount as int),
                        None => old(self).stats@,
                    }
                }
                &&& forall|o2: usize, t: ItemType| #[trigger] final(self).backpacks.items_of(o2, t) == if o.removal is Some
                    && o2 == p && t == it.kind && old(self).backpacks.items_of(o2, t).len() > 0 {
                    old(self).backpacks.items_of(o2, t).drop_last()
                } else {
                    old(self).backpacks.items_of(o2, t)
                }
            }),
    {
        if item >= self.items.len() || self.on_ground[item] {
            return None;
        }
        let it = self.items[item];
        match self.backpacks.latest(self.player, it.kind) {
            Some(last) => if last != item {
                return None;
            },
            None => {
                return None;
            },
        }
        match it.healing {
            Some(h) => if h.heal_amount < 0 {
                return None;
            },
            None => {},
        }
        match it.damage {
            Some(d) => if d.damage < 0 {
                return None;
            },
            None => {},
        }
        let hostiles = self.hostiles();
        let p = self.player;
        let pos = self.positions[p];
        let ghost before = *self;
        let outcome = use_item(&it, item, p, pos, &hostiles, &self.map, &mut self.stats, &mut self.pending);
        proof {
            assert forall|i: int| 0 <= i < self.actors() implies all_nonnegative(pending_amounts(#[trigger] self.pending@[i])) by {
                let a = pending_amounts(before.pending@[i]);
                if !crate::items::wasted(it, pos, hostiles@) {
                    match it.damage {
                        Some(d) => {
                            let b = crate::items::item_hits(crate::items::affected(&before.map, it, p, pos, hostiles@), i, d.damage as i64);
                            lemma_hits_nonnegative(crate::items::affected(&before.map, it, p, pos, hostiles@), i, d.damage as i64);
                            assert forall|k: int| 0 <= k < (a + b).len() implies #[trigger] (a + b)[k] >= 0 by {
                                if k >= a.len() {
                                    assert((a + b)[k] == b[k - a.len()]);
                                }
                            }
                        },
                        None => {
                            assert(a + Seq::<i64>::empty() =~= a);
                        },
                    }
                }
            }
            lemma_heal_keeps_len(before.stats@, crate::items::affected(&before.map, it, p, pos, hostiles@), 0);
            if !crate::items::wasted(it, pos, hostiles@) {
                match it.healing {
                    Some(h) => lemma_heal_keeps_len(before.stats@, crate::items::affected(&before.map, it, p, pos, hostiles@), h.heal_amount as int),
                    None => {},
                }
            }
        }
        match outcome.removal {
            Some(ev) => self.backpacks.remove_item(ev.owner, ev.kind),
            None => {},
        }
        if self.phase == TurnPhase::AwaitingInput {
            self.phase = next_phase(self.phase, true, false);
        }
        Some(outcome)
    }

    /// Resolves this tick's combat: melee, then damage, then the death
    /// sweep. Returns whether the player is out of hit points.
    pub fn resolve(&mut self) -> (player_dead: bool)
        requires
            old(self).wf(),
        ensures
            final(self).wf(),
            final(self).map == old(self).map,
            final(self).positions == old(self).positions,
            final(self).actors() == old(self).actors(),
            forall|t: int| 0 <= t < final(self).actors() ==> #[trigger] final(self).pending@[t] is None,
            forall|t: int|
                0 <= t < final(self).actors() ==> #[trigger] final(self).stats@[t] == (CombatStats {
                    hp: hp_after(
                        old(self).stats@[t].hp as int,
                        pending_amounts(old(self).pending@[t]) + damages_to(old(self).stats@, old(self).melees@, t),
                    ) as i32,
                    ..old(self).stats@[t]
                }),
            forall|i: int|
                0 <= i < final(self).actors() ==> #[trigger] final(self).alive@[i] == (old(self).alive@[i] && !swept(
                    final(self).stats@,
                    old(self).alive@,
                    old(self).player,
                    i,
                )),
            player_dead == (old(self).alive@[old(self).player as int] && final(self).stats@[old(self).player as int].hp <= 0),
    {
        let r = resolve_combat(&mut self.melees, &mut self.stats, &mut self.pending, &mut self.alive, self.player, &mut self.log);
        proof {
            assert forall|i: int| 0 <= i < self.actors() implies all_nonnegative(pending_amounts(#[trigger] self.pending@[i])) by {
                assert(self.pending@[i] is None);
            }
        }
        r
    }

    /// Moves the turn cycle on.
    pub fn advance_phase(&mut self, input_accepted: bool, player_dead: bool)
        requires
            old(self).wf(),
        ensures
            final(self).wf(),
            final(self).phase == crate::state::phase_after(old(self).phase, input_accepted, player_dead),
    {
        self.phase = next_phase(self.phase, input_accepted, player_dead);
    }
}

/// The number that spawning gave a monster; the player has none.
pub open spec fn enemy_number(k: ActorKind) -> int {
    match k {
        ActorKind::Enemy { index, .. } => index as int,
        ActorKind::Player => -1,
    }
}

/// A monster numbered `n` is the `n % 4`-th spawn of room `n / 4 + 1`
/// (a room spawns fewer than `ROOM_SPAWN_MAX` monsters), and stands inside
/// that room.
pub open spec fn spawned_in_room(map: &GameMap, k: ActorKind, p: Position) -> bool {
    let n = enemy_number(k);
    &&& k is Enemy
    &&& 0 <= n
    &&& n % 4 < 3
    &&& n / 4 + 1 < map.rooms@.len()
    &&& GameMap::in_interior(map.rooms@[n / 4 + 1], p.x as int, p.y as int)
}

/// `p` lies inside one of the rooms after the first.
pub open spec fn in_some_room(map: &GameMap, p: Position) -> bool {
    exists|r: int| 1 <= r < map.rooms@.len() && GameMap::in_interior(#[trigger] map.rooms@[r], p.x as int, p.y as int)
}

/// A point inside one of two rooms that do not overlap is not inside the
/// other.
proof fn lemma_interiors_apart(a: Rect, b: Rect, p: Position)
    requires
        !a.overlaps(b),
        GameMap::in_interior(a, p.x as int, p.y as int),
    ensures
        !GameMap::in_interior(b, p.x as int, p.y as int),
{
}

/// The path step that monster `i` takes, if its path gives one.
pub open spec fn step_for(map: &GameMap, paths: Seq<NavigationPath>, i: int) -> Option<int> {
    if 0 <= i < paths.len() {
        next_step(map, &paths[i])
    } else {
        None
    }
}

/// The position of cell index `c`.
pub open spec fn cell_at(map: &GameMap, c: int) -> Position {
    Position { x: (c % (map.width as int)) as i32, y: (c / (map.width as int)) as i32 }
}

/// A position on the map is the cell its index names.
proof fn lemma_cell_at(map: &GameMap, p: Position)
    requires
        map.wf(),
        map.in_bounds(p.x as int, p.y as int),
    ensures
        cell_at(map, map.idx(p.x as int, p.y as int)) == p,
{
    let w = map.width as int;
    let c = map.idx(p.x as int, p.y as int);
    crate::map::lemma_idx_in_range(w, map.height as int, p.x as int, p.y as int);
    crate::map::lemma_idx_split(w, map.height as int, c);
    crate::map::lemma_idx_injective(w, c % w, c / w, p.x as int, p.y as int);
}

/// An item that the ground list places somewhere lies on the map.
proof fn lemma_first_item_on_ground(w: &World, g: Seq<GroundItem>, at: Position)
    requires
        g == w.ground_upto(w.items@.len() as int),
        w.on_ground@.len() == w.items@.len(),
    ensures
        first_item_at(g, at) matches Some(it) ==> it < w.items@.len() && w.on_ground@[it as int],
{
    lemma_ground_upto(w, w.items@.len() as int);
    lemma_first_item_in(g, at);
}

proof fn lemma_ground_upto(w: &World, n: int)
    requires
        0 <= n <= w.on_ground@.len(),
    ensures
        forall|k: int| 0 <= k < w.ground_upto(n).len() ==> (#[trigger] w.ground_upto(n)[k]).item < n && w.on_ground@[w.ground_upto(n)[k].item as int],
    decreases n,
{
    if n > 0 {
        lemma_ground_upto(w, n - 1);
        let prev = w.ground_upto(n - 1);
        assert forall|k: int| 0 <= k < w.ground_upto(n).len() implies (#[trigger] w.ground_upto(n)[k]).item < n && w.on_ground@[w.ground_upto(n)[k].item as int] by {
            if k < prev.len() {
                assert(w.ground_upto(n)[k] == prev[k]);
            } else {
                assert(w.ground_upto(n)[k] == GroundItem { item: (n - 1) as usize, position: w.item_positions@[n - 1] });
                assert(w.on_ground.len() == w.on_ground@.len());
                assert(((n - 1) as usize) as int == n - 1);
            }
        }
    }
}

proof fn lemma_first_item_in(g: Seq<GroundItem>, at: Position)
    ensures
        first_item_at(g, at) matches Some(it) ==> exists|k: int| 0 <= k < g.len() && g[k].item == it,
    decreases g.len(),
{
    if g.len() > 0 && g[0].position != at {
        lemma_first_item_in(g.drop_first(), at);
        if first_item_at(g.drop_first(), at) is Some {
            let k = choose|k: int| 0 <= k < g.drop_first().len() && g.drop_first()[k].item == first_item_at(g, at)->Some_0;
            assert(g[k + 1] == g.drop_first()[k]);
        }
    }
}

proof fn lemma_hits_nonnegative(targets: Seq<usize>, t: int, d: i64)
    requires
        d >= 0,
    ensures
        all_nonnegative(crate::items::item_hits(targets, t, d)),
    decreases targets.len(),
{
    if targets.len() > 0 {
        lemma_hits_nonnegative(targets.drop_last(), t, d);
    }
}

proof fn lemma_heal_keeps_len(stats: Seq<CombatStats>, targets: Seq<usize>, heal: int)
    ensures
        crate::items::heal_all(stats, targets, heal).len() == stats.len(),
    decreases targets.len(),
{
    if targets.len() > 0 {
        lemma_heal_keeps_len(stats, targets.drop_last(), heal);
    }
}

} // verus!
