//! Item pickup, target resolution for used items, and their effects.

use vstd::prelude::*;
use crate::backpack::{ItemPickUpEvent, ItemRemoveEvent, ItemType};
use crate::combat::{push_damage, pending_amounts, CombatStats, GameLog, LogEntry, SufferDamage};
use crate::map::{push_if, GameMap, Position};

verus! {

/// How a computed target set is handed to the effect.
#[derive(PartialEq, Eq, Structural, Clone, Copy, Debug)]
pub enum ItemTargetComputedType {
    /// The positions of the hostiles found.
    Area,
    /// The hostiles found themselves.
    Entity,
}

/// Whom an item's effect reaches.
#[derive(PartialEq, Eq, Structural, Clone, Copy, Debug)]
pub enum ItemTargetType {
    /// The hostiles within the item's range of its reference point.
    Computed(ItemTargetComputedType),
    /// Only the user.
    Owner,
}

#[derive(PartialEq, Eq, Structural, Clone, Copy, Debug)]
pub struct Ranged {
    pub range: i32,
}

#[derive(PartialEq, Eq, Structural, Clone, Copy, Debug)]
pub struct ProvidesHealing {
    pub heal_amount: i32,
}

#[derive(PartialEq, Eq, Structural, Clone, Copy, Debug)]
pub struct InflictsDamage {
    pub damage: i32,
}

/// An item's properties. `use_position`, when set, replaces the user's
/// position as the point that the range is measured from.
#[derive(PartialEq, Eq, Structural, Clone, Copy, Debug)]
pub struct Item {
    pub kind: ItemType,
    pub target: ItemTargetType,
    pub consumable: bool,
    pub healing: Option<ProvidesHealing>,
    pub damage: Option<InflictsDamage>,
    pub ranged: Option<Ranged>,
    pub use_position: Option<Position>,
}

/// A hostile actor and where it stands.
#[derive(PartialEq, Eq, Structural, Clone, Copy, Debug)]
pub struct Hostile {
    pub entity: usize,
    pub position: Position,
}

/// The outcome of target resolution.
#[derive(Debug)]
pub enum ItemTargets {
    Entities(Vec<usize>),
    Positions(Vec<Position>),
    /// Nothing was in range: the item is destroyed without effect, and
    /// the backpack index must hear of its removal.
    Wasted(ItemRemoveEvent),
}

/// An actor asks to pick up an item.
#[derive(PartialEq, Eq, Structural, Clone, Copy, Debug)]
pub struct WantsToPickupItem {
    pub collected_by: usize,
    pub item: usize,
}

/// The interface asks for `owner` to use `item`.
#[derive(PartialEq, Eq, Structural, Clone, Copy, Debug)]
pub struct ItemApplyEvent {
    pub item: usize,
    pub item_type: ItemType,
    pub owner: usize,
}

/// A pending use of `item` by `user`.
#[derive(PartialEq, Eq, Structural, Clone, Copy, Debug)]
pub struct WantsToUseItem {
    pub user: usize,
    pub item: usize,
}

/// What using an item did.
#[derive(PartialEq, Eq, Structural, Clone, Copy, Debug)]
pub struct ItemUseOutcome {
    /// The effect reached its targets.
    pub applied: bool,
    /// The item was destroyed; the backpack index must hear of it.
    pub removal: Option<ItemRemoveEvent>,
}

pub open spec fn abs(v: int) -> int {
    if v < 0 {
        -v
    } else {
        v
    }
}

/// `p` lies within `range` of `origin` along both axes.
pub open spec fn in_reach(origin: Position, p: Position, range: int) -> bool {
    abs(p.x - origin.x) <= range && abs(p.y - origin.y) <= range
}

/// The hostiles of `hs` within `range` of `origin`, in order.
pub open spec fn reachable(hs: Seq<Hostile>, origin: Position, range: int) -> Seq<Hostile>
    decreases hs.len(),
{
    if hs.len() == 0 {
        Seq::empty()
    } else {
        push_if(reachable(hs.drop_last(), origin, range), in_reach(origin, hs.last().position, range), hs.last())
    }
}

pub open spec fn entities_of(hs: Seq<Hostile>) -> Seq<usize> {
    hs.map_values(|h: Hostile| h.entity)
}

pub open spec fn positions_of(hs: Seq<Hostile>) -> Seq<Position> {
    hs.map_values(|h: Hostile| h.position)
}

pub open spec fn origin_of(item: Item, user_pos: Position) -> Position {
    match item.use_position {
        Some(p) => p,
        None => user_pos,
    }
}

pub open spec fn range_of(item: Item) -> int {
    match item.ranged {
        Some(r) => r.range as int,
        None => 0,
    }
}

/// The hostiles that a computed item of `item` finds.
pub open spec fn found(item: Item, user_pos: Position, hs: Seq<Hostile>) -> Seq<Hostile> {
    reachable(hs, origin_of(item, user_pos), range_of(item))
}

/// A computed item that finds nobody is wasted.
pub open spec fn wasted(item: Item, user_pos: Position, hs: Seq<Hostile>) -> bool {
    item.target is Computed && found(item, user_pos, hs).len() == 0
}

pub open spec fn entity_targets(r: ItemTargets) -> Seq<usize> {
    match r {
        ItemTargets::Entities(v) => v@,
        _ => Seq::empty(),
    }
}

pub open spec fn position_targets(r: ItemTargets) -> Seq<Position> {
    match r {
        ItemTargets::Positions(v) => v@,
        _ => Seq::empty(),
    }
}

/// The hostiles within `range` of `origin` along both axes.
pub fn get_all_enemy(hostiles: &Vec<Hostile>, origin: Position, range: i32) -> (r: Vec<Hostile>)
    ensures
        r@ == reachable(hostiles@, origin, range as int),
{
    let mut r: Vec<Hostile> = Vec::new();
    let mut k: usize = 0;
    while k < hostiles.len()
        invariant
            k <= hostiles.len(),
            r@ == reachable(hostiles@.subrange(0, k as int), origin, range as int),
        decreases hostiles.len() - k,
    {
        let h = hostiles[k];
        assert(hostiles@.subrange(0, k as int + 1).drop_last() =~= hostiles@.subrange(0, k as int));
        let dx: i64 = h.position.x as i64 - origin.x as i64;
        let dy: i64 = h.position.y as i64 - origin.y as i64;
        let ax: i64 = if dx < 0 { -dx } else { dx };
        let ay: i64 = if dy < 0 { -dy } else { dy };
        if ax <= range as i64 && ay <= range as i64 {
            r.push(h);
        }
        k = k + 1;
    }
    assert(hostiles@.subrange(0, hostiles.len() as int) =~= hostiles@);
    r
}

/// Resolves whom `user`'s use of `item` reaches: the user alone, or the
/// hostiles within the item's range of its reference point, as entities or
/// as their positions. A computed item that finds nobody is wasted: it is
/// destroyed, and its removal comes back.
pub fn compute_item_apply_position_or_entity(
    item: &Item,
    item_id: usize,
    user: usize,
    user_pos: Position,
    hostiles: &Vec<Hostile>,
) -> (r: ItemTargets)
    ensures
        item.target is Owner ==> r is Entities && entity_targets(r) == seq![user],
        wasted(*item, user_pos, hostiles@) ==> r == ItemTargets::Wasted(
            ItemRemoveEvent { item: item_id, owner: user, kind: item.kind },
        ),
        !wasted(*item, user_pos, hostiles@) && item.target == ItemTargetType::Computed(ItemTargetComputedType::Entity)
            ==> r is Entities && entity_targets(r) == entities_of(found(*item, user_pos, hostiles@)),
        !wasted(*item, user_pos, hostiles@) && item.target == ItemTargetType::Computed(ItemTargetComputedType::Area)
            ==> r is Positions && position_targets(r) == positions_of(found(*item, user_pos, hostiles@)),
{
    match item.target {
        ItemTargetType::Owner => {
            let mut v: Vec<usize> = Vec::new();
            v.push(user);
            assert(v@ =~= seq![user]);
            ItemTargets::Entities(v)
        },
        ItemTargetType::Computed(computed) => {
            let origin = match item.use_position {
                Some(p) => p,
                None => user_pos,
            };
            let range: i32 = match item.ranged {
                Some(r) => r.range,
                None => 0,
            };
            let enemies = get_all_enemy(hostiles, origin, range);
            if enemies.len() == 0 {
                return ItemTargets::Wasted(ItemRemoveEvent { item: item_id, owner: user, kind: item.kind });
            }
            match computed {
                ItemTargetComputedType::Entity => {
                    let mut v: Vec<usize> = Vec::new();
                    let mut k: usize = 0;
                    while k < enemies.len()
                        invariant
                            k <= enemies.len(),
                            v@ == entities_of(enemies@.subrange(0, k as int)),
                        decreases enemies.len() - k,
                    {
                        v.push(enemies[k].entity);
                        assert(entities_of(enemies@.subrange(0, k as int + 1)) =~= entities_of(enemies@.subrange(0, k as int)).push(enemies@[k as int].entity));
                        k = k + 1;
                    }
                    assert(enemies@.subrange(0, enemies.len() as int) =~= enemies@);
                    ItemTargets::Entities(v)
                },
                ItemTargetComputedType::Area => {
                    let mut v: Vec<Position> = Vec::new();
                    let mut k: usize = 0;
                    while k < enemies.len()
                        invariant
                            k <= enemies.len(),
                            v@ == positions_of(enemies@.subrange(0, k as int)),
                        decreases enemies.len() - k,
                    {
                        v.push(enemies[k].position);
                        assert(positions_of(enemies@.subrange(0, k as int + 1)) =~= positions_of(enemies@.subrange(0, k as int)).push(enemies@[k as int].position));
                        k = k + 1;
                    }
                    assert(enemies@.subrange(0, enemies.len() as int) =~= enemies@);
                    ItemTargets::Positions(v)
                },
            }
        },
    }
}

/// Healing adds `heal` hit points, never past the maximum.
pub open spec fn healed(s: CombatStats, heal: int) -> CombatStats {
    CombatStats {
        hp: if s.hp + heal < s.max_hp {
            (s.hp + heal) as i32
        } else {
            s.max_hp
        },
        ..s
    }
}

/// `stats` after healing each listed target in turn; ids past the end are
/// passed over.
pub open spec fn heal_all(stats: Seq<CombatStats>, targets: Seq<usize>, heal: int) -> Seq<CombatStats>
    decreases targets.len(),
{
    if targets.len() == 0 {
        stats
    } else {
        let prev = heal_all(stats, targets.drop_last(), heal);
        let t = targets.last();
        if t < prev.len() {
            prev.update(t as int, healed(prev[t as int], heal))
        } else {
            prev
        }
    }
}

/// One damage instance of `d` for each time `t` is listed in `targets`.
pub open spec fn item_hits(targets: Seq<usize>, t: int, d: i64) -> Seq<i64>
    decreases targets.len(),
{
    if targets.len() == 0 {
        Seq::empty()
    } else {
        push_if(item_hits(targets.drop_last(), t, d), targets.last() == t, d)
    }
}

/// The occupants of the cells of `ps` that lie on the map, cell by cell.
pub open spec fn occupants_of(map: &GameMap, ps: Seq<Position>) -> Seq<usize>
    decreases ps.len(),
{
    if ps.len() == 0 {
        Seq::empty()
    } else {
        let p = ps.last();
        let prev = occupants_of(map, ps.drop_last());
        if map.in_bounds(p.x as int, p.y as int) {
            prev + map.tile_content@[map.idx(p.x as int, p.y as int)]@
        } else {
            prev
        }
    }
}

/// The actors that using `item` affects, once its targets are resolved.
pub open spec fn affected(map: &GameMap, item: Item, user: usize, user_pos: Position, hs: Seq<Hostile>) -> Seq<usize> {
    match item.target {
        ItemTargetType::Owner => seq![user],
        ItemTargetType::Computed(ItemTargetComputedType::Entity) => entities_of(found(item, user_pos, hs)),
        ItemTargetType::Computed(ItemTargetComputedType::Area) => occupants_of(map, positions_of(found(item, user_pos, hs))),
    }
}

/// Uses healing item `item` (id `item_id`) of `owner` on the listed
/// targets in turn, each healed up to its maximum; ids past the end are
/// passed over. A consumable item is destroyed, and its removal comes back.
pub fn item_use_healing(
    stats: &mut Vec<CombatStats>,
    targets: &Vec<usize>,
    item: &Item,
    item_id: usize,
    owner: usize,
) -> (removal: Option<ItemRemoveEvent>)
    requires
        item.healing matches Some(h) && h.heal_amount >= 0,
    ensures
        final(stats)@ == heal_all(old(stats)@, targets@, item.healing->Some_0.heal_amount as int),
        removal == if item.consumable {
            Some(ItemRemoveEvent { item: item_id, owner, kind: item.kind })
        } else {
            None
        },
{
    let heal_amount = match item.healing {
        Some(h) => h.heal_amount,
        None => 0,
    };
    let mut k: usize = 0;
    while k < targets.len()
        invariant
            k <= targets.len(),
            heal_amount >= 0,
            stats@ == heal_all(old(stats)@, targets@.subrange(0, k as int), heal_amount as int),
        decreases targets.len() - k,
    {
        let t = targets[k];
        assert(targets@.subrange(0, k as int + 1).drop_last() =~= targets@.subrange(0, k as int));
        if t < stats.len() {
            let s = stats[t];
            let sum: i64 = s.hp as i64 + heal_amount as i64;
            let hp: i32 = if sum < s.max_hp as i64 { sum as i32 } else { s.max_hp };
            stats[t] = CombatStats { hp, ..s };
        }
        k = k + 1;
    }
    assert(targets@.subrange(0, targets.len() as int) =~= targets@);
    if item.consumable {
        Some(ItemRemoveEvent { item: item_id, owner, kind: item.kind })
    } else {
        None
    }
}

/// Adds one damage instance of `damage` to each listed target's pending
/// damage; ids past the end are passed over.
pub fn item_use_damage(pending: &mut Vec<Option<SufferDamage>>, targets: &Vec<usize>, damage: i64)
    ensures
        final(pending).len() == old(pending).len(),
        forall|t: int|
            0 <= t < final(pending).len() ==> pending_amounts(#[trigger] final(pending)@[t]) == pending_amounts(
                old(pending)@[t],
            ) + item_hits(targets@, t, damage),
        forall|t: int|
            0 <= t < final(pending).len() ==> ((#[trigger] final(pending)@[t] is Some) <==> (old(pending)@[t] is Some
                || item_hits(targets@, t, damage).len() > 0)),
{
    let mut k: usize = 0;
    while k < targets.len()
        invariant
            k <= targets.len(),
            pending.len() == old(pending).len(),
            forall|t: int|
                0 <= t < pending.len() ==> pending_amounts(#[trigger] pending@[t]) == pending_amounts(old(pending)@[t])
                    + item_hits(targets@.subrange(0, k as int), t, damage),
            forall|t: int|
                0 <= t < pending.len() ==> ((#[trigger] pending@[t] is Some) <==> (old(pending)@[t] is Some
                    || item_hits(targets@.subrange(0, k as int), t, damage).len() > 0)),
        decreases targets.len() - k,
    {
        let t = targets[k];
        let ghost pre = targets@.subrange(0, k as int);
        assert(targets@.subrange(0, k as int + 1).drop_last() =~= pre);
        assert(targets@.subrange(0, k as int + 1).last() == t);
        if t < pending.len() {
            push_damage(pending, t, damage);
        }
        proof {
            assert forall|u: int| 0 <= u < pending.len() implies pending_amounts(#[trigger] pending@[u]) == pending_amounts(
                old(pending)@[u],
            ) + item_hits(targets@.subrange(0, k as int + 1), u, damage) by {
                let prev = pending_amounts(old(pending)@[u]);
                let hs = item_hits(pre, u, damage);
                if t == u {
                    assert(prev + hs.push(damage) =~= (prev + hs).push(damage));
                }
            }
        }
        k = k + 1;
    }
    assert(targets@.subrange(0, targets.len() as int) =~= targets@);
}

/// The occupants of the on-map cells among `positions`, cell by cell.
pub fn occupants_at_positions(map: &GameMap, positions: &Vec<Position>) -> (r: Vec<usize>)
    requires
        map.wf(),
    ensures
        r@ == occupants_of(map, positions@),
{
    let mut r: Vec<usize> = Vec::new();
    let mut k: usize = 0;
    while k < positions.len()
        invariant
            map.wf(),
            k <= positions.len(),
            r@ == occupants_of(map, positions@.subrange(0, k as int)),
        decreases positions.len() - k,
    {
        let p = positions[k];
        assert(positions@.subrange(0, k as int + 1).drop_last() =~= positions@.subrange(0, k as int));
        if p.x >= 0 && p.x < map.width && p.y >= 0 && p.y < map.height {
            let idx = map.xy_idx(p.x, p.y);
            let mut j: usize = 0;
            let ghost base = r@;
            while j < map.tile_content[idx].len()
                invariant
                    map.wf(),
                    idx < map.cells(),
                    j <= map.tile_content@[idx as int]@.len(),
                    r@ == base + map.tile_content@[idx as int]@.subrange(0, j as int),
                decreases map.tile_content@[idx as int]@.len() - j,
            {
                r.push(map.tile_content[idx][j]);
                assert(base + map.tile_content@[idx as int]@.subrange(0, j as int + 1) =~= (base
                    + map.tile_content@[idx as int]@.subrange(0, j as int)).push(map.tile_content@[idx as int]@[j as int]));
                j = j + 1;
            }
            assert(map.tile_content@[idx as int]@.subrange(0, j as int) =~= map.tile_content@[idx as int]@);
        }
        k = k + 1;
    }
    assert(positions@.subrange(0, positions.len() as int) =~= positions@);
    r
}

/// Uses `item` (id `item_id`) on behalf of `user`. A computed item that
/// finds nobody is destroyed without effect. Otherwise its healing and its
/// damage reach every affected actor, and a consumable item is destroyed.
/// A destroyed item comes back as a removal for the backpack index.
pub fn use_item(
    item: &Item,
    item_id: usize,
    user: usize,
    user_pos: Position,
    hostiles: &Vec<Hostile>,
    map: &GameMap,
    stats: &mut Vec<CombatStats>,
    pending: &mut Vec<Option<SufferDamage>>,
) -> (r: ItemUseOutcome)
    requires
        map.wf(),
        item.healing matches Some(h) ==> h.heal_amount >= 0,
        item.damage matches Some(d) ==> d.damage >= 0,
    ensures
        ({
            let removal = ItemRemoveEvent { item: item_id, owner: user, kind: item.kind };
            let targets = affected(map, *item, user, user_pos, hostiles@);
            &&& wasted(*item, user_pos, hostiles@) ==> {
                &&& !r.applied
                &&& r.removal == Some(removal)
                &&& final(stats)@ == old(stats)@
                &&& final(pending)@ == old(pending)@
            }
            &&& !wasted(*item, user_pos, hostiles@) ==> {
                &&& r.applied
                &&& r.removal == if item.consumable {
                    Some(removal)
                } else {
                    None
                }
                &&& final(stats)@ == match item.healing {
                    Some(h) => heal_all(old(stats)@, targets, h.heal_amount as int),
                    None => old(stats)@,
                }
                &&& final(pending).len() == old(pending).len()
                &&& forall|t: int|
                    0 <= t < final(pending).len() ==> pending_amounts(#[trigger] final(pending)@[t]) == pending_amounts(
                        old(pending)@[t],
                    ) + match item.damage {
                        Some(d) => item_hits(targets, t, d.damage as i64),
                        None => Seq::empty(),
                    }
            }
        }),
{
    let removal = ItemRemoveEvent { item: item_id, owner: user, kind: item.kind };
    let resolved = compute_item_apply_position_or_entity(item, item_id, user, user_pos, hostiles);
    let targets: Vec<usize> = match resolved {
        ItemTargets::Entities(v) => v,
        ItemTargets::Positions(ps) => occupants_at_positions(map, &ps),
        ItemTargets::Wasted(ev) => {
            return ItemUseOutcome { applied: false, removal: Some(ev) };
        },
    };
    assert(targets@ == affected(map, *item, user, user_pos, hostiles@));
    match item.healing {
        Some(_) => {
            let _ = item_use_healing(stats, &targets, item, item_id, user);
        },
        None => {},
    }
    match item.damage {
        Some(d) => item_use_damage(pending, &targets, d.damage as i64),
        None => {
            assert forall|t: int| 0 <= t < pending.len() implies pending_amounts(#[trigger] pending@[t]) == pending_amounts(
                old(pending)@[t],
            ) + Seq::<i64>::empty() by {
                assert(pending_amounts(pending@[t]) + Seq::<i64>::empty() =~= pending_amounts(pending@[t]));
            }
        },
    }
    ItemUseOutcome { applied: true, removal: if item.consumable { Some(removal) } else { None } }
}

/// Whether pickup request `p` succeeds against ground state `g`: the item
/// is known and still lies on the map.
pub open spec fn pickup_ok(g: Seq<bool>, p: WantsToPickupItem) -> bool {
    p.item < g.len() && g[p.item as int]
}

/// The ground state after the requests of `ps`, in order.
pub open spec fn ground_after(g: Seq<bool>, ps: Seq<WantsToPickupItem>) -> Seq<bool>
    decreases ps.len(),
{
    if ps.len() == 0 {
        g
    } else {
        let prev = ground_after(g, ps.drop_last());
        if pickup_ok(prev, ps.last()) {
            prev.update(ps.last().item as int, false)
        } else {
            prev
        }
    }
}

/// The pickup events that the requests of `ps` raise, in order.
pub open spec fn pickup_events(g: Seq<bool>, kinds: Seq<ItemType>, ps: Seq<WantsToPickupItem>) -> Seq<ItemPickUpEvent>
    decreases ps.len(),
{
    if ps.len() == 0 {
        Seq::empty()
    } else {
        let p = ps.last();
        push_if(
            pickup_events(g, kinds, ps.drop_last()),
            pickup_ok(ground_after(g, ps.drop_last()), p),
            ItemPickUpEvent { owner: p.collected_by, item: p.item, kind: kinds[p.item as int] },
        )
    }
}

/// The log lines that the requests of `ps` produce, in order.
pub open spec fn pickup_log(g: Seq<bool>, ps: Seq<WantsToPickupItem>) -> Seq<LogEntry>
    decreases ps.len(),
{
    if ps.len() == 0 {
        Seq::empty()
    } else {
        let p = ps.last();
        push_if(
            pickup_log(g, ps.drop_last()),
            pickup_ok(ground_after(g, ps.drop_last()), p),
            LogEntry::PickUp { owner: p.collected_by, item: p.item },
        )
    }
}

/// Serves the pickup requests in order. An item that still lies on the map
/// leaves it, the pickup is logged, and an event tells the backpack index
/// of its new owner; a request for an item already taken does nothing.
pub fn item_collect(
    pickups: &Vec<WantsToPickupItem>,
    on_ground: &mut Vec<bool>,
    kinds: &Vec<ItemType>,
    log: &mut GameLog,
) -> (events: Vec<ItemPickUpEvent>)
    requires
        old(on_ground).len() == kinds.len(),
    ensures
        final(on_ground)@ == ground_after(old(on_ground)@, pickups@),
        events@ == pickup_events(old(on_ground)@, kinds@, pickups@),
        final(log).entries@ == old(log).entries@ + pickup_log(old(on_ground)@, pickups@),
{
    let mut events: Vec<ItemPickUpEvent> = Vec::new();
    let mut k: usize = 0;
    while k < pickups.len()
        invariant
            k <= pickups.len(),
            on_ground.len() == kinds.len(),
            on_ground@ == ground_after(old(on_ground)@, pickups@.subrange(0, k as int)),
            events@ == pickup_events(old(on_ground)@, kinds@, pickups@.subrange(0, k as int)),
            log.entries@ == old(log).entries@ + pickup_log(old(on_ground)@, pickups@.subrange(0, k as int)),
        decreases pickups.len() - k,
    {
        let p = pickups[k];
        let ghost pre = pickups@.subrange(0, k as int);
        assert(pickups@.subrange(0, k as int + 1).drop_last() =~= pre);
        assert(pickups@.subrange(0, k as int + 1).last() == p);
        if p.item < on_ground.len() && on_ground[p.item] {
            on_ground[p.item] = false;
            events.push(ItemPickUpEvent { owner: p.collected_by, item: p.item, kind: kinds[p.item] });
            let ghost before = log.entries@;
            log.entries.push(LogEntry::PickUp { owner: p.collected_by, item: p.item });
            assert(old(log).entries@ + pickup_log(old(on_ground)@, pre).push(LogEntry::PickUp { owner: p.collected_by, item: p.item })
                =~= (old(log).entries@ + pickup_log(old(on_ground)@, pre)).push(LogEntry::PickUp { owner: p.collected_by, item: p.item }));
        }
        k = k + 1;
    }
    assert(pickups@.subrange(0, pickups.len() as int) =~= pickups@);
    events
}

/// Turns each request to use an item into a pending use by its owner.
pub fn handle_item_apply_event(events: &Vec<ItemApplyEvent>) -> (r: Vec<WantsToUseItem>)
    ensures
        r@ == events@.map_values(|e: ItemApplyEvent| WantsToUseItem { user: e.owner, item: e.item }),
{
    let mut r: Vec<WantsToUseItem> = Vec::new();
    let mut k: usize = 0;
    while k < events.len()
        invariant
            k <= events.len(),
            r@ == events@.subrange(0, k as int).map_values(|e: ItemApplyEvent| WantsToUseItem { user: e.owner, item: e.item }),
        decreases events.len() - k,
    {
        let e = events[k];
        r.push(WantsToUseItem { user: e.owner, item: e.item });
        assert(events@.subrange(0, k as int + 1).map_values(|e: ItemApplyEvent| WantsToUseItem { user: e.owner, item: e.item })
            =~= events@.subrange(0, k as int).map_values(|e: ItemApplyEvent| WantsToUseItem { user: e.owner, item: e.item }).push(
            WantsToUseItem { user: e.owner, item: e.item },
        ));
        k = k + 1;
    }
    assert(events@.subrange(0, events.len() as int) =~= events@);
    r
}

pub const POTION_HEAL: i32 = 10;

pub const MISSILE_RANGE: i32 = 6;

pub const MISSILE_DAMAGE: i32 = 8;

/// A consumable potion that heals its user.
pub open spec fn potion_spec() -> Item {
    Item {
        kind: ItemType::HealthPotion,
        target: ItemTargetType::Owner,
        consumable: true,
        healing: Some(ProvidesHealing { heal_amount: POTION_HEAL }),
        damage: None,
        ranged: None,
        use_position: None,
    }
}

/// A consumable scroll that strikes the places of the hostiles within its
/// range.
pub open spec fn scroll_spec() -> Item {
    Item {
        kind: ItemType::MagicMissileScroll,
        target: ItemTargetType::Computed(ItemTargetComputedType::Area),
        consumable: true,
        healing: None,
        damage: Some(InflictsDamage { damage: MISSILE_DAMAGE }),
        ranged: Some(Ranged { range: MISSILE_RANGE }),
        use_position: None,
    }
}

pub fn health_potion() -> (r: Item)
    ensures
        r == potion_spec(),
{
    Item {
        kind: ItemType::HealthPotion,
        target: ItemTargetType::Owner,
        consumable: true,
        healing: Some(ProvidesHealing { heal_amount: POTION_HEAL }),
        damage: None,
        ranged: None,
        use_position: None,
    }
}

pub fn magic_missile_scroll() -> (r: Item)
    ensures
        r == scroll_spec(),
{
    Item {
        kind: ItemType::MagicMissileScroll,
        target: ItemTargetType::Computed(ItemTargetComputedType::Area),
        consumable: true,
        healing: None,
        damage: Some(InflictsDamage { damage: MISSILE_DAMAGE }),
        ranged: Some(Ranged { range: MISSILE_RANGE }),
        use_position: None,
    }
}

} // verus!
