use roguelike::backpack::{handle_item_update_event, ItemInBackpacks, ItemPickUpEvent, ItemRemoveEvent, ItemType};
use roguelike::combat::{CombatStats, GameLog, LogEntry, SufferDamage};
use roguelike::items::{
    compute_item_apply_position_or_entity, get_all_enemy, handle_item_apply_event, health_potion, item_collect,
    item_use_healing, magic_missile_scroll, use_item, Hostile, Item, ItemApplyEvent, ItemTargetComputedType,
    ItemTargetType, ItemTargets, Ranged, WantsToPickupItem, WantsToUseItem,
};
use roguelike::map::{map_index, GameMap, Occupant, Position, Rect};

fn slot_counts_match(b: &ItemInBackpacks) {
    for s in &b.slots {
        assert_eq!(s.data.count as usize, s.data.data.len());
        assert!(s.data.count > 0);
    }
}

#[test]
fn backpack_counts_follow_adds_and_removes() {
    let mut b = ItemInBackpacks::new();
    b.add_item(0, ItemType::HealthPotion, 10);
    b.add_item(0, ItemType::HealthPotion, 11);
    b.add_item(0, ItemType::MagicMissileScroll, 12);
    b.add_item(1, ItemType::HealthPotion, 13);
    slot_counts_match(&b);
    assert_eq!(b.count_of(0, ItemType::HealthPotion), 2);
    assert_eq!(b.count_of(0, ItemType::MagicMissileScroll), 1);
    assert_eq!(b.count_of(1, ItemType::HealthPotion), 1);
    b.remove_item(0, ItemType::HealthPotion);
    slot_counts_match(&b);
    assert_eq!(b.count_of(0, ItemType::HealthPotion), 1);
    let slot = b.slots.iter().find(|s| s.owner == 0 && s.kind == ItemType::HealthPotion).unwrap();
    assert_eq!(slot.data.data, vec![10]);
    b.remove_item(0, ItemType::HealthPotion);
    assert_eq!(b.count_of(0, ItemType::HealthPotion), 0);
    assert!(!b.slots.iter().any(|s| s.owner == 0 && s.kind == ItemType::HealthPotion));
    b.remove_item(0, ItemType::MagicMissileScroll);
    assert!(!b.slots.iter().any(|s| s.owner == 0));
    slot_counts_match(&b);
}

#[test]
fn removing_from_nothing_changes_nothing() {
    let mut b = ItemInBackpacks::new();
    b.remove_item(3, ItemType::HealthPotion);
    assert!(b.slots.is_empty());
    assert_eq!(b.count_of(3, ItemType::HealthPotion), 0);
}

#[test]
fn events_drain_removals_then_additions() {
    let mut b = ItemInBackpacks::new();
    b.add_item(0, ItemType::HealthPotion, 1);
    let removes = vec![
        ItemRemoveEvent { item: 1, owner: 0, kind: ItemType::HealthPotion },
        ItemRemoveEvent { item: 9, owner: 0, kind: ItemType::HealthPotion },
    ];
    let adds = vec![
        ItemPickUpEvent { owner: 0, item: 2, kind: ItemType::HealthPotion },
        ItemPickUpEvent { owner: 0, item: 3, kind: ItemType::MagicMissileScroll },
    ];
    handle_item_update_event(&mut b, &removes, &adds);
    slot_counts_match(&b);
    assert_eq!(b.count_of(0, ItemType::HealthPotion), 1);
    assert_eq!(b.count_of(0, ItemType::MagicMissileScroll), 1);
}

#[test]
fn area_item_with_nobody_in_range_is_wasted() {
    let map = GameMap::new(80, 50);
    let mut b = ItemInBackpacks::new();
    b.add_item(0, ItemType::MagicMissileScroll, 5);
    let mut st = vec![
        CombatStats { max_hp: 30, hp: 20, defense: 2, power: 5 },
        CombatStats { max_hp: 16, hp: 16, defense: 1, power: 3 },
    ];
    let before = st.clone();
    let mut pending: Vec<Option<SufferDamage>> = vec![None, None];
    let scroll = magic_missile_scroll();
    let far = vec![Hostile { entity: 1, position: Position { x: 40, y: 40 } }];
    let out = use_item(&scroll, 5, 0, Position { x: 10, y: 10 }, &far, &map, &mut st, &mut pending);
    assert!(!out.applied);
    assert_eq!(out.removal, Some(ItemRemoveEvent { item: 5, owner: 0, kind: ItemType::MagicMissileScroll }));
    assert_eq!(st, before);
    assert!(pending.iter().all(|p| p.is_none()));
    handle_item_update_event(&mut b, &vec![out.removal.unwrap()], &vec![]);
    assert_eq!(b.count_of(0, ItemType::MagicMissileScroll), 0);
}

#[test]
fn area_item_strikes_occupants_of_found_places() {
    let mut map = GameMap::new(30, 30);
    map.apply_room_to_map(&Rect::new(0, 0, 25, 25));
    map.populate_blocked();
    map_index(
        &mut map,
        &vec![
            Occupant { position: Position { x: 12, y: 13 }, entity: 1, blocks_tile: true },
            Occupant { position: Position { x: 20, y: 20 }, entity: 2, blocks_tile: true },
        ],
    );
    let hostiles = vec![
        Hostile { entity: 1, position: Position { x: 12, y: 13 } },
        Hostile { entity: 2, position: Position { x: 20, y: 20 } },
    ];
    let mut st = vec![CombatStats { max_hp: 30, hp: 30, defense: 2, power: 5 }; 3];
    let mut pending: Vec<Option<SufferDamage>> = vec![None, None, None];
    let out = use_item(&magic_missile_scroll(), 4, 0, Position { x: 10, y: 10 }, &hostiles, &map, &mut st, &mut pending);
    assert!(out.applied);
    assert_eq!(out.removal, Some(ItemRemoveEvent { item: 4, owner: 0, kind: ItemType::MagicMissileScroll }));
    assert_eq!(pending[1].as_ref().unwrap().amount, vec![8]);
    assert!(pending[2].is_none());
    assert!(pending[0].is_none());
}

#[test]
fn potion_heals_up_to_the_maximum() {
    let map = GameMap::new(10, 10);
    let mut st = vec![CombatStats { max_hp: 30, hp: 25, defense: 2, power: 5 }];
    let mut pending: Vec<Option<SufferDamage>> = vec![None];
    let out = use_item(&health_potion(), 0, 0, Position { x: 1, y: 1 }, &vec![], &map, &mut st, &mut pending);
    assert!(out.applied);
    assert_eq!(st[0].hp, 30);
    let mut low = vec![CombatStats { max_hp: 30, hp: 5, defense: 2, power: 5 }];
    let removal = item_use_healing(&mut low, &vec![0, 0, 7], &health_potion(), 3, 0);
    assert_eq!(low[0].hp, 25);
    assert_eq!(removal, Some(ItemRemoveEvent { item: 3, owner: 0, kind: ItemType::HealthPotion }));
    let mut keep = health_potion();
    keep.consumable = false;
    assert_eq!(item_use_healing(&mut low, &vec![0], &keep, 3, 0), None);
    assert_eq!(low[0].hp, 30);
}

#[test]
fn entity_targets_are_the_hostiles_in_range() {
    let item = Item {
        kind: ItemType::MagicMissileScroll,
        target: ItemTargetType::Computed(ItemTargetComputedType::Entity),
        consumable: false,
        healing: None,
        damage: None,
        ranged: Some(Ranged { range: 3 }),
        use_position: Some(Position { x: 0, y: 0 }),
    };
    let hs = vec![
        Hostile { entity: 4, position: Position { x: 3, y: -3 } },
        Hostile { entity: 5, position: Position { x: 4, y: 0 } },
        Hostile { entity: 6, position: Position { x: -1, y: 2 } },
    ];
    assert_eq!(get_all_enemy(&hs, Position { x: 0, y: 0 }, 3).len(), 2);
    match compute_item_apply_position_or_entity(&item, 1, 9, Position { x: 50, y: 50 }, &hs) {
        ItemTargets::Entities(v) => assert_eq!(v, vec![4, 6]),
        _ => panic!("expected entities"),
    }
    match compute_item_apply_position_or_entity(&health_potion(), 2, 9, Position { x: 50, y: 50 }, &hs) {
        ItemTargets::Entities(v) => assert_eq!(v, vec![9]),
        _ => panic!("expected the owner"),
    }
    let far = vec![Hostile { entity: 4, position: Position { x: 40, y: 40 } }];
    match compute_item_apply_position_or_entity(&item, 1, 9, Position { x: 50, y: 50 }, &far) {
        ItemTargets::Wasted(ev) => {
            assert_eq!(ev, ItemRemoveEvent { item: 1, owner: 9, kind: ItemType::MagicMissileScroll })
        }
        _ => panic!("expected a wasted item"),
    }
}

#[test]
fn pickup_takes_an_item_once() {
    let mut ground = vec![true, true];
    let kinds = vec![ItemType::HealthPotion, ItemType::MagicMissileScroll];
    let mut log = GameLog::new();
    let wants = vec![
        WantsToPickupItem { collected_by: 0, item: 1 },
        WantsToPickupItem { collected_by: 3, item: 1 },
        WantsToPickupItem { collected_by: 0, item: 7 },
    ];
    let events = item_collect(&wants, &mut ground, &kinds, &mut log);
    assert_eq!(events, vec![ItemPickUpEvent { owner: 0, item: 1, kind: ItemType::MagicMissileScroll }]);
    assert_eq!(ground, vec![true, false]);
    assert_eq!(log.entries, vec![LogEntry::PickUp { owner: 0, item: 1 }]);
}

#[test]
fn apply_requests_become_pending_uses() {
    let ev = vec![
        ItemApplyEvent { item: 3, item_type: ItemType::HealthPotion, owner: 0 },
        ItemApplyEvent { item: 4, item_type: ItemType::MagicMissileScroll, owner: 2 },
    ];
    assert_eq!(
        handle_item_apply_event(&ev),
        vec![WantsToUseItem { user: 0, item: 3 }, WantsToUseItem { user: 2, item: 4 }]
    );
}
