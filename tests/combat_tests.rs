use roguelike::combat::{
    apply_damage, delete_the_dead, melee_combat, melee_damage, resolve_combat, CombatStats, GameLog,
    LogEntry, SufferDamage, WantsToMelee,
};

fn stats(hp: i32, defense: i32, power: i32) -> CombatStats {
    CombatStats { max_hp: hp, hp, defense, power }
}

#[test]
fn damage_is_power_less_defense() {
    assert_eq!(melee_damage(&stats(30, 2, 5), &stats(16, 2, 3)), 3);
    assert_eq!(melee_damage(&stats(16, 1, 3), &stats(30, 2, 5)), 1);
}

#[test]
fn damage_is_never_negative() {
    assert_eq!(melee_damage(&stats(10, 0, 1), &stats(10, 10, 0)), 0);
    assert_eq!(melee_damage(&stats(10, 0, 2), &stats(10, 2, 0)), 0);
    assert_eq!(melee_damage(&stats(10, 0, i32::MIN), &stats(10, i32::MAX, 0)), 0);
    assert_eq!(melee_damage(&stats(10, 0, i32::MAX), &stats(10, i32::MIN, 0)), 4294967295);
}

#[test]
fn two_attackers_one_subtraction() {
    let mut st = vec![stats(30, 2, 5), stats(30, 2, 5), stats(16, 2, 3)];
    let mut pending: Vec<Option<SufferDamage>> = vec![None, None, None];
    let mut log = GameLog::new();
    let melees = vec![WantsToMelee { attacker: 0, target: 2 }, WantsToMelee { attacker: 1, target: 2 }];
    let waiting = melee_combat(&melees, &st, &mut pending, &mut log);
    assert!(waiting.is_empty());
    assert_eq!(pending[2].as_ref().unwrap().amount, vec![3, 3]);
    assert!(pending[0].is_none() && pending[1].is_none());
    assert_eq!(
        log.entries,
        vec![
            LogEntry::Hit { attacker: 0, target: 2, damage: 3 },
            LogEntry::Hit { attacker: 1, target: 2, damage: 3 }
        ]
    );
    assert_eq!(st[2].hp, 16);
    apply_damage(&mut st, &mut pending);
    assert_eq!(st[2].hp, 10);
    assert!(pending.iter().all(|p| p.is_none()));
}

#[test]
fn full_cycle_resolves_once() {
    let mut st = vec![stats(30, 2, 5), stats(30, 2, 5), stats(16, 2, 3)];
    let mut pending: Vec<Option<SufferDamage>> = vec![None, None, None];
    let mut alive = vec![true, true, true];
    let mut log = GameLog::new();
    let mut melees = vec![WantsToMelee { attacker: 0, target: 2 }, WantsToMelee { attacker: 1, target: 2 }];
    let dead = resolve_combat(&mut melees, &mut st, &mut pending, &mut alive, 0, &mut log);
    assert!(!dead);
    assert_eq!(st[2].hp, 10);
    assert!(melees.is_empty());
    let again = resolve_combat(&mut melees, &mut st, &mut pending, &mut alive, 0, &mut log);
    assert!(!again);
    assert_eq!(st[2].hp, 10);
}

#[test]
fn zero_damage_only_logs() {
    let st = vec![stats(10, 0, 1), stats(10, 5, 0)];
    let mut pending: Vec<Option<SufferDamage>> = vec![None, None];
    let mut log = GameLog::new();
    let waiting = melee_combat(&vec![WantsToMelee { attacker: 0, target: 1 }], &st, &mut pending, &mut log);
    assert!(waiting.is_empty());
    assert!(pending[1].is_none());
    assert_eq!(log.entries, vec![LogEntry::UnableToHurt { attacker: 0, target: 1 }]);
}

#[test]
fn records_of_the_dying_wait() {
    let st = vec![CombatStats { max_hp: 10, hp: -1, defense: 0, power: 5 }, stats(10, 0, 5)];
    let mut pending: Vec<Option<SufferDamage>> = vec![None, None];
    let mut log = GameLog::new();
    let m = WantsToMelee { attacker: 0, target: 1 };
    let waiting = melee_combat(&vec![m], &st, &mut pending, &mut log);
    assert_eq!(waiting, vec![m]);
    assert!(log.entries.is_empty());
    assert!(pending[1].is_none());
}

#[test]
fn damage_appends_to_an_existing_record() {
    let st = vec![stats(10, 0, 4), stats(10, 1, 0)];
    let mut pending: Vec<Option<SufferDamage>> = vec![None, Some(SufferDamage { amount: vec![2] })];
    let mut log = GameLog::new();
    melee_combat(&vec![WantsToMelee { attacker: 0, target: 1 }], &st, &mut pending, &mut log);
    assert_eq!(pending[1].as_ref().unwrap().amount, vec![2, 3]);
}

#[test]
fn damage_floors_at_the_smallest_hp() {
    let mut st = vec![CombatStats { max_hp: 10, hp: i32::MIN + 5, defense: 0, power: 0 }];
    let mut pending = vec![Some(SufferDamage { amount: vec![3, 4, i64::MAX] })];
    apply_damage(&mut st, &mut pending);
    assert_eq!(st[0].hp, i32::MIN);
}

#[test]
fn sweep_removes_dead_monsters_but_not_the_player() {
    let st = vec![
        CombatStats { max_hp: 30, hp: 0, defense: 2, power: 5 },
        CombatStats { max_hp: 16, hp: -3, defense: 1, power: 3 },
        stats(16, 1, 3),
    ];
    let mut alive = vec![true, true, true];
    let mut melees = vec![WantsToMelee { attacker: 1, target: 0 }, WantsToMelee { attacker: 2, target: 0 }];
    let mut log = GameLog::new();
    let dead = delete_the_dead(&st, &mut alive, &mut melees, 0, &mut log);
    assert!(dead);
    assert_eq!(alive, vec![true, false, true]);
    assert_eq!(melees, vec![WantsToMelee { attacker: 2, target: 0 }]);
    assert_eq!(log.entries, vec![LogEntry::Dead { entity: 1 }]);
}

#[test]
fn sweep_ignores_the_already_removed() {
    let st = vec![stats(30, 2, 5), CombatStats { max_hp: 16, hp: -3, defense: 1, power: 3 }];
    let mut alive = vec![true, false];
    let mut melees = vec![];
    let mut log = GameLog::new();
    assert!(!delete_the_dead(&st, &mut alive, &mut melees, 0, &mut log));
    assert!(log.entries.is_empty());
}
