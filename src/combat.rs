//! Melee resolution: damage from each pending attack, per-target damage
//! accumulation, hit-point subtraction and the removal of the dead.

use vstd::prelude::*;
use crate::map::push_if;

verus! {

#[derive(PartialEq, Eq, Structural, Clone, Copy, Debug)]
pub struct CombatStats {
    pub max_hp: i32,
    pub hp: i32,
    pub defense: i32,
    pub power: i32,
}

/// A pending attack of `attacker` on `target`; both are actor ids.
#[derive(PartialEq, Eq, Structural, Clone, Copy, Debug)]
pub struct WantsToMelee {
    pub attacker: usize,
    pub target: usize,
}

/// All damage instances aimed at one actor during a tick, in arrival order.
#[derive(Debug)]
pub struct SufferDamage {
    pub amount: Vec<i64>,
}

/// One line of the game log, as data; the interface turns it into text.
#[derive(PartialEq, Eq, Structural, Clone, Copy, Debug)]
pub enum LogEntry {
    Hit { attacker: usize, target: usize, damage: i64 },
    UnableToHurt { attacker: usize, target: usize },
    Dead { entity: usize },
    PickUp { owner: usize, item: usize },
}

/// The append-only event log of a session.
#[derive(Debug)]
pub struct GameLog {
    pub entries: Vec<LogEntry>,
}

impl GameLog {
    pub fn new() -> (r: GameLog)
        ensures
            r.entries@.len() == 0,
    {
        GameLog { entries: Vec::new() }
    }
}

/// Melee damage: the attacker's power less the defender's defense, never
/// below zero.
pub open spec fn damage_of(attacker: CombatStats, defender: CombatStats) -> int {
    if attacker.power - defender.defense > 0 {
        attacker.power - defender.defense
    } else {
        0
    }
}

/// Both combatants of `m` are still standing (their hit points are not
/// negative); other records wait.
pub open spec fn melee_live(stats: Seq<CombatStats>, m: WantsToMelee) -> bool {
    stats[m.attacker as int].hp >= 0 && stats[m.target as int].hp >= 0
}

pub open spec fn melee_refs_ok(stats: Seq<CombatStats>, ms: Seq<WantsToMelee>) -> bool {
    forall|k: int|
        0 <= k < ms.len() ==> (#[trigger] ms[k]).attacker < stats.len() && ms[k].target < stats.len()
}

/// The nonzero damages that the live records of `ms` deal to actor `t`, in
/// order.
pub open spec fn damages_to(stats: Seq<CombatStats>, ms: Seq<WantsToMelee>, t: int) -> Seq<i64>
    decreases ms.len(),
{
    if ms.len() == 0 {
        Seq::empty()
    } else {
        let m = ms.last();
        let d = damage_of(stats[m.attacker as int], stats[m.target as int]);
        push_if(damages_to(stats, ms.drop_last(), t), melee_live(stats, m) && m.target == t && d > 0, d as i64)
    }
}

/// The log lines that the live records of `ms` produce, in order.
pub open spec fn melee_log(stats: Seq<CombatStats>, ms: Seq<WantsToMelee>) -> Seq<LogEntry>
    decreases ms.len(),
{
    if ms.len() == 0 {
        Seq::empty()
    } else {
        let m = ms.last();
        let d = damage_of(stats[m.attacker as int], stats[m.target as int]);
        push_if(
            melee_log(stats, ms.drop_last()),
            melee_live(stats, m),
            if d == 0 {
                LogEntry::UnableToHurt { attacker: m.attacker, target: m.target }
            } else {
                LogEntry::Hit { attacker: m.attacker, target: m.target, damage: d as i64 }
            },
        )
    }
}

/// The records of `ms` that are not live, which stay pending.
pub open spec fn melee_waiting(stats: Seq<CombatStats>, ms: Seq<WantsToMelee>) -> Seq<WantsToMelee>
    decreases ms.len(),
{
    if ms.len() == 0 {
        Seq::empty()
    } else {
        push_if(melee_waiting(stats, ms.drop_last()), !melee_live(stats, ms.last()), ms.last())
    }
}

pub open spec fn pending_amounts(p: Option<SufferDamage>) -> Seq<i64> {
    match p {
        Some(s) => s.amount@,
        None => Seq::empty(),
    }
}

/// The sum of a sequence of damages.
pub open spec fn total(s: Seq<i64>) -> int
    decreases s.len(),
{
    if s.len() == 0 {
        0
    } else {
        total(s.drop_last()) + s.last()
    }
}

/// Hit points after one subtraction of all of `s`, floored at `i32::MIN`.
pub open spec fn hp_after(hp: int, s: Seq<i64>) -> int {
    if hp - total(s) < i32::MIN {
        i32::MIN as int
    } else {
        hp - total(s)
    }
}

pub open spec fn all_nonnegative(s: Seq<i64>) -> bool {
    forall|k: int| 0 <= k < s.len() ==> #[trigger] s[k] >= 0
}

pub proof fn lemma_damages_nonnegative(stats: Seq<CombatStats>, ms: Seq<WantsToMelee>, t: int)
    ensures
        all_nonnegative(damages_to(stats, ms, t)),
    decreases ms.len(),
{
    if ms.len() > 0 {
        lemma_damages_nonnegative(stats, ms.drop_last(), t);
    }
}

pub proof fn lemma_total_push(s: Seq<i64>, d: i64)
    ensures
        total(s.push(d)) == total(s) + d,
{
    assert(s.push(d).drop_last() =~= s);
}

pub proof fn lemma_total_append(s: Seq<i64>, u: Seq<i64>)
    ensures
        total(s + u) == total(s) + total(u),
    decreases u.len(),
{
    if u.len() == 0 {
        assert(s + u =~= s);
    } else {
        assert((s + u).drop_last() =~= s + u.drop_last());
        lemma_total_append(s, u.drop_last());
    }
}

/// Melee damage of `attacker` on `defender`.
pub fn melee_damage(attacker: &CombatStats, defender: &CombatStats) -> (r: i64)
    ensures
        r == damage_of(*attacker, *defender),
        r >= 0,
{
    let d: i64 = attacker.power as i64 - defender.defense as i64;
    if d > 0 {
        d
    } else {
        0
    }
}

/// Appends `d` to the pending damage of `pending[t]`, creating the record
/// when there is none.
pub(crate) fn push_damage(pending: &mut Vec<Option<SufferDamage>>, t: usize, d: i64)
    requires
        t < old(pending).len(),
    ensures
        final(pending).len() == old(pending).len(),
        forall|i: int|
            0 <= i < final(pending).len() && i != t ==> #[trigger] final(pending)@[i] == old(pending)@[i],
        final(pending)@[t as int] is Some,
        pending_amounts(final(pending)@[t as int]) == pending_amounts(old(pending)@[t as int]).push(d),
{
    let cur = pending[t].take();
    match cur {
        Some(sd) => {
            let mut amount = sd.amount;
            amount.push(d);
            pending[t] = Some(SufferDamage { amount });
        },
        None => {
            let mut amount: Vec<i64> = Vec::new();
            amount.push(d);
            pending[t] = Some(SufferDamage { amount });
        },
    }
}

/// Reads every pending melee record once. A record whose attacker or target
/// has negative hit points is kept, untouched, in the returned list. For
/// the others the damage is computed; zero damage only logs that the
/// attacker cannot hurt the target, other damage is logged and appended to
/// the target's pending damage, so that several attackers of one target
/// merge into one record.
pub fn melee_combat(
    melees: &Vec<WantsToMelee>,
    stats: &Vec<CombatStats>,
    pending: &mut Vec<Option<SufferDamage>>,
    log: &mut GameLog,
) -> (waiting: Vec<WantsToMelee>)
    requires
        melee_refs_ok(stats@, melees@),
        old(pending).len() == stats.len(),
    ensures
        waiting@ == melee_waiting(stats@, melees@),
        final(log).entries@ == old(log).entries@ + melee_log(stats@, melees@),
        final(pending).len() == old(pending).len(),
        forall|t: int|
            0 <= t < final(pending).len() ==> pending_amounts(#[trigger] final(pending)@[t]) == pending_amounts(
                old(pending)@[t],
            ) + damages_to(stats@, melees@, t),
        forall|t: int|
            0 <= t < final(pending).len() ==> ((#[trigger] final(pending)@[t] is Some) <==> (old(pending)@[t] is Some
                || damages_to(stats@, melees@, t).len() > 0)),
{
    let mut waiting: Vec<WantsToMelee> = Vec::new();
    let n = melees.len();
    let mut k: usize = 0;
    while k < n
        invariant
            n == melees.len(),
            k <= n,
            melee_refs_ok(stats@, melees@),
            pending.len() == stats.len(),
            waiting@ == melee_waiting(stats@, melees@.subrange(0, k as int)),
            log.entries@ == old(log).entries@ + melee_log(stats@, melees@.subrange(0, k as int)),
            forall|t: int|
                0 <= t < pending.len() ==> pending_amounts(#[trigger] pending@[t]) == pending_amounts(old(pending)@[t])
                    + damages_to(stats@, melees@.subrange(0, k as int), t),
            forall|t: int|
                0 <= t < pending.len() ==> ((#[trigger] pending@[t] is Some) <==> (old(pending)@[t] is Some
                    || damages_to(stats@, melees@.subrange(0, k as int), t).len() > 0)),
        decreases n - k,
    {
        let m = melees[k];
        let ghost pre = melees@.subrange(0, k as int);
        let ghost post = melees@.subrange(0, k as int + 1);
        assert(post.drop_last() =~= pre);
        assert(post.last() == m);
        assert(m.attacker < stats.len() && m.target < stats.len()) by {
            assert(melees@[k as int] == m);
        }
        let attacker = stats[m.attacker];
        let defender = stats[m.target];
        if attacker.hp < 0 || defender.hp < 0 {
            waiting.push(m);
        } else {
            let d = melee_damage(&attacker, &defender);
            if d == 0 {
                log.entries.push(LogEntry::UnableToHurt { attacker: m.attacker, target: m.target });
            } else {
                log.entries.push(LogEntry::Hit { attacker: m.attacker, target: m.target, damage: d });
                push_damage(pending, m.target, d);
            }
        }
        proof {
            assert forall|t: int| 0 <= t < pending.len() implies pending_amounts(#[trigger] pending@[t]) == pending_amounts(
                old(pending)@[t],
            ) + damages_to(stats@, post, t) by {
                let prev = pending_amounts(old(pending)@[t]);
                let ds = damages_to(stats@, pre, t);
                if melee_live(stats@, m) && m.target == t && damage_of(attacker, defender) > 0 {
                    assert(prev + ds.push(damage_of(attacker, defender) as i64) =~= (prev + ds).push(
                        damage_of(attacker, defender) as i64,
                    ));
                }
            }
        }
        k = k + 1;
    }
    assert(melees@.subrange(0, n as int) =~= melees@);
    waiting
}

/// Subtracts each actor's pending damage from its hit points in one step
/// and deletes the record.
pub fn apply_damage(stats: &mut Vec<CombatStats>, pending: &mut Vec<Option<SufferDamage>>)
    requires
        old(pending).len() == old(stats).len(),
        forall|i: int| 0 <= i < old(pending).len() ==> all_nonnegative(pending_amounts(#[trigger] old(pending)@[i])),
    ensures
        final(stats).len() == old(stats).len(),
        final(pending).len() == old(pending).len(),
        forall|i: int| 0 <= i < final(pending).len() ==> #[trigger] final(pending)@[i] is None,
        forall|i: int|
            0 <= i < final(stats).len() ==> #[trigger] final(stats)@[i] == (CombatStats {
                hp: hp_after(old(stats)@[i].hp as int, pending_amounts(old(pending)@[i])) as i32,
                ..old(stats)@[i]
            }),
{
    let n = stats.len();
    let mut i: usize = 0;
    while i < n
        invariant
            n == stats.len(),
            i <= n,
            pending.len() == n,
            old(pending).len() == n,
            old(stats).len() == n,
            forall|j: int| 0 <= j < n ==> all_nonnegative(pending_amounts(#[trigger] old(pending)@[j])),
            forall|j: int| 0 <= j < i ==> #[trigger] pending@[j] is None,
            forall|j: int| i <= j < n ==> #[trigger] pending@[j] == old(pending)@[j],
            forall|j: int| i <= j < n ==> #[trigger] stats@[j] == old(stats)@[j],
            forall|j: int|
                0 <= j < i ==> #[trigger] stats@[j] == (CombatStats {
                    hp: hp_after(old(stats)@[j].hp as int, pending_amounts(old(pending)@[j])) as i32,
                    ..old(stats)@[j]
                }),
        decreases n - i,
    {
        let cur = pending[i].take();
        match cur {
            Some(sd) => {
                let s = stats[i];
                let hp = subtract_all(s.hp, &sd.amount);
                stats[i] = CombatStats { hp, ..s };
            },
            None => {
                assert(hp_after(stats@[i as int].hp as int, Seq::<i64>::empty()) == stats@[i as int].hp);
            },
        }
        i = i + 1;
    }
}

/// `hp` less the sum of `amount`, floored at `i32::MIN`.
fn subtract_all(hp: i32, amount: &Vec<i64>) -> (r: i32)
    requires
        all_nonnegative(amount@),
    ensures
        r == hp_after(hp as int, amount@),
{
    let mut acc: i64 = hp as i64;
    let mut k: usize = 0;
    while k < amount.len()
        invariant
            k <= amount.len(),
            all_nonnegative(amount@),
            acc == hp_after(hp as int, amount@.subrange(0, k as int)),
            total(amount@.subrange(0, k as int)) >= 0,
            i32::MIN <= acc <= hp,
        decreases amount.len() - k,
    {
        let d = amount[k];
        proof {
            let pre = amount@.subrange(0, k as int);
            assert(amount@.subrange(0, k as int + 1) =~= pre.push(d));
            lemma_total_push(pre, d);
            assert(d >= 0) by {
                assert(amount@[k as int] == d);
            }
        }
        let room: i64 = acc - i32::MIN as i64;
        if d > room {
            acc = i32::MIN as i64;
        } else {
            acc = acc - d;
        }
        k = k + 1;
    }
    assert(amount@.subrange(0, amount.len() as int) =~= amount@);
    acc as i32
}

/// Actor `i` is swept away: alive, out of hit points, and not the player.
pub open spec fn swept(stats: Seq<CombatStats>, alive: Seq<bool>, player: usize, i: int) -> bool {
    alive[i] && stats[i].hp <= 0 && i != player
}

/// One death line for each actor among the first `n` that is swept away.
pub open spec fn death_log(stats: Seq<CombatStats>, alive: Seq<bool>, player: usize, n: int) -> Seq<LogEntry>
    decreases n,
{
    if n <= 0 {
        Seq::empty()
    } else {
        push_if(death_log(stats, alive, player, n - 1), swept(stats, alive, player, n - 1), LogEntry::Dead { entity: (n - 1) as usize })
    }
}

/// The records of `ms` whose attacker and target both survive the sweep.
pub open spec fn melee_survivors(stats: Seq<CombatStats>, alive: Seq<bool>, player: usize, ms: Seq<WantsToMelee>) -> Seq<WantsToMelee>
    decreases ms.len(),
{
    if ms.len() == 0 {
        Seq::empty()
    } else {
        let m = ms.last();
        push_if(
            melee_survivors(stats, alive, player, ms.drop_last()),
            !swept(stats, alive, player, m.attacker as int) && !swept(stats, alive, player, m.target as int),
            m,
        )
    }
}

/// The death sweep. Every living actor with no hit points left but the
/// player is removed, with the melee records that name it, and its death is
/// logged. Returns whether the player is out of hit points: the session
/// then ends, and the player stays in place for inspection.
pub fn delete_the_dead(
    stats: &Vec<CombatStats>,
    alive: &mut Vec<bool>,
    melees: &mut Vec<WantsToMelee>,
    player: usize,
    log: &mut GameLog,
) -> (player_dead: bool)
    requires
        old(alive).len() == stats.len(),
        melee_refs_ok(stats@, old(melees)@),
    ensures
        final(alive).len() == old(alive).len(),
        forall|i: int|
            0 <= i < final(alive).len() ==> #[trigger] final(alive)@[i] == (old(alive)@[i] && !swept(
                stats@,
                old(alive)@,
                player,
                i,
            )),
        final(melees)@ == melee_survivors(stats@, old(alive)@, player, old(melees)@),
        final(log).entries@ == old(log).entries@ + death_log(stats@, old(alive)@, player, stats.len() as int),
        player_dead == (player < stats.len() && old(alive)@[player as int] && stats@[player as int].hp <= 0),
{
    let ghost alive0 = alive@;
    let n = stats.len();
    let mut kept: Vec<WantsToMelee> = Vec::new();
    let mut k: usize = 0;
    while k < melees.len()
        invariant
            k <= melees.len(),
            alive@ == alive0,
            alive0.len() == stats.len(),
            melees@ == old(melees)@,
            melee_refs_ok(stats@, melees@),
            kept@ == melee_survivors(stats@, alive0, player, melees@.subrange(0, k as int)),
        decreases melees.len() - k,
    {
        let m = melees[k];
        let ghost pre = melees@.subrange(0, k as int);
        assert(melees@.subrange(0, k as int + 1).drop_last() =~= pre);
        assert(m.attacker < stats.len() && m.target < stats.len()) by {
            assert(melees@[k as int] == m);
        }
        let gone_a = alive[m.attacker] && stats[m.attacker].hp <= 0 && m.attacker != player;
        let gone_t = alive[m.target] && stats[m.target].hp <= 0 && m.target != player;
        if !gone_a && !gone_t {
            kept.push(m);
        }
        k = k + 1;
    }
    assert(melees@.subrange(0, melees@.len() as int) =~= melees@);
    *melees = kept;
    let mut player_dead = false;
    let mut i: usize = 0;
    while i < n
        invariant
            n == stats.len(),
            i <= n,
            alive.len() == n,
            alive0.len() == n,
            forall|j: int| i <= j < n ==> #[trigger] alive@[j] == alive0[j],
            forall|j: int| 0 <= j < i ==> #[trigger] alive@[j] == (alive0[j] && !swept(stats@, alive0, player, j)),
            log.entries@ == old(log).entries@ + death_log(stats@, alive0, player, i as int),
            player_dead == (player < i && alive0[player as int] && stats@[player as int].hp <= 0),
        decreases n - i,
    {
        if alive[i] && stats[i].hp <= 0 {
            if i == player {
                player_dead = true;
            } else {
                alive[i] = false;
                log.entries.push(LogEntry::Dead { entity: i });
            }
        }
        proof {
            let prev = death_log(stats@, alive0, player, i as int);
            if swept(stats@, alive0, player, i as int) {
                assert(old(log).entries@ + prev.push(LogEntry::Dead { entity: i }) =~= (old(log).entries@ + prev).push(
                    LogEntry::Dead { entity: i },
                ));
            }
        }
        i = i + 1;
    }
    player_dead
}

/// One resolution cycle, in its fixed order: melee records are read, the
/// accumulated damage is applied, then the dead are swept. Returns whether
/// the player is out of hit points.
pub fn resolve_combat(
    melees: &mut Vec<WantsToMelee>,
    stats: &mut Vec<CombatStats>,
    pending: &mut Vec<Option<SufferDamage>>,
    alive: &mut Vec<bool>,
    player: usize,
    log: &mut GameLog,
) -> (player_dead: bool)
    requires
        melee_refs_ok(old(stats)@, old(melees)@),
        old(pending).len() == old(stats).len(),
        old(alive).len() == old(stats).len(),
        forall|i: int| 0 <= i < old(pending).len() ==> all_nonnegative(pending_amounts(#[trigger] old(pending)@[i])),
    ensures
        final(stats).len() == old(stats).len(),
        final(pending).len() == old(pending).len(),
        forall|i: int| 0 <= i < final(pending).len() ==> #[trigger] final(pending)@[i] is None,
        forall|t: int|
            0 <= t < final(stats).len() ==> #[trigger] final(stats)@[t] == (CombatStats {
                hp: hp_after(
                    old(stats)@[t].hp as int,
                    pending_amounts(old(pending)@[t]) + damages_to(old(stats)@, old(melees)@, t),
                ) as i32,
                ..old(stats)@[t]
            }),
        final(alive).len() == old(alive).len(),
        forall|i: int|
            0 <= i < final(alive).len() ==> #[trigger] final(alive)@[i] == (old(alive)@[i] && !swept(
                final(stats)@,
                old(alive)@,
                player,
                i,
            )),
        player_dead == (player < final(stats).len() && old(alive)@[player as int] && final(stats)@[player as int].hp <= 0),
        melee_refs_ok(final(stats)@, final(melees)@),
{
    let waiting = melee_combat(melees, stats, pending, log);
    proof {
        assert forall|i: int| 0 <= i < pending.len() implies all_nonnegative(pending_amounts(#[trigger] pending@[i])) by {
            lemma_damages_nonnegative(old(stats)@, old(melees)@, i);
            let a = pending_amounts(old(pending)@[i]);
            let b = damages_to(old(stats)@, old(melees)@, i);
            assert forall|k: int| 0 <= k < (a + b).len() implies #[trigger] (a + b)[k] >= 0 by {
                if k >= a.len() {
                    assert((a + b)[k] == b[k - a.len()]);
                }
            }
        }
    }
    apply_damage(stats, pending);
    *melees = waiting;
    proof {
        assert forall|k: int| 0 <= k < melees@.len() implies (#[trigger] melees@[k]).attacker < stats@.len()
            && melees@[k].target < stats@.len() by {
            lemma_waiting_from(old(stats)@, old(melees)@, k);
        }
    }
    let ghost before = melees@;
    let ghost alive0 = alive@;
    let dead = delete_the_dead(stats, alive, melees, player, log);
    proof {
        lemma_survivors_refs(stats@, alive0, player, before);
    }
    dead
}

/// Every surviving record is one of the records it came from.
proof fn lemma_survivors_refs(stats: Seq<CombatStats>, alive: Seq<bool>, player: usize, ms: Seq<WantsToMelee>)
    requires
        melee_refs_ok(stats, ms),
    ensures
        melee_refs_ok(stats, melee_survivors(stats, alive, player, ms)),
    decreases ms.len(),
{
    if ms.len() > 0 {
        assert(melee_refs_ok(stats, ms.drop_last())) by {
            assert forall|j: int| 0 <= j < ms.drop_last().len() implies (#[trigger] ms.drop_last()[j]).attacker < stats.len()
                && ms.drop_last()[j].target < stats.len() by {
                assert(ms.drop_last()[j] == ms[j]);
            }
        }
        lemma_survivors_refs(stats, alive, player, ms.drop_last());
        assert(ms[ms.len() - 1] == ms.last());
    }
}

/// Every waiting record is one of the records it came from.
proof fn lemma_waiting_from(stats: Seq<CombatStats>, ms: Seq<WantsToMelee>, k: int)
    requires
        melee_refs_ok(stats, ms),
        0 <= k < melee_waiting(stats, ms).len(),
    ensures
        melee_waiting(stats, ms)[k].attacker < stats.len(),
        melee_waiting(stats, ms)[k].target < stats.len(),
    decreases ms.len(),
{
    if ms.len() > 0 {
        let prev = melee_waiting(stats, ms.drop_last());
        assert(melee_refs_ok(stats, ms.drop_last())) by {
            assert forall|j: int| 0 <= j < ms.drop_last().len() implies (#[trigger] ms.drop_last()[j]).attacker < stats.len()
                && ms.drop_last()[j].target < stats.len() by {
                assert(ms.drop_last()[j] == ms[j]);
            }
        }
        if k < prev.len() {
            lemma_waiting_from(stats, ms.drop_last(), k);
        } else {
            assert(ms[ms.len() - 1] == ms.last());
        }
    }
}

/// Two live attacks on one defender in the same pass land in one pending
/// record whose amounts sum to both damages, so the defender's hit points
/// drop once, by that sum.
pub proof fn lemma_two_attackers_one_subtraction(stats: Seq<CombatStats>, m1: WantsToMelee, m2: WantsToMelee)
    requires
        m1.attacker < stats.len(),
        m2.attacker < stats.len(),
        m1.target < stats.len(),
        m2.target == m1.target,
        melee_live(stats, m1),
        melee_live(stats, m2),
    ensures
        ({
            let t = m1.target as int;
            let d1 = damage_of(stats[m1.attacker as int], stats[t]);
            let d2 = damage_of(stats[m2.attacker as int], stats[t]);
            &&& total(damages_to(stats, seq![m1, m2], t)) == d1 + d2
            &&& hp_after(stats[t].hp as int, damages_to(stats, seq![m1, m2], t)) == if stats[t].hp - d1 - d2 < i32::MIN {
                i32::MIN as int
            } else {
                stats[t].hp - d1 - d2
            }
        }),
{
    let t = m1.target as int;
    let s = seq![m1, m2];
    assert(s.drop_last() =~= seq![m1]);
    assert(seq![m1].drop_last() =~= Seq::<WantsToMelee>::empty());
    let e = Seq::<i64>::empty();
    let d1 = damage_of(stats[m1.attacker as int], stats[t]);
    let s1 = push_if(e, d1 > 0, d1 as i64);
    assert(seq![m1].last() == m1);
    assert(s.last() == m2);
    assert(damages_to(stats, Seq::<WantsToMelee>::empty(), t) == e);
    assert(damages_to(stats, seq![m1], t) == s1);
    lemma_total_push(e, d1 as i64);
    assert(total(e) == 0);
    let d2 = damage_of(stats[m2.attacker as int], stats[t]);
    lemma_total_push(s1, d2 as i64);
}

} // verus!
