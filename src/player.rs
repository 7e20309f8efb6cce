//! The controlled actor's response to one input.

use vstd::prelude::*;
use crate::combat::WantsToMelee;
use crate::items::WantsToPickupItem;
use crate::map::{GameMap, Position};
use crate::state::{next_phase, phase_after, TurnPhase};

verus! {

/// One tick of input: a step along one axis, or waiting.
#[derive(PartialEq, Eq, Structural, Clone, Copy, Debug)]
pub enum PlayerIntent {
    Move { dx: i32, dy: i32 },
    Wait,
}

/// An item lying on the map.
#[derive(PartialEq, Eq, Structural, Clone, Copy, Debug)]
pub struct GroundItem {
    pub item: usize,
    pub position: Position,
}

/// What the input came to.
#[derive(PartialEq, Eq, Structural, Clone, Copy, Debug)]
pub enum PlayerAction {
    /// An occupant stood on the target cell; the player attacks it instead
    /// of moving.
    Attack(WantsToMelee),
    /// The player moved, and asks to pick up the item found there, if any.
    Moved { to: Position, pickup: Option<WantsToPickupItem> },
    /// The target cell is blocked.
    Blocked,
    Waited,
}

/// `v` clamped into `[0, hi)`.
pub open spec fn clamp(v: int, hi: int) -> int {
    if v < 0 {
        0
    } else if v >= hi {
        hi - 1
    } else {
        v
    }
}

/// The first item of `items` lying at `p`.
pub open spec fn first_item_at(items: Seq<GroundItem>, p: Position) -> Option<usize>
    decreases items.len(),
{
    if items.len() == 0 {
        None
    } else if items[0].position == p {
        Some(items[0].item)
    } else {
        first_item_at(items.drop_first(), p)
    }
}

/// The input was taken: the turn passes to the player's turn.
pub open spec fn accepted(a: PlayerAction) -> bool {
    a is Attack || a is Moved
}

/// What one input of `player`, standing at `pos`, comes to, and where the
/// player then stands.
pub open spec fn input_outcome(
    map: &GameMap,
    player: usize,
    pos: Position,
    intent: PlayerIntent,
    items: Seq<GroundItem>,
) -> (PlayerAction, Position) {
    match intent {
        PlayerIntent::Wait => (PlayerAction::Waited, pos),
        PlayerIntent::Move { dx, dy } => {
            let to = Position {
                x: clamp(pos.x + dx, map.width as int) as i32,
                y: clamp(pos.y + dy, map.height as int) as i32,
            };
            let i = map.idx(to.x as int, to.y as int);
            let content = map.tile_content@[i]@;
            if content.len() > 0 {
                (PlayerAction::Attack(WantsToMelee { attacker: player, target: content[0] }), pos)
            } else if map.blocked@[i] {
                (PlayerAction::Blocked, pos)
            } else {
                (
                    PlayerAction::Moved {
                        to,
                        pickup: match first_item_at(items, to) {
                            Some(it) => Some(WantsToPickupItem { collected_by: player, item: it }),
                            None => None,
                        },
                    },
                    to,
                )
            }
        },
    }
}

fn clamp_coord(v: i64, hi: i32) -> (r: i32)
    requires
        0 < hi,
    ensures
        r == clamp(v as int, hi as int),
{
    if v < 0 {
        0
    } else if v >= hi as i64 {
        hi - 1
    } else {
        v as i32
    }
}

fn find_item_at(items: &Vec<GroundItem>, p: Position) -> (r: Option<usize>)
    ensures
        r == first_item_at(items@, p),
{
    let mut k: usize = 0;
    assert(items@.subrange(0, items.len() as int) =~= items@);
    while k < items.len()
        invariant
            k <= items.len(),
            first_item_at(items@, p) == first_item_at(items@.subrange(k as int, items.len() as int), p),
        decreases items.len() - k,
    {
        let ghost rest = items@.subrange(k as int, items.len() as int);
        assert(rest.drop_first() =~= items@.subrange(k as int + 1, items.len() as int));
        assert(rest[0] == items@[k as int]);
        if items[k].position == p {
            return Some(items[k].item);
        }
        k = k + 1;
    }
    None
}

/// Resolves one input of `player`, standing at `position`. The target cell,
/// clamped to the map, holds an occupant: the player attacks the first one
/// and stays. Else a blocked cell stops the move. Else the player moves
/// there and asks to pick up the first item lying there, if any. While input
/// is awaited, an accepted move or attack passes the turn to the player.
pub fn player_input(
    map: &GameMap,
    player: usize,
    position: &mut Position,
    intent: PlayerIntent,
    items: &Vec<GroundItem>,
    phase: &mut TurnPhase,
) -> (r: PlayerAction)
    requires
        map.wf(),
    ensures
        (r, *final(position)) == input_outcome(map, player, *old(position), intent, items@),
        *final(phase) == if *old(phase) == TurnPhase::AwaitingInput {
            phase_after(TurnPhase::AwaitingInput, accepted(r), false)
        } else {
            *old(phase)
        },
{
    let action = resolve_input(map, player, position, intent, items);
    let taken = match action {
        PlayerAction::Attack(_) => true,
        PlayerAction::Moved { .. } => true,
        _ => false,
    };
    if *phase == TurnPhase::AwaitingInput {
        *phase = next_phase(*phase, taken, false);
    }
    action
}

fn resolve_input(
    map: &GameMap,
    player: usize,
    position: &mut Position,
    intent: PlayerIntent,
    items: &Vec<GroundItem>,
) -> (r: PlayerAction)
    requires
        map.wf(),
    ensures
        (r, *final(position)) == input_outcome(map, player, *old(position), intent, items@),
{
    match intent {
        PlayerIntent::Wait => PlayerAction::Waited,
        PlayerIntent::Move { dx, dy } => {
            let x = clamp_coord(position.x as i64 + dx as i64, map.width);
            let y = clamp_coord(position.y as i64 + dy as i64, map.height);
            let to = Position { x, y };
            let i = map.xy_idx(x, y);
            if map.tile_content[i].len() > 0 {
                return PlayerAction::Attack(WantsToMelee { attacker: player, target: map.tile_content[i][0] });
            }
            if map.blocked[i] {
                return PlayerAction::Blocked;
            }
            let pickup = match find_item_at(items, to) {
                Some(it) => Some(WantsToPickupItem { collected_by: player, item: it }),
                None => None,
            };
            *position = to;
            PlayerAction::Moved { to, pickup }
        },
    }
}

} // verus!
