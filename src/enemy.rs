//! Monster decisions: whether to follow the player, and what to do on a
//! monster turn given the path the pathfinder found.

use vstd::prelude::*;
use crate::combat::WantsToMelee;
use crate::map::{lemma_idx_split, GameMap, Position};
use crate::visibility::{look_player, Viewshed};

verus! {

#[derive(PartialEq, Eq, Structural, Clone, Copy, Debug)]
pub enum EnemyType {
    G,
    O,
}

/// A monster's mood: idle, or following the player it has seen.
#[derive(PartialEq, Eq, Structural, Clone, Copy, Debug)]
pub enum AiState {
    Idle,
    Follow,
}

/// A path search result: `steps` are cell indices from start to goal.
#[derive(Debug)]
pub struct NavigationPath {
    pub success: bool,
    pub steps: Vec<usize>,
}

/// Within one step, diagonals included: the Euclidean distance is under 1.5.
pub open spec fn adjacent(a: Position, b: Position) -> bool {
    -1 <= a.x - b.x <= 1 && -1 <= a.y - b.y <= 1
}

pub fn is_adjacent(a: Position, b: Position) -> (r: bool)
    ensures
        r == adjacent(a, b),
{
    let dx: i64 = a.x as i64 - b.x as i64;
    let dy: i64 = a.y as i64 - b.y as i64;
    -1 <= dx && dx <= 1 && -1 <= dy && dy <= 1
}

/// The monster follows while it sees the player and idles otherwise.
pub fn next_ai_state(viewshed: &Viewshed, state: AiState, player_position: Position) -> (r: AiState)
    ensures
        r == if viewshed.visible_tiles@.contains(player_position) {
            AiState::Follow
        } else {
            AiState::Idle
        },
{
    let sees = look_player(viewshed, player_position);
    match state {
        AiState::Idle => if sees {
            AiState::Follow
        } else {
            AiState::Idle
        },
        AiState::Follow => if !sees {
            AiState::Idle
        } else {
            AiState::Follow
        },
    }
}

/// The path's second cell, where a monster steps next, if the search
/// succeeded, the path is longer than one cell, and that cell is on the map.
pub open spec fn next_step(map: &GameMap, path: &NavigationPath) -> Option<int> {
    if path.success && path.steps@.len() > 1 && path.steps@[1] < map.cells() {
        Some(path.steps@[1] as int)
    } else {
        None
    }
}

/// One turn of a monster. An idle monster does nothing. A following
/// monster next to the player attacks it; otherwise it takes the first step
/// of `path`, its search toward the player, and its viewshed is due for
/// recomputation. A failed or one-cell path leaves it standing.
pub fn enemy_ai(
    map: &GameMap,
    me: usize,
    state: AiState,
    position: &mut Position,
    viewshed: &mut Viewshed,
    player: usize,
    player_position: Position,
    path: &NavigationPath,
) -> (r: Option<WantsToMelee>)
    requires
        map.wf(),
    ensures
        state == AiState::Idle ==> r is None && *final(position) == *old(position) && final(viewshed).dirty
            == old(viewshed).dirty,
        state == AiState::Follow && adjacent(*old(position), player_position) ==> r == Some(
            WantsToMelee { attacker: me, target: player },
        ) && *final(position) == *old(position) && final(viewshed).dirty == old(viewshed).dirty,
        state == AiState::Follow && !adjacent(*old(position), player_position) ==> r is None && match next_step(map, path) {
            Some(s) => map.idx(final(position).x as int, final(position).y as int) == s && map.in_bounds(
                final(position).x as int,
                final(position).y as int,
            ) && final(viewshed).dirty,
            None => *final(position) == *old(position) && final(viewshed).dirty == old(viewshed).dirty,
        },
        final(viewshed).visible_tiles@ == old(viewshed).visible_tiles@,
        final(viewshed).range == old(viewshed).range,
{
    if state == AiState::Idle {
        return None;
    }
    if is_adjacent(*position, player_position) {
        return Some(WantsToMelee { attacker: me, target: player });
    }
    if path.success && path.steps.len() > 1 && path.steps[1] < map.tiles.len() {
        let s = path.steps[1];
        let w = map.width as usize;
        proof {
            lemma_idx_split(w as int, map.height as int, s as int);
        }
        let x = (s % w) as i32;
        let y = (s / w) as i32;
        *position = Position { x, y };
        viewshed.dirty = true;
    }
    None
}

} // verus!
