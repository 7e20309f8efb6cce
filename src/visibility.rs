//! Per-actor viewsheds and the map-wide visible and revealed bitmaps.

use vstd::prelude::*;
use crate::map::{push_if, GameMap, Position};

verus! {

/// What an actor currently sees; `dirty` asks for a recomputation.
#[derive(Debug)]
pub struct Viewshed {
    pub visible_tiles: Vec<Position>,
    pub range: i32,
    pub dirty: bool,
}

/// The points of `pts` that lie on the map, in order.
pub open spec fn clip(map: &GameMap, pts: Seq<Position>) -> Seq<Position>
    decreases pts.len(),
{
    if pts.len() == 0 {
        Seq::empty()
    } else {
        push_if(clip(map, pts.drop_last()), map.in_bounds(pts.last().x as int, pts.last().y as int), pts.last())
    }
}

/// Some point of `pts` is cell `i`.
pub open spec fn covers(map: &GameMap, pts: Seq<Position>, i: int) -> bool {
    exists|k: int| 0 <= k < pts.len() && map.idx(pts[k].x as int, pts[k].y as int) == i
}

pub open spec fn all_in_bounds(map: &GameMap, pts: Seq<Position>) -> bool {
    forall|k: int| 0 <= k < pts.len() ==> map.in_bounds((#[trigger] pts[k]).x as int, pts[k].y as int)
}

proof fn lemma_clip_in_bounds(map: &GameMap, pts: Seq<Position>)
    ensures
        all_in_bounds(map, clip(map, pts)),
    decreases pts.len(),
{
    if pts.len() > 0 {
        lemma_clip_in_bounds(map, pts.drop_last());
    }
}

impl Viewshed {
    pub fn new(range: i32) -> (r: Viewshed)
        ensures
            r.visible_tiles@.len() == 0,
            r.range == range,
            r.dirty,
    {
        Viewshed { visible_tiles: Vec::new(), range, dirty: true }
    }
}

/// Keeps the points of `field` that lie on the map.
fn clip_to_map(map: &GameMap, field: &Vec<Position>) -> (r: Vec<Position>)
    requires
        map.wf(),
    ensures
        r@ == clip(map, field@),
{
    let mut r: Vec<Position> = Vec::new();
    let mut k: usize = 0;
    while k < field.len()
        invariant
            map.wf(),
            k <= field.len(),
            r@ == clip(map, field@.subrange(0, k as int)),
        decreases field.len() - k,
    {
        let p = field[k];
        assert(field@.subrange(0, k as int + 1).drop_last() =~= field@.subrange(0, k as int));
        if p.x >= 0 && p.x < map.width && p.y >= 0 && p.y < map.height {
            r.push(p);
        }
        k = k + 1;
    }
    assert(field@.subrange(0, field.len() as int) =~= field@);
    r
}

/// Recomputes a dirty viewshed from `field`, the cells that the
/// field-of-view search found from the actor's position within its range:
/// only the cells on the map are kept, and the viewshed is clean again. For
/// the controlled actor the map's visible bitmap then becomes exactly those
/// cells, and each of them is revealed for good. A clean viewshed is left
/// alone.
pub fn update_viewshed(map: &mut GameMap, viewshed: &mut Viewshed, field: &Vec<Position>, is_player: bool)
    requires
        old(map).wf(),
    ensures
        final(map).wf(),
        final(map).width == old(map).width,
        final(map).height == old(map).height,
        final(map).tiles == old(map).tiles,
        final(map).blocked == old(map).blocked,
        final(map).tile_content == old(map).tile_content,
        final(map).rooms == old(map).rooms,
        final(viewshed).range == old(viewshed).range,
        forall|i: int| 0 <= i < old(map).cells() && #[trigger] old(map).revealed_tiles@[i] ==> final(map).revealed_tiles@[i],
        !old(viewshed).dirty ==> final(viewshed).visible_tiles@ == old(viewshed).visible_tiles@ && !final(viewshed).dirty,
        old(viewshed).dirty ==> final(viewshed).visible_tiles@ == clip(old(map), field@) && !final(viewshed).dirty,
        !(old(viewshed).dirty && is_player) ==> final(map).visible_tiles == old(map).visible_tiles
            && final(map).revealed_tiles == old(map).revealed_tiles,
        old(viewshed).dirty && is_player ==> forall|i: int|
            #![trigger final(map).visible_tiles@[i]]
            #![trigger final(map).revealed_tiles@[i]]
            0 <= i < final(map).cells() ==> (final(map).visible_tiles@[i] == covers(
                old(map),
                clip(old(map), field@),
                i,
            ) && final(map).revealed_tiles@[i] == (old(map).revealed_tiles@[i] || covers(
                old(map),
                clip(old(map), field@),
                i,
            ))),
{
    if !viewshed.dirty {
        return;
    }
    let pts = clip_to_map(map, field);
    proof {
        lemma_clip_in_bounds(map, field@);
    }
    if is_player {
        let n = map.visible_tiles.len();
        let mut i: usize = 0;
        while i < n
            invariant
                map.wf(),
                n == map.cells(),
                i <= n,
                map.width == old(map).width,
                map.height == old(map).height,
                map.tiles == old(map).tiles,
                map.blocked == old(map).blocked,
                map.tile_content == old(map).tile_content,
                map.rooms == old(map).rooms,
                map.revealed_tiles == old(map).revealed_tiles,
                forall|j: int| 0 <= j < i ==> !#[trigger] map.visible_tiles@[j],
                forall|j: int| i <= j < n ==> #[trigger] map.visible_tiles@[j] == old(map).visible_tiles@[j],
            decreases n - i,
        {
            map.visible_tiles[i] = false;
            i = i + 1;
        }
        let mut k: usize = 0;
        while k < pts.len()
            invariant
                map.wf(),
                k <= pts.len(),
                map.width == old(map).width,
                map.height == old(map).height,
                map.tiles == old(map).tiles,
                map.blocked == old(map).blocked,
                map.tile_content == old(map).tile_content,
                map.rooms == old(map).rooms,
                all_in_bounds(old(map), pts@),
                forall|j: int|
                    #![trigger map.visible_tiles@[j]]
                    #![trigger map.revealed_tiles@[j]]
                    0 <= j < map.cells() ==> (map.visible_tiles@[j] == covers(
                        old(map),
                        pts@.subrange(0, k as int),
                        j,
                    ) && map.revealed_tiles@[j] == (old(map).revealed_tiles@[j] || covers(
                        old(map),
                        pts@.subrange(0, k as int),
                        j,
                    ))),
            decreases pts.len() - k,
        {
            let p = pts[k];
            assert(map.in_bounds(p.x as int, p.y as int)) by {
                assert(pts@[k as int] == p);
            }
            let idx = map.xy_idx(p.x, p.y);
            map.revealed_tiles[idx] = true;
            map.visible_tiles[idx] = true;
            proof {
                let pre = pts@.subrange(0, k as int);
                let post = pts@.subrange(0, k as int + 1);
                assert forall|j: int| 0 <= j < map.cells() implies covers(old(map), post, j) == (covers(old(map), pre, j)
                    || j == idx as int) by {
                    if covers(old(map), pre, j) {
                        let w = choose|q: int| 0 <= q < pre.len() && old(map).idx(pre[q].x as int, pre[q].y as int) == j;
                        assert(post[w] == pre[w]);
                    }
                    if j == idx as int {
                        assert(post[k as int] == p);
                    }
                    if covers(old(map), post, j) {
                        let w = choose|q: int| 0 <= q < post.len() && old(map).idx(post[q].x as int, post[q].y as int) == j;
                        if w < k {
                            assert(pre[w] == post[w]);
                        }
                    }
                }
            }
            k = k + 1;
        }
        assert(pts@.subrange(0, pts.len() as int) =~= pts@);
    }
    viewshed.visible_tiles = pts;
    viewshed.dirty = false;
}

/// Whether `target` is among the cells the viewshed sees.
pub fn look_player(viewshed: &Viewshed, target: Position) -> (r: bool)
    ensures
        r == viewshed.visible_tiles@.contains(target),
{
    let mut k: usize = 0;
    while k < viewshed.visible_tiles.len()
        invariant
            k <= viewshed.visible_tiles.len(),
            forall|j: int| 0 <= j < k ==> viewshed.visible_tiles@[j] != target,
        decreases viewshed.visible_tiles.len() - k,
    {
        if viewshed.visible_tiles[k] == target {
            assert(viewshed.visible_tiles@[k as int] == target);
            return true;
        }
        k = k + 1;
    }
    false
}

} // verus!
