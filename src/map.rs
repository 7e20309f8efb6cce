//! The tile grid, its rooms and the per-cell indices derived from it.

use vstd::prelude::*;
use vstd::arithmetic::div_mod::{lemma_fundamental_div_mod, lemma_mod_pos_bound};

verus! {

/// A cell coordinate on the grid.
#[derive(PartialEq, Eq, Structural, Clone, Copy, Debug)]
pub struct Position {
    pub x: i32,
    pub y: i32,
}

/// What a cell of the grid is made of.
#[derive(PartialEq, Eq, Structural, Clone, Copy, Debug)]
pub enum TileType {
    Wall,
    Floor,
}

/// An axis-aligned rectangle; rooms are carved from these.
#[derive(PartialEq, Eq, Structural, Clone, Copy, Debug)]
pub struct Rect {
    pub x1: i32,
    pub x2: i32,
    pub y1: i32,
    pub y2: i32,
}

/// Integer halving that rounds toward zero, as Rust's `/` does.
pub open spec fn half_toward_zero(s: int) -> int {
    if s >= 0 {
        s / 2
    } else {
        -((-s) / 2)
    }
}

impl Rect {
    /// Closed-interval overlap: rectangles that share an edge overlap.
    pub open spec fn overlaps(self, other: Rect) -> bool {
        self.x1 <= other.x2 && self.x2 >= other.x1 && self.y1 <= other.y2 && self.y2 >= other.y1
    }

    pub open spec fn center_of(self) -> (int, int) {
        (half_toward_zero(self.x1 + self.x2), half_toward_zero(self.y1 + self.y2))
    }

    pub fn new(x: i32, y: i32, w: i32, h: i32) -> (r: Rect)
        requires
            i32::MIN <= x + w <= i32::MAX,
            i32::MIN <= y + h <= i32::MAX,
        ensures
            r.x1 == x,
            r.y1 == y,
            r.x2 == x + w,
            r.y2 == y + h,
    {
        Rect { x1: x, y1: y, x2: x + w, y2: y + h }
    }

    /// Returns true if this overlaps with `other`.
    pub fn intersect(&self, other: &Rect) -> (r: bool)
        ensures
            r == self.overlaps(*other),
    {
        self.x1 <= other.x2 && self.x2 >= other.x1 && self.y1 <= other.y2 && self.y2 >= other.y1
    }

    pub fn center(&self) -> (r: (i32, i32))
        ensures
            r.0 == self.center_of().0,
            r.1 == self.center_of().1,
    {
        (half_i32(self.x1, self.x2), half_i32(self.y1, self.y2))
    }
}

fn half_i32(a: i32, b: i32) -> (r: i32)
    ensures
        r == half_toward_zero(a + b),
{
    let s: i64 = a as i64 + b as i64;
    if s >= 0 {
        (s / 2) as i32
    } else {
        let n: i64 = -s;
        let q: i64 = -(n / 2);
        q as i32
    }
}


/// Cost of a step to a side neighbour, in hundredths of a step.
pub const CARDINAL_COST: u32 = 100;

/// Cost of a diagonal step, in hundredths of a step.
pub const DIAGONAL_COST: u32 = 145;

/// The largest number of cells a map may hold.
pub const MAX_CELLS: i32 = 0x7fff_ffff;

/// A creature that may occupy a cell, as the occupancy index sees it.
#[derive(Clone, Copy, Debug)]
pub struct Occupant {
    pub position: Position,
    pub entity: usize,
    pub blocks_tile: bool,
}

/// The tile grid plus its derived indices. Every per-cell vector is indexed
/// by `y * width + x`.
#[derive(Debug)]
pub struct GameMap {
    pub width: i32,
    pub height: i32,
    pub tiles: Vec<TileType>,
    pub revealed_tiles: Vec<bool>,
    pub rooms: Vec<Rect>,
    pub visible_tiles: Vec<bool>,
    pub blocked: Vec<bool>,
    pub tile_content: Vec<Vec<usize>>,
}

pub proof fn lemma_idx_in_range(w: int, h: int, x: int, y: int)
    requires
        0 <= x < w,
        0 <= y < h,
    ensures
        0 <= y * w + x < w * h,
{
    assert(0 <= y * w) by (nonlinear_arith)
        requires
            0 <= y,
            0 <= w,
    ;
    assert((y + 1) * w <= h * w) by (nonlinear_arith)
        requires
            y + 1 <= h,
            0 <= w,
    ;
    assert((y + 1) * w == y * w + w) by (nonlinear_arith);
    assert(h * w == w * h) by (nonlinear_arith);
}

pub proof fn lemma_idx_injective(w: int, x1: int, y1: int, x2: int, y2: int)
    requires
        0 <= x1 < w,
        0 <= x2 < w,
        y1 * w + x1 == y2 * w + x2,
    ensures
        x1 == x2,
        y1 == y2,
{
    assert((y1 - y2) * w == x2 - x1) by (nonlinear_arith)
        requires
            y1 * w + x1 == y2 * w + x2,
    ;
    if y1 > y2 {
        assert((y1 - y2) * w >= w) by (nonlinear_arith)
            requires
                y1 - y2 >= 1,
                w > 0,
        ;
    } else if y1 < y2 {
        assert((y2 - y1) * w >= w) by (nonlinear_arith)
            requires
                y2 - y1 >= 1,
                w > 0,
        ;
        assert((y2 - y1) * w == -((y1 - y2) * w)) by (nonlinear_arith);
    }
}

/// Splits a cell index into its column `i % w` and row `i / w`.
pub proof fn lemma_idx_split(w: int, h: int, i: int)
    requires
        0 < w,
        0 <= i < w * h,
    ensures
        0 <= i % w < w,
        0 <= i / w < h,
        i == (i / w) * w + i % w,
{
    lemma_fundamental_div_mod(i, w);
    lemma_mod_pos_bound(i, w);
    assert(w * (i / w) == (i / w) * w) by (nonlinear_arith);
    if i / w < 0 {
        assert((i / w) * w <= -w) by (nonlinear_arith)
            requires
                i / w <= -1,
                w > 0,
        ;
    }
    if i / w >= h {
        assert((i / w) * w >= h * w) by (nonlinear_arith)
            requires
                i / w >= h,
                w > 0,
        ;
        assert(h * w == w * h) by (nonlinear_arith);
    }
}

/// Appends `e` to `s` when `c` holds.
pub open spec fn push_if<A>(s: Seq<A>, c: bool, e: A) -> Seq<A> {
    if c {
        s.push(e)
    } else {
        s
    }
}

impl GameMap {
    pub open spec fn cells(&self) -> int {
        self.width * self.height
    }

    pub open spec fn in_bounds(&self, x: int, y: int) -> bool {
        0 <= x < self.width && 0 <= y < self.height
    }

    pub open spec fn idx(&self, x: int, y: int) -> int {
        y * self.width + x
    }

    pub open spec fn tile_at(&self, x: int, y: int) -> TileType {
        self.tiles@[self.idx(x, y)]
    }

    /// Every per-cell vector covers the grid, and a visible cell is revealed.
    pub open spec fn wf(&self) -> bool {
        &&& 0 < self.width
        &&& 0 < self.height
        &&& self.cells() <= MAX_CELLS
        &&& self.tiles.len() == self.cells()
        &&& self.revealed_tiles.len() == self.cells()
        &&& self.visible_tiles.len() == self.cells()
        &&& self.blocked.len() == self.cells()
        &&& self.tile_content.len() == self.cells()
        &&& forall|i: int|
            0 <= i < self.cells() && #[trigger] self.visible_tiles@[i] ==> self.revealed_tiles@[i]
    }

    /// The entities of `occ`, in order, that block movement on cell `i`.
    pub open spec fn occupants_at(&self, occ: Seq<Occupant>, i: int) -> Seq<usize>
        decreases occ.len(),
    {
        if occ.len() == 0 {
            Seq::empty()
        } else {
            let a = occ.last();
            push_if(
                self.occupants_at(occ.drop_last(), i),
                a.blocks_tile && self.idx(a.position.x as int, a.position.y as int) == i,
                a.entity,
            )
        }
    }

    /// A step onto `(x, y)` is possible: inside the outer wall ring's inner
    /// edge and not blocked.
    pub open spec fn exit_valid(&self, x: int, y: int) -> bool {
        1 <= x < self.width && 1 <= y < self.height && !self.blocked@[self.idx(x, y)]
    }

    pub open spec fn cardinal_exit(&self, s: Seq<(usize, u32)>, x: int, y: int, dx: int, dy: int) -> Seq<(usize, u32)> {
        push_if(s, self.exit_valid(x + dx, y + dy), (self.idx(x + dx, y + dy) as usize, CARDINAL_COST))
    }

    /// A diagonal step also needs both cells that flank it to be open.
    pub open spec fn diagonal_exit(&self, s: Seq<(usize, u32)>, x: int, y: int, dx: int, dy: int) -> Seq<(usize, u32)> {
        push_if(
            s,
            self.exit_valid(x + dx, y + dy) && self.exit_valid(x + dx, y) && self.exit_valid(x, y + dy),
            (self.idx(x + dx, y + dy) as usize, DIAGONAL_COST),
        )
    }

    /// The neighbours of cell `i` reachable in one step, with their costs:
    /// west, east, north, south, then the four diagonals.
    pub open spec fn exits_of(&self, i: int) -> Seq<(usize, u32)> {
        let x = i % (self.width as int);
        let y = i / (self.width as int);
        let s0 = Seq::empty();
        let s1 = self.cardinal_exit(s0, x, y, -1, 0);
        let s2 = self.cardinal_exit(s1, x, y, 1, 0);
        let s3 = self.cardinal_exit(s2, x, y, 0, -1);
        let s4 = self.cardinal_exit(s3, x, y, 0, 1);
        let s5 = self.diagonal_exit(s4, x, y, -1, -1);
        let s6 = self.diagonal_exit(s5, x, y, 1, -1);
        let s7 = self.diagonal_exit(s6, x, y, -1, 1);
        self.diagonal_exit(s7, x, y, 1, 1)
    }

    /// An all-wall map with every index empty and nothing seen yet.
    pub fn new(width: i32, height: i32) -> (r: GameMap)
        requires
            0 < width,
            0 < height,
            width * height <= MAX_CELLS,
        ensures
            r.wf(),
            r.width == width,
            r.height == height,
            r.rooms@.len() == 0,
            forall|i: int| 0 <= i < r.cells() ==> #[trigger] r.tiles@[i] == TileType::Wall,
            forall|i: int| 0 <= i < r.cells() ==> !#[trigger] r.revealed_tiles@[i],
            forall|i: int| 0 <= i < r.cells() ==> !#[trigger] r.visible_tiles@[i],
            forall|i: int| 0 <= i < r.cells() ==> !#[trigger] r.blocked@[i],
            forall|i: int| 0 <= i < r.cells() ==> (#[trigger] r.tile_content@[i])@.len() == 0,
    {
        let n: usize = (width as usize) * (height as usize);
        let mut tiles: Vec<TileType> = Vec::new();
        let mut revealed_tiles: Vec<bool> = Vec::new();
        let mut visible_tiles: Vec<bool> = Vec::new();
        let mut blocked: Vec<bool> = Vec::new();
        let mut tile_content: Vec<Vec<usize>> = Vec::new();
        let mut i: usize = 0;
        while i < n
            invariant
                n == width * height,
                i <= n,
                tiles.len() == i,
                revealed_tiles.len() == i,
                visible_tiles.len() == i,
                blocked.len() == i,
                tile_content.len() == i,
                forall|k: int| 0 <= k < i ==> #[trigger] tiles@[k] == TileType::Wall,
                forall|k: int| 0 <= k < i ==> !#[trigger] revealed_tiles@[k],
                forall|k: int| 0 <= k < i ==> !#[trigger] visible_tiles@[k],
                forall|k: int| 0 <= k < i ==> !#[trigger] blocked@[k],
                forall|k: int| 0 <= k < i ==> (#[trigger] tile_content@[k])@.len() == 0,
            decreases n - i,
        {
            tiles.push(TileType::Wall);
            revealed_tiles.push(false);
            visible_tiles.push(false);
            blocked.push(false);
            tile_content.push(Vec::new());
            i = i + 1;
        }
        GameMap {
            width,
            height,
            tiles,
            revealed_tiles,
            rooms: Vec::new(),
            visible_tiles,
            blocked,
            tile_content,
        }
    }

    pub fn xy_idx(&self, x: i32, y: i32) -> (r: usize)
        requires
            self.wf(),
            self.in_bounds(x as int, y as int),
        ensures
            r as int == self.idx(x as int, y as int),
            r < self.cells(),
    {
        proof {
            lemma_idx_in_range(self.width as int, self.height as int, x as int, y as int);
        }
        (y as usize) * (self.width as usize) + x as usize
    }

    pub fn is_opaque(&self, idx: usize) -> (r: bool)
        requires
            self.wf(),
            idx < self.cells(),
        ensures
            r == (self.tiles@[idx as int] == TileType::Wall),
    {
        self.tiles[idx] == TileType::Wall
    }

    /// Empties every occupant list.
    pub fn clear_content_index(&mut self)
        requires
            old(self).wf(),
        ensures
            final(self).wf(),
            forall|i: int| 0 <= i < final(self).cells() ==> (#[trigger] final(self).tile_content@[i])@.len() == 0,
            final(self).width == old(self).width,
            final(self).height == old(self).height,
            final(self).tiles == old(self).tiles,
            final(self).revealed_tiles == old(self).revealed_tiles,
            final(self).visible_tiles == old(self).visible_tiles,
            final(self).blocked == old(self).blocked,
            final(self).rooms == old(self).rooms,
    {
        let n: usize = self.tile_content.len();
        let mut i: usize = 0;
        while i < n
            invariant
                self.wf(),
                n == self.cells(),
                i <= n,
                self.width == old(self).width,
                self.height == old(self).height,
                self.tiles == old(self).tiles,
                self.revealed_tiles == old(self).revealed_tiles,
                self.visible_tiles == old(self).visible_tiles,
                self.blocked == old(self).blocked,
                self.rooms == old(self).rooms,
                forall|k: int| 0 <= k < i ==> (#[trigger] self.tile_content@[k])@.len() == 0,
            decreases n - i,
        {
            self.tile_content[i] = Vec::new();
            i = i + 1;
        }
    }

    /// Marks exactly the wall cells as blocked.
    pub fn populate_blocked(&mut self)
        requires
            old(self).wf(),
        ensures
            final(self).wf(),
            forall|i: int|
                0 <= i < final(self).cells() ==> #[trigger] final(self).blocked@[i] == (final(self).tiles@[i] == TileType::Wall),
            final(self).width == old(self).width,
            final(self).height == old(self).height,
            final(self).tiles == old(self).tiles,
            final(self).revealed_tiles == old(self).revealed_tiles,
            final(self).visible_tiles == old(self).visible_tiles,
            final(self).tile_content == old(self).tile_content,
            final(self).rooms == old(self).rooms,
    {
        let n: usize = self.tiles.len();
        let mut i: usize = 0;
        while i < n
            invariant
                self.wf(),
                n == self.cells(),
                i <= n,
                self.width == old(self).width,
                self.height == old(self).height,
                self.tiles == old(self).tiles,
                self.revealed_tiles == old(self).revealed_tiles,
                self.visible_tiles == old(self).visible_tiles,
                self.tile_content == old(self).tile_content,
                self.rooms == old(self).rooms,
                forall|k: int| 0 <= k < i ==> #[trigger] self.blocked@[k] == (self.tiles@[k] == TileType::Wall),
            decreases n - i,
        {
            let wall = self.tiles[i] == TileType::Wall;
            self.blocked[i] = wall;
            i = i + 1;
        }
    }

    /// A carved room's inside: its border line on the low sides stays wall.
    pub open spec fn in_interior(room: Rect, x: int, y: int) -> bool {
        room.x1 < x <= room.x2 && room.y1 < y <= room.y2
    }

    /// The frame shared by the carving operations: only `tiles` changes.
    pub open spec fn same_but_tiles(&self, other: &GameMap) -> bool {
        &&& self.width == other.width
        &&& self.height == other.height
        &&& self.tiles.len() == other.tiles.len()
        &&& self.revealed_tiles == other.revealed_tiles
        &&& self.visible_tiles == other.visible_tiles
        &&& self.blocked == other.blocked
        &&& self.tile_content == other.tile_content
        &&& self.rooms == other.rooms
    }

    /// Turns the single cell `(x, y)` into floor.
    pub fn set_floor(&mut self, x: i32, y: i32)
        requires
            old(self).wf(),
            old(self).in_bounds(x as int, y as int),
        ensures
            final(self).wf(),
            final(self).same_but_tiles(old(self)),
            forall|a: int, b: int|
                final(self).in_bounds(a, b) ==> #[trigger] final(self).tile_at(a, b) == if a == x && b == y {
                    TileType::Floor
                } else {
                    old(self).tile_at(a, b)
                },
    {
        let i = self.xy_idx(x, y);
        self.tiles[i] = TileType::Floor;
        proof {
            assert forall|a: int, b: int| self.in_bounds(a, b) implies #[trigger] self.tile_at(a, b) == if a == x && b == y {
                TileType::Floor
            } else {
                old(self).tile_at(a, b)
            } by {
                lemma_idx_in_range(self.width as int, self.height as int, a, b);
                if self.idx(a, b) == i as int {
                    lemma_idx_injective(self.width as int, a, b, x as int, y as int);
                }
            }
        }
    }

    /// Carves the inside of `room` to floor.
    pub fn apply_room_to_map(&mut self, room: &Rect)
        requires
            old(self).wf(),
            0 <= room.x1 <= room.x2 < old(self).width,
            0 <= room.y1 <= room.y2 < old(self).height,
        ensures
            final(self).wf(),
            final(self).same_but_tiles(old(self)),
            forall|a: int, b: int|
                final(self).in_bounds(a, b) ==> #[trigger] final(self).tile_at(a, b) == if Self::in_interior(*room, a, b) {
                    TileType::Floor
                } else {
                    old(self).tile_at(a, b)
                },
    {
        let mut y: i32 = room.y1 + 1;
        while y <= room.y2
            invariant
                self.wf(),
                self.same_but_tiles(old(self)),
                0 <= room.x1 <= room.x2 < self.width,
                0 <= room.y1 <= room.y2 < self.height,
                room.y1 + 1 <= y <= room.y2 + 1,
                forall|a: int, b: int|
                    self.in_bounds(a, b) ==> #[trigger] self.tile_at(a, b) == if Self::in_interior(*room, a, b) && b < y {
                        TileType::Floor
                    } else {
                        old(self).tile_at(a, b)
                    },
            decreases room.y2 + 1 - y,
        {
            let mut x: i32 = room.x1 + 1;
            while x <= room.x2
                invariant
                    self.wf(),
                    self.same_but_tiles(old(self)),
                    0 <= room.x1 <= room.x2 < self.width,
                    0 <= room.y1 <= room.y2 < self.height,
                    room.y1 + 1 <= y <= room.y2,
                    room.x1 + 1 <= x <= room.x2 + 1,
                    forall|a: int, b: int|
                        self.in_bounds(a, b) ==> #[trigger] self.tile_at(a, b) == if Self::in_interior(*room, a, b) && (b < y
                            || (b == y && a < x)) {
                            TileType::Floor
                        } else {
                            old(self).tile_at(a, b)
                        },
                decreases room.x2 + 1 - x,
            {
                self.set_floor(x, y);
                x = x + 1;
            }
            y = y + 1;
        }
    }

    /// Carves a one-tile-wide horizontal corridor on row `y`, from `x1` to
    /// `x2` inclusive, clipped to the map.
    pub fn apply_horizontal_tunnel(&mut self, x1: i32, x2: i32, y: i32)
        requires
            old(self).wf(),
        ensures
            final(self).wf(),
            final(self).same_but_tiles(old(self)),
            forall|a: int, b: int|
                final(self).in_bounds(a, b) ==> #[trigger] final(self).tile_at(a, b) == if b == y && (x1 <= a <= x2
                    || x2 <= a <= x1) {
                    TileType::Floor
                } else {
                    old(self).tile_at(a, b)
                },
    {
        let lo: i32 = if x1 < x2 { x1 } else { x2 };
        let hi: i32 = if x1 < x2 { x2 } else { x1 };
        let mut x: i64 = lo as i64;
        while x <= hi as i64
            invariant
                self.wf(),
                self.same_but_tiles(old(self)),
                lo == if x1 < x2 { x1 } else { x2 },
                hi == if x1 < x2 { x2 } else { x1 },
                lo <= x <= hi + 1,
                forall|a: int, b: int|
                    self.in_bounds(a, b) ==> #[trigger] self.tile_at(a, b) == if b == y && lo <= a < x {
                        TileType::Floor
                    } else {
                        old(self).tile_at(a, b)
                    },
            decreases hi + 1 - x,
        {
            if 0 <= x && x < self.width as i64 && 0 <= y && y < self.height {
                self.set_floor(x as i32, y);
            }
            x = x + 1;
        }
    }

    /// Carves a one-tile-wide vertical corridor in column `x`, from `y1` to
    /// `y2` inclusive, clipped to the map.
    pub fn apply_vertical_tunnel(&mut self, y1: i32, y2: i32, x: i32)
        requires
            old(self).wf(),
        ensures
            final(self).wf(),
            final(self).same_but_tiles(old(self)),
            forall|a: int, b: int|
                final(self).in_bounds(a, b) ==> #[trigger] final(self).tile_at(a, b) == if a == x && (y1 <= b <= y2
                    || y2 <= b <= y1) {
                    TileType::Floor
                } else {
                    old(self).tile_at(a, b)
                },
    {
        let lo: i32 = if y1 < y2 { y1 } else { y2 };
        let hi: i32 = if y1 < y2 { y2 } else { y1 };
        let mut y: i64 = lo as i64;
        while y <= hi as i64
            invariant
                self.wf(),
                self.same_but_tiles(old(self)),
                lo == if y1 < y2 { y1 } else { y2 },
                hi == if y1 < y2 { y2 } else { y1 },
                lo <= y <= hi + 1,
                forall|a: int, b: int|
                    self.in_bounds(a, b) ==> #[trigger] self.tile_at(a, b) == if a == x && lo <= b < y {
                        TileType::Floor
                    } else {
                        old(self).tile_at(a, b)
                    },
            decreases hi + 1 - y,
        {
            if 0 <= x && x < self.width && 0 <= y && y < self.height as i64 {
                self.set_floor(x, y as i32);
            }
            y = y + 1;
        }
    }

    pub fn is_exit_valid(&self, x: i64, y: i64) -> (r: bool)
        requires
            self.wf(),
        ensures
            r == self.exit_valid(x as int, y as int),
    {
        if x < 1 || x >= self.width as i64 || y < 1 || y >= self.height as i64 {
            return false;
        }
        let idx = self.xy_idx(x as i32, y as i32);
        !self.blocked[idx]
    }

    /// The cells reachable in one step from `idx`, with their costs.
    pub fn get_available_exits(&self, idx: usize) -> (r: Vec<(usize, u32)>)
        requires
            self.wf(),
            idx < self.cells(),
        ensures
            r@ == self.exits_of(idx as int),
    {
        let w: i64 = self.width as i64;
        proof {
            lemma_idx_split(w as int, self.height as int, idx as int);
        }
        let x: i64 = idx as i64 % w;
        let y: i64 = idx as i64 / w;
        let mut exits: Vec<(usize, u32)> = Vec::new();
        let dirs: [(i64, i64); 4] = [(-1, 0), (1, 0), (0, -1), (0, 1)];
        let mut k: usize = 0;
        while k < 4
            invariant
                self.wf(),
                x == idx as int % (w as int),
                y == idx as int / (w as int),
                w == self.width,
                0 <= x < w,
                0 <= y < self.height,
                k <= 4,
                dirs@ == seq![(-1i64, 0i64), (1i64, 0i64), (0i64, -1i64), (0i64, 1i64)],
                k == 0 ==> exits@ == Seq::<(usize, u32)>::empty(),
                k == 1 ==> exits@ == self.cardinal_exit(Seq::empty(), x as int, y as int, -1, 0),
                k == 2 ==> exits@ == self.cardinal_exit(self.cardinal_exit(Seq::empty(), x as int, y as int, -1, 0), x as int, y as int, 1, 0),
                k == 3 ==> exits@ == self.cardinal_exit(self.cardinal_exit(self.cardinal_exit(Seq::empty(), x as int, y as int, -1, 0), x as int, y as int, 1, 0), x as int, y as int, 0, -1),
                k == 4 ==> exits@ == self.cardinal_exit(self.cardinal_exit(self.cardinal_exit(self.cardinal_exit(Seq::empty(), x as int, y as int, -1, 0), x as int, y as int, 1, 0), x as int, y as int, 0, -1), x as int, y as int, 0, 1),
            decreases 4 - k,
        {
            let (dx, dy) = dirs[k];
            if self.is_exit_valid(x + dx, y + dy) {
                let to = self.xy_idx((x + dx) as i32, (y + dy) as i32);
                exits.push((to, CARDINAL_COST));
            }
            k = k + 1;
        }
        let diags: [(i64, i64); 4] = [(-1, -1), (1, -1), (-1, 1), (1, 1)];
        let ghost s4 = exits@;
        let mut k: usize = 0;
        while k < 4
            invariant
                self.wf(),
                w == self.width,
                0 <= x < w,
                0 <= y < self.height,
                k <= 4,
                diags@ == seq![(-1i64, -1i64), (1i64, -1i64), (-1i64, 1i64), (1i64, 1i64)],
                k == 0 ==> exits@ == s4,
                k == 1 ==> exits@ == self.diagonal_exit(s4, x as int, y as int, -1, -1),
                k == 2 ==> exits@ == self.diagonal_exit(self.diagonal_exit(s4, x as int, y as int, -1, -1), x as int, y as int, 1, -1),
                k == 3 ==> exits@ == self.diagonal_exit(self.diagonal_exit(self.diagonal_exit(s4, x as int, y as int, -1, -1), x as int, y as int, 1, -1), x as int, y as int, -1, 1),
                k == 4 ==> exits@ == self.diagonal_exit(self.diagonal_exit(self.diagonal_exit(self.diagonal_exit(s4, x as int, y as int, -1, -1), x as int, y as int, 1, -1), x as int, y as int, -1, 1), x as int, y as int, 1, 1),
            decreases 4 - k,
        {
            let (dx, dy) = diags[k];
            if self.is_exit_valid(x + dx, y + dy) && self.is_exit_valid(x + dx, y) && self.is_exit_valid(x, y + dy) {
                let to = self.xy_idx((x + dx) as i32, (y + dy) as i32);
                exits.push((to, DIAGONAL_COST));
            }
            k = k + 1;
        }
        exits
    }
}

/// Rebuilds the blocked bitmap and the occupant lists from scratch: walls
/// block, and so does every cell holding a blocking occupant, which is
/// listed there in the order given.
pub fn map_index(map: &mut GameMap, occupants: &Vec<Occupant>)
    requires
        old(map).wf(),
        forall|k: int|
            0 <= k < occupants.len() ==> old(map).in_bounds(
                (#[trigger] occupants@[k]).position.x as int,
                occupants@[k].position.y as int,
            ),
    ensures
        final(map).wf(),
        forall|i: int|
            0 <= i < final(map).cells() ==> (#[trigger] final(map).tile_content@[i])@ == old(map).occupants_at(occupants@, i),
        forall|i: int|
            0 <= i < final(map).cells() ==> #[trigger] final(map).blocked@[i] == (old(map).tiles@[i] == TileType::Wall
                || old(map).occupants_at(occupants@, i).len() > 0),
        final(map).width == old(map).width,
        final(map).height == old(map).height,
        final(map).tiles == old(map).tiles,
        final(map).revealed_tiles == old(map).revealed_tiles,
        final(map).visible_tiles == old(map).visible_tiles,
        final(map).rooms == old(map).rooms,
{
    map.populate_blocked();
    map.clear_content_index();
    let n: usize = occupants.len();
    let mut k: usize = 0;
    while k < n
        invariant
            map.wf(),
            n == occupants.len(),
            k <= n,
            map.width == old(map).width,
            map.height == old(map).height,
            map.tiles == old(map).tiles,
            map.revealed_tiles == old(map).revealed_tiles,
            map.visible_tiles == old(map).visible_tiles,
            map.rooms == old(map).rooms,
            forall|j: int|
                0 <= j < occupants.len() ==> old(map).in_bounds(
                    (#[trigger] occupants@[j]).position.x as int,
                    occupants@[j].position.y as int,
                ),
            forall|i: int|
                0 <= i < map.cells() ==> (#[trigger] map.tile_content@[i])@ == old(map).occupants_at(occupants@.subrange(0, k as int), i),
            forall|i: int|
                0 <= i < map.cells() ==> #[trigger] map.blocked@[i] == (old(map).tiles@[i] == TileType::Wall
                    || old(map).occupants_at(occupants@.subrange(0, k as int), i).len() > 0),
        decreases n - k,
    {
        let o = occupants[k];
        let ghost pre = occupants@.subrange(0, k as int);
        let ghost post = occupants@.subrange(0, k as int + 1);
        assert(post.drop_last() =~= pre);
        assert(post.last() == o);
        if o.blocks_tile {
            let idx = map.xy_idx(o.position.x, o.position.y);
            map.blocked[idx] = true;
            map.tile_content[idx].push(o.entity);
        }
        proof {
            assert forall|i: int| 0 <= i < map.cells() implies (#[trigger] map.tile_content@[i])@ == old(map).occupants_at(post, i) by {
            }
        }
        k = k + 1;
    }
    assert(occupants@.subrange(0, n as int) =~= occupants@);
}

} // verus!
