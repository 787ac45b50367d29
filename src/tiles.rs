use vstd::prelude::*;
use crate::constants::{MAP_HEIGHT, MAP_WIDTH};

verus! {

/// One cell of the dungeon.
#[derive(Clone, Copy, Debug, PartialEq, Eq, Structural)]
pub struct Tile {
    pub blocked: bool,
    pub explored: bool,
    pub block_sight: bool,
}

/// A floor tile as a value.
pub open spec fn floor_tile() -> Tile {
    Tile { blocked: false, explored: false, block_sight: false }
}

/// A wall tile as a value.
pub open spec fn wall_tile() -> Tile {
    Tile { blocked: true, explored: false, block_sight: true }
}

impl Tile {
    /// A floor tile: blocks neither movement nor sight.
    pub fn empty() -> (t: Tile)
        ensures
            t == floor_tile(),
    {
        Tile { blocked: false, explored: false, block_sight: false }
    }

    /// A wall tile: blocks movement and sight.
    pub fn wall() -> (t: Tile)
        ensures
            t == wall_tile(),
    {
        Tile { blocked: true, explored: false, block_sight: true }
    }
}

/// Whether `(x, y)` lies on the map.
pub open spec fn in_bounds(x: int, y: int) -> bool {
    0 <= x < MAP_WIDTH && 0 <= y < MAP_HEIGHT
}

/// Position of `(x, y)` in the column-major tile vector.
pub open spec fn cell_index(x: int, y: int) -> int {
    x * 43 + y
}

pub proof fn lemma_cell_index(x: int, y: int)
    requires
        in_bounds(x, y),
    ensures
        0 <= cell_index(x, y) < 80 * 43,
        forall|x2: int, y2: int|
            in_bounds(x2, y2) && (x2 != x || y2 != y) ==> #[trigger] cell_index(x2, y2)
                != cell_index(x, y),
{
    assert forall|x2: int, y2: int|
        in_bounds(x2, y2) && (x2 != x || y2 != y) implies #[trigger] cell_index(x2, y2)
        != cell_index(x, y) by {
        if x2 == x {
        } else if x2 < x {
            assert(x2 * 43 + 43 <= x * 43) by (nonlinear_arith)
                requires
                    x2 < x,
            ;
        } else {
            assert(x * 43 + 43 <= x2 * 43) by (nonlinear_arith)
                requires
                    x < x2,
            ;
        }
    }
    assert(0 <= x * 43 + y < 80 * 43) by (nonlinear_arith)
        requires
            0 <= x < 80,
            0 <= y < 43,
    ;
}

/// The dungeon's tile grid, of `MAP_WIDTH` columns and `MAP_HEIGHT` rows.
pub struct DungeonMap {
    pub tiles: Vec<Tile>,
}

impl DungeonMap {
    pub open spec fn wf(&self) -> bool {
        self.tiles@.len() == MAP_WIDTH * MAP_HEIGHT
    }

    /// The tile at `(x, y)`.
    pub open spec fn at(&self, x: int, y: int) -> Tile {
        self.tiles@[cell_index(x, y)]
    }

    /// Whether `(x, y)` is on the map and its tile lets walkers through.
    pub open spec fn passable(&self, x: int, y: int) -> bool {
        in_bounds(x, y) && !self.at(x, y).blocked
    }

    /// A map made of walls only.
    pub fn filled_with_walls() -> (m: DungeonMap)
        ensures
            m.wf(),
            forall|x: int, y: int| in_bounds(x, y) ==> #[trigger] m.at(x, y) == wall_tile(),
    {
        let n: usize = (MAP_WIDTH as usize) * (MAP_HEIGHT as usize);
        let mut tiles: Vec<Tile> = Vec::new();
        let mut i: usize = 0;
        while i < n
            invariant
                n == 80 * 43,
                i <= n,
                tiles@.len() == i,
                forall|j: int| 0 <= j < i ==> #[trigger] tiles@[j] == wall_tile(),
            decreases n - i,
        {
            tiles.push(Tile::wall());
            i = i + 1;
        }
        let m = DungeonMap { tiles };
        assert forall|x: int, y: int| in_bounds(x, y) implies #[trigger] m.at(x, y)
            == wall_tile() by {
            lemma_cell_index(x, y);
        }
        m
    }

    /// The tile at `(x, y)`.
    pub fn tile(&self, x: i32, y: i32) -> (t: Tile)
        requires
            self.wf(),
            in_bounds(x as int, y as int),
        ensures
            t == self.at(x as int, y as int),
    {
        proof {
            lemma_cell_index(x as int, y as int);
        }
        self.tiles[(x as usize) * 43 + (y as usize)]
    }

    /// Replaces the tile at `(x, y)`; every other tile stays.
    pub fn set_tile(&mut self, x: i32, y: i32, t: Tile)
        requires
            old(self).wf(),
            in_bounds(x as int, y as int),
        ensures
            final(self).wf(),
            final(self).at(x as int, y as int) == t,
            forall|x2: int, y2: int|
                in_bounds(x2, y2) && (x2 != x || y2 != y) ==> #[trigger] final(self).at(x2, y2)
                    == old(self).at(x2, y2),
    {
        proof {
            lemma_cell_index(x as int, y as int);
        }
        self.tiles.set((x as usize) * 43 + (y as usize), t);
    }

    /// Whether `(x, y)` is on the map and not a blocking tile.
    pub fn is_passable(&self, x: i32, y: i32) -> (r: bool)
        requires
            self.wf(),
        ensures
            r == self.passable(x as int, y as int),
    {
        if 0 <= x && x < MAP_WIDTH && 0 <= y && y < MAP_HEIGHT {
            !self.tile(x, y).blocked
        } else {
            false
        }
    }
}

/// Which tiles the player currently sees, in the layout of `DungeonMap`.
/// It is computed outside the library whenever the player moves.
pub struct Visibility {
    pub cells: Vec<bool>,
}

impl Visibility {
    /// Whether `(x, y)` is on the map and seen.
    pub open spec fn visible(&self, x: int, y: int) -> bool {
        &&& self.cells@.len() == MAP_WIDTH * MAP_HEIGHT
        &&& in_bounds(x, y)
        &&& self.cells@[cell_index(x, y)]
    }

    /// Nothing seen.
    pub fn new() -> (v: Visibility)
        ensures
            forall|x: int, y: int| !#[trigger] v.visible(x, y),
    {
        Visibility { cells: Vec::new() }
    }

    /// Records whether `(x, y)` is seen; a grid of the wrong size is first
    /// replaced by one where nothing is seen.
    pub fn set_visible(&mut self, x: i32, y: i32, seen: bool)
        requires
            in_bounds(x as int, y as int),
        ensures
            final(self).visible(x as int, y as int) == seen,
            forall|x2: int, y2: int|
                (x2 != x || y2 != y) && #[trigger] old(self).visible(x2, y2) ==> final(self).visible(x2, y2),
            forall|x2: int, y2: int|
                (x2 != x || y2 != y) && #[trigger] final(self).visible(x2, y2) ==> old(self).visible(x2, y2),
    {
        let n: usize = (MAP_WIDTH as usize) * (MAP_HEIGHT as usize);
        if self.cells.len() != n {
            let mut cells: Vec<bool> = Vec::new();
            let mut i: usize = 0;
            while i < n
                invariant
                    n == 80 * 43,
                    i <= n,
                    cells@.len() == i,
                    forall|j: int| 0 <= j < i ==> !#[trigger] cells@[j],
                decreases n - i,
            {
                cells.push(false);
                i = i + 1;
            }
            self.cells = cells;
        }
        proof {
            lemma_cell_index(x as int, y as int);
        }
        self.cells.set((x as usize) * 43 + (y as usize), seen);
    }

    /// Whether `(x, y)` is on the map and seen.
    pub fn is_in_fov(&self, x: i32, y: i32) -> (r: bool)
        ensures
            r == self.visible(x as int, y as int),
    {
        if self.cells.len() == (MAP_WIDTH as usize) * (MAP_HEIGHT as usize) && 0 <= x && x
            < MAP_WIDTH && 0 <= y && y < MAP_HEIGHT {
            proof {
                lemma_cell_index(x as int, y as int);
            }
            self.cells[(x as usize) * 43 + (y as usize)]
        } else {
            false
        }
    }
}

} // verus!
