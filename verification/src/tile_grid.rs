//! The tile map: a grid of tiles, the rooms placed on it, and two layers that
//! record which cells have been seen and which are in view.

use vstd::prelude::*;
use crate::grid::{
    cell_index, column_of, in_grid, lemma_index_in_range, lemma_index_injective, lemma_index_onto,
    row_of,
};
use crate::rect::Rect;

verus! {

/// What a cell of the map holds.
#[derive(Clone, Copy, Debug, PartialEq, Eq, Structural)]
pub enum TileType {
    Wall,
    Floor,
    Door,
}

/// A grid of tiles with the rooms placed on it and its two visibility layers.
pub struct TileGrid {
    pub tiles: Vec<TileType>,
    pub rooms: Vec<Rect>,
    pub width: i32,
    pub height: i32,
    pub revealed_tiles: Vec<bool>,
    pub visible_tiles: Vec<bool>,
}

impl TileGrid {
    /// The three layers have one entry per cell of a grid with at least one
    /// row and one column, and every cell in view has been revealed.
    pub open spec fn wf(&self) -> bool {
        &&& self.width >= 1
        &&& self.height >= 1
        &&& self.tiles@.len() == self.width * self.height
        &&& self.revealed_tiles@.len() == self.width * self.height
        &&& self.visible_tiles@.len() == self.width * self.height
        &&& forall|i: int|
            0 <= i < self.visible_tiles@.len() && #[trigger] self.visible_tiles@[i]
                ==> self.revealed_tiles@[i]
    }

    /// The cell `(x, y)` lies on the map.
    pub open spec fn has(&self, x: int, y: int) -> bool {
        in_grid(self.width as int, self.height as int, x, y)
    }

    /// The position of cell `(x, y)` in each of the three layers.
    pub open spec fn index_of(&self, x: int, y: int) -> int {
        cell_index(self.width as int, x, y)
    }

    /// The tile in cell `(x, y)`.
    pub open spec fn tile_at(&self, x: int, y: int) -> TileType {
        self.tiles@[self.index_of(x, y)]
    }

    /// The cell `(x, y)` is in view.
    pub open spec fn visible_at(&self, x: int, y: int) -> bool {
        self.visible_tiles@[self.index_of(x, y)]
    }

    /// The cell `(x, y)` has been seen at some time.
    pub open spec fn revealed_at(&self, x: int, y: int) -> bool {
        self.revealed_tiles@[self.index_of(x, y)]
    }

    /// Two maps have the same size, rooms and visibility layers; their tiles
    /// may differ.
    pub open spec fn same_but_tiles(&self, other: &TileGrid) -> bool {
        &&& self.width == other.width
        &&& self.height == other.height
        &&& self.rooms@ == other.rooms@
        &&& self.revealed_tiles@ == other.revealed_tiles@
        &&& self.visible_tiles@ == other.visible_tiles@
        &&& self.tiles@.len() == other.tiles@.len()
    }

    /// A map of `width` columns and `height` rows in which every cell holds
    /// `tile`, nothing has been seen, and no room is placed.
    pub fn new(width: usize, height: usize, tile: TileType) -> (map: TileGrid)
        requires
            1 <= width <= i32::MAX,
            1 <= height <= i32::MAX,
            width * height <= usize::MAX,
        ensures
            map.wf(),
            map.width == width,
            map.height == height,
            map.rooms@.len() == 0,
            forall|i: int| 0 <= i < width * height ==> map.tiles@[i] == tile,
            forall|i: int| 0 <= i < width * height ==> !map.revealed_tiles@[i],
            forall|i: int| 0 <= i < width * height ==> !map.visible_tiles@[i],
    {
        let cells = width * height;
        TileGrid {
            tiles: vec![tile; cells],
            rooms: Vec::new(),
            width: width as i32,
            height: height as i32,
            revealed_tiles: vec![false; cells],
            visible_tiles: vec![false; cells],
        }
    }

    /// The position of cell `(x, y)` in the layers of the map.
    pub fn xy_idx(&self, x: i32, y: i32) -> (idx: usize)
        requires
            self.wf(),
            self.has(x as int, y as int),
        ensures
            idx == self.index_of(x as int, y as int),
            idx < self.tiles@.len(),
    {
        let w = self.width as usize;
        let row = y as usize;
        let col = x as usize;
        proof {
            lemma_index_in_range(self.width as int, self.height as int, x as int, y as int);
            assert(row * w == y * self.width && 0 <= row * w) by (nonlinear_arith)
                requires
                    row == y,
                    w == self.width,
                    0 <= row,
                    0 <= w,
            ;
            assert(self.index_of(x as int, y as int) == y * self.width + x);
            assert(self.tiles.len() == self.tiles@.len());
        }
        row * w + col
    }

    /// Whether the cell `(x, y)` lies on the map.
    pub fn in_bounds(&self, x: i32, y: i32) -> (b: bool)
        ensures
            b == self.has(x as int, y as int),
    {
        x < self.width && y < self.height && x >= 0 && y >= 0
    }

    /// The width and the height of the map.
    pub fn dimensions(&self) -> (d: (i32, i32))
        ensures
            d.0 == self.width,
            d.1 == self.height,
    {
        (self.width, self.height)
    }

    /// Whether the cell at position `idx` blocks the line of sight: walls do,
    /// floors and doors do not.
    pub fn is_opaque(&self, idx: usize) -> (b: bool)
        requires
            idx < self.tiles@.len(),
        ensures
            b == (self.tiles@[idx as int] == TileType::Wall),
    {
        self.tiles[idx] == TileType::Wall
    }

    /// Puts `tile` in cell `(x, y)` and leaves every other cell as it was.
    pub fn set_tile(&mut self, x: i32, y: i32, tile: TileType)
        requires
            old(self).wf(),
            old(self).has(x as int, y as int),
        ensures
            final(self).wf(),
            final(self).same_but_tiles(old(self)),
            forall|cx: int, cy: int|
                old(self).has(cx, cy) ==> #[trigger] final(self).tile_at(cx, cy) == if cx == x && cy
                    == y {
                    tile
                } else {
                    old(self).tile_at(cx, cy)
                },
    {
        let idx = self.xy_idx(x, y);
        self.tiles.set(idx, tile);
        proof {
            assert forall|cx: int, cy: int| old(self).has(cx, cy) implies #[trigger] self.tile_at(
                cx,
                cy,
            ) == if cx == x && cy == y {
                tile
            } else {
                old(self).tile_at(cx, cy)
            } by {
                lemma_index_in_range(self.width as int, self.height as int, cx, cy);
                if self.index_of(cx, cy) == idx {
                    lemma_index_injective(self.width as int, cx, cy, x as int, y as int);
                }
            }
        }
    }

    /// Sets every cell of the map inside the box `[x1, x2] x [y1, y2]` to
    /// `tile`; the part of the box that lies off the map is ignored.
    pub fn fill(&mut self, x1: i32, y1: i32, x2: i32, y2: i32, tile: TileType)
        requires
            old(self).wf(),
        ensures
            final(self).wf(),
            final(self).same_but_tiles(old(self)),
            forall|x: int, y: int|
                old(self).has(x, y) ==> #[trigger] final(self).tile_at(x, y) == if x1 <= x <= x2
                    && y1 <= y <= y2 {
                    tile
                } else {
                    old(self).tile_at(x, y)
                },
    {
        let lx = if x1 < 0 { 0 } else { x1 };
        let ly = if y1 < 0 { 0 } else { y1 };
        let hx = if x2 > self.width - 1 { self.width - 1 } else { x2 };
        let hy = if y2 > self.height - 1 { self.height - 1 } else { y2 };
        let mut y = ly;
        while y <= hy
            invariant
                self.wf(),
                self.same_but_tiles(old(self)),
                0 <= lx,
                hx < self.width,
                0 <= ly <= y,
                hy < self.height,
                lx == if x1 < 0 { 0 } else { x1 },
                hx == if x2 > self.width - 1 { self.width - 1 } else { x2 as int },
                ly == if y1 < 0 { 0 } else { y1 },
                hy == if y2 > self.height - 1 { self.height - 1 } else { y2 as int },
                forall|cx: int, cy: int|
                    self.has(cx, cy) ==> #[trigger] self.tile_at(cx, cy) == if x1 <= cx <= x2 && y1
                        <= cy <= y2 && cy < y {
                        tile
                    } else {
                        old(self).tile_at(cx, cy)
                    },
            decreases hy - y + 1,
        {
            let mut x = lx;
            while x <= hx
                invariant
                    self.wf(),
                    self.same_but_tiles(old(self)),
                    0 <= lx <= x,
                    hx < self.width,
                    0 <= ly <= y <= hy,
                    hy < self.height,
                    lx == if x1 < 0 { 0 } else { x1 },
                    hx == if x2 > self.width - 1 { self.width - 1 } else { x2 as int },
                    ly == if y1 < 0 { 0 } else { y1 },
                    hy == if y2 > self.height - 1 { self.height - 1 } else { y2 as int },
                    forall|cx: int, cy: int|
                        self.has(cx, cy) ==> #[trigger] self.tile_at(cx, cy) == if x1 <= cx <= x2
                            && y1 <= cy <= y2 && (cy < y || (cy == y && cx < x)) {
                            tile
                        } else {
                            old(self).tile_at(cx, cy)
                        },
                decreases hx - x + 1,
            {
                let ghost before = *self;
                self.set_tile(x, y, tile);
                proof {
                    assert forall|cx: int, cy: int| self.has(cx, cy) implies #[trigger] self.tile_at(
                        cx,
                        cy,
                    ) == if x1 <= cx <= x2 && y1 <= cy <= y2 && (cy < y || (cy == y && cx < x + 1)) {
                        tile
                    } else {
                        old(self).tile_at(cx, cy)
                    } by {
                        assert(before.has(cx, cy));
                        assert(before.tile_at(cx, cy) == if x1 <= cx <= x2 && y1 <= cy <= y2 && (cy
                            < y || (cy == y && cx < x)) {
                            tile
                        } else {
                            old(self).tile_at(cx, cy)
                        });
                    }
                }
                x = x + 1;
            }
            y = y + 1;
        }
    }
}

/// The cells of a map and the positions in its layers correspond one to
/// one: every cell has a position in the layers, no two cells share one, and
/// every position is that of a cell.
pub proof fn lemma_cells_and_positions(m: TileGrid)
    requires
        m.wf(),
    ensures
        forall|x: int, y: int| m.has(x, y) ==> 0 <= #[trigger] m.index_of(x, y) < m.tiles@.len(),
        forall|x1: int, y1: int, x2: int, y2: int|
            m.has(x1, y1) && m.has(x2, y2) && #[trigger] m.index_of(x1, y1) == #[trigger] m.index_of(
                x2,
                y2,
            ) ==> x1 == x2 && y1 == y2,
        forall|i: int|
            0 <= i < m.tiles@.len() ==> m.has(
                #[trigger] column_of(m.width as int, i),
                row_of(m.width as int, i),
            ) && m.index_of(column_of(m.width as int, i), row_of(m.width as int, i)) == i,
{
    assert forall|x: int, y: int| m.has(x, y) implies 0 <= #[trigger] m.index_of(x, y)
        < m.tiles@.len() by {
        lemma_index_in_range(m.width as int, m.height as int, x, y);
    }
    assert forall|x1: int, y1: int, x2: int, y2: int|
        m.has(x1, y1) && m.has(x2, y2) && #[trigger] m.index_of(x1, y1) == #[trigger] m.index_of(
            x2,
            y2,
        ) implies x1 == x2 && y1 == y2 by {
        lemma_index_injective(m.width as int, x1, y1, x2, y2);
    }
    assert forall|i: int| 0 <= i < m.tiles@.len() implies m.has(
        #[trigger] column_of(m.width as int, i),
        row_of(m.width as int, i),
    ) && m.index_of(column_of(m.width as int, i), row_of(m.width as int, i)) == i by {
        lemma_index_onto(m.width as int, m.height as int, i);
    }
}

} // verus!
