//! What a renderer is to draw of a map.
//!
//! A cell that has never been revealed is not drawn at all. A revealed cell
//! that is out of view is drawn dimmed, one in view at full colour.

use vstd::prelude::*;
use crate::grid::{column_of, lemma_index_injective, lemma_index_onto, row_of};
use crate::tile_grid::{TileGrid, TileType};

verus! {

/// One cell to draw: where it is, what it holds, and whether it is in view.
#[derive(Clone, Copy, Debug, PartialEq, Eq, Structural)]
pub struct DrawnTile {
    pub x: i32,
    pub y: i32,
    pub tile: TileType,
    pub visible: bool,
}

/// The cell at position `i` of the layers, as it is drawn.
pub open spec fn drawn_tile(map: &TileGrid, i: int) -> DrawnTile {
    DrawnTile {
        x: column_of(map.width as int, i) as i32,
        y: row_of(map.width as int, i) as i32,
        tile: map.tiles@[i],
        visible: map.visible_tiles@[i],
    }
}

/// The revealed cells among the first `n` cells of the map, in row-major
/// order, as they are drawn.
pub open spec fn drawn(map: &TileGrid, n: int) -> Seq<DrawnTile>
    decreases n,
{
    if n <= 0 {
        Seq::empty()
    } else if map.revealed_tiles@[n - 1] {
        drawn(map, n - 1).push(drawn_tile(map, n - 1))
    } else {
        drawn(map, n - 1)
    }
}

/// The cells of the map to draw, row by row: every revealed cell, and no other.
pub fn draw_map(map: &TileGrid) -> (cells: Vec<DrawnTile>)
    requires
        map.wf(),
    ensures
        cells@ == drawn(map, map.tiles@.len() as int),
{
    let mut cells: Vec<DrawnTile> = Vec::new();
    let mut x: i32 = 0;
    let mut y: i32 = 0;
    let mut idx: usize = 0;
    while idx < map.tiles.len()
        invariant
            map.wf(),
            idx <= map.tiles@.len(),
            0 <= x < map.width,
            0 <= y <= map.height,
            idx == y * map.width + x,
            cells@ == drawn(map, idx as int),
        decreases map.tiles@.len() - idx,
    {
        proof {
            lemma_index_onto(map.width as int, map.height as int, idx as int);
            lemma_index_injective(
                map.width as int,
                x as int,
                y as int,
                column_of(map.width as int, idx as int),
                row_of(map.width as int, idx as int),
            );
        }
        if map.revealed_tiles[idx] {
            cells.push(DrawnTile { x, y, tile: map.tiles[idx], visible: map.visible_tiles[idx] });
        }
        proof {
            assert((y + 1) * map.width == y * map.width + map.width) by (nonlinear_arith);
        }
        x = x + 1;
        if x > map.width - 1 {
            x = 0;
            y = y + 1;
        }
        idx = idx + 1;
    }
    cells
}

} // verus!
