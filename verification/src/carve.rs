//! Writing rooms, walls, doors and corridors into the tiles of a map.

use vstd::prelude::*;
use crate::rect::{half, Rect};
use crate::tile_grid::{TileGrid, TileType};

verus! {

/// `v` lies between `a` and `b`, whichever of the two is smaller; both ends count.
pub open spec fn between(a: int, b: int, v: int) -> bool {
    (a <= v <= b) || (b <= v <= a)
}

/// The cell `(x, y)` lies on the corridor with one bend that leads from
/// `from` to `to`: along the row of `from` and then the column of `to` if
/// `horizontal_first`, else along the column of `from` and then the row of `to`.
pub open spec fn on_corridor(
    from: (int, int),
    to: (int, int),
    horizontal_first: bool,
    x: int,
    y: int,
) -> bool {
    if horizontal_first {
        (y == from.1 && between(from.0, to.0, x)) || (x == to.0 && between(from.1, to.1, y))
    } else {
        (x == from.0 && between(from.1, to.1, y)) || (y == to.1 && between(from.0, to.0, x))
    }
}

/// The cell in which the door of `room` stands: the middle of its top wall
/// for side 1, of its right wall for side 2, of its bottom wall for side 3,
/// and of its left wall for any other side.
pub open spec fn door_site(room: Rect, side: int) -> (int, int) {
    if side == 1 {
        (half(room.x1 + room.x2), room.y1 as int)
    } else if side == 2 {
        (room.x2 as int, half(room.y1 + room.y2))
    } else if side == 3 {
        (half(room.x1 + room.x2), room.y2 as int)
    } else {
        (room.x1 as int, half(room.y1 + room.y2))
    }
}

impl TileGrid {
    /// Every cell of `rect` lies on the map.
    pub open spec fn holds(&self, rect: Rect) -> bool {
        0 <= rect.x1 && rect.x2 < self.width && 0 <= rect.y1 && rect.y2 < self.height
    }

    /// Turns the cells that `room` encloses into floor; its edges stay as they are.
    pub fn apply_room_to_map(&mut self, room: &Rect)
        requires
            old(self).wf(),
            old(self).holds(*room),
            room.wf(),
        ensures
            final(self).wf(),
            final(self).same_but_tiles(old(self)),
            forall|x: int, y: int|
                old(self).has(x, y) ==> #[trigger] final(self).tile_at(x, y) == if room.encloses(
                    x,
                    y,
                ) {
                    TileType::Floor
                } else {
                    old(self).tile_at(x, y)
                },
    {
        self.fill(room.x1 + 1, room.y1 + 1, room.x2 - 1, room.y2 - 1, TileType::Floor);
    }

    /// Sets every cell of `rect`, edges included, to `tile`.
    pub fn apply_tiles_to_map(&mut self, rect: &Rect, tile: TileType)
        requires
            old(self).wf(),
            old(self).holds(*rect),
        ensures
            final(self).wf(),
            final(self).same_but_tiles(old(self)),
            forall|x: int, y: int|
                old(self).has(x, y) ==> #[trigger] final(self).tile_at(x, y) == if rect.contains(
                    x,
                    y,
                ) {
                    tile
                } else {
                    old(self).tile_at(x, y)
                },
    {
        self.fill(rect.x1, rect.y1, rect.x2, rect.y2, tile);
    }

    /// Cuts a door into the middle of one wall of `room`: the top wall for
    /// `dir` 1, then clockwise the right, the bottom and the left wall.
    pub fn make_door(&mut self, room: &Rect, dir: i8)
        requires
            old(self).wf(),
            old(self).holds(*room),
            room.wf(),
            1 <= dir <= 4,
        ensures
            final(self).wf(),
            final(self).same_but_tiles(old(self)),
            old(self).has(door_site(*room, dir as int).0, door_site(*room, dir as int).1),
            forall|x: int, y: int|
                old(self).has(x, y) ==> #[trigger] final(self).tile_at(x, y) == if (x, y)
                    == door_site(*room, dir as int) {
                    TileType::Door
                } else {
                    old(self).tile_at(x, y)
                },
    {
        let (mid_x, mid_y) = room.center();
        let (door_x, door_y) = match dir {
            1 => (mid_x, room.y1),
            2 => (room.x2, mid_y),
            3 => (mid_x, room.y2),
            _ => (room.x1, mid_y),
        };
        self.set_tile(door_x, door_y, TileType::Door);
    }

    /// Carves a corridor along row `y` from column `x1` to column `x2`, in
    /// either order; cells off the map are skipped.
    pub fn apply_horizontal_tunnel(&mut self, x1: i32, x2: i32, y: i32)
        requires
            old(self).wf(),
        ensures
            final(self).wf(),
            final(self).same_but_tiles(old(self)),
            forall|cx: int, cy: int|
                old(self).has(cx, cy) ==> #[trigger] final(self).tile_at(cx, cy) == if cy == y
                    && between(x1 as int, x2 as int, cx) {
                    TileType::Floor
                } else {
                    old(self).tile_at(cx, cy)
                },
    {
        let lo = if x1 <= x2 { x1 } else { x2 };
        let hi = if x1 <= x2 { x2 } else { x1 };
        self.fill(lo, y, hi, y, TileType::Floor);
    }

    /// Carves a corridor along column `x` from row `y1` to row `y2`, in
    /// either order; cells off the map are skipped.
    pub fn apply_vertical_tunnel(&mut self, y1: i32, y2: i32, x: i32)
        requires
            old(self).wf(),
        ensures
            final(self).wf(),
            final(self).same_but_tiles(old(self)),
            forall|cx: int, cy: int|
                old(self).has(cx, cy) ==> #[trigger] final(self).tile_at(cx, cy) == if cx == x
                    && between(y1 as int, y2 as int, cy) {
                    TileType::Floor
                } else {
                    old(self).tile_at(cx, cy)
                },
    {
        let lo = if y1 <= y2 { y1 } else { y2 };
        let hi = if y1 <= y2 { y2 } else { y1 };
        self.fill(x, lo, x, hi, TileType::Floor);
    }
}

} // verus!
