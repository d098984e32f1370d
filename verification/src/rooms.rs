//! The rooms of a map, and the test that keeps them apart.

use vstd::prelude::*;
use crate::rect::Rect;
use crate::tile_grid::TileGrid;

verus! {

/// How many times a generator tries to place a room.
pub const MAX_ROOMS: i32 = 30;

/// The least width and height of a generated room.
pub const MIN_SIZE: i32 = 6;

/// The greatest width and height of a generated room.
pub const MAX_SIZE: i32 = 10;

impl TileGrid {
    /// `room` overlaps none of the rooms on the map.
    pub open spec fn clear_of_rooms(&self, room: Rect) -> bool {
        forall|i: int|
            #![trigger self.rooms@[i]]
            0 <= i < self.rooms@.len() ==> !room.overlaps(&self.rooms@[i])
    }

    /// `room` can be placed: it lies on the map, encloses its midpoint, and
    /// overlaps no room that is already there.
    pub open spec fn admits(&self, room: Rect) -> bool {
        self.holds(room) && room.roomy() && self.clear_of_rooms(room)
    }

    /// Every room lies on the map and encloses its midpoint, and no two rooms
    /// overlap, not even along an edge.
    pub open spec fn rooms_laid_out(&self) -> bool {
        &&& forall|i: int|
            0 <= i < self.rooms@.len() ==> self.holds(#[trigger] self.rooms@[i])
                && self.rooms@[i].roomy()
        &&& forall|i: int, j: int|
            #![trigger self.rooms@[i], self.rooms@[j]]
            0 <= i < self.rooms@.len() && 0 <= j < self.rooms@.len() && i != j
                ==> !self.rooms@[i].overlaps(&self.rooms@[j])
    }

    /// Every room has the measures that the generators give their rooms: its
    /// width and height are between `MIN_SIZE` and `MAX_SIZE`, and the last
    /// column and the last row of the map are left free.
    pub open spec fn rooms_sized(&self) -> bool {
        forall|i: int|
            #![trigger self.rooms@[i]]
            0 <= i < self.rooms@.len() ==> {
                &&& MIN_SIZE <= self.rooms@[i].x2 - self.rooms@[i].x1 <= MAX_SIZE
                &&& MIN_SIZE <= self.rooms@[i].y2 - self.rooms@[i].y1 <= MAX_SIZE
                &&& self.rooms@[i].x2 <= self.width - 2
                &&& self.rooms@[i].y2 <= self.height - 2
            }
    }

    /// No cell has been revealed and none is in view.
    pub open spec fn unseen(&self) -> bool {
        &&& forall|i: int| 0 <= i < self.revealed_tiles@.len() ==> !#[trigger] self.revealed_tiles@[i]
        &&& forall|i: int| 0 <= i < self.visible_tiles@.len() ==> !#[trigger] self.visible_tiles@[i]
    }

    /// Whether `room` overlaps none of the rooms on the map; rooms that only
    /// touch along an edge overlap.
    pub fn room_fits(&self, room: &Rect) -> (ok: bool)
        ensures
            ok == self.clear_of_rooms(*room),
    {
        let mut ok = true;
        let mut i: usize = 0;
        while i < self.rooms.len()
            invariant
                i <= self.rooms@.len(),
                ok == forall|k: int|
                    #![trigger self.rooms@[k]]
                    0 <= k < i ==> !room.overlaps(&self.rooms@[k]),
            decreases self.rooms@.len() - i,
        {
            if room.intersect(&self.rooms[i]) {
                ok = false;
            }
            i = i + 1;
        }
        ok
    }
}

} // verus!
