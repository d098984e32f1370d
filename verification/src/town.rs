//! Towns: open ground on which walled houses stand, each with one door.

use vstd::prelude::*;
use rltk::RandomNumberGenerator;
use crate::carve::door_site;
use crate::grid::lemma_index_in_range;
use crate::rect::Rect;
use crate::rooms::{MAX_ROOMS, MAX_SIZE, MIN_SIZE};
use crate::dice::range;
use crate::tile_grid::{TileGrid, TileType};

verus! {

impl TileGrid {
    /// The cell `(x, y)` lies in one of the rooms or on one of its edges.
    pub open spec fn on_a_plot(&self, x: int, y: int) -> bool {
        exists|i: int| 0 <= i < self.rooms@.len() && (#[trigger] self.rooms@[i]).contains(x, y)
    }

    /// On the cells of `room` stands a house whose door is on the given
    /// side: the door site holds a door, the cells that the room encloses
    /// are floor, and every other cell on its edges is wall.
    pub open spec fn house_with_door(&self, room: Rect, side: int) -> bool {
        forall|x: int, y: int|
            room.contains(x, y) ==> #[trigger] self.tile_at(x, y) == if (x, y) == door_site(
                room,
                side,
            ) {
                TileType::Door
            } else if room.encloses(x, y) {
                TileType::Floor
            } else {
                TileType::Wall
            }
    }

    /// On the cells of room `i` stands a house with a door on one of its four sides.
    pub open spec fn house_stands(&self, i: int) -> bool {
        exists|side: int| 1 <= side <= 4 && #[trigger] self.house_with_door(self.rooms@[i], side)
    }

    /// The tiles are those of a town built on the rooms of the map: on each
    /// room stands a house, and all ground outside the rooms is floor.
    pub open spec fn built(&self) -> bool {
        &&& forall|i: int| 0 <= i < self.rooms@.len() ==> #[trigger] self.house_stands(i)
        &&& forall|x: int, y: int|
            self.has(x, y) && !self.on_a_plot(x, y) ==> #[trigger] self.tile_at(x, y)
                == TileType::Floor
    }

    /// Builds a house on `room` and records it as the last room: walls on
    /// the edges of the room, floor inside, and a door in the middle of one
    /// wall, the top wall for `dir` 1, then clockwise the right, the bottom
    /// and the left wall.
    pub fn add_house(&mut self, room: Rect, dir: i8)
        requires
            old(self).wf(),
            old(self).rooms_laid_out(),
            old(self).admits(room),
            1 <= dir <= 4,
        ensures
            final(self).wf(),
            final(self).rooms_laid_out(),
            final(self).rooms@ == old(self).rooms@.push(room),
            final(self).width == old(self).width,
            final(self).height == old(self).height,
            final(self).revealed_tiles@ == old(self).revealed_tiles@,
            final(self).visible_tiles@ == old(self).visible_tiles@,
            forall|x: int, y: int|
                old(self).has(x, y) ==> #[trigger] final(self).tile_at(x, y) == if (x, y)
                    == door_site(room, dir as int) {
                    TileType::Door
                } else if room.encloses(x, y) {
                    TileType::Floor
                } else if room.contains(x, y) {
                    TileType::Wall
                } else {
                    old(self).tile_at(x, y)
                },
            old(self).built() ==> final(self).built(),
    {
        let cavity = Rect { x1: room.x1 + 1, y1: room.y1 + 1, x2: room.x2 - 1, y2: room.y2 - 1 };
        self.apply_tiles_to_map(&room, TileType::Wall);
        let ghost walled = *self;
        self.apply_tiles_to_map(&cavity, TileType::Floor);
        let ghost hollowed = *self;
        self.make_door(&room, dir);
        let ghost doored = *self;
        self.rooms.push(room);
        proof {
            assert forall|x: int, y: int| old(self).has(x, y) implies #[trigger] self.tile_at(
                x,
                y,
            ) == if (x, y) == door_site(room, dir as int) {
                TileType::Door
            } else if room.encloses(x, y) {
                TileType::Floor
            } else if room.contains(x, y) {
                TileType::Wall
            } else {
                old(self).tile_at(x, y)
            } by {
                assert(self.tile_at(x, y) == doored.tile_at(x, y));
                assert(hollowed.tile_at(x, y) == if cavity.contains(x, y) {
                    TileType::Floor
                } else {
                    walled.tile_at(x, y)
                });
            }
            if old(self).built() {
                lemma_built_kept(*old(self), *self, room, dir as int);
            }
        }
    }

    /// A town of `width` by `height` cells. On open ground it builds up to
    /// `MAX_ROOMS` houses of random size at random places, skipping each
    /// house that would overlap or touch one built before, and gives each
    /// house a door in the middle of a wall chosen at random. A map too
    /// small for a house is left open.
    pub fn new_town_houses(width: usize, height: usize) -> (map: TileGrid)
        requires
            1 <= width <= i32::MAX,
            1 <= height <= i32::MAX,
            width * height <= usize::MAX,
        ensures
            map.wf(),
            map.width == width,
            map.height == height,
            map.unseen(),
            map.rooms@.len() <= MAX_ROOMS,
            width >= MAX_SIZE + 2 && height >= MAX_SIZE + 2 ==> map.rooms@.len() >= 1,
            map.rooms_laid_out(),
            map.rooms_sized(),
            map.built(),
    {
        let mut map = TileGrid::new(width, height, TileType::Floor);
        proof {
            assert forall|x: int, y: int| map.has(x, y) implies #[trigger] map.tile_at(x, y)
                == TileType::Floor by {
                lemma_index_in_range(map.width as int, map.height as int, x, y);
            }
        }
        let mut rng = RandomNumberGenerator::new();
        let mut attempt: i32 = 0;
        while attempt < MAX_ROOMS
            invariant
                0 <= attempt <= MAX_ROOMS,
                map.wf(),
                map.width == width,
                map.height == height,
                map.unseen(),
                map.rooms@.len() <= attempt,
                attempt >= 1 && width >= MAX_SIZE + 2 && height >= MAX_SIZE + 2
                    ==> map.rooms@.len() >= 1,
                map.rooms_laid_out(),
                map.rooms_sized(),
                map.built(),
            decreases MAX_ROOMS - attempt,
        {
            let w = range(&mut rng, MIN_SIZE, MAX_SIZE + 1);
            let h = range(&mut rng, MIN_SIZE, MAX_SIZE + 1);
            if map.width - w - 1 >= 1 && map.height - h - 1 >= 1 {
                let x = rng.roll_dice(1, map.width - w - 1) - 1;
                let y = rng.roll_dice(1, map.height - h - 1) - 1;
                let new_room = Rect::new(x, y, w, h);
                if map.room_fits(&new_room) {
                    let dir = rng.roll_dice(1, 4);
                    map.add_house(new_room, dir as i8);
                }
            }
            attempt = attempt + 1;
        }
        map
    }
}

/// Building a house on free ground keeps a town a town.
proof fn lemma_built_kept(before: TileGrid, after: TileGrid, room: Rect, side: int)
    requires
        before.wf(),
        before.rooms_laid_out(),
        before.admits(room),
        before.built(),
        1 <= side <= 4,
        after.width == before.width,
        after.height == before.height,
        after.rooms@ == before.rooms@.push(room),
        forall|x: int, y: int|
            before.has(x, y) ==> #[trigger] after.tile_at(x, y) == if (x, y) == door_site(
                room,
                side,
            ) {
                TileType::Door
            } else if room.encloses(x, y) {
                TileType::Floor
            } else if room.contains(x, y) {
                TileType::Wall
            } else {
                before.tile_at(x, y)
            },
    ensures
        after.built(),
{
    let n = before.rooms@.len() as int;
    assert(room.contains(door_site(room, side).0, door_site(room, side).1));
    assert forall|i: int| 0 <= i < after.rooms@.len() implies #[trigger] after.house_stands(i) by {
        if i < n {
            let old_room = before.rooms@[i];
            assert(before.house_stands(i));
            let old_side = choose|s: int|
                1 <= s <= 4 && #[trigger] before.house_with_door(before.rooms@[i], s);
            assert(before.holds(old_room));
            assert(!room.overlaps(&old_room));
            assert forall|x: int, y: int| old_room.contains(x, y) implies #[trigger] after.tile_at(
                x,
                y,
            ) == if (x, y) == door_site(old_room, old_side) {
                TileType::Door
            } else if old_room.encloses(x, y) {
                TileType::Floor
            } else {
                TileType::Wall
            } by {
                assert(before.has(x, y));
                assert(!room.contains(x, y));
                assert(after.tile_at(x, y) == before.tile_at(x, y));
            }
            assert(after.house_with_door(after.rooms@[i], old_side));
        } else {
            assert forall|x: int, y: int| room.contains(x, y) implies #[trigger] after.tile_at(
                x,
                y,
            ) == if (x, y) == door_site(room, side) {
                TileType::Door
            } else if room.encloses(x, y) {
                TileType::Floor
            } else {
                TileType::Wall
            } by {
                assert(before.has(x, y));
            }
            assert(after.house_with_door(after.rooms@[i], side));
        }
    }
    assert forall|x: int, y: int| after.has(x, y) && !after.on_a_plot(x, y) implies #[trigger] after.tile_at(
        x,
        y,
    ) == TileType::Floor by {
        if room.contains(x, y) {
            assert(after.rooms@[n].contains(x, y));
        }
        if before.on_a_plot(x, y) {
            let i = choose|i: int|
                0 <= i < before.rooms@.len() && (#[trigger] before.rooms@[i]).contains(x, y);
            assert(after.rooms@[i].contains(x, y));
        }
        assert(before.tile_at(x, y) == TileType::Floor);
    }
}

/// In a town every house has exactly one door: one cell on the edges of its
/// room holds a door, every other cell on those edges is wall, and every
/// cell that the room encloses is floor.
pub proof fn lemma_house_has_one_door(m: TileGrid, i: int)
    requires
        m.rooms_laid_out(),
        m.built(),
        0 <= i < m.rooms@.len(),
    ensures
        exists|door: (int, int)|
            {
                &&& #[trigger] m.rooms@[i].on_edge(door.0, door.1)
                &&& m.tile_at(door.0, door.1) == TileType::Door
                &&& forall|x: int, y: int|
                    m.rooms@[i].on_edge(x, y) && (x, y) != door ==> #[trigger] m.tile_at(x, y)
                        == TileType::Wall
                &&& forall|x: int, y: int|
                    m.rooms@[i].encloses(x, y) ==> #[trigger] m.tile_at(x, y) == TileType::Floor
            },
{
    let room = m.rooms@[i];
    assert(m.holds(room) && room.roomy());
    assert(m.house_stands(i));
    let side = choose|s: int| 1 <= s <= 4 && #[trigger] m.house_with_door(m.rooms@[i], s);
    let door = door_site(room, side);
    assert(room.on_edge(door.0, door.1));
    assert(m.tile_at(door.0, door.1) == TileType::Door);
    assert forall|x: int, y: int| room.on_edge(x, y) && (x, y) != door implies #[trigger] m.tile_at(
        x,
        y,
    ) == TileType::Wall by {
        assert(room.contains(x, y));
    }
    assert forall|x: int, y: int| room.encloses(x, y) implies #[trigger] m.tile_at(x, y)
        == TileType::Floor by {
        assert(room.contains(x, y));
    }
}

} // verus!
