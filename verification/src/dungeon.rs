//! Dungeons: rooms dug out of solid wall, each joined to the room placed
//! before it by a corridor with one bend.

use vstd::prelude::*;
use rltk::RandomNumberGenerator;
use crate::carve::{between, on_corridor};
use crate::dice::range;
use crate::grid::lemma_index_in_range;
use crate::paths::{
    lemma_connected_refl, lemma_connected_sym, lemma_connected_trans, lemma_corridor_connected,
    lemma_room_connected,
};
use crate::rect::Rect;
use crate::rooms::{MAX_ROOMS, MAX_SIZE, MIN_SIZE};
use crate::tile_grid::{TileGrid, TileType};

verus! {

impl TileGrid {
    /// The midpoint of the room that was placed as the `i`-th.
    pub open spec fn room_center(&self, i: int) -> (int, int) {
        self.rooms@[i].center_spec()
    }

    /// The cell `(x, y)` is enclosed by one of the rooms.
    pub open spec fn in_a_room(&self, x: int, y: int) -> bool {
        exists|i: int| 0 <= i < self.rooms@.len() && (#[trigger] self.rooms@[i]).encloses(x, y)
    }

    /// The corridor from room `i - 1` to room `i` that bends as
    /// `horizontal_first` says is all floor.
    pub open spec fn corridor_cut(&self, i: int, horizontal_first: bool) -> bool {
        forall|x: int, y: int|
            on_corridor(self.room_center(i - 1), self.room_center(i), horizontal_first, x, y)
                ==> #[trigger] self.is_floor((x, y))
    }

    /// The cell `(x, y)` lies on a corridor, of either bend, between two rooms
    /// that were placed one after the other.
    pub open spec fn on_a_corridor(&self, x: int, y: int) -> bool {
        exists|i: int, horizontal_first: bool|
            0 < i < self.rooms@.len() && #[trigger] on_corridor(
                self.room_center(i - 1),
                self.room_center(i),
                horizontal_first,
                x,
                y,
            )
    }

    /// The tiles are those of a dungeon dug for the rooms of the map: every
    /// cell that a room encloses is floor; each room but the first is joined
    /// to the room placed before it by a corridor of floor with one bend,
    /// from midpoint to midpoint; and every other cell is wall, unless it
    /// lies where the corridor of the other bend would run.
    pub open spec fn dug(&self) -> bool {
        &&& forall|i: int, x: int, y: int|
            0 <= i < self.rooms@.len() && (#[trigger] self.rooms@[i]).encloses(x, y)
                ==> #[trigger] self.is_floor((x, y))
        &&& forall|i: int|
            0 < i < self.rooms@.len() ==> #[trigger] self.corridor_cut(i, true)
                || self.corridor_cut(i, false)
        &&& forall|x: int, y: int|
            self.has(x, y) ==> #[trigger] self.tile_at(x, y) == TileType::Floor || self.tile_at(
                x,
                y,
            ) == TileType::Wall
        &&& forall|x: int, y: int|
            self.has(x, y) && #[trigger] self.tile_at(x, y) == TileType::Floor ==> self.in_a_room(
                x,
                y,
            ) || self.on_a_corridor(x, y)
    }

    /// Digs `room` into the map and records it as the last room. If the map
    /// had a room already, a corridor with one bend is dug from the midpoint
    /// of the room placed last to the midpoint of `room`: along the row first
    /// if `horizontal_first`, along the column first otherwise.
    pub fn add_room(&mut self, room: Rect, horizontal_first: bool)
        requires
            old(self).wf(),
            old(self).rooms_laid_out(),
            old(self).admits(room),
        ensures
            final(self).wf(),
            final(self).rooms_laid_out(),
            final(self).rooms@ == old(self).rooms@.push(room),
            final(self).width == old(self).width,
            final(self).height == old(self).height,
            final(self).revealed_tiles@ == old(self).revealed_tiles@,
            final(self).visible_tiles@ == old(self).visible_tiles@,
            forall|x: int, y: int|
                old(self).has(x, y) ==> #[trigger] final(self).tile_at(x, y) == if room.encloses(
                    x,
                    y,
                ) || (old(self).rooms@.len() > 0 && on_corridor(
                    old(self).rooms@.last().center_spec(),
                    room.center_spec(),
                    horizontal_first,
                    x,
                    y,
                )) {
                    TileType::Floor
                } else {
                    old(self).tile_at(x, y)
                },
            old(self).dug() ==> final(self).dug(),
    {
        self.apply_room_to_map(&room);
        let ghost roomed = *self;
        let count = self.rooms.len();
        if count > 0 {
            let (new_x, new_y) = room.center();
            let (prev_x, prev_y) = self.rooms[count - 1].center();
            if horizontal_first {
                self.apply_horizontal_tunnel(prev_x, new_x, prev_y);
                let ghost halfway = *self;
                self.apply_vertical_tunnel(prev_y, new_y, new_x);
                assert forall|x: int, y: int| old(self).has(x, y) implies #[trigger] self.tile_at(
                    x,
                    y,
                ) == if room.encloses(x, y) || on_corridor(
                    old(self).rooms@.last().center_spec(),
                    room.center_spec(),
                    horizontal_first,
                    x,
                    y,
                ) {
                    TileType::Floor
                } else {
                    old(self).tile_at(x, y)
                } by {
                    assert(halfway.tile_at(x, y) == if y == prev_y && between(
                        prev_x as int,
                        new_x as int,
                        x,
                    ) {
                        TileType::Floor
                    } else {
                        roomed.tile_at(x, y)
                    });
                }
            } else {
                self.apply_vertical_tunnel(prev_y, new_y, prev_x);
                let ghost halfway = *self;
                self.apply_horizontal_tunnel(prev_x, new_x, new_y);
                assert forall|x: int, y: int| old(self).has(x, y) implies #[trigger] self.tile_at(
                    x,
                    y,
                ) == if room.encloses(x, y) || on_corridor(
                    old(self).rooms@.last().center_spec(),
                    room.center_spec(),
                    horizontal_first,
                    x,
                    y,
                ) {
                    TileType::Floor
                } else {
                    old(self).tile_at(x, y)
                } by {
                    assert(halfway.tile_at(x, y) == if x == prev_x && between(
                        prev_y as int,
                        new_y as int,
                        y,
                    ) {
                        TileType::Floor
                    } else {
                        roomed.tile_at(x, y)
                    });
                }
            }
        }
        let ghost carved = *self;
        self.rooms.push(room);
        proof {
            assert forall|x: int, y: int| old(self).has(x, y) implies #[trigger] self.tile_at(
                x,
                y,
            ) == if room.encloses(x, y) || (old(self).rooms@.len() > 0 && on_corridor(
                old(self).rooms@.last().center_spec(),
                room.center_spec(),
                horizontal_first,
                x,
                y,
            )) {
                TileType::Floor
            } else {
                old(self).tile_at(x, y)
            } by {
                assert(self.tile_at(x, y) == carved.tile_at(x, y));
            }
            if old(self).dug() {
                lemma_dug_kept(*old(self), *self, room, horizontal_first);
            }
        }
    }

    /// A dungeon of `width` by `height` cells. Out of solid wall it digs up to
    /// `MAX_ROOMS` rooms of random size at random places, skipping each room
    /// that would overlap or touch one dug before, and joins each room to
    /// the one dug before it by a corridor whose bend is chosen at random.
    /// A map too small for a room is left solid.
    pub fn new_map_rooms_and_corridors(width: usize, height: usize) -> (map: TileGrid)
        requires
            1 <= width <= i32::MAX,
            1 <= height <= i32::MAX,
            width * height <= usize::MAX,
        ensures
            map.wf(),
            map.width == width,
            map.height == height,
            map.unseen(),
            map.rooms@.len() <= MAX_ROOMS,
            width >= MAX_SIZE + 2 && height >= MAX_SIZE + 2 ==> map.rooms@.len() >= 1,
            map.rooms_laid_out(),
            map.rooms_sized(),
            map.dug(),
    {
        let mut map = TileGrid::new(width, height, TileType::Wall);
        proof {
            assert forall|x: int, y: int| map.has(x, y) implies #[trigger] map.tile_at(x, y)
                == TileType::Wall by {
                lemma_index_in_range(map.width as int, map.height as int, x, y);
            }
        }
        let mut rng = RandomNumberGenerator::new();
        let mut attempt: i32 = 0;
        while attempt < MAX_ROOMS
            invariant
                0 <= attempt <= MAX_ROOMS,
                map.wf(),
                map.width == width,
                map.height == height,
                map.unseen(),
                map.rooms@.len() <= attempt,
                attempt >= 1 && width >= MAX_SIZE + 2 && height >= MAX_SIZE + 2
                    ==> map.rooms@.len() >= 1,
                map.rooms_laid_out(),
                map.rooms_sized(),
                map.dug(),
            decreases MAX_ROOMS - attempt,
        {
            let w = range(&mut rng, MIN_SIZE, MAX_SIZE + 1);
            let h = range(&mut rng, MIN_SIZE, MAX_SIZE + 1);
            if map.width - w - 1 >= 1 && map.height - h - 1 >= 1 {
                let x = rng.roll_dice(1, map.width - w - 1) - 1;
                let y = rng.roll_dice(1, map.height - h - 1) - 1;
                let new_room = Rect::new(x, y, w, h);
                if map.room_fits(&new_room) {
                    let horizontal_first = if map.rooms.len() > 0 {
                        range(&mut rng, 0, 2) == 1
                    } else {
                        true
                    };
                    map.add_room(new_room, horizontal_first);
                }
            }
            attempt = attempt + 1;
        }
        map
    }
}

/// Adding a room keeps a dungeon a dungeon.
proof fn lemma_dug_kept(before: TileGrid, after: TileGrid, room: Rect, horizontal_first: bool)
    requires
        before.wf(),
        before.rooms_laid_out(),
        before.admits(room),
        before.dug(),
        after.width == before.width,
        after.height == before.height,
        after.rooms@ == before.rooms@.push(room),
        forall|x: int, y: int|
            before.has(x, y) ==> #[trigger] after.tile_at(x, y) == if room.encloses(x, y) || (
            before.rooms@.len() > 0 && on_corridor(
                before.rooms@.last().center_spec(),
                room.center_spec(),
                horizontal_first,
                x,
                y,
            )) {
                TileType::Floor
            } else {
                before.tile_at(x, y)
            },
    ensures
        after.dug(),
{
    let n = before.rooms@.len() as int;
    assert forall|x: int, y: int| before.is_floor((x, y)) implies after.is_floor((x, y)) by {
        assert(after.tile_at(x, y) == TileType::Floor);
    }
    assert forall|i: int, x: int, y: int|
        0 <= i < after.rooms@.len() && (#[trigger] after.rooms@[i]).encloses(
            x,
            y,
        ) implies #[trigger] after.is_floor((x, y)) by {
        if i < n {
            assert(before.rooms@[i].encloses(x, y));
            assert(before.is_floor((x, y)));
        } else {
            assert(after.tile_at(x, y) == TileType::Floor);
        }
    }
    assert forall|i: int| 0 < i < after.rooms@.len() implies #[trigger] after.corridor_cut(i, true)
        || after.corridor_cut(i, false) by {
        if i < n {
            assert(after.room_center(i) == before.room_center(i));
            assert(after.room_center(i - 1) == before.room_center(i - 1));
            assert(before.corridor_cut(i, true) || before.corridor_cut(i, false));
            if before.corridor_cut(i, true) {
                assert forall|x: int, y: int|
                    on_corridor(
                        after.room_center(i - 1),
                        after.room_center(i),
                        true,
                        x,
                        y,
                    ) implies #[trigger] after.is_floor((x, y)) by {
                    assert(before.is_floor((x, y)));
                }
            } else {
                assert forall|x: int, y: int|
                    on_corridor(
                        after.room_center(i - 1),
                        after.room_center(i),
                        false,
                        x,
                        y,
                    ) implies #[trigger] after.is_floor((x, y)) by {
                    assert(before.is_floor((x, y)));
                }
            }
        } else {
            let prev = before.rooms@[n - 1];
            assert(before.holds(prev) && prev.roomy());
            assert(after.room_center(i - 1) == prev.center_spec());
            assert(after.room_center(i) == room.center_spec());
            assert forall|x: int, y: int|
                on_corridor(
                    after.room_center(i - 1),
                    after.room_center(i),
                    horizontal_first,
                    x,
                    y,
                ) implies #[trigger] after.is_floor((x, y)) by {
                assert(before.has(x, y));
                assert(after.tile_at(x, y) == TileType::Floor);
            }
            assert(after.corridor_cut(i, horizontal_first));
        }
    }
    assert forall|x: int, y: int| after.has(x, y) implies #[trigger] after.tile_at(x, y)
        == TileType::Floor || after.tile_at(x, y) == TileType::Wall by {
        assert(before.tile_at(x, y) == TileType::Floor || before.tile_at(x, y) == TileType::Wall);
    }
    assert forall|x: int, y: int|
        after.has(x, y) && #[trigger] after.tile_at(x, y) == TileType::Floor implies after.in_a_room(
        x,
        y,
    ) || after.on_a_corridor(x, y) by {
        if room.encloses(x, y) {
            assert(after.rooms@[n].encloses(x, y));
        } else if n > 0 && on_corridor(
            before.rooms@.last().center_spec(),
            room.center_spec(),
            horizontal_first,
            x,
            y,
        ) {
            assert(on_corridor(
                after.room_center(n - 1),
                after.room_center(n),
                horizontal_first,
                x,
                y,
            ));
        } else {
            assert(before.tile_at(x, y) == TileType::Floor);
            if before.in_a_room(x, y) {
                let i = choose|i: int|
                    0 <= i < before.rooms@.len() && (#[trigger] before.rooms@[i]).encloses(x, y);
                assert(after.rooms@[i].encloses(x, y));
            } else {
                let (i, hf) = choose|i: int, hf: bool|
                    0 < i < before.rooms@.len() && #[trigger] on_corridor(
                        before.room_center(i - 1),
                        before.room_center(i),
                        hf,
                        x,
                        y,
                    );
                assert(on_corridor(after.room_center(i - 1), after.room_center(i), hf, x, y));
            }
        }
    }
}

/// In a dungeon the midpoint of every room can be reached from the midpoint
/// of the first room over floor.
pub proof fn lemma_center_reached(m: TileGrid, k: int)
    requires
        m.rooms_laid_out(),
        m.dug(),
        0 <= k < m.rooms@.len(),
    ensures
        m.connected(m.room_center(0), m.room_center(k)),
    decreases k,
{
    let room = m.rooms@[k];
    assert(m.holds(room) && room.roomy());
    assert(room.encloses(m.room_center(k).0, m.room_center(k).1));
    assert(m.is_floor(m.room_center(k)));
    if k == 0 {
        lemma_connected_refl(m, m.room_center(0));
    } else {
        lemma_center_reached(m, k - 1);
        assert(m.corridor_cut(k, true) || m.corridor_cut(k, false));
        if m.corridor_cut(k, true) {
            lemma_corridor_connected(m, m.room_center(k - 1), m.room_center(k), true);
        } else {
            lemma_corridor_connected(m, m.room_center(k - 1), m.room_center(k), false);
        }
        lemma_connected_trans(m, m.room_center(0), m.room_center(k - 1), m.room_center(k));
    }
}

/// In a dungeon every room can be reached from every other over floor: a
/// walk leads from any cell that one room encloses to any cell that another
/// room encloses, and so from the first room to each room placed after it.
pub proof fn lemma_rooms_connected(m: TileGrid, i: int, j: int, a: (int, int), b: (int, int))
    requires
        m.rooms_laid_out(),
        m.dug(),
        0 <= i < m.rooms@.len(),
        0 <= j < m.rooms@.len(),
        m.rooms@[i].encloses(a.0, a.1),
        m.rooms@[j].encloses(b.0, b.1),
    ensures
        m.connected(a, b),
{
    let from = m.rooms@[i];
    let to = m.rooms@[j];
    assert(m.holds(from) && from.roomy());
    assert(m.holds(to) && to.roomy());
    assert(from.encloses(m.room_center(i).0, m.room_center(i).1));
    assert(to.encloses(m.room_center(j).0, m.room_center(j).1));
    assert forall|x: int, y: int| from.encloses(x, y) implies #[trigger] m.is_floor((x, y)) by {
        assert(m.rooms@[i].encloses(x, y));
    }
    assert forall|x: int, y: int| to.encloses(x, y) implies #[trigger] m.is_floor((x, y)) by {
        assert(m.rooms@[j].encloses(x, y));
    }
    lemma_room_connected(m, from, a, m.room_center(i));
    lemma_center_reached(m, i);
    lemma_connected_sym(m, m.room_center(0), m.room_center(i));
    lemma_center_reached(m, j);
    lemma_room_connected(m, to, m.room_center(j), b);
    lemma_connected_trans(m, a, m.room_center(i), m.room_center(0));
    lemma_connected_trans(m, a, m.room_center(0), m.room_center(j));
    lemma_connected_trans(m, a, m.room_center(j), b);
}

/// A generated dungeon keeps a wall all around: no cell in the first or last
/// column or row of the map is floor.
pub proof fn lemma_border_is_wall(m: TileGrid, x: int, y: int)
    requires
        m.rooms_laid_out(),
        m.rooms_sized(),
        m.dug(),
        m.has(x, y),
        x == 0 || y == 0 || x == m.width - 1 || y == m.height - 1,
    ensures
        m.tile_at(x, y) == TileType::Wall,
{
    if m.tile_at(x, y) == TileType::Floor {
        if m.in_a_room(x, y) {
            let i = choose|i: int|
                0 <= i < m.rooms@.len() && (#[trigger] m.rooms@[i]).encloses(x, y);
            assert(m.holds(m.rooms@[i]));
        } else {
            assert(m.on_a_corridor(x, y));
            let (i, hf) = choose|i: int, hf: bool|
                0 < i < m.rooms@.len() && #[trigger] on_corridor(
                    m.room_center(i - 1),
                    m.room_center(i),
                    hf,
                    x,
                    y,
                );
            let from = m.rooms@[i - 1];
            let to = m.rooms@[i];
            assert(m.holds(from) && from.roomy());
            assert(m.holds(to) && to.roomy());
        }
    }
}

} // verus!
