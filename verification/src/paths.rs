//! Walks over floor cells, and which cells of a map they join.

use vstd::prelude::*;
use crate::carve::{between, on_corridor};
use crate::rect::Rect;
use crate::tile_grid::{TileGrid, TileType};

verus! {

/// The two cells are the same cell or share an edge.
pub open spec fn step(a: (int, int), b: (int, int)) -> bool {
    (a.0 == b.0 && (a.1 == b.1 || a.1 == b.1 + 1 || a.1 + 1 == b.1)) || (a.1 == b.1 && (a.0
        == b.0 + 1 || a.0 + 1 == b.0))
}

impl TileGrid {
    /// The cell lies on the map and holds floor.
    pub open spec fn is_floor(&self, c: (int, int)) -> bool {
        self.has(c.0, c.1) && self.tile_at(c.0, c.1) == TileType::Floor
    }

    /// `p` is a walk over floor: it is not empty, each of its cells is floor,
    /// and each cell is the one before it or a neighbour of it.
    pub open spec fn walk(&self, p: Seq<(int, int)>) -> bool {
        &&& p.len() >= 1
        &&& forall|i: int| 0 <= i < p.len() ==> self.is_floor(#[trigger] p[i])
        &&& forall|i: int| 0 <= i < p.len() - 1 ==> step(#[trigger] p[i], p[i + 1])
    }

    /// Some walk over floor leads from `a` to `b`.
    pub open spec fn connected(&self, a: (int, int), b: (int, int)) -> bool {
        exists|p: Seq<(int, int)>| #[trigger] self.walk(p) && p[0] == a && p.last() == b
    }
}

/// A floor cell is connected to itself.
pub proof fn lemma_connected_refl(m: TileGrid, a: (int, int))
    requires
        m.is_floor(a),
    ensures
        m.connected(a, a),
{
    let p = seq![a];
    assert(m.walk(p));
    assert(p[0] == a && p.last() == a);
}

/// Two floor cells that are neighbours are connected.
pub proof fn lemma_connected_step(m: TileGrid, a: (int, int), b: (int, int))
    requires
        m.is_floor(a),
        m.is_floor(b),
        step(a, b),
    ensures
        m.connected(a, b),
{
    let p = seq![a, b];
    assert(m.walk(p));
    assert(p[0] == a && p.last() == b);
}

/// A walk from `a` to `b`, taken backwards, leads from `b` to `a`.
pub proof fn lemma_connected_sym(m: TileGrid, a: (int, int), b: (int, int))
    requires
        m.connected(a, b),
    ensures
        m.connected(b, a),
{
    let p = choose|p: Seq<(int, int)>| #[trigger] m.walk(p) && p[0] == a && p.last() == b;
    let q = Seq::new(p.len(), |i: int| p[p.len() - 1 - i]);
    assert forall|i: int| 0 <= i < q.len() implies m.is_floor(#[trigger] q[i]) by {
        assert(m.is_floor(p[p.len() - 1 - i]));
    }
    assert forall|i: int| 0 <= i < q.len() - 1 implies step(#[trigger] q[i], q[i + 1]) by {
        let j = p.len() - 2 - i;
        assert(step(p[j], p[j + 1]));
    }
    assert(m.walk(q));
    assert(q[0] == b && q.last() == a);
}

/// A walk from `a` to `b` followed by one from `b` to `c` leads from `a` to `c`.
pub proof fn lemma_connected_trans(m: TileGrid, a: (int, int), b: (int, int), c: (int, int))
    requires
        m.connected(a, b),
        m.connected(b, c),
    ensures
        m.connected(a, c),
{
    let p = choose|p: Seq<(int, int)>| #[trigger] m.walk(p) && p[0] == a && p.last() == b;
    let q = choose|q: Seq<(int, int)>| #[trigger] m.walk(q) && q[0] == b && q.last() == c;
    let r = p + q;
    assert forall|i: int| 0 <= i < r.len() implies m.is_floor(#[trigger] r[i]) by {
        if i < p.len() {
            assert(m.is_floor(p[i]));
        } else {
            assert(m.is_floor(q[i - p.len()]));
        }
    }
    assert forall|i: int| 0 <= i < r.len() - 1 implies step(#[trigger] r[i], r[i + 1]) by {
        if i < p.len() - 1 {
            assert(step(p[i], p[i + 1]));
        } else if i == p.len() - 1 {
            assert(r[i] == b && r[i + 1] == b);
        } else {
            let j = i - p.len();
            assert(step(q[j], q[j + 1]));
        }
    }
    assert(m.walk(r));
    assert(r[0] == a && r.last() == c);
}

/// The two ends of a stretch of floor in one row are connected.
pub proof fn lemma_row_connected(m: TileGrid, y: int, xa: int, xb: int)
    requires
        forall|x: int| between(xa, xb, x) ==> #[trigger] m.is_floor((x, y)),
    ensures
        m.connected((xa, y), (xb, y)),
    decreases
            if xa <= xb {
                xb - xa
            } else {
                xa - xb
            },
{
    assert(between(xa, xb, xa) && between(xa, xb, xb));
    assert(m.is_floor((xa, y)) && m.is_floor((xb, y)));
    if xa == xb {
        lemma_connected_refl(m, (xa, y));
    } else {
        let prev = if xa < xb {
            xb - 1
        } else {
            xb + 1
        };
        assert forall|x: int| between(xa, prev, x) implies #[trigger] m.is_floor((x, y)) by {
            assert(between(xa, xb, x));
        }
        lemma_row_connected(m, y, xa, prev);
        assert(between(xa, xb, prev));
        assert(m.is_floor((prev, y)));
        lemma_connected_step(m, (prev, y), (xb, y));
        lemma_connected_trans(m, (xa, y), (prev, y), (xb, y));
    }
}

/// The two ends of a stretch of floor in one column are connected.
pub proof fn lemma_column_connected(m: TileGrid, x: int, ya: int, yb: int)
    requires
        forall|y: int| between(ya, yb, y) ==> #[trigger] m.is_floor((x, y)),
    ensures
        m.connected((x, ya), (x, yb)),
    decreases
            if ya <= yb {
                yb - ya
            } else {
                ya - yb
            },
{
    assert(between(ya, yb, ya) && between(ya, yb, yb));
    assert(m.is_floor((x, ya)) && m.is_floor((x, yb)));
    if ya == yb {
        lemma_connected_refl(m, (x, ya));
    } else {
        let prev = if ya < yb {
            yb - 1
        } else {
            yb + 1
        };
        assert forall|y: int| between(ya, prev, y) implies #[trigger] m.is_floor((x, y)) by {
            assert(between(ya, yb, y));
        }
        lemma_column_connected(m, x, ya, prev);
        assert(between(ya, yb, prev));
        assert(m.is_floor((x, prev)));
        lemma_connected_step(m, (x, prev), (x, yb));
        lemma_connected_trans(m, (x, ya), (x, prev), (x, yb));
    }
}

/// A corridor with one bend, all of it floor, connects its two ends.
pub proof fn lemma_corridor_connected(
    m: TileGrid,
    from: (int, int),
    to: (int, int),
    horizontal_first: bool,
)
    requires
        forall|x: int, y: int|
            on_corridor(from, to, horizontal_first, x, y) ==> #[trigger] m.is_floor((x, y)),
    ensures
        m.connected(from, to),
{
    if horizontal_first {
        assert forall|x: int| between(from.0, to.0, x) implies #[trigger] m.is_floor(
            (x, from.1),
        ) by {
            assert(on_corridor(from, to, horizontal_first, x, from.1));
        }
        lemma_row_connected(m, from.1, from.0, to.0);
        assert forall|y: int| between(from.1, to.1, y) implies #[trigger] m.is_floor((to.0, y)) by {
            assert(on_corridor(from, to, horizontal_first, to.0, y));
        }
        lemma_column_connected(m, to.0, from.1, to.1);
        lemma_connected_trans(m, from, (to.0, from.1), to);
    } else {
        assert forall|y: int| between(from.1, to.1, y) implies #[trigger] m.is_floor(
            (from.0, y),
        ) by {
            assert(on_corridor(from, to, horizontal_first, from.0, y));
        }
        lemma_column_connected(m, from.0, from.1, to.1);
        assert forall|x: int| between(from.0, to.0, x) implies #[trigger] m.is_floor((x, to.1)) by {
            assert(on_corridor(from, to, horizontal_first, x, to.1));
        }
        lemma_row_connected(m, to.1, from.0, to.0);
        lemma_connected_trans(m, from, (from.0, to.1), to);
    }
}

/// Any two cells that a room of floor encloses are connected.
pub proof fn lemma_room_connected(m: TileGrid, room: Rect, a: (int, int), b: (int, int))
    requires
        forall|x: int, y: int| room.encloses(x, y) ==> #[trigger] m.is_floor((x, y)),
        room.encloses(a.0, a.1),
        room.encloses(b.0, b.1),
    ensures
        m.connected(a, b),
{
    assert forall|x: int, y: int| on_corridor(a, b, true, x, y) implies #[trigger] m.is_floor(
        (x, y),
    ) by {
        assert(room.encloses(x, y));
    }
    lemma_corridor_connected(m, a, b, true);
}

} // verus!
