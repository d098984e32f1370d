//! Keeping the two visibility layers of a map: what is in view now, and what
//! has been seen at some time.

use vstd::prelude::*;
use crate::grid::{
    column_of, in_grid, lemma_index_in_range, lemma_index_injective, lemma_index_onto, row_of,
};
use crate::tile_grid::TileGrid;

verus! {

/// What an observer sees: the cells in view, how far the observer sees, and
/// whether the cells in view have to be worked out again.
pub struct Viewshed {
    pub visible_tiles: Vec<(i32, i32)>,
    pub range: i32,
    pub dirty: bool,
}

/// The cells in view on a map of the given size for an observer at `origin`
/// to whom the cells `seen` are visible: the cells of `seen` that lie on the
/// map, in their order, and then `origin` itself if it lies on the map and
/// is not among them.
pub open spec fn cells_in_view(
    width: int,
    height: int,
    origin: (i32, i32),
    seen: Seq<(i32, i32)>,
) -> Seq<(i32, i32)> {
    let kept = seen.filter(|c: (i32, i32)| in_grid(width, height, c.0 as int, c.1 as int));
    if in_grid(width, height, origin.0 as int, origin.1 as int) && !kept.contains(origin) {
        kept.push(origin)
    } else {
        kept
    }
}

/// A cell is in view if and only if it lies on the map and either is one of
/// the cells seen or is the observer's own cell.
pub proof fn lemma_cells_in_view(
    width: int,
    height: int,
    origin: (i32, i32),
    seen: Seq<(i32, i32)>,
    c: (i32, i32),
)
    ensures
        cells_in_view(width, height, origin, seen).contains(c) <==> (in_grid(
            width,
            height,
            c.0 as int,
            c.1 as int,
        ) && (seen.contains(c) || c == origin)),
{
    let on_map = |c: (i32, i32)| in_grid(width, height, c.0 as int, c.1 as int);
    let kept = seen.filter(on_map);
    let all = cells_in_view(width, height, origin, seen);
    if kept.contains(c) {
        seen.lemma_filter_contains_rev(on_map, c);
        let i = choose|i: int| 0 <= i < kept.len() && kept[i] == c;
        seen.lemma_filter_pred(on_map, i);
    }
    if seen.contains(c) && on_map(c) {
        let i = choose|i: int| 0 <= i < seen.len() && seen[i] == c;
        seen.lemma_filter_contains(on_map, i);
    }
    assert(kept.contains(c) <==> (seen.contains(c) && on_map(c)));
    if on_map(origin) && !kept.contains(origin) {
        assert(all == kept.push(origin));
        if all.contains(c) {
            let i = choose|i: int| 0 <= i < all.len() && all[i] == c;
            if i < kept.len() {
                assert(kept[i] == c);
            }
        }
        if kept.contains(c) {
            let i = choose|i: int| 0 <= i < kept.len() && kept[i] == c;
            assert(all[i] == c);
        }
        assert(all[kept.len() as int] == origin);
    }
}

/// What a refresh makes of a map and a viewshed for an observer at `origin`
/// to whom the cells `seen` are visible. A viewshed that is not dirty leaves
/// both as they are. A dirty one is cleared of its mark and notes the cells
/// in view, and the map shows them.
pub open spec fn refreshed(
    before: &TileGrid,
    was: &Viewshed,
    after: &TileGrid,
    now: &Viewshed,
    origin: (i32, i32),
    seen: Seq<(i32, i32)>,
) -> bool {
    &&& now.range == was.range
    &&& if was.dirty {
        &&& !now.dirty
        &&& now.visible_tiles@ == cells_in_view(
            before.width as int,
            before.height as int,
            origin,
            seen,
        )
        &&& after.shows(before, now.visible_tiles@)
    } else {
        *after == *before && *now == *was
    }
}

/// The map `after` is `before` with every cell revealed; what is in view,
/// and the size, the tiles and the rooms, are those of `before`.
pub open spec fn all_revealed(before: &TileGrid, after: &TileGrid) -> bool {
    &&& after.width == before.width
    &&& after.height == before.height
    &&& after.tiles@ == before.tiles@
    &&& after.rooms@ == before.rooms@
    &&& after.visible_tiles@ == before.visible_tiles@
    &&& after.revealed_tiles@.len() == before.revealed_tiles@.len()
    &&& forall|i: int| 0 <= i < after.revealed_tiles@.len() ==> after.revealed_tiles@[i]
}

impl TileGrid {
    /// The map is `before` with its visibility layers brought up to date for
    /// the cells `cells` in view: a cell is in view if and only if it is one
    /// of `cells`, and it is revealed if and only if it was revealed on
    /// `before` or is in view now. Size, tiles and rooms are those of `before`.
    pub open spec fn shows(&self, before: &TileGrid, cells: Seq<(i32, i32)>) -> bool {
        &&& self.width == before.width
        &&& self.height == before.height
        &&& self.tiles@ == before.tiles@
        &&& self.rooms@ == before.rooms@
        &&& forall|x: int, y: int|
            self.has(x, y) ==> #[trigger] self.visible_at(x, y) == cells.contains(
                (x as i32, y as i32),
            )
        &&& forall|x: int, y: int|
            self.has(x, y) ==> #[trigger] self.revealed_at(x, y) == (before.revealed_at(x, y)
                || cells.contains((x as i32, y as i32)))
    }

    /// Takes every cell out of view; what has been revealed stays revealed.
    pub fn clear_visible(&mut self)
        requires
            old(self).wf(),
        ensures
            final(self).wf(),
            final(self).width == old(self).width,
            final(self).height == old(self).height,
            final(self).tiles@ == old(self).tiles@,
            final(self).rooms@ == old(self).rooms@,
            final(self).revealed_tiles@ == old(self).revealed_tiles@,
            forall|i: int| 0 <= i < final(self).visible_tiles@.len() ==> !final(self).visible_tiles@[i],
    {
        let mut i: usize = 0;
        while i < self.visible_tiles.len()
            invariant
                self.wf(),
                self.width == old(self).width,
                self.height == old(self).height,
                self.tiles@ == old(self).tiles@,
                self.rooms@ == old(self).rooms@,
                self.revealed_tiles@ == old(self).revealed_tiles@,
                i <= self.visible_tiles@.len(),
                forall|k: int| 0 <= k < i ==> !self.visible_tiles@[k],
            decreases self.visible_tiles@.len() - i,
        {
            self.visible_tiles.set(i, false);
            i = i + 1;
        }
    }

    /// Brings the cell `(x, y)` into view and reveals it.
    pub fn mark_visible(&mut self, x: i32, y: i32)
        requires
            old(self).wf(),
            old(self).has(x as int, y as int),
        ensures
            final(self).wf(),
            final(self).width == old(self).width,
            final(self).height == old(self).height,
            final(self).tiles@ == old(self).tiles@,
            final(self).rooms@ == old(self).rooms@,
            forall|cx: int, cy: int|
                old(self).has(cx, cy) ==> #[trigger] final(self).visible_at(cx, cy) == (old(
                    self,
                ).visible_at(cx, cy) || (cx == x && cy == y)),
            forall|cx: int, cy: int|
                old(self).has(cx, cy) ==> #[trigger] final(self).revealed_at(cx, cy) == (old(
                    self,
                ).revealed_at(cx, cy) || (cx == x && cy == y)),
    {
        let idx = self.xy_idx(x, y);
        self.revealed_tiles.set(idx, true);
        self.visible_tiles.set(idx, true);
        proof {
            assert forall|cx: int, cy: int| old(self).has(cx, cy) implies (#[trigger] self.visible_at(
                cx,
                cy,
            ) == (old(self).visible_at(cx, cy) || (cx == x && cy == y))) && (self.revealed_at(cx, cy)
                == (old(self).revealed_at(cx, cy) || (cx == x && cy == y))) by {
                lemma_index_in_range(self.width as int, self.height as int, cx, cy);
                if self.index_of(cx, cy) == idx {
                    lemma_index_injective(self.width as int, cx, cy, x as int, y as int);
                }
            }
            assert forall|cx: int, cy: int| old(self).has(cx, cy) implies #[trigger] self.revealed_at(
                cx,
                cy,
            ) == (old(self).revealed_at(cx, cy) || (cx == x && cy == y)) by {
                assert(self.visible_at(cx, cy) == (old(self).visible_at(cx, cy) || (cx == x && cy
                    == y)));
            }
        }
    }
}

/// Whether `cell` is one of `cells`.
fn lists(cells: &Vec<(i32, i32)>, cell: (i32, i32)) -> (found: bool)
    ensures
        found == cells@.contains(cell),
{
    let mut i: usize = 0;
    while i < cells.len()
        invariant
            i <= cells@.len(),
            forall|k: int| 0 <= k < i ==> cells@[k] != cell,
        decreases cells@.len() - i,
    {
        if cells[i].0 == cell.0 && cells[i].1 == cell.1 {
            return true;
        }
        i = i + 1;
    }
    false
}

/// The cells in view for an observer at `(x, y)` to whom the cells `seen`
/// are visible.
pub fn collect_view(map: &TileGrid, x: i32, y: i32, seen: &Vec<(i32, i32)>) -> (cells: Vec<
    (i32, i32),
>)
    ensures
        cells@ == cells_in_view(map.width as int, map.height as int, (x, y), seen@),
        forall|k: int| 0 <= k < cells@.len() ==> map.has(cells@[k].0 as int, cells@[k].1 as int),
{
    let ghost on_map = |c: (i32, i32)| in_grid(map.width as int, map.height as int, c.0 as int, c.1 as int);
    let mut cells: Vec<(i32, i32)> = Vec::new();
    let mut i: usize = 0;
    proof {
        reveal(Seq::filter);
        assert(seen@.take(0).filter(on_map) == Seq::<(i32, i32)>::empty());
    }
    while i < seen.len()
        invariant
            i <= seen@.len(),
            on_map == |c: (i32, i32)|
                in_grid(map.width as int, map.height as int, c.0 as int, c.1 as int),
            cells@ == seen@.take(i as int).filter(on_map),
            forall|k: int| 0 <= k < cells@.len() ==> map.has(cells@[k].0 as int, cells@[k].1 as int),
        decreases seen@.len() - i,
    {
        let c = seen[i];
        proof {
            reveal(Seq::filter);
            assert(seen@.take(i + 1).drop_last() == seen@.take(i as int));
            assert(seen@.take(i + 1).last() == c);
        }
        if map.in_bounds(c.0, c.1) {
            cells.push(c);
        }
        i = i + 1;
    }
    assert(seen@.take(seen@.len() as int) == seen@);
    if map.in_bounds(x, y) && !lists(&cells, (x, y)) {
        cells.push((x, y));
    }
    cells
}

/// Brings the visibility layers of `map` up to date for an observer at
/// `(x, y)` to whom the cells `seen` are visible, if the viewshed is marked
/// dirty; a viewshed that is not dirty leaves everything as it is.
///
/// The cells in view are those of `seen` that lie on the map, and the
/// observer's own cell whether `seen` has it or not. They replace the cells
/// in view so far, are added to the revealed cells, and are noted in the
/// viewshed, which is then no longer dirty.
pub fn refresh_visibility(
    map: &mut TileGrid,
    viewshed: &mut Viewshed,
    x: i32,
    y: i32,
    seen: &Vec<(i32, i32)>,
)
    requires
        old(map).wf(),
    ensures
        final(map).wf(),
        refreshed(old(map), old(viewshed), final(map), final(viewshed), (x, y), seen@),
        old(viewshed).dirty && old(map).has(x as int, y as int) ==> final(map).visible_at(
            x as int,
            y as int,
        ),
{
    if !viewshed.dirty {
        return ;
    }
    let cells = collect_view(map, x, y, seen);
    proof {
        lemma_cells_in_view(map.width as int, map.height as int, (x, y), seen@, (x, y));
    }
    map.clear_visible();
    proof {
        assert forall|cx: int, cy: int| map.has(cx, cy) implies !#[trigger] map.visible_at(
            cx,
            cy,
        ) by {
            lemma_index_in_range(map.width as int, map.height as int, cx, cy);
        }
        assert(cells@.take(0) == Seq::<(i32, i32)>::empty());
    }
    let mut i: usize = 0;
    while i < cells.len()
        invariant
            i <= cells@.len(),
            map.wf(),
            old(map).wf(),
            forall|k: int| 0 <= k < cells@.len() ==> map.has(cells@[k].0 as int, cells@[k].1 as int),
            map.shows(old(map), cells@.take(i as int)),
        decreases cells@.len() - i,
    {
        let c = cells[i];
        let ghost prior = *map;
        map.mark_visible(c.0, c.1);
        proof {
            let shorter = cells@.take(i as int);
            let longer = cells@.take(i + 1);
            assert(longer == shorter.push(c));
            assert forall|cx: int, cy: int| map.has(cx, cy) implies (#[trigger] map.visible_at(
                cx,
                cy,
            ) == longer.contains((cx as i32, cy as i32))) by {
                let cell = (cx as i32, cy as i32);
                assert(prior.visible_at(cx, cy) == shorter.contains(cell));
                if shorter.contains(cell) {
                    let k = choose|k: int| 0 <= k < shorter.len() && shorter[k] == cell;
                    assert(longer[k] == cell);
                }
                if cell == c {
                    assert(longer[i as int] == cell);
                }
            }
            assert forall|cx: int, cy: int| map.has(cx, cy) implies (#[trigger] map.revealed_at(
                cx,
                cy,
            ) == (old(map).revealed_at(cx, cy) || longer.contains((cx as i32, cy as i32)))) by {
                let cell = (cx as i32, cy as i32);
                assert(prior.revealed_at(cx, cy) == (old(map).revealed_at(cx, cy)
                    || shorter.contains(cell)));
                if shorter.contains(cell) {
                    let k = choose|k: int| 0 <= k < shorter.len() && shorter[k] == cell;
                    assert(longer[k] == cell);
                }
                if cell == c {
                    assert(longer[i as int] == cell);
                }
            }
        }
        i = i + 1;
    }
    assert(cells@.take(cells@.len() as int) == cells@);
    viewshed.visible_tiles = cells;
    viewshed.dirty = false;
}

/// Two maps of one size that agree cell by cell on what is in view and on
/// what is revealed have the same visibility layers.
proof fn lemma_layers_agree(a: TileGrid, b: TileGrid)
    requires
        a.wf(),
        b.wf(),
        a.width == b.width,
        a.height == b.height,
        forall|x: int, y: int| a.has(x, y) ==> #[trigger] a.visible_at(x, y) == b.visible_at(x, y),
        forall|x: int, y: int| a.has(x, y) ==> #[trigger] a.revealed_at(x, y) == b.revealed_at(x, y),
    ensures
        a.visible_tiles@ == b.visible_tiles@,
        a.revealed_tiles@ == b.revealed_tiles@,
{
    assert forall|i: int| 0 <= i < a.visible_tiles@.len() implies a.visible_tiles@[i]
        == b.visible_tiles@[i] && a.revealed_tiles@[i] == b.revealed_tiles@[i] by {
        lemma_index_onto(a.width as int, a.height as int, i);
        let x = column_of(a.width as int, i);
        let y = row_of(a.width as int, i);
        assert(a.visible_at(x, y) == b.visible_at(x, y));
        assert(a.revealed_at(x, y) == b.revealed_at(x, y));
    }
    assert(a.visible_tiles@ =~= b.visible_tiles@);
    assert(a.revealed_tiles@ =~= b.revealed_tiles@);
}

/// A refresh that is repeated for an observer who has not moved changes
/// nothing: if the viewshed is marked dirty again after a refresh and the
/// same cells, in whatever order, are visible from the same place, the
/// second refresh leaves the map as the first refresh left it, and notes the
/// same cells in the viewshed.
pub proof fn lemma_refresh_idempotent(
    before: TileGrid,
    was: Viewshed,
    once: TileGrid,
    then: Viewshed,
    marked: Viewshed,
    twice: TileGrid,
    now: Viewshed,
    origin: (i32, i32),
    seen: Seq<(i32, i32)>,
    seen_again: Seq<(i32, i32)>,
)
    requires
        once.wf(),
        twice.wf(),
        was.dirty,
        refreshed(&before, &was, &once, &then, origin, seen),
        marked.dirty,
        marked.range == then.range,
        forall|c: (i32, i32)| seen.contains(c) <==> seen_again.contains(c),
        refreshed(&once, &marked, &twice, &now, origin, seen_again),
    ensures
        twice.width == once.width,
        twice.height == once.height,
        twice.tiles@ == once.tiles@,
        twice.rooms@ == once.rooms@,
        twice.visible_tiles@ == once.visible_tiles@,
        twice.revealed_tiles@ == once.revealed_tiles@,
        forall|c: (i32, i32)| now.visible_tiles@.contains(c) <==> then.visible_tiles@.contains(c),
        seen_again == seen ==> now.visible_tiles@ == then.visible_tiles@,
        now.range == then.range,
        now.dirty == then.dirty,
{
    let cells = then.visible_tiles@;
    let cells_again = now.visible_tiles@;
    assert forall|c: (i32, i32)| cells_again.contains(c) <==> cells.contains(c) by {
        lemma_cells_in_view(before.width as int, before.height as int, origin, seen, c);
        lemma_cells_in_view(once.width as int, once.height as int, origin, seen_again, c);
    }
    assert forall|x: int, y: int| twice.has(x, y) implies #[trigger] twice.visible_at(x, y)
        == once.visible_at(x, y) by {
        let c = (x as i32, y as i32);
        assert(cells_again.contains(c) <==> cells.contains(c));
        assert(once.visible_at(x, y) == cells.contains(c));
    }
    assert forall|x: int, y: int| twice.has(x, y) implies #[trigger] twice.revealed_at(x, y)
        == once.revealed_at(x, y) by {
        let c = (x as i32, y as i32);
        assert(cells_again.contains(c) <==> cells.contains(c));
        assert(once.revealed_at(x, y) == (before.revealed_at(x, y) || cells.contains(c)));
    }
    lemma_layers_agree(twice, once);
}

/// Reveals every cell of the map; what is in view stays as it is.
pub fn cheat_reveal_map(map: &mut TileGrid)
    requires
        old(map).wf(),
    ensures
        final(map).wf(),
        all_revealed(old(map), final(map)),
{
    let mut i: usize = 0;
    while i < map.revealed_tiles.len()
        invariant
            map.wf(),
            map.width == old(map).width,
            map.height == old(map).height,
            map.tiles@ == old(map).tiles@,
            map.rooms@ == old(map).rooms@,
            map.visible_tiles@ == old(map).visible_tiles@,
            i <= map.revealed_tiles@.len(),
            forall|k: int| 0 <= k < i ==> map.revealed_tiles@[k],
        decreases map.revealed_tiles@.len() - i,
    {
        map.revealed_tiles.set(i, true);
        i = i + 1;
    }
}

} // verus!
