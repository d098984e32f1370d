//! Row-major addressing of a rectangular grid of cells.

use vstd::prelude::*;

verus! {

/// The cell `(x, y)` lies in a grid of `width` columns and `height` rows.
pub open spec fn in_grid(width: int, height: int, x: int, y: int) -> bool {
    0 <= x < width && 0 <= y < height
}

/// The position of cell `(x, y)` in row-major order.
pub open spec fn cell_index(width: int, x: int, y: int) -> int {
    y * width + x
}

/// The index of a cell of the grid is a position in `[0, width * height)`.
pub proof fn lemma_index_in_range(width: int, height: int, x: int, y: int)
    requires
        in_grid(width, height, x, y),
    ensures
        0 <= cell_index(width, x, y) < width * height,
{
    assert(0 <= y * width) by (nonlinear_arith)
        requires
            0 <= y,
            0 < width,
    ;
    assert((y + 1) * width <= height * width) by (nonlinear_arith)
        requires
            y + 1 <= height,
            0 < width,
    ;
    assert((y + 1) * width == y * width + width) by (nonlinear_arith);
    assert(height * width == width * height) by (nonlinear_arith);
}

/// Two cells of one grid with the same index are the same cell.
pub proof fn lemma_index_injective(width: int, x1: int, y1: int, x2: int, y2: int)
    requires
        0 <= x1 < width,
        0 <= x2 < width,
        cell_index(width, x1, y1) == cell_index(width, x2, y2),
    ensures
        x1 == x2,
        y1 == y2,
{
    if y1 < y2 {
        assert((y1 + 1) * width <= y2 * width) by (nonlinear_arith)
            requires
                y1 + 1 <= y2,
                0 < width,
        ;
        assert((y1 + 1) * width == y1 * width + width) by (nonlinear_arith);
    } else if y2 < y1 {
        assert((y2 + 1) * width <= y1 * width) by (nonlinear_arith)
            requires
                y2 + 1 <= y1,
                0 < width,
        ;
        assert((y2 + 1) * width == y2 * width + width) by (nonlinear_arith);
    }
}

/// The column of the cell at position `i` in row-major order.
pub open spec fn column_of(width: int, i: int) -> int {
    i % width
}

/// The row of the cell at position `i` in row-major order.
pub open spec fn row_of(width: int, i: int) -> int {
    i / width
}

/// Every position in `[0, width * height)` is the index of the cell in column
/// `column_of(width, i)` of row `row_of(width, i)`, and that cell lies in the grid.
pub proof fn lemma_index_onto(width: int, height: int, i: int)
    requires
        0 < width,
        0 <= i < width * height,
    ensures
        in_grid(width, height, column_of(width, i), row_of(width, i)),
        cell_index(width, column_of(width, i), row_of(width, i)) == i,
{
    let q = i / width;
    let r = i % width;
    assert(i == q * width + r && 0 <= r < width) by (nonlinear_arith)
        requires
            q == i / width,
            r == i % width,
            0 < width,
    ;
    assert(0 <= q) by (nonlinear_arith)
        requires
            q == i / width,
            0 <= i,
            0 < width,
    ;
    if q >= height {
        assert(q * width >= height * width) by (nonlinear_arith)
            requires
                q >= height,
                0 < width,
        ;
        assert(height * width == width * height) by (nonlinear_arith);
    }
}

/// Row-major indexing is a bijection between the cells of the grid and the
/// positions `[0, width * height)`.
pub proof fn lemma_index_bijection(width: int, height: int)
    requires
        0 < width,
        0 < height,
    ensures
        forall|x: int, y: int|
            in_grid(width, height, x, y) ==> 0 <= #[trigger] cell_index(width, x, y) < width
                * height,
        forall|x1: int, y1: int, x2: int, y2: int|
            in_grid(width, height, x1, y1) && in_grid(width, height, x2, y2) && #[trigger] cell_index(
                width,
                x1,
                y1,
            ) == #[trigger] cell_index(width, x2, y2) ==> x1 == x2 && y1 == y2,
        forall|i: int|
            0 <= i < width * height ==> in_grid(
                width,
                height,
                #[trigger] column_of(width, i),
                row_of(width, i),
            ) && cell_index(width, column_of(width, i), row_of(width, i)) == i,
{
    assert forall|x: int, y: int| in_grid(width, height, x, y) implies 0 <= #[trigger] cell_index(
        width,
        x,
        y,
    ) < width * height by {
        lemma_index_in_range(width, height, x, y);
    }
    assert forall|x1: int, y1: int, x2: int, y2: int|
        in_grid(width, height, x1, y1) && in_grid(width, height, x2, y2) && #[trigger] cell_index(
            width,
            x1,
            y1,
        ) == #[trigger] cell_index(width, x2, y2) implies x1 == x2 && y1 == y2 by {
        lemma_index_injective(width, x1, y1, x2, y2);
    }
    assert forall|i: int| 0 <= i < width * height implies in_grid(
        width,
        height,
        #[trigger] column_of(width, i),
        row_of(width, i),
    ) && cell_index(width, column_of(width, i), row_of(width, i)) == i by {
        lemma_index_onto(width, height, i);
    }
}

} // verus!
