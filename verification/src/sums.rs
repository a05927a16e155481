//! Sums of an integer function over the cells of a window, in the order the
//! loops of this library walk them: row after row, each row from the left.

use vstd::prelude::*;

verus! {

/// A value for each cell `(x, y)` of a window.
pub type Cells = spec_fn(int, int) -> int;

/// `f(0, y) + ... + f(width - 1, y)`.
pub open spec fn row_sum(f: Cells, y: int, width: int) -> int
    decreases width,
{
    if width <= 0 {
        0
    } else {
        row_sum(f, y, width - 1) + f(width - 1, y)
    }
}

/// The sum of `f` over the first `height` rows of `width` cells each.
pub open spec fn grid_sum(f: Cells, width: int, height: int) -> int
    decreases height,
{
    if height <= 0 {
        0
    } else {
        grid_sum(f, width, height - 1) + row_sum(f, height - 1, width)
    }
}

/// The sum of `f` over `rows` whole rows and the first `cells` cells of the
/// next one.
pub open spec fn partial_sum(f: Cells, width: int, rows: int, cells: int) -> int {
    grid_sum(f, width, rows) + row_sum(f, rows, cells)
}

/// `f` stays between `low` and `high` on the window.
pub open spec fn cells_within(f: Cells, width: int, height: int, low: int, high: int) -> bool {
    forall|x: int, y: int| 0 <= x < width && 0 <= y < height ==> low <= #[trigger] f(x, y) <= high
}

/// `f` is at most `g` on every cell of the window.
pub open spec fn cells_below(f: Cells, g: Cells, width: int, height: int) -> bool {
    forall|x: int, y: int| 0 <= x < width && 0 <= y < height ==> #[trigger] f(x, y) <= g(x, y)
}

/// The cell function `a * f + b * g + c`.
pub open spec fn blend(f: Cells, g: Cells, a: int, b: int, c: int) -> Cells {
    |x: int, y: int| a * f(x, y) + b * g(x, y) + c
}

/// A row's sum lies between the bounds of its cells, taken `cells` times.
pub proof fn lemma_row_sum_bounds(f: Cells, y: int, width: int, cells: int, low: int, high: int)
    requires
        0 <= cells <= width,
        forall|x: int| 0 <= x < width ==> low <= #[trigger] f(x, y) <= high,
    ensures
        low * cells <= row_sum(f, y, cells) <= high * cells,
    decreases cells,
{
    if cells > 0 {
        lemma_row_sum_bounds(f, y, width, cells - 1, low, high);
        assert(low <= f(cells - 1, y) <= high);
        assert(low * cells == low * (cells - 1) + low && high * cells == high * (cells - 1) + high)
            by (nonlinear_arith);
    } else {
        assert(low * cells == 0 && high * cells == 0) by (nonlinear_arith)
            requires
                cells == 0,
        ;
    }
}

/// A window's sum lies between the bounds of its cells, taken once per cell.
pub proof fn lemma_grid_sum_bounds(f: Cells, width: int, height: int, rows: int, low: int, high: int)
    requires
        0 <= width,
        0 <= rows <= height,
        cells_within(f, width, height, low, high),
    ensures
        low * (width * rows) <= grid_sum(f, width, rows) <= high * (width * rows),
    decreases rows,
{
    if rows > 0 {
        lemma_grid_sum_bounds(f, width, height, rows - 1, low, high);
        lemma_row_sum_bounds(f, rows - 1, width, width, low, high);
        assert(low * (width * rows) == low * (width * (rows - 1)) + low * width && high * (width
            * rows) == high * (width * (rows - 1)) + high * width) by (nonlinear_arith);
    } else {
        assert(low * (width * rows) == 0 && high * (width * rows) == 0) by (nonlinear_arith)
            requires
                rows == 0,
        ;
    }
}

/// Where one function is at most another on a row, so are their sums.
pub proof fn lemma_row_sum_below(f: Cells, g: Cells, y: int, width: int)
    requires
        forall|x: int| 0 <= x < width ==> #[trigger] f(x, y) <= g(x, y),
    ensures
        row_sum(f, y, width) <= row_sum(g, y, width),
    decreases width,
{
    if width > 0 {
        lemma_row_sum_below(f, g, y, width - 1);
        assert(f(width - 1, y) <= g(width - 1, y));
    }
}

/// Where one function is at most another on a window, so are their sums.
pub proof fn lemma_grid_sum_below(f: Cells, g: Cells, width: int, height: int)
    requires
        cells_below(f, g, width, height),
    ensures
        grid_sum(f, width, height) <= grid_sum(g, width, height),
    decreases height,
{
    if height > 0 {
        lemma_grid_sum_below(f, g, width, height - 1);
        lemma_row_sum_below(f, g, height - 1, width);
    }
}

/// The sum of `a * f + b * g + c` over a row.
pub proof fn lemma_row_sum_blend(f: Cells, g: Cells, a: int, b: int, c: int, y: int, width: int)
    requires
        0 <= width,
    ensures
        row_sum(blend(f, g, a, b, c), y, width) == a * row_sum(f, y, width) + b * row_sum(
            g,
            y,
            width,
        ) + c * width,
    decreases width,
{
    if width > 0 {
        lemma_row_sum_blend(f, g, a, b, c, y, width - 1);
        let sf = row_sum(f, y, width - 1);
        let sg = row_sum(g, y, width - 1);
        let vf = f(width - 1, y);
        let vg = g(width - 1, y);
        assert(blend(f, g, a, b, c)(width - 1, y) == a * vf + b * vg + c);
        assert(a * (sf + vf) + b * (sg + vg) + c * width == (a * sf + b * sg + c * (width - 1)) + (
        a * vf + b * vg + c)) by (nonlinear_arith);
    } else {
        assert(a * 0 + b * 0 + c * 0 == 0) by (nonlinear_arith);
    }
}

/// The sum of `a * f + b * g + c` over a window.
pub proof fn lemma_grid_sum_blend(
    f: Cells,
    g: Cells,
    a: int,
    b: int,
    c: int,
    width: int,
    height: int,
)
    requires
        0 <= width,
        0 <= height,
    ensures
        grid_sum(blend(f, g, a, b, c), width, height) == a * grid_sum(f, width, height) + b
            * grid_sum(g, width, height) + c * (width * height),
    decreases height,
{
    if height > 0 {
        lemma_grid_sum_blend(f, g, a, b, c, width, height - 1);
        lemma_row_sum_blend(f, g, a, b, c, height - 1, width);
        let sf = grid_sum(f, width, height - 1);
        let sg = grid_sum(g, width, height - 1);
        let rf = row_sum(f, height - 1, width);
        let rg = row_sum(g, height - 1, width);
        assert(a * (sf + rf) + b * (sg + rg) + c * (width * height) == (a * sf + b * sg + c * (
        width * (height - 1))) + (a * rf + b * rg + c * width)) by (nonlinear_arith);
    } else {
        assert(a * 0 + b * 0 + c * (width * 0) == 0) by (nonlinear_arith);
    }
}

/// A row of values that are never negative has a sum that is not negative.
pub proof fn lemma_row_sum_nonnegative(f: Cells, y: int, width: int)
    requires
        forall|x: int| 0 <= x < width ==> 0 <= #[trigger] f(x, y),
    ensures
        row_sum(f, y, width) >= 0,
    decreases width,
{
    if width > 0 {
        lemma_row_sum_nonnegative(f, y, width - 1);
        assert(0 <= f(width - 1, y));
    }
}

/// A row of values that are never negative sums to at least each of them.
pub proof fn lemma_row_sum_reaches(f: Cells, y: int, width: int, x: int)
    requires
        0 <= x < width,
        forall|other: int| 0 <= other < width ==> 0 <= #[trigger] f(other, y),
    ensures
        row_sum(f, y, width) >= f(x, y),
    decreases width,
{
    if x < width - 1 {
        lemma_row_sum_reaches(f, y, width - 1, x);
        assert(0 <= f(width - 1, y));
    } else {
        lemma_row_sum_nonnegative(f, y, width - 1);
    }
}

/// Whole rows of values that are never negative have a sum that is not
/// negative.
pub proof fn lemma_grid_sum_nonnegative(f: Cells, width: int, height: int)
    requires
        forall|x: int, y: int| 0 <= x < width && 0 <= y < height ==> 0 <= #[trigger] f(x, y),
    ensures
        grid_sum(f, width, height) >= 0,
    decreases height,
{
    if height > 0 {
        lemma_grid_sum_nonnegative(f, width, height - 1);
        lemma_row_sum_nonnegative(f, height - 1, width);
    }
}

/// A window of values that are never negative sums to at least each of
/// them.
pub proof fn lemma_grid_sum_reaches(f: Cells, width: int, height: int, x: int, y: int)
    requires
        0 <= x < width,
        0 <= y < height,
        forall|ox: int, oy: int| 0 <= ox < width && 0 <= oy < height ==> 0 <= #[trigger] f(ox, oy),
    ensures
        grid_sum(f, width, height) >= f(x, y),
    decreases height,
{
    if y < height - 1 {
        lemma_grid_sum_reaches(f, width, height - 1, x, y);
        lemma_row_sum_nonnegative(f, height - 1, width);
    } else {
        lemma_row_sum_reaches(f, y, width, x);
        lemma_grid_sum_nonnegative(f, width, height - 1);
    }
}

} // verus!
