//! The glyph: a rectangular grid of part labels, its mirror image and its
//! whole-number enlargements.

use vstd::arithmetic::div_mod::lemma_fundamental_div_mod_converse;
use vstd::arithmetic::div_mod::lemma_multiply_divide_lt;
use vstd::prelude::*;

verus! {

/// The part of the glyph a cell belongs to.
#[derive(Clone, Copy, Debug, PartialEq, Eq, Structural)]
pub enum Part {
    /// Background: never painted.
    Rest,
    /// The body of the figure.
    Body,
    /// The visor.
    Face,
}

/// A grid of labels as the contracts see it: rows from the top, each row
/// from the left.
pub type Grid = Seq<Seq<Part>>;

/// `grid` has `height` rows of `width` cells each, and at least one cell.
pub open spec fn is_grid(grid: Grid, width: int, height: int) -> bool {
    &&& width > 0
    &&& height > 0
    &&& grid.len() == height
    &&& forall|y: int| 0 <= y < height ==> (#[trigger] grid[y]).len() == width
}

/// The number of cells in a row of `grid`.
pub open spec fn grid_width(grid: Grid) -> int {
    grid[0].len() as int
}

/// The number of rows of `grid`.
pub open spec fn grid_height(grid: Grid) -> int {
    grid.len() as int
}

/// `grid` is not empty and all its rows are equally long.
pub open spec fn rectangular(grid: Grid) -> bool {
    is_grid(grid, grid_width(grid), grid_height(grid))
}

/// Some cell of `grid` is labelled `part`.
pub open spec fn holds_part(grid: Grid, part: Part) -> bool {
    exists|x: int, y: int| 0 <= y < grid.len() && 0 <= x < grid[y].len() && grid[y][x] == part
}

/// Each of the three parts labels some cell of `grid`.
pub open spec fn holds_every_part(grid: Grid) -> bool {
    holds_part(grid, Part::Rest) && holds_part(grid, Part::Body) && holds_part(grid, Part::Face)
}

/// The horizontal mirror image: column `x` becomes column `width - 1 - x`.
pub open spec fn mirrored(grid: Grid) -> Grid {
    Seq::new(grid.len(), |y: int| Seq::new(grid[y].len(), |x: int| grid[y][grid[y].len() - 1 - x]))
}

/// The enlargement by `factor`: each cell becomes a square block of
/// `factor` by `factor` cells with the same label.
pub open spec fn scaled(grid: Grid, factor: int) -> Grid {
    Seq::new(
        (factor * grid.len()) as nat,
        |y: int|
            Seq::new(
                (factor * grid[y / factor].len()) as nat,
                |x: int| grid[y / factor][x / factor],
            ),
    )
}

/// The rows of a nested vector as a grid.
pub open spec fn rows_of(rows: Seq<Vec<Part>>) -> Grid {
    Seq::new(rows.len(), |y: int| rows[y]@)
}

/// The built-in glyph, five cells wide and seven high.
pub open spec fn base_grid() -> Grid {
    seq![
        seq![Part::Rest, Part::Rest, Part::Rest, Part::Rest, Part::Rest],
        seq![Part::Rest, Part::Body, Part::Body, Part::Body, Part::Rest],
        seq![Part::Body, Part::Body, Part::Face, Part::Face, Part::Rest],
        seq![Part::Body, Part::Body, Part::Body, Part::Body, Part::Rest],
        seq![Part::Rest, Part::Body, Part::Body, Part::Body, Part::Rest],
        seq![Part::Rest, Part::Body, Part::Rest, Part::Body, Part::Rest],
        seq![Part::Rest, Part::Rest, Part::Rest, Part::Rest, Part::Rest],
    ]
}

/// Mirroring keeps the dimensions.
pub proof fn lemma_mirrored_is_grid(grid: Grid)
    requires
        rectangular(grid),
    ensures
        is_grid(mirrored(grid), grid_width(grid), grid_height(grid)),
{
}

/// Mirroring twice gives the grid back.
pub proof fn lemma_mirrored_twice(grid: Grid)
    requires
        rectangular(grid),
    ensures
        mirrored(mirrored(grid)) == grid,
{
    let twice = mirrored(mirrored(grid));
    assert forall|y: int| 0 <= y < grid.len() implies #[trigger] twice[y] == grid[y] by {
        assert(mirrored(grid)[y].len() == grid[y].len());
        assert(twice[y] =~= grid[y]);
    }
    assert(twice =~= grid);
}

/// A part that labels a cell of a grid labels a cell of its mirror image.
pub proof fn lemma_mirrored_holds_part(grid: Grid, part: Part)
    requires
        rectangular(grid),
        holds_part(grid, part),
    ensures
        holds_part(mirrored(grid), part),
{
    let (x, y) = choose|x: int, y: int|
        0 <= y < grid.len() && 0 <= x < grid[y].len() && grid[y][x] == part;
    let across = grid[y].len() - 1 - x;
    assert(mirrored(grid)[y][across] == part);
}

/// Enlarging multiplies both dimensions by the factor.
pub proof fn lemma_scaled_is_grid(grid: Grid, factor: int)
    requires
        rectangular(grid),
        factor >= 1,
    ensures
        is_grid(scaled(grid, factor), factor * grid_width(grid), factor * grid_height(grid)),
{
    let big = scaled(grid, factor);
    let w = grid_width(grid);
    let h = grid_height(grid);
    assert(factor * w > 0 && factor * h > 0) by (nonlinear_arith)
        requires
            factor >= 1,
            w > 0,
            h > 0,
    ;
    assert forall|y: int| 0 <= y < factor * h implies (#[trigger] big[y]).len() == factor * w by {
        lemma_multiply_divide_lt(y, factor, h);
        assert(0 <= y / factor) by (nonlinear_arith)
            requires
                0 <= y,
                factor >= 1,
        ;
        assert(grid[y / factor].len() == w);
    }
}

/// Enlarging by one changes nothing.
pub proof fn lemma_scaled_by_one(grid: Grid)
    requires
        rectangular(grid),
    ensures
        scaled(grid, 1) == grid,
{
    let same = scaled(grid, 1);
    assert(same.len() == grid.len());
    assert forall|y: int| 0 <= y < grid.len() implies #[trigger] same[y] == grid[y] by {
        assert(same[y] =~= grid[y]);
    }
    assert(same =~= grid);
}

/// In the enlargement by `factor`, the cell `(dx, dy)` of the block that
/// stands for the cell `(x, y)` carries the label of `(x, y)`.
pub proof fn lemma_scaled_block(grid: Grid, factor: int, x: int, y: int, dx: int, dy: int)
    requires
        rectangular(grid),
        factor >= 1,
        0 <= x < grid_width(grid),
        0 <= y < grid_height(grid),
        0 <= dx < factor,
        0 <= dy < factor,
    ensures
        0 <= factor * y + dy < factor * grid_height(grid),
        0 <= factor * x + dx < factor * grid_width(grid),
        scaled(grid, factor)[factor * y + dy][factor * x + dx] == grid[y][x],
{
    let w = grid_width(grid);
    let h = grid_height(grid);
    assert(0 <= factor * y + dy < factor * h && factor * y == y * factor) by (nonlinear_arith)
        requires
            0 <= y < h,
            0 <= dy < factor,
    ;
    assert(0 <= factor * x + dx < factor * w && factor * x == x * factor) by (nonlinear_arith)
        requires
            0 <= x < w,
            0 <= dx < factor,
    ;
    lemma_fundamental_div_mod_converse(factor * y + dy, factor, y, dy);
    lemma_fundamental_div_mod_converse(factor * x + dx, factor, x, dx);
    assert(grid[y].len() == w);
}

/// A part that labels a cell of a grid labels a cell of each enlargement.
pub proof fn lemma_scaled_holds_part(grid: Grid, factor: int, part: Part)
    requires
        rectangular(grid),
        factor >= 1,
        holds_part(grid, part),
    ensures
        holds_part(scaled(grid, factor), part),
{
    let (x, y) = choose|x: int, y: int|
        0 <= y < grid.len() && 0 <= x < grid[y].len() && grid[y][x] == part;
    assert(grid[y].len() == grid_width(grid));
    lemma_scaled_block(grid, factor, x, y, 0, 0);
    lemma_scaled_is_grid(grid, factor);
    let big = scaled(grid, factor);
    assert(big[factor * y].len() == factor * grid_width(grid));
    assert(big[factor * y][factor * x] == part);
}

/// The built-in glyph is five by seven and shows every part.
pub proof fn lemma_base_grid()
    ensures
        is_grid(base_grid(), 5, 7),
        holds_every_part(base_grid()),
{
    let g = base_grid();
    assert(g[0].len() == 5 && g[1].len() == 5 && g[2].len() == 5 && g[3].len() == 5 && g[4].len()
        == 5 && g[5].len() == 5 && g[6].len() == 5);
    assert(g[0][0] == Part::Rest);
    assert(g[1][1] == Part::Body);
    assert(g[2][2] == Part::Face);
}

/// A glyph: a non-empty rectangular grid of part labels.
#[derive(Debug, PartialEq, Eq)]
pub struct Pattern {
    description: Vec<Vec<Part>>,
    width: usize,
    height: usize,
}

impl View for Pattern {
    type V = Grid;

    closed spec fn view(&self) -> Grid {
        rows_of(self.description@)
    }
}

impl Pattern {
    #[verifier::type_invariant]
    spec fn well_formed(self) -> bool {
        is_grid(rows_of(self.description@), self.width as int, self.height as int)
    }

    /// The glyph with the given rows, if they are a non-empty rectangle.
    pub fn new(description: Vec<Vec<Part>>) -> (made: Option<Pattern>)
        ensures
            match made {
                Some(pattern) => pattern@ == rows_of(description@) && rectangular(pattern@),
                None => !rectangular(rows_of(description@)),
            },
    {
        let height = description.len();
        if height == 0 {
            return None;
        }
        let width = description[0].len();
        if width == 0 {
            return None;
        }
        let ghost grid = rows_of(description@);
        let mut y: usize = 1;
        while y < height
            invariant
                1 <= y <= height,
                height == description.len(),
                width == description[0].len(),
                grid == rows_of(description@),
                forall|seen: int| 0 <= seen < y ==> (#[trigger] grid[seen]).len() == width,
            decreases height - y,
        {
            if description[y].len() != width {
                assert(grid[y as int].len() != grid_width(grid));
                return None;
            }
            y += 1;
        }
        Some(Pattern { description, width, height })
    }

    /// The built-in glyph.
    pub fn base() -> (pattern: Pattern)
        ensures
            pattern@ == base_grid(),
    {
        let description = vec![
            vec![Part::Rest, Part::Rest, Part::Rest, Part::Rest, Part::Rest],
            vec![Part::Rest, Part::Body, Part::Body, Part::Body, Part::Rest],
            vec![Part::Body, Part::Body, Part::Face, Part::Face, Part::Rest],
            vec![Part::Body, Part::Body, Part::Body, Part::Body, Part::Rest],
            vec![Part::Rest, Part::Body, Part::Body, Part::Body, Part::Rest],
            vec![Part::Rest, Part::Body, Part::Rest, Part::Body, Part::Rest],
            vec![Part::Rest, Part::Rest, Part::Rest, Part::Rest, Part::Rest],
        ];
        proof {
            let rows = rows_of(description@);
            let g = base_grid();
            assert(rows.len() == 7);
            assert(rows[0] =~= g[0]);
            assert(rows[1] =~= g[1]);
            assert(rows[2] =~= g[2]);
            assert(rows[3] =~= g[3]);
            assert(rows[4] =~= g[4]);
            assert(rows[5] =~= g[5]);
            assert(rows[6] =~= g[6]);
            assert(rows =~= g);
            lemma_base_grid();
        }
        Pattern { description, width: 5, height: 7 }
    }

    /// The number of cells in a row.
    pub fn width(&self) -> (width: usize)
        ensures
            width == grid_width(self@),
            rectangular(self@),
    {
        proof {
            use_type_invariant(self);
        }
        self.width
    }

    /// The number of rows.
    pub fn height(&self) -> (height: usize)
        ensures
            height == grid_height(self@),
            rectangular(self@),
    {
        proof {
            use_type_invariant(self);
        }
        self.height
    }

    /// The label of the cell in column `x` of row `y`.
    pub fn part(&self, x: usize, y: usize) -> (part: Part)
        requires
            x < grid_width(self@),
            y < grid_height(self@),
        ensures
            part == self@[y as int][x as int],
    {
        proof {
            use_type_invariant(self);
        }
        self.description[y][x]
    }

    /// Whether some cell is labelled `part`.
    pub fn has_part(&self, part: Part) -> (found: bool)
        ensures
            found == holds_part(self@, part),
    {
        proof {
            use_type_invariant(self);
        }
        let ghost grid = self@;
        let mut y: usize = 0;
        while y < self.height
            invariant
                y <= self.height,
                grid == rows_of(self.description@),
                is_grid(grid, self.width as int, self.height as int),
                forall|cx: int, cy: int|
                    0 <= cy < y && 0 <= cx < self.width ==> #[trigger] grid[cy][cx] != part,
            decreases self.height - y,
        {
            let mut x: usize = 0;
            while x < self.width
                invariant
                    x <= self.width,
                    y < self.height,
                    grid == rows_of(self.description@),
                    is_grid(grid, self.width as int, self.height as int),
                    forall|cx: int, cy: int|
                        0 <= cy < y && 0 <= cx < self.width ==> #[trigger] grid[cy][cx] != part,
                    forall|cx: int| 0 <= cx < x ==> #[trigger] grid[y as int][cx] != part,
                decreases self.width - x,
            {
                assert(grid[y as int].len() == self.width);
                if self.description[y][x] == part {
                    assert(grid[y as int][x as int] == part);
                    return true;
                }
                x += 1;
            }
            y += 1;
        }
        assert forall|x: int, y: int|
            0 <= y < grid.len() && 0 <= x < grid[y].len() implies grid[y][x] != part by {
            assert(grid[y].len() == self.width);
        }
        false
    }

    /// Whether each of the three parts labels some cell.
    pub fn has_every_part(&self) -> (whole: bool)
        ensures
            whole == holds_every_part(self@),
    {
        self.has_part(Part::Rest) && self.has_part(Part::Body) && self.has_part(Part::Face)
    }

    /// The horizontal mirror image.
    pub fn rev(&self) -> (flipped: Pattern)
        ensures
            flipped@ == mirrored(self@),
    {
        proof {
            use_type_invariant(self);
        }
        let ghost grid = self@;
        let mut result: Vec<Vec<Part>> = Vec::new();
        let mut y: usize = 0;
        while y < self.height
            invariant
                y <= self.height,
                grid == rows_of(self.description@),
                is_grid(grid, self.width as int, self.height as int),
                result.len() == y,
                forall|done: int| 0 <= done < y ==> (#[trigger] result[done])@ == mirrored(grid)[done],
            decreases self.height - y,
        {
            let mut row: Vec<Part> = Vec::new();
            let mut x: usize = 0;
            while x < self.width
                invariant
                    x <= self.width,
                    y < self.height,
                    grid == rows_of(self.description@),
                    is_grid(grid, self.width as int, self.height as int),
                    row.len() == x,
                    forall|done: int|
                        0 <= done < x ==> #[trigger] row[done] == grid[y as int][self.width - 1
                            - done],
                decreases self.width - x,
            {
                assert(grid[y as int].len() == self.width);
                row.push(self.description[y][self.width - 1 - x]);
                x += 1;
            }
            assert(grid[y as int].len() == self.width);
            assert(row@ =~= mirrored(grid)[y as int]);
            result.push(row);
            y += 1;
        }
        proof {
            lemma_mirrored_is_grid(grid);
            assert(rows_of(result@) =~= mirrored(grid));
        }
        Pattern { description: result, width: self.width, height: self.height }
    }

    /// The enlargement by `num`: every cell becomes a block of `num` by
    /// `num` cells.
    pub fn mul(&self, num: usize) -> (grown: Pattern)
        requires
            num >= 1,
            num * grid_width(self@) <= usize::MAX,
            num * grid_height(self@) <= usize::MAX,
        ensures
            grown@ == scaled(self@, num as int),
    {
        proof {
            use_type_invariant(self);
        }
        let ghost grid = self@;
        let ghost big = scaled(grid, num as int);
        proof {
            lemma_scaled_is_grid(grid, num as int);
        }
        let width = num * self.width;
        let height = num * self.height;
        let mut result: Vec<Vec<Part>> = Vec::new();
        let mut y: usize = 0;
        while y < height
            invariant
                y <= height,
                num >= 1,
                width == num * self.width,
                height == num * self.height,
                grid == rows_of(self.description@),
                big == scaled(grid, num as int),
                is_grid(grid, self.width as int, self.height as int),
                is_grid(big, width as int, height as int),
                result.len() == y,
                forall|done: int| 0 <= done < y ==> (#[trigger] result[done])@ == big[done],
            decreases height - y,
        {
            let from_y = y / num;
            proof {
                lemma_multiply_divide_lt(y as int, num as int, self.height as int);
                assert(grid[from_y as int].len() == self.width);
                assert(big[y as int].len() == width);
            }
            let mut row: Vec<Part> = Vec::new();
            let mut x: usize = 0;
            while x < width
                invariant
                    x <= width,
                    num >= 1,
                    width == num * self.width,
                    from_y == y / num,
                    from_y < self.height,
                    grid == rows_of(self.description@),
                    is_grid(grid, self.width as int, self.height as int),
                    row.len() == x,
                    forall|done: int|
                        0 <= done < x ==> #[trigger] row[done] == grid[from_y as int][done / (
                        num as int)],
                decreases width - x,
            {
                let from_x = x / num;
                proof {
                    lemma_multiply_divide_lt(x as int, num as int, self.width as int);
                    assert(grid[from_y as int].len() == self.width);
                }
                row.push(self.description[from_y][from_x]);
                x += 1;
            }
            assert(row@ =~= big[y as int]);
            result.push(row);
            y += 1;
        }
        proof {
            assert(rows_of(result@) =~= big);
        }
        Pattern { description: result, width, height }
    }
}

} // verus!
