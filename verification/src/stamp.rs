//! One stamp: the mean colour of the source under each part of the glyph,
//! pushed apart, painted over the target under the body and the face.

use crate::canvas::lemma_offset_in_bytes;
use crate::canvas::lemma_position_splits;
use crate::canvas::Canvas;
use crate::canvas::Raster;
use crate::color::jitter_offset;
use crate::color::offset_of;
use crate::color::separate;
use crate::color::separated;
use crate::color::Color;
use crate::color::Palette;
use crate::pattern::grid_height;
use crate::pattern::grid_width;
use crate::pattern::holds_every_part;
use crate::pattern::holds_part;
use crate::pattern::lemma_mirrored_holds_part;
use crate::pattern::lemma_mirrored_is_grid;
use crate::pattern::mirrored;
use crate::pattern::rectangular;
use crate::pattern::Grid;
use crate::pattern::Part;
use crate::pattern::Pattern;
use crate::random::draw_bool;
use crate::random::draw_u32;
use crate::sums::grid_sum;
use crate::sums::lemma_grid_sum_reaches;
use crate::sums::partial_sum;
use crate::sums::Cells;
use vstd::arithmetic::div_mod::lemma_fundamental_div_mod;
use vstd::prelude::*;

verus! {

/// For each cell of the glyph at `(x, y)`: channel `index` of the source
/// pixel under it where the cell is labelled `part`, zero elsewhere.
pub open spec fn part_values(source: Raster, grid: Grid, x: int, y: int, part: Part, index: int)
    -> Cells {
    |dx: int, dy: int|
        if grid[dy][dx] == part {
            source.color_at(x + dx, y + dy).channel(index) as int
        } else {
            0
        }
}

/// For each cell of the glyph: one where it is labelled `part`, zero
/// elsewhere.
pub open spec fn part_marks(grid: Grid, part: Part) -> Cells {
    |dx: int, dy: int|
        if grid[dy][dx] == part {
            1int
        } else {
            0int
        }
}

/// The sum of channel `index` over the source pixels under `part`.
pub open spec fn part_total(source: Raster, grid: Grid, x: int, y: int, part: Part, index: int)
    -> int {
    grid_sum(part_values(source, grid, x, y, part, index), grid_width(grid), grid_height(grid))
}

/// The number of cells labelled `part`.
pub open spec fn part_cells(grid: Grid, part: Part) -> int {
    grid_sum(part_marks(grid, part), grid_width(grid), grid_height(grid))
}

/// The mean colour of the source under `part`, each channel rounded down,
/// fully opaque.
pub open spec fn part_mean(source: Raster, grid: Grid, x: int, y: int, part: Part) -> Color {
    Color {
        red: (part_total(source, grid, x, y, part, 0) / part_cells(grid, part)) as u8,
        green: (part_total(source, grid, x, y, part, 1) / part_cells(grid, part)) as u8,
        blue: (part_total(source, grid, x, y, part, 2) / part_cells(grid, part)) as u8,
        alpha: 255,
    }
}

/// The mean colour of the source under each part of the glyph at `(x, y)`.
pub open spec fn mean_palette(source: Raster, grid: Grid, x: int, y: int) -> Palette {
    Palette {
        rest: part_mean(source, grid, x, y, Part::Rest),
        body: part_mean(source, grid, x, y, Part::Body),
        face: part_mean(source, grid, x, y, Part::Face),
    }
}

/// A part that labels a cell is counted at least once.
pub proof fn lemma_part_cells_positive(grid: Grid, part: Part)
    requires
        rectangular(grid),
        holds_part(grid, part),
    ensures
        part_cells(grid, part) >= 1,
{
    let (x, y) = choose|x: int, y: int|
        0 <= y < grid.len() && 0 <= x < grid[y].len() && grid[y][x] == part;
    assert(grid[y].len() == grid_width(grid));
    lemma_grid_sum_reaches(part_marks(grid, part), grid_width(grid), grid_height(grid), x, y);
}

/// Running sums over the source pixels under one part.
struct Tally {
    red: u128,
    green: u128,
    blue: u128,
    cells: u128,
}

impl Tally {
    /// The sums stand for `rows` whole rows of the glyph and `cells` cells
    /// of the next.
    spec fn covers(self, source: Raster, grid: Grid, x: int, y: int, part: Part, rows: int, cells: int)
        -> bool {
        let width = grid_width(grid);
        &&& self.red == partial_sum(part_values(source, grid, x, y, part, 0), width, rows, cells)
        &&& self.green == partial_sum(part_values(source, grid, x, y, part, 1), width, rows, cells)
        &&& self.blue == partial_sum(part_values(source, grid, x, y, part, 2), width, rows, cells)
        &&& self.cells == partial_sum(part_marks(grid, part), width, rows, cells)
        &&& self.red <= 255 * self.cells
        &&& self.green <= 255 * self.cells
        &&& self.blue <= 255 * self.cells
        &&& self.cells <= width * rows + cells
    }

    fn new() -> (tally: Tally)
        ensures
            tally.red == 0 && tally.green == 0 && tally.blue == 0 && tally.cells == 0,
    {
        Tally { red: 0, green: 0, blue: 0, cells: 0 }
    }

    fn add(&mut self, pixel: Color)
        requires
            old(self).cells < 0x1_0000_0000_0000_0000,
            old(self).red <= 255 * old(self).cells,
            old(self).green <= 255 * old(self).cells,
            old(self).blue <= 255 * old(self).cells,
        ensures
            final(self).red == old(self).red + pixel.red,
            final(self).green == old(self).green + pixel.green,
            final(self).blue == old(self).blue + pixel.blue,
            final(self).cells == old(self).cells + 1,
    {
        self.red = self.red + pixel.red as u128;
        self.green = self.green + pixel.green as u128;
        self.blue = self.blue + pixel.blue as u128;
        self.cells = self.cells + 1;
    }

    fn mean(&self) -> (color: Color)
        requires
            self.cells >= 1,
            self.red <= 255 * self.cells,
            self.green <= 255 * self.cells,
            self.blue <= 255 * self.cells,
        ensures
            color.red == self.red / self.cells,
            color.green == self.green / self.cells,
            color.blue == self.blue / self.cells,
            color.alpha == 255,
    {
        let red = self.red / self.cells;
        let green = self.green / self.cells;
        let blue = self.blue / self.cells;
        assert(red <= 255 && green <= 255 && blue <= 255) by (nonlinear_arith)
            requires
                self.cells >= 1,
                self.red <= 255 * self.cells,
                self.green <= 255 * self.cells,
                self.blue <= 255 * self.cells,
                red == self.red / self.cells,
                green == self.green / self.cells,
                blue == self.blue / self.cells,
        ;
        Color { red: red as u8, green: green as u8, blue: blue as u8, alpha: 255 }
    }
}

/// The mean colour of the source under each part of the glyph at `(x, y)`.
pub fn mean_colors(source: &Canvas, pattern: &Pattern, x: u32, y: u32) -> (means: Palette)
    requires
        holds_every_part(pattern@),
        source@.holds_window(x as int, y as int, grid_width(pattern@), grid_height(pattern@)),
    ensures
        means == mean_palette(source@, pattern@, x as int, y as int),
{
    let width = pattern.width();
    let height = pattern.height();
    let ghost grid = pattern@;
    let ghost from = source@;
    let mut rest = Tally::new();
    let mut body = Tally::new();
    let mut face = Tally::new();
    let mut dy: usize = 0;
    while dy < height
        invariant
            dy <= height,
            grid == pattern@,
            from == source@,
            rectangular(grid),
            width == grid_width(grid),
            height == grid_height(grid),
            from.holds_window(x as int, y as int, width as int, height as int),
            from.width <= u32::MAX,
            from.height <= u32::MAX,
            rest.covers(from, grid, x as int, y as int, Part::Rest, dy as int, 0),
            body.covers(from, grid, x as int, y as int, Part::Body, dy as int, 0),
            face.covers(from, grid, x as int, y as int, Part::Face, dy as int, 0),
        decreases height - dy,
    {
        let mut dx: usize = 0;
        while dx < width
            invariant
                dx <= width,
                dy < height,
                grid == pattern@,
                from == source@,
                rectangular(grid),
                width == grid_width(grid),
                height == grid_height(grid),
                from.holds_window(x as int, y as int, width as int, height as int),
                from.width <= u32::MAX,
                from.height <= u32::MAX,
                rest.covers(from, grid, x as int, y as int, Part::Rest, dy as int, dx as int),
                body.covers(from, grid, x as int, y as int, Part::Body, dy as int, dx as int),
                face.covers(from, grid, x as int, y as int, Part::Face, dy as int, dx as int),
            decreases width - dx,
        {
            assert(width * dy + dx < 0x1_0000_0000_0000_0000) by (nonlinear_arith)
                requires
                    dx < width <= 0xffff_ffff,
                    dy < height <= 0xffff_ffff,
            ;
            let pixel = source.get_pixel(x + dx as u32, y + dy as u32);
            match pattern.part(dx, dy) {
                Part::Rest => rest.add(pixel),
                Part::Body => body.add(pixel),
                Part::Face => face.add(pixel),
            }
            dx += 1;
        }
        assert(width * dy + width == width * (dy + 1)) by (nonlinear_arith);
        dy += 1;
    }
    proof {
        lemma_part_cells_positive(grid, Part::Rest);
        lemma_part_cells_positive(grid, Part::Body);
        lemma_part_cells_positive(grid, Part::Face);
    }
    Palette { rest: rest.mean(), body: body.mean(), face: face.mean() }
}

/// The label of the glyph cell that paints the byte at position `at` of a
/// raster `width` pixels wide, with the glyph at `(x, y)`: the cell over the
/// byte's pixel, unless that pixel lies outside the glyph or under the rest.
pub open spec fn painting_cell(width: int, grid: Grid, x: int, y: int, at: int) -> Option<Part> {
    let dx = (at / 4) % width - x;
    let dy = (at / 4) / width - y;
    if width > 0 && at >= 0 && 0 <= dx < grid_width(grid) && 0 <= dy < grid_height(grid)
        && grid[dy][dx] != Part::Rest {
        Some(grid[dy][dx])
    } else {
        None
    }
}

/// `before` with the glyph painted at `(x, y)`: every pixel under a body or
/// face cell takes that part's colour, fully opaque, and every other byte
/// stays.
pub open spec fn painted(before: Raster, grid: Grid, x: int, y: int, palette: Palette) -> Raster {
    Raster {
        bytes: Seq::new(
            before.bytes.len(),
            |at: int|
                match painting_cell(before.width as int, grid, x, y, at) {
                    Some(part) => palette.of(part).opaque().channel(at % 4),
                    None => before.bytes[at],
                },
        ),
        ..before
    }
}

/// The glyph as it is stamped: itself, or its mirror image.
pub open spec fn faced(grid: Grid, upright: bool) -> Grid {
    if upright {
        grid
    } else {
        mirrored(grid)
    }
}

/// What one stamp at `(x, y)` makes of `before`: the glyph is faced, the
/// mean colours of `source` under its parts are pushed apart by `contrast`
/// and the drawn jitter, and the result is painted.
pub open spec fn stamp_result(
    source: Raster,
    before: Raster,
    grid: Grid,
    x: int,
    y: int,
    contrast: int,
    noise: int,
    upright: bool,
    drawn: int,
) -> Raster {
    let glyph = faced(grid, upright);
    painted(
        before,
        glyph,
        x,
        y,
        separated(mean_palette(source, glyph, x, y), jitter_offset(contrast, noise, drawn)),
    )
}

/// The cell over the byte at `at`, if it paints the byte and comes before
/// cell `cells` of row `rows`.
spec fn painting_cell_upto(width: int, grid: Grid, x: int, y: int, at: int, rows: int, cells: int)
    -> Option<Part> {
    let dx = (at / 4) % width - x;
    let dy = (at / 4) / width - y;
    if dy < rows || (dy == rows && dx < cells) {
        painting_cell(width, grid, x, y, at)
    } else {
        None
    }
}

/// `before` with the first `rows` rows of the glyph painted, and the first
/// `cells` cells of the next.
spec fn painted_upto(
    before: Raster,
    grid: Grid,
    x: int,
    y: int,
    palette: Palette,
    rows: int,
    cells: int,
) -> Raster {
    Raster {
        bytes: Seq::new(
            before.bytes.len(),
            |at: int|
                match painting_cell_upto(before.width as int, grid, x, y, at, rows, cells) {
                    Some(part) => palette.of(part).opaque().channel(at % 4),
                    None => before.bytes[at],
                },
        ),
        ..before
    }
}

proof fn lemma_painted_upto_ends(before: Raster, grid: Grid, x: int, y: int, palette: Palette)
    requires
        rectangular(grid),
    ensures
        painted_upto(before, grid, x, y, palette, 0, 0) == before,
        painted_upto(before, grid, x, y, palette, grid_height(grid), 0) == painted(
            before,
            grid,
            x,
            y,
            palette,
        ),
{
    assert(painted_upto(before, grid, x, y, palette, 0, 0).bytes =~= before.bytes);
    assert(painted_upto(before, grid, x, y, palette, grid_height(grid), 0).bytes =~= painted(
        before,
        grid,
        x,
        y,
        palette,
    ).bytes);
}

proof fn lemma_painted_upto_next_row(
    before: Raster,
    grid: Grid,
    x: int,
    y: int,
    palette: Palette,
    rows: int,
)
    requires
        rectangular(grid),
    ensures
        painted_upto(before, grid, x, y, palette, rows, grid_width(grid)) == painted_upto(
            before,
            grid,
            x,
            y,
            palette,
            rows + 1,
            0,
        ),
{
    assert(painted_upto(before, grid, x, y, palette, rows, grid_width(grid)).bytes =~= painted_upto(
        before,
        grid,
        x,
        y,
        palette,
        rows + 1,
        0,
    ).bytes);
}

proof fn lemma_painted_upto_next_cell(
    before: Raster,
    grid: Grid,
    x: int,
    y: int,
    palette: Palette,
    dx: int,
    dy: int,
)
    requires
        rectangular(grid),
        before.wf(),
        before.holds_window(x, y, grid_width(grid), grid_height(grid)),
        0 <= dx < grid_width(grid),
        0 <= dy < grid_height(grid),
    ensures
        grid[dy][dx] == Part::Rest ==> painted_upto(before, grid, x, y, palette, dy, dx + 1)
            == painted_upto(before, grid, x, y, palette, dy, dx),
        grid[dy][dx] != Part::Rest ==> painted_upto(before, grid, x, y, palette, dy, dx + 1)
            == painted_upto(before, grid, x, y, palette, dy, dx).with_color(
            x + dx,
            y + dy,
            palette.of(grid[dy][dx]).opaque(),
        ),
{
    let width = before.width as int;
    let old_one = painted_upto(before, grid, x, y, palette, dy, dx);
    let new_one = painted_upto(before, grid, x, y, palette, dy, dx + 1);
    let color = palette.of(grid[dy][dx]).opaque();
    let place = (y + dy) * width + (x + dx);
    let first = 4 * place;
    lemma_offset_in_bytes(before, x + dx, y + dy);
    lemma_position_splits(width, x + dx, y + dy);
    assert(old_one.offset(x + dx, y + dy) == first);
    assert forall|at: int| 0 <= at < before.bytes.len() && !(first <= at < first + 4) implies (
    #[trigger] painting_cell_upto(width, grid, x, y, at, dy, dx + 1)) == painting_cell_upto(
        width,
        grid,
        x,
        y,
        at,
        dy,
        dx,
    ) by {
        lemma_fundamental_div_mod(at / 4, width);
        if (at / 4) % width == x + dx && (at / 4) / width == y + dy {
            assert(width * (y + dy) == (y + dy) * width) by (nonlinear_arith);
            assert(at / 4 == place);
        }
    }
    assert forall|at: int| first <= at < first + 4 implies (#[trigger] painting_cell_upto(
        width,
        grid,
        x,
        y,
        at,
        dy,
        dx + 1,
    )) == painting_cell(width, grid, x, y, at) && painting_cell_upto(width, grid, x, y, at, dy, dx)
        == None::<Part> && (at / 4) % width - x == dx && (at / 4) / width - y == dy by {
        assert(at / 4 == place);
    }
    if grid[dy][dx] == Part::Rest {
        assert(new_one.bytes =~= old_one.bytes);
    } else {
        assert(new_one.bytes =~= old_one.with_color(x + dx, y + dy, color).bytes);
    }
}

/// Paints the glyph over `target` at `(x, y)`.
fn paint(target: &mut Canvas, pattern: &Pattern, x: u32, y: u32, palette: &Palette)
    requires
        old(target)@.holds_window(
            x as int,
            y as int,
            grid_width(pattern@),
            grid_height(pattern@),
        ),
    ensures
        final(target)@ == painted(old(target)@, pattern@, x as int, y as int, *palette),
{
    let width = pattern.width();
    let height = pattern.height();
    // Asked for what its contract tells: every pixel of the target has its bytes.
    let _ = target.width();
    let ghost grid = pattern@;
    let ghost before = target@;
    proof {
        lemma_painted_upto_ends(before, grid, x as int, y as int, *palette);
    }
    let mut dy: usize = 0;
    while dy < height
        invariant
            dy <= height,
            grid == pattern@,
            rectangular(grid),
            width == grid_width(grid),
            height == grid_height(grid),
            before.wf(),
            before.holds_window(x as int, y as int, width as int, height as int),
            before.width <= u32::MAX,
            before.height <= u32::MAX,
            target@ == painted_upto(before, grid, x as int, y as int, *palette, dy as int, 0),
        decreases height - dy,
    {
        let mut dx: usize = 0;
        while dx < width
            invariant
                dx <= width,
                dy < height,
                grid == pattern@,
                rectangular(grid),
                width == grid_width(grid),
                height == grid_height(grid),
                before.wf(),
                before.holds_window(x as int, y as int, width as int, height as int),
                before.width <= u32::MAX,
                before.height <= u32::MAX,
                target@ == painted_upto(
                    before,
                    grid,
                    x as int,
                    y as int,
                    *palette,
                    dy as int,
                    dx as int,
                ),
            decreases width - dx,
        {
            proof {
                lemma_painted_upto_next_cell(
                    before,
                    grid,
                    x as int,
                    y as int,
                    *palette,
                    dx as int,
                    dy as int,
                );
            }
            let part = pattern.part(dx, dy);
            if part != Part::Rest {
                let u = palette.get(part);
                let pixel = Color { red: u.red, green: u.green, blue: u.blue, alpha: 255 };
                target.put_pixel(x + dx as u32, y + dy as u32, pixel);
            }
            dx += 1;
        }
        proof {
            lemma_painted_upto_next_row(before, grid, x as int, y as int, *palette, dy as int);
        }
        dy += 1;
    }
}

/// One stamp of the glyph at `(x, y)`, with what chance decides given:
/// `upright` tells whether the glyph is stamped as it is or mirrored, and
/// `drawn` is the number the jitter is taken from.
pub fn amogus_write_with(
    source: &Canvas,
    target: &mut Canvas,
    pattern: &Pattern,
    x: u32,
    y: u32,
    contrast: i32,
    noise: u32,
    upright: bool,
    drawn: u32,
)
    requires
        holds_every_part(pattern@),
        source@.holds_window(x as int, y as int, grid_width(pattern@), grid_height(pattern@)),
        old(target)@.holds_window(
            x as int,
            y as int,
            grid_width(pattern@),
            grid_height(pattern@),
        ),
    ensures
        final(target)@ == stamp_result(
            source@,
            old(target)@,
            pattern@,
            x as int,
            y as int,
            contrast as int,
            noise as int,
            upright,
            drawn as int,
        ),
{
    // Asked for what its contract tells: the glyph is a rectangle.
    let _ = pattern.width();
    let p_rev = pattern.rev();
    proof {
        lemma_mirrored_is_grid(pattern@);
        lemma_mirrored_holds_part(pattern@, Part::Rest);
        lemma_mirrored_holds_part(pattern@, Part::Body);
        lemma_mirrored_holds_part(pattern@, Part::Face);
    }
    let pattern = if upright {
        pattern
    } else {
        &p_rev
    };
    let means = mean_colors(source, pattern, x, y);
    let off = offset_of(contrast, noise, drawn);
    let palette = separate(means, off);
    paint(target, pattern, x, y, &palette);
}

/// One stamp of the glyph at `(x, y)`. Chance decides whether the glyph is
/// mirrored and, where `noise` is positive, how much jitter is added to
/// `contrast`; the target is what [`stamp_result`] gives for what was drawn.
pub fn amogus_write(
    source: &Canvas,
    target: &mut Canvas,
    pattern: &Pattern,
    x: u32,
    y: u32,
    contrast: i32,
    noise: u32,
)
    requires
        holds_every_part(pattern@),
        source@.holds_window(x as int, y as int, grid_width(pattern@), grid_height(pattern@)),
        old(target)@.holds_window(
            x as int,
            y as int,
            grid_width(pattern@),
            grid_height(pattern@),
        ),
    ensures
        exists|upright: bool, drawn: u32|
            final(target)@ == #[trigger] stamp_result(
                source@,
                old(target)@,
                pattern@,
                x as int,
                y as int,
                contrast as int,
                noise as int,
                upright,
                drawn as int,
            ),
{
    let mut rng = rand::thread_rng();
    let upright = draw_bool(&mut rng);
    let drawn = if noise > 0 {
        draw_u32(&mut rng)
    } else {
        0
    };
    amogus_write_with(source, target, pattern, x, y, contrast, noise, upright, drawn);
}

/// What painting makes of the pixel at `(px, py)`: the colour of the cell
/// over it, fully opaque, where that cell is body or face, and the pixel
/// as it was everywhere else.
pub proof fn lemma_painted_pixel(
    before: Raster,
    grid: Grid,
    x: int,
    y: int,
    palette: Palette,
    px: int,
    py: int,
)
    requires
        rectangular(grid),
        before.wf(),
        before.holds_window(x, y, grid_width(grid), grid_height(grid)),
        before.contains(px, py),
    ensures
        painted(before, grid, x, y, palette).color_at(px, py) == (if 0 <= px - x < grid_width(grid)
            && 0 <= py - y < grid_height(grid) && grid[py - y][px - x] != Part::Rest {
            palette.of(grid[py - y][px - x]).opaque()
        } else {
            before.color_at(px, py)
        }),
{
    let width = before.width as int;
    let after = painted(before, grid, x, y, palette);
    let first = 4 * (py * width + px);
    lemma_offset_in_bytes(before, px, py);
    lemma_position_splits(width, px, py);
    assert(after.offset(px, py) == first);
    assert((first + 0) / 4 == py * width + px);
    assert((first + 1) / 4 == py * width + px);
    assert((first + 2) / 4 == py * width + px);
    assert((first + 3) / 4 == py * width + px);
}

/// Painting leaves the dimensions, the number of bytes, and every byte
/// beyond the pixels as they were.
pub proof fn lemma_painted_frame(
    before: Raster,
    grid: Grid,
    x: int,
    y: int,
    palette: Palette,
    at: int,
)
    requires
        rectangular(grid),
        before.wf(),
        before.holds_window(x, y, grid_width(grid), grid_height(grid)),
        4 * before.width * before.height <= at < before.bytes.len(),
    ensures
        painted(before, grid, x, y, palette).width == before.width,
        painted(before, grid, x, y, palette).height == before.height,
        painted(before, grid, x, y, palette).bytes.len() == before.bytes.len(),
        painted(before, grid, x, y, palette).bytes[at] == before.bytes[at],
{
    let width = before.width as int;
    let height = before.height as int;
    lemma_fundamental_div_mod(at / 4, width);
    if (at / 4) / width < height {
        assert(width * ((at / 4) / width) + (at / 4) % width < width * height) by (nonlinear_arith)
            requires
                0 <= (at / 4) / width < height,
                0 <= (at / 4) % width < width,
        ;
        assert(4 * width * height == 4 * (width * height)) by (nonlinear_arith);
    }
}

/// A stamp never writes where the glyph, as it is faced, is labelled rest.
pub proof fn lemma_stamp_spares_rest(
    source: Raster,
    before: Raster,
    grid: Grid,
    x: int,
    y: int,
    contrast: int,
    noise: int,
    upright: bool,
    drawn: int,
    dx: int,
    dy: int,
)
    requires
        rectangular(grid),
        before.wf(),
        before.holds_window(x, y, grid_width(grid), grid_height(grid)),
        0 <= dx < grid_width(grid),
        0 <= dy < grid_height(grid),
        faced(grid, upright)[dy][dx] == Part::Rest,
    ensures
        stamp_result(source, before, grid, x, y, contrast, noise, upright, drawn).color_at(
            x + dx,
            y + dy,
        ) == before.color_at(x + dx, y + dy),
{
    let glyph = faced(grid, upright);
    lemma_mirrored_is_grid(grid);
    lemma_painted_pixel(
        before,
        glyph,
        x,
        y,
        separated(mean_palette(source, glyph, x, y), jitter_offset(contrast, noise, drawn)),
        x + dx,
        y + dy,
    );
}

/// A stamp leaves every pixel outside its window as it was.
pub proof fn lemma_stamp_stays_inside(
    source: Raster,
    before: Raster,
    grid: Grid,
    x: int,
    y: int,
    contrast: int,
    noise: int,
    upright: bool,
    drawn: int,
    px: int,
    py: int,
)
    requires
        rectangular(grid),
        before.wf(),
        before.holds_window(x, y, grid_width(grid), grid_height(grid)),
        before.contains(px, py),
        !(0 <= px - x < grid_width(grid) && 0 <= py - y < grid_height(grid)),
    ensures
        stamp_result(source, before, grid, x, y, contrast, noise, upright, drawn).color_at(px, py)
            == before.color_at(px, py),
{
    let glyph = faced(grid, upright);
    lemma_mirrored_is_grid(grid);
    lemma_painted_pixel(
        before,
        glyph,
        x,
        y,
        separated(mean_palette(source, glyph, x, y), jitter_offset(contrast, noise, drawn)),
        px,
        py,
    );
}

/// A stamp paints each body or face cell of the glyph, as it is faced, in
/// the separated mean colour of its part, fully opaque.
pub proof fn lemma_stamp_paints_separated_means(
    source: Raster,
    before: Raster,
    grid: Grid,
    x: int,
    y: int,
    contrast: int,
    noise: int,
    upright: bool,
    drawn: int,
    dx: int,
    dy: int,
)
    requires
        rectangular(grid),
        before.wf(),
        before.holds_window(x, y, grid_width(grid), grid_height(grid)),
        0 <= dx < grid_width(grid),
        0 <= dy < grid_height(grid),
        faced(grid, upright)[dy][dx] != Part::Rest,
    ensures
        stamp_result(source, before, grid, x, y, contrast, noise, upright, drawn).color_at(
            x + dx,
            y + dy,
        ) == separated(
            mean_palette(source, faced(grid, upright), x, y),
            jitter_offset(contrast, noise, drawn),
        ).of(faced(grid, upright)[dy][dx]).opaque(),
{
    let glyph = faced(grid, upright);
    lemma_mirrored_is_grid(grid);
    lemma_painted_pixel(
        before,
        glyph,
        x,
        y,
        separated(mean_palette(source, glyph, x, y), jitter_offset(contrast, noise, drawn)),
        x + dx,
        y + dy,
    );
}

/// Within one stamp, two cells with the same label other than rest are
/// painted in the same colour, and fully opaque.
pub proof fn lemma_stamp_colors_by_label(
    source: Raster,
    before: Raster,
    grid: Grid,
    x: int,
    y: int,
    contrast: int,
    noise: int,
    upright: bool,
    drawn: int,
    ax: int,
    ay: int,
    bx: int,
    by: int,
)
    requires
        rectangular(grid),
        before.wf(),
        before.holds_window(x, y, grid_width(grid), grid_height(grid)),
        0 <= ax < grid_width(grid),
        0 <= ay < grid_height(grid),
        0 <= bx < grid_width(grid),
        0 <= by < grid_height(grid),
        faced(grid, upright)[ay][ax] == faced(grid, upright)[by][bx],
        faced(grid, upright)[ay][ax] != Part::Rest,
    ensures
        stamp_result(source, before, grid, x, y, contrast, noise, upright, drawn).color_at(
            x + ax,
            y + ay,
        ) == stamp_result(source, before, grid, x, y, contrast, noise, upright, drawn).color_at(
            x + bx,
            y + by,
        ),
        stamp_result(source, before, grid, x, y, contrast, noise, upright, drawn).color_at(
            x + ax,
            y + ay,
        ).alpha == 255,
{
    let glyph = faced(grid, upright);
    let palette = separated(
        mean_palette(source, glyph, x, y),
        jitter_offset(contrast, noise, drawn),
    );
    lemma_mirrored_is_grid(grid);
    lemma_painted_pixel(before, glyph, x, y, palette, x + ax, y + ay);
    lemma_painted_pixel(before, glyph, x, y, palette, x + bx, y + by);
}

} // verus!
