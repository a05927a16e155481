//! The placement driver: it visits every place where the glyph fits, lets
//! chance and the local score decide, and stamps where they agree.

use crate::canvas::raster_of;
use crate::canvas::Canvas;
use crate::canvas::Raster;
use crate::pattern::base_grid;
use crate::pattern::grid_height;
use crate::pattern::grid_width;
use crate::pattern::holds_every_part;
use crate::pattern::lemma_base_grid;
use crate::pattern::lemma_scaled_holds_part;
use crate::pattern::lemma_scaled_is_grid;
use crate::pattern::rectangular;
use crate::pattern::scaled;
use crate::pattern::Grid;
use crate::pattern::Part;
use crate::pattern::Pattern;
use crate::random::draw_u32;
use crate::score::amogus_score;
use crate::score::squared_error;
use crate::score::Score;
use crate::stamp::amogus_write;
use crate::stamp::amogus_write_with;
use crate::stamp::stamp_result;
use crate::wide::Wide;
use vstd::prelude::*;

verus! {

/// What chance decides at one place: the number the acceptance test reads,
/// whether the glyph is stamped as it is or mirrored, and the number the
/// jitter is taken from. The last two count only where the place is
/// accepted.
#[derive(Clone, Copy, Debug, PartialEq, Eq, Structural)]
pub struct Draw {
    pub place: u32,
    pub upright: bool,
    pub jitter: u32,
}

/// Whether a place is stamped: `v < (score / 255) * count`, where the score
/// is `255 - sqrt(error / (3 * samples))`. With `v < count` both sides of
/// `sqrt(error / (3 * samples)) * count < 255 * (count - v)` are not
/// negative, so their squares are compared, in whole numbers.
pub open spec fn accepts(v: int, count: int, error: int, samples: int) -> bool {
    v < count && error * (count * count) < (195075 * samples) * ((count - v) * (count - v))
}

/// The drawn number as the acceptance test reads it: reduced modulo the
/// number of pixels of the source.
pub open spec fn reduced(place: int, source: Raster) -> int {
    place % ((source.width * source.height) as int)
}

/// Under a window with the top score, a draw is accepted exactly when it is
/// below the count.
pub proof fn lemma_top_score_accepts_below_count(v: int, count: int, samples: int)
    requires
        0 <= v,
        samples > 0,
    ensures
        accepts(v, count, 0, samples) == (v < count),
{
    if v < count {
        assert(0 * (count * count) == 0);
        assert((195075 * samples) * ((count - v) * (count - v)) > 0) by (nonlinear_arith)
            requires
                samples > 0,
                count - v > 0,
        ;
    }
}

/// The number of columns in which the driver places the glyph.
pub open spec fn places_across(source: Raster, grid: Grid) -> int {
    if source.width > grid_width(grid) {
        source.width - grid_width(grid)
    } else {
        0
    }
}

/// The number of rows in which the driver places the glyph.
pub open spec fn places_down(source: Raster, grid: Grid) -> int {
    if source.height > grid_height(grid) {
        source.height - grid_height(grid)
    } else {
        0
    }
}

/// The number of places the driver visits.
pub open spec fn places(source: Raster, grid: Grid) -> int {
    places_across(source, grid) * places_down(source, grid)
}

/// What the visit of the place `(x, y)` makes of `before`: a stamp where
/// the draw is accepted, nothing otherwise. The stamp reads its colours
/// from `source`, so earlier stamps change none of them.
pub open spec fn visit_result(
    source: Raster,
    before: Raster,
    grid: Grid,
    x: int,
    y: int,
    count: int,
    contrast: int,
    noise: int,
    draw: Draw,
) -> Raster {
    if accepts(
        reduced(draw.place as int, source),
        count,
        squared_error(source, x, y, grid_width(grid), grid_height(grid)),
        grid_width(grid) * grid_height(grid),
    ) {
        stamp_result(
            source,
            before,
            grid,
            x,
            y,
            contrast,
            noise,
            draw.upright,
            draw.jitter as int,
        )
    } else {
        before
    }
}

/// What the visits of the first `columns` places of row `y` make of
/// `before`, from the left; the draw of column `x` is `draws[first + x]`.
pub open spec fn row_result(
    source: Raster,
    before: Raster,
    grid: Grid,
    y: int,
    count: int,
    contrast: int,
    noise: int,
    draws: Seq<Draw>,
    first: int,
    columns: int,
) -> Raster
    decreases columns,
{
    if columns <= 0 {
        before
    } else {
        visit_result(
            source,
            row_result(source, before, grid, y, count, contrast, noise, draws, first, columns - 1),
            grid,
            columns - 1,
            y,
            count,
            contrast,
            noise,
            draws[first + columns - 1],
        )
    }
}

/// What the visits of the first `rows` rows of places make of `before`,
/// from the top; row `y` reads its draws from `y * places_across` on.
pub open spec fn sweep_result(
    source: Raster,
    before: Raster,
    grid: Grid,
    count: int,
    contrast: int,
    noise: int,
    draws: Seq<Draw>,
    rows: int,
) -> Raster
    decreases rows,
{
    if rows <= 0 {
        before
    } else {
        row_result(
            source,
            sweep_result(source, before, grid, count, contrast, noise, draws, rows - 1),
            grid,
            rows - 1,
            count,
            contrast,
            noise,
            draws,
            (rows - 1) * places_across(source, grid),
            places_across(source, grid),
        )
    }
}

/// What a whole run makes of `before`: every place is visited once, in
/// raster order, rows from the top and each row from the left, with one
/// draw each. Where stamps overlap, the one visited last is on top.
pub open spec fn run_result(
    source: Raster,
    before: Raster,
    grid: Grid,
    count: int,
    contrast: int,
    noise: int,
    draws: Seq<Draw>,
) -> Raster {
    sweep_result(source, before, grid, count, contrast, noise, draws, places_down(source, grid))
}

/// The visits of a row read only the draws of its places.
pub proof fn lemma_row_reads_its_draws(
    source: Raster,
    before: Raster,
    grid: Grid,
    y: int,
    count: int,
    contrast: int,
    noise: int,
    a: Seq<Draw>,
    b: Seq<Draw>,
    first: int,
    columns: int,
)
    requires
        forall|k: int| first <= k < first + columns ==> a[k] == b[k],
    ensures
        row_result(source, before, grid, y, count, contrast, noise, a, first, columns)
            == row_result(source, before, grid, y, count, contrast, noise, b, first, columns),
    decreases columns,
{
    if columns > 0 {
        lemma_row_reads_its_draws(
            source,
            before,
            grid,
            y,
            count,
            contrast,
            noise,
            a,
            b,
            first,
            columns - 1,
        );
        assert(a[first + columns - 1] == b[first + columns - 1]);
    }
}

/// The visits of the first rows read only the draws of their places.
pub proof fn lemma_sweep_reads_its_draws(
    source: Raster,
    before: Raster,
    grid: Grid,
    count: int,
    contrast: int,
    noise: int,
    a: Seq<Draw>,
    b: Seq<Draw>,
    rows: int,
)
    requires
        forall|k: int| 0 <= k < rows * places_across(source, grid) ==> a[k] == b[k],
    ensures
        sweep_result(source, before, grid, count, contrast, noise, a, rows) == sweep_result(
            source,
            before,
            grid,
            count,
            contrast,
            noise,
            b,
            rows,
        ),
    decreases rows,
{
    if rows > 0 {
        let across = places_across(source, grid);
        assert((rows - 1) * across + across == rows * across && 0 <= (rows - 1) * across)
            by (nonlinear_arith)
            requires
                rows > 0,
                across >= 0,
        ;
        lemma_sweep_reads_its_draws(source, before, grid, count, contrast, noise, a, b, rows - 1);
        lemma_row_reads_its_draws(
            source,
            sweep_result(source, before, grid, count, contrast, noise, a, rows - 1),
            grid,
            rows - 1,
            count,
            contrast,
            noise,
            a,
            b,
            (rows - 1) * across,
            across,
        );
    }
}

/// Two runs whose draws agree at every place end in the same raster.
pub proof fn lemma_same_draws_same_result(
    source: Raster,
    before: Raster,
    grid: Grid,
    count: int,
    contrast: int,
    noise: int,
    a: Seq<Draw>,
    b: Seq<Draw>,
)
    requires
        forall|k: int| 0 <= k < places(source, grid) ==> a[k] == b[k],
    ensures
        run_result(source, before, grid, count, contrast, noise, a) == run_result(
            source,
            before,
            grid,
            count,
            contrast,
            noise,
            b,
        ),
{
    assert(places(source, grid) == places_down(source, grid) * places_across(source, grid))
        by (nonlinear_arith)
        requires
            places(source, grid) == places_across(source, grid) * places_down(source, grid),
    ;
    lemma_sweep_reads_its_draws(
        source,
        before,
        grid,
        count,
        contrast,
        noise,
        a,
        b,
        places_down(source, grid),
    );
}

proof fn lemma_no_count_no_stamp_in_row(
    source: Raster,
    before: Raster,
    grid: Grid,
    y: int,
    contrast: int,
    noise: int,
    draws: Seq<Draw>,
    first: int,
    columns: int,
)
    requires
        source.width > 0,
        source.height > 0,
    ensures
        row_result(source, before, grid, y, 0, contrast, noise, draws, first, columns) == before,
    decreases columns,
{
    if columns > 0 {
        lemma_no_count_no_stamp_in_row(
            source,
            before,
            grid,
            y,
            contrast,
            noise,
            draws,
            first,
            columns - 1,
        );
        let draw = draws[first + columns - 1];
        let area = (source.width * source.height) as int;
        assert(area > 0) by (nonlinear_arith)
            requires
                source.width > 0,
                source.height > 0,
                area == source.width * source.height,
        ;
        assert(reduced(draw.place as int, source) >= 0);
    }
}

proof fn lemma_no_count_no_stamp_in_sweep(
    source: Raster,
    before: Raster,
    grid: Grid,
    contrast: int,
    noise: int,
    draws: Seq<Draw>,
    rows: int,
)
    requires
        source.width > 0,
        source.height > 0,
    ensures
        sweep_result(source, before, grid, 0, contrast, noise, draws, rows) == before,
    decreases rows,
{
    if rows > 0 {
        lemma_no_count_no_stamp_in_sweep(source, before, grid, contrast, noise, draws, rows - 1);
        lemma_no_count_no_stamp_in_row(
            source,
            before,
            grid,
            rows - 1,
            contrast,
            noise,
            draws,
            (rows - 1) * places_across(source, grid),
            places_across(source, grid),
        );
    }
}

proof fn lemma_no_places_no_stamp(
    source: Raster,
    before: Raster,
    grid: Grid,
    count: int,
    contrast: int,
    noise: int,
    draws: Seq<Draw>,
    rows: int,
)
    requires
        places_across(source, grid) == 0,
    ensures
        sweep_result(source, before, grid, count, contrast, noise, draws, rows) == before,
    decreases rows,
{
    if rows > 0 {
        lemma_no_places_no_stamp(source, before, grid, count, contrast, noise, draws, rows - 1);
    }
}

/// With a count of zero a run changes nothing, whatever the image, the
/// glyph and the draws.
pub proof fn lemma_no_count_no_stamp(
    source: Raster,
    before: Raster,
    grid: Grid,
    contrast: int,
    noise: int,
    draws: Seq<Draw>,
)
    ensures
        run_result(source, before, grid, 0, contrast, noise, draws) == before,
{
    if places_across(source, grid) > 0 && places_down(source, grid) > 0 {
        lemma_no_count_no_stamp_in_sweep(
            source,
            before,
            grid,
            contrast,
            noise,
            draws,
            places_down(source, grid),
        );
    } else if places_across(source, grid) == 0 {
        lemma_no_places_no_stamp(
            source,
            before,
            grid,
            0,
            contrast,
            noise,
            draws,
            places_down(source, grid),
        );
    }
}

/// Whether the draw `v` is accepted at a place with the given score.
pub fn accept(v: u64, count: usize, score: &Score) -> (taken: bool)
    ensures
        taken == accepts(
            v as int,
            count as int,
            score.squared_error as int,
            score.samples as int,
        ),
{
    if v as u128 >= count as u128 {
        return false;
    }
    let all = count as u128;
    let room = all - v as u128;
    assert(all * all <= 0xffff_ffff_ffff_fffe_0000_0000_0000_0001 && room * room
        <= 0xffff_ffff_ffff_fffe_0000_0000_0000_0001) by (nonlinear_arith)
        requires
            room <= all <= 0xffff_ffff_ffff_ffff,
    ;
    let error = Wide::product(score.squared_error, all * all);
    let bound = Wide::product(195075 * score.samples as u128, room * room);
    error.less_than(&bound)
}

/// Whether the place `(x, y)` is stamped when `place` is drawn for it. The
/// score is computed only where the draw is below `count`.
pub fn wants(source: &Canvas, amogus: &Pattern, x: u32, y: u32, count: usize, place: u32) -> (taken:
    bool)
    requires
        source@.holds_window(x as int, y as int, grid_width(amogus@), grid_height(amogus@)),
    ensures
        taken == accepts(
            reduced(place as int, source@),
            count as int,
            squared_error(source@, x as int, y as int, grid_width(amogus@), grid_height(amogus@)),
            grid_width(amogus@) * grid_height(amogus@),
        ),
        taken ==> count > 0,
{
    let width = source.width();
    let height = source.height();
    let glyph_width = amogus.width();
    let glyph_height = amogus.height();
    assert(0 < width * height <= 0xffff_fffe_0000_0001) by (nonlinear_arith)
        requires
            0 < glyph_width <= width <= 0xffff_ffff,
            0 < glyph_height <= height <= 0xffff_ffff,
    ;
    let v = place as u64 % (width as u64 * height as u64);
    if v as u128 >= count as u128 {
        return false;
    }
    let score = amogus_score(source, amogus, x, y);
    accept(v, count, &score)
}

/// The visit of one place with its draw given.
pub fn visit_with(
    source: &Canvas,
    target: &mut Canvas,
    amogus: &Pattern,
    x: u32,
    y: u32,
    count: usize,
    contrast: i32,
    noise: u32,
    draw: Draw,
)
    requires
        count > 0 ==> holds_every_part(amogus@),
        source@.holds_window(x as int, y as int, grid_width(amogus@), grid_height(amogus@)),
        old(target)@.holds_window(x as int, y as int, grid_width(amogus@), grid_height(amogus@)),
    ensures
        final(target)@ == visit_result(
            source@,
            old(target)@,
            amogus@,
            x as int,
            y as int,
            count as int,
            contrast as int,
            noise as int,
            draw,
        ),
{
    if wants(source, amogus, x, y, count, draw.place) {
        amogus_write_with(
            source,
            target,
            amogus,
            x,
            y,
            contrast,
            noise,
            draw.upright,
            draw.jitter,
        );
    }
}

/// The visit of one place: chance draws, and the target is what
/// [`visit_result`] gives for the draw that is handed back.
fn visit(
    source: &Canvas,
    target: &mut Canvas,
    amogus: &Pattern,
    x: u32,
    y: u32,
    count: usize,
    contrast: i32,
    noise: u32,
    rng: &mut rand::rngs::ThreadRng,
) -> (used: Ghost<Draw>)
    requires
        count > 0 ==> holds_every_part(amogus@),
        source@.holds_window(x as int, y as int, grid_width(amogus@), grid_height(amogus@)),
        old(target)@.holds_window(x as int, y as int, grid_width(amogus@), grid_height(amogus@)),
    ensures
        final(target)@ == visit_result(
            source@,
            old(target)@,
            amogus@,
            x as int,
            y as int,
            count as int,
            contrast as int,
            noise as int,
            used@,
        ),
{
    let place = draw_u32(rng);
    let ghost before = target@;
    if wants(source, amogus, x, y, count, place) {
        amogus_write(source, target, amogus, x, y, contrast, noise);
        let ghost (upright, jitter) = choose|upright: bool, jitter: u32|
            target@ == #[trigger] stamp_result(
                source@,
                before,
                amogus@,
                x as int,
                y as int,
                contrast as int,
                noise as int,
                upright,
                jitter as int,
            );
        Ghost(Draw { place, upright, jitter })
    } else {
        Ghost(Draw { place, upright: true, jitter: 0 })
    }
}

/// The number of places in a row and in a column of places.
fn count_places(source: &Canvas, amogus: &Pattern) -> (size: (u32, u32))
    ensures
        size.0 == places_across(source@, amogus@),
        size.1 == places_down(source@, amogus@),
        rectangular(amogus@),
        source@.wf(),
{
    let width = source.width();
    let height = source.height();
    let glyph_width = amogus.width();
    let glyph_height = amogus.height();
    let across = if glyph_width < width as usize {
        width - glyph_width as u32
    } else {
        0
    };
    let down = if glyph_height < height as usize {
        height - glyph_height as u32
    } else {
        0
    };
    (across, down)
}

/// A whole run with the draws given, one for each place: `draws[k]` belongs
/// to the `k`-th place in raster order, rows from the top and each row from
/// the left. Every part must label a cell of the glyph, unless `count` is
/// zero and nothing can be stamped.
pub fn do_it_with(
    source: &Canvas,
    target: &mut Canvas,
    amogus: &Pattern,
    count: usize,
    contrast: i32,
    noise: u32,
    draws: &Vec<Draw>,
)
    requires
        count > 0 ==> holds_every_part(amogus@),
        old(target)@.width == source@.width,
        old(target)@.height == source@.height,
        draws.len() >= places(source@, amogus@),
    ensures
        final(target)@ == run_result(
            source@,
            old(target)@,
            amogus@,
            count as int,
            contrast as int,
            noise as int,
            draws@,
        ),
        count == 0 ==> final(target)@ == old(target)@,
{
    let (across, down) = count_places(source, amogus);
    let ghost from = source@;
    let ghost before = target@;
    let ghost grid = amogus@;
    let mut k: usize = 0;
    let mut y: u32 = 0;
    while y < down
        invariant
            y <= down,
            from == source@,
            grid == amogus@,
            count > 0 ==> holds_every_part(grid),
            rectangular(grid),
            across == places_across(from, grid),
            down == places_down(from, grid),
            draws.len() >= across * down,
            k == y * across,
            target@.width == from.width,
            target@.height == from.height,
            target@ == sweep_result(
                from,
                before,
                grid,
                count as int,
                contrast as int,
                noise as int,
                draws@,
                y as int,
            ),
        decreases down - y,
    {
        let ghost start = target@;
        let mut x: u32 = 0;
        while x < across
            invariant
                x <= across,
                y < down,
                from == source@,
                grid == amogus@,
                count > 0 ==> holds_every_part(grid),
                rectangular(grid),
                across == places_across(from, grid),
                down == places_down(from, grid),
                draws.len() >= across * down,
                k == y * across + x,
                target@.width == from.width,
                target@.height == from.height,
                target@ == row_result(
                    from,
                    start,
                    grid,
                    y as int,
                    count as int,
                    contrast as int,
                    noise as int,
                    draws@,
                    y * across,
                    x as int,
                ),
            decreases across - x,
        {
            assert(y * across + x < across * down) by (nonlinear_arith)
                requires
                    x < across,
                    y < down,
            ;
            visit_with(source, target, amogus, x, y, count, contrast, noise, draws[k]);
            k += 1;
            x += 1;
        }
        assert(y * across + across == (y + 1) * across) by (nonlinear_arith);
        y += 1;
    }
    proof {
        lemma_no_count_no_stamp(from, before, grid, contrast as int, noise as int, draws@);
    }
}

/// A whole run: every place where the glyph fits is visited once, in raster
/// order, chance draws at each, and the target is what [`run_result`] gives
/// for what was drawn. Every part must label a cell of the glyph, unless
/// `count` is zero and nothing can be stamped.
pub fn do_it(
    source: &Canvas,
    target: &mut Canvas,
    amogus: &Pattern,
    count: usize,
    contrast: i32,
    noise: u32,
)
    requires
        count > 0 ==> holds_every_part(amogus@),
        old(target)@.width == source@.width,
        old(target)@.height == source@.height,
    ensures
        exists|draws: Seq<Draw>|
            draws.len() == places(source@, amogus@) && final(target)@ == #[trigger] run_result(
                source@,
                old(target)@,
                amogus@,
                count as int,
                contrast as int,
                noise as int,
                draws,
            ),
        count == 0 ==> final(target)@ == old(target)@,
{
    let mut rng = rand::thread_rng();
    let (across, down) = count_places(source, amogus);
    let ghost from = source@;
    let ghost before = target@;
    let ghost grid = amogus@;
    let ghost mut drawn: Seq<Draw> = Seq::empty();
    let mut y: u32 = 0;
    while y < down
        invariant
            y <= down,
            from == source@,
            grid == amogus@,
            count > 0 ==> holds_every_part(grid),
            rectangular(grid),
            across == places_across(from, grid),
            down == places_down(from, grid),
            drawn.len() == y * across,
            target@.width == from.width,
            target@.height == from.height,
            target@ == sweep_result(
                from,
                before,
                grid,
                count as int,
                contrast as int,
                noise as int,
                drawn,
                y as int,
            ),
        decreases down - y,
    {
        let ghost start = target@;
        let mut x: u32 = 0;
        while x < across
            invariant
                x <= across,
                y < down,
                from == source@,
                grid == amogus@,
                count > 0 ==> holds_every_part(grid),
                rectangular(grid),
                across == places_across(from, grid),
                down == places_down(from, grid),
                drawn.len() == y * across + x,
                target@.width == from.width,
                target@.height == from.height,
                start == sweep_result(
                    from,
                    before,
                    grid,
                    count as int,
                    contrast as int,
                    noise as int,
                    drawn,
                    y as int,
                ),
                target@ == row_result(
                    from,
                    start,
                    grid,
                    y as int,
                    count as int,
                    contrast as int,
                    noise as int,
                    drawn,
                    y * across,
                    x as int,
                ),
            decreases across - x,
        {
            let used = visit(source, target, amogus, x, y, count, contrast, noise, &mut rng);
            proof {
                let longer = drawn.push(used@);
                lemma_sweep_reads_its_draws(
                    from,
                    before,
                    grid,
                    count as int,
                    contrast as int,
                    noise as int,
                    drawn,
                    longer,
                    y as int,
                );
                lemma_row_reads_its_draws(
                    from,
                    start,
                    grid,
                    y as int,
                    count as int,
                    contrast as int,
                    noise as int,
                    drawn,
                    longer,
                    y * across,
                    x as int,
                );
                drawn = longer;
            }
            x += 1;
        }
        assert(y * across + across == (y + 1) * across) by (nonlinear_arith);
        y += 1;
    }
    proof {
        assert(down * across == across * down) by (nonlinear_arith);
        assert(drawn.len() == places(from, grid));
        assert(target@ == run_result(
            from,
            before,
            grid,
            count as int,
            contrast as int,
            noise as int,
            drawn,
        ));
        lemma_no_count_no_stamp(from, before, grid, contrast as int, noise as int, drawn);
    }
}

/// The built-in glyph enlarged by `size`.
fn enlarged_base(size: usize) -> (amogus: Pattern)
    requires
        size >= 1,
        7 * size <= usize::MAX,
    ensures
        amogus@ == scaled(base_grid(), size as int),
        holds_every_part(amogus@),
{
    let base_pattern = Pattern::base();
    proof {
        lemma_base_grid();
        assert(grid_width(base_grid()) == 5 && grid_height(base_grid()) == 7);
        lemma_scaled_is_grid(base_grid(), size as int);
        lemma_scaled_holds_part(base_grid(), size as int, Part::Rest);
        lemma_scaled_holds_part(base_grid(), size as int, Part::Body);
        lemma_scaled_holds_part(base_grid(), size as int, Part::Face);
    }
    base_pattern.mul(size)
}

/// The whole effect on raw pixels with the draws given, one for each place
/// in raster order: `data` holds `width` by `height` RGBA pixels, the
/// built-in glyph is enlarged by `size`, and the bytes that come back are
/// those of the run over a copy of the image.
pub fn apply_with(
    width: u32,
    height: u32,
    data: Vec<u8>,
    size: usize,
    count: usize,
    contrast: i32,
    noise: u32,
    draws: &Vec<Draw>,
) -> (painted: Vec<u8>)
    requires
        size >= 1,
        7 * size <= usize::MAX,
        4 * width <= usize::MAX,
        4 * width * height <= data.len(),
        draws.len() >= places(raster_of(width, height, data@), scaled(base_grid(), size as int)),
    ensures
        painted@ == run_result(
            raster_of(width, height, data@),
            raster_of(width, height, data@),
            scaled(base_grid(), size as int),
            count as int,
            contrast as int,
            noise as int,
            draws@,
        ).bytes,
        count == 0 ==> painted@ == data@,
{
    let buffer = Canvas::from_raw(width, height, data).unwrap();
    let mut new_buffer = buffer.duplicate();
    let amogus = enlarged_base(size);
    do_it_with(&buffer, &mut new_buffer, &amogus, count, contrast, noise, draws);
    new_buffer.into_raw()
}

/// The whole effect on raw pixels: `data` holds `width` by `height` RGBA
/// pixels, the built-in glyph is enlarged by `size`, and the bytes that
/// come back are those of a run over a copy of the image.
pub fn apply(
    width: u32,
    height: u32,
    data: Vec<u8>,
    size: usize,
    count: usize,
    contrast: i32,
    noise: u32,
) -> (painted: Vec<u8>)
    requires
        size >= 1,
        7 * size <= usize::MAX,
        4 * width <= usize::MAX,
        4 * width * height <= data.len(),
    ensures
        exists|draws: Seq<Draw>|
            draws.len() == places(
                raster_of(width, height, data@),
                scaled(base_grid(), size as int),
            ) && painted@ == (#[trigger] run_result(
                raster_of(width, height, data@),
                raster_of(width, height, data@),
                scaled(base_grid(), size as int),
                count as int,
                contrast as int,
                noise as int,
                draws,
            )).bytes,
        count == 0 ==> painted@ == data@,
{
    let buffer = Canvas::from_raw(width, height, data).unwrap();
    let mut new_buffer = buffer.duplicate();
    let amogus = enlarged_base(size);
    do_it(&buffer, &mut new_buffer, &amogus, count, contrast, noise);
    new_buffer.into_raw()
}

} // verus!
