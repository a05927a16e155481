//! How flat the source is under a window: the score that weights where the
//! glyph is stamped.

use crate::canvas::Canvas;
use crate::canvas::Raster;
use crate::color::Color;
use crate::pattern::grid_height;
use crate::pattern::grid_width;
use crate::pattern::Pattern;
use crate::sums::blend;
use crate::sums::grid_sum;
use crate::sums::lemma_grid_sum_below;
use crate::sums::lemma_grid_sum_blend;
use crate::sums::lemma_grid_sum_bounds;
use crate::sums::lemma_grid_sum_nonnegative;
use crate::sums::partial_sum;
use crate::sums::Cells;
use vstd::arithmetic::div_mod::lemma_fundamental_div_mod;
use vstd::prelude::*;

verus! {

/// The flatness of a window. It stands for the number
/// `255 - sqrt(squared_error / (3 * samples))`, which no integer holds, so
/// the two integers under the root are kept instead.
#[derive(Clone, Copy, Debug, PartialEq, Eq, Structural)]
pub struct Score {
    /// The sum over the window's pixels of the squared error of each.
    pub squared_error: u128,
    /// The number of pixels in the window.
    pub samples: u64,
}

/// Channel `index` of the source pixel under each cell of the window at
/// `(x, y)`.
pub open spec fn window_values(source: Raster, x: int, y: int, index: int) -> Cells {
    |dx: int, dy: int| source.color_at(x + dx, y + dy).channel(index) as int
}

/// The mean of channel `index` over the window of `width` by `height`
/// pixels at `(x, y)`, rounded down.
pub open spec fn window_mean(source: Raster, x: int, y: int, width: int, height: int, index: int)
    -> int {
    grid_sum(window_values(source, x, y, index), width, height) / (width * height)
}

/// How far a pixel lies from the window's mean colour: the differences of
/// red, green and blue added up, signs kept.
pub open spec fn pixel_error(red: int, green: int, blue: int, pixel: Color) -> int {
    (red - pixel.red) + (green - pixel.green) + (blue - pixel.blue)
}

/// The squared error of the source pixel under each cell of the window.
pub open spec fn window_errors(source: Raster, x: int, y: int, width: int, height: int) -> Cells {
    |dx: int, dy: int|
        {
            let error = pixel_error(
                window_mean(source, x, y, width, height, 0),
                window_mean(source, x, y, width, height, 1),
                window_mean(source, x, y, width, height, 2),
                source.color_at(x + dx, y + dy),
            );
            error * error
        }
}

/// The sum of the squared errors over the window.
pub open spec fn squared_error(source: Raster, x: int, y: int, width: int, height: int) -> int {
    grid_sum(window_errors(source, x, y, width, height), width, height)
}

/// Every pixel of the window has the red, green and blue of `color`.
pub open spec fn uniform_window(
    source: Raster,
    x: int,
    y: int,
    width: int,
    height: int,
    color: Color,
) -> bool {
    forall|dx: int, dy: int|
        0 <= dx < width && 0 <= dy < height ==> {
            let pixel = #[trigger] source.color_at(x + dx, y + dy);
            pixel.red == color.red && pixel.green == color.green && pixel.blue == color.blue
        }
}

/// The mean of a channel over a window of one colour is that colour's
/// channel.
proof fn lemma_uniform_mean(
    source: Raster,
    x: int,
    y: int,
    width: int,
    height: int,
    color: Color,
    index: int,
)
    requires
        width > 0,
        height > 0,
        0 <= index <= 2,
        uniform_window(source, x, y, width, height, color),
    ensures
        window_mean(source, x, y, width, height, index) == color.channel(index),
{
    let f = window_values(source, x, y, index);
    let value = color.channel(index) as int;
    assert forall|dx: int, dy: int| 0 <= dx < width && 0 <= dy < height implies value
        <= #[trigger] f(dx, dy) <= value by {
        let pixel = source.color_at(x + dx, y + dy);
        assert(pixel.red == color.red);
    }
    lemma_grid_sum_bounds(f, width, height, height, value, value);
    assert((value * (width * height)) / (width * height) == value) by (nonlinear_arith)
        requires
            width > 0,
            height > 0,
    ;
}

/// A window of one colour has no error at all: its score is exactly 255.
pub proof fn lemma_uniform_window_is_top(
    source: Raster,
    x: int,
    y: int,
    width: int,
    height: int,
    color: Color,
)
    requires
        width > 0,
        height > 0,
        uniform_window(source, x, y, width, height, color),
    ensures
        squared_error(source, x, y, width, height) == 0,
{
    lemma_uniform_mean(source, x, y, width, height, color, 0);
    lemma_uniform_mean(source, x, y, width, height, color, 1);
    lemma_uniform_mean(source, x, y, width, height, color, 2);
    let f = window_errors(source, x, y, width, height);
    assert forall|dx: int, dy: int| 0 <= dx < width && 0 <= dy < height implies 0 <= #[trigger] f(
        dx,
        dy,
    ) <= 0 by {
        let pixel = source.color_at(x + dx, y + dy);
        assert(pixel.red == color.red);
        assert(pixel_error(
            color.red as int,
            color.green as int,
            color.blue as int,
            pixel,
        ) == 0);
    }
    lemma_grid_sum_bounds(f, width, height, height, 0, 0);
    assert(0 * (width * height) == 0);
}

/// The sum of a channel over a window lies between the number of pixels
/// times its mean and that plus the number of pixels.
proof fn lemma_mean_brackets_total(
    source: Raster,
    x: int,
    y: int,
    width: int,
    height: int,
    index: int,
)
    requires
        width > 0,
        height > 0,
    ensures
        0 <= window_mean(source, x, y, width, height, index) <= 255,
        (width * height) * window_mean(source, x, y, width, height, index) <= grid_sum(
            window_values(source, x, y, index),
            width,
            height,
        ) < (width * height) * window_mean(source, x, y, width, height, index) + width * height,
{
    let f = window_values(source, x, y, index);
    let n = width * height;
    let total = grid_sum(f, width, height);
    assert(n > 0) by (nonlinear_arith)
        requires
            width > 0,
            height > 0,
            n == width * height,
    ;
    assert forall|dx: int, dy: int| 0 <= dx < width && 0 <= dy < height implies 0 <= #[trigger] f(
        dx,
        dy,
    ) <= 255 by {}
    lemma_grid_sum_bounds(f, width, height, height, 0, 255);
    assert(0 * n == 0);
    lemma_fundamental_div_mod(total, n);
    assert(0 <= total / n <= 255) by (nonlinear_arith)
        requires
            n > 0,
            0 <= total <= 255 * n,
    ;
}

/// With `m` the sum of the three means and `t` the sum of the three
/// channel totals over `n` pixels, the bound `(765 - 2m) * t + m * m * n`
/// on the squared error is at most `146315 * n`.
proof fn lemma_error_bound_arithmetic(m: int, t: int, n: int)
    requires
        n > 0,
        0 <= m <= 765,
        n * m <= t <= n * m + 3 * n,
    ensures
        (765 - 2 * m) * t + (m * m) * n <= 146315 * n,
{
    if 765 - 2 * m >= 0 {
        assert((765 - 2 * m) * t <= (765 - 2 * m) * (n * m + 3 * n)) by (nonlinear_arith)
            requires
                765 - 2 * m >= 0,
                t <= n * m + 3 * n,
        ;
        assert((765 - 2 * m) * (n * m + 3 * n) + (m * m) * n == n * (759 * m + 2295 - m * m))
            by (nonlinear_arith);
        assert(759 * m + 2295 - m * m <= 146315) by (nonlinear_arith)
            requires
                0 <= m <= 765,
        ;
        assert(n * (759 * m + 2295 - m * m) <= 146315 * n) by (nonlinear_arith)
            requires
                n > 0,
                759 * m + 2295 - m * m <= 146315,
        ;
    } else {
        assert((765 - 2 * m) * t <= (765 - 2 * m) * (n * m)) by (nonlinear_arith)
            requires
                765 - 2 * m < 0,
                n * m <= t,
        ;
        assert((765 - 2 * m) * (n * m) + (m * m) * n == n * (765 * m - m * m)) by (nonlinear_arith);
        assert(765 * m - m * m <= 146315) by (nonlinear_arith)
            requires
                0 <= m <= 765,
        ;
        assert(n * (765 * m - m * m) <= 146315 * n) by (nonlinear_arith)
            requires
                n > 0,
                765 * m - m * m <= 146315,
        ;
    }
}

/// However the colours of a window vary, its squared error is at most
/// 146315 for each pixel: the root in the score stays below 221, and the
/// score above 34.
pub proof fn lemma_squared_error_is_bounded(source: Raster, x: int, y: int, width: int, height: int)
    requires
        width > 0,
        height > 0,
    ensures
        0 <= squared_error(source, x, y, width, height) <= 146315 * (width * height),
{
    let n = width * height;
    let reds = window_values(source, x, y, 0);
    let greens = window_values(source, x, y, 1);
    let blues = window_values(source, x, y, 2);
    let red = window_mean(source, x, y, width, height, 0);
    let green = window_mean(source, x, y, width, height, 1);
    let blue = window_mean(source, x, y, width, height, 2);
    let m = red + green + blue;
    lemma_mean_brackets_total(source, x, y, width, height, 0);
    lemma_mean_brackets_total(source, x, y, width, height, 1);
    lemma_mean_brackets_total(source, x, y, width, height, 2);
    let two = blend(reds, greens, 1, 1, 0);
    let three = blend(two, blues, 1, 1, 0);
    let bound = blend(three, three, 765 - 2 * m, 0, m * m);
    let errors = window_errors(source, x, y, width, height);
    assert forall|dx: int, dy: int| 0 <= dx < width && 0 <= dy < height implies 0 <= #[trigger] errors(
        dx,
        dy,
    ) <= bound(dx, dy) by {
        let pixel = source.color_at(x + dx, y + dy);
        let sum = pixel.red + pixel.green + pixel.blue;
        assert(three(dx, dy) == sum);
        assert(pixel_error(red, green, blue, pixel) == m - sum);
        assert(0 <= (m - sum) * (m - sum) <= (765 - 2 * m) * sum + 0 * sum + m * m)
            by (nonlinear_arith)
            requires
                0 <= sum <= 765,
        ;
    }
    lemma_grid_sum_nonnegative(errors, width, height);
    lemma_grid_sum_below(errors, bound, width, height);
    lemma_grid_sum_blend(reds, greens, 1, 1, 0, width, height);
    lemma_grid_sum_blend(two, blues, 1, 1, 0, width, height);
    lemma_grid_sum_blend(three, three, 765 - 2 * m, 0, m * m, width, height);
    let t = grid_sum(three, width, height);
    assert(t == grid_sum(reds, width, height) + grid_sum(greens, width, height) + grid_sum(
        blues,
        width,
        height,
    ));
    assert(n * m == n * red + n * green + n * blue) by (nonlinear_arith)
        requires
            m == red + green + blue,
    ;
    assert(n > 0) by (nonlinear_arith)
        requires
            width > 0,
            height > 0,
            n == width * height,
    ;
    lemma_error_bound_arithmetic(m, t, n);
    assert(0 * t == 0);
}

/// The score of the window under the glyph at `(x, y)`. Only the glyph's
/// dimensions count, not its labels.
pub fn amogus_score(canvas: &Canvas, pattern: &Pattern, x: u32, y: u32) -> (score: Score)
    requires
        canvas@.holds_window(x as int, y as int, grid_width(pattern@), grid_height(pattern@)),
    ensures
        score.samples == grid_width(pattern@) * grid_height(pattern@),
        score.squared_error == squared_error(
            canvas@,
            x as int,
            y as int,
            grid_width(pattern@),
            grid_height(pattern@),
        ),
        score.squared_error <= 146315 * score.samples,
{
    let width = pattern.width();
    let height = pattern.height();
    let ghost from = canvas@;
    let ghost reds = window_values(from, x as int, y as int, 0);
    let ghost greens = window_values(from, x as int, y as int, 1);
    let ghost blues = window_values(from, x as int, y as int, 2);
    let mut red: u128 = 0;
    let mut green: u128 = 0;
    let mut blue: u128 = 0;
    let mut dy: usize = 0;
    while dy < height
        invariant
            dy <= height,
            from == canvas@,
            reds == window_values(from, x as int, y as int, 0),
            greens == window_values(from, x as int, y as int, 1),
            blues == window_values(from, x as int, y as int, 2),
            from.holds_window(x as int, y as int, width as int, height as int),
            from.width <= u32::MAX,
            from.height <= u32::MAX,
            red == partial_sum(reds, width as int, dy as int, 0),
            green == partial_sum(greens, width as int, dy as int, 0),
            blue == partial_sum(blues, width as int, dy as int, 0),
            red <= 255 * (width * dy),
            green <= 255 * (width * dy),
            blue <= 255 * (width * dy),
        decreases height - dy,
    {
        let mut dx: usize = 0;
        while dx < width
            invariant
                dx <= width,
                dy < height,
                from == canvas@,
                reds == window_values(from, x as int, y as int, 0),
                greens == window_values(from, x as int, y as int, 1),
                blues == window_values(from, x as int, y as int, 2),
                from.holds_window(x as int, y as int, width as int, height as int),
                from.width <= u32::MAX,
                from.height <= u32::MAX,
                red == partial_sum(reds, width as int, dy as int, dx as int),
                green == partial_sum(greens, width as int, dy as int, dx as int),
                blue == partial_sum(blues, width as int, dy as int, dx as int),
                red <= 255 * (width * dy + dx),
                green <= 255 * (width * dy + dx),
                blue <= 255 * (width * dy + dx),
            decreases width - dx,
        {
            assert(width * dy + dx < 0x1_0000_0000_0000_0000) by (nonlinear_arith)
                requires
                    dx < width <= 0xffff_ffff,
                    dy < height <= 0xffff_ffff,
            ;
            let pixel = canvas.get_pixel(x + dx as u32, y + dy as u32);
            red = red + pixel.red as u128;
            green = green + pixel.green as u128;
            blue = blue + pixel.blue as u128;
            dx += 1;
        }
        assert(width * dy + width == width * (dy + 1)) by (nonlinear_arith);
        dy += 1;
    }
    assert(0 < width * height <= 0xffff_fffe_0000_0001) by (nonlinear_arith)
        requires
            0 < width <= 0xffff_ffff,
            0 < height <= 0xffff_ffff,
    ;
    let count: u64 = width as u64 * height as u64;
    let mean_red = red / count as u128;
    let mean_green = green / count as u128;
    let mean_blue = blue / count as u128;
    assert(mean_red <= 255 && mean_green <= 255 && mean_blue <= 255) by (nonlinear_arith)
        requires
            count >= 1,
            red <= 255 * count,
            green <= 255 * count,
            blue <= 255 * count,
            mean_red == red / count as u128,
            mean_green == green / count as u128,
            mean_blue == blue / count as u128,
    ;
    let mean_red = mean_red as i64;
    let mean_green = mean_green as i64;
    let mean_blue = mean_blue as i64;
    let ghost errors = window_errors(from, x as int, y as int, width as int, height as int);
    let mut sum_squared_error: u128 = 0;
    let mut dy: usize = 0;
    while dy < height
        invariant
            dy <= height,
            from == canvas@,
            errors == window_errors(from, x as int, y as int, width as int, height as int),
            mean_red == window_mean(from, x as int, y as int, width as int, height as int, 0),
            mean_green == window_mean(from, x as int, y as int, width as int, height as int, 1),
            mean_blue == window_mean(from, x as int, y as int, width as int, height as int, 2),
            0 <= mean_red <= 255,
            0 <= mean_green <= 255,
            0 <= mean_blue <= 255,
            from.holds_window(x as int, y as int, width as int, height as int),
            from.width <= u32::MAX,
            from.height <= u32::MAX,
            sum_squared_error == partial_sum(errors, width as int, dy as int, 0),
            sum_squared_error <= 585225 * (width * dy),
        decreases height - dy,
    {
        let mut dx: usize = 0;
        while dx < width
            invariant
                dx <= width,
                dy < height,
                from == canvas@,
                errors == window_errors(from, x as int, y as int, width as int, height as int),
                mean_red == window_mean(from, x as int, y as int, width as int, height as int, 0),
                mean_green == window_mean(
                    from,
                    x as int,
                    y as int,
                    width as int,
                    height as int,
                    1,
                ),
                mean_blue == window_mean(from, x as int, y as int, width as int, height as int, 2),
                0 <= mean_red <= 255,
                0 <= mean_green <= 255,
                0 <= mean_blue <= 255,
                from.holds_window(x as int, y as int, width as int, height as int),
                from.width <= u32::MAX,
                from.height <= u32::MAX,
                sum_squared_error == partial_sum(errors, width as int, dy as int, dx as int),
                sum_squared_error <= 585225 * (width * dy + dx),
            decreases width - dx,
        {
            assert(width * dy + dx < 0x1_0000_0000_0000_0000) by (nonlinear_arith)
                requires
                    dx < width <= 0xffff_ffff,
                    dy < height <= 0xffff_ffff,
            ;
            let pixel = canvas.get_pixel(x + dx as u32, y + dy as u32);
            let error: i64 = (mean_red - pixel.red as i64) + (mean_green - pixel.green as i64) + (
            mean_blue - pixel.blue as i64);
            assert(0 <= error * error <= 585225) by (nonlinear_arith)
                requires
                    -765 <= error <= 765,
            ;
            assert(error == pixel_error(
                mean_red as int,
                mean_green as int,
                mean_blue as int,
                from.color_at(x + dx, y + dy),
            ));
            sum_squared_error = sum_squared_error + (error * error) as u128;
            dx += 1;
        }
        assert(width * dy + width == width * (dy + 1)) by (nonlinear_arith);
        dy += 1;
    }
    proof {
        lemma_squared_error_is_bounded(from, x as int, y as int, width as int, height as int);
    }
    Score { squared_error: sum_squared_error, samples: count }
}

} // verus!
