//! Box sampling: one colour for a square of source pixels.
//!
//! Each pixel counts with the weight `alpha / 255`. The weighted channel
//! values are summed over the square and divided by the number of pixels,
//! not by the sum of the weights: a transparent pixel adds nothing and still
//! counts, so transparency darkens the result towards black. The quotient is
//! cut off to an integer.
//!
//! All of this is done in whole numbers: the sums are kept 255 times too
//! large, and the 255 is divided out together with the pixel count.

use vstd::prelude::*;
use vstd::arithmetic::div_mod::lemma_div_multiples_vanish_quotient;
use crate::color::{Channel, Color, Pixel};
use crate::raster::{get_pixel, RasterImage, RasterView};

verus! {

/// The sum of `alpha * value` of one channel over `rows` pixels of column
/// `x`, downwards from row `y`.
pub open spec fn column_sum(image: RasterView, x: int, y: int, rows: nat, c: Channel) -> nat
    decreases rows,
{
    if rows == 0 {
        0
    } else {
        column_sum(image, x, y, (rows - 1) as nat, c) + image.pixel(x, y + rows - 1).weighted(c)
    }
}

/// The sum of `alpha * value` of one channel over the block of `cols` by
/// `rows` pixels whose top-left corner is `(x, y)`.
pub open spec fn block_sum(
    image: RasterView,
    x: int,
    y: int,
    cols: nat,
    rows: nat,
    c: Channel,
) -> nat
    decreases cols,
{
    if cols == 0 {
        0
    } else {
        block_sum(image, x, y, (cols - 1) as nat, rows, c)
            + column_sum(image, x + cols - 1, y, rows, c)
    }
}

/// One channel of the sample of the square of side `size` at `(x, y)`: the
/// alpha-weighted sum divided by the pixel count, rounded down.
pub open spec fn sampled_channel(image: RasterView, x: int, y: int, size: nat, c: Channel) -> nat {
    block_sum(image, x, y, size, size, c) / (255 * size * size)
}

/// The sample of the square of side `size` at `(x, y)`.
pub open spec fn sampled_color(image: RasterView, x: int, y: int, size: nat) -> Color {
    Color {
        r: sampled_channel(image, x, y, size, Channel::Red) as u8,
        g: sampled_channel(image, x, y, size, Channel::Green) as u8,
        b: sampled_channel(image, x, y, size, Channel::Blue) as u8,
    }
}

/// Averages the square of side `size` whose top-left corner is `(x, y)`.
///
/// The square has to lie inside the image and to hold at least one pixel.
pub fn sample(image: &RasterImage, x: u32, y: u32, size: u32) -> (color: Color)
    requires
        image@.holds_square(x as int, y as int, size as int),
    ensures
        color == sampled_color(image@, x as int, y as int, size as nat),
        forall|p: Pixel|
            p.a == 255 && #[trigger] image@.square_is(x as int, y as int, size as int, p)
                ==> color == p.color(),
        image@.square_is_transparent(x as int, y as int, size as int) ==> color == (Color {
            r: 0,
            g: 0,
            b: 0,
        }),
{
    proof {
        image.lemma_dimensions_fit();
        assert forall|p: Pixel|
            p.a == 255 && #[trigger] image@.square_is(
                x as int,
                y as int,
                size as int,
                p,
            ) implies sampled_color(image@, x as int, y as int, size as nat) == p.color() by {
            lemma_sample_uniform_opaque(image@, x as int, y as int, size as nat, p);
        }
        if image@.square_is_transparent(x as int, y as int, size as int) {
            lemma_sample_transparent(image@, x as int, y as int, size as nat);
        }
    }
    let x_end: u32 = x + size;
    let y_end: u32 = y + size;
    let mut r: u128 = 0;
    let mut g: u128 = 0;
    let mut b: u128 = 0;
    let mut i: u32 = x;
    while i < x_end
        invariant
            x_end == x + size,
            y_end == y + size,
            x_end <= image@.width,
            y_end <= image@.height,
            x <= i <= x_end,
            r == block_sum(image@, x as int, y as int, (i - x) as nat, size as nat, Channel::Red),
            g == block_sum(image@, x as int, y as int, (i - x) as nat, size as nat, Channel::Green),
            b == block_sum(image@, x as int, y as int, (i - x) as nat, size as nat, Channel::Blue),
        decreases x_end - i,
    {
        let ghost done = (i - x) as nat;
        let ghost r0 = r;
        let ghost g0 = g;
        let ghost b0 = b;
        proof {
            lemma_block_sum_max(image@, x as int, y as int, done, size as nat, Channel::Red);
            lemma_block_sum_max(image@, x as int, y as int, done, size as nat, Channel::Green);
            lemma_block_sum_max(image@, x as int, y as int, done, size as nat, Channel::Blue);
            lemma_accumulator_room(done, size as nat);
        }
        let mut j: u32 = y;
        while j < y_end
            invariant
                y_end == y + size,
                x <= i < image@.width,
                y_end <= image@.height,
                y <= j <= y_end,
                r0 <= 65025 * done * size,
                g0 <= 65025 * done * size,
                b0 <= 65025 * done * size,
                65025 * done * size + 65025 * size <= 0xffff_ffff_ffff_ffff_ffff,
                r == r0 + column_sum(image@, i as int, y as int, (j - y) as nat, Channel::Red),
                g == g0 + column_sum(image@, i as int, y as int, (j - y) as nat, Channel::Green),
                b == b0 + column_sum(image@, i as int, y as int, (j - y) as nat, Channel::Blue),
            decreases y_end - j,
        {
            let p: Pixel = get_pixel(image, i, j);
            proof {
                lemma_column_sum_max(image@, i as int, y as int, (j - y) as nat, Channel::Red);
                lemma_column_sum_max(image@, i as int, y as int, (j - y) as nat, Channel::Green);
                lemma_column_sum_max(image@, i as int, y as int, (j - y) as nat, Channel::Blue);
                lemma_weighted_max(p, Channel::Red);
                lemma_weighted_max(p, Channel::Green);
                lemma_weighted_max(p, Channel::Blue);
            }
            let alpha: u128 = p.a as u128;
            r = r + alpha * (p.r as u128);
            g = g + alpha * (p.g as u128);
            b = b + alpha * (p.b as u128);
            j = j + 1;
        }
        i = i + 1;
    }
    proof {
        lemma_sampled_channel_max(image@, x as int, y as int, size as nat, Channel::Red);
        lemma_sampled_channel_max(image@, x as int, y as int, size as nat, Channel::Green);
        lemma_sampled_channel_max(image@, x as int, y as int, size as nat, Channel::Blue);
        lemma_accumulator_room(0, size as nat);
        assert(255 * size * size == 255 * (size * size)) by (nonlinear_arith);
    }
    let count: u128 = (size as u128) * (size as u128);
    let divisor: u128 = 255 * count;
    Color { r: (r / divisor) as u8, g: (g / divisor) as u8, b: (b / divisor) as u8 }
}

/// A square in which every pixel is the same fully opaque pixel samples to
/// exactly that pixel's colour. In particular a square of grey pixels
/// `(c, c, c, 255)` samples to `(c, c, c)`.
pub proof fn lemma_sample_uniform_opaque(image: RasterView, x: int, y: int, size: nat, p: Pixel)
    requires
        size >= 1,
        p.a == 255,
        image.square_is(x, y, size as int, p),
    ensures
        sampled_color(image, x, y, size) == p.color(),
{
    lemma_sample_uniform(image, x, y, size, Channel::Red, 255, p.r);
    lemma_sample_uniform(image, x, y, size, Channel::Green, 255, p.g);
    lemma_sample_uniform(image, x, y, size, Channel::Blue, 255, p.b);
}

/// A square in which every pixel is fully transparent samples to black,
/// whatever its colour channels hold.
pub proof fn lemma_sample_transparent(image: RasterView, x: int, y: int, size: nat)
    requires
        size >= 1,
        image.square_is_transparent(x, y, size as int),
    ensures
        sampled_color(image, x, y, size) == (Color { r: 0, g: 0, b: 0 }),
{
    lemma_sample_zero(image, x, y, size, Channel::Red);
    lemma_sample_zero(image, x, y, size, Channel::Green);
    lemma_sample_zero(image, x, y, size, Channel::Blue);
}

/// A square whose pixels all have the alpha `alpha` and, in one channel,
/// the value `v` samples to `alpha * v / 255` in that channel, rounded down.
pub proof fn lemma_sample_uniform(
    image: RasterView,
    x: int,
    y: int,
    size: nat,
    c: Channel,
    alpha: u8,
    v: u8,
)
    requires
        size >= 1,
        forall|i: int, j: int|
            x <= i < x + size && y <= j < y + size ==> {
                &&& (#[trigger] image.pixel(i, j)).a == alpha
                &&& image.pixel(i, j).channel(c) == v
            },
    ensures
        sampled_channel(image, x, y, size, c) == (alpha as nat * v as nat) / 255,
{
    let w = alpha as nat * v as nat;
    assert forall|i: int, j: int| x <= i < x + size && y <= j < y + size implies w <= (
    #[trigger] image.pixel(i, j)).weighted(c) <= w by {}
    lemma_block_sum_bounds(image, x, y, size, size, c, w, w);
    let n = size * size;
    assert(n >= 1 && w * size * size == w * n && 255 * size * size == 255 * n
        && n * w == w * n && n * 255 == 255 * n) by (nonlinear_arith)
        requires
            n == size * size,
            size >= 1,
    ;
    lemma_div_multiples_vanish_quotient(n as int, w as int, 255);
}

/// Alpha only ever adds: of two squares with the same values in a channel,
/// the one whose pixels are nowhere more opaque samples to no more in that
/// channel.
pub proof fn lemma_sample_alpha_monotone(
    dim: RasterView,
    bright: RasterView,
    x: int,
    y: int,
    size: nat,
    c: Channel,
)
    requires
        size >= 1,
        forall|i: int, j: int|
            x <= i < x + size && y <= j < y + size ==> {
                &&& (#[trigger] dim.pixel(i, j)).channel(c) == bright.pixel(i, j).channel(c)
                &&& dim.pixel(i, j).a <= bright.pixel(i, j).a
            },
    ensures
        sampled_channel(dim, x, y, size, c) <= sampled_channel(bright, x, y, size, c),
{
    assert forall|i: int, j: int| x <= i < x + size && y <= j < y + size implies 1 * (
    #[trigger] dim.pixel(i, j)).weighted(c) <= 1 * bright.pixel(i, j).weighted(c) by {
        let d = dim.pixel(i, j);
        let b = bright.pixel(i, j);
        let v = d.channel(c) as nat;
        assert((d.a as nat) * v <= (b.a as nat) * v) by (nonlinear_arith)
            requires
                d.a <= b.a,
        ;
    }
    lemma_block_sum_scaled(dim, bright, x, y, size, size, c, 1, 1);
    let low = block_sum(dim, x, y, size, size, c);
    let high = block_sum(bright, x, y, size, size, c);
    let d = 255 * size * size;
    assert(low / d <= high / d) by (nonlinear_arith)
        requires
            0 <= low <= high,
            d == 255 * size * size,
            size >= 1,
    ;
}

/// At half opacity a square is darker than at full opacity: where no pixel
/// has an alpha above 128, a channel samples to strictly less than the same
/// values sample to at alpha 255, if that full result is 2 or more, and
/// also if it is 1 and the square's side is at most 11.
///
/// A full result of 0 cannot be undercut. A full result of 1 is met again
/// by some squares of side 12 or more: there 128/255 of a sum just below
/// two per pixel is still one per pixel.
pub proof fn lemma_sample_half_opacity_darker(
    half: RasterView,
    full: RasterView,
    x: int,
    y: int,
    size: nat,
    c: Channel,
)
    requires
        size >= 1,
        forall|i: int, j: int|
            x <= i < x + size && y <= j < y + size ==> {
                &&& (#[trigger] half.pixel(i, j)).channel(c) == full.pixel(i, j).channel(c)
                &&& half.pixel(i, j).a <= 128
                &&& full.pixel(i, j).a == 255
            },
        sampled_channel(full, x, y, size, c) >= 2 || (sampled_channel(full, x, y, size, c) == 1
            && size <= 11),
    ensures
        sampled_channel(half, x, y, size, c) < sampled_channel(full, x, y, size, c),
{
    assert forall|i: int, j: int| x <= i < x + size && y <= j < y + size implies 255 * (
    #[trigger] half.pixel(i, j)).weighted(c) <= 128 * full.pixel(i, j).weighted(c) by {
        let h = half.pixel(i, j);
        let v = h.channel(c) as nat;
        assert(255 * ((h.a as nat) * v) <= 128 * (255 * v)) by (nonlinear_arith)
            requires
                h.a <= 128,
        ;
    }
    assert forall|i: int, j: int| x <= i < x + size && y <= j < y + size implies (
    #[trigger] full.pixel(i, j)).a == 255 by {
        assert(half.pixel(i, j).a <= 128);
    }
    lemma_block_sum_scaled(half, full, x, y, size, size, c, 255, 128);
    lemma_block_sum_multiple(full, x, y, size, size, c);
    let low = block_sum(half, x, y, size, size, c);
    let high = block_sum(full, x, y, size, size, c);
    let n = size * size;
    let d = 255 * size * size;
    let q = high / d;
    let k = high / 255;
    assert(n >= 1 && d == 255 * n && (size <= 11 ==> n < 128)) by (nonlinear_arith)
        requires
            n == size * size,
            d == 255 * size * size,
            size >= 1,
    ;
    assert(low / d < q) by (nonlinear_arith)
        requires
            0 <= low,
            255 * low <= 128 * high,
            high == 255 * k,
            d == 255 * n,
            n >= 1,
            q == high / d,
            q >= 2 || (q == 1 && n < 128),
    ;
}

/// Over a square of fully opaque pixels, a channel's sum is a multiple of
/// 255.
proof fn lemma_block_sum_multiple(
    image: RasterView,
    x: int,
    y: int,
    cols: nat,
    rows: nat,
    c: Channel,
)
    requires
        forall|i: int, j: int|
            x <= i < x + cols && y <= j < y + rows ==> (#[trigger] image.pixel(i, j)).a == 255,
    ensures
        block_sum(image, x, y, cols, rows, c) == 255 * (block_sum(image, x, y, cols, rows, c)
            / 255),
    decreases cols,
{
    if cols > 0 {
        lemma_block_sum_multiple(image, x, y, (cols - 1) as nat, rows, c);
        lemma_column_sum_multiple(image, x + cols - 1, y, rows, c);
    }
}

/// Over a column of fully opaque pixels, a channel's sum is a multiple of
/// 255.
proof fn lemma_column_sum_multiple(image: RasterView, x: int, y: int, rows: nat, c: Channel)
    requires
        forall|j: int| y <= j < y + rows ==> (#[trigger] image.pixel(x, j)).a == 255,
    ensures
        column_sum(image, x, y, rows, c) == 255 * (column_sum(image, x, y, rows, c) / 255),
    decreases rows,
{
    if rows > 0 {
        lemma_column_sum_multiple(image, x, y, (rows - 1) as nat, c);
        assert(image.pixel(x, y + rows - 1).a == 255);
    }
}

/// A sampled channel fits in a byte.
pub proof fn lemma_sampled_channel_max(image: RasterView, x: int, y: int, size: nat, c: Channel)
    requires
        size >= 1,
    ensures
        sampled_channel(image, x, y, size, c) <= 255,
{
    lemma_block_sum_max(image, x, y, size, size, c);
    let sum = block_sum(image, x, y, size, size, c);
    let d = 255 * size * size;
    assert(sum / d <= 255) by (nonlinear_arith)
        requires
            0 <= sum <= 65025 * size * size,
            d == 255 * size * size,
            size >= 1,
    ;
}

/// A pixel adds at most `255 * 255` to a channel's sum.
pub proof fn lemma_weighted_max(p: Pixel, c: Channel)
    ensures
        p.weighted(c) <= 65025,
{
    let a = p.a as nat;
    let v = p.channel(c) as nat;
    assert(a * v <= 65025) by (nonlinear_arith)
        requires
            a <= 255,
            v <= 255,
    ;
}

/// If every pixel of a column adds between `lo` and `hi`, the column's sum
/// lies between `lo * rows` and `hi * rows`.
pub proof fn lemma_column_sum_bounds(
    image: RasterView,
    x: int,
    y: int,
    rows: nat,
    c: Channel,
    lo: nat,
    hi: nat,
)
    requires
        forall|j: int|
            y <= j < y + rows ==> lo <= (#[trigger] image.pixel(x, j)).weighted(c) <= hi,
    ensures
        lo * rows <= column_sum(image, x, y, rows, c) <= hi * rows,
    decreases rows,
{
    if rows > 0 {
        let prev = (rows - 1) as nat;
        lemma_column_sum_bounds(image, x, y, prev, c, lo, hi);
        let last = image.pixel(x, y + rows - 1).weighted(c);
        assert(lo <= last <= hi);
        assert(lo * rows == lo * prev + lo && hi * rows == hi * prev + hi) by (nonlinear_arith)
            requires
                rows == prev + 1,
        ;
    } else {
        assert(lo * rows == 0 && hi * rows == 0) by (nonlinear_arith)
            requires
                rows == 0,
        ;
    }
}

/// If every pixel of a block adds between `lo` and `hi`, the block's sum
/// lies between `lo * cols * rows` and `hi * cols * rows`.
pub proof fn lemma_block_sum_bounds(
    image: RasterView,
    x: int,
    y: int,
    cols: nat,
    rows: nat,
    c: Channel,
    lo: nat,
    hi: nat,
)
    requires
        forall|i: int, j: int|
            x <= i < x + cols && y <= j < y + rows ==> lo <= (#[trigger] image.pixel(
                i,
                j,
            )).weighted(c) <= hi,
    ensures
        lo * cols * rows <= block_sum(image, x, y, cols, rows, c) <= hi * cols * rows,
    decreases cols,
{
    if cols > 0 {
        let prev = (cols - 1) as nat;
        lemma_block_sum_bounds(image, x, y, prev, rows, c, lo, hi);
        lemma_column_sum_bounds(image, x + cols - 1, y, rows, c, lo, hi);
        assert(lo * cols * rows == lo * prev * rows + lo * rows
            && hi * cols * rows == hi * prev * rows + hi * rows) by (nonlinear_arith)
            requires
                cols == prev + 1,
        ;
    } else {
        assert(lo * cols * rows == 0 && hi * cols * rows == 0) by (nonlinear_arith)
            requires
                cols == 0,
        ;
    }
}

/// A block's sum is at most `255 * 255` per pixel.
pub proof fn lemma_block_sum_max(
    image: RasterView,
    x: int,
    y: int,
    cols: nat,
    rows: nat,
    c: Channel,
)
    ensures
        block_sum(image, x, y, cols, rows, c) <= 65025 * cols * rows,
{
    assert forall|i: int, j: int| x <= i < x + cols && y <= j < y + rows implies 0 <= (
    #[trigger] image.pixel(i, j)).weighted(c) <= 65025 by {
        lemma_weighted_max(image.pixel(i, j), c);
    }
    lemma_block_sum_bounds(image, x, y, cols, rows, c, 0, 65025);
}

/// A column's sum is at most `255 * 255` per pixel.
proof fn lemma_column_sum_max(image: RasterView, x: int, y: int, rows: nat, c: Channel)
    ensures
        column_sum(image, x, y, rows, c) <= 65025 * rows,
{
    assert forall|j: int| y <= j < y + rows implies 0 <= (#[trigger] image.pixel(
        x,
        j,
    )).weighted(c) <= 65025 by {
        lemma_weighted_max(image.pixel(x, j), c);
    }
    lemma_column_sum_bounds(image, x, y, rows, c, 0, 65025);
}

/// A fully transparent square samples to 0 in a channel.
proof fn lemma_sample_zero(image: RasterView, x: int, y: int, size: nat, c: Channel)
    requires
        size >= 1,
        image.square_is_transparent(x, y, size as int),
    ensures
        sampled_channel(image, x, y, size, c) == 0,
{
    assert forall|i: int, j: int| x <= i < x + size && y <= j < y + size implies 0 <= (
    #[trigger] image.pixel(i, j)).weighted(c) <= 0 by {
        assert(0 * (image.pixel(i, j).channel(c) as nat) == 0);
    }
    lemma_block_sum_bounds(image, x, y, size, size, c, 0, 0);
    let sum = block_sum(image, x, y, size, size, c);
    let d = 255 * size * size;
    assert(sum / d == 0) by (nonlinear_arith)
        requires
            0 * size * size <= sum <= 0 * size * size,
            d == 255 * size * size,
            size >= 1,
    ;
}

/// If every pixel of `a` adds, scaled by `p`, no more than the pixel of `b`
/// in its place scaled by `q`, the same holds of the sums over a column.
proof fn lemma_column_sum_scaled(
    a: RasterView,
    b: RasterView,
    x: int,
    y: int,
    rows: nat,
    c: Channel,
    p: nat,
    q: nat,
)
    requires
        forall|j: int|
            y <= j < y + rows ==> p * (#[trigger] a.pixel(x, j)).weighted(c) <= q * b.pixel(
                x,
                j,
            ).weighted(c),
    ensures
        p * column_sum(a, x, y, rows, c) <= q * column_sum(b, x, y, rows, c),
    decreases rows,
{
    if rows > 0 {
        let prev = (rows - 1) as nat;
        lemma_column_sum_scaled(a, b, x, y, prev, c, p, q);
        let sa = column_sum(a, x, y, prev, c);
        let sb = column_sum(b, x, y, prev, c);
        let ta = a.pixel(x, y + rows - 1).weighted(c);
        let tb = b.pixel(x, y + rows - 1).weighted(c);
        assert(p * ta <= q * tb);
        assert(p * (sa + ta) == p * sa + p * ta && q * (sb + tb) == q * sb + q * tb)
            by (nonlinear_arith);
    } else {
        assert(p * 0 == 0 && q * 0 == 0) by (nonlinear_arith);
    }
}

/// If every pixel of `a` adds, scaled by `p`, no more than the pixel of `b`
/// in its place scaled by `q`, the same holds of the sums over a block.
proof fn lemma_block_sum_scaled(
    a: RasterView,
    b: RasterView,
    x: int,
    y: int,
    cols: nat,
    rows: nat,
    c: Channel,
    p: nat,
    q: nat,
)
    requires
        forall|i: int, j: int|
            x <= i < x + cols && y <= j < y + rows ==> p * (#[trigger] a.pixel(i, j)).weighted(c)
                <= q * b.pixel(i, j).weighted(c),
    ensures
        p * block_sum(a, x, y, cols, rows, c) <= q * block_sum(b, x, y, cols, rows, c),
    decreases cols,
{
    if cols > 0 {
        let prev = (cols - 1) as nat;
        lemma_block_sum_scaled(a, b, x, y, prev, rows, c, p, q);
        lemma_column_sum_scaled(a, b, x + cols - 1, y, rows, c, p, q);
        let sa = block_sum(a, x, y, prev, rows, c);
        let sb = block_sum(b, x, y, prev, rows, c);
        let ta = column_sum(a, x + cols - 1, y, rows, c);
        let tb = column_sum(b, x + cols - 1, y, rows, c);
        assert(p * (sa + ta) == p * sa + p * ta && q * (sb + tb) == q * sb + q * tb)
            by (nonlinear_arith);
    } else {
        assert(p * 0 == 0 && q * 0 == 0) by (nonlinear_arith);
    }
}

/// The sum over `cols` columns of `size` pixels, and over one column more,
/// stays far below the range of the accumulators.
proof fn lemma_accumulator_room(cols: nat, size: nat)
    requires
        cols <= size,
        size <= u32::MAX,
    ensures
        1 <= size ==> 1 <= size * size,
        size * size <= 0xffff_ffff_ffff_ffff,
        65025 * cols * size + 65025 * size <= 0xffff_ffff_ffff_ffff_ffff,
{
    assert(0 <= cols * size <= size * size <= 0xffff_ffff * 0xffff_ffff && (1 <= size ==> 1 <= size
        * size) && 65025 * cols * size == 65025 * (cols * size)) by (nonlinear_arith)
        requires
            0 <= cols <= size <= 0xffff_ffff,
    ;
}

} // verus!
