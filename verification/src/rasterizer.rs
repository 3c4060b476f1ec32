//! From an image and a downscale factor to the grid of coloured cells.
//!
//! The image is cut into squares of `scale` by `scale` pixels; what is left
//! over at the right and bottom edges is dropped. Each square becomes one
//! sample. Two rows of samples make one terminal line: the upper row is the
//! foreground of the half-block glyph, the lower row its background. If the
//! number of sample rows is odd, the last line has no lower row, and its
//! cells have no background.

use vstd::prelude::*;
use vstd::arithmetic::div_mod::lemma_fundamental_div_mod;
use crate::color::Color;
use crate::raster::{RasterImage, RasterView};
use crate::sampler::{sample, sampled_color};

verus! {

/// One character cell: the colour of the glyph's upper half and, where
/// there is a sample row beneath, the colour of its lower half.
#[derive(Clone, Copy, Debug, PartialEq, Eq)]
pub struct Cell {
    pub fg: Color,
    pub bg: Option<Color>,
}

/// Number of whole samples in a row of the image.
pub open spec fn sample_cols(image: RasterView, scale: nat) -> nat {
    image.width / scale
}

/// Number of whole rows of samples in the image.
pub open spec fn sample_rows(image: RasterView, scale: nat) -> nat {
    image.height / scale
}

/// Number of terminal lines: half the sample rows, rounded up.
pub open spec fn line_count(image: RasterView, scale: nat) -> nat {
    (sample_rows(image, scale) + 1) / 2
}

/// The sample in column `col` of sample row `row`: the average of the
/// square of side `scale` whose top-left pixel is `(col * scale, row * scale)`.
pub open spec fn grid_sample(image: RasterView, scale: nat, col: int, row: int) -> Color {
    sampled_color(image, col * scale, row * scale, scale)
}

/// The cell in column `col` of line `line`: its foreground is the sample
/// of row `2 * line`, its background that of row `2 * line + 1`, if the
/// image has such a row.
pub open spec fn rendered_cell(image: RasterView, scale: nat, line: int, col: int) -> Cell {
    Cell {
        fg: grid_sample(image, scale, col, 2 * line),
        bg: if 2 * line + 1 < sample_rows(image, scale) {
            Some(grid_sample(image, scale, col, 2 * line + 1))
        } else {
            None
        },
    }
}

/// The cells of line `line`, from left to right.
pub open spec fn rendered_line(image: RasterView, scale: nat, line: int) -> Seq<Cell> {
    Seq::new(sample_cols(image, scale), |col: int| rendered_cell(image, scale, line, col))
}

/// All lines, from top to bottom.
pub open spec fn rendered(image: RasterView, scale: nat) -> Seq<Seq<Cell>> {
    Seq::new(line_count(image, scale), |line: int| rendered_line(image, scale, line))
}

/// The lines of a grid as sequences of cells.
pub open spec fn grid_view(lines: Seq<Vec<Cell>>) -> Seq<Seq<Cell>> {
    Seq::new(lines.len(), |line: int| lines[line]@)
}

/// The rendering has `ceil(rows / 2)` lines of `cols` cells, where `rows`
/// and `cols` count the whole samples. Every cell has the sample of the
/// upper of its two rows as foreground. A cell lacks a background exactly
/// if `rows` is odd and the cell is in the last line; any other cell has
/// the sample of the lower of its two rows as background.
pub proof fn lemma_rendered_shape(image: RasterView, scale: nat)
    requires
        scale >= 1,
    ensures
        rendered(image, scale).len() == line_count(image, scale),
        2 * line_count(image, scale) == sample_rows(image, scale) + sample_rows(image, scale) % 2,
        forall|line: int|
            0 <= line < line_count(image, scale) ==> (#[trigger] rendered(image, scale)[line]).len()
                == sample_cols(image, scale),
        forall|line: int, col: int|
            0 <= line < line_count(image, scale) && 0 <= col < sample_cols(image, scale) ==> {
                let cell = #[trigger] rendered(image, scale)[line][col];
                let last_of_odd = sample_rows(image, scale) % 2 == 1 && line == line_count(
                    image,
                    scale,
                ) - 1;
                &&& cell.fg == grid_sample(image, scale, col, 2 * line)
                &&& cell.bg is None <==> last_of_odd
                &&& !last_of_odd ==> cell.bg == Some(grid_sample(image, scale, col, 2 * line + 1))
            },
{
}

/// The `k`-th of the whole blocks of `scale` that fit in `total` ends
/// inside `total`.
proof fn lemma_block_inside(total: nat, scale: nat, k: nat)
    requires
        scale >= 1,
        k < total / scale,
    ensures
        k * scale + scale <= total,
{
    let n = total / scale;
    lemma_fundamental_div_mod(total as int, scale as int);
    assert(k * scale + scale <= scale * n) by (nonlinear_arith)
        requires
            k + 1 <= n,
            scale >= 1,
    ;
}

/// Samples the image square by square into lines of cells.
///
/// `scale` is the side of a square in pixels and must not be 0.
pub fn render(image: &RasterImage, scale: u32) -> (lines: Vec<Vec<Cell>>)
    requires
        scale >= 1,
    ensures
        grid_view(lines@) == rendered(image@, scale as nat),
        lines@.len() == line_count(image@, scale as nat),
        forall|l: int, c: int|
            0 <= l < lines@.len() && 0 <= c < lines@[l]@.len() ==> (
            (#[trigger] lines@[l]@[c]).bg is None <==> sample_rows(image@, scale as nat) % 2 == 1
                && l == lines@.len() - 1),
{
    let cols: u32 = image.width() / scale;
    let rows: u32 = image.height() / scale;
    let n_lines: u32 = rows / 2 + rows % 2;
    let mut lines: Vec<Vec<Cell>> = Vec::new();
    let mut line: u32 = 0;
    while line < n_lines
        invariant
            scale >= 1,
            image@.width <= u32::MAX,
            image@.height <= u32::MAX,
            cols == sample_cols(image@, scale as nat),
            rows == sample_rows(image@, scale as nat),
            n_lines == line_count(image@, scale as nat),
            line <= n_lines,
            lines@.len() == line,
            forall|l: int|
                0 <= l < line ==> (#[trigger] lines@[l])@ == rendered_line(image@, scale as nat, l),
        decreases n_lines - line,
    {
        let row: u32 = line * 2;
        proof {
            lemma_block_inside(image@.height, scale as nat, row as nat);
            if row + 1 < rows {
                lemma_block_inside(image@.height, scale as nat, (row + 1) as nat);
                assert((row + 1) * scale == row * scale + scale) by (nonlinear_arith);
            }
        }
        let y: u32 = row * scale;
        let mut cells: Vec<Cell> = Vec::new();
        let mut col: u32 = 0;
        while col < cols
            invariant
                scale >= 1,
                image@.width <= u32::MAX,
                image@.height <= u32::MAX,
                cols == sample_cols(image@, scale as nat),
                rows == sample_rows(image@, scale as nat),
                row == line * 2,
                row < rows,
                y == row * scale,
                y + scale <= image@.height,
                row + 1 < rows ==> y + scale + scale <= image@.height,
                col <= cols,
                cells@.len() == col,
                forall|c: int|
                    0 <= c < col ==> #[trigger] cells@[c] == rendered_cell(
                        image@,
                        scale as nat,
                        line as int,
                        c,
                    ),
            decreases cols - col,
        {
            proof {
                lemma_block_inside(image@.width, scale as nat, col as nat);
                assert((2 * line + 1) * scale == y + scale) by (nonlinear_arith)
                    requires
                        y == (line * 2) * scale,
                ;
                assert((2 * line) * scale == y) by (nonlinear_arith)
                    requires
                        y == (line * 2) * scale,
                ;
            }
            let x: u32 = col * scale;
            let fg: Color = sample(image, x, y, scale);
            let bg: Option<Color> = if row + 1 < rows {
                Some(sample(image, x, y + scale, scale))
            } else {
                None
            };
            cells.push(Cell { fg, bg });
            col = col + 1;
        }
        assert(cells@ =~= rendered_line(image@, scale as nat, line as int));
        lines.push(cells);
        line = line + 1;
    }
    assert(grid_view(lines@) =~= rendered(image@, scale as nat));
    proof {
        lemma_rendered_shape(image@, scale as nat);
        assert forall|l: int, c: int|
            0 <= l < lines@.len() && 0 <= c < lines@[l]@.len() implies (
        (#[trigger] lines@[l]@[c]).bg is None <==> sample_rows(image@, scale as nat) % 2 == 1 && l
            == lines@.len() - 1) by {
            assert(lines@[l]@ == rendered(image@, scale as nat)[l]);
        }
    }
    lines
}

} // verus!
