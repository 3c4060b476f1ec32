//! The integer factor by which an image is shrunk to fit the terminal.
//!
//! A terminal cell shows two samples, one above the other, so a grid of
//! `cols` by `rows` cells has room for `cols` by `2 * rows` samples. The
//! factor is the smallest whole number of source pixels per sample, in each
//! direction, with which the full image fits.

use vstd::prelude::*;
use vstd::arithmetic::div_mod::lemma_fundamental_div_mod;
use crate::error::RenderError;

verus! {

/// The size of the terminal in character cells, as it was when the run
/// began.
#[derive(Clone, Copy, Debug, PartialEq, Eq)]
pub struct TerminalGrid {
    pub cols: u32,
    pub rows: u32,
}

impl TerminalGrid {
    /// Takes what the terminal answered when asked for its size: columns
    /// and rows, or nothing if it gave no answer. No answer is an
    /// environment error.
    pub fn from_query(size: Option<(u16, u16)>) -> (r: Result<TerminalGrid, RenderError>)
        ensures
            match size {
                Some((cols, rows)) => r == Ok::<TerminalGrid, RenderError>(
                    TerminalGrid { cols: cols as u32, rows: rows as u32 },
                ),
                None => r == Err::<TerminalGrid, RenderError>(RenderError::Environment),
            },
    {
        match size {
            Some((cols, rows)) => Ok(TerminalGrid { cols: cols as u32, rows: rows as u32 }),
            None => Err(RenderError::Environment),
        }
    }
}

/// `n / d`, rounded up.
pub open spec fn ceil_div(n: nat, d: nat) -> nat
    recommends
        d > 0,
{
    ((n + d - 1) / (d as int)) as nat
}

/// The downscale factor for an image of `width` by `height` pixels on a
/// terminal of `cols` by `rows` cells: the larger of the horizontal and the
/// vertical need, and at least 1.
pub open spec fn downscale_factor(width: nat, height: nat, cols: nat, rows: nat) -> nat
    recommends
        cols > 0,
        rows > 0,
{
    let h_scale = ceil_div(width, cols);
    let v_scale = ceil_div(height, rows * 2);
    let scale = if h_scale > v_scale {
        h_scale
    } else {
        v_scale
    };
    if scale < 1 {
        1
    } else {
        scale
    }
}

/// With `scale` source pixels per sample the whole image has room on the
/// terminal.
pub open spec fn fits(scale: int, width: nat, height: nat, cols: nat, rows: nat) -> bool {
    &&& scale >= 1
    &&& width <= scale * cols
    &&& height <= scale * rows * 2
}

/// `ceil_div(n, d)` times `d` reaches `n`, and `ceil_div(n, d)` is no more
/// than `n` itself.
pub proof fn lemma_ceil_div_reaches(n: nat, d: nat)
    requires
        d > 0,
    ensures
        n <= ceil_div(n, d) * d,
        ceil_div(n, d) <= n,
{
    let m = n + d - 1;
    let q = m / (d as int);
    let r = m % (d as int);
    lemma_fundamental_div_mod(m, d as int);
    assert(q >= 0 && q <= n && q * d == d * q) by (nonlinear_arith)
        requires
            m == d * q + r,
            m == n + d - 1,
            0 <= r < d,
            n >= 0,
    ;
}

/// No `k` below `ceil_div(n, d)` has `n <= k * d`.
pub proof fn lemma_ceil_div_is_least(n: nat, d: nat, k: int)
    requires
        d > 0,
        n <= k * d,
    ensures
        ceil_div(n, d) <= k,
{
    let m = n + d - 1;
    let q = m / (d as int);
    let r = m % (d as int);
    lemma_fundamental_div_mod(m, d as int);
    assert(q <= k) by (nonlinear_arith)
        requires
            m == d * q + r,
            m == n + d - 1,
            0 <= r < d,
            n <= k * d,
    ;
}

/// The downscale factor makes the image fit, and no smaller factor does.
pub proof fn lemma_downscale_is_least_fit(width: nat, height: nat, cols: nat, rows: nat)
    requires
        cols > 0,
        rows > 0,
    ensures
        fits(downscale_factor(width, height, cols, rows) as int, width, height, cols, rows),
        forall|s: int|
            fits(s, width, height, cols, rows) ==> downscale_factor(width, height, cols, rows)
                <= s,
{
    let h_scale = ceil_div(width, cols);
    let v_scale = ceil_div(height, rows * 2);
    let scale = downscale_factor(width, height, cols, rows);
    lemma_ceil_div_reaches(width, cols);
    lemma_ceil_div_reaches(height, rows * 2);
    assert(h_scale * cols <= scale * cols) by (nonlinear_arith)
        requires
            h_scale <= scale,
            cols > 0,
    ;
    assert(v_scale * (rows * 2) <= scale * (rows * 2)) by (nonlinear_arith)
        requires
            v_scale <= scale,
            rows > 0,
    ;
    assert(scale * (rows * 2) == scale * rows * 2) by (nonlinear_arith);
    assert forall|s: int| fits(s, width, height, cols, rows) implies scale <= s by {
        assert(s * (rows * 2) == s * rows * 2) by (nonlinear_arith);
        lemma_ceil_div_is_least(width, cols, s);
        lemma_ceil_div_is_least(height, rows * 2, s);
    }
}

/// Computes the downscale factor.
///
/// A terminal without columns or without rows has no room for any image:
/// that is an environment error.
pub fn calc_downscale(width: u32, height: u32, grid: TerminalGrid) -> (r: Result<u32, RenderError>)
    ensures
        match r {
            Ok(scale) => {
                &&& grid.cols > 0 && grid.rows > 0
                &&& scale == downscale_factor(
                    width as nat,
                    height as nat,
                    grid.cols as nat,
                    grid.rows as nat,
                )
                &&& fits(
                    scale as int,
                    width as nat,
                    height as nat,
                    grid.cols as nat,
                    grid.rows as nat,
                )
                &&& forall|s: int|
                    fits(s, width as nat, height as nat, grid.cols as nat, grid.rows as nat)
                        ==> scale <= s
            },
            Err(e) => (grid.cols == 0 || grid.rows == 0) && e == RenderError::Environment,
        },
{
    if grid.cols == 0 || grid.rows == 0 {
        return Err(RenderError::Environment);
    }
    proof {
        lemma_ceil_div_reaches(width as nat, grid.cols as nat);
        lemma_ceil_div_reaches(height as nat, (grid.rows * 2) as nat);
        lemma_downscale_is_least_fit(
            width as nat,
            height as nat,
            grid.cols as nat,
            grid.rows as nat,
        );
    }
    let cols: u64 = grid.cols as u64;
    let half_rows: u64 = grid.rows as u64 * 2;
    let h_scale: u64 = (width as u64 + cols - 1) / cols;
    let v_scale: u64 = (height as u64 + half_rows - 1) / half_rows;
    let scale: u64 = if h_scale > v_scale {
        h_scale
    } else {
        v_scale
    };
    if scale < 1 {
        Ok(1)
    } else {
        Ok(scale as u32)
    }
}

} // verus!
