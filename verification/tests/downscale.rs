use halfblock::downscale::{calc_downscale, TerminalGrid};
use halfblock::error::RenderError;

fn grid(cols: u32, rows: u32) -> TerminalGrid {
    TerminalGrid { cols, rows }
}

#[test]
fn horizontal_need_decides() {
    assert_eq!(calc_downscale(100, 50, grid(10, 5)), Ok(10));
    assert_eq!(calc_downscale(81, 10, grid(80, 24)), Ok(2));
}

#[test]
fn vertical_need_decides() {
    // 100 rows of pixels on 10 lines of two samples each: 100 / 20 = 5.
    assert_eq!(calc_downscale(10, 100, grid(80, 10)), Ok(5));
    // 101 rows need one more.
    assert_eq!(calc_downscale(10, 101, grid(80, 10)), Ok(6));
}

#[test]
fn division_is_rounded_up() {
    assert_eq!(calc_downscale(80, 1, grid(80, 24)), Ok(1));
    assert_eq!(calc_downscale(161, 1, grid(80, 24)), Ok(3));
    assert_eq!(calc_downscale(160, 1, grid(80, 24)), Ok(2));
    assert_eq!(calc_downscale(1, 48, grid(80, 24)), Ok(1));
    assert_eq!(calc_downscale(1, 49, grid(80, 24)), Ok(2));
}

#[test]
fn small_image_keeps_factor_one() {
    assert_eq!(calc_downscale(1, 1, grid(80, 24)), Ok(1));
    assert_eq!(calc_downscale(2, 2, grid(2, 2)), Ok(1));
}

#[test]
fn empty_image_is_clamped_to_one() {
    assert_eq!(calc_downscale(0, 0, grid(80, 24)), Ok(1));
    assert_eq!(calc_downscale(0, 10, grid(80, 24)), Ok(1));
    assert_eq!(calc_downscale(10, 0, grid(80, 24)), Ok(1));
}

#[test]
fn largest_dimensions_do_not_overflow() {
    assert_eq!(calc_downscale(u32::MAX, u32::MAX, grid(1, 1)), Ok(u32::MAX));
    assert_eq!(calc_downscale(u32::MAX, u32::MAX, grid(u32::MAX, u32::MAX)), Ok(1));
    assert_eq!(calc_downscale(0, u32::MAX, grid(1, u32::MAX)), Ok(1));
    assert_eq!(calc_downscale(0, u32::MAX, grid(1, 1)), Ok(2147483648));
}

#[test]
fn terminal_without_cells_is_an_environment_error() {
    assert_eq!(calc_downscale(100, 50, grid(0, 5)), Err(RenderError::Environment));
    assert_eq!(calc_downscale(100, 50, grid(10, 0)), Err(RenderError::Environment));
    assert_eq!(calc_downscale(100, 50, grid(0, 0)), Err(RenderError::Environment));
    assert_eq!(calc_downscale(0, 0, grid(0, 0)), Err(RenderError::Environment));
}

#[test]
fn factor_is_the_least_that_fits() {
    for width in 1u64..40 {
        for height in 1u64..40 {
            for cols in 1u64..8 {
                for rows in 1u64..8 {
                    let scale = calc_downscale(
                        width as u32,
                        height as u32,
                        grid(cols as u32, rows as u32),
                    )
                    .unwrap() as u64;
                    assert!(scale >= 1);
                    assert!(width <= scale * cols);
                    assert!(height <= scale * rows * 2);
                    let smaller = scale - 1;
                    assert!(
                        smaller < 1 || width > smaller * cols || height > smaller * rows * 2
                    );
                }
            }
        }
    }
}

#[test]
fn terminal_that_gives_no_size_is_an_environment_error() {
    assert_eq!(TerminalGrid::from_query(None), Err(RenderError::Environment));
}

#[test]
fn terminal_size_is_columns_then_rows() {
    assert_eq!(TerminalGrid::from_query(Some((80, 24))), Ok(TerminalGrid { cols: 80, rows: 24 }));
    assert_eq!(
        TerminalGrid::from_query(Some((65535, 0))),
        Ok(TerminalGrid { cols: 65535, rows: 0 })
    );
}
