use halfblock::cli::{parse_args, render_output};
use halfblock::downscale::TerminalGrid;
use halfblock::error::RenderError;
use halfblock::raster::RasterImage;

fn args(list: &[&str]) -> Vec<String> {
    list.iter().map(|s| s.to_string()).collect()
}

/// An opaque image from a list of colours, row by row.
fn opaque(width: u32, height: u32, colours: &[[u8; 3]]) -> RasterImage {
    let mut buf = Vec::new();
    for c in colours {
        buf.extend_from_slice(&[c[0], c[1], c[2], 255]);
    }
    RasterImage::new(width, height, buf).unwrap()
}

#[test]
fn one_argument_is_the_image_path() {
    assert_eq!(parse_args(&args(&["prog", "cat.png"])), Ok("cat.png"));
    assert_eq!(parse_args(&args(&["prog", ""])), Ok(""));
    assert_eq!(parse_args(&args(&["", "a b/c.jpg"])), Ok("a b/c.jpg"));
}

#[test]
fn no_argument_is_a_usage_error() {
    assert_eq!(parse_args(&args(&["prog"])), Err(RenderError::Usage));
    assert_eq!(parse_args(&args(&[])), Err(RenderError::Usage));
}

#[test]
fn two_or_more_arguments_are_a_usage_error() {
    assert_eq!(parse_args(&args(&["prog", "a.png", "b.png"])), Err(RenderError::Usage));
    assert_eq!(parse_args(&args(&["prog", "a", "b", "c", "d"])), Err(RenderError::Usage));
}

#[test]
fn usage_error_exits_with_one() {
    let e = parse_args(&args(&["prog"])).unwrap_err();
    assert_eq!(e.exit_code(), 1);
    assert_eq!(e.message(), "Pass image as argument");
}

#[test]
fn other_errors_exit_with_a_code_that_is_not_zero() {
    assert_eq!(RenderError::Decode.exit_code(), 101);
    assert_eq!(RenderError::Environment.exit_code(), 101);
    assert_eq!(RenderError::Decode.message(), "Could not decode the image");
    assert_eq!(RenderError::Environment.message(), "Could not determine the terminal size");
    for e in [RenderError::Usage, RenderError::Decode, RenderError::Environment] {
        assert_ne!(e.exit_code(), 0);
        assert!(!e.message().contains('\n'));
    }
}

#[test]
fn two_by_two_image_end_to_end() {
    let image = opaque(2, 2, &[[255, 0, 0], [0, 255, 0], [0, 0, 255], [255, 255, 255]]);
    let text = render_output(&image, TerminalGrid { cols: 2, rows: 2 }).unwrap();
    assert_eq!(
        text,
        "Dimensions: 2x2\n\
         \x1b[38;2;255;0;0m\x1b[48;2;0;0;255m\u{2580}\
         \x1b[38;2;0;255;0m\x1b[48;2;255;255;255m\u{2580}\x1b[m\n"
    );
}

#[test]
fn three_rows_end_to_end() {
    let image = opaque(1, 3, &[[10, 10, 10], [20, 20, 20], [30, 30, 30]]);
    let text = render_output(&image, TerminalGrid { cols: 80, rows: 24 }).unwrap();
    assert_eq!(
        text,
        "Dimensions: 1x3\n\
         \x1b[38;2;10;10;10m\x1b[48;2;20;20;20m\u{2580}\x1b[m\n\
         \x1b[38;2;30;30;30m\u{2580}\x1b[m\n"
    );
}

#[test]
fn image_is_shrunk_to_the_terminal() {
    // 4 by 4 on a terminal of 2 by 1 cells: the factor is 2, and the two
    // sample rows share one line.
    let mut colours = Vec::new();
    for row in 0..4 {
        for col in 0..4 {
            colours.push(match (col / 2, row / 2) {
                (0, 0) => [100, 0, 0],
                (1, 0) => [0, 100, 0],
                (0, 1) => [0, 0, 100],
                _ => [50, 60, 70],
            });
        }
    }
    let image = opaque(4, 4, &colours);
    let text = render_output(&image, TerminalGrid { cols: 2, rows: 1 }).unwrap();
    assert_eq!(
        text,
        "Dimensions: 4x4\n\
         \x1b[38;2;100;0;0m\x1b[48;2;0;0;100m\u{2580}\
         \x1b[38;2;0;100;0m\x1b[48;2;50;60;70m\u{2580}\x1b[m\n"
    );
}

#[test]
fn empty_image_prints_only_its_dimensions() {
    let image = RasterImage::new(0, 0, vec![]).unwrap();
    let text = render_output(&image, TerminalGrid { cols: 80, rows: 24 }).unwrap();
    assert_eq!(text, "Dimensions: 0x0\n");
}

#[test]
fn terminal_without_cells_fails_the_run() {
    let image = opaque(1, 1, &[[1, 2, 3]]);
    assert_eq!(
        render_output(&image, TerminalGrid { cols: 0, rows: 24 }),
        Err(RenderError::Environment)
    );
    assert_eq!(
        render_output(&image, TerminalGrid { cols: 80, rows: 0 }),
        Err(RenderError::Environment)
    );
}
