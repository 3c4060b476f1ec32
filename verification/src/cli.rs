//! One run of the program, without its input and output.
//!
//! The program is given one image path. It reads the image, asks the
//! terminal for its size, and prints the image's dimensions and its
//! rendering. Reading arguments, files and the terminal, and printing, are
//! left to the caller; what is decided and computed in between is here.

use vstd::prelude::*;
use vstd::string::StringExecFns;
use crate::ansi::{
    encode, encoded_lines, lemma_line_feeds_concat, lemma_line_feeds_of_single_line,
    lemma_one_line_feed_per_line, line_feeds,
};
use crate::downscale::{calc_downscale, downscale_factor, TerminalGrid};
use crate::error::RenderError;
use crate::raster::{RasterImage, RasterView};
use crate::rasterizer::{line_count, render, rendered, sample_rows};
use crate::text::{decimal, lemma_decimal_single_line, push_decimal, single_line};

verus! {

/// What the arguments ask for: the image path, if the program name is
/// followed by exactly one argument, and a usage error otherwise.
pub open spec fn requested_path(args: Seq<String>) -> Result<Seq<char>, RenderError> {
    if args.len() == 2 {
        Ok(args[1]@)
    } else {
        Err(RenderError::Usage)
    }
}

/// The line that states the image's dimensions.
pub open spec fn header(width: nat, height: nat) -> Seq<char> {
    "Dimensions: "@ + decimal(width) + seq!['x'] + decimal(height) + seq!['\n']
}

/// Everything a successful run prints: the header, then the image rendered
/// at the factor that makes it fit the terminal.
pub open spec fn output_text(image: RasterView, grid: TerminalGrid) -> Seq<char> {
    let scale = downscale_factor(image.width, image.height, grid.cols as nat, grid.rows as nat);
    header(image.width, image.height) + encoded_lines(rendered(image, scale))
}

/// A run with no argument, or with two or more, fails with a usage error,
/// whose exit code is 1, before any path is known that could be opened.
pub proof fn lemma_wrong_argument_count(args: Seq<String>)
    requires
        args.len() != 2,
    ensures
        requested_path(args) == Err::<Seq<char>, RenderError>(RenderError::Usage),
        RenderError::Usage.code() == 1,
{
}

/// A run prints its header and then `ceil(rows / 2)` lines, where `rows` is
/// the number of whole sample rows of the image at the factor in use.
pub proof fn lemma_printed_line_count(image: RasterView, grid: TerminalGrid)
    requires
        grid.cols > 0,
        grid.rows > 0,
    ensures
        ({
            let scale = downscale_factor(
                image.width,
                image.height,
                grid.cols as nat,
                grid.rows as nat,
            );
            let rows = sample_rows(image, scale);
            &&& line_feeds(encoded_lines(rendered(image, scale))) == line_count(image, scale)
            &&& line_feeds(output_text(image, grid)) == 1 + line_count(image, scale)
            &&& 2 * line_count(image, scale) == rows + rows % 2
        }),
{
    let scale = downscale_factor(image.width, image.height, grid.cols as nat, grid.rows as nat);
    let body = encoded_lines(rendered(image, scale));
    lemma_one_line_feed_per_line(rendered(image, scale));
    let head = "Dimensions: "@ + decimal(image.width) + seq!['x'] + decimal(image.height);
    assert(single_line(head)) by {
        reveal_strlit("Dimensions: ");
        lemma_decimal_single_line(image.width);
        lemma_decimal_single_line(image.height);
    }
    lemma_line_feeds_of_single_line(head);
    assert(header(image.width, image.height).drop_last() =~= head);
    lemma_line_feeds_concat(header(image.width, image.height), body);
}

/// Picks the image path out of the program's arguments, of which the first
/// is the program's own name.
pub fn parse_args<'a>(args: &'a Vec<String>) -> (r: Result<&'a str, RenderError>)
    ensures
        match r {
            Ok(path) => requested_path(args@) == Ok::<Seq<char>, RenderError>(path@),
            Err(e) => requested_path(args@) == Err::<Seq<char>, RenderError>(e),
        },
{
    if args.len() != 2 {
        Err(RenderError::Usage)
    } else {
        Ok(args[1].as_str())
    }
}

/// Renders the image for a terminal of the given size.
///
/// Fails with an environment error if the terminal has no columns or no
/// rows.
pub fn render_output(image: &RasterImage, grid: TerminalGrid) -> (r: Result<String, RenderError>)
    ensures
        match r {
            Ok(text) => grid.cols > 0 && grid.rows > 0 && text@ == output_text(image@, grid),
            Err(e) => (grid.cols == 0 || grid.rows == 0) && e == RenderError::Environment,
        },
{
    let width: u32 = image.width();
    let height: u32 = image.height();
    let scale: u32 = match calc_downscale(width, height, grid) {
        Ok(scale) => scale,
        Err(e) => {
            return Err(e);
        },
    };
    let mut text: String = String::from_str("Dimensions: ");
    push_decimal(&mut text, width);
    proof {
        reveal_strlit("x");
        reveal_strlit("\n");
    }
    text.append("x");
    push_decimal(&mut text, height);
    text.append("\n");
    let lines = render(image, scale);
    let body: String = encode(&lines);
    text.append(body.as_str());
    assert(text@ =~= output_text(image@, grid));
    Ok(text)
}

} // verus!
