//! Spelling a grid of cells as terminal text.
//!
//! Every cell is written as the escape sequence that selects its foreground
//! colour, then, if it has one, the sequence that selects its background
//! colour, then the upper half-block glyph. Every line ends with the
//! sequence that resets all styling and a line feed.
//!
//! The escape sequences themselves come from `termion`. What they are is
//! stated here and taken on trust; everything built from them is verified.

use vstd::prelude::*;
use vstd::string::StringExecFns;
use crate::color::Color;
use crate::rasterizer::{grid_view, Cell};
use crate::text::{decimal, lemma_decimal_single_line, single_line};

verus! {

/// The control sequence introducer: escape, then an opening bracket.
pub open spec fn csi() -> Seq<char> {
    seq!['\x1b', '[']
}

/// The three channels of a colour in decimal, separated by semicolons.
pub open spec fn rgb_parameters(c: Color) -> Seq<char> {
    decimal(c.r as nat) + seq![';'] + decimal(c.g as nat) + seq![';'] + decimal(c.b as nat)
}

/// The sequence that selects `c` as the foreground colour.
pub open spec fn fg_sequence(c: Color) -> Seq<char> {
    csi() + seq!['3', '8', ';', '2', ';'] + rgb_parameters(c) + seq!['m']
}

/// The sequence that selects `c` as the background colour.
pub open spec fn bg_sequence(c: Color) -> Seq<char> {
    csi() + seq!['4', '8', ';', '2', ';'] + rgb_parameters(c) + seq!['m']
}

/// The sequence that resets colours and styles to the terminal's defaults.
pub open spec fn reset_sequence() -> Seq<char> {
    csi() + seq!['m']
}

/// The upper half-block glyph, U+2580.
pub open spec fn glyph() -> Seq<char> {
    seq!['\u{2580}']
}

/// The text of one cell.
pub open spec fn encoded_cell(cell: Cell) -> Seq<char> {
    fg_sequence(cell.fg) + match cell.bg {
        Some(bg) => bg_sequence(bg),
        None => Seq::empty(),
    } + glyph()
}

/// The text of a run of cells, without what ends the line.
pub open spec fn encoded_cells(cells: Seq<Cell>) -> Seq<char>
    decreases cells.len(),
{
    if cells.len() == 0 {
        Seq::empty()
    } else {
        encoded_cells(cells.drop_last()) + encoded_cell(cells.last())
    }
}

/// The text of one line: its cells, the style reset, a line feed.
pub open spec fn encoded_line(cells: Seq<Cell>) -> Seq<char> {
    encoded_cells(cells) + reset_sequence() + seq!['\n']
}

/// The text of all lines, one after the other.
pub open spec fn encoded_lines(lines: Seq<Seq<Cell>>) -> Seq<char>
    decreases lines.len(),
{
    if lines.len() == 0 {
        Seq::empty()
    } else {
        encoded_lines(lines.drop_last()) + encoded_line(lines.last())
    }
}

/// Number of line feeds in `s`.
pub open spec fn line_feeds(s: Seq<char>) -> nat
    decreases s.len(),
{
    if s.len() == 0 {
        0
    } else {
        line_feeds(s.drop_last()) + if s.last() == '\n' {
            1nat
        } else {
            0nat
        }
    }
}

/// The text of a grid has exactly one line feed for each of its lines: the
/// one that ends the line. Nothing before it, neither the cells nor the
/// style reset, holds a line feed.
pub proof fn lemma_one_line_feed_per_line(lines: Seq<Seq<Cell>>)
    ensures
        line_feeds(encoded_lines(lines)) == lines.len(),
        forall|l: int|
            0 <= l < lines.len() ==> single_line(
                #[trigger] encoded_cells(lines[l]) + reset_sequence(),
            ),
    decreases lines.len(),
{
    assert forall|l: int| 0 <= l < lines.len() implies single_line(
        #[trigger] encoded_cells(lines[l]) + reset_sequence(),
    ) by {
        lemma_cells_single_line(lines[l]);
    }
    if lines.len() > 0 {
        let rest = lines.drop_last();
        let cells = lines.last();
        lemma_one_line_feed_per_line(rest);
        lemma_cells_single_line(cells);
        let head = encoded_cells(cells) + reset_sequence();
        lemma_line_feeds_of_single_line(head);
        assert(encoded_line(cells).drop_last() =~= head);
        lemma_line_feeds_concat(encoded_lines(rest), encoded_line(cells));
    }
}

/// Line feeds add up over a concatenation.
pub proof fn lemma_line_feeds_concat(a: Seq<char>, b: Seq<char>)
    ensures
        line_feeds(a + b) == line_feeds(a) + line_feeds(b),
    decreases b.len(),
{
    if b.len() == 0 {
        assert(a + b =~= a);
    } else {
        lemma_line_feeds_concat(a, b.drop_last());
        assert((a + b).drop_last() =~= a + b.drop_last());
    }
}

/// A text without line feed counts none.
pub proof fn lemma_line_feeds_of_single_line(s: Seq<char>)
    requires
        single_line(s),
    ensures
        line_feeds(s) == 0,
    decreases s.len(),
{
    if s.len() > 0 {
        lemma_line_feeds_of_single_line(s.drop_last());
    }
}

/// The text of a run of cells, and the style reset after it, hold no line
/// feed.
proof fn lemma_cells_single_line(cells: Seq<Cell>)
    ensures
        single_line(encoded_cells(cells)),
        single_line(encoded_cells(cells) + reset_sequence()),
    decreases cells.len(),
{
    if cells.len() > 0 {
        lemma_cells_single_line(cells.drop_last());
        let cell = cells.last();
        lemma_decimal_single_line(cell.fg.r as nat);
        lemma_decimal_single_line(cell.fg.g as nat);
        lemma_decimal_single_line(cell.fg.b as nat);
        match cell.bg {
            Some(bg) => {
                lemma_decimal_single_line(bg.r as nat);
                lemma_decimal_single_line(bg.g as nat);
                lemma_decimal_single_line(bg.b as nat);
            },
            None => {},
        }
        assert(single_line(encoded_cell(cell)));
    }
}

/// Calls `termion::color::Rgb::fg_string`. Trusted: it returns the
/// introducer, `38;2;`, the three channels in decimal with semicolons
/// between them, and `m`.
#[verifier::external_body]
fn fg_code(c: Color) -> (code: String)
    ensures
        code@ == fg_sequence(c),
{
    termion::color::Rgb(c.r, c.g, c.b).fg_string()
}

/// Calls `termion::color::Rgb::bg_string`. Trusted: it returns the
/// introducer, `48;2;`, the three channels in decimal with semicolons
/// between them, and `m`.
#[verifier::external_body]
fn bg_code(c: Color) -> (code: String)
    ensures
        code@ == bg_sequence(c),
{
    termion::color::Rgb(c.r, c.g, c.b).bg_string()
}

/// Formats `termion::style::Reset`. Trusted: it is written as the
/// introducer followed by `m`.
#[verifier::external_body]
fn reset_code() -> (code: String)
    ensures
        code@ == reset_sequence(),
{
    format!("{}", termion::style::Reset)
}

/// Appends the text of one cell to `out`.
fn push_cell(out: &mut String, cell: &Cell)
    ensures
        final(out)@ == old(out)@ + encoded_cell(*cell),
{
    let fg: String = fg_code(cell.fg);
    out.append(fg.as_str());
    match cell.bg {
        Some(color) => {
            let bg: String = bg_code(color);
            out.append(bg.as_str());
        },
        None => {},
    }
    proof {
        reveal_strlit("\u{2580}");
    }
    out.append("\u{2580}");
    assert(out@ =~= old(out)@ + encoded_cell(*cell));
}

/// Spells the grid as terminal text.
pub fn encode(lines: &Vec<Vec<Cell>>) -> (text: String)
    ensures
        text@ == encoded_lines(grid_view(lines@)),
{
    let reset: String = reset_code();
    let mut text: String = String::new();
    let mut i: usize = 0;
    while i < lines.len()
        invariant
            i <= lines.len(),
            reset@ == reset_sequence(),
            text@ == encoded_lines(grid_view(lines@).take(i as int)),
        decreases lines.len() - i,
    {
        let cells: &Vec<Cell> = &lines[i];
        let ghost before = text@;
        let mut j: usize = 0;
        while j < cells.len()
            invariant
                j <= cells.len(),
                text@ == before + encoded_cells(cells@.take(j as int)),
            decreases cells.len() - j,
        {
            push_cell(&mut text, &cells[j]);
            proof {
                assert(cells@.take(j + 1).drop_last() =~= cells@.take(j as int));
                assert(text@ =~= before + encoded_cells(cells@.take(j + 1)));
            }
            j = j + 1;
        }
        text.append(reset.as_str());
        proof {
            reveal_strlit("\n");
        }
        text.append("\n");
        proof {
            let grid = grid_view(lines@);
            assert(cells@.take(cells@.len() as int) =~= cells@);
            assert(grid.take(i + 1).drop_last() =~= grid.take(i as int));
            assert(grid.take(i + 1).last() == cells@);
            assert(text@ =~= encoded_lines(grid.take(i as int)) + encoded_line(cells@));
        }
        i = i + 1;
    }
    assert(grid_view(lines@).take(lines@.len() as int) =~= grid_view(lines@));
    text
}

} // verus!
