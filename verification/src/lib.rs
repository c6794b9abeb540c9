//! Terminal graphics through Braille characters.
//!
//! A [`Canvas`] is a sparse grid of binary pixels, two columns by four rows
//! of which are packed into a single Braille glyph per character cell.
//! Pixels can be set, unset, toggled and queried one at a time, straight
//! lines can be rasterized onto the grid, and text can be overlaid cell by
//! cell; the whole grid renders to rows of text.

use vstd::prelude::*;

pub mod canvas;
pub mod cellmap;
pub mod laws;

pub use canvas::Canvas;

verus! {

/// The dot mask bit that pixel `(x, y)` occupies inside its cell.
///
/// The table follows the Braille dot numbering: within a cell, column
/// `x % 2` and row `y % 4` select one of eight distinct bits, and the glyph
/// for a cell is the Unicode character at `0x2800` plus its mask.
pub open spec fn dot_bit(x: u32, y: u32) -> u8 {
    let col = x % 2;
    let row = y % 4;
    if row == 0 {
        if col == 0 {
            0x01
        } else {
            0x08
        }
    } else if row == 1 {
        if col == 0 {
            0x02
        } else {
            0x10
        }
    } else if row == 2 {
        if col == 0 {
            0x04
        } else {
            0x20
        }
    } else {
        if col == 0 {
            0x40
        } else {
            0x80
        }
    }
}

/// The cell that pixel `(x, y)` falls in: two pixels per cell column, four
/// per cell row.
pub open spec fn cell_of(x: u32, y: u32) -> (u32, u32) {
    ((x / 2) as u32, (y / 4) as u32)
}

} // verus!
