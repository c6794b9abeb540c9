//! Properties of the pixel operations, stated over the cell-map model that
//! the canvas contracts use, and proved once and for all.

use vstd::prelude::*;

use vstd::arithmetic::div_mod::lemma_div_by_multiple;
use vstd::arithmetic::div_mod::lemma_fundamental_div_mod;

use crate::canvas::cell_at;
use crate::canvas::line_point;
use crate::canvas::spec_line;
use crate::canvas::spec_line_prefix;
use crate::canvas::render_char;
use crate::canvas::render_row;
use crate::canvas::spec_get;
use crate::canvas::spec_set;
use crate::canvas::spec_set_char;
use crate::canvas::spec_toggle;
use crate::canvas::spec_unset;
use crate::canvas::x_extent;
use crate::canvas::y_extent;
use crate::canvas::lemma_x_extent_is;
use crate::canvas::lemma_y_extent_is;
use crate::cellmap::empty_cells;
use crate::cell_of;
use crate::dot_bit;

verus! {

/// Setting a pixel makes it read back as set.
pub proof fn lemma_set_then_get(m: Map<(u32, u32), (u8, char)>, x: u32, y: u32)
    ensures
        spec_get(spec_set(m, x, y), x, y),
{
    let a = cell_at(m, cell_of(x, y)).0;
    assert((a | dot_bit(x, y)) & dot_bit(x, y) != 0) by (bit_vector);
}

/// Unsetting a pixel makes it read back as unset.
pub proof fn lemma_unset_then_get(m: Map<(u32, u32), (u8, char)>, x: u32, y: u32)
    ensures
        !spec_get(spec_unset(m, x, y), x, y),
{
    let a = cell_at(m, cell_of(x, y)).0;
    assert((a & !dot_bit(x, y)) & dot_bit(x, y) == 0) by (bit_vector);
}

/// Toggling a pixel twice reads back as it did before.
pub proof fn lemma_toggle_twice(m: Map<(u32, u32), (u8, char)>, x: u32, y: u32)
    ensures
        spec_get(spec_toggle(spec_toggle(m, x, y), x, y), x, y) == spec_get(m, x, y),
{
    let a = cell_at(m, cell_of(x, y)).0;
    assert((((a ^ dot_bit(x, y)) ^ dot_bit(x, y)) & dot_bit(x, y) != 0) == (a & dot_bit(x, y)
        != 0)) by (bit_vector);
}

/// Setting one pixel leaves every pixel of a different cell, or of a
/// different bit within the same cell, exactly as it was.
pub proof fn lemma_set_elsewhere(m: Map<(u32, u32), (u8, char)>, x: u32, y: u32, x2: u32, y2: u32)
    requires
        cell_of(x2, y2) != cell_of(x, y) || dot_bit(x2, y2) != dot_bit(x, y),
    ensures
        spec_get(spec_set(m, x, y), x2, y2) == spec_get(m, x2, y2),
{
    if cell_of(x2, y2) == cell_of(x, y) {
        let a = cell_at(m, cell_of(x, y)).0;
        assert(dot_bit(x2, y2) != dot_bit(x, y) ==> ((a | dot_bit(x, y)) & dot_bit(x2, y2) != 0)
            == (a & dot_bit(x2, y2) != 0)) by (bit_vector);
    }
}

/// After a clear, no pixel reads as set.
pub proof fn lemma_cleared_get(x: u32, y: u32)
    ensures
        !spec_get(empty_cells(), x, y),
{
    assert(0u8 & dot_bit(x, y) == 0) by (bit_vector);
}

/// After a clear, the frame is blank at exactly the declared dimensions:
/// its extents are the declared ones and every cell renders as a space.
pub proof fn lemma_cleared_blank(width: u32, height: u32)
    ensures
        x_extent(empty_cells(), width) == width,
        y_extent(empty_cells(), height) == height,
        forall|y: int, i: int|
            0 <= i <= width ==> #[trigger] render_row(empty_cells(), width as int, y)[i] == ' ',
{
    lemma_x_extent_is(empty_cells(), width, width as int);
    lemma_y_extent_is(empty_cells(), height, height as int);
}

/// A dot written after a character override wins: the cell's mask is no
/// longer zero, so it renders as a Braille glyph, not as the character.
pub proof fn lemma_dot_wins_over_char(
    m: Map<(u32, u32), (u8, char)>,
    cx: u32,
    cy: u32,
    c: char,
    x: u32,
    y: u32,
)
    requires
        cell_of(cx, cy) == cell_of(x, y),
    ensures
        ({
            let cell = cell_at(spec_set(spec_set_char(m, cx, cy, c), x, y), cell_of(x, y));
            cell.0 != 0 && render_char(cell) == ((0x2800 + cell.0) as char)
        }),
{
    assert((0u8 | dot_bit(x, y)) != 0) by (bit_vector);
}


/// Two pixels with the same cell and the same dot bit are the same pixel.
proof fn lemma_pixel_identity(x: u32, y: u32, x2: u32, y2: u32)
    requires
        cell_of(x2, y2) == cell_of(x, y),
        dot_bit(x2, y2) == dot_bit(x, y),
    ensures
        x2 == x && y2 == y,
{
    assert(dot_bit(x2, y2) == dot_bit(x, y) ==> x % 2 == x2 % 2 && y % 4 == y2 % 4)
        by (bit_vector);
    lemma_fundamental_div_mod(x as int, 2);
    lemma_fundamental_div_mod(x2 as int, 2);
    lemma_fundamental_div_mod(y as int, 4);
    lemma_fundamental_div_mod(y2 as int, 4);
}

/// Step `i` of a horizontal line moves `i` pixels along the x axis.
proof fn lemma_horizontal_point(x1: u32, y: u32, x2: u32, i: int)
    requires
        x1 <= x2,
        0 <= i <= x2 - x1,
    ensures
        line_point(x1, y, x2, y, i) == ((((x1 + i) as u32), y)),
{
    if x1 < x2 {
        lemma_div_by_multiple(i, x2 - x1);
    }
}

/// After the first `n` plots of a horizontal line onto a cleared grid,
/// exactly the first `n` pixels from `(x1, y)` rightward are set.
proof fn lemma_horizontal_prefix(x1: u32, y: u32, x2: u32, px: u32, py: u32, n: int)
    requires
        x1 <= x2,
        0 <= n <= x2 - x1 + 1,
    ensures
        spec_get(spec_line_prefix(empty_cells(), x1, y, x2, y, n), px, py) == (py == y && x1 <= px
            < x1 + n),
    decreases n,
{
    if n == 0 {
        lemma_cleared_get(px, py);
    } else {
        let prev = spec_line_prefix(empty_cells(), x1, y, x2, y, n - 1);
        lemma_horizontal_prefix(x1, y, x2, px, py, n - 1);
        lemma_horizontal_point(x1, y, x2, n - 1);
        let q = ((x1 + n - 1) as u32);
        if px == q && py == y {
            lemma_set_then_get(prev, q, y);
        } else {
            if cell_of(px, py) == cell_of(q, y) && dot_bit(px, py) == dot_bit(q, y) {
                lemma_pixel_identity(q, y, px, py);
            }
            lemma_set_elsewhere(prev, q, y, px, py);
        }
    }
}

/// A horizontal line drawn on a cleared grid sets exactly the pixels
/// between its endpoints, inclusive, and nothing else.
pub proof fn lemma_horizontal_line_get(x1: u32, y: u32, x2: u32, px: u32, py: u32)
    requires
        x1 <= x2,
    ensures
        spec_get(spec_line(empty_cells(), x1, y, x2, y), px, py) == (py == y && x1 <= px <= x2),
{
    lemma_horizontal_prefix(x1, y, x2, px, py, x2 - x1 + 1);
}

} // verus!
