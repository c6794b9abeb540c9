//! The pixel grid and its rendering to Braille text.

use vstd::prelude::*;

use vstd::arithmetic::div_mod::lemma_div_by_multiple;
use vstd::arithmetic::div_mod::lemma_div_is_ordered;
use vstd::arithmetic::div_mod::lemma_div_pos_is_pos;
use vstd::arithmetic::mul::lemma_mul_inequality;
use vstd::arithmetic::mul::lemma_mul_nonnegative;
use vstd::arithmetic::mul::lemma_mul_upper_bound;
use vstd::math::min;

use crate::cell_of;
use crate::cellmap::cell_map_clear;
use crate::cellmap::cell_map_get;
use crate::cellmap::cell_map_keys;
use crate::cellmap::cell_map_insert;
use crate::cellmap::cell_map_new;
use crate::cellmap::empty_cells;
use crate::cellmap::CellMap;
use crate::dot_bit;

verus! {

/// The state a cell is read as: its stored entry, or a blank cell
/// (mask `0`, a space) where the map has none.
pub open spec fn cell_at(m: Map<(u32, u32), (u8, char)>, k: (u32, u32)) -> (u8, char) {
    if m.dom().contains(k) {
        m[k]
    } else {
        (0u8, ' ')
    }
}

/// The cell map after setting pixel `(x, y)`: the pixel's bit is ORed into
/// its cell's mask, and the cell's override character is reset to a space,
/// so a dot always wins over a previously placed character.
pub open spec fn spec_set(m: Map<(u32, u32), (u8, char)>, x: u32, y: u32) -> Map<
    (u32, u32),
    (u8, char),
> {
    m.insert(cell_of(x, y), ((cell_at(m, cell_of(x, y)).0 | dot_bit(x, y)), ' '))
}

/// The cell map after unsetting pixel `(x, y)`: the pixel's bit is cleared
/// from its cell's mask; the override character is left alone.
pub open spec fn spec_unset(m: Map<(u32, u32), (u8, char)>, x: u32, y: u32) -> Map<
    (u32, u32),
    (u8, char),
> {
    m.insert(
        cell_of(x, y),
        ((cell_at(m, cell_of(x, y)).0 & !dot_bit(x, y)), cell_at(m, cell_of(x, y)).1),
    )
}

/// The cell map after toggling pixel `(x, y)`: the pixel's bit is XORed
/// into its cell's mask; the override character is left alone.
pub open spec fn spec_toggle(m: Map<(u32, u32), (u8, char)>, x: u32, y: u32) -> Map<
    (u32, u32),
    (u8, char),
> {
    m.insert(
        cell_of(x, y),
        ((cell_at(m, cell_of(x, y)).0 ^ dot_bit(x, y)), cell_at(m, cell_of(x, y)).1),
    )
}

/// The cell map after placing character `c` at the cell of `(x, y)`: the
/// cell is replaced wholesale, its mask forced to zero.
pub open spec fn spec_set_char(m: Map<(u32, u32), (u8, char)>, x: u32, y: u32, c: char) -> Map<
    (u32, u32),
    (u8, char),
> {
    m.insert(cell_of(x, y), (0u8, c))
}

/// Whether pixel `(x, y)` is set: its bit is present in its cell's mask.
pub open spec fn spec_get(m: Map<(u32, u32), (u8, char)>, x: u32, y: u32) -> bool {
    cell_at(m, cell_of(x, y)).0 & dot_bit(x, y) != 0
}

/// A canvas: a sparse grid of pixels, rendered two columns by four rows per
/// character cell.
///
/// `width` and `height` are the declared dimensions in cells; they are only
/// a floor for rendering, since the grid grows to whatever cells have been
/// touched.
pub struct Canvas {
    /// The sparse cell store; use the operations rather than touching it.
    pub chars: CellMap,
    /// Declared width in cells.
    pub width: u32,
    /// Declared height in cells.
    pub height: u32,
}

impl Canvas {
    /// The abstract contents of the canvas: which cells have been touched,
    /// and the (dot mask, override character) pair each one holds.
    pub open spec fn cells(self) -> Map<(u32, u32), (u8, char)> {
        self.chars@
    }

    /// Whether pixel `(x, y)` is set on this canvas.
    pub open spec fn pixel(self, x: u32, y: u32) -> bool {
        spec_get(self.cells(), x, y)
    }

    /// Creates a new `Canvas` from dimensions given in pixels: two pixels
    /// per cell column, four per cell row.
    ///
    /// The canvas can still draw outside these dimensions; they only set
    /// the least extent of the rendered frame.
    pub fn new(width: u32, height: u32) -> (r: Canvas)
        ensures
            r.cells() == empty_cells(),
            r.width == width / 2,
            r.height == height / 4,
    {
        Canvas { chars: cell_map_new(), width: width / 2, height: height / 4 }
    }

    /// Clears the canvas; the declared dimensions persist.
    pub fn clear(&mut self)
        ensures
            final(self).cells() == empty_cells(),
            final(self).width == old(self).width,
            final(self).height == old(self).height,
    {
        cell_map_clear(&mut self.chars);
    }

    /// Sets the pixel at `(x, y)`.
    pub fn set(&mut self, x: u32, y: u32)
        ensures
            final(self).cells() == spec_set(old(self).cells(), x, y),
            final(self).width == old(self).width,
            final(self).height == old(self).height,
    {
        let key = (x / 2, y / 4);
        let cell = match cell_map_get(&self.chars, key) {
            Some(cell) => cell,
            None => (0u8, ' '),
        };
        cell_map_insert(&mut self.chars, key, (cell.0 | dot_bit_at(x, y), ' '));
    }

    /// Unsets the pixel at `(x, y)`.
    pub fn unset(&mut self, x: u32, y: u32)
        ensures
            final(self).cells() == spec_unset(old(self).cells(), x, y),
            final(self).width == old(self).width,
            final(self).height == old(self).height,
    {
        let key = (x / 2, y / 4);
        let cell = match cell_map_get(&self.chars, key) {
            Some(cell) => cell,
            None => (0u8, ' '),
        };
        cell_map_insert(&mut self.chars, key, (cell.0 & !dot_bit_at(x, y), cell.1));
    }

    /// Toggles the pixel at `(x, y)`.
    pub fn toggle(&mut self, x: u32, y: u32)
        ensures
            final(self).cells() == spec_toggle(old(self).cells(), x, y),
            final(self).width == old(self).width,
            final(self).height == old(self).height,
    {
        let key = (x / 2, y / 4);
        let cell = match cell_map_get(&self.chars, key) {
            Some(cell) => cell,
            None => (0u8, ' '),
        };
        cell_map_insert(&mut self.chars, key, (cell.0 ^ dot_bit_at(x, y), cell.1));
    }

    /// Places character `c` at the cell of `(x, y)`, erasing any dots the
    /// cell held.
    pub fn set_char(&mut self, x: u32, y: u32, c: char)
        ensures
            final(self).cells() == spec_set_char(old(self).cells(), x, y, c),
            final(self).width == old(self).width,
            final(self).height == old(self).height,
    {
        let key = (x / 2, y / 4);
        cell_map_insert(&mut self.chars, key, (0u8, c));
    }

    /// Places each character of `s` at successive two-pixel offsets from
    /// `(x, y)`, skipping characters whose offset exceeds `max_width`.
    pub fn text(&mut self, x: u32, y: u32, max_width: u32, s: &str)
        requires
            text_fits(x, max_width, s@.len()),
        ensures
            final(self).cells() == spec_text(old(self).cells(), x, y, max_width, s@),
            final(self).width == old(self).width,
            final(self).height == old(self).height,
    {
        let n = s.unicode_len();
        let mut i: usize = 0;
        while i < n
            invariant
                i <= n,
                n == s@.len(),
                text_fits(x, max_width, s@.len()),
                self.cells() == spec_text_prefix(old(self).cells(), x, y, max_width, s@, i as int),
                self.width == old(self).width,
                self.height == old(self).height,
            decreases n - i,
        {
            let w = 2 * (i as u128);
            if w > max_width as u128 {
                proof {
                    lemma_text_stops(old(self).cells(), x, y, max_width, s@, i as int, n as int);
                }
                return ;
            }
            proof {
                lemma_half_le(i as int, max_width as int);
            }
            let c = s.get_char(i);
            self.set_char(x + (w as u32), y, c);
            i += 1;
        }
    }

    /// Draws a line from `(x1, y1)` to `(x2, y2)`, stepping the longer
    /// axis one pixel at a time and moving the other axis by truncated
    /// proportional interpolation.
    pub fn line(&mut self, x1: u32, y1: u32, x2: u32, y2: u32)
        ensures
            final(self).cells() == spec_line(old(self).cells(), x1, y1, x2, y2),
            final(self).width == old(self).width,
            final(self).height == old(self).height,
    {
        let xdiff = if x1 <= x2 {
            x2 - x1
        } else {
            x1 - x2
        };
        let ydiff = if y1 <= y2 {
            y2 - y1
        } else {
            y1 - y2
        };
        let r = if xdiff >= ydiff {
            xdiff
        } else {
            ydiff
        };
        let mut i: u32 = 0;
        loop
            invariant_except_break
                i <= r,
                xdiff as int == axis_diff(x1, x2),
                ydiff as int == axis_diff(y1, y2),
                r as int == line_steps(x1, y1, x2, y2),
                self.cells() == spec_line_prefix(old(self).cells(), x1, y1, x2, y2, i as int),
                self.width == old(self).width,
                self.height == old(self).height,
            ensures
                self.cells() == spec_line(old(self).cells(), x1, y1, x2, y2),
                self.width == old(self).width,
                self.height == old(self).height,
            decreases r - i,
        {
            let xs = axis_step(i, xdiff, r);
            let ys = axis_step(i, ydiff, r);
            let px = if x1 <= x2 {
                x1 + xs
            } else {
                x1 - xs
            };
            let py = if y1 <= y2 {
                y1 + ys
            } else {
                y1 - ys
            };
            proof {
                assert((px, py) == line_point(x1, y1, x2, y2, i as int));
            }
            self.set(px, py);
            if i == r {
                break ;
            }
            i = i + 1;
        }
    }

    /// One stroke of a pen between two points: draws the line only while
    /// the pen is down, and touches nothing otherwise.
    pub fn stroke(&mut self, pen: bool, x1: u32, y1: u32, x2: u32, y2: u32)
        ensures
            pen ==> final(self).cells() == spec_line(old(self).cells(), x1, y1, x2, y2),
            !pen ==> *final(self) == *old(self),
            final(self).width == old(self).width,
            final(self).height == old(self).height,
    {
        if pen {
            self.line(x1, y1, x2, y2);
        }
    }

    /// Renders the canvas to one string per row, top to bottom.
    ///
    /// The frame covers the declared dimensions at least, and grows to
    /// reach every touched cell; untouched cells inside it render as
    /// spaces.  Each row is four pixels tall and each column two pixels
    /// wide, one Braille character per cell.
    pub fn rows(&self) -> (r: Vec<String>)
        ensures
            r@.len() == y_extent(self.cells(), self.height) + 1,
            forall|j: int|
                0 <= j < r@.len() ==> r@[j]@ == render_row(
                    self.cells(),
                    x_extent(self.cells(), self.width),
                    j,
                ),
    {
        let keys = cell_map_keys(&self.chars);
        let mut xmax: u32 = self.width;
        let mut ymax: u32 = self.height;
        let mut ki: usize = 0;
        while ki < keys.len()
            invariant
                ki <= keys.len(),
                forall|k: (u32, u32)| keys@.contains(k) <==> self.cells().dom().contains(k),
                xmax >= self.width,
                ymax >= self.height,
                forall|t: int| 0 <= t < ki ==> (#[trigger] keys@[t]).0 <= xmax,
                forall|t: int| 0 <= t < ki ==> (#[trigger] keys@[t]).1 <= ymax,
                xmax == self.width || exists|t: int| 0 <= t < ki && (#[trigger] keys@[t]).0 == xmax,
                ymax == self.height || exists|t: int|
                    0 <= t < ki && (#[trigger] keys@[t]).1 == ymax,
            decreases keys.len() - ki,
        {
            let k = keys[ki];
            if k.0 > xmax {
                xmax = k.0;
            }
            if k.1 > ymax {
                ymax = k.1;
            }
            ki += 1;
        }
        proof {
            assert forall|k: (u32, u32)| self.cells().dom().contains(k) implies k.0 <= xmax as int
                && k.1 <= ymax as int by {
                assert(keys@.contains(k));
                let t = choose|t: int| 0 <= t < keys@.len() && keys@[t] == k;
                assert(keys@[t].0 <= xmax && keys@[t].1 <= ymax);
            }
            if xmax != self.width {
                let t = choose|t: int| 0 <= t < keys@.len() && (#[trigger] keys@[t]).0 == xmax;
                assert(keys@.contains(keys@[t]));
            }
            if ymax != self.height {
                let t = choose|t: int| 0 <= t < keys@.len() && (#[trigger] keys@[t]).1 == ymax;
                assert(keys@.contains(keys@[t]));
            }
            lemma_x_extent_is(self.cells(), self.width, xmax as int);
            lemma_y_extent_is(self.cells(), self.height, ymax as int);
        }
        let mut out: Vec<String> = Vec::new();
        let mut y: u64 = 0;
        while y <= ymax as u64
            invariant
                y <= ymax as u64 + 1,
                xmax as int == x_extent(self.cells(), self.width),
                ymax as int == y_extent(self.cells(), self.height),
                out@.len() == y,
                forall|j: int|
                    0 <= j < y ==> out@[j]@ == render_row(self.cells(), xmax as int, j),
            decreases ymax as u64 + 1 - y,
        {
            let mut row = String::new();
            let mut x: u64 = 0;
            while x <= xmax as u64
                invariant
                    x <= xmax as u64 + 1,
                    y <= ymax as u64,
                    row@.len() == x,
                    forall|i: int|
                        0 <= i < x ==> row@[i] == render_char(
                            cell_at(self.cells(), (i as u32, y as u32)),
                        ),
                decreases xmax as u64 + 1 - x,
            {
                let cell = match cell_map_get(&self.chars, (x as u32, y as u32)) {
                    Some(c) => c,
                    None => (0u8, ' '),
                };
                let ch = if cell.0 == 0 {
                    cell.1
                } else {
                    char_from_code(0x2800u32 + cell.0 as u32)
                };
                push_char(&mut row, ch);
                x += 1;
            }
            proof {
                assert(row@ =~= render_row(self.cells(), xmax as int, y as int));
            }
            out.push(row);
            y += 1;
        }
        out
    }

    /// Renders the canvas to a single string, rows joined by newlines.
    pub fn frame(&self) -> (r: String)
        ensures
            r@ == join_rows(
                render_rows(
                    self.cells(),
                    x_extent(self.cells(), self.width),
                    y_extent(self.cells(), self.height),
                ),
            ),
    {
        let rows = self.rows();
        let ghost grid = render_rows(
            self.cells(),
            x_extent(self.cells(), self.width),
            y_extent(self.cells(), self.height),
        );
        proof {
            reveal_strlit("\n");
        }
        let mut out = String::new();
        let mut j: usize = 0;
        while j < rows.len()
            invariant
                j <= rows.len(),
                grid == render_rows(
                    self.cells(),
                    x_extent(self.cells(), self.width),
                    y_extent(self.cells(), self.height),
                ),
                rows@.len() == grid.len(),
                forall|jj: int| 0 <= jj < rows@.len() ==> rows@[jj]@ == grid[jj],
                "\n"@ == seq!['\n'],
                out@ == join_rows(grid.take(j as int)),
            decreases rows.len() - j,
        {
            if j > 0 {
                out.append("\n");
            }
            out.append(rows[j].as_str());
            proof {
                assert(grid.take(j as int + 1).drop_last() =~= grid.take(j as int));
                assert(grid.take(j as int + 1).last() == grid[j as int]);
                if j == 0 {
                    assert(out@ =~= join_rows(grid.take(1)));
                }
            }
            j += 1;
        }
        proof {
            assert(grid.take(rows@.len() as int) =~= grid);
        }
        out
    }

    /// Whether the pixel at `(x, y)` is set.
    pub fn get(&self, x: u32, y: u32) -> (r: bool)
        ensures
            r == self.pixel(x, y),
    {
        let key = (x / 2, y / 4);
        match cell_map_get(&self.chars, key) {
            Some(cell) => cell.0 & dot_bit_at(x, y) != 0,
            None => {
                proof {
                    assert(0u8 & dot_bit(x, y) == 0) by (bit_vector);
                }
                false
            },
        }
    }
}

/// The cell map after the first `n` characters of `s` have been placed by
/// `text` starting at `(x, y)`: character `i` goes to `(x + 2*i, y)`, and a
/// character is skipped once its offset exceeds `max_width` (an offset that
/// equals `max_width` is still placed).
pub open spec fn spec_text_prefix(
    m: Map<(u32, u32), (u8, char)>,
    x: u32,
    y: u32,
    max_width: u32,
    s: Seq<char>,
    n: int,
) -> Map<(u32, u32), (u8, char)>
    decreases n,
{
    if n <= 0 {
        m
    } else {
        let prev = spec_text_prefix(m, x, y, max_width, s, n - 1);
        if 2 * (n - 1) > max_width {
            prev
        } else {
            spec_set_char(prev, (x + 2 * (n - 1)) as u32, y, s[n - 1])
        }
    }
}

/// The cell map after `text(x, y, max_width, s)`.
pub open spec fn spec_text(
    m: Map<(u32, u32), (u8, char)>,
    x: u32,
    y: u32,
    max_width: u32,
    s: Seq<char>,
) -> Map<(u32, u32), (u8, char)> {
    spec_text_prefix(m, x, y, max_width, s, s.len() as int)
}

/// Every character that `text` places stays inside the coordinate range:
/// the largest placed offset is `2 * min(len - 1, max_width / 2)`.
pub open spec fn text_fits(x: u32, max_width: u32, len: nat) -> bool {
    len == 0 || x + 2 * min(len - 1, max_width as int / 2) <= u32::MAX
}

/// Halving both sides of `2 * i <= m` keeps the order.
proof fn lemma_half_le(i: int, m: int)
    requires
        0 <= i,
        2 * i <= m,
    ensures
        i <= m / 2,
{
    lemma_div_is_ordered(2 * i, m, 2);
    lemma_div_by_multiple(i, 2);
}

/// Once a character's offset has passed `max_width`, every later
/// character's offset has as well, so placement has stopped for good.
proof fn lemma_text_stops(
    m: Map<(u32, u32), (u8, char)>,
    x: u32,
    y: u32,
    max_width: u32,
    s: Seq<char>,
    i: int,
    n: int,
)
    requires
        0 <= i <= n,
        2 * i > max_width,
    ensures
        spec_text_prefix(m, x, y, max_width, s, n) == spec_text_prefix(m, x, y, max_width, s, i),
    decreases n - i,
{
    if n > i {
        lemma_text_stops(m, x, y, max_width, s, i, n - 1);
    }
}

/// How far along an axis the plot has moved after `i` of `r` steps, where
/// the axis spans `d`: `i * d / r`, with an axis of zero span held still.
pub open spec fn axis_offset(d: int, r: int, i: int) -> int {
    if d != 0 {
        i * d / r
    } else {
        0
    }
}

/// The span of one axis of a line: the absolute difference of the
/// endpoints' coordinates.
pub open spec fn axis_diff(a: u32, b: u32) -> int {
    if a <= b {
        b - a
    } else {
        a - b
    }
}

/// The number of steps a line is divided into: the larger axis span.
pub open spec fn line_steps(x1: u32, y1: u32, x2: u32, y2: u32) -> int {
    let xd = axis_diff(x1, x2);
    let yd = axis_diff(y1, y2);
    if xd >= yd {
        xd
    } else {
        yd
    }
}

/// The pixel the line from `(x1, y1)` to `(x2, y2)` plots at step `i`:
/// each axis moves by its truncated proportional offset, toward its
/// endpoint.
pub open spec fn line_point(x1: u32, y1: u32, x2: u32, y2: u32, i: int) -> (u32, u32) {
    let r = line_steps(x1, y1, x2, y2);
    let xs = axis_offset(axis_diff(x1, x2), r, i);
    let ys = axis_offset(axis_diff(y1, y2), r, i);
    let px = if x1 <= x2 {
        x1 + xs
    } else {
        x1 - xs
    };
    let py = if y1 <= y2 {
        y1 + ys
    } else {
        y1 - ys
    };
    ((px as u32), (py as u32))
}

/// The cell map after the first `n` of the line's plots.
pub open spec fn spec_line_prefix(
    m: Map<(u32, u32), (u8, char)>,
    x1: u32,
    y1: u32,
    x2: u32,
    y2: u32,
    n: int,
) -> Map<(u32, u32), (u8, char)>
    decreases n,
{
    if n <= 0 {
        m
    } else {
        let p = line_point(x1, y1, x2, y2, n - 1);
        spec_set(spec_line_prefix(m, x1, y1, x2, y2, n - 1), p.0, p.1)
    }
}

/// The cell map after `line(x1, y1, x2, y2)`: steps `0` through
/// `line_steps` inclusive are each plotted with `set`, so a single point
/// still draws one pixel.
pub open spec fn spec_line(
    m: Map<(u32, u32), (u8, char)>,
    x1: u32,
    y1: u32,
    x2: u32,
    y2: u32,
) -> Map<(u32, u32), (u8, char)> {
    spec_line_prefix(m, x1, y1, x2, y2, line_steps(x1, y1, x2, y2) + 1)
}

/// A partial step along an axis never moves past the axis's span.
proof fn lemma_step_bound(i: int, d: int, r: int)
    requires
        0 <= i <= r,
        0 <= d <= r,
        0 < r,
    ensures
        0 <= axis_offset(d, r, i) <= d,
{
    if d != 0 {
        lemma_mul_nonnegative(i, d);
        lemma_div_pos_is_pos(i * d, r);
        lemma_mul_inequality(i, r, d);
        lemma_div_is_ordered(i * d, r * d, r);
        lemma_div_by_multiple(d, r);
    }
}

/// One axis's movement after `i` of `r` steps, computed in 64 bits so the
/// product cannot overflow.
fn axis_step(i: u32, d: u32, r: u32) -> (s: u32)
    requires
        i <= r,
        d <= r,
    ensures
        s == axis_offset(d as int, r as int, i as int),
        s <= d,
{
    if d != 0 {
        proof {
            lemma_step_bound(i as int, d as int, r as int);
            lemma_mul_upper_bound(i as int, 0xffff_ffff, d as int, 0xffff_ffff);
        }
        ((i as u64 * d as u64) / r as u64) as u32
    } else {
        0
    }
}

/// The character a cell renders to: the Braille glyph for its dot mask, or
/// its override character where no dot is set.
pub open spec fn render_char(cell: (u8, char)) -> char {
    if cell.0 == 0 {
        cell.1
    } else {
        ((0x2800 + cell.0) as char)
    }
}

/// Row `y` of the rendered frame, out to cell column `xmax` inclusive.
pub open spec fn render_row(m: Map<(u32, u32), (u8, char)>, xmax: int, y: int) -> Seq<char> {
    Seq::new((xmax + 1) as nat, |i: int| render_char(cell_at(m, (i as u32, y as u32))))
}

/// The whole rendered frame as rows of characters, out to cell column
/// `xmax` and cell row `ymax` inclusive.
pub open spec fn render_rows(m: Map<(u32, u32), (u8, char)>, xmax: int, ymax: int) -> Seq<
    Seq<char>,
> {
    Seq::new((ymax + 1) as nat, |j: int| render_row(m, xmax, j))
}

/// Whether `b` is the last cell column the frame must cover: at least the
/// declared width, at least every touched cell's column, and no further.
pub open spec fn is_x_extent(m: Map<(u32, u32), (u8, char)>, width: u32, b: int) -> bool {
    &&& b >= width
    &&& forall|k: (u32, u32)| m.dom().contains(k) ==> k.0 <= b
    &&& (b == width || exists|k: (u32, u32)| m.dom().contains(k) && k.0 == b)
}

/// Whether `b` is the last cell row the frame must cover.
pub open spec fn is_y_extent(m: Map<(u32, u32), (u8, char)>, height: u32, b: int) -> bool {
    &&& b >= height
    &&& forall|k: (u32, u32)| m.dom().contains(k) ==> k.1 <= b
    &&& (b == height || exists|k: (u32, u32)| m.dom().contains(k) && k.1 == b)
}

/// The last cell column the frame covers: the declared width or the
/// largest touched column, whichever is greater.
pub open spec fn x_extent(m: Map<(u32, u32), (u8, char)>, width: u32) -> int {
    choose|b: int| is_x_extent(m, width, b)
}

/// The last cell row the frame covers.
pub open spec fn y_extent(m: Map<(u32, u32), (u8, char)>, height: u32) -> int {
    choose|b: int| is_y_extent(m, height, b)
}

/// The column extent is unique: any witness of `is_x_extent` is it.
pub proof fn lemma_x_extent_is(m: Map<(u32, u32), (u8, char)>, width: u32, b: int)
    requires
        is_x_extent(m, width, b),
    ensures
        x_extent(m, width) == b,
{
    let a = x_extent(m, width);
    assert(is_x_extent(m, width, a));
    if a < b {
        let k = choose|k: (u32, u32)| m.dom().contains(k) && k.0 == b;
        assert(m.dom().contains(k) && k.0 == b);
        assert(false);
    }
    if b < a {
        let k = choose|k: (u32, u32)| m.dom().contains(k) && k.0 == a;
        assert(m.dom().contains(k) && k.0 == a);
        assert(false);
    }
}

/// The row extent is unique: any witness of `is_y_extent` is it.
pub proof fn lemma_y_extent_is(m: Map<(u32, u32), (u8, char)>, height: u32, b: int)
    requires
        is_y_extent(m, height, b),
    ensures
        y_extent(m, height) == b,
{
    let a = y_extent(m, height);
    assert(is_y_extent(m, height, a));
    if a < b {
        let k = choose|k: (u32, u32)| m.dom().contains(k) && k.1 == b;
        assert(m.dom().contains(k) && k.1 == b);
        assert(false);
    }
    if b < a {
        let k = choose|k: (u32, u32)| m.dom().contains(k) && k.1 == a;
        assert(m.dom().contains(k) && k.1 == a);
        assert(false);
    }
}

/// The rendered rows joined into one text, a newline between each pair.
pub open spec fn join_rows(rows: Seq<Seq<char>>) -> Seq<char>
    decreases rows.len(),
{
    if rows.len() == 0 {
        Seq::empty()
    } else if rows.len() == 1 {
        rows[0]
    } else {
        join_rows(rows.drop_last()) + seq!['\n'] + rows.last()
    }
}

/// Relies on `char::from_u32`: every value below the surrogate range is a
/// valid Unicode scalar, and the character for it is returned.
#[verifier::external_body]
fn char_from_code(code: u32) -> (r: char)
    requires
        code < 0xD800,
    ensures
        r == (code as char),
{
    char::from_u32(code).unwrap()
}

/// Relies on `String::push`: the character is appended at the end.
#[verifier::external_body]
fn push_char(s: &mut String, c: char)
    ensures
        final(s)@ == old(s)@.push(c),
{
    s.push(c);
}

/// The dot mask bit for pixel `(x, y)`, computed.
fn dot_bit_at(x: u32, y: u32) -> (r: u8)
    ensures
        r == dot_bit(x, y),
{
    let col = x % 2;
    let row = y % 4;
    if row == 0 {
        if col == 0 {
            0x01
        } else {
            0x08
        }
    } else if row == 1 {
        if col == 0 {
            0x02
        } else {
            0x10
        }
    } else if row == 2 {
        if col == 0 {
            0x04
        } else {
            0x20
        }
    } else {
        if col == 0 {
            0x40
        } else {
            0x80
        }
    }
}

} // verus!
