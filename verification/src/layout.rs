//! The atlas grid layout: the single source of truth for the mapping between
//! a code point, a grid cell, and a pixel rectangle. Both the metadata pass
//! and the pixel composition pass go through these functions, so the two
//! passes cannot disagree about where a glyph lives.

use vstd::arithmetic::div_mod::{lemma_div_by_multiple, lemma_fundamental_div_mod};
use vstd::arithmetic::mul::lemma_mul_is_commutative;
use vstd::prelude::*;

verus! {

/// Grid column of the slot for `code_point`.
pub open spec fn spec_cell_col(code_point: int, columns: int) -> int {
    (code_point - 32) % columns
}

/// Grid row of the slot for `code_point`.
pub open spec fn spec_cell_row(code_point: int, columns: int) -> int {
    (code_point - 32) / columns
}

/// Code point whose slot covers the atlas pixel `(x, y)`: the inverse
/// mapping, used while scanning the output image pixel by pixel.
pub open spec fn spec_glyph_index(x: int, y: int, slot_size_px: int, columns: int) -> int {
    (y / slot_size_px) * columns + x / slot_size_px + 32
}

/// True when `code_point` has pixel content in the atlas: the space
/// character (32) and everything past the sampled range are excluded.
pub open spec fn spec_has_glyph(code_point: int) -> bool {
    32 < code_point < 256
}

/// Map a code point to its grid cell `(column, row)`. The row comes from
/// integer division, the column from the remainder.
pub fn cell_of(code_point: usize, columns: usize) -> (cell: (usize, usize))
    requires
        columns > 0,
        code_point >= 32,
    ensures
        cell.0 == spec_cell_col(code_point as int, columns as int),
        cell.1 == spec_cell_row(code_point as int, columns as int),
        cell.0 < columns,
{
    let order = code_point - 32;
    (order % columns, order / columns)
}

/// Map a grid cell to the pixel rectangle `(x0, y0, width, height)` of its
/// slot in the atlas image.
pub fn pixel_rect_of(col: usize, row: usize, slot_size_px: usize) -> (rect: (
    usize,
    usize,
    usize,
    usize,
))
    requires
        col * slot_size_px <= usize::MAX,
        row * slot_size_px <= usize::MAX,
    ensures
        rect.0 == col * slot_size_px,
        rect.1 == row * slot_size_px,
        rect.2 == slot_size_px,
        rect.3 == slot_size_px,
{
    (col * slot_size_px, row * slot_size_px, slot_size_px, slot_size_px)
}

/// Map an atlas pixel `(x, y)` back to the code point whose slot covers it.
pub fn glyph_index_of(x: usize, y: usize, slot_size_px: usize, columns: usize) -> (code_point:
    usize)
    requires
        slot_size_px > 0,
        spec_glyph_index(x as int, y as int, slot_size_px as int, columns as int) <= usize::MAX,
    ensures
        code_point == spec_glyph_index(x as int, y as int, slot_size_px as int, columns as int),
{
    let col = x / slot_size_px;
    let row = y / slot_size_px;
    row * columns + col + 32
}

/// The two directions of the layout are mutual inverses: for every sampled
/// code point, mapping it to its cell, taking the cell's pixel origin, and
/// mapping that pixel back yields the same code point.
pub proof fn lemma_cell_of_glyph_index_inverse(code_point: int, slot_size_px: int, columns: int)
    requires
        33 <= code_point < 256,
        slot_size_px >= 1,
        columns >= 1,
    ensures
        spec_glyph_index(
            spec_cell_col(code_point, columns) * slot_size_px,
            spec_cell_row(code_point, columns) * slot_size_px,
            slot_size_px,
            columns,
        ) == code_point,
{
    let order = code_point - 32;
    let col = order % columns;
    let row = order / columns;
    lemma_div_by_multiple(col, slot_size_px);
    lemma_div_by_multiple(row, slot_size_px);
    lemma_fundamental_div_mod(order, columns);
    lemma_mul_is_commutative(row, columns);
}

} // verus!

