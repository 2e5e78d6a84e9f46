//! Shared geometry for placing the captured desktop image inside the
//! terminal's cell grid, and for mapping a clicked cell back to a pixel of
//! the source image.
//!
//! The desktop is centred in the grid and, when larger than the grid,
//! scaled down to fit (never up). Turning the scale into a whole number of
//! cells is floating-point work done by the caller; [`fit_placement`] takes
//! those cell counts and decides the clamped, centred placement.

use vstd::prelude::*;

verus! {

/// Where the source image lands on the terminal cell grid.
#[derive(Debug, Clone, Copy, PartialEq, Eq, Structural)]
pub struct Placement {
    /// Left edge of the image, in terminal columns.
    pub col_offset: u16,
    /// Top edge of the image, in terminal rows.
    pub row_offset: u16,
    /// Width of the image, in terminal columns.
    pub cols: u16,
    /// Height of the image, in terminal rows.
    pub rows: u16,
}

/// `v` clamped to `[lo, hi]` (with `lo <= hi`).
pub open spec fn clamp(v: int, lo: int, hi: int) -> int {
    if v < lo {
        lo
    } else if v > hi {
        hi
    } else {
        v
    }
}

/// The placement of an image `want_cols` x `want_rows` cells large in a
/// `grid_cols` x `grid_rows` grid (each at least one cell): its size clamped
/// to the grid and at least one cell, centred with the odd leftover cell on
/// the right or bottom.
pub open spec fn fitted(grid_cols: nat, grid_rows: nat, want_cols: nat, want_rows: nat) -> Placement {
    let gc = if grid_cols == 0 { 1 } else { grid_cols };
    let gr = if grid_rows == 0 { 1 } else { grid_rows };
    let cols = clamp(want_cols as int, 1, gc as int);
    let rows = clamp(want_rows as int, 1, gr as int);
    Placement {
        col_offset: ((gc - cols) / 2) as u16,
        row_offset: ((gr - rows) / 2) as u16,
        cols: cols as u16,
        rows: rows as u16,
    }
}

/// Clamps an image of `want_cols` x `want_rows` cells to the grid and
/// centres it.
pub fn fit_placement(grid_cols: u16, grid_rows: u16, want_cols: u32, want_rows: u32) -> (p: Placement)
    ensures
        p == fitted(grid_cols as nat, grid_rows as nat, want_cols as nat, want_rows as nat),
        1 <= p.cols,
        1 <= p.rows,
        p.col_offset + p.cols <= if grid_cols == 0 { 1 } else { grid_cols as int },
        p.row_offset + p.rows <= if grid_rows == 0 { 1 } else { grid_rows as int },
{
    let gc: u16 = if grid_cols == 0 { 1 } else { grid_cols };
    let gr: u16 = if grid_rows == 0 { 1 } else { grid_rows };
    let cols: u16 = if want_cols < 1 { 1 } else if want_cols > gc as u32 { gc } else { want_cols as u16 };
    let rows: u16 = if want_rows < 1 { 1 } else if want_rows > gr as u32 { gr } else { want_rows as u16 };
    Placement { col_offset: (gc - cols) / 2, row_offset: (gr - rows) / 2, cols, rows }
}

/// The source coordinate aimed at by cell `rel` of `cells` cells spanning
/// `size` pixels: the centre of the cell mapped proportionally, kept below
/// `size`.
pub open spec fn source_coord(rel: nat, cells: nat, size: nat) -> nat {
    let x = ((2 * rel + 1) * size) / (2 * cells);
    if x < size - 1 {
        x
    } else {
        (size - 1) as nat
    }
}

/// The source pixel under terminal cell `(column, row)`, or `None` when the
/// cell lies outside the placed image or the source is empty.
pub open spec fn source_pixel(p: Placement, column: nat, row: nat, src_width: nat, src_height: nat) -> Option<(nat, nat)> {
    if src_width == 0 || src_height == 0 {
        None
    } else if column < p.col_offset || row < p.row_offset {
        None
    } else if column - p.col_offset >= p.cols || row - p.row_offset >= p.rows {
        None
    } else {
        Some(
            (
                source_coord((column - p.col_offset) as nat, p.cols as nat, src_width),
                source_coord((row - p.row_offset) as nat, p.rows as nat, src_height),
            ),
        )
    }
}

fn coord(rel: u16, cells: u16, size: u32) -> (x: u32)
    requires
        rel < cells,
        size > 0,
    ensures
        x == source_coord(rel as nat, cells as nat, size as nat),
        x < size,
{
    assert((2 * rel as u64 + 1) * size as u64 <= 131072u64 * 4294967295u64) by (nonlinear_arith)
        requires
            rel < 65536,
            size <= 4294967295u64,
    ;
    let num: u64 = (2 * rel as u64 + 1) * size as u64;
    let den: u64 = 2 * cells as u64;
    let x: u64 = num / den;
    if x < size as u64 - 1 {
        x as u32
    } else {
        size - 1
    }
}

/// Maps an absolute terminal cell `(column, row)` to a source pixel
/// `(x, y)`, aiming at the centre of the cell. Returns `None` when the cell
/// lies outside the placed image (for example in the centring margins), so
/// the caller can ignore the event.
pub fn cell_to_source(p: Placement, column: u16, row: u16, src_width: u32, src_height: u32) -> (r:
    Option<(u32, u32)>)
    ensures
        r matches Some((x, y)) ==> source_pixel(p, column as nat, row as nat, src_width as nat,
            src_height as nat) == Some((x as nat, y as nat)),
        r is None ==> source_pixel(p, column as nat, row as nat, src_width as nat,
            src_height as nat) is None,
{
    if src_width == 0 || src_height == 0 {
        return None;
    }
    if column < p.col_offset || row < p.row_offset {
        return None;
    }
    let rel_col: u16 = column - p.col_offset;
    let rel_row: u16 = row - p.row_offset;
    if rel_col >= p.cols || rel_row >= p.rows {
        return None;
    }
    let x = coord(rel_col, p.cols, src_width);
    let y = coord(rel_row, p.rows, src_height);
    Some((x, y))
}

/// A mapped click always lands inside the source image.
pub proof fn lemma_click_in_bounds(p: Placement, column: nat, row: nat, src_width: nat, src_height: nat)
    requires
        source_pixel(p, column, row, src_width, src_height) is Some,
    ensures
        (source_pixel(p, column, row, src_width, src_height)->0).0 < src_width,
        (source_pixel(p, column, row, src_width, src_height)->0).1 < src_height,
{
}

/// Inside the placed image every cell maps to a pixel; outside it none does.
pub proof fn lemma_click_inside_image(p: Placement, column: nat, row: nat, src_width: nat, src_height: nat)
    requires
        src_width > 0,
        src_height > 0,
    ensures
        (source_pixel(p, column, row, src_width, src_height) is Some) <==> (p.col_offset <= column
            < p.col_offset + p.cols && p.row_offset <= row < p.row_offset + p.rows),
{
}

proof fn lemma_source_coord_in_cell(rel: nat, cells: nat, size: nat)
    requires
        rel < cells,
        size > 0,
    ensures
        (rel * size) / cells <= source_coord(rel, cells, size),
        source_coord(rel, cells, size) * cells < (rel + 1) * size,
{
    let n = (2 * rel + 1) * size;
    let x = n / (2 * cells);
    let q = (rel * size) / cells;
    assert(x * (2 * cells) <= n < x * (2 * cells) + 2 * cells) by (nonlinear_arith)
        requires
            x == n / (2 * cells),
            cells > 0,
    ;
    assert(q * cells <= rel * size) by (nonlinear_arith)
        requires
            q == (rel * size) / cells,
            cells > 0,
    ;
    assert(q <= x) by (nonlinear_arith)
        requires
            q * cells <= rel * size,
            x * (2 * cells) <= n < x * (2 * cells) + 2 * cells,
            n == (2 * rel + 1) * size,
            cells > 0,
    {
        if q > x {
            assert(q >= x + 1);
            assert(q * (2 * cells) >= (x + 1) * (2 * cells));
            assert(q * (2 * cells) <= 2 * rel * size);
        }
    }
    assert(x * cells < (rel + 1) * size) by (nonlinear_arith)
        requires
            x * (2 * cells) <= n,
            n == (2 * rel + 1) * size,
            size > 0,
    ;
    assert(x < size) by (nonlinear_arith)
        requires
            x * cells < (rel + 1) * size,
            rel < cells,
    ;
}

/// A click maps proportionally: the pixel it reaches lies in the clicked
/// cell's own share of the source, from `rel * size / cells` (rounded
/// down) up to, but not including, `(rel + 1) * size / cells`, in each
/// direction.
pub proof fn lemma_click_in_cell(p: Placement, column: nat, row: nat, src_width: nat, src_height: nat)
    requires
        source_pixel(p, column, row, src_width, src_height) is Some,
    ensures
        ({
            let (x, y) = source_pixel(p, column, row, src_width, src_height)->0;
            let rc = (column - p.col_offset) as nat;
            let rr = (row - p.row_offset) as nat;
            &&& (rc * src_width) / (p.cols as nat) <= x
            &&& x * p.cols < (rc + 1) * src_width
            &&& (rr * src_height) / (p.rows as nat) <= y
            &&& y * p.rows < (rr + 1) * src_height
        }),
{
    lemma_source_coord_in_cell((column - p.col_offset) as nat, p.cols as nat, src_width);
    lemma_source_coord_in_cell((row - p.row_offset) as nat, p.rows as nat, src_height);
}

} // verus!
