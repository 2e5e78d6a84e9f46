//! Dirty-rectangle (tile) diffing.
//!
//! A frame is split into tiles aligned to the terminal's cell grid; each
//! tile knows its extent in cells (for placement) and in pixels (for slicing
//! it out of the RGBA frame). A tile is re-sent only when one of its pixel
//! rows differs from the previous frame.

use vstd::prelude::*;

verus! {

/// A single tile: its origin and extent in cell units and in pixel units.
#[derive(Clone, Copy, PartialEq, Eq, Structural)]
pub struct Tile {
    pub col: u32,
    pub row: u32,
    pub cols: u32,
    pub rows: u32,
    pub px: u32,
    pub py: u32,
    pub pw: u32,
    pub ph: u32,
}

/// The tiles covering one frame.
pub struct TileGrid {
    pub tiles: Vec<Tile>,
}

// ----------------------------------------------------------------------------
// Pixel rows of a tile
// ----------------------------------------------------------------------------

/// Byte offset in the frame of row `k` of tile `t` (`stride` bytes per image
/// row, four bytes per pixel).
pub open spec fn row_offset(stride: nat, t: Tile, k: nat) -> int {
    (t.py + k) * stride + t.px * 4
}

/// Row `k` of tile `t` in `frame`.
pub open spec fn tile_row(frame: Seq<u8>, stride: nat, t: Tile, k: nat) -> Seq<u8> {
    frame.subrange(row_offset(stride, t, k), row_offset(stride, t, k) + t.pw * 4)
}

/// The first `k` rows of tile `t` in `frame`, one after another.
pub open spec fn tile_rows(frame: Seq<u8>, stride: nat, t: Tile, k: nat) -> Seq<u8>
    decreases k,
{
    if k == 0 {
        Seq::empty()
    } else {
        tile_rows(frame, stride, t, (k - 1) as nat) + tile_row(frame, stride, t, (k - 1) as nat)
    }
}

/// The tile lies inside a frame of `len` bytes with `stride` bytes per row.
pub open spec fn tile_in_frame(len: nat, stride: nat, t: Tile) -> bool {
    &&& t.py + t.ph <= u32::MAX
    &&& t.px * 4 <= usize::MAX
    &&& t.pw * 4 <= usize::MAX
    &&& t.ph > 0 ==> row_offset(stride, t, (t.ph - 1) as nat) + t.pw * 4 <= len
}

proof fn lemma_row_offset_bounds(len: nat, stride: nat, t: Tile, k: nat)
    requires
        tile_in_frame(len, stride, t),
        k < t.ph,
    ensures
        0 <= (t.py + k) * stride,
        0 <= row_offset(stride, t, k),
        row_offset(stride, t, k) + t.pw * 4 <= len,
{
    vstd::arithmetic::mul::lemma_mul_inequality(t.py + k, t.py + t.ph - 1, stride as int);
    vstd::arithmetic::mul::lemma_mul_nonnegative(t.py + k, stride as int);
}

/// True if any pixel of tile `t` differs between the two frames. `stride` is
/// the byte length of one image row (`width_px * 4`).
pub fn tile_dirty(cur: &[u8], prev: &[u8], stride: usize, t: &Tile) -> (b: bool)
    requires
        tile_in_frame(cur@.len(), stride as nat, *t),
        tile_in_frame(prev@.len(), stride as nat, *t),
    ensures
        b == exists|k: nat| k < t.ph && tile_row(cur@, stride as nat, *t, k) != #[trigger] tile_row(
            prev@,
            stride as nat,
            *t,
            k,
        ),
{
    let row_bytes: usize = t.pw as usize * 4;
    let x_off: usize = t.px as usize * 4;
    let end: u32 = t.py + t.ph;
    let mut y: u32 = t.py;
    while y < end
        invariant
            tile_in_frame(cur@.len(), stride as nat, *t),
            tile_in_frame(prev@.len(), stride as nat, *t),
            end == t.py + t.ph,
            row_bytes == t.pw * 4,
            x_off == t.px * 4,
            t.py <= y <= end,
            forall|k: nat| k < y - t.py ==> tile_row(cur@, stride as nat, *t, k) == #[trigger] tile_row(
                prev@,
                stride as nat,
                *t,
                k,
            ),
        decreases end - y,
    {
        let ghost k: nat = (y - t.py) as nat;
        proof {
            lemma_row_offset_bounds(cur@.len(), stride as nat, *t, k);
            lemma_row_offset_bounds(prev@.len(), stride as nat, *t, k);
        }
        assert((y as int) * (stride as int) == (t.py + k) * stride);
        assert(cur@.len() == cur.len());
        assert((y as int) * (stride as int) + x_off <= usize::MAX);
        let off: usize = y as usize * stride + x_off;
        assert(off == row_offset(stride as nat, *t, k));
        if !same_bytes(cur, prev, off, row_bytes) {
            assert(tile_row(cur@, stride as nat, *t, k) != tile_row(prev@, stride as nat, *t, k));
            return true;
        }
        assert(tile_row(cur@, stride as nat, *t, k) == tile_row(prev@, stride as nat, *t, k));
        y = y + 1;
    }
    false
}

fn same_bytes(a: &[u8], b: &[u8], off: usize, n: usize) -> (r: bool)
    requires
        off + n <= a.len(),
        off + n <= b.len(),
    ensures
        r == (a@.subrange(off as int, off + n) == b@.subrange(off as int, off + n)),
{
    let mut i: usize = 0;
    while i < n
        invariant
            off + n <= a.len(),
            off + n <= b.len(),
            i <= n,
            forall|j: int| off <= j < off + i ==> #[trigger] a@[j] == b@[j],
        decreases n - i,
    {
        if a[off + i] != b[off + i] {
            assert(a@.subrange(off as int, off + n)[i as int] != b@.subrange(off as int, off + n)[i as int]);
            return false;
        }
        i = i + 1;
    }
    assert(a@.subrange(off as int, off + n) =~= b@.subrange(off as int, off + n));
    true
}

/// Copies tile `t` out of the frame into `out` as contiguous RGBA rows
/// (`pw * ph * 4` bytes), replacing what `out` held.
pub fn extract_tile(cur: &[u8], stride: usize, t: &Tile, out: &mut Vec<u8>)
    requires
        tile_in_frame(cur@.len(), stride as nat, *t),
    ensures
        final(out)@ == tile_rows(cur@, stride as nat, *t, t.ph as nat),
{
    out.clear();
    let row_bytes: usize = t.pw as usize * 4;
    let x_off: usize = t.px as usize * 4;
    let end: u32 = t.py + t.ph;
    let mut y: u32 = t.py;
    while y < end
        invariant
            tile_in_frame(cur@.len(), stride as nat, *t),
            end == t.py + t.ph,
            row_bytes == t.pw * 4,
            x_off == t.px * 4,
            t.py <= y <= end,
            out@ == tile_rows(cur@, stride as nat, *t, (y - t.py) as nat),
        decreases end - y,
    {
        let ghost k: nat = (y - t.py) as nat;
        proof {
            lemma_row_offset_bounds(cur@.len(), stride as nat, *t, k);
        }
        assert((y as int) * (stride as int) == (t.py + k) * stride);
        assert(cur@.len() == cur.len());
        assert((y as int) * (stride as int) + x_off <= usize::MAX);
        let off: usize = y as usize * stride + x_off;
        assert(off == row_offset(stride as nat, *t, k));
        let mut j: usize = off;
        let ghost start = out@;
        while j < off + row_bytes
            invariant
                off + row_bytes <= cur.len(),
                off <= j <= off + row_bytes,
                out@ == start + cur@.subrange(off as int, j as int),
            decreases off + row_bytes - j,
        {
            out.push(cur[j]);
            j = j + 1;
            assert(out@ =~= start + cur@.subrange(off as int, j as int));
        }
        y = y + 1;
        assert(tile_rows(cur@, stride as nat, *t, (k + 1) as nat) == start + tile_row(
            cur@,
            stride as nat,
            *t,
            k,
        ));
    }
}

proof fn lemma_tile_rows_len(frame: Seq<u8>, stride: nat, t: Tile, k: nat)
    requires
        tile_in_frame(frame.len(), stride, t),
        k <= t.ph,
    ensures
        tile_rows(frame, stride, t, k).len() == k * (t.pw * 4),
    decreases k,
{
    if k > 0 {
        lemma_tile_rows_len(frame, stride, t, (k - 1) as nat);
        lemma_row_offset_bounds(frame.len(), stride, t, (k - 1) as nat);
        assert(k * (t.pw * 4) == (k - 1) * (t.pw * 4) + t.pw * 4) by (nonlinear_arith);
        let r = tile_row(frame, stride, t, (k - 1) as nat);
        assert(r.len() == t.pw * 4);
        assert(tile_rows(frame, stride, t, k) == tile_rows(frame, stride, t, (k - 1) as nat) + r);
    } else {
        assert(k * (t.pw * 4) == 0) by (nonlinear_arith)
            requires
                k == 0,
        ;
    }
}

proof fn lemma_tile_rows_equal(a: Seq<u8>, b: Seq<u8>, stride: nat, t: Tile, k: nat)
    requires
        tile_in_frame(a.len(), stride, t),
        tile_in_frame(b.len(), stride, t),
        k <= t.ph,
    ensures
        (tile_rows(a, stride, t, k) == tile_rows(b, stride, t, k)) <==> (forall|j: nat|
            j < k ==> tile_row(a, stride, t, j) == #[trigger] tile_row(b, stride, t, j)),
    decreases k,
{
    if k > 0 {
        let k1 = (k - 1) as nat;
        lemma_tile_rows_equal(a, b, stride, t, k1);
        lemma_tile_rows_len(a, stride, t, k1);
        lemma_tile_rows_len(b, stride, t, k1);
        lemma_row_offset_bounds(a.len(), stride, t, k1);
        lemma_row_offset_bounds(b.len(), stride, t, k1);
        let pa = tile_rows(a, stride, t, k1);
        let pb = tile_rows(b, stride, t, k1);
        let ra = tile_row(a, stride, t, k1);
        let rb = tile_row(b, stride, t, k1);
        assert(ra.len() == rb.len());
        if pa + ra == pb + rb {
            assert((pa + ra).subrange(0, pa.len() as int) =~= pa);
            assert((pb + rb).subrange(0, pb.len() as int) =~= pb);
            assert((pa + ra).subrange(pa.len() as int, (pa + ra).len() as int) =~= ra);
            assert((pb + rb).subrange(pb.len() as int, (pb + rb).len() as int) =~= rb);
        }
    }
}

/// A tile needs re-sending exactly when its extracted pixels differ between
/// the two frames.
pub proof fn lemma_dirty_iff_extract_differs(cur: Seq<u8>, prev: Seq<u8>, stride: nat, t: Tile)
    requires
        tile_in_frame(cur.len(), stride, t),
        tile_in_frame(prev.len(), stride, t),
    ensures
        (exists|k: nat| k < t.ph && tile_row(cur, stride, t, k) != #[trigger] tile_row(
            prev,
            stride,
            t,
            k,
        )) <==> tile_rows(cur, stride, t, t.ph as nat) != tile_rows(prev, stride, t, t.ph as nat),
{
    lemma_tile_rows_equal(cur, prev, stride, t, t.ph as nat);
}

/// An extracted tile holds four bytes for each of its `pw * ph` pixels.
pub proof fn lemma_extract_len(frame: Seq<u8>, stride: nat, t: Tile)
    requires
        tile_in_frame(frame.len(), stride, t),
    ensures
        tile_rows(frame, stride, t, t.ph as nat).len() == t.pw * t.ph * 4,
{
    lemma_tile_rows_len(frame, stride, t, t.ph as nat);
    assert(t.ph * (t.pw * 4) == t.pw * t.ph * 4) by (nonlinear_arith);
}


// ----------------------------------------------------------------------------
// Building the grid
// ----------------------------------------------------------------------------

/// Pixel edges of cells: `edges[c]` is the pixel where cell `c` starts, and
/// the last entry is the far edge of the last cell; never decreasing.
pub open spec fn valid_edges(edges: Seq<u32>) -> bool {
    &&& edges.len() >= 1
    &&& edges.len() - 1 <= u32::MAX
    &&& forall|i: int, j: int| 0 <= i <= j < edges.len() ==> edges[i] <= edges[j]
}

/// The cell index ending a tile that starts at `c0`, at most `step` cells
/// wide and not past `n`.
pub open spec fn tile_end(c0: nat, step: nat, n: nat) -> nat {
    if c0 + step < n {
        c0 + step
    } else {
        n
    }
}

/// No cell index reached while stepping by `step` below `n` overflows `u32`
/// when `step` is added to it.
pub open spec fn steps_fit(n: nat, step: nat) -> bool {
    forall|k: nat| #[trigger] (k * step) < n ==> k * step + step <= u32::MAX
}

/// The tiles of the band of cell rows `r0..r1` (pixel rows `py..py+ph`),
/// from cell column `c0` on; tiles that are empty in pixels are skipped.
pub open spec fn band_tiles(cols_px: Seq<u32>, tcw: nat, r0: nat, r1: nat, py: nat, ph: nat, c0: nat) -> Seq<Tile>
    decreases cols_px.len() - c0,
{
    let n = (cols_px.len() - 1) as nat;
    if cols_px.len() == 0 || tcw == 0 || c0 >= n {
        Seq::empty()
    } else {
        let c1 = tile_end(c0, tcw, n);
        let px = cols_px[c0 as int];
        let pw = cols_px[c1 as int] - px;
        let here = if pw > 0 && ph > 0 {
            seq![
                Tile {
                    col: c0 as u32,
                    row: r0 as u32,
                    cols: (c1 - c0) as u32,
                    rows: (r1 - r0) as u32,
                    px: px as u32,
                    py: py as u32,
                    pw: pw as u32,
                    ph: ph as u32,
                },
            ]
        } else {
            Seq::empty()
        };
        here + band_tiles(cols_px, tcw, r0, r1, py, ph, c1)
    }
}

/// The tiles of all bands from cell row `r0` on.
pub open spec fn grid_tiles(cols_px: Seq<u32>, rows_px: Seq<u32>, tcw: nat, tch: nat, r0: nat) -> Seq<Tile>
    decreases rows_px.len() - r0,
{
    let m = (rows_px.len() - 1) as nat;
    if rows_px.len() == 0 || tch == 0 || r0 >= m {
        Seq::empty()
    } else {
        let r1 = tile_end(r0, tch, m);
        let py = rows_px[r0 as int];
        let ph = (rows_px[r1 as int] - py) as nat;
        band_tiles(cols_px, tcw, r0, r1, py as nat, ph, 0) + grid_tiles(cols_px, rows_px, tcw, tch, r1)
    }
}

/// Tile `t` is a non-empty run of cells inside an image of `n` x `m` cells
/// whose pixel extent is exactly that of its cells.
pub open spec fn tile_in_image(t: Tile, cols_px: Seq<u32>, rows_px: Seq<u32>) -> bool {
    &&& t.cols > 0
    &&& t.rows > 0
    &&& t.col + t.cols <= cols_px.len() - 1
    &&& t.row + t.rows <= rows_px.len() - 1
    &&& t.px == cols_px[t.col as int]
    &&& t.px + t.pw == cols_px[t.col + t.cols]
    &&& t.py == rows_px[t.row as int]
    &&& t.py + t.ph == rows_px[t.row + t.rows]
    &&& t.pw > 0
    &&& t.ph > 0
}

/// The cell rectangles of `a` and `b` do not overlap.
pub open spec fn cells_disjoint(a: Tile, b: Tile) -> bool {
    ||| a.col + a.cols <= b.col
    ||| b.col + b.cols <= a.col
    ||| a.row + a.rows <= b.row
    ||| b.row + b.rows <= a.row
}

/// `a` comes before `b` in reading order: an earlier band, or the same band
/// and further left.
pub open spec fn tile_before(a: Tile, b: Tile) -> bool {
    ||| a.row + a.rows <= b.row
    ||| (a.row == b.row && a.rows == b.rows && a.col + a.cols <= b.col)
}

proof fn lemma_band(cols_px: Seq<u32>, rows_px: Seq<u32>, tcw: nat, r0: nat, r1: nat, py: nat, ph: nat, c0: nat)
    requires
        valid_edges(cols_px),
        valid_edges(rows_px),
        tcw > 0,
        r0 < r1 <= rows_px.len() - 1,
        py == rows_px[r0 as int],
        py + ph == rows_px[r1 as int],
        c0 <= cols_px.len() - 1,
    ensures
        forall|i: int|
            0 <= i < band_tiles(cols_px, tcw, r0, r1, py, ph, c0).len() ==> {
                let t = #[trigger] band_tiles(cols_px, tcw, r0, r1, py, ph, c0)[i];
                &&& tile_in_image(t, cols_px, rows_px)
                &&& t.row == r0
                &&& t.rows == r1 - r0
                &&& c0 <= t.col
            },
        forall|i: int, j: int|
            0 <= i < j < band_tiles(cols_px, tcw, r0, r1, py, ph, c0).len() ==> tile_before(
                #[trigger] band_tiles(cols_px, tcw, r0, r1, py, ph, c0)[i],
                #[trigger] band_tiles(cols_px, tcw, r0, r1, py, ph, c0)[j],
            ),
    decreases cols_px.len() - c0,
{
    let n = (cols_px.len() - 1) as nat;
    if c0 < n {
        let c1 = tile_end(c0, tcw, n);
        lemma_band(cols_px, rows_px, tcw, r0, r1, py, ph, c1);
        let px = cols_px[c0 as int];
        let pw = cols_px[c1 as int] - px;
        let here = if pw > 0 && ph > 0 {
            seq![
                Tile {
                    col: c0 as u32,
                    row: r0 as u32,
                    cols: (c1 - c0) as u32,
                    rows: (r1 - r0) as u32,
                    px: px as u32,
                    py: py as u32,
                    pw: pw as u32,
                    ph: ph as u32,
                },
            ]
        } else {
            Seq::<Tile>::empty()
        };
        let rest = band_tiles(cols_px, tcw, r0, r1, py, ph, c1);
        let all = band_tiles(cols_px, tcw, r0, r1, py, ph, c0);
        assert(all == here + rest);
        assert(cols_px[c0 as int] <= cols_px[c1 as int]);
        assert forall|i: int| 0 <= i < all.len() implies {
            let t = #[trigger] all[i];
            &&& tile_in_image(t, cols_px, rows_px)
            &&& t.row == r0
            &&& t.rows == r1 - r0
            &&& c0 <= t.col
        } by {
            if i >= here.len() {
                assert(all[i] == rest[i - here.len()]);
            }
        }
        assert forall|i: int, j: int| 0 <= i < j < all.len() implies tile_before(#[trigger] all[i], #[trigger] all[j]) by {
            if i >= here.len() {
                assert(all[i] == rest[i - here.len()]);
                assert(all[j] == rest[j - here.len()]);
            } else {
                assert(all[j] == rest[j - here.len()]);
                assert(c1 <= rest[j - here.len()].col);
            }
        }
    }
}

proof fn lemma_grid(cols_px: Seq<u32>, rows_px: Seq<u32>, tcw: nat, tch: nat, r0: nat)
    requires
        valid_edges(cols_px),
        valid_edges(rows_px),
        tcw > 0,
        tch > 0,
        r0 <= rows_px.len() - 1,
    ensures
        forall|i: int|
            0 <= i < grid_tiles(cols_px, rows_px, tcw, tch, r0).len() ==> {
                let t = #[trigger] grid_tiles(cols_px, rows_px, tcw, tch, r0)[i];
                &&& tile_in_image(t, cols_px, rows_px)
                &&& r0 <= t.row
            },
        forall|i: int, j: int|
            0 <= i < j < grid_tiles(cols_px, rows_px, tcw, tch, r0).len() ==> tile_before(
                #[trigger] grid_tiles(cols_px, rows_px, tcw, tch, r0)[i],
                #[trigger] grid_tiles(cols_px, rows_px, tcw, tch, r0)[j],
            ),
    decreases rows_px.len() - r0,
{
    let m = (rows_px.len() - 1) as nat;
    if r0 < m {
        let r1 = tile_end(r0, tch, m);
        let py = rows_px[r0 as int];
        let ph = (rows_px[r1 as int] - py) as nat;
        assert(rows_px[r0 as int] <= rows_px[r1 as int]);
        lemma_band(cols_px, rows_px, tcw, r0, r1, py as nat, ph, 0);
        lemma_grid(cols_px, rows_px, tcw, tch, r1);
        let band = band_tiles(cols_px, tcw, r0, r1, py as nat, ph, 0);
        let rest = grid_tiles(cols_px, rows_px, tcw, tch, r1);
        let all = grid_tiles(cols_px, rows_px, tcw, tch, r0);
        assert(all == band + rest);
        assert forall|i: int| 0 <= i < all.len() implies {
            let t = #[trigger] all[i];
            &&& tile_in_image(t, cols_px, rows_px)
            &&& r0 <= t.row
        } by {
            if i < band.len() {
                assert(all[i] == band[i]);
            } else {
                assert(all[i] == rest[i - band.len()]);
            }
        }
        assert forall|i: int, j: int| 0 <= i < j < all.len() implies tile_before(#[trigger] all[i], #[trigger] all[j]) by {
            if j < band.len() {
                assert(all[i] == band[i]);
                assert(all[j] == band[j]);
            } else if i >= band.len() {
                assert(all[i] == rest[i - band.len()]);
                assert(all[j] == rest[j - band.len()]);
            } else {
                assert(all[i] == band[i]);
                assert(all[j] == rest[j - band.len()]);
                assert(r1 <= rest[j - band.len()].row);
            }
        }
    }
}

/// Tile `t` holds pixel (`x`, `y`).
pub open spec fn tile_covers(t: Tile, x: nat, y: nat) -> bool {
    &&& t.px <= x < t.px + t.pw
    &&& t.py <= y < t.py + t.ph
}

proof fn lemma_band_covers(
    cols_px: Seq<u32>,
    tcw: nat,
    r0: nat,
    r1: nat,
    py: nat,
    ph: nat,
    c0: nat,
    x: nat,
    y: nat,
)
    requires
        valid_edges(cols_px),
        tcw > 0,
        py + ph <= u32::MAX,
        c0 < cols_px.len(),
        cols_px[c0 as int] <= x < cols_px[cols_px.len() - 1],
        py <= y < py + ph,
    ensures
        exists|i: int|
            0 <= i < band_tiles(cols_px, tcw, r0, r1, py, ph, c0).len() && tile_covers(
                #[trigger] band_tiles(cols_px, tcw, r0, r1, py, ph, c0)[i],
                x,
                y,
            ),
    decreases cols_px.len() - c0,
{
    let n = (cols_px.len() - 1) as nat;
    let c1 = tile_end(c0, tcw, n);
    let all = band_tiles(cols_px, tcw, r0, r1, py, ph, c0);
    let rest = band_tiles(cols_px, tcw, r0, r1, py, ph, c1);
    let px = cols_px[c0 as int];
    let pw = cols_px[c1 as int] - px;
    assert(c0 < n);
    if x < cols_px[c1 as int] {
        assert(pw > 0 && ph > 0);
        assert(all[0] == Tile {
            col: c0 as u32,
            row: r0 as u32,
            cols: (c1 - c0) as u32,
            rows: (r1 - r0) as u32,
            px: px as u32,
            py: py as u32,
            pw: pw as u32,
            ph: ph as u32,
        });
        assert(tile_covers(all[0], x, y));
    } else {
        lemma_band_covers(cols_px, tcw, r0, r1, py, ph, c1, x, y);
        let i = choose|i: int| 0 <= i < rest.len() && tile_covers(#[trigger] rest[i], x, y);
        let here_len: int = if pw > 0 && ph > 0 { 1 } else { 0 };
        assert(all.len() == here_len + rest.len());
        assert(all[i + here_len] == rest[i]);
        assert(tile_covers(all[i + here_len], x, y));
    }
}

proof fn lemma_grid_covers(cols_px: Seq<u32>, rows_px: Seq<u32>, tcw: nat, tch: nat, r0: nat, x: nat, y: nat)
    requires
        valid_edges(cols_px),
        valid_edges(rows_px),
        tcw > 0,
        tch > 0,
        r0 < rows_px.len(),
        cols_px[0] <= x < cols_px[cols_px.len() - 1],
        rows_px[r0 as int] <= y < rows_px[rows_px.len() - 1],
    ensures
        exists|i: int|
            0 <= i < grid_tiles(cols_px, rows_px, tcw, tch, r0).len() && tile_covers(
                #[trigger] grid_tiles(cols_px, rows_px, tcw, tch, r0)[i],
                x,
                y,
            ),
    decreases rows_px.len() - r0,
{
    let m = (rows_px.len() - 1) as nat;
    assert(r0 < m);
    let r1 = tile_end(r0, tch, m);
    let py = rows_px[r0 as int];
    let ph = (rows_px[r1 as int] - py) as nat;
    assert(rows_px[r0 as int] <= rows_px[r1 as int]);
    let band = band_tiles(cols_px, tcw, r0, r1, py as nat, ph, 0);
    let rest = grid_tiles(cols_px, rows_px, tcw, tch, r1);
    let all = grid_tiles(cols_px, rows_px, tcw, tch, r0);
    assert(all == band + rest);
    if y < rows_px[r1 as int] {
        lemma_band_covers(cols_px, tcw, r0, r1, py as nat, ph, 0, x, y);
        let i = choose|i: int| 0 <= i < band.len() && tile_covers(#[trigger] band[i], x, y);
        assert(all[i] == band[i]);
    } else {
        lemma_grid_covers(cols_px, rows_px, tcw, tch, r1, x, y);
        let i = choose|i: int| 0 <= i < rest.len() && tile_covers(#[trigger] rest[i], x, y);
        assert(all[i + band.len()] == rest[i]);
    }
}

/// Every pixel of the image, from the first cell edges to the far ones, lies
/// in some tile of the grid.
pub proof fn lemma_grid_tiles_cover(cols_px: Seq<u32>, rows_px: Seq<u32>, tile_cw: nat, tile_ch: nat, x: nat, y: nat)
    requires
        valid_edges(cols_px),
        valid_edges(rows_px),
        tile_cw >= 1,
        tile_ch >= 1,
        cols_px[0] <= x < cols_px[cols_px.len() - 1],
        rows_px[0] <= y < rows_px[rows_px.len() - 1],
    ensures
        exists|i: int|
            0 <= i < grid_tiles(cols_px, rows_px, tile_cw, tile_ch, 0).len() && tile_covers(
                #[trigger] grid_tiles(cols_px, rows_px, tile_cw, tile_ch, 0)[i],
                x,
                y,
            ),
{
    lemma_grid_covers(cols_px, rows_px, tile_cw, tile_ch, 0, x, y);
}

/// The grid's tiles lie inside the image, each covering whole cells and
/// exactly their pixels, come in reading order, and never overlap.
pub proof fn lemma_grid_tiles_partition(cols_px: Seq<u32>, rows_px: Seq<u32>, tile_cw: nat, tile_ch: nat)
    requires
        valid_edges(cols_px),
        valid_edges(rows_px),
        tile_cw >= 1,
        tile_ch >= 1,
    ensures
        forall|i: int|
            0 <= i < grid_tiles(cols_px, rows_px, tile_cw, tile_ch, 0).len() ==> tile_in_image(
                #[trigger] grid_tiles(cols_px, rows_px, tile_cw, tile_ch, 0)[i],
                cols_px,
                rows_px,
            ),
        forall|i: int, j: int|
            0 <= i < grid_tiles(cols_px, rows_px, tile_cw, tile_ch, 0).len() && 0 <= j < grid_tiles(
                cols_px,
                rows_px,
                tile_cw,
                tile_ch,
                0,
            ).len() && i != j ==> cells_disjoint(
                #[trigger] grid_tiles(cols_px, rows_px, tile_cw, tile_ch, 0)[i],
                #[trigger] grid_tiles(cols_px, rows_px, tile_cw, tile_ch, 0)[j],
            ),
        forall|i: int, j: int|
            0 <= i < j < grid_tiles(cols_px, rows_px, tile_cw, tile_ch, 0).len() ==> tile_before(
                #[trigger] grid_tiles(cols_px, rows_px, tile_cw, tile_ch, 0)[i],
                #[trigger] grid_tiles(cols_px, rows_px, tile_cw, tile_ch, 0)[j],
            ),
{
    lemma_grid(cols_px, rows_px, tile_cw, tile_ch, 0);
    let g = grid_tiles(cols_px, rows_px, tile_cw, tile_ch, 0);
    assert forall|i: int, j: int| 0 <= i < g.len() && 0 <= j < g.len() && i != j implies cells_disjoint(
        #[trigger] g[i],
        #[trigger] g[j],
    ) by {
        if i < j {
            assert(tile_before(g[i], g[j]));
        } else {
            assert(tile_before(g[j], g[i]));
        }
    }
}

impl TileGrid {
    /// Builds the grid from the pixel edges of the cell columns and rows
    /// (`cols_px[c]` is where cell column `c` starts; the last entry is the
    /// image's far edge) and the tile size in cells. Bands of `tile_ch` cell
    /// rows are cut into tiles of `tile_cw` cell columns, the last tile of a
    /// band or column narrower when the grid does not divide evenly; tiles
    /// with no pixels are left out.
    pub fn from_edges(cols_px: &Vec<u32>, rows_px: &Vec<u32>, tile_cw: u32, tile_ch: u32) -> (g: TileGrid)
        requires
            valid_edges(cols_px@),
            valid_edges(rows_px@),
            tile_cw >= 1,
            tile_ch >= 1,
            steps_fit((cols_px@.len() - 1) as nat, tile_cw as nat),
            steps_fit((rows_px@.len() - 1) as nat, tile_ch as nat),
        ensures
            g.tiles@ == grid_tiles(cols_px@, rows_px@, tile_cw as nat, tile_ch as nat, 0),
    {
        let image_cols: u32 = (cols_px.len() - 1) as u32;
        let image_rows: u32 = (rows_px.len() - 1) as u32;
        let mut tiles: Vec<Tile> = Vec::new();
        let mut r0: u32 = 0;
        let ghost mut kr: nat = 0;
        while r0 < image_rows
            invariant
                valid_edges(cols_px@),
                valid_edges(rows_px@),
                tile_cw >= 1,
                tile_ch >= 1,
                steps_fit(image_cols as nat, tile_cw as nat),
                steps_fit(image_rows as nat, tile_ch as nat),
                image_cols == cols_px@.len() - 1,
                image_rows == rows_px@.len() - 1,
                r0 <= image_rows,
                r0 == kr * (tile_ch as nat) || r0 == image_rows,
                tiles@ + grid_tiles(cols_px@, rows_px@, tile_cw as nat, tile_ch as nat, r0 as nat)
                    == grid_tiles(cols_px@, rows_px@, tile_cw as nat, tile_ch as nat, 0),
            decreases image_rows - r0,
        {
            assert(kr * (tile_ch as nat) < image_rows ==> kr * (tile_ch as nat) + tile_ch <= u32::MAX);
            let r1: u32 = if r0 + tile_ch < image_rows { r0 + tile_ch } else { image_rows };
            let py: u32 = rows_px[r0 as usize];
            let ph: u32 = rows_px[r1 as usize] - py;
            let ghost before = tiles@;
            let mut c0: u32 = 0;
            let ghost mut kc: nat = 0;
            while c0 < image_cols
                invariant
                    valid_edges(cols_px@),
                    tile_cw >= 1,
                    steps_fit(image_cols as nat, tile_cw as nat),
                    image_cols == cols_px@.len() - 1,
                    c0 <= image_cols,
                    c0 == kc * (tile_cw as nat) || c0 == image_cols,
                    r0 < r1,
                    tiles@ + band_tiles(cols_px@, tile_cw as nat, r0 as nat, r1 as nat, py as nat, ph as nat, c0 as nat)
                        == before + band_tiles(cols_px@, tile_cw as nat, r0 as nat, r1 as nat, py as nat, ph as nat, 0),
                decreases image_cols - c0,
            {
                assert(kc * (tile_cw as nat) < image_cols ==> kc * (tile_cw as nat) + tile_cw <= u32::MAX);
                let c1: u32 = if c0 + tile_cw < image_cols { c0 + tile_cw } else { image_cols };
                let px: u32 = cols_px[c0 as usize];
                let pw: u32 = cols_px[c1 as usize] - px;
                let ghost pre = tiles@;
                if pw > 0 && ph > 0 {
                    tiles.push(
                        Tile { col: c0, row: r0, cols: c1 - c0, rows: r1 - r0, px, py, pw, ph },
                    );
                }
                assert(band_tiles(cols_px@, tile_cw as nat, r0 as nat, r1 as nat, py as nat, ph as nat, c0 as nat)
                    =~= (if pw > 0 && ph > 0 {
                    seq![Tile { col: c0, row: r0, cols: (c1 - c0) as u32, rows: (r1 - r0) as u32, px, py, pw, ph }]
                } else {
                    Seq::<Tile>::empty()
                }) + band_tiles(cols_px@, tile_cw as nat, r0 as nat, r1 as nat, py as nat, ph as nat, c1 as nat));
                assert(tiles@ + band_tiles(cols_px@, tile_cw as nat, r0 as nat, r1 as nat, py as nat, ph as nat, c1 as nat)
                    =~= pre + band_tiles(cols_px@, tile_cw as nat, r0 as nat, r1 as nat, py as nat, ph as nat, c0 as nat));
                c0 = c1;
                proof {
                    kc = kc + 1;
                    assert(kc * (tile_cw as nat) == (kc - 1) * (tile_cw as nat) + tile_cw) by (nonlinear_arith);
                }
            }
            assert(band_tiles(cols_px@, tile_cw as nat, r0 as nat, r1 as nat, py as nat, ph as nat, c0 as nat)
                == Seq::<Tile>::empty());
            assert(tiles@ =~= before + band_tiles(cols_px@, tile_cw as nat, r0 as nat, r1 as nat, py as nat, ph as nat, 0));
            assert(grid_tiles(cols_px@, rows_px@, tile_cw as nat, tile_ch as nat, r0 as nat)
                == band_tiles(cols_px@, tile_cw as nat, r0 as nat, r1 as nat, py as nat, ph as nat, 0)
                + grid_tiles(cols_px@, rows_px@, tile_cw as nat, tile_ch as nat, r1 as nat));
            assert(tiles@ + grid_tiles(cols_px@, rows_px@, tile_cw as nat, tile_ch as nat, r1 as nat)
                =~= before + grid_tiles(cols_px@, rows_px@, tile_cw as nat, tile_ch as nat, r0 as nat));
            r0 = r1;
            proof {
                kr = kr + 1;
                assert(kr * (tile_ch as nat) == (kr - 1) * (tile_ch as nat) + tile_ch) by (nonlinear_arith);
            }
        }
        assert(grid_tiles(cols_px@, rows_px@, tile_cw as nat, tile_ch as nat, r0 as nat) == Seq::<Tile>::empty());
        assert(tiles@ =~= grid_tiles(cols_px@, rows_px@, tile_cw as nat, tile_ch as nat, 0));
        TileGrid { tiles }
    }
}

} // verus!
