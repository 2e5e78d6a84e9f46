use kitwin::diff::{extract_tile, tile_dirty, Tile, TileGrid};

fn frame(w: usize, h: usize, seed: u8) -> Vec<u8> {
    (0..w * h * 4).map(|i| (i as u8).wrapping_mul(31).wrapping_add(seed)).collect()
}

#[test]
fn extract_copies_rows() {
    let f = frame(4, 3, 0);
    let t = Tile { col: 0, row: 0, cols: 1, rows: 1, px: 1, py: 1, pw: 2, ph: 2 };
    let mut out = vec![9, 9, 9];
    extract_tile(&f, 16, &t, &mut out);
    let mut expected = Vec::new();
    expected.extend_from_slice(&f[16 + 4..16 + 12]);
    expected.extend_from_slice(&f[32 + 4..32 + 12]);
    assert_eq!(out, expected);
    assert_eq!(out.len(), 2 * 2 * 4);
}

#[test]
fn dirty_only_when_tile_pixels_change() {
    let a = frame(4, 3, 0);
    let mut b = a.clone();
    let t = Tile { col: 0, row: 0, cols: 1, rows: 1, px: 1, py: 1, pw: 2, ph: 2 };
    assert!(!tile_dirty(&a, &b, 16, &t));
    // A change outside the tile does not make it dirty.
    b[0] ^= 1;
    assert!(!tile_dirty(&a, &b, 16, &t));
    // A change inside does.
    b[32 + 8] ^= 1;
    assert!(tile_dirty(&a, &b, 16, &t));
}

#[test]
fn grid_cuts_bands_and_columns() {
    // 5 columns of 10 px, 3 rows of 20 px; tiles of 2x2 cells.
    let cols = vec![0, 10, 20, 30, 40, 50];
    let rows = vec![0, 20, 40, 60];
    let g = TileGrid::from_edges(&cols, &rows, 2, 2);
    let got: Vec<(u32, u32, u32, u32, u32, u32, u32, u32)> =
        g.tiles.iter().map(|t| (t.col, t.row, t.cols, t.rows, t.px, t.py, t.pw, t.ph)).collect();
    assert_eq!(
        got,
        vec![
            (0, 0, 2, 2, 0, 0, 20, 40),
            (2, 0, 2, 2, 20, 0, 20, 40),
            (4, 0, 1, 2, 40, 0, 10, 40),
            (0, 2, 2, 1, 0, 40, 20, 20),
            (2, 2, 2, 1, 20, 40, 20, 20),
            (4, 2, 1, 1, 40, 40, 10, 20),
        ]
    );
}

#[test]
fn grid_skips_tiles_without_pixels() {
    // The last cell column has no pixels (the edge is clamped to the width).
    let cols = vec![0, 8, 8];
    let rows = vec![0, 5];
    let g = TileGrid::from_edges(&cols, &rows, 1, 1);
    assert_eq!(g.tiles.len(), 1);
    assert_eq!(g.tiles[0].pw, 8);
    let empty = TileGrid::from_edges(&vec![0], &vec![0], 3, 3);
    assert!(empty.tiles.is_empty());
}

#[test]
fn grid_covers_every_pixel_in_reading_order() {
    let cols_px: Vec<u32> = vec![0, 7, 14, 21, 28, 35];
    let rows_px: Vec<u32> = vec![0, 10, 20, 30];
    let grid = TileGrid::from_edges(&cols_px, &rows_px, 2, 2);
    for y in 0..30u32 {
        for x in 0..35u32 {
            let n = grid
                .tiles
                .iter()
                .filter(|t| t.px <= x && x < t.px + t.pw && t.py <= y && y < t.py + t.ph)
                .count();
            assert_eq!(n, 1, "pixel ({}, {})", x, y);
        }
    }
    let order: Vec<(u32, u32)> = grid.tiles.iter().map(|t| (t.row, t.col)).collect();
    assert_eq!(order, vec![(0, 0), (0, 2), (0, 4), (2, 0), (2, 2), (2, 4)]);
}
