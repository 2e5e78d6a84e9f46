use kitwin::layout::{cell_to_source, fit_placement, Placement};

#[test]
fn margin_clicks_return_none() {
    let p = Placement {
        col_offset: 10,
        row_offset: 2,
        cols: 20,
        rows: 5,
    };
    assert!(cell_to_source(p, 0, 0, 200, 100).is_none());
    assert!(cell_to_source(p, 9, 3, 200, 100).is_none());
    assert!(cell_to_source(p, 30, 3, 200, 100).is_none());
    assert!(cell_to_source(p, 15, 4, 200, 100).is_some());
}

#[test]
fn fitted_image_is_centred_with_leftover_split() {
    // A 1920x1200 desktop in an 80x24 grid of 10x20 px cells scales to 77x24 cells.
    let p = fit_placement(80, 24, 77, 24);
    assert_eq!(p.cols, 77);
    assert_eq!(p.rows, 24);
    assert_eq!(p.col_offset, (80 - 77) / 2);
    assert_eq!(p.row_offset, 0);
}

#[test]
fn small_image_keeps_its_cell_size() {
    // 200x100 px in 10x20 px cells: 20x5 cells, not enlarged.
    let p = fit_placement(80, 24, 20, 5);
    assert_eq!(p.cols, 20);
    assert_eq!(p.rows, 5);
    assert_eq!(p.col_offset, (80 - 20) / 2);
    assert_eq!(p.row_offset, (24 - 5) / 2);
}

#[test]
fn oversized_and_empty_requests_are_clamped() {
    let p = fit_placement(80, 24, 500, 0);
    assert_eq!(p, Placement { col_offset: 0, row_offset: 11, cols: 80, rows: 1 });
    let q = fit_placement(0, 0, 5, 5);
    assert_eq!(q, Placement { col_offset: 0, row_offset: 0, cols: 1, rows: 1 });
}

#[test]
fn click_maps_to_cell_centre() {
    let p = Placement { col_offset: 10, row_offset: 2, cols: 20, rows: 5 };
    // Cell (15, 4) is relative cell (5, 2): centre (5.5/20*200, 2.5/5*100) = (55, 50).
    assert_eq!(cell_to_source(p, 15, 4, 200, 100), Some((55, 50)));
    // The first cell aims at the middle of the first 10x20 block.
    assert_eq!(cell_to_source(p, 10, 2, 200, 100), Some((5, 10)));
}

#[test]
fn last_cell_maps_inside_the_source() {
    let p = fit_placement(80, 24, 77, 24);
    let (x, y) = cell_to_source(p, p.col_offset + p.cols - 1, p.row_offset + p.rows - 1, 1920, 1200).unwrap();
    assert!(x < 1920);
    assert!(y < 1200);
}

#[test]
fn empty_source_maps_nothing() {
    let p = Placement { col_offset: 0, row_offset: 0, cols: 10, rows: 10 };
    assert!(cell_to_source(p, 1, 1, 0, 100).is_none());
    assert!(cell_to_source(p, 1, 1, 100, 0).is_none());
}
