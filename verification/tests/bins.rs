use voxel_pipeline::bins::{bin_triangles, cell_span, grid_cells, BIN_CAPACITY, BIN_STRIDE, CELL_SIZE};
use voxel_pipeline::geometry::{Pixel, Uint4};

#[test]
fn bin_constants() {
    assert_eq!(CELL_SIZE, 4);
    assert_eq!(BIN_STRIDE, 64);
    assert_eq!(BIN_CAPACITY, 63);
}

#[test]
fn grid_cells_rounds_up() {
    assert_eq!(grid_cells(0), 0);
    assert_eq!(grid_cells(1), 1);
    assert_eq!(grid_cells(4), 1);
    assert_eq!(grid_cells(5), 2);
    assert_eq!(grid_cells(1200), 300);
    assert_eq!(grid_cells(750), 188);
    assert_eq!(grid_cells(4096), 1024);
    assert_eq!(grid_cells(u32::MAX), 1073741824);
}

#[test]
fn cell_span_is_inclusive() {
    assert_eq!(cell_span(0, 11, 5, 10), Some((0, 2)));
    assert_eq!(cell_span(8, 8, 8, 10), Some((2, 2)));
    assert_eq!(cell_span(7, 3, 4, 10), Some((0, 1)));
    assert_eq!(cell_span(12, 0, 3, 10), Some((0, 3)));
}

#[test]
fn cell_span_is_clamped_to_the_grid() {
    assert_eq!(cell_span(-9, 5, 2, 10), Some((0, 1)));
    assert_eq!(cell_span(36, 1000, 50, 10), Some((9, 9)));
    assert_eq!(cell_span(-100, 1000, 0, 10), Some((0, 9)));
    assert_eq!(cell_span(i32::MIN, i32::MAX, 0, 3), Some((0, 2)));
}

#[test]
fn cell_span_off_screen_is_none() {
    assert_eq!(cell_span(-9, -1, -5, 10), None);
    assert_eq!(cell_span(40, 41, 99, 10), None);
    assert_eq!(cell_span(0, 1, 2, 0), None);
}

#[test]
fn binning_a_box_of_cells() {
    let mut table = vec![0u32; 4 * 2 * 64];
    let indices = vec![Uint4::new(0, 1, 2, 0)];
    let dead = vec![false];
    let pixels = vec![Pixel::new(0, 0), Pixel::new(11, 0), Pixel::new(0, 7)];
    bin_triangles(&mut table, 4, 2, &indices, &dead, &pixels);
    for cy in 0..2usize {
        for cx in 0..4usize {
            let base = (cy * 4 + cx) * 64;
            if cx <= 2 {
                assert_eq!(table[base], 1);
                assert_eq!(table[base + 1], 0);
            } else {
                assert_eq!(table[base], 0);
            }
        }
    }
}

#[test]
fn binning_skips_dead_triangles_and_keeps_order() {
    let mut table = vec![777u32; 2 * 1 * 64 + 5];
    let indices = vec![
        Uint4::new(0, 0, 0, 0),
        Uint4::new(0, 0, 1, 0),
        Uint4::new(1, 1, 1, 0),
        Uint4::new(0, 1, 0, 0),
    ];
    let dead = vec![false, true, false, false];
    let pixels = vec![Pixel::new(1, 1), Pixel::new(6, 2)];
    bin_triangles(&mut table, 2, 1, &indices, &dead, &pixels);
    assert_eq!(&table[0..4], &[2, 0, 3, 777]);
    assert_eq!(&table[64..68], &[2, 2, 3, 777]);
    for i in 128..133 {
        assert_eq!(table[i], 777);
    }
}

#[test]
fn binning_clears_counts_past_the_grid_only() {
    let mut table = vec![9u32; 3 * 64 + 10];
    let indices: Vec<Uint4> = vec![];
    let dead: Vec<bool> = vec![];
    let pixels: Vec<Pixel> = vec![];
    bin_triangles(&mut table, 1, 1, &indices, &dead, &pixels);
    for i in 0..table.len() {
        let expected = if i % 64 == 0 && i < 192 { 0 } else { 9 };
        assert_eq!(table[i], expected);
    }
}

#[test]
fn a_full_cell_drops_the_rest() {
    let mut table = vec![5u32; 64];
    let indices = vec![Uint4::new(0, 0, 0, 0); 70];
    let dead = vec![false; 70];
    let pixels = vec![Pixel::new(2, 2)];
    bin_triangles(&mut table, 1, 1, &indices, &dead, &pixels);
    assert_eq!(table[0], 63);
    for k in 0..63usize {
        assert_eq!(table[1 + k], k as u32);
    }
}

#[test]
fn a_cell_short_of_full_keeps_stale_slots() {
    let mut table = vec![5u32; 64];
    let indices = vec![Uint4::new(0, 0, 0, 0); 62];
    let dead = vec![false; 62];
    let pixels = vec![Pixel::new(3, 3)];
    bin_triangles(&mut table, 1, 1, &indices, &dead, &pixels);
    assert_eq!(table[0], 62);
    assert_eq!(table[62], 61);
    assert_eq!(table[63], 5);
}

#[test]
fn binning_ignores_what_lies_off_screen() {
    let mut table = vec![0u32; 2 * 2 * 64];
    let indices = vec![Uint4::new(0, 1, 2, 0), Uint4::new(3, 3, 3, 0), Uint4::new(4, 4, 4, 0)];
    let dead = vec![false, false, false];
    let pixels = vec![
        Pixel::new(-20, -3),
        Pixel::new(-1, -9),
        Pixel::new(-5, -5),
        Pixel::new(8, 0),
        Pixel::new(-1, 4),
    ];
    bin_triangles(&mut table, 2, 2, &indices, &dead, &pixels);
    for cell in 0..4usize {
        assert_eq!(table[cell * 64], 0);
    }
}
