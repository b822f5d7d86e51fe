use voxel_pipeline::region::{gather_region, most_common, Grid};

fn region_test_grid() -> Grid {
    let mut grid: Grid = [[[0u32; 16]; 16]; 16];
    for x in 0..16 {
        for y in 0..16 {
            for z in 0..16 {
                grid[x][y][z] = (x * 256 + y * 16 + z) as u32;
            }
        }
    }
    grid
}

#[test]
fn mode_of_identical_ids_is_that_id() {
    for k in 1..40usize {
        let blocks = vec![7u32; k];
        assert_eq!(most_common(&blocks, &[]), 7);
    }
}

#[test]
fn mode_of_nothing_is_zero() {
    let blocks: Vec<u32> = vec![];
    assert_eq!(most_common(&blocks, &[]), 0);
    assert_eq!(most_common(&blocks, &[3, 4]), 0);
}

#[test]
fn mode_of_region_that_is_empty_after_exclusion_is_zero() {
    let blocks = vec![5u32, 5, 9, 9, 9];
    assert_eq!(most_common(&blocks, &[9, 5]), 0);
    let single = vec![8u32];
    assert_eq!(most_common(&single, &[8]), 0);
}

#[test]
fn mode_picks_the_most_frequent_id() {
    let blocks = vec![1u32, 2, 2, 3, 2, 1, 0];
    assert_eq!(most_common(&blocks, &[]), 2);
}

#[test]
fn mode_skips_ignored_ids() {
    let blocks = vec![1u32, 2, 2, 3, 2, 1, 0];
    assert_eq!(most_common(&blocks, &[2]), 1);
    assert_eq!(most_common(&blocks, &[2, 1]), 0);
    assert_eq!(most_common(&blocks, &[2, 1, 0]), 3);
}

#[test]
fn mode_tie_goes_to_the_lowest_id() {
    assert_eq!(most_common(&vec![9u32, 4, 9, 4], &[]), 4);
    assert_eq!(most_common(&vec![4u32, 9, 4, 9], &[]), 4);
    assert_eq!(most_common(&vec![3u32, 0], &[]), 0);
    assert_eq!(most_common(&vec![0u32, 3], &[]), 0);
    assert_eq!(most_common(&vec![6u32, 5, 7], &[]), 5);
}

#[test]
fn empty_voxels_vote_like_any_id() {
    assert_eq!(most_common(&vec![0u32, 0, 0, 1, 1], &[]), 0);
    assert_eq!(most_common(&vec![0u32, 0, 1, 1, 1], &[]), 1);
    assert_eq!(most_common(&vec![0u32, 0, 0, 1, 1], &[0]), 1);
}

#[test]
fn gather_region_scans_x_then_y_then_z() {
    let grid = region_test_grid();
    let blocks = gather_region(&grid, (1, 2, 3), 2);
    let expected: Vec<u32> = vec![
        1 * 256 + 2 * 16 + 3,
        1 * 256 + 2 * 16 + 4,
        1 * 256 + 3 * 16 + 3,
        1 * 256 + 3 * 16 + 4,
        2 * 256 + 2 * 16 + 3,
        2 * 256 + 2 * 16 + 4,
        2 * 256 + 3 * 16 + 3,
        2 * 256 + 3 * 16 + 4,
    ];
    assert_eq!(blocks, expected);
}

#[test]
fn gather_region_is_clipped_to_the_chunk() {
    let grid = region_test_grid();
    let blocks = gather_region(&grid, (15, 15, 14), 4);
    assert_eq!(blocks, vec![15 * 256 + 15 * 16 + 14, 15 * 256 + 15 * 16 + 15]);
    assert_eq!(gather_region(&grid, (16, 0, 0), 4), Vec::<u32>::new());
    assert_eq!(gather_region(&grid, (0, 40, 0), 1), Vec::<u32>::new());
    assert_eq!(gather_region(&grid, (0, 0, 0), 0), Vec::<u32>::new());
    assert_eq!(gather_region(&grid, (usize::MAX, 0, 0), usize::MAX), Vec::<u32>::new());
}

#[test]
fn gather_region_of_the_whole_chunk_has_every_voxel() {
    let grid = region_test_grid();
    let blocks = gather_region(&grid, (0, 0, 0), 16);
    assert_eq!(blocks.len(), 4096);
    for (i, b) in blocks.iter().enumerate() {
        assert_eq!(*b, i as u32);
    }
    assert_eq!(gather_region(&grid, (0, 0, 0), usize::MAX).len(), 4096);
}
