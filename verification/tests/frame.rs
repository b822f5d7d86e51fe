use voxel_pipeline::frame::{
    clip_triangle_near_plane_inplace, cull_triangles, in_band, project_vertices, triangle_verdict,
    vertex_takes_part, work_ranges, TriangleTest, MAXIMUM_WINDOW_HEIGHT, MAXIMUM_WINDOW_WIDTH,
    WORKERS,
};
use voxel_pipeline::geometry::{Pixel, Uint4};

#[test]
fn frame_constants() {
    assert_eq!(MAXIMUM_WINDOW_WIDTH, 4096);
    assert_eq!(MAXIMUM_WINDOW_HEIGHT, 4096);
    assert_eq!(WORKERS, 8);
}

#[test]
fn work_ranges_cut_into_equal_shares() {
    assert_eq!(
        work_ranges(80),
        vec![(0, 10), (10, 20), (20, 30), (30, 40), (40, 50), (50, 60), (60, 70), (70, 80)]
    );
}

#[test]
fn work_ranges_give_the_remainder_to_the_last() {
    assert_eq!(
        work_ranges(21),
        vec![(0, 2), (2, 4), (4, 6), (6, 8), (8, 10), (10, 12), (12, 14), (14, 21)]
    );
    assert_eq!(
        work_ranges(7),
        vec![(0, 0), (0, 0), (0, 0), (0, 0), (0, 0), (0, 0), (0, 0), (0, 7)]
    );
    assert_eq!(work_ranges(0), vec![(0, 0); 8]);
}

#[test]
fn work_ranges_tile_every_length() {
    for length in 0..200usize {
        let ranges = work_ranges(length);
        assert_eq!(ranges.len(), 8);
        assert_eq!(ranges[0].0, 0);
        assert_eq!(ranges[7].1, length);
        for k in 0..8 {
            assert!(ranges[k].0 <= ranges[k].1);
            if k < 7 {
                assert_eq!(ranges[k].1, ranges[k + 1].0);
            }
        }
    }
    let huge = work_ranges(usize::MAX);
    assert_eq!(huge[7].1, usize::MAX);
}

#[test]
fn band_is_inclusive() {
    assert!(in_band(0, 0, 0));
    assert!(in_band(3, 1, 3));
    assert!(in_band(1, 1, 3));
    assert!(!in_band(0, 1, 3));
    assert!(!in_band(4, 1, 3));
    assert!(!in_band(2, 3, 1));
}

#[test]
fn a_triangle_is_rejected_by_any_failed_test() {
    assert!(!TriangleTest::new(false, false, false).rejected());
    assert!(TriangleTest::new(true, false, false).rejected());
    assert!(TriangleTest::new(false, true, false).rejected());
    assert!(TriangleTest::new(false, false, true).rejected());
    assert!(TriangleTest::new(true, true, true).rejected());
}

#[test]
fn near_plane_rejects_unless_all_three_are_beyond() {
    assert!(!clip_triangle_near_plane_inplace([true, true, true]));
    assert!(clip_triangle_near_plane_inplace([false, true, true]));
    assert!(clip_triangle_near_plane_inplace([true, false, true]));
    assert!(clip_triangle_near_plane_inplace([true, true, false]));
    assert!(clip_triangle_near_plane_inplace([false, false, false]));
}

#[test]
fn vertex_takes_part_in_view_and_in_band() {
    let chunk_of = vec![0usize, 1, 0, 1];
    let priority = vec![0usize, 0, 5, 5];
    let hidden = vec![false, true];
    assert!(vertex_takes_part(&chunk_of, &priority, &hidden, 0, 0, 0));
    assert!(!vertex_takes_part(&chunk_of, &priority, &hidden, 0, 0, 1));
    assert!(!vertex_takes_part(&chunk_of, &priority, &hidden, 0, 0, 2));
    assert!(vertex_takes_part(&chunk_of, &priority, &hidden, 0, 5, 2));
    assert!(!vertex_takes_part(&chunk_of, &priority, &hidden, 0, 5, 3));
}

#[test]
fn project_vertices_writes_only_what_takes_part() {
    let mut scratch = vec![Pixel::new(-1, -1); 12];
    let projected: Vec<Pixel> = (0..10).map(|i| Pixel::new(i, 100 + i)).collect();
    let chunk_of = vec![0usize, 0, 1, 1, 0, 0, 1, 1, 0, 0];
    let priority = vec![0usize, 1, 0, 1, 2, 0, 2, 0, 1, 3];
    let hidden = vec![false, true];
    project_vertices(&mut scratch, &projected, &chunk_of, &priority, &hidden, 0, 1);
    for v in 0..12usize {
        let part = v < 10 && chunk_of[v] == 0 && priority[v] <= 1;
        let expected = if part { Pixel::new(v as i32, 100 + v as i32) } else { Pixel::new(-1, -1) };
        assert_eq!(scratch[v], expected);
    }
}

#[test]
fn triangle_verdict_follows_chunk_then_band_then_tests() {
    let indices = vec![Uint4::new(0, 0, 0, 0), Uint4::new(1, 1, 1, 0), Uint4::new(2, 2, 2, 0)];
    let chunk_of = vec![0usize, 1, 0];
    let priority = vec![0usize, 0, 7];
    let hidden = vec![false, true];
    let tests = vec![
        TriangleTest::new(false, false, false),
        TriangleTest::new(false, false, false),
        TriangleTest::new(true, false, false),
    ];
    let was = vec![true, false, false];
    assert!(!triangle_verdict(&indices, &chunk_of, &priority, &hidden, &tests, &was, 0, 0, 0));
    assert!(triangle_verdict(&indices, &chunk_of, &priority, &hidden, &tests, &was, 0, 0, 1));
    assert!(!triangle_verdict(&indices, &chunk_of, &priority, &hidden, &tests, &was, 0, 0, 2));
    assert!(triangle_verdict(&indices, &chunk_of, &priority, &hidden, &tests, &was, 0, 7, 2));
}

#[test]
fn cull_triangles_covers_every_triangle_once() {
    let n = 37usize;
    let indices: Vec<Uint4> = (0..n).map(|t| Uint4::new(t as u32, t as u32, t as u32, 0)).collect();
    let chunk_of = vec![0usize; n];
    let priority: Vec<usize> = (0..n).map(|t| t % 3).collect();
    let hidden = vec![false];
    let tests: Vec<TriangleTest> =
        (0..n).map(|t| TriangleTest::new(t % 2 == 0, false, false)).collect();
    let mut dead: Vec<bool> = (0..n).map(|t| t % 5 == 0).collect();
    cull_triangles(&mut dead, &indices, &chunk_of, &priority, &hidden, &tests, 1, 2);
    for t in 0..n {
        let expected = if t % 3 == 0 { t % 5 == 0 } else { t % 2 == 0 };
        assert_eq!(dead[t], expected);
    }
}
