use voxel_pipeline::error::{MeshError, ShaderError};
use voxel_pipeline::frame::{FrameFacts, TriangleTest};
use voxel_pipeline::geometry::{Int4, Long4, Pixel, Tuple, Uchar4, Uint4, Vertex};
use voxel_pipeline::meshing::Mesh;

fn plain_vertex(n: i64) -> Vertex {
    Vertex::new(Long4::new(n, n, n, 0), Tuple { first: 0, second: 1 }, Uchar4::new(1, 1, 1, 0))
}

fn bounds() -> (Int4, Int4) {
    (Int4::new(0, 0, 0, 0), Int4::new(16, 16, 16, 0))
}

/// A buffer of `chunks` chunks with `per_chunk` triangles each, every
/// triangle over three vertices of its own; vertex `v` has priority
/// `priorities[v / 3 % priorities.len()]`.
fn scene(chunks: usize, per_chunk: usize, priorities: &[usize], bins: usize) -> Mesh {
    let triangles = chunks * per_chunk;
    let mut vertices = vec![];
    let mut ownership = vec![];
    let mut vert_chunk = vec![];
    let mut indices = vec![];
    let mut index_chunks = vec![];
    for t in 0..triangles {
        for k in 0..3 {
            vertices.push(plain_vertex((3 * t + k) as i64));
            ownership.push(priorities[t % priorities.len()]);
            vert_chunk.push(t / per_chunk);
        }
        indices.push(Uint4::new(3 * t as u32, 3 * t as u32 + 1, 3 * t as u32 + 2, 0));
        index_chunks.push(t / per_chunk);
    }
    Mesh::new(
        true,
        vertices,
        ownership,
        index_chunks,
        vec![bounds(); chunks],
        vec![Pixel::new(-7, -7); 3 * triangles + 2],
        indices,
        vec![],
        vec![0u32; bins],
        vec![false; triangles],
        vec![false; chunks],
        vert_chunk,
    )
    .unwrap()
}

fn facts(chunks: usize, triangles: usize) -> FrameFacts {
    FrameFacts {
        chunk_outside: vec![false; chunks],
        triangles: vec![TriangleTest::new(false, false, false); triangles],
        projected: (0..3 * triangles).map(|v| Pixel::new(v as i32, 0)).collect(),
    }
}

#[test]
fn shader_error_keeps_details() {
    let e = ShaderError::new(String::from("no such function"));
    assert_eq!(e.details, "no such function");
}

#[test]
fn new_accepts_an_empty_buffer() {
    let mesh = Mesh::new(true, vec![], vec![], vec![], vec![], vec![], vec![], vec![], vec![], vec![], vec![], vec![]);
    let mesh = mesh.unwrap();
    assert!(mesh.was_mutated());
    assert!(mesh.vertices_original_ref().is_empty());
    assert!(mesh.binned_indices_ref().is_empty());
}

#[test]
fn new_keeps_what_it_is_given() {
    let mesh = Mesh::new(
        false,
        vec![plain_vertex(1), plain_vertex(2), plain_vertex(3)],
        vec![4, 4, 4],
        vec![1],
        vec![bounds(), (Int4::new(16, 0, 0, 0), Int4::new(16, 16, 16, 0))],
        vec![Pixel::new(1, 2); 5],
        vec![Uint4::new(0, 1, 2, 9)],
        vec![Int4::new(0, 1, 0, 0)],
        vec![7u32; 10],
        vec![true],
        vec![false, true],
        vec![1, 1, 1],
    )
    .unwrap();
    assert!(!mesh.was_mutated());
    assert_eq!(mesh.vertices_original_ref().len(), 3);
    assert_eq!(mesh.vertex_ownership_ref(), &vec![4, 4, 4]);
    assert_eq!(mesh.vert_chunk_index_ref(), &vec![1, 1, 1]);
    assert_eq!(mesh.vertices_ref(), &vec![Pixel::new(1, 2); 5]);
    assert_eq!(mesh.indices_ref(), &vec![Uint4::new(0, 1, 2, 9)]);
    assert_eq!(mesh.index_chunks_ref(), &vec![1]);
    assert_eq!(mesh.dead_ref(), &vec![true]);
    assert_eq!(mesh.chunk_ref().len(), 2);
    assert_eq!(mesh.is_chunk_culled_ref(), &vec![false, true]);
    assert_eq!(mesh.normals_ref(), &vec![Int4::new(0, 1, 0, 0)]);
    assert_eq!(mesh.binned_indices_ref(), &vec![7u32; 10]);
}

fn new_with(
    ownership: Vec<usize>,
    index_chunks: Vec<usize>,
    scratch: usize,
    indices: Vec<Uint4>,
    dead: Vec<bool>,
    culled: Vec<bool>,
    vert_chunk: Vec<usize>,
) -> Result<Mesh, MeshError> {
    Mesh::new(
        false,
        vec![plain_vertex(0), plain_vertex(1), plain_vertex(2)],
        ownership,
        index_chunks,
        vec![bounds()],
        vec![Pixel::new(0, 0); scratch],
        indices,
        vec![],
        vec![],
        dead,
        culled,
        vert_chunk,
    )
}

#[test]
fn new_reports_length_mismatch() {
    let tri = vec![Uint4::new(0, 1, 2, 0)];
    assert_eq!(new_with(vec![0, 0], vec![0], 3, tri.clone(), vec![false], vec![false], vec![0, 0, 0]).err(), Some(MeshError::LengthMismatch));
    assert_eq!(new_with(vec![0, 0, 0], vec![0], 3, tri.clone(), vec![false], vec![false], vec![0, 0]).err(), Some(MeshError::LengthMismatch));
    assert_eq!(new_with(vec![0, 0, 0], vec![], 3, tri.clone(), vec![false], vec![false], vec![0, 0, 0]).err(), Some(MeshError::LengthMismatch));
    assert_eq!(new_with(vec![0, 0, 0], vec![0], 3, tri.clone(), vec![], vec![false], vec![0, 0, 0]).err(), Some(MeshError::LengthMismatch));
    assert_eq!(new_with(vec![0, 0, 0], vec![0], 3, tri.clone(), vec![false], vec![], vec![0, 0, 0]).err(), Some(MeshError::LengthMismatch));
    assert_eq!(new_with(vec![0, 0], vec![0], 0, tri, vec![false], vec![false], vec![9, 9, 9]).err(), Some(MeshError::LengthMismatch));
}

#[test]
fn new_reports_capacity_exceeded() {
    let tri = vec![Uint4::new(0, 1, 2, 0)];
    assert_eq!(new_with(vec![0, 0, 0], vec![0], 2, tri.clone(), vec![false], vec![false], vec![0, 0, 0]).err(), Some(MeshError::CapacityExceeded));
    assert_eq!(new_with(vec![0, 0, 0], vec![0], 2, tri, vec![false], vec![false], vec![5, 0, 0]).err(), Some(MeshError::CapacityExceeded));
}

#[test]
fn new_reports_unknown_chunk() {
    let tri = vec![Uint4::new(0, 1, 2, 0)];
    assert_eq!(new_with(vec![0, 0, 0], vec![0], 3, tri.clone(), vec![false], vec![false], vec![0, 0, 1]).err(), Some(MeshError::UnknownChunk));
    assert_eq!(new_with(vec![0, 0, 0], vec![0], 3, vec![Uint4::new(0, 1, 3, 0)], vec![false], vec![false], vec![0, 1, 0]).err(), Some(MeshError::UnknownChunk));
}

#[test]
fn new_reports_malformed_triangle() {
    assert_eq!(new_with(vec![0, 0, 0], vec![0], 3, vec![Uint4::new(0, 1, 3, 0)], vec![false], vec![false], vec![0, 0, 0]).err(), Some(MeshError::MalformedTriangle));
    assert_eq!(new_with(vec![0, 0, 1], vec![0], 3, vec![Uint4::new(0, 1, 2, 0)], vec![false], vec![false], vec![0, 0, 0]).err(), Some(MeshError::MalformedTriangle));
    assert_eq!(new_with(vec![0, 1, 0], vec![0], 3, vec![Uint4::new(0, 1, 2, 0)], vec![false], vec![false], vec![0, 0, 0]).err(), Some(MeshError::MalformedTriangle));
    assert_eq!(new_with(vec![0, 0, 0], vec![1], 3, vec![Uint4::new(0, 1, 2, 0)], vec![false], vec![false], vec![0, 0, 0]).err(), Some(MeshError::MalformedTriangle));
    assert!(new_with(vec![0, 0, 1], vec![0], 3, vec![Uint4::new(0, 1, 1, 0)], vec![false], vec![false], vec![0, 0, 0]).is_ok());
}

#[test]
fn dirty_flag_is_set_and_read() {
    let mut mesh = scene(1, 0, &[0], 0);
    assert!(mesh.was_mutated());
    mesh.mutated(false);
    assert!(!mesh.was_mutated());
    mesh.mutated(true);
    assert!(mesh.was_mutated());
}

#[test]
fn add_chunk_returns_the_next_index() {
    let mut mesh = scene(0, 0, &[0], 0);
    assert_eq!(mesh.add_chunk(Int4::new(1, 2, 3, 0), Int4::new(16, 16, 16, 0)), 0);
    assert_eq!(mesh.add_chunk(Int4::new(17, 2, 3, 0), Int4::new(16, 16, 16, 0)), 1);
    assert_eq!(mesh.chunk_ref()[1], (Int4::new(17, 2, 3, 0), Int4::new(16, 16, 16, 0)));
    assert_eq!(mesh.is_chunk_culled_ref(), &vec![false, false]);
}

fn roomy(capacity: usize, chunks: usize) -> Mesh {
    Mesh::new(false, vec![], vec![], vec![], vec![bounds(); chunks], vec![Pixel::new(0, 0); capacity], vec![], vec![], vec![], vec![], vec![false; chunks], vec![]).unwrap()
}

#[test]
fn append_vertices_tags_every_vertex() {
    let mut mesh = roomy(10, 3);
    let mut first = vec![plain_vertex(1), plain_vertex(2)];
    assert_eq!(mesh.append_vertices(&mut first, 7, 2), Ok(()));
    assert_eq!(mesh.append_vertices(&vec![plain_vertex(3)], 1, 0), Ok(()));
    assert_eq!(mesh.append_vertices(&vec![], 1, 0), Ok(()));
    assert_eq!(mesh.vertices_original_ref(), &vec![plain_vertex(1), plain_vertex(2), plain_vertex(3)]);
    assert_eq!(mesh.vertex_ownership_ref(), &vec![7, 7, 1]);
    assert_eq!(mesh.vert_chunk_index_ref(), &vec![2, 2, 0]);
    assert_eq!(mesh.vertices_ref().len(), 10);
}

#[test]
fn append_vertices_is_all_or_nothing() {
    let mut mesh = roomy(3, 1);
    assert_eq!(mesh.append_vertices(&vec![plain_vertex(0); 2], 0, 0), Ok(()));
    assert_eq!(mesh.append_vertices(&vec![plain_vertex(0); 2], 0, 0), Err(MeshError::CapacityExceeded));
    assert_eq!(mesh.vertices_original_ref().len(), 2);
    assert_eq!(mesh.append_vertices(&vec![plain_vertex(0); 1], 0, 1), Err(MeshError::UnknownChunk));
    assert_eq!(mesh.append_vertices(&vec![plain_vertex(0); 5], 0, 1), Err(MeshError::UnknownChunk));
    assert_eq!(mesh.append_vertices(&vec![plain_vertex(0); 1], 0, 0), Ok(()));
    assert_eq!(mesh.push_vertex(plain_vertex(0), 0, 0), Err(MeshError::CapacityExceeded));
    assert_eq!(mesh.vertex_ownership_ref().len(), 3);
}

#[test]
fn push_vertex_appends_one() {
    let mut mesh = roomy(2, 2);
    assert_eq!(mesh.push_vertex(plain_vertex(5), 3, 1), Ok(()));
    assert_eq!(mesh.push_vertex(plain_vertex(6), 3, 2), Err(MeshError::UnknownChunk));
    assert_eq!(mesh.vertices_original_ref(), &vec![plain_vertex(5)]);
    assert_eq!(mesh.vertex_ownership_ref(), &vec![3]);
    assert_eq!(mesh.vert_chunk_index_ref(), &vec![1]);
}

#[test]
fn append_indices_appends_live_triangles() {
    let mut mesh = roomy(10, 2);
    mesh.append_vertices(&vec![plain_vertex(0); 4], 2, 1).unwrap();
    let mut triangles = vec![Uint4::new(0, 1, 3, 4), Uint4::new(0, 2, 3, 4)];
    assert_eq!(mesh.append_indices(&mut triangles, 1), Ok(()));
    assert_eq!(mesh.push_index(Uint4::new(3, 3, 3, 0), 1), Ok(()));
    assert_eq!(mesh.indices_ref(), &vec![Uint4::new(0, 1, 3, 4), Uint4::new(0, 2, 3, 4), Uint4::new(3, 3, 3, 0)]);
    assert_eq!(mesh.index_chunks_ref(), &vec![1, 1, 1]);
    assert_eq!(mesh.dead_ref(), &vec![false, false, false]);
}

#[test]
fn append_indices_refuses_unsound_triangles_whole() {
    let mut mesh = roomy(10, 2);
    mesh.append_vertices(&vec![plain_vertex(0); 3], 2, 1).unwrap();
    mesh.append_vertices(&vec![plain_vertex(0); 1], 3, 1).unwrap();
    mesh.append_vertices(&vec![plain_vertex(0); 1], 2, 0).unwrap();
    let good = Uint4::new(0, 1, 2, 0);
    assert_eq!(mesh.append_indices(&vec![good, Uint4::new(0, 1, 5, 0)], 1), Err(MeshError::MalformedTriangle));
    assert_eq!(mesh.append_indices(&vec![good, Uint4::new(0, 1, 3, 0)], 1), Err(MeshError::MalformedTriangle));
    assert_eq!(mesh.append_indices(&vec![good, Uint4::new(0, 1, 4, 0)], 1), Err(MeshError::MalformedTriangle));
    assert_eq!(mesh.append_indices(&vec![good], 0), Err(MeshError::MalformedTriangle));
    assert_eq!(mesh.append_indices(&vec![good], 2), Err(MeshError::UnknownChunk));
    assert_eq!(mesh.push_index(Uint4::new(4, 4, 0, 0), 0), Err(MeshError::MalformedTriangle));
    assert!(mesh.indices_ref().is_empty());
    assert_eq!(mesh.append_indices(&vec![good, Uint4::new(3, 3, 3, 0)], 1), Ok(()));
    assert_eq!(mesh.push_index(Uint4::new(4, 4, 4, 0), 0), Ok(()));
    assert_eq!(mesh.indices_ref().len(), 3);
}

#[test]
fn append_geometry_rebases_by_the_vertices_held() {
    let mut mesh = roomy(10, 1);
    mesh.append_vertices(&vec![plain_vertex(0); 5], 1, 0).unwrap();
    let vertices = vec![plain_vertex(1), plain_vertex(2), plain_vertex(3)];
    let triangles = vec![Uint4::new(0, 1, 2, 77), Uint4::new(2, 1, 0, 78)];
    assert_eq!(mesh.append_geometry(&vertices, &triangles, 4, 0), Ok(()));
    assert_eq!(mesh.indices_ref(), &vec![Uint4::new(5, 6, 7, 77), Uint4::new(7, 6, 5, 78)]);
    assert_eq!(mesh.vertices_original_ref().len(), 8);
    assert_eq!(&mesh.vertex_ownership_ref()[5..], &[4, 4, 4]);
}

#[test]
fn append_geometry_is_all_or_nothing() {
    let mut mesh = roomy(4, 1);
    let vertices = vec![plain_vertex(1), plain_vertex(2), plain_vertex(3)];
    assert_eq!(mesh.append_geometry(&vertices, &vec![Uint4::new(0, 1, 3, 0)], 0, 0), Err(MeshError::MalformedTriangle));
    assert_eq!(mesh.append_geometry(&vertices, &vec![Uint4::new(0, 1, 2, 0)], 0, 1), Err(MeshError::UnknownChunk));
    assert_eq!(mesh.append_geometry(&vec![plain_vertex(0); 5], &vec![Uint4::new(0, 1, 9, 0)], 0, 0), Err(MeshError::CapacityExceeded));
    assert!(mesh.vertices_original_ref().is_empty());
    assert!(mesh.indices_ref().is_empty());
    assert_eq!(mesh.append_geometry(&vertices, &vec![Uint4::new(0, 1, 2, 0)], 0, 0), Ok(()));
    assert_eq!(mesh.append_geometry(&vertices, &vec![], 0, 0), Err(MeshError::CapacityExceeded));
    assert_eq!(mesh.vertices_original_ref().len(), 3);
}

#[test]
fn bin_words_of_a_window() {
    assert_eq!(Mesh::bin_words((1200, 750)), Some(300 * 188 * 64));
    assert_eq!(Mesh::bin_words((4096, 4096)), Some(1024 * 1024 * 64));
    assert_eq!(Mesh::bin_words((16, 8)), Some(512));
    assert_eq!(Mesh::bin_words((0, 8)), Some(0));
    assert_eq!(Mesh::bin_words((4097, 8)), None);
    assert_eq!(Mesh::bin_words((8, 4097)), None);
}

#[test]
fn pass_over_a_clean_buffer_changes_nothing() {
    let mut mesh = scene(1, 2, &[0], 512);
    let frame = facts(1, 2);
    assert_eq!(mesh.check_remesh((16, 8), &frame, 0, 0), Ok(true));
    assert!(!mesh.was_mutated());
    let vertices = mesh.vertices_ref().clone();
    let dead = mesh.dead_ref().clone();
    let bins = mesh.binned_indices_ref().clone();
    let culled = mesh.is_chunk_culled_ref().clone();
    let other = FrameFacts {
        chunk_outside: vec![true],
        triangles: vec![TriangleTest::new(true, true, true); 2],
        projected: vec![Pixel::new(99, 99); 6],
    };
    assert_eq!(mesh.check_remesh((16, 8), &other, 0, 0), Ok(false));
    assert_eq!(mesh.check_remesh((9999, 1), &facts(0, 0), 0, 9), Ok(false));
    assert_eq!(mesh.vertices_ref(), &vertices);
    assert_eq!(mesh.dead_ref(), &dead);
    assert_eq!(mesh.binned_indices_ref(), &bins);
    assert_eq!(mesh.is_chunk_culled_ref(), &culled);
    assert!(!mesh.was_mutated());
}

#[test]
fn pass_is_refused_for_a_window_over_the_maximum() {
    let mut mesh = scene(1, 1, &[0], 512);
    assert_eq!(mesh.check_remesh((4097, 8), &facts(1, 1), 0, 0), Err(MeshError::WindowTooLarge));
    assert_eq!(mesh.check_remesh((8, 4097), &facts(1, 1), 0, 0), Err(MeshError::WindowTooLarge));
    assert_eq!(mesh.check_remesh((4097, 8), &facts(0, 0), 0, 0), Err(MeshError::WindowTooLarge));
    assert!(mesh.was_mutated());
    assert_eq!(mesh.vertices_ref(), &vec![Pixel::new(-7, -7); 5]);
}

#[test]
fn pass_is_refused_for_a_short_bin_table() {
    let mut mesh = scene(1, 1, &[0], 511);
    assert_eq!(mesh.check_remesh((16, 8), &facts(1, 1), 0, 0), Err(MeshError::BinTableTooSmall));
    assert_eq!(mesh.check_remesh((16, 8), &facts(3, 3), 0, 0), Err(MeshError::BinTableTooSmall));
    assert!(mesh.was_mutated());
    assert_eq!(mesh.check_remesh((16, 4), &facts(1, 1), 0, 0), Ok(true));
}

#[test]
fn pass_is_refused_for_facts_that_do_not_fit() {
    let mut mesh = scene(2, 1, &[0], 512);
    let mut frame = facts(2, 2);
    frame.chunk_outside.pop();
    assert_eq!(mesh.check_remesh((16, 8), &frame, 0, 0), Err(MeshError::FrameMismatch));
    let mut frame = facts(2, 2);
    frame.triangles.push(TriangleTest::new(false, false, false));
    assert_eq!(mesh.check_remesh((16, 8), &frame, 0, 0), Err(MeshError::FrameMismatch));
    let mut frame = facts(2, 2);
    frame.projected.pop();
    assert_eq!(mesh.check_remesh((16, 8), &frame, 0, 0), Err(MeshError::FrameMismatch));
    assert!(mesh.was_mutated());
    assert_eq!(mesh.dead_ref(), &vec![false, false]);
    assert_eq!(mesh.check_remesh((16, 8), &facts(2, 2), 0, 0), Ok(true));
}

#[test]
fn backface_is_dead_and_facing_is_not() {
    let mut mesh = scene(1, 4, &[0], 512);
    let mut frame = facts(1, 4);
    frame.triangles[0] = TriangleTest::new(true, false, false);
    frame.triangles[1] = TriangleTest::new(false, false, false);
    frame.triangles[2] = TriangleTest::new(false, true, false);
    frame.triangles[3] = TriangleTest::new(false, false, true);
    assert_eq!(mesh.check_remesh((16, 8), &frame, 0, 0), Ok(true));
    assert_eq!(mesh.dead_ref(), &vec![true, false, true, true]);
}

#[test]
fn a_dead_triangle_comes_back_to_life() {
    let mut mesh = scene(1, 1, &[0], 512);
    let mut frame = facts(1, 1);
    frame.triangles[0] = TriangleTest::new(true, false, false);
    assert_eq!(mesh.check_remesh((16, 8), &frame, 0, 0), Ok(true));
    assert_eq!(mesh.dead_ref(), &vec![true]);
    assert_eq!(mesh.binned_indices_ref()[0], 0);
    mesh.mutated(true);
    assert_eq!(mesh.check_remesh((16, 8), &facts(1, 1), 0, 0), Ok(true));
    assert_eq!(mesh.dead_ref(), &vec![false]);
    assert_eq!(mesh.binned_indices_ref()[0], 1);
}

#[test]
fn culled_chunk_kills_its_triangles_and_freezes_its_vertices() {
    let mut mesh = scene(2, 1, &[5], 512);
    let mut frame = facts(2, 2);
    frame.chunk_outside[1] = true;
    assert_eq!(mesh.check_remesh((16, 8), &frame, 0, 0), Ok(true));
    assert_eq!(mesh.is_chunk_culled_ref(), &vec![false, true]);
    assert_eq!(mesh.dead_ref(), &vec![false, true]);
    assert_eq!(mesh.vertices_ref(), &vec![Pixel::new(-7, -7); 8]);
    mesh.mutated(true);
    assert_eq!(mesh.check_remesh((16, 8), &frame, 5, 5), Ok(true));
    assert_eq!(mesh.dead_ref(), &vec![false, true]);
    assert_eq!(
        mesh.vertices_ref(),
        &vec![
            Pixel::new(0, 0),
            Pixel::new(1, 0),
            Pixel::new(2, 0),
            Pixel::new(-7, -7),
            Pixel::new(-7, -7),
            Pixel::new(-7, -7),
            Pixel::new(-7, -7),
            Pixel::new(-7, -7),
        ]
    );
}

#[test]
fn a_narrow_band_changes_only_its_own_priority() {
    let mut mesh = scene(1, 4, &[0, 1, 2, 0], 512);
    let wide = facts(1, 4);
    assert_eq!(mesh.check_remesh((16, 8), &wide, 0, 2), Ok(true));
    let before_vertices = mesh.vertices_ref().clone();
    let before_dead = mesh.dead_ref().clone();
    assert_eq!(before_dead, vec![false; 4]);
    mesh.mutated(true);
    let narrow = FrameFacts {
        chunk_outside: vec![false],
        triangles: vec![TriangleTest::new(true, false, false); 4],
        projected: (0..12).map(|v| Pixel::new(100 + v, 50)).collect(),
    };
    assert_eq!(mesh.check_remesh((16, 8), &narrow, 0, 0), Ok(true));
    for t in 0..4usize {
        let in_band = t == 0 || t == 3;
        assert_eq!(mesh.dead_ref()[t], in_band);
        for k in 0..3usize {
            let v = 3 * t + k;
            if in_band {
                assert_eq!(mesh.vertices_ref()[v], Pixel::new(100 + v as i32, 50));
            } else {
                assert_eq!(mesh.vertices_ref()[v], before_vertices[v]);
            }
        }
    }
    assert_eq!(mesh.vertices_ref()[12], Pixel::new(-7, -7));
}

#[test]
fn a_triangle_is_binned_into_the_cells_its_box_spans() {
    let mut mesh = scene(1, 1, &[0], 4 * 3 * 64);
    let frame = FrameFacts {
        chunk_outside: vec![false],
        triangles: vec![TriangleTest::new(false, false, false)],
        projected: vec![Pixel::new(0, 0), Pixel::new(11, 2), Pixel::new(3, 7)],
    };
    assert_eq!(mesh.check_remesh((16, 12), &frame, 0, 0), Ok(true));
    let table = mesh.binned_indices_ref();
    for cy in 0..3usize {
        for cx in 0..4usize {
            let base = (cy * 4 + cx) * 64;
            if cx <= 2 && cy <= 1 {
                assert_eq!(table[base], 1);
                assert_eq!(table[base + 1], 0);
            } else {
                assert_eq!(table[base], 0);
            }
        }
    }
}

#[test]
fn a_cell_keeps_the_first_sixty_three_triangles() {
    let mut mesh = scene(1, 80, &[0], 64);
    let mut frame = facts(1, 80);
    frame.projected = vec![Pixel::new(1, 1); 240];
    frame.triangles[4] = TriangleTest::new(true, false, false);
    assert_eq!(mesh.check_remesh((4, 4), &frame, 0, 0), Ok(true));
    let table = mesh.binned_indices_ref();
    assert_eq!(table[0], 63);
    let mut expected: Vec<u32> = (0..80).filter(|t| *t != 4).collect();
    expected.truncate(63);
    assert_eq!(&table[1..64], &expected[..]);
    assert_eq!(table[63], 63);
}

#[test]
fn stale_pixels_of_a_frozen_triangle_are_binned_again() {
    let mut mesh = scene(1, 2, &[0, 1], 2 * 64);
    let first = FrameFacts {
        chunk_outside: vec![false],
        triangles: vec![TriangleTest::new(false, false, false); 2],
        projected: vec![Pixel::new(1, 1); 6],
    };
    assert_eq!(mesh.check_remesh((8, 4), &first, 0, 1), Ok(true));
    assert_eq!(&mesh.binned_indices_ref()[0..3], &[2, 0, 1]);
    assert_eq!(mesh.binned_indices_ref()[64], 0);
    mesh.mutated(true);
    let second = FrameFacts {
        chunk_outside: vec![false],
        triangles: vec![TriangleTest::new(false, false, false); 2],
        projected: vec![Pixel::new(5, 1); 6],
    };
    assert_eq!(mesh.check_remesh((8, 4), &second, 0, 0), Ok(true));
    assert_eq!(&mesh.binned_indices_ref()[0..2], &[1, 1]);
    assert_eq!(&mesh.binned_indices_ref()[64..66], &[1, 0]);
}

#[test]
fn shader_error_is_described_with_its_details_quoted() {
    let e = ShaderError::new(String::from("no \"main\" in file"));
    assert_eq!(e.describe(), "[Shader Error] \"no \\\"main\\\" in file\"");
    assert_eq!(ShaderError::new(String::new()).describe(), "[Shader Error] \"\"");
}
