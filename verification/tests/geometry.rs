use voxel_pipeline::geometry::{Int4, Long4, Pixel, Tuple, Uchar4, Uint4, Vertex};

#[test]
fn uint4_new_keeps_components() {
    let t = Uint4::new(1, 2, 3, 4);
    assert_eq!((t.x, t.y, t.z, t.w), (1, 2, 3, 4));
}

#[test]
fn tri_index_selects_vertex() {
    let t = Uint4::new(10, 20, 30, 7);
    assert_eq!(t.tri_index(0), 10);
    assert_eq!(t.tri_index(1), 20);
    assert_eq!(t.tri_index(2), 30);
}

#[test]
fn uchar4_new_keeps_components() {
    let c = Uchar4::new(150, 75, 10, 0);
    assert_eq!((c.x, c.y, c.z, c.w), (150, 75, 10, 0));
}

#[test]
fn int4_and_long4_keep_components() {
    let a = Int4::new(-1, 2, -3, 4);
    assert_eq!((a.x, a.y, a.z, a.w), (-1, 2, -3, 4));
    let b = Long4::new(i64::MIN, 0, i64::MAX, 9);
    assert_eq!((b.x, b.y, b.z, b.w), (i64::MIN, 0, i64::MAX, 9));
    let p = Pixel::new(-5, 7);
    assert_eq!((p.x, p.y), (-5, 7));
}

#[test]
fn packed_word_puts_face_id_low_and_normal_high() {
    let t = Uint4::triangle(4, 5, 7, 2, 1);
    assert_eq!((t.x, t.y, t.z), (4, 5, 7));
    assert_eq!(t.w, 2 | (1 << 16));
    assert_eq!(t.w, 65538);
    assert_eq!(t.face_id(), 2);
    assert_eq!(t.normal_index(), 1);
}

#[test]
fn packed_word_halves_are_independent() {
    let t = Uint4::new(0, 0, 0, 0xABCD_1234);
    assert_eq!(t.face_id(), 0x1234);
    assert_eq!(t.normal_index(), 0xABCD);
    let full = Uint4::triangle(0, 0, 0, 0xFFFF, 0xFFFF);
    assert_eq!(full.w, u32::MAX);
}

#[test]
fn vertex_new_pads_uv() {
    let v = Vertex::new(
        Long4::new(1, 2, 3, 0),
        Tuple { first: 1, second: 0 },
        Uchar4::new(1, 1, 1, 0),
    );
    assert_eq!(v.position, Long4::new(1, 2, 3, 0));
    assert_eq!(v.uv, Uchar4::new(1, 0, 0, 0));
    assert_eq!(v.light, Uchar4::new(1, 1, 1, 0));
}
