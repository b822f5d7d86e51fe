//! Plain value types shared by the mesher and the scene buffer.

use vstd::prelude::*;

verus! {

/// A position or an extent in whole voxels (`w` is reserved).
#[derive(Clone, Copy, Debug, PartialEq, Eq, Structural)]
pub struct Int4 {
    pub x: i32,
    pub y: i32,
    pub z: i32,
    pub w: i32,
}

impl Int4 {
    pub fn new(x: i32, y: i32, z: i32, w: i32) -> (r: Self)
        ensures
            r == (Int4 { x, y, z, w }),
    {
        Int4 { x, y, z, w }
    }
}

/// A vertex position on the half-voxel lattice: one unit is half a voxel, so
/// the faces of a voxel centred on a whole coordinate have whole lattice
/// coordinates.  `w` is reserved.
#[derive(Clone, Copy, Debug, PartialEq, Eq, Structural)]
pub struct Long4 {
    pub x: i64,
    pub y: i64,
    pub z: i64,
    pub w: i64,
}

impl Long4 {
    pub fn new(x: i64, y: i64, z: i64, w: i64) -> (r: Self)
        ensures
            r == (Long4 { x, y, z, w }),
    {
        Long4 { x, y, z, w }
    }
}

/// Four unsigned words.  As a triangle record: three vertex indices and the
/// packed word `face id | normal index << 16`.
#[derive(Clone, Copy, Debug, PartialEq, Eq, Structural)]
pub struct Uint4 {
    pub x: u32,
    pub y: u32,
    pub z: u32,
    pub w: u32,
}

/// The packed word of a triangle whose texture row is `face_id` and whose
/// normal is entry `normal_index` of the normal table.
pub open spec fn packed_word(face_id: u32, normal_index: u32) -> u32 {
    (face_id + normal_index * 0x1_0000) as u32
}

impl Uint4 {
    pub fn new(x: u32, y: u32, z: u32, w: u32) -> (r: Self)
        ensures
            r == (Uint4 { x, y, z, w }),
    {
        Uint4 { x, y, z, w }
    }

    pub open spec fn spec_tri_index(&self, index: int) -> u32 {
        if index == 0 {
            self.x
        } else if index == 1 {
            self.y
        } else {
            self.z
        }
    }

    /// The `index`-th vertex index of the triangle.
    pub fn tri_index(&self, index: usize) -> (r: u32)
        requires
            index < 3,
        ensures
            r == self.spec_tri_index(index as int),
    {
        if index == 0 {
            self.x
        } else if index == 1 {
            self.y
        } else {
            self.z
        }
    }

    pub open spec fn spec_face_id(&self) -> u32 {
        (self.w % 0x1_0000) as u32
    }

    pub open spec fn spec_normal_index(&self) -> u32 {
        (self.w / 0x1_0000) as u32
    }

    /// The texture-atlas row: the low half of the packed word.
    pub fn face_id(&self) -> (r: u32)
        ensures
            r == self.spec_face_id(),
    {
        let w: u32 = self.w;
        assert(w & 0xFFFF == w % 0x1_0000) by (bit_vector);
        w & 0xFFFF
    }

    /// The index into the normal table: the high half of the packed word.
    pub fn normal_index(&self) -> (r: u32)
        ensures
            r == self.spec_normal_index(),
    {
        let w: u32 = self.w;
        assert(w >> 16 == w / 0x1_0000) by (bit_vector);
        w >> 16
    }

    /// A triangle over three vertex indices with its packed word.
    pub fn triangle(i0: u32, i1: u32, i2: u32, face_id: u32, normal_index: u32) -> (r: Self)
        requires
            face_id < 0x1_0000,
            normal_index < 0x1_0000,
        ensures
            r == (Uint4 { x: i0, y: i1, z: i2, w: packed_word(face_id, normal_index) }),
            r.spec_face_id() == face_id,
            r.spec_normal_index() == normal_index,
    {
        assert(face_id | (normal_index << 16) == face_id + normal_index * 0x1_0000) by (bit_vector)
            requires
                face_id < 0x1_0000,
                normal_index < 0x1_0000,
        ;
        Uint4 { x: i0, y: i1, z: i2, w: face_id | (normal_index << 16) }
    }
}

/// Four bytes: a texel, a texture coordinate pair in its first two
/// components, or a light level per channel.
#[derive(Clone, Copy, Debug, PartialEq, Eq, Structural)]
pub struct Uchar4 {
    pub x: u8,
    pub y: u8,
    pub z: u8,
    pub w: u8,
}

impl Uchar4 {
    pub fn new(x: u8, y: u8, z: u8, w: u8) -> (r: Self)
        ensures
            r == (Uchar4 { x, y, z, w }),
    {
        Uchar4 { x, y, z, w }
    }
}

/// A pair with named halves.
pub struct Tuple<A, B> {
    pub first: A,
    pub second: B,
}

/// A mesh vertex as the mesher emits it: lattice position, texture
/// coordinates in the first two components of `uv`, and light.
#[derive(Clone, Copy, Debug, PartialEq, Eq, Structural)]
pub struct Vertex {
    pub position: Long4,
    pub uv: Uchar4,
    pub light: Uchar4,
}

impl Vertex {
    pub fn new(position: Long4, uv: Tuple<u8, u8>, light: Uchar4) -> (r: Self)
        ensures
            r.position == position,
            r.uv == (Uchar4 { x: uv.first, y: uv.second, z: 0, w: 0 }),
            r.light == light,
    {
        Vertex { position, uv: Uchar4 { x: uv.first, y: uv.second, z: 0, w: 0 }, light }
    }
}

/// A projected vertex snapped to the pixel that contains it.
#[derive(Clone, Copy, Debug, PartialEq, Eq, Structural)]
pub struct Pixel {
    pub x: i32,
    pub y: i32,
}

impl Pixel {
    pub fn new(x: i32, y: i32) -> (r: Self)
        ensures
            r == (Pixel { x, y }),
    {
        Pixel { x, y }
    }
}

} // verus!
