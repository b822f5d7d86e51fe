//! The six faces of an axis-aligned cube as quads on the half-voxel lattice.
//!
//! Sides are numbered in the order in which a tile emits them: 0 is -X, 1 is
//! -Y, 2 is -Z, 3 is +X, 4 is +Y, 5 is +Z.  A face is four vertices and two
//! triangles over them, `(0, 1, 3)` and `(0, 2, 3)`.  The packed word of both
//! triangles names the texture row of the side and its entry in the normal
//! table, which lists +Y, -Y, +X, -X, +Z, -Z.

use vstd::prelude::*;
use crate::geometry::{packed_word, Long4, Tuple, Uchar4, Uint4, Vertex};

verus! {

/// The number of sides of a cube.
pub const SIDES: usize = 6;

/// The step from a tile to its neighbour across side `side`.
pub open spec fn side_step(side: int) -> (int, int, int) {
    if side == 0 {
        (-1, 0, 0)
    } else if side == 1 {
        (0, -1, 0)
    } else if side == 2 {
        (0, 0, -1)
    } else if side == 3 {
        (1, 0, 0)
    } else if side == 4 {
        (0, 1, 0)
    } else {
        (0, 0, 1)
    }
}

/// The entry of the normal table that side `side` faces along.
pub open spec fn side_normal(side: int) -> u32 {
    if side == 0 {
        3
    } else if side == 1 {
        1
    } else if side == 2 {
        5
    } else if side == 3 {
        2
    } else if side == 4 {
        0
    } else {
        4
    }
}

/// The texture row of side `side`: 1 for the top, 2 for the bottom, 0 for
/// the four walls.
pub open spec fn side_texture(side: int) -> u32 {
    if side == 4 {
        1
    } else if side == 1 {
        2
    } else {
        0
    }
}

/// The direction, per axis -1 or 1, from the centre of a cube to corner
/// `corner` of its side `side`.
pub open spec fn corner_sign(side: int, corner: int) -> (int, int, int) {
    let slow: int = if corner >= 2 {
        1
    } else {
        -1
    };
    let fast: int = if corner % 2 == 1 {
        1
    } else {
        -1
    };
    if side == 0 {
        (-1, slow, fast)
    } else if side == 1 {
        (slow, -1, fast)
    } else if side == 2 {
        (fast, slow, -1)
    } else if side == 3 {
        (1, slow, fast)
    } else if side == 4 {
        (slow, 1, fast)
    } else {
        (fast, slow, 1)
    }
}

/// The texture coordinates of corner `corner` of a face.
pub open spec fn corner_uv(corner: int) -> Uchar4 {
    if corner < 2 {
        Uchar4 { x: 0, y: 1, z: 0, w: 0 }
    } else {
        Uchar4 { x: 1, y: 0, z: 0, w: 0 }
    }
}

/// The light of every vertex: full on each channel.
pub open spec fn full_light() -> Uchar4 {
    Uchar4 { x: 1, y: 1, z: 1, w: 0 }
}

/// `half` taken in the direction of `sign`.
pub open spec fn lean(sign: int, half: int) -> int {
    if sign < 0 {
        -half
    } else {
        half
    }
}

/// Corner `corner` of side `side` of the cube whose centre is `centre`, in
/// whole voxels, and whose faces lie `half` lattice units from it.
pub open spec fn face_vertex(centre: (int, int, int), half: int, side: int, corner: int) -> Vertex {
    let sign = corner_sign(side, corner);
    Vertex {
        position: Long4 {
            x: (2 * centre.0 + lean(sign.0, half)) as i64,
            y: (2 * centre.1 + lean(sign.1, half)) as i64,
            z: (2 * centre.2 + lean(sign.2, half)) as i64,
            w: 0,
        },
        uv: corner_uv(corner),
        light: full_light(),
    }
}

/// Triangle `which` (0 or 1) of a face of side `side` whose four vertices
/// start at index `first`.
pub open spec fn face_triangle(side: int, first: int, which: int) -> Uint4 {
    Uint4 {
        x: first as u32,
        y: (first + 1 + which) as u32,
        z: (first + 3) as u32,
        w: packed_word(side_texture(side), side_normal(side)),
    }
}

/// The four vertices of one face.
pub open spec fn quad_vertices(centre: (int, int, int), half: int, side: int) -> Seq<Vertex> {
    seq![
        face_vertex(centre, half, side, 0),
        face_vertex(centre, half, side, 1),
        face_vertex(centre, half, side, 2),
        face_vertex(centre, half, side, 3),
    ]
}

/// The two triangles of one face.
pub open spec fn quad_triangles(side: int, first: int) -> Seq<Uint4> {
    seq![face_triangle(side, first, 0), face_triangle(side, first, 1)]
}

/// The entry of the normal table that side `side` faces along.
pub fn normal_of_side(side: usize) -> (normal: u32)
    requires
        side < SIDES,
    ensures
        normal == side_normal(side as int),
        normal < SIDES,
{
    if side == 0 {
        3
    } else if side == 1 {
        1
    } else if side == 2 {
        5
    } else if side == 3 {
        2
    } else if side == 4 {
        0
    } else {
        4
    }
}

/// The texture row of side `side`.
pub fn texture_of_side(side: usize) -> (row: u32)
    requires
        side < SIDES,
    ensures
        row == side_texture(side as int),
        row <= 2,
{
    if side == 4 {
        1
    } else if side == 1 {
        2
    } else {
        0
    }
}

/// One corner of one face.
fn corner_of(cx: i64, cy: i64, cz: i64, half: i64, side: usize, corner: usize) -> (vertex: Vertex)
    requires
        side < SIDES,
        corner < 4,
        -0x1_0000_0000 <= cx <= 0x1_0000_0000,
        -0x1_0000_0000 <= cy <= 0x1_0000_0000,
        -0x1_0000_0000 <= cz <= 0x1_0000_0000,
        0 <= half <= 0x1_0000_0000,
    ensures
        vertex == face_vertex((cx as int, cy as int, cz as int), half as int, side as int, corner as int),
{
    let slow: i64 = if corner >= 2 {
        half
    } else {
        -half
    };
    let fast: i64 = if corner % 2 == 1 {
        half
    } else {
        -half
    };
    let (dx, dy, dz): (i64, i64, i64) = if side == 0 {
        (-half, slow, fast)
    } else if side == 1 {
        (slow, -half, fast)
    } else if side == 2 {
        (fast, slow, -half)
    } else if side == 3 {
        (half, slow, fast)
    } else if side == 4 {
        (slow, half, fast)
    } else {
        (fast, slow, half)
    };
    let uv: Tuple<u8, u8> = if corner < 2 {
        Tuple { first: 0, second: 1 }
    } else {
        Tuple { first: 1, second: 0 }
    };
    Vertex::new(
        Long4::new(2 * cx + dx, 2 * cy + dy, 2 * cz + dz, 0),
        uv,
        Uchar4::new(1, 1, 1, 0),
    )
}

/// Appends side `side` of the cube at `(cx, cy, cz)` to a vertex list and to
/// the triangle list that indexes it.
pub fn push_face(
    vertices: &mut Vec<Vertex>,
    triangles: &mut Vec<Uint4>,
    cx: i64,
    cy: i64,
    cz: i64,
    half: i64,
    side: usize,
)
    requires
        side < SIDES,
        -0x1_0000_0000 <= cx <= 0x1_0000_0000,
        -0x1_0000_0000 <= cy <= 0x1_0000_0000,
        -0x1_0000_0000 <= cz <= 0x1_0000_0000,
        0 <= half <= 0x1_0000_0000,
        old(vertices).len() + 4 <= u32::MAX,
    ensures
        final(vertices)@ == old(vertices)@ + quad_vertices(
            (cx as int, cy as int, cz as int),
            half as int,
            side as int,
        ),
        final(triangles)@ == old(triangles)@ + quad_triangles(
            side as int,
            old(vertices)@.len() as int,
        ),
{
    let first: u32 = vertices.len() as u32;
    vertices.push(corner_of(cx, cy, cz, half, side, 0));
    vertices.push(corner_of(cx, cy, cz, half, side, 1));
    vertices.push(corner_of(cx, cy, cz, half, side, 2));
    vertices.push(corner_of(cx, cy, cz, half, side, 3));
    let row: u32 = texture_of_side(side);
    let normal: u32 = normal_of_side(side);
    triangles.push(Uint4::triangle(first, first + 1, first + 3, row, normal));
    triangles.push(Uint4::triangle(first, first + 2, first + 3, row, normal));
    proof {
        assert(vertices@ =~= old(vertices)@ + quad_vertices(
            (cx as int, cy as int, cz as int),
            half as int,
            side as int,
        ));
        assert(triangles@ =~= old(triangles)@ + quad_triangles(
            side as int,
            old(vertices)@.len() as int,
        ));
    }
}

} // verus!
