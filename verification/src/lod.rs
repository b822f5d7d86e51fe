//! What the mesh of a chunk is at one level of detail.
//!
//! At scale `s` (16, 8, 4, 2 or 1) the chunk is cut into `s` tiles along each
//! axis.  A tile is solid where the mode of its voxels is not 0.  A solid
//! tile shows a face on each side whose neighbour is empty, or lies outside
//! the chunk.  The faces follow each other tile by tile, `x` slowest and `z`
//! fastest, and within a tile in the order of the sides.

use vstd::prelude::*;
use crate::faces::{quad_triangles, quad_vertices, side_step, SIDES};
use crate::geometry::{Int4, Uint4, Vertex};
use crate::region::{
    clip_end, lemma_mode_uniform, lemma_uniform_box, mode_of, region_blocks, Grid, CHUNK_SIZE,
};

verus! {

/// One face of the mesh: side `side` of tile `(x, y, z)`.
pub struct Face {
    pub x: int,
    pub y: int,
    pub z: int,
    pub side: int,
}

/// The scales that a chunk is meshed at.
pub open spec fn valid_scale(scale: int) -> bool {
    scale == 16 || scale == 8 || scale == 4 || scale == 2 || scale == 1
}

/// Tiles along each axis at resolution `resolution`: 16, 8, 4, 2, 1.
pub open spec fn scale_at(resolution: int) -> int {
    if resolution == 0 {
        16
    } else if resolution == 1 {
        8
    } else if resolution == 2 {
        4
    } else if resolution == 3 {
        2
    } else {
        1
    }
}

/// Voxels along each edge of a tile.
pub open spec fn tile_edge(scale: int) -> int {
    CHUNK_SIZE as int / scale
}

/// The mode of the voxels of tile `(x, y, z)`.
pub open spec fn tile_mode(grid: Grid, scale: int, x: int, y: int, z: int) -> u32 {
    let edge = tile_edge(scale);
    mode_of(region_blocks(grid, (x * edge, y * edge, z * edge), edge), Seq::empty())
}

/// The tile counts as filled.
pub open spec fn tile_solid(grid: Grid, scale: int, x: int, y: int, z: int) -> bool {
    tile_mode(grid, scale, x, y, z) != 0
}

/// The tile lies inside the chunk.
pub open spec fn tile_inside(scale: int, x: int, y: int, z: int) -> bool {
    0 <= x < scale && 0 <= y < scale && 0 <= z < scale
}

/// Nothing solid covers side `side` of tile `(x, y, z)`: the neighbour across
/// it is empty or outside the chunk.
pub open spec fn side_open(grid: Grid, scale: int, x: int, y: int, z: int, side: int) -> bool {
    let step = side_step(side);
    !tile_inside(scale, x + step.0, y + step.1, z + step.2) || !tile_solid(
        grid,
        scale,
        x + step.0,
        y + step.1,
        z + step.2,
    )
}

/// The mesh shows this face.
pub open spec fn face_shows(grid: Grid, scale: int, face: Face) -> bool {
    &&& tile_inside(scale, face.x, face.y, face.z)
    &&& 0 <= face.side < SIDES
    &&& tile_solid(grid, scale, face.x, face.y, face.z)
    &&& side_open(grid, scale, face.x, face.y, face.z, face.side)
}

/// The open sides below `upto` of tile `(x, y, z)`, in order.
pub open spec fn tile_sides(grid: Grid, scale: int, x: int, y: int, z: int, upto: int) -> Seq<Face>
    decreases upto,
{
    if upto <= 0 {
        Seq::empty()
    } else {
        let rest = tile_sides(grid, scale, x, y, z, upto - 1);
        if side_open(grid, scale, x, y, z, upto - 1) {
            rest.push(Face { x, y, z, side: upto - 1 })
        } else {
            rest
        }
    }
}

/// The faces of tile `(x, y, z)`: its open sides if it is solid.
pub open spec fn tile_faces(grid: Grid, scale: int, x: int, y: int, z: int) -> Seq<Face> {
    if tile_solid(grid, scale, x, y, z) {
        tile_sides(grid, scale, x, y, z, SIDES as int)
    } else {
        Seq::empty()
    }
}

/// The faces of the tiles `(x, y, 0..upto)`.
pub open spec fn row_faces(grid: Grid, scale: int, x: int, y: int, upto: int) -> Seq<Face>
    decreases upto,
{
    if upto <= 0 {
        Seq::empty()
    } else {
        row_faces(grid, scale, x, y, upto - 1) + tile_faces(grid, scale, x, y, upto - 1)
    }
}

/// The faces of the rows `(x, 0..upto)`.
pub open spec fn slab_faces(grid: Grid, scale: int, x: int, upto: int) -> Seq<Face>
    decreases upto,
{
    if upto <= 0 {
        Seq::empty()
    } else {
        slab_faces(grid, scale, x, upto - 1) + row_faces(grid, scale, x, upto - 1, scale)
    }
}

/// The faces of the slabs `0..upto`.
pub open spec fn chunk_faces(grid: Grid, scale: int, upto: int) -> Seq<Face>
    decreases upto,
{
    if upto <= 0 {
        Seq::empty()
    } else {
        chunk_faces(grid, scale, upto - 1) + slab_faces(grid, scale, upto - 1, scale)
    }
}

/// The faces of the whole mesh at scale `scale`.
pub open spec fn mesh_faces(grid: Grid, scale: int) -> Seq<Face> {
    chunk_faces(grid, scale, scale)
}

/// The centre, in whole voxels of the world, of the cube that a face of a
/// chunk at `position` is drawn on.
pub open spec fn face_centre(position: Int4, scale: int, face: Face) -> (int, int, int) {
    let edge = tile_edge(scale);
    (position.x + face.x * edge, position.y + face.y * edge, position.z + face.z * edge)
}

/// The vertices of a list of faces: four for each, in order.
pub open spec fn faces_vertices(position: Int4, scale: int, faces: Seq<Face>) -> Seq<Vertex>
    decreases faces.len(),
{
    if faces.len() == 0 {
        Seq::empty()
    } else {
        faces_vertices(position, scale, faces.drop_last()) + quad_vertices(
            face_centre(position, scale, faces.last()),
            tile_edge(scale),
            faces.last().side,
        )
    }
}

/// The triangles of a list of faces whose vertices start at index `base`:
/// two for each, in order.
pub open spec fn faces_triangles(faces: Seq<Face>, base: int) -> Seq<Uint4>
    decreases faces.len(),
{
    if faces.len() == 0 {
        Seq::empty()
    } else {
        faces_triangles(faces.drop_last(), base) + quad_triangles(
            faces.last().side,
            base + 4 * (faces.len() - 1),
        )
    }
}

/// The vertices of the mesh of a chunk at `position`.
pub open spec fn mesh_vertices(grid: Grid, position: Int4, scale: int) -> Seq<Vertex> {
    faces_vertices(position, scale, mesh_faces(grid, scale))
}

/// The triangles of the mesh of a chunk, over vertices that start at `base`.
pub open spec fn mesh_triangles(grid: Grid, scale: int, base: int) -> Seq<Uint4> {
    faces_triangles(mesh_faces(grid, scale), base)
}

/// A list of faces has four vertices and two triangles for each face.
pub proof fn lemma_faces_lengths(position: Int4, scale: int, faces: Seq<Face>, base: int)
    ensures
        faces_vertices(position, scale, faces).len() == 4 * faces.len(),
        faces_triangles(faces, base).len() == 2 * faces.len(),
    decreases faces.len(),
{
    if faces.len() > 0 {
        lemma_faces_lengths(position, scale, faces.drop_last(), base);
    }
}

/// The vertices of two lists of faces, one after the other.
pub proof fn lemma_faces_vertices_add(position: Int4, scale: int, a: Seq<Face>, b: Seq<Face>)
    ensures
        faces_vertices(position, scale, a + b) == faces_vertices(position, scale, a)
            + faces_vertices(position, scale, b),
    decreases b.len(),
{
    if b.len() == 0 {
        assert(a + b =~= a);
        assert(faces_vertices(position, scale, a) + faces_vertices(position, scale, b)
            =~= faces_vertices(position, scale, a));
    } else {
        lemma_faces_vertices_add(position, scale, a, b.drop_last());
        assert((a + b).drop_last() =~= a + b.drop_last());
        assert((a + b).last() == b.last());
        assert(faces_vertices(position, scale, a + b) =~= faces_vertices(position, scale, a)
            + faces_vertices(position, scale, b));
    }
}

/// The triangles of two lists of faces, one after the other.
pub proof fn lemma_faces_triangles_add(a: Seq<Face>, b: Seq<Face>, base: int)
    ensures
        faces_triangles(a + b, base) == faces_triangles(a, base) + faces_triangles(
            b,
            base + 4 * a.len(),
        ),
    decreases b.len(),
{
    if b.len() == 0 {
        assert(a + b =~= a);
        assert(faces_triangles(a, base) + faces_triangles(b, base + 4 * a.len())
            =~= faces_triangles(a, base));
    } else {
        lemma_faces_triangles_add(a, b.drop_last(), base);
        assert((a + b).drop_last() =~= a + b.drop_last());
        assert((a + b).last() == b.last());
        assert(faces_triangles(a + b, base) =~= faces_triangles(a, base) + faces_triangles(
            b,
            base + 4 * a.len(),
        ));
    }
}

/// A tile has at most one face per side.
pub proof fn lemma_tile_sides_len(grid: Grid, scale: int, x: int, y: int, z: int, upto: int)
    requires
        0 <= upto,
    ensures
        tile_sides(grid, scale, x, y, z, upto).len() <= upto,
    decreases upto,
{
    if upto > 0 {
        lemma_tile_sides_len(grid, scale, x, y, z, upto - 1);
    }
}

/// A row of tiles has at most six faces per tile.
pub proof fn lemma_row_faces_len(grid: Grid, scale: int, x: int, y: int, upto: int)
    requires
        0 <= upto,
    ensures
        row_faces(grid, scale, x, y, upto).len() <= 6 * upto,
    decreases upto,
{
    if upto > 0 {
        lemma_row_faces_len(grid, scale, x, y, upto - 1);
        lemma_tile_sides_len(grid, scale, x, y, upto - 1, SIDES as int);
    }
}

/// A slab of rows has at most 96 faces per row.
pub proof fn lemma_slab_faces_len(grid: Grid, scale: int, x: int, upto: int)
    requires
        0 <= upto,
        0 <= scale <= 16,
    ensures
        slab_faces(grid, scale, x, upto).len() <= 96 * upto,
    decreases upto,
{
    if upto > 0 {
        lemma_slab_faces_len(grid, scale, x, upto - 1);
        lemma_row_faces_len(grid, scale, x, upto - 1, scale);
    }
}

/// The slabs of a chunk have at most 1536 faces each.
pub proof fn lemma_chunk_faces_len(grid: Grid, scale: int, upto: int)
    requires
        0 <= upto,
        0 <= scale <= 16,
    ensures
        chunk_faces(grid, scale, upto).len() <= 1536 * upto,
    decreases upto,
{
    if upto > 0 {
        lemma_chunk_faces_len(grid, scale, upto - 1);
        lemma_slab_faces_len(grid, scale, upto - 1, scale);
    }
}

/// The tiles of a chunk tile it: a tile inside the chunk starts inside it and
/// ends inside it.
pub proof fn lemma_tile_origin(scale: int, x: int)
    requires
        valid_scale(scale),
        0 <= x < scale,
    ensures
        0 <= x * tile_edge(scale),
        x * tile_edge(scale) + tile_edge(scale) <= CHUNK_SIZE,
        1 <= tile_edge(scale) <= 16,
        tile_edge(scale) * scale == 16,
{
    let edge = tile_edge(scale);
    if scale == 16 {
        assert(edge == 1);
        assert(x * edge == x) by (nonlinear_arith)
            requires
                edge == 1,
        ;
    } else if scale == 8 {
        assert(edge == 2);
        assert(x * edge == 2 * x) by (nonlinear_arith)
            requires
                edge == 2,
        ;
    } else if scale == 4 {
        assert(edge == 4);
        assert(x * edge == 4 * x) by (nonlinear_arith)
            requires
                edge == 4,
        ;
    } else if scale == 2 {
        assert(edge == 8);
        assert(x * edge == 8 * x) by (nonlinear_arith)
            requires
                edge == 8,
        ;
    } else {
        assert(edge == 16);
        assert(x * edge == 16 * x) by (nonlinear_arith)
            requires
                edge == 16,
        ;
    }
}


/// The grid holds `id` in every voxel.
pub open spec fn filled_with(grid: Grid, id: u32) -> bool {
    forall|x: int, y: int, z: int|
        0 <= x < CHUNK_SIZE && 0 <= y < CHUNK_SIZE && 0 <= z < CHUNK_SIZE ==> #[trigger] grid[x][y][z]
            == id
}

/// In a grid that holds one id throughout, every tile has that id for its
/// mode.
pub proof fn lemma_filled_tile_mode(grid: Grid, scale: int, x: int, y: int, z: int, id: u32)
    requires
        valid_scale(scale),
        tile_inside(scale, x, y, z),
        filled_with(grid, id),
    ensures
        tile_mode(grid, scale, x, y, z) == id,
{
    let edge = tile_edge(scale);
    lemma_tile_origin(scale, x);
    lemma_tile_origin(scale, y);
    lemma_tile_origin(scale, z);
    let blocks = region_blocks(grid, (x * edge, y * edge, z * edge), edge);
    lemma_uniform_box(
        grid,
        x * edge,
        clip_end(x * edge, edge),
        y * edge,
        clip_end(y * edge, edge),
        z * edge,
        clip_end(z * edge, edge),
        id,
    );
    lemma_mode_uniform(blocks, Seq::empty(), id);
}

/// A face is among two lists in a row exactly if it is in one of them.
proof fn lemma_listed_add(a: Seq<Face>, b: Seq<Face>, face: Face)
    ensures
        (a + b).contains(face) <==> a.contains(face) || b.contains(face),
{
    if a.contains(face) {
        let i = choose|i: int| 0 <= i < a.len() && a[i] == face;
        assert((a + b)[i] == face);
    }
    if b.contains(face) {
        let i = choose|i: int| 0 <= i < b.len() && b[i] == face;
        assert((a + b)[a.len() + i] == face);
    }
    if (a + b).contains(face) {
        let i = choose|i: int| 0 <= i < (a + b).len() && (a + b)[i] == face;
        if i < a.len() {
            assert(a[i] == face);
        } else {
            assert(b[i - a.len()] == face);
        }
    }
}

proof fn lemma_tile_sides_listed(
    grid: Grid,
    scale: int,
    x: int,
    y: int,
    z: int,
    upto: int,
    face: Face,
)
    ensures
        tile_sides(grid, scale, x, y, z, upto).contains(face) <==> face.x == x && face.y == y
            && face.z == z && 0 <= face.side < upto && side_open(grid, scale, x, y, z, face.side),
    decreases upto,
{
    if upto > 0 {
        lemma_tile_sides_listed(grid, scale, x, y, z, upto - 1, face);
        let rest = tile_sides(grid, scale, x, y, z, upto - 1);
        let last = Face { x, y, z, side: upto - 1 };
        if side_open(grid, scale, x, y, z, upto - 1) {
            assert(rest.push(last) =~= rest + seq![last]);
            lemma_listed_add(rest, seq![last], face);
            if face == last {
                assert(seq![last][0] == face);
            }
        }
    }
}

proof fn lemma_row_faces_listed(grid: Grid, scale: int, x: int, y: int, upto: int, face: Face)
    ensures
        row_faces(grid, scale, x, y, upto).contains(face) <==> face.x == x && face.y == y && 0
            <= face.z < upto && 0 <= face.side < SIDES && tile_solid(grid, scale, x, y, face.z)
            && side_open(grid, scale, x, y, face.z, face.side),
    decreases upto,
{
    if upto > 0 {
        lemma_row_faces_listed(grid, scale, x, y, upto - 1, face);
        lemma_tile_sides_listed(grid, scale, x, y, upto - 1, SIDES as int, face);
        lemma_listed_add(
            row_faces(grid, scale, x, y, upto - 1),
            tile_faces(grid, scale, x, y, upto - 1),
            face,
        );
    }
}

proof fn lemma_slab_faces_listed(grid: Grid, scale: int, x: int, upto: int, face: Face)
    ensures
        slab_faces(grid, scale, x, upto).contains(face) <==> face.x == x && 0 <= face.y < upto && 0
            <= face.z < scale && 0 <= face.side < SIDES && tile_solid(
            grid,
            scale,
            x,
            face.y,
            face.z,
        ) && side_open(grid, scale, x, face.y, face.z, face.side),
    decreases upto,
{
    if upto > 0 {
        lemma_slab_faces_listed(grid, scale, x, upto - 1, face);
        lemma_row_faces_listed(grid, scale, x, upto - 1, scale, face);
        lemma_listed_add(
            slab_faces(grid, scale, x, upto - 1),
            row_faces(grid, scale, x, upto - 1, scale),
            face,
        );
    }
}

proof fn lemma_chunk_faces_listed(grid: Grid, scale: int, upto: int, face: Face)
    ensures
        chunk_faces(grid, scale, upto).contains(face) <==> 0 <= face.x < upto && 0 <= face.y
            < scale && 0 <= face.z < scale && 0 <= face.side < SIDES && tile_solid(
            grid,
            scale,
            face.x,
            face.y,
            face.z,
        ) && side_open(grid, scale, face.x, face.y, face.z, face.side),
    decreases upto,
{
    if upto > 0 {
        lemma_chunk_faces_listed(grid, scale, upto - 1, face);
        lemma_slab_faces_listed(grid, scale, upto - 1, scale, face);
        lemma_listed_add(
            chunk_faces(grid, scale, upto - 1),
            slab_faces(grid, scale, upto - 1, scale),
            face,
        );
    }
}

/// The mesh lists a face exactly if it shows: the tile lies inside the
/// chunk and is solid, and across the side lies the outside of the chunk or
/// an empty tile.
pub proof fn lemma_mesh_lists_what_shows(grid: Grid, scale: int, face: Face)
    ensures
        mesh_faces(grid, scale).contains(face) <==> face_shows(grid, scale, face),
{
    lemma_chunk_faces_listed(grid, scale, scale, face);
}

/// A chunk of empty voxels has no mesh at any scale: no face, no vertex, no
/// triangle.
pub proof fn lemma_empty_grid_has_no_mesh(grid: Grid, position: Int4, scale: int, base: int)
    requires
        valid_scale(scale),
        filled_with(grid, 0),
    ensures
        mesh_faces(grid, scale).len() == 0,
        mesh_vertices(grid, position, scale).len() == 0,
        mesh_triangles(grid, scale, base).len() == 0,
{
    let faces = mesh_faces(grid, scale);
    if faces.len() > 0 {
        let face = faces[0];
        assert(faces.contains(face));
        lemma_mesh_lists_what_shows(grid, scale, face);
        lemma_filled_tile_mode(grid, scale, face.x, face.y, face.z, 0);
    }
    lemma_faces_lengths(position, scale, faces, base);
}

/// In a chunk filled with one id that is not 0, the mesh at any scale lists
/// exactly the faces on the boundary of the chunk: the sides of tiles whose
/// neighbour across the side lies outside.  No face between two tiles shows.
pub proof fn lemma_filled_grid_shows_its_boundary(grid: Grid, scale: int, id: u32, face: Face)
    requires
        valid_scale(scale),
        id != 0,
        filled_with(grid, id),
    ensures
        mesh_faces(grid, scale).contains(face) <==> tile_inside(scale, face.x, face.y, face.z)
            && 0 <= face.side < SIDES && !tile_inside(
            scale,
            face.x + side_step(face.side).0,
            face.y + side_step(face.side).1,
            face.z + side_step(face.side).2,
        ),
{
    lemma_mesh_lists_what_shows(grid, scale, face);
    if tile_inside(scale, face.x, face.y, face.z) {
        lemma_filled_tile_mode(grid, scale, face.x, face.y, face.z, id);
        let step = side_step(face.side);
        if tile_inside(scale, face.x + step.0, face.y + step.1, face.z + step.2) {
            lemma_filled_tile_mode(
                grid,
                scale,
                face.x + step.0,
                face.y + step.1,
                face.z + step.2,
                id,
            );
        }
    }
}

} // verus!
