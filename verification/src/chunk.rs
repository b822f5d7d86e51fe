//! A chunk of voxels and its cached meshes.

use vstd::prelude::*;
use crate::bins::indices_within;
use crate::error::MeshError;
use crate::faces::{push_face, quad_triangles, quad_vertices, SIDES};
use crate::geometry::{Int4, Uint4, Vertex};
use crate::lod::{
    chunk_faces, faces_triangles, faces_vertices, lemma_chunk_faces_len, lemma_faces_lengths,
    lemma_faces_triangles_add, lemma_faces_vertices_add, lemma_row_faces_len,
    lemma_slab_faces_len, lemma_tile_origin, lemma_tile_sides_len, mesh_faces, mesh_triangles,
    mesh_vertices, row_faces, scale_at, side_open, slab_faces, tile_edge, tile_inside,
    tile_sides, tile_solid, valid_scale, Face,
};
use crate::meshing::{rebased, Mesh, MeshView};
use crate::region::{gather_region, mode_of, most_common, region_blocks, Grid, CHUNK_SIZE};

verus! {

/// The number of levels of detail.
pub const LEVELS: usize = 5;

/// Tiles along each axis at resolution `resolution`.
pub fn scale_of(resolution: usize) -> (scale: usize)
    requires
        resolution < LEVELS,
    ensures
        scale == scale_at(resolution as int),
        valid_scale(scale as int),
{
    if resolution == 0 {
        16
    } else if resolution == 1 {
        8
    } else if resolution == 2 {
        4
    } else if resolution == 3 {
        2
    } else {
        1
    }
}

/// Whether tile `(x, y, z)` counts as filled.
fn tile_is_solid(grid: &Grid, scale: usize, x: usize, y: usize, z: usize) -> (solid: bool)
    requires
        valid_scale(scale as int),
        tile_inside(scale as int, x as int, y as int, z as int),
    ensures
        solid == tile_solid(*grid, scale as int, x as int, y as int, z as int),
{
    proof {
        lemma_tile_origin(scale as int, x as int);
        lemma_tile_origin(scale as int, y as int);
        lemma_tile_origin(scale as int, z as int);
    }
    let edge: usize = CHUNK_SIZE / scale;
    let blocks: Vec<u32> = gather_region(grid, (x * edge, y * edge, z * edge), edge);
    let nothing: Vec<u32> = Vec::new();
    most_common(&blocks, nothing.as_slice()) != 0
}

/// Whether nothing solid covers side `side` of tile `(x, y, z)`.
fn side_is_open(grid: &Grid, scale: usize, x: usize, y: usize, z: usize, side: usize) -> (open:
    bool)
    requires
        valid_scale(scale as int),
        tile_inside(scale as int, x as int, y as int, z as int),
        side < SIDES,
    ensures
        open == side_open(*grid, scale as int, x as int, y as int, z as int, side as int),
{
    if side == 0 {
        x == 0 || !tile_is_solid(grid, scale, x - 1, y, z)
    } else if side == 1 {
        y == 0 || !tile_is_solid(grid, scale, x, y - 1, z)
    } else if side == 2 {
        z == 0 || !tile_is_solid(grid, scale, x, y, z - 1)
    } else if side == 3 {
        x + 1 >= scale || !tile_is_solid(grid, scale, x + 1, y, z)
    } else if side == 4 {
        y + 1 >= scale || !tile_is_solid(grid, scale, x, y + 1, z)
    } else {
        z + 1 >= scale || !tile_is_solid(grid, scale, x, y, z + 1)
    }
}

/// Appends the open sides of tile `(x, y, z)` to a vertex list and to the
/// triangle list that indexes it.
fn emit_tile(
    vertices: &mut Vec<Vertex>,
    triangles: &mut Vec<Uint4>,
    grid: &Grid,
    position: Int4,
    scale: usize,
    x: usize,
    y: usize,
    z: usize,
)
    requires
        valid_scale(scale as int),
        tile_inside(scale as int, x as int, y as int, z as int),
        old(vertices).len() + 24 <= u32::MAX,
    ensures
        final(vertices)@ == old(vertices)@ + faces_vertices(
            position,
            scale as int,
            tile_sides(*grid, scale as int, x as int, y as int, z as int, SIDES as int),
        ),
        final(triangles)@ == old(triangles)@ + faces_triangles(
            tile_sides(*grid, scale as int, x as int, y as int, z as int, SIDES as int),
            old(vertices)@.len() as int,
        ),
{
    proof {
        lemma_tile_origin(scale as int, x as int);
        lemma_tile_origin(scale as int, y as int);
        lemma_tile_origin(scale as int, z as int);
    }
    let edge: usize = CHUNK_SIZE / scale;
    let cx: i64 = position.x as i64 + (x * edge) as i64;
    let cy: i64 = position.y as i64 + (y * edge) as i64;
    let cz: i64 = position.z as i64 + (z * edge) as i64;
    let ghost base = old(vertices)@.len() as int;
    let mut side: usize = 0;
    proof {
        assert(vertices@ =~= old(vertices)@ + faces_vertices(
            position,
            scale as int,
            tile_sides(*grid, scale as int, x as int, y as int, z as int, 0),
        ));
        assert(triangles@ =~= old(triangles)@ + faces_triangles(
            tile_sides(*grid, scale as int, x as int, y as int, z as int, 0),
            base,
        ));
    }
    while side < SIDES
        invariant
            side <= SIDES,
            valid_scale(scale as int),
            tile_inside(scale as int, x as int, y as int, z as int),
            edge == tile_edge(scale as int),
            1 <= edge <= 16,
            cx == position.x + x * edge,
            cy == position.y + y * edge,
            cz == position.z + z * edge,
            0 <= x * edge <= 16,
            0 <= y * edge <= 16,
            0 <= z * edge <= 16,
            base == old(vertices)@.len(),
            base + 24 <= u32::MAX,
            vertices@ == old(vertices)@ + faces_vertices(
                position,
                scale as int,
                tile_sides(*grid, scale as int, x as int, y as int, z as int, side as int),
            ),
            triangles@ == old(triangles)@ + faces_triangles(
                tile_sides(*grid, scale as int, x as int, y as int, z as int, side as int),
                base,
            ),
        decreases SIDES - side,
    {
        let ghost sides = tile_sides(*grid, scale as int, x as int, y as int, z as int, side as int);
        proof {
            lemma_tile_sides_len(*grid, scale as int, x as int, y as int, z as int, side as int);
            lemma_faces_lengths(position, scale as int, sides, base);
        }
        if side_is_open(grid, scale, x, y, z, side) {
            push_face(vertices, triangles, cx, cy, cz, edge as i64, side);
            proof {
                let face = Face { x: x as int, y: y as int, z: z as int, side: side as int };
                let more = sides.push(face);
                assert(more.drop_last() =~= sides);
                assert(vertices@ =~= old(vertices)@ + faces_vertices(position, scale as int, more));
                assert(triangles@ =~= old(triangles)@ + faces_triangles(more, base));
            }
        }
        side += 1;
    }
}

/// Meshes a grid at scale `scale`.
fn build_mesh(grid: &Grid, position: Int4, scale: usize) -> (mesh: (Vec<Vertex>, Vec<Uint4>))
    requires
        valid_scale(scale as int),
    ensures
        mesh.0@ == mesh_vertices(*grid, position, scale as int),
        mesh.1@ == mesh_triangles(*grid, scale as int, 0),
{
    let mut vertices: Vec<Vertex> = Vec::new();
    let mut triangles: Vec<Uint4> = Vec::new();
    let mut x: usize = 0;
    while x < scale
        invariant
            x <= scale,
            valid_scale(scale as int),
            vertices@ == faces_vertices(
                position,
                scale as int,
                chunk_faces(*grid, scale as int, x as int),
            ),
            triangles@ == faces_triangles(chunk_faces(*grid, scale as int, x as int), 0),
        decreases scale - x,
    {
        let ghost slabs = chunk_faces(*grid, scale as int, x as int);
        let mut y: usize = 0;
        proof {
            assert(slabs + slab_faces(*grid, scale as int, x as int, 0) =~= slabs);
        }
        while y < scale
            invariant
                x < scale,
                y <= scale,
                valid_scale(scale as int),
                slabs == chunk_faces(*grid, scale as int, x as int),
                vertices@ == faces_vertices(
                    position,
                    scale as int,
                    slabs + slab_faces(*grid, scale as int, x as int, y as int),
                ),
                triangles@ == faces_triangles(
                    slabs + slab_faces(*grid, scale as int, x as int, y as int),
                    0,
                ),
            decreases scale - y,
        {
            let ghost rows = slabs + slab_faces(*grid, scale as int, x as int, y as int);
            let mut z: usize = 0;
            proof {
                assert(rows + row_faces(*grid, scale as int, x as int, y as int, 0) =~= rows);
            }
            while z < scale
                invariant
                    x < scale,
                    y < scale,
                    z <= scale,
                    valid_scale(scale as int),
                    slabs == chunk_faces(*grid, scale as int, x as int),
                    rows == slabs + slab_faces(*grid, scale as int, x as int, y as int),
                    vertices@ == faces_vertices(
                        position,
                        scale as int,
                        rows + row_faces(*grid, scale as int, x as int, y as int, z as int),
                    ),
                    triangles@ == faces_triangles(
                        rows + row_faces(*grid, scale as int, x as int, y as int, z as int),
                        0,
                    ),
                decreases scale - z,
            {
                let ghost tiles = rows + row_faces(*grid, scale as int, x as int, y as int, z as int);
                let ghost sides = tile_sides(
                    *grid,
                    scale as int,
                    x as int,
                    y as int,
                    z as int,
                    SIDES as int,
                );
                proof {
                    lemma_chunk_faces_len(*grid, scale as int, x as int);
                    lemma_slab_faces_len(*grid, scale as int, x as int, y as int);
                    lemma_row_faces_len(*grid, scale as int, x as int, y as int, z as int);
                    lemma_faces_lengths(position, scale as int, tiles, 0);
                }
                if tile_is_solid(grid, scale, x, y, z) {
                    emit_tile(&mut vertices, &mut triangles, grid, position, scale, x, y, z);
                    proof {
                        lemma_faces_vertices_add(position, scale as int, tiles, sides);
                        lemma_faces_triangles_add(tiles, sides, 0);
                        assert(tiles + sides =~= rows + row_faces(
                            *grid,
                            scale as int,
                            x as int,
                            y as int,
                            z + 1,
                        ));
                    }
                } else {
                    proof {
                        assert(tiles =~= rows + row_faces(
                            *grid,
                            scale as int,
                            x as int,
                            y as int,
                            z + 1,
                        ));
                    }
                }
                z += 1;
            }
            proof {
                assert(rows + row_faces(*grid, scale as int, x as int, y as int, scale as int)
                    =~= slabs + slab_faces(*grid, scale as int, x as int, y + 1));
            }
            y += 1;
        }
        proof {
            assert(slabs + slab_faces(*grid, scale as int, x as int, scale as int) =~= chunk_faces(
                *grid,
                scale as int,
                x + 1,
            ));
        }
        x += 1;
    }
    (vertices, triangles)
}

/// The triangles of a list of faces index the vertices of the list, and
/// moving their indices up by `base` gives the triangles over vertices that
/// start at `base`.
pub proof fn lemma_faces_triangles_rebased(faces: Seq<Face>, base: int)
    requires
        0 <= base,
        base + 4 * faces.len() <= u32::MAX,
    ensures
        indices_within(faces_triangles(faces, 0), 4 * (faces.len() as int)),
        rebased(faces_triangles(faces, 0), base) == faces_triangles(faces, base),
    decreases faces.len(),
{
    if faces.len() == 0 {
        assert(rebased(faces_triangles(faces, 0), base) =~= faces_triangles(faces, base));
    } else {
        let rest = faces.drop_last();
        let first = 4 * (faces.len() - 1);
        lemma_faces_triangles_rebased(rest, base);
        lemma_faces_lengths(Int4 { x: 0, y: 0, z: 0, w: 0 }, 1, rest, 0);
        lemma_faces_lengths(Int4 { x: 0, y: 0, z: 0, w: 0 }, 1, rest, base);
        let local = faces_triangles(faces, 0);
        let quad = quad_triangles(faces.last().side, first);
        assert(local == faces_triangles(rest, 0) + quad);
        assert forall|t: int| 0 <= t < local.len() implies (#[trigger] local[t]).x < 4 * faces.len()
            && local[t].y < 4 * faces.len() && local[t].z < 4 * faces.len() by {
            if t < faces_triangles(rest, 0).len() {
                assert(local[t] == faces_triangles(rest, 0)[t]);
            } else {
                assert(local[t] == quad[t - faces_triangles(rest, 0).len()]);
            }
        }
        assert(rebased(local, base) =~= faces_triangles(faces, base)) by {
            let moved = rebased(local, base);
            let goal = faces_triangles(faces, base);
            assert(goal == faces_triangles(rest, base) + quad_triangles(
                faces.last().side,
                base + first,
            ));
            assert forall|t: int| 0 <= t < moved.len() implies moved[t] == goal[t] by {
                if t < faces_triangles(rest, 0).len() {
                    assert(local[t] == faces_triangles(rest, 0)[t]);
                    assert(rebased(faces_triangles(rest, 0), base)[t] == goal[t]);
                } else {
                    let k = t - faces_triangles(rest, 0).len();
                    assert(local[t] == quad[k]);
                    assert(goal[t] == quad_triangles(faces.last().side, base + first)[k]);
                }
            }
        }
    }
}

/// What a `Chunk` holds.
pub struct ChunkView {
    pub position: Int4,
    pub tile_data: Grid,
    pub mesh_vert: Seq<Seq<Vertex>>,
    pub mesh_tris: Seq<Seq<Uint4>>,
    pub cached: Seq<bool>,
    pub chunk_index: usize,
    pub mutated: bool,
}

impl ChunkView {
    /// Slot `resolution` holds the mesh of the grid at that resolution.
    pub open spec fn slot_current(self, resolution: int) -> bool {
        &&& self.mesh_vert[resolution] == mesh_vertices(
            self.tile_data,
            self.position,
            scale_at(resolution),
        )
        &&& self.mesh_tris[resolution] == mesh_triangles(self.tile_data, scale_at(resolution), 0)
    }

    /// The chunk once level `resolution` is brought up to date: a dirty
    /// chunk forgets every cached mesh and comes out clean, and the slot of
    /// the level holds the mesh of the grid and is marked as cached.
    pub open spec fn remeshed(self, resolution: int) -> ChunkView {
        let kept = if self.mutated {
            Seq::new(LEVELS as nat, |r: int| false)
        } else {
            self.cached
        };
        ChunkView {
            mesh_vert: self.mesh_vert.update(
                resolution,
                mesh_vertices(self.tile_data, self.position, scale_at(resolution)),
            ),
            mesh_tris: self.mesh_tris.update(
                resolution,
                mesh_triangles(self.tile_data, scale_at(resolution), 0),
            ),
            cached: kept.update(resolution, true),
            mutated: false,
            ..self
        }
    }

    /// The invariant of a chunk: there is a slot for each level, and unless
    /// the chunk is dirty, each slot marked as cached holds the mesh of the
    /// grid.
    pub open spec fn wf(self) -> bool {
        &&& self.mesh_vert.len() == LEVELS
        &&& self.mesh_tris.len() == LEVELS
        &&& self.cached.len() == LEVELS
        &&& !self.mutated ==> forall|resolution: int|
            0 <= resolution < LEVELS && #[trigger] self.cached[resolution] ==> self.slot_current(
                resolution,
            )
    }
}

/// A cube of 16 voxels along each edge, with one cached mesh for each level
/// of detail.
pub struct Chunk {
    position: Int4,
    tile_data: Grid,
    mesh_vert: [Vec<Vertex>; 5],
    mesh_tris: [Vec<Uint4>; 5],
    cached: [bool; 5],
    chunk_index: usize,
    mutated: bool,
}

impl View for Chunk {
    type V = ChunkView;

    closed spec fn view(&self) -> ChunkView {
        ChunkView {
            position: self.position,
            tile_data: self.tile_data,
            mesh_vert: Seq::new(LEVELS as nat, |r: int| self.mesh_vert[r]@),
            mesh_tris: Seq::new(LEVELS as nat, |r: int| self.mesh_tris[r]@),
            cached: Seq::new(LEVELS as nat, |r: int| self.cached[r]),
            chunk_index: self.chunk_index,
            mutated: self.mutated,
        }
    }
}

impl Chunk {
    /// The invariant of a chunk.
    pub open spec fn wf(&self) -> bool {
        self@.wf()
    }

    /// An empty chunk at `position`, in whole voxels, with no mesh cached.
    pub fn new(position: Int4, chunk_index: usize) -> (chunk: Self)
        ensures
            chunk.wf(),
            chunk@.position == position,
            chunk@.chunk_index == chunk_index,
            !chunk@.mutated,
            forall|x: int, y: int, z: int|
                0 <= x < CHUNK_SIZE && 0 <= y < CHUNK_SIZE && 0 <= z < CHUNK_SIZE
                    ==> #[trigger] chunk@.tile_data[x][y][z] == 0,
            forall|r: int|
                0 <= r < LEVELS ==> !(#[trigger] chunk@.cached[r]) && chunk@.mesh_vert[r].len() == 0
                    && chunk@.mesh_tris[r].len() == 0,
    {
        Chunk {
            position,
            tile_data: [[[0u32; 16]; 16]; 16],
            mesh_tris: [Vec::new(), Vec::new(), Vec::new(), Vec::new(), Vec::new()],
            mesh_vert: [Vec::new(), Vec::new(), Vec::new(), Vec::new(), Vec::new()],
            cached: [false; 5],
            chunk_index,
            mutated: false,
        }
    }

    /// The origin of the chunk in the world, in whole voxels.
    pub fn position(&self) -> (position: Int4)
        ensures
            position == self@.position,
    {
        self.position
    }

    /// The index of the chunk in the scene buffer.
    pub fn chunk_index(&self) -> (chunk_index: usize)
        ensures
            chunk_index == self@.chunk_index,
    {
        self.chunk_index
    }

    /// Whether a voxel was written since the chunk was last meshed.
    pub fn is_mutated(&self) -> (dirty: bool)
        ensures
            dirty == self@.mutated,
    {
        self.mutated
    }

    /// The block id of voxel `(x, y, z)`.
    pub fn block(&self, x: usize, y: usize, z: usize) -> (id: u32)
        requires
            x < CHUNK_SIZE,
            y < CHUNK_SIZE,
            z < CHUNK_SIZE,
        ensures
            id == self@.tile_data[x as int][y as int][z as int],
    {
        self.tile_data[x][y][z]
    }

    /// Writes voxel `(x, y, z)` and marks the chunk dirty.
    pub fn set_block(&mut self, x: usize, y: usize, z: usize, id: u32)
        requires
            old(self).wf(),
            x < CHUNK_SIZE,
            y < CHUNK_SIZE,
            z < CHUNK_SIZE,
        ensures
            final(self).wf(),
            final(self)@.mutated,
            final(self)@.tile_data[x as int][y as int][z as int] == id,
            forall|a: int, b: int, c: int|
                0 <= a < CHUNK_SIZE && 0 <= b < CHUNK_SIZE && 0 <= c < CHUNK_SIZE && !(a == x && b
                    == y && c == z) ==> #[trigger] final(self)@.tile_data[a][b][c]
                    == old(self)@.tile_data[a][b][c],
            final(self)@.position == old(self)@.position,
            final(self)@.chunk_index == old(self)@.chunk_index,
            final(self)@.mesh_vert == old(self)@.mesh_vert,
            final(self)@.mesh_tris == old(self)@.mesh_tris,
            final(self)@.cached == old(self)@.cached,
    {
        self.tile_data[x][y][z] = id;
        self.mutated = true;
        proof {
            assert(self@.mesh_vert =~= old(self)@.mesh_vert);
            assert(self@.mesh_tris =~= old(self)@.mesh_tris);
            assert(self@.cached =~= old(self)@.cached);
        }
    }

    /// The cached vertices of level `resolution`.
    pub fn mesh_vert(&self, resolution: usize) -> (vertices: &Vec<Vertex>)
        requires
            resolution < LEVELS,
        ensures
            vertices@ == self@.mesh_vert[resolution as int],
    {
        &self.mesh_vert[resolution]
    }

    /// The cached triangles of level `resolution`.
    pub fn mesh_tris(&self, resolution: usize) -> (triangles: &Vec<Uint4>)
        requires
            resolution < LEVELS,
        ensures
            triangles@ == self@.mesh_tris[resolution as int],
    {
        &self.mesh_tris[resolution]
    }

    /// The most frequent block id in the cube of edge `tile_size` at `start`,
    /// as far as it lies inside the chunk, ids in `ignored` left out: of
    /// equally frequent ids the lowest, and 0 where no id is left.
    pub fn most_common_block_in_region(
        &self,
        start: (usize, usize, usize),
        tile_size: usize,
        ignored: &[u32],
    ) -> (mode: u32)
        ensures
            mode == mode_of(
                region_blocks(
                    self@.tile_data,
                    (start.0 as int, start.1 as int, start.2 as int),
                    tile_size as int,
                ),
                ignored@,
            ),
    {
        let blocks: Vec<u32> = gather_region(&self.tile_data, start, tile_size);
        most_common(&blocks, ignored)
    }
}

impl Chunk {
    /// Appends the open sides of tile `(x, y, z)` at scale `scale` to the
    /// cached mesh of level `resolution`, whether or not the tile is solid.
    /// The slot no longer stands for the mesh of the grid and is marked so.
    pub fn remesh_tile(&mut self, x: usize, y: usize, z: usize, scale: usize, resolution: usize)
        requires
            old(self).wf(),
            valid_scale(scale as int),
            tile_inside(scale as int, x as int, y as int, z as int),
            resolution < LEVELS,
            old(self)@.mesh_vert[resolution as int].len() + 24 <= u32::MAX,
        ensures
            final(self).wf(),
            final(self)@ == (ChunkView {
                mesh_vert: old(self)@.mesh_vert.update(
                    resolution as int,
                    old(self)@.mesh_vert[resolution as int] + faces_vertices(
                        old(self)@.position,
                        scale as int,
                        tile_sides(
                            old(self)@.tile_data,
                            scale as int,
                            x as int,
                            y as int,
                            z as int,
                            SIDES as int,
                        ),
                    ),
                ),
                mesh_tris: old(self)@.mesh_tris.update(
                    resolution as int,
                    old(self)@.mesh_tris[resolution as int] + faces_triangles(
                        tile_sides(
                            old(self)@.tile_data,
                            scale as int,
                            x as int,
                            y as int,
                            z as int,
                            SIDES as int,
                        ),
                        old(self)@.mesh_vert[resolution as int].len() as int,
                    ),
                ),
                cached: old(self)@.cached.update(resolution as int, false),
                ..old(self)@
            }),
    {
        emit_tile(
            &mut self.mesh_vert[resolution],
            &mut self.mesh_tris[resolution],
            &self.tile_data,
            self.position,
            scale,
            x,
            y,
            z,
        );
        self.cached[resolution] = false;
        proof {
            let goal = ChunkView {
                mesh_vert: old(self)@.mesh_vert.update(
                    resolution as int,
                    old(self)@.mesh_vert[resolution as int] + faces_vertices(
                        old(self)@.position,
                        scale as int,
                        tile_sides(
                            old(self)@.tile_data,
                            scale as int,
                            x as int,
                            y as int,
                            z as int,
                            SIDES as int,
                        ),
                    ),
                ),
                mesh_tris: old(self)@.mesh_tris.update(
                    resolution as int,
                    old(self)@.mesh_tris[resolution as int] + faces_triangles(
                        tile_sides(
                            old(self)@.tile_data,
                            scale as int,
                            x as int,
                            y as int,
                            z as int,
                            SIDES as int,
                        ),
                        old(self)@.mesh_vert[resolution as int].len() as int,
                    ),
                ),
                cached: old(self)@.cached.update(resolution as int, false),
                ..old(self)@
            };
            assert(self@.mesh_vert =~= goal.mesh_vert);
            assert(self@.mesh_tris =~= goal.mesh_tris);
            assert(self@.cached =~= goal.cached);
        }
    }

    /// Brings the cached mesh of level `resolution` up to date and appends
    /// it to the scene buffer as geometry of this chunk in priority band
    /// `chunk_priority`.  A dirty chunk drops every cached mesh first and
    /// comes out clean; a mesh is built only where none is cached.  The
    /// buffer takes the whole mesh, or nothing where it refuses.
    pub fn remesh_chunk(&mut self, mesh: &mut Mesh, chunk_priority: usize, resolution: usize) -> (done:
        Result<(), MeshError>)
        requires
            old(self).wf(),
            old(mesh).wf(),
            resolution < LEVELS,
        ensures
            final(self).wf(),
            final(mesh).wf(),
            final(self)@ == old(self)@.remeshed(resolution as int),
            final(self)@.slot_current(resolution as int),
            ({
                let vertices = mesh_vertices(
                    old(self)@.tile_data,
                    old(self)@.position,
                    scale_at(resolution as int),
                );
                let local = mesh_triangles(old(self)@.tile_data, scale_at(resolution as int), 0);
                match done {
                    Ok(()) => old(mesh)@.geometry_refusal(
                        vertices.len() as int,
                        local,
                        old(self)@.chunk_index,
                    ) is None && final(mesh)@ == old(mesh)@.with_vertices(
                        vertices,
                        chunk_priority,
                        old(self)@.chunk_index,
                    ).with_triangles(
                        mesh_triangles(
                            old(self)@.tile_data,
                            scale_at(resolution as int),
                            old(mesh)@.vertices_original.len() as int,
                        ),
                        old(self)@.chunk_index,
                    ),
                    Err(e) => old(mesh)@.geometry_refusal(
                        vertices.len() as int,
                        local,
                        old(self)@.chunk_index,
                    ) == Some(e) && e != MeshError::MalformedTriangle && final(mesh)@ == old(mesh)@,
                }
            }),
    {
        let scale: usize = scale_of(resolution);
        if self.mutated {
            self.cached = [false; 5];
            self.mutated = false;
        }
        proof {
            assert forall|r: int| 0 <= r < LEVELS && #[trigger] self@.cached[r] implies self@.slot_current(
                r,
            ) by {
                assert(old(self)@.cached[r]);
                assert(self@.mesh_vert[r] == old(self)@.mesh_vert[r]);
                assert(self@.mesh_tris[r] == old(self)@.mesh_tris[r]);
            }
        }
        let ghost kept = self@;
        if !self.cached[resolution] {
            let (vertices, triangles) = build_mesh(&self.tile_data, self.position, scale);
            self.mesh_vert[resolution] = vertices;
            self.mesh_tris[resolution] = triangles;
            self.cached[resolution] = true;
        }
        proof {
            assert forall|r: int| 0 <= r < LEVELS && #[trigger] self@.cached[r] implies self@.slot_current(
                r,
            ) by {
                if r != resolution {
                    assert(kept.cached[r]);
                    assert(self@.mesh_vert[r] == kept.mesh_vert[r]);
                    assert(self@.mesh_tris[r] == kept.mesh_tris[r]);
                }
            }
            assert(self@.cached[resolution as int]);
            assert(self@.slot_current(resolution as int));
            let goal = old(self)@.remeshed(resolution as int);
            assert(self@.mesh_vert =~= goal.mesh_vert);
            assert(self@.mesh_tris =~= goal.mesh_tris);
            assert(self@.cached =~= goal.cached);
            let faces = mesh_faces(self@.tile_data, scale as int);
            lemma_chunk_faces_len(self@.tile_data, scale as int, scale as int);
            lemma_faces_lengths(self@.position, scale as int, faces, 0);
            lemma_faces_triangles_rebased(faces, 0);
            if mesh@.vertices_original.len() + 4 * faces.len() <= u32::MAX {
                lemma_faces_triangles_rebased(faces, mesh@.vertices_original.len() as int);
            }
        }
        mesh.append_geometry(
            &self.mesh_vert[resolution],
            &self.mesh_tris[resolution],
            chunk_priority,
            self.chunk_index,
        )
    }
}

/// The sides of a cube in the order in which `generate_cube` emits them:
/// +Z, -Z, +X, -X, +Y, -Y.
pub open spec fn cube_side(face: int) -> int {
    if face == 0 {
        5
    } else if face == 1 {
        2
    } else if face == 2 {
        3
    } else if face == 3 {
        0
    } else if face == 4 {
        4
    } else {
        1
    }
}

/// The faces of a cube in the order of `cube_side`, as faces of one tile.
pub open spec fn cube_faces(upto: int) -> Seq<Face>
    decreases upto,
{
    if upto <= 0 {
        Seq::empty()
    } else {
        cube_faces(upto - 1).push(Face { x: 0, y: 0, z: 0, side: cube_side(upto - 1) })
    }
}

/// The vertices of the cube of `size` voxels along each edge around
/// `position`: the faces of a single tile of edge `size` at `position`.
pub open spec fn cube_vertices(position: Int4, size: u32, upto: int) -> Seq<Vertex>
    decreases upto,
{
    if upto <= 0 {
        Seq::empty()
    } else {
        cube_vertices(position, size, upto - 1) + quad_vertices(
            (position.x as int, position.y as int, position.z as int),
            size as int,
            cube_side(upto - 1),
        )
    }
}

/// The sides of a cube in the order in which `generate_cube` emits them.
fn side_of_cube(face: usize) -> (side: usize)
    requires
        face < SIDES,
    ensures
        side == cube_side(face as int),
        side < SIDES,
{
    if face == 0 {
        5
    } else if face == 1 {
        2
    } else if face == 2 {
        3
    } else if face == 3 {
        0
    } else if face == 4 {
        4
    } else {
        1
    }
}

/// Marks the scene buffer dirty and appends to it a cube of `size` voxels
/// along each edge around `position`, as geometry of chunk `chunk_index` in
/// priority band `chunk_priority`: 24 vertices and 12 triangles, or nothing
/// where the buffer refuses.
pub fn generate_cube(
    mesh: &mut Mesh,
    size: u32,
    position: Int4,
    chunk_priority: usize,
    chunk_index: usize,
) -> (done: Result<(), MeshError>)
    requires
        old(mesh).wf(),
    ensures
        final(mesh).wf(),
        ({
            let dirty = MeshView { mutated: true, ..old(mesh)@ };
            let local = faces_triangles(cube_faces(SIDES as int), 0);
            match done {
                Ok(()) => dirty.geometry_refusal(24, local, chunk_index) is None && final(mesh)@
                    == dirty.with_vertices(
                    cube_vertices(position, size, SIDES as int),
                    chunk_priority,
                    chunk_index,
                ).with_triangles(
                    faces_triangles(
                        cube_faces(SIDES as int),
                        old(mesh)@.vertices_original.len() as int,
                    ),
                    chunk_index,
                ),
                Err(e) => dirty.geometry_refusal(24, local, chunk_index) == Some(e) && e
                    != MeshError::MalformedTriangle && final(mesh)@ == dirty,
            }
        }),
{
    mesh.mutated(true);
    let mut vertices: Vec<Vertex> = Vec::new();
    let mut triangles: Vec<Uint4> = Vec::new();
    let mut face: usize = 0;
    while face < SIDES
        invariant
            face <= SIDES,
            vertices@ == cube_vertices(position, size, face as int),
            vertices@.len() == 4 * face,
            triangles@ == faces_triangles(cube_faces(face as int), 0),
            cube_faces(face as int).len() == face,
        decreases SIDES - face,
    {
        let side: usize = side_of_cube(face);
        push_face(
            &mut vertices,
            &mut triangles,
            position.x as i64,
            position.y as i64,
            position.z as i64,
            size as i64,
            side,
        );
        proof {
            assert(cube_faces(face + 1).drop_last() =~= cube_faces(face as int));
        }
        face += 1;
    }
    proof {
        let faces = cube_faces(SIDES as int);
        lemma_faces_triangles_rebased(faces, 0);
        if mesh@.vertices_original.len() + 24 <= u32::MAX {
            lemma_faces_triangles_rebased(faces, mesh@.vertices_original.len() as int);
        }
    }
    mesh.append_geometry(&vertices, &triangles, chunk_priority, chunk_index)
}

} // verus!
