//! The scene geometry buffer.
//!
//! A `Mesh` owns the concatenated vertices and triangles of every chunk in
//! view, the bookkeeping that runs parallel to them, the registered chunk
//! bounds and the bin table.  Vertices are append-only; beside each stands
//! its priority band and its chunk, and beside each triangle its chunk and
//! whether the last pass left it dead.

use vstd::prelude::*;
use crate::bins::{bin_triangles, binned_table, cells_across, grid_cells, indices_within, BIN_STRIDE};
use crate::error::MeshError;
use crate::frame::{
    cull_triangles, dead_after, in_band, project_vertices, scratch_after, vertex_in_pass,
    FrameFacts, MAXIMUM_WINDOW_HEIGHT, MAXIMUM_WINDOW_WIDTH,
};
use crate::geometry::{Int4, Pixel, Uint4, Vertex};

verus! {

/// What a `Mesh` holds, as mathematical sequences.
pub struct MeshView {
    pub mutated: bool,
    pub vertices_original: Seq<Vertex>,
    pub vertex_ownership: Seq<usize>,
    pub vert_chunk_index: Seq<usize>,
    pub vertices: Seq<Pixel>,
    pub indices: Seq<Uint4>,
    pub index_chunks: Seq<usize>,
    pub dead: Seq<bool>,
    pub chunks: Seq<(Int4, Int4)>,
    pub is_chunk_culled: Seq<bool>,
    pub normals: Seq<Int4>,
    pub binned_indices: Seq<u32>,
}

/// A triangle of chunk `chunk` is sound against the vertex bookkeeping: its
/// three vertices exist, belong to that chunk and share one priority band.
pub open spec fn triangle_sound(
    vert_chunk_index: Seq<usize>,
    vertex_ownership: Seq<usize>,
    tri: Uint4,
    chunk: usize,
) -> bool {
    &&& tri.x < vert_chunk_index.len()
    &&& tri.y < vert_chunk_index.len()
    &&& tri.z < vert_chunk_index.len()
    &&& vert_chunk_index[tri.x as int] == chunk
    &&& vert_chunk_index[tri.y as int] == chunk
    &&& vert_chunk_index[tri.z as int] == chunk
    &&& vertex_ownership[tri.x as int] == vertex_ownership[tri.y as int]
    &&& vertex_ownership[tri.x as int] == vertex_ownership[tri.z as int]
}

impl MeshView {
    /// The arrays that run parallel have equal lengths.
    pub open spec fn lengths_agree(self) -> bool {
        &&& self.vertex_ownership.len() == self.vertices_original.len()
        &&& self.vert_chunk_index.len() == self.vertices_original.len()
        &&& self.index_chunks.len() == self.indices.len()
        &&& self.dead.len() == self.indices.len()
        &&& self.is_chunk_culled.len() == self.chunks.len()
    }

    /// The vertices fit the scratch array, and both counts fit an index word.
    pub open spec fn within_capacity(self) -> bool {
        &&& self.vertices_original.len() <= self.vertices.len()
        &&& self.vertices_original.len() <= u32::MAX
        &&& self.indices.len() <= u32::MAX
    }

    /// Every vertex belongs to a registered chunk.
    pub open spec fn chunks_known(self) -> bool {
        forall|v: int|
            0 <= v < self.vert_chunk_index.len() ==> (#[trigger] self.vert_chunk_index[v])
                < self.chunks.len()
    }

    /// Every triangle is sound.
    pub open spec fn triangles_sound(self) -> bool {
        forall|t: int|
            0 <= t < self.indices.len() ==> triangle_sound(
                self.vert_chunk_index,
                self.vertex_ownership,
                #[trigger] self.indices[t],
                self.index_chunks[t],
            )
    }

    /// The first thing wrong with the buffer, if anything is.
    pub open spec fn defect(self) -> Option<MeshError> {
        if !self.lengths_agree() {
            Some(MeshError::LengthMismatch)
        } else if !self.within_capacity() {
            Some(MeshError::CapacityExceeded)
        } else if !self.chunks_known() {
            Some(MeshError::UnknownChunk)
        } else if !self.triangles_sound() {
            Some(MeshError::MalformedTriangle)
        } else {
            None
        }
    }

    /// The invariant of the buffer.
    pub open spec fn wf(self) -> bool {
        &&& self.lengths_agree()
        &&& self.within_capacity()
        &&& self.chunks_known()
        &&& self.triangles_sound()
    }

    /// Why `count` vertices of chunk `chunk_index` cannot be appended.
    pub open spec fn vertex_refusal(self, count: int, chunk_index: usize) -> Option<MeshError> {
        if chunk_index >= self.chunks.len() {
            Some(MeshError::UnknownChunk)
        } else if self.vertices_original.len() + count > self.vertices.len()
            || self.vertices_original.len() + count > u32::MAX {
            Some(MeshError::CapacityExceeded)
        } else {
            None
        }
    }

    /// The buffer with `added` appended as vertices of chunk `chunk_index` in
    /// priority band `owner`.
    pub open spec fn with_vertices(self, added: Seq<Vertex>, owner: usize, chunk_index: usize)
        -> MeshView {
        MeshView {
            vertices_original: self.vertices_original + added,
            vertex_ownership: self.vertex_ownership + Seq::new(added.len(), |i: int| owner),
            vert_chunk_index: self.vert_chunk_index + Seq::new(added.len(), |i: int| chunk_index),
            ..self
        }
    }

    /// Why `added` cannot be appended as triangles of chunk `chunk_index`.
    pub open spec fn triangle_refusal(self, added: Seq<Uint4>, chunk_index: usize) -> Option<
        MeshError,
    > {
        if chunk_index >= self.chunks.len() {
            Some(MeshError::UnknownChunk)
        } else if self.indices.len() + added.len() > u32::MAX {
            Some(MeshError::CapacityExceeded)
        } else if exists|t: int|
            0 <= t < added.len() && !triangle_sound(
                self.vert_chunk_index,
                self.vertex_ownership,
                #[trigger] added[t],
                chunk_index,
            ) {
            Some(MeshError::MalformedTriangle)
        } else {
            None
        }
    }

    /// The buffer with `added` appended as live triangles of chunk
    /// `chunk_index`.
    pub open spec fn with_triangles(self, added: Seq<Uint4>, chunk_index: usize) -> MeshView {
        MeshView {
            indices: self.indices + added,
            index_chunks: self.index_chunks + Seq::new(added.len(), |i: int| chunk_index),
            dead: self.dead + Seq::new(added.len(), |i: int| false),
            ..self
        }
    }

    /// Words of the bin table that the cell grid of a window takes up.
    pub open spec fn bin_words(window_size: (u32, u32)) -> int {
        cells_across(window_size.0 as int) * cells_across(window_size.1 as int) * (
        BIN_STRIDE as int)
    }

    /// Why a pass over a dirty buffer cannot run.
    pub open spec fn pass_refusal(self, window_size: (u32, u32), frame: FrameFacts) -> Option<
        MeshError,
    > {
        if window_size.0 > MAXIMUM_WINDOW_WIDTH || window_size.1 > MAXIMUM_WINDOW_HEIGHT {
            Some(MeshError::WindowTooLarge)
        } else if self.binned_indices.len() < Self::bin_words(window_size) {
            Some(MeshError::BinTableTooSmall)
        } else if frame.chunk_outside@.len() != self.chunks.len() || frame.triangles@.len()
            != self.indices.len() || frame.projected@.len() != self.vertices_original.len() {
            Some(MeshError::FrameMismatch)
        } else {
            None
        }
    }

    /// What a pass returns: `Ok(false)` where the buffer is clean, the
    /// refusal where there is one, `Ok(true)` where the pass runs.
    pub open spec fn pass_outcome(self, window_size: (u32, u32), frame: FrameFacts) -> Result<
        bool,
        MeshError,
    > {
        if !self.mutated {
            Ok(false)
        } else {
            match self.pass_refusal(window_size, frame) {
                Some(e) => Err(e),
                None => Ok(true),
            }
        }
    }

    /// The buffer after a pass that runs.  The chunk flags are those of the
    /// frame; vertices and triangles go through `scratch_after` and
    /// `dead_after`; the live triangles are binned anew from the scratch
    /// array; the dirty flag is cleared.
    pub open spec fn after_pass(
        self,
        window_size: (u32, u32),
        frame: FrameFacts,
        priority_min: usize,
        priority_max: usize,
    ) -> MeshView {
        let hidden = frame.chunk_outside@;
        let scratch = scratch_after(
            self.vertices,
            frame.projected@,
            self.vert_chunk_index,
            self.vertex_ownership,
            hidden,
            priority_min,
            priority_max,
            self.vertices_original.len() as int,
        );
        let dead = dead_after(
            self.indices,
            self.index_chunks,
            self.vertex_ownership,
            hidden,
            frame.triangles@,
            self.dead,
            priority_min,
            priority_max,
            self.indices.len() as int,
        );
        MeshView {
            mutated: false,
            is_chunk_culled: hidden,
            vertices: scratch,
            dead,
            binned_indices: binned_table(
                self.binned_indices,
                cells_across(window_size.0 as int),
                cells_across(window_size.1 as int),
                self.indices,
                dead,
                scratch,
            ),
            ..self
        }
    }

    /// The buffer after a call of the pass: `after_pass` where the pass
    /// runs, the buffer itself where it is clean or the pass is refused.
    pub open spec fn through_pass(
        self,
        window_size: (u32, u32),
        frame: FrameFacts,
        priority_min: usize,
        priority_max: usize,
    ) -> MeshView {
        if self.pass_outcome(window_size, frame) == Ok::<bool, MeshError>(true) {
            self.after_pass(window_size, frame, priority_min, priority_max)
        } else {
            self
        }
    }

    /// Why a mesh of `vertices` vertices, with `triangles` over them, cannot
    /// be appended as geometry of chunk `chunk_index`.
    pub open spec fn geometry_refusal(
        self,
        vertices: int,
        triangles: Seq<Uint4>,
        chunk_index: usize,
    ) -> Option<MeshError> {
        if chunk_index >= self.chunks.len() {
            Some(MeshError::UnknownChunk)
        } else if self.vertices_original.len() + vertices > self.vertices.len()
            || self.vertices_original.len() + vertices > u32::MAX || self.indices.len()
            + triangles.len() > u32::MAX {
            Some(MeshError::CapacityExceeded)
        } else if !indices_within(triangles, vertices) {
            Some(MeshError::MalformedTriangle)
        } else {
            None
        }
    }

    /// The buffer with one more chunk, not culled.
    pub open spec fn with_chunk(self, position: Int4, size: Int4) -> MeshView {
        MeshView {
            chunks: self.chunks.push((position, size)),
            is_chunk_culled: self.is_chunk_culled.push(false),
            ..self
        }
    }
}

/// A triangle with its three vertex indices moved up by `base`.
pub open spec fn rebased_triangle(tri: Uint4, base: int) -> Uint4 {
    Uint4 {
        x: (tri.x + base) as u32,
        y: (tri.y + base) as u32,
        z: (tri.z + base) as u32,
        w: tri.w,
    }
}

/// Triangles with their vertex indices moved up by `base`.
pub open spec fn rebased(triangles: Seq<Uint4>, base: int) -> Seq<Uint4> {
    Seq::new(triangles.len(), |t: int| rebased_triangle(triangles[t], base))
}

/// The concatenated, chunk-tagged geometry of the visible world.
pub struct Mesh {
    mutated: bool,
    vertices_original: Vec<Vertex>,
    vertex_ownership: Vec<usize>,
    vertices: Vec<Pixel>,
    indices: Vec<Uint4>,
    index_chunks: Vec<usize>,
    chunks: Vec<(Int4, Int4)>,
    normals: Vec<Int4>,
    binned_indices: Vec<u32>,
    dead: Vec<bool>,
    is_chunk_culled: Vec<bool>,
    vert_chunk_index: Vec<usize>,
}

impl View for Mesh {
    type V = MeshView;

    closed spec fn view(&self) -> MeshView {
        MeshView {
            mutated: self.mutated,
            vertices_original: self.vertices_original@,
            vertex_ownership: self.vertex_ownership@,
            vert_chunk_index: self.vert_chunk_index@,
            vertices: self.vertices@,
            indices: self.indices@,
            index_chunks: self.index_chunks@,
            dead: self.dead@,
            chunks: self.chunks@,
            is_chunk_culled: self.is_chunk_culled@,
            normals: self.normals@,
            binned_indices: self.binned_indices@,
        }
    }
}

/// Whether every entry of `chunk_of` is below `chunk_count`.
fn all_chunks_known(chunk_of: &Vec<usize>, chunk_count: usize) -> (known: bool)
    ensures
        known <==> forall|v: int| 0 <= v < chunk_of@.len() ==> (#[trigger] chunk_of@[v]) < chunk_count,
{
    let mut v: usize = 0;
    while v < chunk_of.len()
        invariant
            v <= chunk_of.len(),
            forall|u: int| 0 <= u < v ==> (#[trigger] chunk_of@[u]) < chunk_count,
        decreases chunk_of.len() - v,
    {
        if chunk_of[v] >= chunk_count {
            return false;
        }
        v += 1;
    }
    true
}

/// Whether one triangle of chunk `chunk` is sound.
fn is_triangle_sound(
    vert_chunk_index: &Vec<usize>,
    vertex_ownership: &Vec<usize>,
    tri: Uint4,
    chunk: usize,
) -> (sound: bool)
    requires
        vertex_ownership.len() == vert_chunk_index.len(),
    ensures
        sound == triangle_sound(vert_chunk_index@, vertex_ownership@, tri, chunk),
{
    let count: usize = vert_chunk_index.len();
    if tri.x as usize >= count || tri.y as usize >= count || tri.z as usize >= count {
        return false;
    }
    let i0: usize = tri.x as usize;
    let i1: usize = tri.y as usize;
    let i2: usize = tri.z as usize;
    vert_chunk_index[i0] == chunk && vert_chunk_index[i1] == chunk && vert_chunk_index[i2] == chunk
        && vertex_ownership[i0] == vertex_ownership[i1] && vertex_ownership[i0]
        == vertex_ownership[i2]
}

/// Whether every triangle of `indices` is sound, each against its own chunk
/// in `index_chunks`.
fn all_triangles_sound(
    vert_chunk_index: &Vec<usize>,
    vertex_ownership: &Vec<usize>,
    indices: &Vec<Uint4>,
    index_chunks: &Vec<usize>,
) -> (sound: bool)
    requires
        vertex_ownership.len() == vert_chunk_index.len(),
        index_chunks.len() == indices.len(),
    ensures
        sound <==> forall|t: int|
            0 <= t < indices@.len() ==> triangle_sound(
                vert_chunk_index@,
                vertex_ownership@,
                #[trigger] indices@[t],
                index_chunks@[t],
            ),
{
    let mut t: usize = 0;
    while t < indices.len()
        invariant
            t <= indices.len(),
            vertex_ownership.len() == vert_chunk_index.len(),
            index_chunks.len() == indices.len(),
            forall|u: int|
                0 <= u < t ==> triangle_sound(
                    vert_chunk_index@,
                    vertex_ownership@,
                    #[trigger] indices@[u],
                    index_chunks@[u],
                ),
        decreases indices.len() - t,
    {
        if !is_triangle_sound(vert_chunk_index, vertex_ownership, indices[t], index_chunks[t]) {
            return false;
        }
        t += 1;
    }
    true
}

/// Whether every triangle of `added` is sound as a triangle of chunk `chunk`.
fn all_sound_in_chunk(
    vert_chunk_index: &Vec<usize>,
    vertex_ownership: &Vec<usize>,
    added: &Vec<Uint4>,
    chunk: usize,
) -> (sound: bool)
    requires
        vertex_ownership.len() == vert_chunk_index.len(),
    ensures
        sound <==> forall|t: int|
            0 <= t < added@.len() ==> triangle_sound(
                vert_chunk_index@,
                vertex_ownership@,
                #[trigger] added@[t],
                chunk,
            ),
{
    let mut t: usize = 0;
    while t < added.len()
        invariant
            t <= added.len(),
            vertex_ownership.len() == vert_chunk_index.len(),
            forall|u: int|
                0 <= u < t ==> triangle_sound(
                    vert_chunk_index@,
                    vertex_ownership@,
                    #[trigger] added@[u],
                    chunk,
                ),
        decreases added.len() - t,
    {
        if !is_triangle_sound(vert_chunk_index, vertex_ownership, added[t], chunk) {
            return false;
        }
        t += 1;
    }
    true
}

impl Mesh {
    /// The invariant of the buffer.
    pub open spec fn wf(&self) -> bool {
        self@.wf()
    }

    /// Assembles a buffer from its arrays, or says what is wrong with them.
    /// `vertices` is the scratch array for projected vertices: its length is
    /// the vertex capacity of the buffer.
    pub fn new(
        mutated: bool,
        vertices_original: Vec<Vertex>,
        vertex_ownership: Vec<usize>,
        index_chunks: Vec<usize>,
        chunks: Vec<(Int4, Int4)>,
        vertices: Vec<Pixel>,
        indices: Vec<Uint4>,
        normals: Vec<Int4>,
        binned_indices: Vec<u32>,
        dead: Vec<bool>,
        is_chunk_culled: Vec<bool>,
        vert_chunk_index: Vec<usize>,
    ) -> (made: Result<Mesh, MeshError>)
        ensures
            ({
                let given = MeshView {
                    mutated,
                    vertices_original: vertices_original@,
                    vertex_ownership: vertex_ownership@,
                    vert_chunk_index: vert_chunk_index@,
                    vertices: vertices@,
                    indices: indices@,
                    index_chunks: index_chunks@,
                    dead: dead@,
                    chunks: chunks@,
                    is_chunk_culled: is_chunk_culled@,
                    normals: normals@,
                    binned_indices: binned_indices@,
                };
                match made {
                    Ok(mesh) => mesh@ == given && mesh.wf() && given.defect() is None,
                    Err(e) => given.defect() == Some(e),
                }
            }),
    {
        if vertex_ownership.len() != vertices_original.len() || vert_chunk_index.len()
            != vertices_original.len() || index_chunks.len() != indices.len() || dead.len()
            != indices.len() || is_chunk_culled.len() != chunks.len() {
            return Err(MeshError::LengthMismatch);
        }
        if vertices_original.len() > vertices.len() || vertices_original.len() > u32::MAX as usize
            || indices.len() > u32::MAX as usize {
            return Err(MeshError::CapacityExceeded);
        }
        if !all_chunks_known(&vert_chunk_index, chunks.len()) {
            return Err(MeshError::UnknownChunk);
        }
        if !all_triangles_sound(&vert_chunk_index, &vertex_ownership, &indices, &index_chunks) {
            return Err(MeshError::MalformedTriangle);
        }
        Ok(
            Mesh {
                mutated,
                vertices_original,
                vertex_ownership,
                vertices,
                indices,
                index_chunks,
                chunks,
                normals,
                binned_indices,
                dead,
                is_chunk_culled,
                vert_chunk_index,
            },
        )
    }

    /// Sets or clears the dirty flag.
    pub fn mutated(&mut self, value: bool)
        ensures
            final(self)@ == (MeshView { mutated: value, ..old(self)@ }),
    {
        self.mutated = value;
    }

    /// Whether the dirty flag is set.
    pub fn was_mutated(&self) -> (dirty: bool)
        ensures
            dirty == self@.mutated,
    {
        self.mutated
    }

    /// The triangles, dead ones included.
    pub fn indices_ref(&self) -> (r: &Vec<Uint4>)
        ensures
            r@ == self@.indices,
    {
        &self.indices
    }

    /// The vertices as they were appended.
    pub fn vertices_original_ref(&self) -> (r: &Vec<Vertex>)
        ensures
            r@ == self@.vertices_original,
    {
        &self.vertices_original
    }

    /// The bounds of the registered chunks: origin and extent.
    pub fn chunk_ref(&self) -> (r: &Vec<(Int4, Int4)>)
        ensures
            r@ == self@.chunks,
    {
        &self.chunks
    }

    /// The scratch array: entry `v` is where vertex `v` was last projected.
    pub fn vertices_ref(&self) -> (r: &Vec<Pixel>)
        ensures
            r@ == self@.vertices,
    {
        &self.vertices
    }

    /// The priority band of each vertex.
    pub fn vertex_ownership_ref(&self) -> (r: &Vec<usize>)
        ensures
            r@ == self@.vertex_ownership,
    {
        &self.vertex_ownership
    }

    /// The chunk of each vertex.
    pub fn vert_chunk_index_ref(&self) -> (r: &Vec<usize>)
        ensures
            r@ == self@.vert_chunk_index,
    {
        &self.vert_chunk_index
    }

    /// The chunk of each triangle.
    pub fn index_chunks_ref(&self) -> (r: &Vec<usize>)
        ensures
            r@ == self@.index_chunks,
    {
        &self.index_chunks
    }

    /// Which triangles the last pass left dead.
    pub fn dead_ref(&self) -> (r: &Vec<bool>)
        ensures
            r@ == self@.dead,
    {
        &self.dead
    }

    /// Which chunks the last pass culled.
    pub fn is_chunk_culled_ref(&self) -> (r: &Vec<bool>)
        ensures
            r@ == self@.is_chunk_culled,
    {
        &self.is_chunk_culled
    }

    /// The table of face normals.
    pub fn normals_ref(&self) -> (r: &Vec<Int4>)
        ensures
            r@ == self@.normals,
    {
        &self.normals
    }

    /// The bin table.
    pub fn binned_indices_ref(&self) -> (r: &Vec<u32>)
        ensures
            r@ == self@.binned_indices,
    {
        &self.binned_indices
    }

    /// Registers the bounds of a chunk and returns its index.
    pub fn add_chunk(&mut self, position: Int4, size: Int4) -> (chunk_index: usize)
        requires
            old(self).wf(),
        ensures
            final(self).wf(),
            final(self)@ == old(self)@.with_chunk(position, size),
            chunk_index == old(self)@.chunks.len(),
    {
        let chunk_index: usize = self.chunks.len();
        self.chunks.push((position, size));
        self.is_chunk_culled.push(false);
        chunk_index
    }

    /// Appends one vertex of chunk `chunk_index` in priority band `owner`.
    pub fn push_vertex(&mut self, vertex: Vertex, owner: usize, chunk_index: usize) -> (done:
        Result<(), MeshError>)
        requires
            old(self).wf(),
        ensures
            final(self).wf(),
            match done {
                Ok(()) => old(self)@.vertex_refusal(1, chunk_index) is None && final(self)@
                    == old(self)@.with_vertices(seq![vertex], owner, chunk_index),
                Err(e) => old(self)@.vertex_refusal(1, chunk_index) == Some(e) && final(self)@
                    == old(self)@,
            },
    {
        if chunk_index >= self.chunks.len() {
            return Err(MeshError::UnknownChunk);
        }
        if self.vertices_original.len() >= self.vertices.len() || self.vertices_original.len()
            >= u32::MAX as usize {
            return Err(MeshError::CapacityExceeded);
        }
        self.vertices_original.push(vertex);
        self.vertex_ownership.push(owner);
        self.vert_chunk_index.push(chunk_index);
        proof {
            let goal = old(self)@.with_vertices(seq![vertex], owner, chunk_index);
            assert(self@.vertices_original =~= goal.vertices_original);
            assert(self@.vertex_ownership =~= goal.vertex_ownership);
            assert(self@.vert_chunk_index =~= goal.vert_chunk_index);
        }
        Ok(())
    }

    /// Appends `vertices` as vertices of chunk `chunk_index` in priority band
    /// `owner`: all of them, or none where they are refused.
    pub fn append_vertices(&mut self, vertices: &Vec<Vertex>, owner: usize, chunk_index: usize)
        -> (done: Result<(), MeshError>)
        requires
            old(self).wf(),
        ensures
            final(self).wf(),
            match done {
                Ok(()) => old(self)@.vertex_refusal(vertices@.len() as int, chunk_index) is None
                    && final(self)@ == old(self)@.with_vertices(vertices@, owner, chunk_index),
                Err(e) => old(self)@.vertex_refusal(vertices@.len() as int, chunk_index) == Some(e)
                    && final(self)@ == old(self)@,
            },
    {
        if chunk_index >= self.chunks.len() {
            return Err(MeshError::UnknownChunk);
        }
        let room: usize = self.vertices.len() - self.vertices_original.len();
        let word_room: usize = u32::MAX as usize - self.vertices_original.len();
        if vertices.len() > room || vertices.len() > word_room {
            return Err(MeshError::CapacityExceeded);
        }
        let mut i: usize = 0;
        while i < vertices.len()
            invariant
                i <= vertices.len(),
                chunk_index < self.chunks.len(),
                self.vertices_original.len() + (vertices.len() - i) <= self.vertices.len(),
                self.vertices_original.len() + (vertices.len() - i) <= u32::MAX,
                self.wf(),
                self@ == old(self)@.with_vertices(vertices@.take(i as int), owner, chunk_index),
            decreases vertices.len() - i,
        {
            self.vertices_original.push(vertices[i]);
            self.vertex_ownership.push(owner);
            self.vert_chunk_index.push(chunk_index);
            proof {
                let goal = old(self)@.with_vertices(vertices@.take(i + 1), owner, chunk_index);
                assert(vertices@.take(i + 1) =~= vertices@.take(i as int).push(vertices@[i as int]));
                assert(self@.vertices_original =~= goal.vertices_original);
                assert(self@.vertex_ownership =~= goal.vertex_ownership);
                assert(self@.vert_chunk_index =~= goal.vert_chunk_index);
            }
            i += 1;
        }
        proof {
            assert(vertices@.take(vertices@.len() as int) =~= vertices@);
        }
        Ok(())
    }

    /// Appends one live triangle of chunk `chunk_index`.
    pub fn push_index(&mut self, index: Uint4, chunk_index: usize) -> (done: Result<(), MeshError>)
        requires
            old(self).wf(),
        ensures
            final(self).wf(),
            match done {
                Ok(()) => old(self)@.triangle_refusal(seq![index], chunk_index) is None
                    && final(self)@ == old(self)@.with_triangles(seq![index], chunk_index),
                Err(e) => old(self)@.triangle_refusal(seq![index], chunk_index) == Some(e)
                    && final(self)@ == old(self)@,
            },
    {
        if chunk_index >= self.chunks.len() {
            return Err(MeshError::UnknownChunk);
        }
        if self.indices.len() >= u32::MAX as usize {
            return Err(MeshError::CapacityExceeded);
        }
        if !is_triangle_sound(&self.vert_chunk_index, &self.vertex_ownership, index, chunk_index) {
            proof {
                assert(seq![index][0] == index);
            }
            return Err(MeshError::MalformedTriangle);
        }
        self.indices.push(index);
        self.dead.push(false);
        self.index_chunks.push(chunk_index);
        proof {
            let goal = old(self)@.with_triangles(seq![index], chunk_index);
            assert(self@.indices =~= goal.indices);
            assert(self@.index_chunks =~= goal.index_chunks);
            assert(self@.dead =~= goal.dead);
        }
        Ok(())
    }

    /// Appends `indices` as live triangles of chunk `chunk_index`: all of
    /// them, or none where they are refused.
    pub fn append_indices(&mut self, indices: &Vec<Uint4>, chunk_index: usize) -> (done: Result<
        (),
        MeshError,
    >)
        requires
            old(self).wf(),
        ensures
            final(self).wf(),
            match done {
                Ok(()) => old(self)@.triangle_refusal(indices@, chunk_index) is None
                    && final(self)@ == old(self)@.with_triangles(indices@, chunk_index),
                Err(e) => old(self)@.triangle_refusal(indices@, chunk_index) == Some(e)
                    && final(self)@ == old(self)@,
            },
    {
        if chunk_index >= self.chunks.len() {
            return Err(MeshError::UnknownChunk);
        }
        let word_room: usize = u32::MAX as usize - self.indices.len();
        if indices.len() > word_room {
            return Err(MeshError::CapacityExceeded);
        }
        if !all_sound_in_chunk(&self.vert_chunk_index, &self.vertex_ownership, indices, chunk_index) {
            return Err(MeshError::MalformedTriangle);
        }
        let mut i: usize = 0;
        while i < indices.len()
            invariant
                i <= indices.len(),
                self.indices.len() + (indices.len() - i) <= u32::MAX,
                forall|t: int|
                    0 <= t < indices@.len() ==> triangle_sound(
                        old(self)@.vert_chunk_index,
                        old(self)@.vertex_ownership,
                        #[trigger] indices@[t],
                        chunk_index,
                    ),
                self.wf(),
                self@ == old(self)@.with_triangles(indices@.take(i as int), chunk_index),
            decreases indices.len() - i,
        {
            self.indices.push(indices[i]);
            self.dead.push(false);
            self.index_chunks.push(chunk_index);
            proof {
                let goal = old(self)@.with_triangles(indices@.take(i + 1), chunk_index);
                assert(indices@.take(i + 1) =~= indices@.take(i as int).push(indices@[i as int]));
                assert(self@.indices =~= goal.indices);
                assert(self@.index_chunks =~= goal.index_chunks);
                assert(self@.dead =~= goal.dead);
            }
            i += 1;
        }
        proof {
            assert(indices@.take(indices@.len() as int) =~= indices@);
        }
        Ok(())
    }
}

/// Copies `from` over `into`.
fn copy_flags(into: &mut Vec<bool>, from: &Vec<bool>)
    requires
        old(into).len() == from.len(),
    ensures
        final(into)@ == from@,
{
    let mut i: usize = 0;
    while i < from.len()
        invariant
            i <= from.len(),
            into.len() == from.len(),
            forall|j: int| 0 <= j < i ==> #[trigger] into@[j] == from@[j],
        decreases from.len() - i,
    {
        into[i] = from[i];
        i += 1;
    }
    proof {
        assert(into@ =~= from@);
    }
}

impl Mesh {
    /// Words of the bin table that the cell grid of a window takes up: what
    /// a consumer of the table reads.  `None` for a window over the maximum.
    pub fn bin_words(window_size: (u32, u32)) -> (words: Option<usize>)
        ensures
            words == (if window_size.0 > MAXIMUM_WINDOW_WIDTH || window_size.1
                > MAXIMUM_WINDOW_HEIGHT {
                None
            } else {
                Some(MeshView::bin_words(window_size) as usize)
            }),
            words is Some ==> words->0 == MeshView::bin_words(window_size),
    {
        if window_size.0 > MAXIMUM_WINDOW_WIDTH || window_size.1 > MAXIMUM_WINDOW_HEIGHT {
            return None;
        }
        let gw: usize = grid_cells(window_size.0) as usize;
        let gh: usize = grid_cells(window_size.1) as usize;
        assert(gw * gh <= 1024 * 1024) by (nonlinear_arith)
            requires
                gw <= 1024,
                gh <= 1024,
        ;
        Some(gw * gh * BIN_STRIDE)
    }

    /// The per-frame pass.  A clean buffer is left alone.  A dirty one takes
    /// the chunk flags of the frame, puts every vertex and every triangle
    /// through the pass in the band `priority_min..=priority_max`, bins the
    /// live triangles and comes out clean; where the pass is refused the
    /// buffer stays as it was, dirty.
    pub fn check_remesh(
        &mut self,
        window_size: (u32, u32),
        frame: &FrameFacts,
        priority_min: usize,
        priority_max: usize,
    ) -> (ran: Result<bool, MeshError>)
        requires
            old(self).wf(),
        ensures
            final(self).wf(),
            ran == old(self)@.pass_outcome(window_size, *frame),
            final(self)@ == old(self)@.through_pass(
                window_size,
                *frame,
                priority_min,
                priority_max,
            ),
    {
        if !self.mutated {
            return Ok(false);
        }
        if window_size.0 > MAXIMUM_WINDOW_WIDTH || window_size.1 > MAXIMUM_WINDOW_HEIGHT {
            return Err(MeshError::WindowTooLarge);
        }
        let gw: u32 = grid_cells(window_size.0);
        let gh: u32 = grid_cells(window_size.1);
        assert(gw * gh <= 1024 * 1024) by (nonlinear_arith)
            requires
                gw <= 1024,
                gh <= 1024,
        ;
        let words: usize = (gw as usize) * (gh as usize) * BIN_STRIDE;
        if self.binned_indices.len() < words {
            return Err(MeshError::BinTableTooSmall);
        }
        if frame.chunk_outside.len() != self.chunks.len() || frame.triangles.len()
            != self.indices.len() || frame.projected.len() != self.vertices_original.len() {
            return Err(MeshError::FrameMismatch);
        }
        self.mutated = false;
        copy_flags(&mut self.is_chunk_culled, &frame.chunk_outside);
        project_vertices(
            &mut self.vertices,
            &frame.projected,
            &self.vert_chunk_index,
            &self.vertex_ownership,
            &self.is_chunk_culled,
            priority_min,
            priority_max,
        );
        proof {
            assert forall|t: int| 0 <= t < self.indices@.len() implies (
            #[trigger] self.indices@[t]).x < self.vertex_ownership.len() by {
                assert(triangle_sound(
                    self.vert_chunk_index@,
                    self.vertex_ownership@,
                    self.indices@[t],
                    self.index_chunks@[t],
                ));
            }
            assert forall|t: int| 0 <= t < self.index_chunks@.len() implies (
            #[trigger] self.index_chunks@[t]) < self.is_chunk_culled.len() by {
                assert(triangle_sound(
                    self.vert_chunk_index@,
                    self.vertex_ownership@,
                    self.indices@[t],
                    self.index_chunks@[t],
                ));
            }
        }
        cull_triangles(
            &mut self.dead,
            &self.indices,
            &self.index_chunks,
            &self.vertex_ownership,
            &self.is_chunk_culled,
            &frame.triangles,
            priority_min,
            priority_max,
        );
        proof {
            assert forall|t: int| 0 <= t < self.indices@.len() implies (
            #[trigger] self.indices@[t]).x < self.vertices@.len() && self.indices@[t].y
                < self.vertices@.len() && self.indices@[t].z < self.vertices@.len() by {
                assert(triangle_sound(
                    self.vert_chunk_index@,
                    self.vertex_ownership@,
                    self.indices@[t],
                    self.index_chunks@[t],
                ));
            }
        }
        bin_triangles(
            &mut self.binned_indices,
            gw,
            gh,
            &self.indices,
            &self.dead,
            &self.vertices,
        );
        Ok(true)
    }
}

/// Whether every triangle names three of `vertex_count` vertices.
fn all_indices_within(triangles: &Vec<Uint4>, vertex_count: usize) -> (within: bool)
    ensures
        within == indices_within(triangles@, vertex_count as int),
{
    let mut t: usize = 0;
    while t < triangles.len()
        invariant
            t <= triangles.len(),
            forall|u: int|
                0 <= u < t ==> (#[trigger] triangles@[u]).x < vertex_count && triangles@[u].y
                    < vertex_count && triangles@[u].z < vertex_count,
        decreases triangles.len() - t,
    {
        let tri: Uint4 = triangles[t];
        if tri.x as usize >= vertex_count || tri.y as usize >= vertex_count || tri.z as usize
            >= vertex_count {
            return false;
        }
        t += 1;
    }
    true
}

/// Moves the vertex indices of every triangle up by `base`.
fn rebase(triangles: &Vec<Uint4>, base: u32, vertex_count: usize) -> (moved: Vec<Uint4>)
    requires
        indices_within(triangles@, vertex_count as int),
        base + vertex_count <= u32::MAX,
    ensures
        moved@ == rebased(triangles@, base as int),
{
    let mut moved: Vec<Uint4> = Vec::new();
    let mut t: usize = 0;
    while t < triangles.len()
        invariant
            t <= triangles.len(),
            indices_within(triangles@, vertex_count as int),
            base + vertex_count <= u32::MAX,
            moved@ == rebased(triangles@.take(t as int), base as int),
        decreases triangles.len() - t,
    {
        let tri: Uint4 = triangles[t];
        moved.push(Uint4::new(tri.x + base, tri.y + base, tri.z + base, tri.w));
        proof {
            assert(moved@ =~= rebased(triangles@.take(t + 1), base as int));
        }
        t += 1;
    }
    proof {
        assert(triangles@.take(triangles@.len() as int) =~= triangles@);
    }
    moved
}

impl Mesh {
    /// Appends a mesh that stands on its own, its triangles indexing its own
    /// vertices: the vertices go in as vertices of chunk `chunk_index` in
    /// priority band `owner`, and the triangles follow with their indices
    /// moved up by the number of vertices the buffer held.  All of it goes
    /// in, or none where it is refused.
    pub fn append_geometry(
        &mut self,
        vertices: &Vec<Vertex>,
        triangles: &Vec<Uint4>,
        owner: usize,
        chunk_index: usize,
    ) -> (done: Result<(), MeshError>)
        requires
            old(self).wf(),
        ensures
            final(self).wf(),
            match done {
                Ok(()) => old(self)@.geometry_refusal(
                    vertices@.len() as int,
                    triangles@,
                    chunk_index,
                ) is None && final(self)@ == old(self)@.with_vertices(
                    vertices@,
                    owner,
                    chunk_index,
                ).with_triangles(
                    rebased(triangles@, old(self)@.vertices_original.len() as int),
                    chunk_index,
                ),
                Err(e) => old(self)@.geometry_refusal(
                    vertices@.len() as int,
                    triangles@,
                    chunk_index,
                ) == Some(e) && final(self)@ == old(self)@,
            },
    {
        if chunk_index >= self.chunks.len() {
            return Err(MeshError::UnknownChunk);
        }
        let held: usize = self.vertices_original.len();
        if vertices.len() > self.vertices.len() - held || vertices.len() > u32::MAX as usize - held
            || triangles.len() > u32::MAX as usize - self.indices.len() {
            return Err(MeshError::CapacityExceeded);
        }
        if !all_indices_within(triangles, vertices.len()) {
            return Err(MeshError::MalformedTriangle);
        }
        let moved: Vec<Uint4> = rebase(triangles, held as u32, vertices.len());
        match self.append_vertices(vertices, owner, chunk_index) {
            Ok(()) => {},
            Err(e) => {
                return Err(e);
            },
        }
        proof {
            assert forall|t: int| 0 <= t < moved@.len() implies triangle_sound(
                self@.vert_chunk_index,
                self@.vertex_ownership,
                #[trigger] moved@[t],
                chunk_index,
            ) by {
                let tri = triangles@[t];
                assert(tri.x < vertices@.len() && tri.y < vertices@.len() && tri.z
                    < vertices@.len());
            }
        }
        self.append_indices(&moved, chunk_index)
    }
}

/// Two passes in a row, with no write to the buffer in between, leave what
/// one pass leaves.  A pass that runs leaves the buffer clean, so the pass
/// that follows returns `Ok(false)` whatever it is handed; a pass that is
/// refused changes nothing, and neither does the same pass asked again.
pub proof fn lemma_second_pass_is_idle(
    mesh: MeshView,
    window_size: (u32, u32),
    frame: FrameFacts,
    priority_min: usize,
    priority_max: usize,
    next_window: (u32, u32),
    next_frame: FrameFacts,
)
    ensures
        mesh.through_pass(window_size, frame, priority_min, priority_max).through_pass(
            window_size,
            frame,
            priority_min,
            priority_max,
        ) == mesh.through_pass(window_size, frame, priority_min, priority_max),
        mesh.pass_outcome(window_size, frame) is Ok ==> mesh.through_pass(
            window_size,
            frame,
            priority_min,
            priority_max,
        ).pass_outcome(next_window, next_frame) == Ok::<bool, MeshError>(false),
        mesh.pass_outcome(window_size, frame) is Ok ==> mesh.through_pass(
            window_size,
            frame,
            priority_min,
            priority_max,
        ).through_pass(next_window, next_frame, priority_min, priority_max) == mesh.through_pass(
            window_size,
            frame,
            priority_min,
            priority_max,
        ),
{
}

/// A triangle of a chunk in view whose priority lies in the band is dead
/// after the pass exactly if it fails a test.  So one that faces away from
/// the viewer is dead, and one that faces the viewer is not dead for that
/// alone: it is dead only if it lies outside the frustum or reaches behind
/// the near plane.
pub proof fn lemma_backface_decides(
    mesh: MeshView,
    window_size: (u32, u32),
    frame: FrameFacts,
    priority_min: usize,
    priority_max: usize,
    t: int,
)
    requires
        0 <= t < mesh.indices.len(),
        mesh.dead.len() == mesh.indices.len(),
        !frame.chunk_outside@[mesh.index_chunks[t] as int],
        in_band(mesh.vertex_ownership[mesh.indices[t].x as int], priority_min, priority_max),
    ensures
        mesh.after_pass(window_size, frame, priority_min, priority_max).dead[t]
            == frame.triangles@[t].rejected(),
        frame.triangles@[t].facing_away ==> mesh.after_pass(
            window_size,
            frame,
            priority_min,
            priority_max,
        ).dead[t],
        !frame.triangles@[t].facing_away && !frame.triangles@[t].outside_frustum
            && !frame.triangles@[t].behind_near ==> !mesh.after_pass(
            window_size,
            frame,
            priority_min,
            priority_max,
        ).dead[t],
{
}

/// A triangle of a culled chunk is dead after the pass, whatever its
/// priority and whatever its tests say.
pub proof fn lemma_culled_chunk_kills(
    mesh: MeshView,
    window_size: (u32, u32),
    frame: FrameFacts,
    priority_min: usize,
    priority_max: usize,
    t: int,
)
    requires
        0 <= t < mesh.indices.len(),
        mesh.dead.len() == mesh.indices.len(),
        frame.chunk_outside@[mesh.index_chunks[t] as int],
    ensures
        mesh.after_pass(window_size, frame, priority_min, priority_max).dead[t],
{
}

/// A pass changes only what lies in its band.  A vertex outside the band
/// keeps the pixel it had, and so does every vertex of a culled chunk; a
/// triangle outside the band keeps its liveness unless its chunk is culled.
pub proof fn lemma_band_bounds_the_pass(
    mesh: MeshView,
    window_size: (u32, u32),
    frame: FrameFacts,
    priority_min: usize,
    priority_max: usize,
)
    requires
        mesh.dead.len() == mesh.indices.len(),
        mesh.vertices_original.len() <= mesh.vertices.len(),
    ensures
        forall|v: int|
            0 <= v < mesh.vertices.len() && !(v < mesh.vertices_original.len() && vertex_in_pass(
                mesh.vert_chunk_index,
                mesh.vertex_ownership,
                frame.chunk_outside@,
                priority_min,
                priority_max,
                v,
            )) ==> #[trigger] mesh.after_pass(
                window_size,
                frame,
                priority_min,
                priority_max,
            ).vertices[v] == mesh.vertices[v],
        forall|v: int|
            0 <= v < mesh.vertices_original.len() && vertex_in_pass(
                mesh.vert_chunk_index,
                mesh.vertex_ownership,
                frame.chunk_outside@,
                priority_min,
                priority_max,
                v,
            ) ==> #[trigger] mesh.after_pass(
                window_size,
                frame,
                priority_min,
                priority_max,
            ).vertices[v] == frame.projected@[v],
        forall|t: int|
            0 <= t < mesh.indices.len() && !frame.chunk_outside@[mesh.index_chunks[t] as int]
                && !in_band(
                mesh.vertex_ownership[mesh.indices[t].x as int],
                priority_min,
                priority_max,
            ) ==> #[trigger] mesh.after_pass(
                window_size,
                frame,
                priority_min,
                priority_max,
            ).dead[t] == mesh.dead[t],
{
}

} // verus!
