//! Regions of the voxel grid and the majority vote over them.
//!
//! A level of detail looks at a chunk through cubic regions.  What a region
//! counts as is its mode: the block id that most of its voxels hold, ids on
//! an ignore list left out.  Of several ids that are equally frequent the
//! lowest wins, and a region in which nothing is left to count has mode 0.

use vstd::prelude::*;
use std::collections::HashMap;

verus! {

broadcast use vstd::std_specs::hash::group_hash_axioms;

/// Voxels along each edge of a chunk.
pub const CHUNK_SIZE: usize = 16;

/// The block ids of a chunk, indexed `[x][y][z]`; 0 is empty.
pub type Grid = [[[u32; 16]; 16]; 16];

/// Where a run of `size` voxels from `start` ends inside the chunk.
pub open spec fn clip_end(start: int, size: int) -> int {
    if start + size < CHUNK_SIZE {
        start + size
    } else {
        CHUNK_SIZE as int
    }
}

/// The voxels `(x, y, z0..z1)` in ascending `z`.
pub open spec fn line_blocks(grid: Grid, x: int, y: int, z0: int, z1: int) -> Seq<u32> {
    Seq::new(
        if z0 < z1 {
            (z1 - z0) as nat
        } else {
            0nat
        },
        |k: int| grid[x][y][z0 + k],
    )
}

/// The voxels `(x, y0..y1, z0..z1)`, line after line.
pub open spec fn slab_blocks(grid: Grid, x: int, y0: int, y1: int, z0: int, z1: int) -> Seq<u32>
    decreases y1 - y0,
{
    if y1 <= y0 {
        Seq::empty()
    } else {
        slab_blocks(grid, x, y0, y1 - 1, z0, z1) + line_blocks(grid, x, y1 - 1, z0, z1)
    }
}

/// The voxels of the box `x0..x1` by `y0..y1` by `z0..z1`, slab after slab.
pub open spec fn box_blocks(
    grid: Grid,
    x0: int,
    x1: int,
    y0: int,
    y1: int,
    z0: int,
    z1: int,
) -> Seq<u32>
    decreases x1 - x0,
{
    if x1 <= x0 {
        Seq::empty()
    } else {
        box_blocks(grid, x0, x1 - 1, y0, y1, z0, z1) + slab_blocks(grid, x1 - 1, y0, y1, z0, z1)
    }
}

/// The voxels of the cube of edge `size` at `start`, as far as it lies inside
/// the chunk.
pub open spec fn region_blocks(grid: Grid, start: (int, int, int), size: int) -> Seq<u32> {
    box_blocks(
        grid,
        start.0,
        clip_end(start.0, size),
        start.1,
        clip_end(start.1, size),
        start.2,
        clip_end(start.2, size),
    )
}

/// How often `id` occurs in `blocks`.
pub open spec fn occurrences(blocks: Seq<u32>, id: u32) -> nat
    decreases blocks.len(),
{
    if blocks.len() == 0 {
        0
    } else {
        occurrences(blocks.drop_last(), id) + if blocks.last() == id {
            1nat
        } else {
            0nat
        }
    }
}

/// `id` occurs in `blocks` and is not ignored.
pub open spec fn counted(blocks: Seq<u32>, ignored: Seq<u32>, id: u32) -> bool {
    !ignored.contains(id) && occurrences(blocks, id) > 0
}

/// `id` wins the vote against `other`: it is more frequent, or as frequent
/// and not the higher id.
pub open spec fn outvotes(blocks: Seq<u32>, id: u32, other: u32) -> bool {
    occurrences(blocks, other) < occurrences(blocks, id) || (occurrences(blocks, other)
        == occurrences(blocks, id) && id <= other)
}

/// `id` is counted and wins against every counted id.
pub open spec fn is_mode(blocks: Seq<u32>, ignored: Seq<u32>, id: u32) -> bool {
    counted(blocks, ignored, id) && forall|other: u32| #[trigger]
        counted(blocks, ignored, other) ==> outvotes(blocks, id, other)
}

/// The mode of `blocks` without the ignored ids; 0 where nothing is counted.
pub open spec fn mode_of(blocks: Seq<u32>, ignored: Seq<u32>) -> u32 {
    if exists|id: u32| #[trigger] counted(blocks, ignored, id) {
        choose|id: u32| is_mode(blocks, ignored, id)
    } else {
        0
    }
}

/// No sequence holds an id more often than it is long.
pub proof fn lemma_occurrences_bound(blocks: Seq<u32>, id: u32)
    ensures
        occurrences(blocks, id) <= blocks.len(),
    decreases blocks.len(),
{
    if blocks.len() > 0 {
        lemma_occurrences_bound(blocks.drop_last(), id);
    }
}

/// An id that occurs stands at some index.
pub proof fn lemma_occurs_somewhere(blocks: Seq<u32>, id: u32)
    requires
        occurrences(blocks, id) > 0,
    ensures
        exists|i: int| 0 <= i < blocks.len() && blocks[i] == id,
    decreases blocks.len(),
{
    if blocks.last() == id {
        assert(blocks[blocks.len() - 1] == id);
    } else {
        lemma_occurs_somewhere(blocks.drop_last(), id);
        let i = choose|i: int| 0 <= i < blocks.drop_last().len() && blocks.drop_last()[i] == id;
        assert(blocks[i] == id);
    }
}

/// An id that stands at some index occurs.
pub proof fn lemma_standing_occurs(blocks: Seq<u32>, i: int)
    requires
        0 <= i < blocks.len(),
    ensures
        occurrences(blocks, blocks[i]) > 0,
    decreases blocks.len(),
{
    if i < blocks.len() - 1 {
        lemma_standing_occurs(blocks.drop_last(), i);
    }
}

/// At most one id is the mode.
pub proof fn lemma_mode_unique(blocks: Seq<u32>, ignored: Seq<u32>, a: u32, b: u32)
    requires
        is_mode(blocks, ignored, a),
        is_mode(blocks, ignored, b),
    ensures
        a == b,
{
    assert(outvotes(blocks, a, b));
    assert(outvotes(blocks, b, a));
}

/// An id that passes for the mode is the mode.
pub proof fn lemma_mode_is(blocks: Seq<u32>, ignored: Seq<u32>, id: u32)
    requires
        is_mode(blocks, ignored, id),
    ensures
        mode_of(blocks, ignored) == id,
{
    assert(counted(blocks, ignored, id));
    let chosen = choose|c: u32| is_mode(blocks, ignored, c);
    lemma_mode_unique(blocks, ignored, chosen, id);
}

/// A sequence that holds one id throughout, and at least once, has that id
/// for its mode unless the id is ignored.
pub proof fn lemma_mode_uniform(blocks: Seq<u32>, ignored: Seq<u32>, id: u32)
    requires
        blocks.len() > 0,
        forall|i: int| 0 <= i < blocks.len() ==> blocks[i] == id,
        !ignored.contains(id),
    ensures
        mode_of(blocks, ignored) == id,
{
    lemma_standing_occurs(blocks, 0);
    assert forall|other: u32| #[trigger] counted(blocks, ignored, other) implies outvotes(
        blocks,
        id,
        other,
    ) by {
        lemma_occurs_somewhere(blocks, other);
    }
    lemma_mode_is(blocks, ignored, id);
}

/// A sequence of which every id is ignored has mode 0; so has the empty one.
pub proof fn lemma_mode_all_ignored(blocks: Seq<u32>, ignored: Seq<u32>)
    requires
        forall|i: int| 0 <= i < blocks.len() ==> ignored.contains(#[trigger] blocks[i]),
    ensures
        mode_of(blocks, ignored) == 0,
{
    assert forall|id: u32| !#[trigger] counted(blocks, ignored, id) by {
        if occurrences(blocks, id) > 0 {
            lemma_occurs_somewhere(blocks, id);
        }
    }
}

/// Every voxel of a slab that holds `id` throughout is `id`.
proof fn lemma_uniform_slab(grid: Grid, x: int, y0: int, y1: int, z0: int, z1: int, id: u32)
    requires
        forall|y: int, z: int| y0 <= y < y1 && z0 <= z < z1 ==> #[trigger] grid[x][y][z] == id,
    ensures
        forall|i: int|
            0 <= i < slab_blocks(grid, x, y0, y1, z0, z1).len() ==> slab_blocks(
                grid,
                x,
                y0,
                y1,
                z0,
                z1,
            )[i] == id,
        y0 < y1 && z0 < z1 ==> slab_blocks(grid, x, y0, y1, z0, z1).len() > 0,
    decreases y1 - y0,
{
    if y1 > y0 {
        lemma_uniform_slab(grid, x, y0, y1 - 1, z0, z1, id);
        let lines = slab_blocks(grid, x, y0, y1 - 1, z0, z1);
        let line = line_blocks(grid, x, y1 - 1, z0, z1);
        assert forall|k: int| 0 <= k < line.len() implies line[k] == id by {
            assert(grid[x][y1 - 1][z0 + k] == id);
        }
        assert forall|i: int| 0 <= i < (lines + line).len() implies (lines + line)[i] == id by {
            if i >= lines.len() {
                assert((lines + line)[i] == line[i - lines.len()]);
            }
        }
    }
}

/// Every voxel of a box that holds `id` throughout is `id`, and a box with
/// room in each direction is not empty.
pub proof fn lemma_uniform_box(
    grid: Grid,
    x0: int,
    x1: int,
    y0: int,
    y1: int,
    z0: int,
    z1: int,
    id: u32,
)
    requires
        forall|x: int, y: int, z: int|
            x0 <= x < x1 && y0 <= y < y1 && z0 <= z < z1 ==> #[trigger] grid[x][y][z] == id,
    ensures
        forall|i: int|
            0 <= i < box_blocks(grid, x0, x1, y0, y1, z0, z1).len() ==> box_blocks(
                grid,
                x0,
                x1,
                y0,
                y1,
                z0,
                z1,
            )[i] == id,
        x0 < x1 && y0 < y1 && z0 < z1 ==> box_blocks(grid, x0, x1, y0, y1, z0, z1).len() > 0,
    decreases x1 - x0,
{
    if x1 > x0 {
        lemma_uniform_box(grid, x0, x1 - 1, y0, y1, z0, z1, id);
        assert forall|y: int, z: int| y0 <= y < y1 && z0 <= z < z1 implies #[trigger] grid[x1
            - 1][y][z] == id by {}
        lemma_uniform_slab(grid, x1 - 1, y0, y1, z0, z1, id);
        let slabs = box_blocks(grid, x0, x1 - 1, y0, y1, z0, z1);
        let slab = slab_blocks(grid, x1 - 1, y0, y1, z0, z1);
        assert forall|i: int| 0 <= i < (slabs + slab).len() implies (slabs + slab)[i] == id by {
            if i >= slabs.len() {
                assert((slabs + slab)[i] == slab[i - slabs.len()]);
            }
        }
    }
}

/// Where a run of `size` voxels from `start` ends inside the chunk.
fn run_end(start: usize, size: usize) -> (end: usize)
    ensures
        end == clip_end(start as int, size as int),
{
    if start >= CHUNK_SIZE || size >= CHUNK_SIZE - start {
        CHUNK_SIZE
    } else {
        start + size
    }
}

/// Gathers the voxels of the cube of edge `size` at `start`, as far as it
/// lies inside the chunk.
pub fn gather_region(grid: &Grid, start: (usize, usize, usize), size: usize) -> (blocks: Vec<u32>)
    ensures
        blocks@ == region_blocks(
            *grid,
            (start.0 as int, start.1 as int, start.2 as int),
            size as int,
        ),
{
    let x0: usize = start.0;
    let y0: usize = start.1;
    let z0: usize = start.2;
    let x1: usize = run_end(x0, size);
    let y1: usize = run_end(y0, size);
    let z1: usize = run_end(z0, size);
    let mut blocks: Vec<u32> = Vec::new();
    let mut x: usize = x0;
    while x < x1
        invariant
            x1 <= CHUNK_SIZE,
            y1 <= CHUNK_SIZE,
            z1 <= CHUNK_SIZE,
            x0 <= x,
            x <= x1 || x == x0,
            blocks@ == box_blocks(*grid, x0 as int, x as int, y0 as int, y1 as int, z0 as int, z1 as int),
        decreases x1 - x,
    {
        let ghost done = blocks@;
        let mut y: usize = y0;
        while y < y1
            invariant
                x < x1 <= CHUNK_SIZE,
                y1 <= CHUNK_SIZE,
                z1 <= CHUNK_SIZE,
                y0 <= y,
                y <= y1 || y == y0,
                blocks@ == done + slab_blocks(*grid, x as int, y0 as int, y as int, z0 as int, z1 as int),
            decreases y1 - y,
        {
            let ghost lines = blocks@;
            let mut z: usize = z0;
            while z < z1
                invariant
                    x < x1 <= CHUNK_SIZE,
                    y < y1 <= CHUNK_SIZE,
                    z1 <= CHUNK_SIZE,
                    z0 <= z,
                    z <= z1 || z == z0,
                    blocks@ == lines + line_blocks(*grid, x as int, y as int, z0 as int, z as int),
                decreases z1 - z,
            {
                blocks.push(grid[x][y][z]);
                proof {
                    assert(blocks@ =~= lines + line_blocks(
                        *grid,
                        x as int,
                        y as int,
                        z0 as int,
                        z + 1,
                    ));
                }
                z += 1;
            }
            proof {
                assert(line_blocks(*grid, x as int, y as int, z0 as int, z as int) =~= line_blocks(
                    *grid,
                    x as int,
                    y as int,
                    z0 as int,
                    z1 as int,
                ));
                assert(blocks@ =~= done + slab_blocks(
                    *grid,
                    x as int,
                    y0 as int,
                    y + 1,
                    z0 as int,
                    z1 as int,
                ));
            }
            y += 1;
        }
        proof {
            assert(slab_blocks(*grid, x as int, y0 as int, y as int, z0 as int, z1 as int)
                == slab_blocks(*grid, x as int, y0 as int, y1 as int, z0 as int, z1 as int));
        }
        x += 1;
    }
    proof {
        assert(box_blocks(*grid, x0 as int, x as int, y0 as int, y1 as int, z0 as int, z1 as int)
            == box_blocks(*grid, x0 as int, x1 as int, y0 as int, y1 as int, z0 as int, z1 as int));
    }
    blocks
}

/// Counts how often each id occurs in `blocks`.
fn tally(blocks: &Vec<u32>) -> (counts: HashMap<u32, usize>)
    ensures
        forall|id: u32| #[trigger]
            counts@.contains_key(id) <==> occurrences(blocks@, id) > 0,
        forall|id: u32| #[trigger]
            counts@.contains_key(id) ==> counts@[id] == occurrences(blocks@, id),
{
    let mut counts: HashMap<u32, usize> = HashMap::new();
    let mut i: usize = 0;
    while i < blocks.len()
        invariant
            i <= blocks.len(),
            forall|id: u32| #[trigger]
                counts@.contains_key(id) <==> occurrences(blocks@.take(i as int), id) > 0,
            forall|id: u32| #[trigger]
                counts@.contains_key(id) ==> counts@[id] == occurrences(blocks@.take(i as int), id),
        decreases blocks.len() - i,
    {
        let block: u32 = blocks[i];
        let seen: usize = match counts.get(&block) {
            Some(count) => *count,
            None => 0,
        };
        proof {
            lemma_occurrences_bound(blocks@.take(i as int), block);
            assert(blocks@.take(i + 1).drop_last() =~= blocks@.take(i as int));
        }
        counts.insert(block, seen + 1);
        i += 1;
    }
    proof {
        assert(blocks@.take(blocks@.len() as int) =~= blocks@);
    }
    counts
}

/// The most frequent id of `blocks` that is not in `ignored`: of equally
/// frequent ids the lowest, and 0 where no id is left.
pub fn most_common(blocks: &Vec<u32>, ignored: &[u32]) -> (mode: u32)
    ensures
        mode == mode_of(blocks@, ignored@),
{
    let mut counts: HashMap<u32, usize> = tally(blocks);
    let mut j: usize = 0;
    while j < ignored.len()
        invariant
            j <= ignored.len(),
            forall|id: u32| #[trigger]
                counts@.contains_key(id) <==> occurrences(blocks@, id) > 0 && !ignored@.take(
                    j as int,
                ).contains(id),
            forall|id: u32| #[trigger]
                counts@.contains_key(id) ==> counts@[id] == occurrences(blocks@, id),
        decreases ignored.len() - j,
    {
        let ghost held = counts@;
        counts.remove(&ignored[j]);
        proof {
            assert(counts@ == held.remove(ignored@[j as int]));
            assert(ignored@.take(j + 1) =~= ignored@.take(j as int).push(ignored@[j as int]));
            assert forall|id: u32| #[trigger]
                counts@.contains_key(id) <==> occurrences(blocks@, id) > 0 && !ignored@.take(
                    j + 1,
                ).contains(id) by {
                let longer = ignored@.take(j + 1);
                let shorter = ignored@.take(j as int);
                if id == ignored@[j as int] {
                    assert(longer[j as int] == id);
                } else {
                    if shorter.contains(id) {
                        let k = choose|k: int| 0 <= k < shorter.len() && shorter[k] == id;
                        assert(longer[k] == id);
                    }
                    if longer.contains(id) {
                        let k = choose|k: int| 0 <= k < longer.len() && longer[k] == id;
                        assert(shorter[k] == id);
                    }
                }
            }
        }
        j += 1;
    }
    proof {
        assert(ignored@.take(ignored@.len() as int) =~= ignored@);
        assert forall|id: u32| #[trigger]
            counts@.contains_key(id) <==> counted(blocks@, ignored@, id) by {}
    }
    let mut best: Option<(u32, usize)> = None;
    let mut i: usize = 0;
    while i < blocks.len()
        invariant
            i <= blocks.len(),
            forall|id: u32| #[trigger]
                counts@.contains_key(id) <==> counted(blocks@, ignored@, id),
            forall|id: u32| #[trigger]
                counts@.contains_key(id) ==> counts@[id] == occurrences(blocks@, id),
            match best {
                Some((id, count)) => counted(blocks@, ignored@, id) && count == occurrences(
                    blocks@,
                    id,
                ) && forall|k: int|
                    0 <= k < i && counted(blocks@, ignored@, #[trigger] blocks@[k]) ==> outvotes(
                        blocks@,
                        id,
                        blocks@[k],
                    ),
                None => forall|k: int| 0 <= k < i ==> !counted(blocks@, ignored@, #[trigger] blocks@[k]),
            },
        decreases blocks.len() - i,
    {
        let block: u32 = blocks[i];
        match counts.get(&block) {
            Some(count) => {
                let count: usize = *count;
                let better: bool = match best {
                    Some((id, most)) => count > most || (count == most && block < id),
                    None => true,
                };
                if better {
                    best = Some((block, count));
                }
            },
            None => {},
        }
        i += 1;
    }
    match best {
        Some((id, _)) => {
            proof {
                assert forall|other: u32| #[trigger]
                    counted(blocks@, ignored@, other) implies outvotes(blocks@, id, other) by {
                    lemma_occurs_somewhere(blocks@, other);
                    let k = choose|k: int| 0 <= k < blocks@.len() && blocks@[k] == other;
                    assert(counted(blocks@, ignored@, blocks@[k]));
                }
                lemma_mode_is(blocks@, ignored@, id);
            }
            id
        },
        None => {
            proof {
                assert forall|id: u32| !#[trigger] counted(blocks@, ignored@, id) by {
                    if occurrences(blocks@, id) > 0 {
                        lemma_occurs_somewhere(blocks@, id);
                        let k = choose|k: int| 0 <= k < blocks@.len() && blocks@[k] == id;
                        assert(!counted(blocks@, ignored@, blocks@[k]));
                    }
                }
            }
            0
        },
    }
}

} // verus!
