//! The rules of the per-frame pass.
//!
//! A pass takes what the camera decided about every chunk, triangle and
//! vertex, and applies it to the elements that take part: those of chunks in
//! view whose priority lies in the band of the pass.  Whatever sits outside
//! the band keeps the result of an earlier pass.  The work on vertices and on
//! triangles is cut into `WORKERS` contiguous index ranges.

use vstd::prelude::*;
use crate::geometry::{Pixel, Uint4};

verus! {

/// The widest window a pass accepts, in pixels.
pub const MAXIMUM_WINDOW_WIDTH: u32 = 4096;

/// The tallest window a pass accepts, in pixels.
pub const MAXIMUM_WINDOW_HEIGHT: u32 = 4096;

/// The number of index ranges that the work of a phase is cut into.
pub const WORKERS: usize = 8;

/// What the camera decided about one triangle.
#[derive(Clone, Copy, Debug, PartialEq, Eq, Structural)]
pub struct TriangleTest {
    /// The face normal points away from the viewer.
    pub facing_away: bool,
    /// The bounding sphere of the triangle lies outside the view frustum.
    pub outside_frustum: bool,
    /// Not all three vertices lie beyond the near plane.
    pub behind_near: bool,
}

impl TriangleTest {
    pub fn new(facing_away: bool, outside_frustum: bool, behind_near: bool) -> (r: Self)
        ensures
            r == (TriangleTest { facing_away, outside_frustum, behind_near }),
    {
        TriangleTest { facing_away, outside_frustum, behind_near }
    }

    /// The triangle fails at least one test.
    pub open spec fn spec_rejected(self) -> bool {
        self.facing_away || self.outside_frustum || self.behind_near
    }

    /// Whether the triangle fails at least one test.
    #[verifier::when_used_as_spec(spec_rejected)]
    pub fn rejected(self) -> (r: bool)
        ensures
            r == self.spec_rejected(),
    {
        self.facing_away || self.outside_frustum || self.behind_near
    }
}

/// Whether a triangle is rejected at the near plane, given for each of its
/// vertices whether it lies beyond the plane.  A triangle that reaches
/// across the plane is rejected whole, not clipped.
pub fn clip_triangle_near_plane_inplace(beyond: [bool; 3]) -> (rejected: bool)
    ensures
        rejected == !(beyond[0] && beyond[1] && beyond[2]),
{
    let mut count: u32 = 0;
    if beyond[0] {
        count += 1;
    }
    if beyond[1] {
        count += 1;
    }
    if beyond[2] {
        count += 1;
    }
    count != 3
}

/// What the camera decided for one frame: per chunk whether its bounding
/// sphere lies outside the frustum, per triangle its tests, per vertex the
/// pixel it projects to.  Entries for elements that take no part in the pass
/// are not read.
pub struct FrameFacts {
    pub chunk_outside: Vec<bool>,
    pub triangles: Vec<TriangleTest>,
    pub projected: Vec<Pixel>,
}

/// Priority `priority` lies in the band `lo..=hi`.
pub open spec fn spec_in_band(priority: usize, lo: usize, hi: usize) -> bool {
    lo <= priority <= hi
}

/// Whether priority `priority` lies in the band `lo..=hi`.
#[verifier::when_used_as_spec(spec_in_band)]
pub fn in_band(priority: usize, lo: usize, hi: usize) -> (inside: bool)
    ensures
        inside == spec_in_band(priority, lo, hi),
{
    lo <= priority && priority <= hi
}

/// Vertex `v` takes part in the pass: its chunk is in view and its priority
/// lies in the band.
pub open spec fn vertex_in_pass(
    chunk_of: Seq<usize>,
    priority: Seq<usize>,
    hidden: Seq<bool>,
    lo: usize,
    hi: usize,
    v: int,
) -> bool {
    !hidden[chunk_of[v] as int] && in_band(priority[v], lo, hi)
}

/// The scratch array once the vertices below `upto` are through the pass:
/// those that take part hold their new pixel, the others what they held.
pub open spec fn scratch_after(
    scratch: Seq<Pixel>,
    projected: Seq<Pixel>,
    chunk_of: Seq<usize>,
    priority: Seq<usize>,
    hidden: Seq<bool>,
    lo: usize,
    hi: usize,
    upto: int,
) -> Seq<Pixel> {
    Seq::new(
        scratch.len(),
        |v: int|
            if v < upto && vertex_in_pass(chunk_of, priority, hidden, lo, hi, v) {
                projected[v]
            } else {
                scratch[v]
            },
    )
}

/// Whether triangle `t` is dead after the pass.  In a culled chunk it is,
/// whatever its priority; outside the band it stays as it was; otherwise it
/// is dead exactly if it fails a test.
pub open spec fn dead_verdict(
    indices: Seq<Uint4>,
    chunk_of: Seq<usize>,
    priority: Seq<usize>,
    hidden: Seq<bool>,
    tests: Seq<TriangleTest>,
    was: Seq<bool>,
    lo: usize,
    hi: usize,
    t: int,
) -> bool {
    if hidden[chunk_of[t] as int] {
        true
    } else if !in_band(priority[indices[t].x as int], lo, hi) {
        was[t]
    } else {
        tests[t].rejected()
    }
}

/// The dead flags once the triangles below `upto` are through the pass.
pub open spec fn dead_after(
    indices: Seq<Uint4>,
    chunk_of: Seq<usize>,
    priority: Seq<usize>,
    hidden: Seq<bool>,
    tests: Seq<TriangleTest>,
    was: Seq<bool>,
    lo: usize,
    hi: usize,
    upto: int,
) -> Seq<bool> {
    Seq::new(
        was.len(),
        |t: int|
            if t < upto {
                dead_verdict(indices, chunk_of, priority, hidden, tests, was, lo, hi, t)
            } else {
                was[t]
            },
    )
}

/// The `k`-th of the `WORKERS` ranges that `length` indices are cut into, as
/// start and end: equal shares, and the last range takes the remainder.
pub open spec fn work_range(length: int, k: int) -> (int, int) {
    let share = length / (WORKERS as int);
    (
        k * share,
        if k == WORKERS - 1 {
            length
        } else {
            (k + 1) * share
        },
    )
}

/// The ranges of `work_range` tile `0..length`: they start at 0, each begins
/// where the one before ends, none runs backwards, and the last ends at
/// `length`.
pub proof fn lemma_work_ranges_tile(length: int)
    requires
        0 <= length,
    ensures
        work_range(length, 0).0 == 0,
        work_range(length, WORKERS - 1).1 == length,
        forall|k: int|
            0 <= k < WORKERS ==> 0 <= (#[trigger] work_range(length, k)).0 <= work_range(
                length,
                k,
            ).1 <= length,
        forall|k: int|
            0 <= k < WORKERS - 1 ==> (#[trigger] work_range(length, k)).1 == work_range(
                length,
                k + 1,
            ).0,
{
    let share = length / (WORKERS as int);
    assert forall|k: int| 0 <= k < WORKERS implies 0 <= (#[trigger] work_range(length, k)).0
        <= work_range(length, k).1 <= length by {
        assert(0 <= k * share && k * share <= (k + 1) * share && (k + 1) * share <= 8 * share)
            by (nonlinear_arith)
            requires
                0 <= k < 8,
                0 <= share,
        ;
    }
}

/// Every index below `length` lies in exactly one of the ranges.
pub proof fn lemma_work_ranges_partition(length: int, i: int)
    requires
        0 <= i < length,
    ensures
        exists|k: int|
            0 <= k < WORKERS && (#[trigger] work_range(length, k)).0 <= i < work_range(length, k).1,
        forall|j: int, k: int|
            0 <= j < WORKERS && 0 <= k < WORKERS && (#[trigger] work_range(length, j)).0 <= i
                < work_range(length, j).1 && (#[trigger] work_range(length, k)).0 <= i
                < work_range(length, k).1 ==> j == k,
{
    let share = length / (WORKERS as int);
    let r0 = work_range(length, 0);
    let r1 = work_range(length, 1);
    let r2 = work_range(length, 2);
    let r3 = work_range(length, 3);
    let r4 = work_range(length, 4);
    let r5 = work_range(length, 5);
    let r6 = work_range(length, 6);
    let r7 = work_range(length, 7);
    assert(r0.0 <= i < r0.1 || r1.0 <= i < r1.1 || r2.0 <= i < r2.1 || r3.0 <= i < r3.1 || r4.0
        <= i < r4.1 || r5.0 <= i < r5.1 || r6.0 <= i < r6.1 || r7.0 <= i < r7.1);
    assert forall|j: int, k: int|
        0 <= j < WORKERS && 0 <= k < WORKERS && (#[trigger] work_range(length, j)).0 <= i
            < work_range(length, j).1 && (#[trigger] work_range(length, k)).0 <= i < work_range(
            length,
            k,
        ).1 implies j == k by {
        if j < k {
            assert((j + 1) * share <= k * share) by (nonlinear_arith)
                requires
                    j + 1 <= k,
                    0 <= share,
            ;
        } else if k < j {
            assert((k + 1) * share <= j * share) by (nonlinear_arith)
                requires
                    k + 1 <= j,
                    0 <= share,
            ;
        }
    }
}

/// Cuts `0..length` into `WORKERS` contiguous ranges.
pub fn work_ranges(length: usize) -> (ranges: Vec<(usize, usize)>)
    ensures
        ranges@.len() == WORKERS,
        forall|k: int|
            0 <= k < WORKERS ==> (#[trigger] ranges@[k]).0 == work_range(length as int, k).0
                && ranges@[k].1 == work_range(length as int, k).1,
{
    let share: usize = length / WORKERS;
    let mut ranges: Vec<(usize, usize)> = Vec::new();
    let mut k: usize = 0;
    while k < WORKERS
        invariant
            k <= WORKERS,
            share == length / WORKERS,
            ranges@.len() == k,
            forall|j: int|
                0 <= j < k ==> (#[trigger] ranges@[j]).0 == work_range(length as int, j).0
                    && ranges@[j].1 == work_range(length as int, j).1,
        decreases WORKERS - k,
    {
        assert(k * share <= (k + 1) * share && (k + 1) * share <= 8 * share) by (nonlinear_arith)
            requires
                0 <= k < 8,
                0 <= share,
        ;
        let start: usize = k * share;
        let end: usize = if k == WORKERS - 1 {
            length
        } else {
            (k + 1) * share
        };
        ranges.push((start, end));
        k += 1;
    }
    ranges
}

/// Whether vertex `v` takes part in the pass.
pub fn vertex_takes_part(
    chunk_of: &Vec<usize>,
    priority: &Vec<usize>,
    hidden: &Vec<bool>,
    lo: usize,
    hi: usize,
    v: usize,
) -> (part: bool)
    requires
        v < chunk_of.len(),
        v < priority.len(),
        chunk_of@[v as int] < hidden.len(),
    ensures
        part == vertex_in_pass(chunk_of@, priority@, hidden@, lo, hi, v as int),
{
    !hidden[chunk_of[v]] && in_band(priority[v], lo, hi)
}

/// Puts vertices `start..end` through the pass.
fn project_range(
    scratch: &mut Vec<Pixel>,
    projected: &Vec<Pixel>,
    chunk_of: &Vec<usize>,
    priority: &Vec<usize>,
    hidden: &Vec<bool>,
    lo: usize,
    hi: usize,
    start: usize,
    end: usize,
)
    requires
        start <= end <= chunk_of.len(),
        priority.len() == chunk_of.len(),
        projected.len() == chunk_of.len(),
        chunk_of.len() <= old(scratch).len(),
        forall|v: int| 0 <= v < chunk_of@.len() ==> (#[trigger] chunk_of@[v]) < hidden.len(),
    ensures
        final(scratch)@ == Seq::new(
            old(scratch)@.len(),
            |v: int|
                if start <= v < end && vertex_in_pass(chunk_of@, priority@, hidden@, lo, hi, v) {
                    projected@[v]
                } else {
                    old(scratch)@[v]
                },
        ),
{
    let mut v: usize = start;
    while v < end
        invariant
            start <= v <= end <= chunk_of.len(),
            priority.len() == chunk_of.len(),
            projected.len() == chunk_of.len(),
            chunk_of.len() <= scratch.len(),
            scratch.len() == old(scratch).len(),
            forall|u: int| 0 <= u < chunk_of@.len() ==> (#[trigger] chunk_of@[u]) < hidden.len(),
            scratch@ == Seq::new(
                old(scratch)@.len(),
                |u: int|
                    if start <= u < v && vertex_in_pass(chunk_of@, priority@, hidden@, lo, hi, u) {
                        projected@[u]
                    } else {
                        old(scratch)@[u]
                    },
            ),
        decreases end - v,
    {
        if vertex_takes_part(chunk_of, priority, hidden, lo, hi, v) {
            scratch[v] = projected[v];
        }
        v += 1;
        proof {
            assert(scratch@ =~= Seq::new(
                old(scratch)@.len(),
                |u: int|
                    if start <= u < v && vertex_in_pass(chunk_of@, priority@, hidden@, lo, hi, u) {
                        projected@[u]
                    } else {
                        old(scratch)@[u]
                    },
            ));
        }
    }
    proof {
        assert(scratch@ =~= Seq::new(
            old(scratch)@.len(),
            |u: int|
                if start <= u < end && vertex_in_pass(chunk_of@, priority@, hidden@, lo, hi, u) {
                    projected@[u]
                } else {
                    old(scratch)@[u]
                },
        ));
    }
}

/// Puts every vertex through the pass, range by range.
pub fn project_vertices(
    scratch: &mut Vec<Pixel>,
    projected: &Vec<Pixel>,
    chunk_of: &Vec<usize>,
    priority: &Vec<usize>,
    hidden: &Vec<bool>,
    lo: usize,
    hi: usize,
)
    requires
        priority.len() == chunk_of.len(),
        projected.len() == chunk_of.len(),
        chunk_of.len() <= old(scratch).len(),
        forall|v: int| 0 <= v < chunk_of@.len() ==> (#[trigger] chunk_of@[v]) < hidden.len(),
    ensures
        final(scratch)@ == scratch_after(
            old(scratch)@,
            projected@,
            chunk_of@,
            priority@,
            hidden@,
            lo,
            hi,
            chunk_of@.len() as int,
        ),
{
    let ranges: Vec<(usize, usize)> = work_ranges(chunk_of.len());
    proof {
        lemma_work_ranges_tile(chunk_of@.len() as int);
        assert(scratch@ =~= scratch_after(
            old(scratch)@,
            projected@,
            chunk_of@,
            priority@,
            hidden@,
            lo,
            hi,
            0,
        ));
    }
    let mut k: usize = 0;
    while k < WORKERS
        invariant
            k <= WORKERS,
            ranges@.len() == WORKERS,
            forall|j: int|
                0 <= j < WORKERS ==> (#[trigger] ranges@[j]).0 == work_range(
                    chunk_of@.len() as int,
                    j,
                ).0 && ranges@[j].1 == work_range(chunk_of@.len() as int, j).1,
            priority.len() == chunk_of.len(),
            projected.len() == chunk_of.len(),
            chunk_of.len() <= scratch.len(),
            scratch.len() == old(scratch).len(),
            forall|v: int| 0 <= v < chunk_of@.len() ==> (#[trigger] chunk_of@[v]) < hidden.len(),
            scratch@ == scratch_after(
                old(scratch)@,
                projected@,
                chunk_of@,
                priority@,
                hidden@,
                lo,
                hi,
                if k == WORKERS {
                    chunk_of@.len() as int
                } else {
                    work_range(chunk_of@.len() as int, k as int).0
                },
            ),
        decreases WORKERS - k,
    {
        proof {
            lemma_work_ranges_tile(chunk_of@.len() as int);
        }
        let start: usize = ranges[k].0;
        let end: usize = ranges[k].1;
        project_range(scratch, projected, chunk_of, priority, hidden, lo, hi, start, end);
        k += 1;
        proof {
            assert(scratch@ =~= scratch_after(
                old(scratch)@,
                projected@,
                chunk_of@,
                priority@,
                hidden@,
                lo,
                hi,
                end as int,
            ));
        }
    }
}

/// Whether triangle `t` is dead after the pass.
pub fn triangle_verdict(
    indices: &Vec<Uint4>,
    chunk_of: &Vec<usize>,
    priority: &Vec<usize>,
    hidden: &Vec<bool>,
    tests: &Vec<TriangleTest>,
    was: &Vec<bool>,
    lo: usize,
    hi: usize,
    t: usize,
) -> (dead: bool)
    requires
        t < indices.len(),
        chunk_of.len() == indices.len(),
        tests.len() == indices.len(),
        was.len() == indices.len(),
        chunk_of@[t as int] < hidden.len(),
        indices@[t as int].x < priority.len(),
    ensures
        dead == dead_verdict(indices@, chunk_of@, priority@, hidden@, tests@, was@, lo, hi, t as int),
{
    if hidden[chunk_of[t]] {
        true
    } else if !in_band(priority[indices[t].x as usize], lo, hi) {
        was[t]
    } else {
        tests[t].rejected()
    }
}

/// Puts triangles `start..end` through the pass.
fn cull_range(
    dead: &mut Vec<bool>,
    indices: &Vec<Uint4>,
    chunk_of: &Vec<usize>,
    priority: &Vec<usize>,
    hidden: &Vec<bool>,
    tests: &Vec<TriangleTest>,
    lo: usize,
    hi: usize,
    start: usize,
    end: usize,
)
    requires
        start <= end <= indices.len(),
        chunk_of.len() == indices.len(),
        tests.len() == indices.len(),
        old(dead).len() == indices.len(),
        forall|t: int| 0 <= t < chunk_of@.len() ==> (#[trigger] chunk_of@[t]) < hidden.len(),
        forall|t: int| 0 <= t < indices@.len() ==> (#[trigger] indices@[t]).x < priority.len(),
    ensures
        final(dead)@ == Seq::new(
            old(dead)@.len(),
            |t: int|
                if start <= t < end {
                    dead_verdict(
                        indices@,
                        chunk_of@,
                        priority@,
                        hidden@,
                        tests@,
                        old(dead)@,
                        lo,
                        hi,
                        t,
                    )
                } else {
                    old(dead)@[t]
                },
        ),
{
    let mut t: usize = start;
    while t < end
        invariant
            start <= t <= end <= indices.len(),
            chunk_of.len() == indices.len(),
            tests.len() == indices.len(),
            dead.len() == indices.len(),
            old(dead).len() == indices.len(),
            forall|u: int| 0 <= u < chunk_of@.len() ==> (#[trigger] chunk_of@[u]) < hidden.len(),
            forall|u: int| 0 <= u < indices@.len() ==> (#[trigger] indices@[u]).x < priority.len(),
            dead@ == Seq::new(
                old(dead)@.len(),
                |u: int|
                    if start <= u < t {
                        dead_verdict(
                            indices@,
                            chunk_of@,
                            priority@,
                            hidden@,
                            tests@,
                            old(dead)@,
                            lo,
                            hi,
                            u,
                        )
                    } else {
                        old(dead)@[u]
                    },
            ),
        decreases end - t,
    {
        let ghost held = dead@;
        let verdict: bool = triangle_verdict(
            indices,
            chunk_of,
            priority,
            hidden,
            tests,
            dead,
            lo,
            hi,
            t,
        );
        dead[t] = verdict;
        t += 1;
        proof {
            assert(held[t - 1] == old(dead)@[t - 1]);
            assert(dead@ =~= Seq::new(
                old(dead)@.len(),
                |u: int|
                    if start <= u < t {
                        dead_verdict(
                            indices@,
                            chunk_of@,
                            priority@,
                            hidden@,
                            tests@,
                            old(dead)@,
                            lo,
                            hi,
                            u,
                        )
                    } else {
                        old(dead)@[u]
                    },
            ));
        }
    }
    proof {
        assert(dead@ =~= Seq::new(
            old(dead)@.len(),
            |u: int|
                if start <= u < end {
                    dead_verdict(
                        indices@,
                        chunk_of@,
                        priority@,
                        hidden@,
                        tests@,
                        old(dead)@,
                        lo,
                        hi,
                        u,
                    )
                } else {
                    old(dead)@[u]
                },
        ));
    }
}

/// Puts every triangle through the pass, range by range.
pub fn cull_triangles(
    dead: &mut Vec<bool>,
    indices: &Vec<Uint4>,
    chunk_of: &Vec<usize>,
    priority: &Vec<usize>,
    hidden: &Vec<bool>,
    tests: &Vec<TriangleTest>,
    lo: usize,
    hi: usize,
)
    requires
        chunk_of.len() == indices.len(),
        tests.len() == indices.len(),
        old(dead).len() == indices.len(),
        forall|t: int| 0 <= t < chunk_of@.len() ==> (#[trigger] chunk_of@[t]) < hidden.len(),
        forall|t: int| 0 <= t < indices@.len() ==> (#[trigger] indices@[t]).x < priority.len(),
    ensures
        final(dead)@ == dead_after(
            indices@,
            chunk_of@,
            priority@,
            hidden@,
            tests@,
            old(dead)@,
            lo,
            hi,
            indices@.len() as int,
        ),
{
    let ranges: Vec<(usize, usize)> = work_ranges(indices.len());
    proof {
        lemma_work_ranges_tile(indices@.len() as int);
        assert(dead@ =~= dead_after(
            indices@,
            chunk_of@,
            priority@,
            hidden@,
            tests@,
            old(dead)@,
            lo,
            hi,
            0,
        ));
    }
    let mut k: usize = 0;
    while k < WORKERS
        invariant
            k <= WORKERS,
            ranges@.len() == WORKERS,
            forall|j: int|
                0 <= j < WORKERS ==> (#[trigger] ranges@[j]).0 == work_range(
                    indices@.len() as int,
                    j,
                ).0 && ranges@[j].1 == work_range(indices@.len() as int, j).1,
            chunk_of.len() == indices.len(),
            tests.len() == indices.len(),
            dead.len() == indices.len(),
            old(dead).len() == indices.len(),
            forall|t: int| 0 <= t < chunk_of@.len() ==> (#[trigger] chunk_of@[t]) < hidden.len(),
            forall|t: int| 0 <= t < indices@.len() ==> (#[trigger] indices@[t]).x < priority.len(),
            dead@ == dead_after(
                indices@,
                chunk_of@,
                priority@,
                hidden@,
                tests@,
                old(dead)@,
                lo,
                hi,
                if k == WORKERS {
                    indices@.len() as int
                } else {
                    work_range(indices@.len() as int, k as int).0
                },
            ),
        decreases WORKERS - k,
    {
        proof {
            lemma_work_ranges_tile(indices@.len() as int);
        }
        let start: usize = ranges[k].0;
        let end: usize = ranges[k].1;
        let ghost held = dead@;
        cull_range(dead, indices, chunk_of, priority, hidden, tests, lo, hi, start, end);
        k += 1;
        proof {
            assert forall|t: int| start <= t < end implies dead_verdict(
                indices@,
                chunk_of@,
                priority@,
                hidden@,
                tests@,
                held,
                lo,
                hi,
                t,
            ) == dead_verdict(
                indices@,
                chunk_of@,
                priority@,
                hidden@,
                tests@,
                old(dead)@,
                lo,
                hi,
                t,
            ) by {
                assert(held[t] == old(dead)@[t]);
            }
            assert(dead@ =~= dead_after(
                indices@,
                chunk_of@,
                priority@,
                hidden@,
                tests@,
                old(dead)@,
                lo,
                hi,
                end as int,
            ));
        }
    }
}

} // verus!
