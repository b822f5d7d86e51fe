//! The screen-space bin table.
//!
//! The screen is cut into square cells of `CELL_SIZE` pixels.  The table is a
//! flat array with one group of `BIN_STRIDE` words per cell, row by row: word
//! 0 of a group counts the triangles queued in the cell and words 1..=63 hold
//! their indices.  A cell keeps the first `BIN_CAPACITY` live triangles that
//! touch it, in ascending order, and drops the rest.

use vstd::prelude::*;
use vstd::arithmetic::div_mod::{lemma_fundamental_div_mod, lemma_fundamental_div_mod_converse};
use crate::geometry::{Pixel, Uint4};

verus! {

/// Edge of a cell, in pixels.
pub const CELL_SIZE: u32 = 4;

/// Words per cell in the table.
pub const BIN_STRIDE: usize = 64;

/// Triangles a cell can queue.
pub const BIN_CAPACITY: u32 = 63;

/// Cells needed to span `pixels` pixels: the quotient rounded up.
pub open spec fn cells_across(pixels: int) -> int {
    (pixels + CELL_SIZE - 1) / (CELL_SIZE as int)
}

/// The cell that holds pixel coordinate `p` (left of the screen the cells
/// have negative numbers).
pub open spec fn cell_of(p: int) -> int {
    p / (CELL_SIZE as int)
}

pub open spec fn min3(a: int, b: int, c: int) -> int {
    if a <= b && a <= c {
        a
    } else if b <= c {
        b
    } else {
        c
    }
}

pub open spec fn max3(a: int, b: int, c: int) -> int {
    if a >= b && a >= c {
        a
    } else if b >= c {
        b
    } else {
        c
    }
}

/// Cell `c` lies between the cells of the least and the greatest of three
/// pixel coordinates, both included.
pub open spec fn spans(a: int, b: int, c: int, cell: int) -> bool {
    cell_of(min3(a, b, c)) <= cell <= cell_of(max3(a, b, c))
}

/// The bounding box of the three pixels overlaps cell `(cx, cy)`.
pub open spec fn covers(a: Pixel, b: Pixel, c: Pixel, cx: int, cy: int) -> bool {
    spans(a.x as int, b.x as int, c.x as int, cx) && spans(a.y as int, b.y as int, c.y as int, cy)
}

/// Triangle `t` is live and its screen-space bounding box overlaps the cell.
pub open spec fn lands(
    indices: Seq<Uint4>,
    dead: Seq<bool>,
    pixels: Seq<Pixel>,
    t: int,
    cx: int,
    cy: int,
) -> bool {
    !dead[t] && covers(
        pixels[indices[t].x as int],
        pixels[indices[t].y as int],
        pixels[indices[t].z as int],
        cx,
        cy,
    )
}

/// The live triangles below `n` that overlap the cell, in ascending order.
pub open spec fn cell_queue(
    indices: Seq<Uint4>,
    dead: Seq<bool>,
    pixels: Seq<Pixel>,
    n: int,
    cx: int,
    cy: int,
) -> Seq<u32>
    decreases n,
{
    if n <= 0 {
        Seq::empty()
    } else {
        let rest = cell_queue(indices, dead, pixels, n - 1, cx, cy);
        if lands(indices, dead, pixels, n - 1, cx, cy) {
            rest.push((n - 1) as u32)
        } else {
            rest
        }
    }
}

/// What a cell reports of a queue: its length, capped at the capacity.
pub open spec fn bin_count(queue: Seq<u32>) -> int {
    if queue.len() < BIN_CAPACITY {
        queue.len() as int
    } else {
        BIN_CAPACITY as int
    }
}

/// Word `i` of the table once the first `n` triangles are binned into a grid
/// of `gw` by `gh` cells.  Groups past the grid only have their count
/// cleared; slots past a cell's count and words past the last whole group
/// keep what they held.
pub open spec fn bin_entry(
    before: Seq<u32>,
    gw: int,
    gh: int,
    indices: Seq<Uint4>,
    dead: Seq<bool>,
    pixels: Seq<Pixel>,
    n: int,
    i: int,
) -> u32 {
    let group = i / (BIN_STRIDE as int);
    let slot = i % (BIN_STRIDE as int);
    if group >= (before.len() as int) / (BIN_STRIDE as int) {
        before[i]
    } else if group >= gw * gh {
        if slot == 0 {
            0
        } else {
            before[i]
        }
    } else {
        let queue = cell_queue(indices, dead, pixels, n, group % gw, group / gw);
        if slot == 0 {
            bin_count(queue) as u32
        } else if slot <= bin_count(queue) {
            queue[slot - 1]
        } else {
            before[i]
        }
    }
}

/// The table after binning every triangle of the scene.
pub open spec fn binned_table(
    before: Seq<u32>,
    gw: int,
    gh: int,
    indices: Seq<Uint4>,
    dead: Seq<bool>,
    pixels: Seq<Pixel>,
) -> Seq<u32> {
    Seq::new(
        before.len(),
        |i: int| bin_entry(before, gw, gh, indices, dead, pixels, indices.len() as int, i),
    )
}

/// Every triangle names three entries of the pixel array.
pub open spec fn indices_within(indices: Seq<Uint4>, vertex_count: int) -> bool {
    forall|t: int|
        0 <= t < indices.len() ==> (#[trigger] indices[t]).x < vertex_count && indices[t].y
            < vertex_count && indices[t].z < vertex_count
}

/// Cells needed to span `pixels` pixels.
pub fn grid_cells(pixels: u32) -> (cells: u32)
    ensures
        cells == cells_across(pixels as int),
{
    let whole: u32 = pixels / CELL_SIZE;
    if pixels % CELL_SIZE == 0 {
        whole
    } else {
        whole + 1
    }
}

/// The cells of `0..cells` between the cells of the least and the greatest of
/// three pixel coordinates, as an inclusive range; `None` where there is none.
pub fn cell_span(a: i32, b: i32, c: i32, cells: u32) -> (span: Option<(u32, u32)>)
    ensures
        match span {
            Some((lo, hi)) => lo <= hi < cells && forall|cell: int|
                0 <= cell < cells ==> (lo <= cell <= hi <==> #[trigger] spans(
                    a as int,
                    b as int,
                    c as int,
                    cell,
                )),
            None => forall|cell: int|
                0 <= cell < cells ==> !#[trigger] spans(a as int, b as int, c as int, cell),
        },
{
    let least: i32 = if a <= b && a <= c {
        a
    } else if b <= c {
        b
    } else {
        c
    };
    let greatest: i32 = if a >= b && a >= c {
        a
    } else if b >= c {
        b
    } else {
        c
    };
    if greatest < 0 || cells == 0 {
        return None;
    }
    let lo: u32 = if least < 0 {
        0
    } else {
        (least as u32) / CELL_SIZE
    };
    let top: u32 = (greatest as u32) / CELL_SIZE;
    let hi: u32 = if top < cells {
        top
    } else {
        cells - 1
    };
    if lo > hi {
        return None;
    }
    Some((lo, hi))
}

/// The cell of a group is the cell the group was numbered from.
proof fn lemma_group_of_cell(gw: int, cx: int, cy: int)
    requires
        0 <= cx < gw,
    ensures
        (cy * gw + cx) / gw == cy,
        (cy * gw + cx) % gw == cx,
{
    lemma_fundamental_div_mod_converse(cy * gw + cx, gw, cy, cx);
}

/// A group inside the grid belongs to exactly one cell of it.
proof fn lemma_cell_of_group(gw: int, gh: int, group: int)
    requires
        0 <= group < gw * gh,
        0 <= gw,
        0 <= gh,
    ensures
        0 <= group % gw < gw,
        0 <= group / gw < gh,
        group == (group / gw) * gw + group % gw,
{
    assert(gw > 0) by (nonlinear_arith)
        requires
            0 <= group < gw * gh,
            0 <= gw,
    ;
    lemma_fundamental_div_mod(group, gw);
    let q = group / gw;
    let r = group % gw;
    assert(gw * q == q * gw) by (nonlinear_arith);
    assert(0 <= q < gh) by (nonlinear_arith)
        requires
            group == q * gw + r,
            0 <= r < gw,
            0 <= group < gw * gh,
            0 <= gh,
    ;
}

/// The first word of the group of cell `(cx, cy)`.
pub open spec fn cell_base(gw: int, cx: int, cy: int) -> int {
    (cy * gw + cx) * (BIN_STRIDE as int)
}

proof fn lemma_cell_base_bound(gw: int, gh: int, cx: int, cy: int)
    requires
        0 <= cx < gw,
        0 <= cy < gh,
    ensures
        0 <= cy * gw + cx < gw * gh,
        0 <= cy * gw <= gw * gh,
{
    assert(0 <= cy * gw && cy * gw + gw <= gw * gh) by (nonlinear_arith)
        requires
            0 <= cx < gw,
            0 <= cy < gh,
    ;
}

/// Cells of the box `lo_x..=hi_x` by `lo_y..=hi_y` that a scan standing at
/// `(x, y)` has passed: whole columns left of `x`, and column `x` below `y`.
spec fn passed(lo_x: int, lo_y: int, hi_y: int, x: int, y: int, cx: int, cy: int) -> bool {
    lo_y <= cy <= hi_y && (lo_x <= cx < x || (cx == x && cy < y))
}

/// Word `i` of the table while triangle `n` is being binned.
spec fn mid_entry(
    before: Seq<u32>,
    gw: int,
    gh: int,
    indices: Seq<Uint4>,
    dead: Seq<bool>,
    pixels: Seq<Pixel>,
    n: int,
    lo_x: int,
    lo_y: int,
    hi_y: int,
    x: int,
    y: int,
    i: int,
) -> u32 {
    let group = i / (BIN_STRIDE as int);
    let seen = 0 <= group < gw * gh && passed(lo_x, lo_y, hi_y, x, y, group % gw, group / gw);
    bin_entry(
        before,
        gw,
        gh,
        indices,
        dead,
        pixels,
        if seen {
            n + 1
        } else {
            n
        },
        i,
    )
}

/// Clears the count of every whole group of the table.
fn clear_counts(table: &mut Vec<u32>)
    ensures
        final(table)@.len() == old(table)@.len(),
        forall|i: int|
            0 <= i < old(table)@.len() ==> #[trigger] final(table)@[i] == (if i % 64 == 0 && i / 64
                < old(table)@.len() / 64 {
                0u32
            } else {
                old(table)@[i]
            }),
{
    let groups: usize = table.len() / BIN_STRIDE;
    let mut g: usize = 0;
    while g < groups
        invariant
            groups == old(table).len() / 64,
            table.len() == old(table).len(),
            g <= groups,
            forall|i: int|
                0 <= i < table@.len() ==> #[trigger] table@[i] == (if i % 64 == 0 && i / 64 < g {
                    0u32
                } else {
                    old(table)@[i]
                }),
        decreases groups - g,
    {
        table[g * BIN_STRIDE] = 0;
        g += 1;
    }
}

/// Queues triangle `tri` in the group that starts at `base`, unless the group
/// is full.
fn enqueue(table: &mut Vec<u32>, base: usize, tri: u32)
    requires
        base + BIN_STRIDE <= old(table).len(),
    ensures
        final(table)@ == (if old(table)@[base as int] < BIN_CAPACITY {
            old(table)@.update(base as int, (old(table)@[base as int] + 1) as u32).update(
                base + old(table)@[base as int] + 1,
                tri,
            )
        } else {
            old(table)@
        }),
{
    let count: u32 = table[base];
    if count < BIN_CAPACITY {
        table[base] = count + 1;
        table[base + (count as usize) + 1] = tri;
    }
}

/// Bins every live triangle into the cells that its screen-space bounding
/// box overlaps, after clearing every count.
pub fn bin_triangles(
    table: &mut Vec<u32>,
    gw: u32,
    gh: u32,
    indices: &Vec<Uint4>,
    dead: &Vec<bool>,
    pixels: &Vec<Pixel>,
)
    requires
        dead@.len() == indices@.len(),
        indices@.len() <= u32::MAX,
        indices_within(indices@, pixels@.len() as int),
        gw * gh * BIN_STRIDE <= old(table).len(),
    ensures
        final(table)@ == binned_table(
            old(table)@,
            gw as int,
            gh as int,
            indices@,
            dead@,
            pixels@,
        ),
{
    clear_counts(table);
    let ghost before = old(table)@;
    proof {
        assert forall|i: int| 0 <= i < table@.len() implies #[trigger] table@[i] == bin_entry(
            before,
            gw as int,
            gh as int,
            indices@,
            dead@,
            pixels@,
            0,
            i,
        ) by {}
    }
    let mut n: usize = 0;
    while n < indices.len()
        invariant
            n <= indices@.len(),
            dead@.len() == indices@.len(),
            indices@.len() <= u32::MAX,
            indices_within(indices@, pixels@.len() as int),
            gw * gh * BIN_STRIDE <= before.len(),
            table.len() == before.len(),
            forall|i: int|
                0 <= i < table@.len() ==> #[trigger] table@[i] == bin_entry(
                    before,
                    gw as int,
                    gh as int,
                    indices@,
                    dead@,
                    pixels@,
                    n as int,
                    i,
                ),
        decreases indices@.len() - n,
    {
        let tri: Uint4 = indices[n];
        let a: Pixel = pixels[tri.x as usize];
        let b: Pixel = pixels[tri.y as usize];
        let c: Pixel = pixels[tri.z as usize];
        let across: Option<(u32, u32)> = if dead[n] {
            None
        } else {
            cell_span(a.x, b.x, c.x, gw)
        };
        let down: Option<(u32, u32)> = if dead[n] {
            None
        } else {
            cell_span(a.y, b.y, c.y, gh)
        };
        match (across, down) {
            (Some((lo_x, hi_x)), Some((lo_y, hi_y))) => {
                let mut x: u32 = lo_x;
                while x <= hi_x
                    invariant
                        n < indices@.len(),
                        indices@.len() <= u32::MAX,
                        lo_x <= x <= hi_x + 1,
                        hi_x < gw,
                        lo_y <= hi_y < gh,
                        gw * gh * BIN_STRIDE <= before.len(),
                        table.len() == before.len(),
                        forall|cx: int, cy: int|
                            lo_x <= cx <= hi_x && lo_y <= cy <= hi_y ==> #[trigger] lands(
                                indices@,
                                dead@,
                                pixels@,
                                n as int,
                                cx,
                                cy,
                            ),
                        forall|i: int|
                            0 <= i < table@.len() ==> #[trigger] table@[i] == mid_entry(
                                before,
                                gw as int,
                                gh as int,
                                indices@,
                                dead@,
                                pixels@,
                                n as int,
                                lo_x as int,
                                lo_y as int,
                                hi_y as int,
                                x as int,
                                lo_y as int,
                                i,
                            ),
                    decreases hi_x + 1 - x,
                {
                    let mut y: u32 = lo_y;
                    while y <= hi_y
                        invariant
                            n < indices@.len(),
                            indices@.len() <= u32::MAX,
                            lo_x <= x <= hi_x,
                            hi_x < gw,
                            lo_y <= y <= hi_y + 1,
                            hi_y < gh,
                            gw * gh * BIN_STRIDE <= before.len(),
                            table.len() == before.len(),
                            forall|cx: int, cy: int|
                                lo_x <= cx <= hi_x && lo_y <= cy <= hi_y ==> #[trigger] lands(
                                    indices@,
                                    dead@,
                                    pixels@,
                                    n as int,
                                    cx,
                                    cy,
                                ),
                            forall|i: int|
                                0 <= i < table@.len() ==> #[trigger] table@[i] == mid_entry(
                                    before,
                                    gw as int,
                                    gh as int,
                                    indices@,
                                    dead@,
                                    pixels@,
                                    n as int,
                                    lo_x as int,
                                    lo_y as int,
                                    hi_y as int,
                                    x as int,
                                    y as int,
                                    i,
                                ),
                        decreases hi_y + 1 - y,
                    {
                        proof {
                            lemma_cell_base_bound(gw as int, gh as int, x as int, y as int);
                        }
                        let row: usize = (y as usize) * (gw as usize);
                        let base: usize = (row + x as usize) * BIN_STRIDE;
                        let ghost held = table@;
                        enqueue(table, base, n as u32);
                        proof {
                            lemma_enqueue_step(
                                before,
                                gw as int,
                                gh as int,
                                indices@,
                                dead@,
                                pixels@,
                                n as int,
                                lo_x as int,
                                lo_y as int,
                                hi_y as int,
                                x as int,
                                y as int,
                                held,
                                table@,
                            );
                        }
                        y += 1;
                    }
                    proof {
                        assert forall|i: int| 0 <= i < table@.len() implies #[trigger] table@[i]
                            == mid_entry(
                            before,
                            gw as int,
                            gh as int,
                            indices@,
                            dead@,
                            pixels@,
                            n as int,
                            lo_x as int,
                            lo_y as int,
                            hi_y as int,
                            x + 1,
                            lo_y as int,
                            i,
                        ) by {
                            let group = i / (BIN_STRIDE as int);
                            assert(passed(
                                lo_x as int,
                                lo_y as int,
                                hi_y as int,
                                x as int,
                                hi_y + 1,
                                group % (gw as int),
                                group / (gw as int),
                            ) == passed(
                                lo_x as int,
                                lo_y as int,
                                hi_y as int,
                                x + 1,
                                lo_y as int,
                                group % (gw as int),
                                group / (gw as int),
                            ));
                        }
                    }
                    x += 1;
                }
                proof {
                    assert forall|i: int| 0 <= i < table@.len() implies #[trigger] table@[i]
                        == bin_entry(
                        before,
                        gw as int,
                        gh as int,
                        indices@,
                        dead@,
                        pixels@,
                        n + 1,
                        i,
                    ) by {
                        let group = i / (BIN_STRIDE as int);
                        if group < gw * gh {
                            lemma_cell_of_group(gw as int, gh as int, group);
                            let cx = group % (gw as int);
                            let cy = group / (gw as int);
                            assert(spans(a.x as int, b.x as int, c.x as int, cx) <==> lo_x <= cx
                                <= hi_x);
                            assert(spans(a.y as int, b.y as int, c.y as int, cy) <==> lo_y <= cy
                                <= hi_y);
                        }
                    }
                }
            },
            _ => {
                proof {
                    assert forall|i: int| 0 <= i < table@.len() implies #[trigger] table@[i]
                        == bin_entry(
                        before,
                        gw as int,
                        gh as int,
                        indices@,
                        dead@,
                        pixels@,
                        n + 1,
                        i,
                    ) by {
                        let group = i / (BIN_STRIDE as int);
                        if group < gw * gh {
                            lemma_cell_of_group(gw as int, gh as int, group);
                            let cx = group % (gw as int);
                            let cy = group / (gw as int);
                            if !dead@[n as int] {
                                assert(!spans(a.x as int, b.x as int, c.x as int, cx) || !spans(
                                    a.y as int,
                                    b.y as int,
                                    c.y as int,
                                    cy,
                                ));
                            }
                            assert(!lands(indices@, dead@, pixels@, n as int, cx, cy));
                        }
                    }
                }
            },
        }
        n += 1;
    }
    proof {
        assert(table@ =~= binned_table(
            before,
            gw as int,
            gh as int,
            indices@,
            dead@,
            pixels@,
        ));
    }
}

/// Queueing triangle `n` in cell `(x, y)` moves the scan one cell on.
proof fn lemma_enqueue_step(
    before: Seq<u32>,
    gw: int,
    gh: int,
    indices: Seq<Uint4>,
    dead: Seq<bool>,
    pixels: Seq<Pixel>,
    n: int,
    lo_x: int,
    lo_y: int,
    hi_y: int,
    x: int,
    y: int,
    held: Seq<u32>,
    now: Seq<u32>,
)
    requires
        0 <= n <= u32::MAX,
        0 <= lo_x <= x < gw,
        0 <= lo_y <= y <= hi_y < gh,
        gw * gh * BIN_STRIDE <= before.len(),
        held.len() == before.len(),
        lands(indices, dead, pixels, n, x, y),
        forall|i: int|
            0 <= i < held.len() ==> #[trigger] held[i] == mid_entry(
                before,
                gw,
                gh,
                indices,
                dead,
                pixels,
                n,
                lo_x,
                lo_y,
                hi_y,
                x,
                y,
                i,
            ),
        now == (if held[cell_base(gw, x, y)] < BIN_CAPACITY {
            held.update(cell_base(gw, x, y), (held[cell_base(gw, x, y)] + 1) as u32).update(
                cell_base(gw, x, y) + held[cell_base(gw, x, y)] + 1,
                n as u32,
            )
        } else {
            held
        }),
    ensures
        now.len() == before.len(),
        forall|i: int|
            0 <= i < now.len() ==> #[trigger] now[i] == mid_entry(
                before,
                gw,
                gh,
                indices,
                dead,
                pixels,
                n,
                lo_x,
                lo_y,
                hi_y,
                x,
                y + 1,
                i,
            ),
{
    let cell = y * gw + x;
    let base = cell_base(gw, x, y);
    lemma_cell_base_bound(gw, gh, x, y);
    lemma_group_of_cell(gw, x, y);
    assert(base + BIN_STRIDE <= before.len()) by (nonlinear_arith)
        requires
            base == cell * 64,
            0 <= cell < gw * gh,
            gw * gh * 64 <= before.len(),
    ;
    let queue = cell_queue(indices, dead, pixels, n, x, y);
    let longer = cell_queue(indices, dead, pixels, n + 1, x, y);
    assert(longer == queue.push(n as u32));
    assert(base / 64 == cell && base % 64 == 0);
    assert(held[base] == mid_entry(
        before,
        gw,
        gh,
        indices,
        dead,
        pixels,
        n,
        lo_x,
        lo_y,
        hi_y,
        x,
        y,
        base,
    ));
    assert(held[base] == bin_count(queue));
    assert forall|i: int| 0 <= i < now.len() implies #[trigger] now[i] == mid_entry(
        before,
        gw,
        gh,
        indices,
        dead,
        pixels,
        n,
        lo_x,
        lo_y,
        hi_y,
        x,
        y + 1,
        i,
    ) by {
        let group = i / 64;
        let slot = i % 64;
        assert(held[i] == mid_entry(
            before,
            gw,
            gh,
            indices,
            dead,
            pixels,
            n,
            lo_x,
            lo_y,
            hi_y,
            x,
            y,
            i,
        ));
        if group == cell {
            assert(i == base + slot);
            assert(group < before.len() / 64);
        } else {
            assert(now[i] == held[i]);
            if 0 <= group < gw * gh {
                lemma_cell_of_group(gw, gh, group);
            }
        }
    }
}

/// A queue lists a triangle exactly if the triangle is below the bound, live,
/// and overlaps the cell.
pub proof fn lemma_queue_lists_what_lands(
    indices: Seq<Uint4>,
    dead: Seq<bool>,
    pixels: Seq<Pixel>,
    n: int,
    cx: int,
    cy: int,
    t: int,
)
    requires
        n <= u32::MAX,
        0 <= t <= u32::MAX,
    ensures
        cell_queue(indices, dead, pixels, n, cx, cy).contains(t as u32) <==> t < n && lands(
            indices,
            dead,
            pixels,
            t,
            cx,
            cy,
        ),
    decreases n,
{
    if n > 0 {
        lemma_queue_lists_what_lands(indices, dead, pixels, n - 1, cx, cy, t);
        let rest = cell_queue(indices, dead, pixels, n - 1, cx, cy);
        if lands(indices, dead, pixels, n - 1, cx, cy) {
            let queue = rest.push((n - 1) as u32);
            if rest.contains(t as u32) {
                let i = choose|i: int| 0 <= i < rest.len() && rest[i] == t as u32;
                assert(queue[i] == t as u32);
            }
            if t == n - 1 {
                assert(queue[rest.len() as int] == t as u32);
            }
            if queue.contains(t as u32) {
                let i = choose|i: int| 0 <= i < queue.len() && queue[i] == t as u32;
                if i < rest.len() {
                    assert(rest[i] == t as u32);
                }
            }
        }
    }
}

/// A queue is in ascending order, so it lists no triangle twice, and every
/// entry is below the bound.
pub proof fn lemma_queue_ascends(
    indices: Seq<Uint4>,
    dead: Seq<bool>,
    pixels: Seq<Pixel>,
    n: int,
    cx: int,
    cy: int,
)
    requires
        n <= u32::MAX,
    ensures
        forall|i: int, j: int|
            0 <= i < j < cell_queue(indices, dead, pixels, n, cx, cy).len() ==> cell_queue(
                indices,
                dead,
                pixels,
                n,
                cx,
                cy,
            )[i] < cell_queue(indices, dead, pixels, n, cx, cy)[j],
        forall|i: int|
            0 <= i < cell_queue(indices, dead, pixels, n, cx, cy).len() ==> cell_queue(
                indices,
                dead,
                pixels,
                n,
                cx,
                cy,
            )[i] < n,
        cell_queue(indices, dead, pixels, n, cx, cy).len() <= (if n < 0 {
            0
        } else {
            n
        }),
    decreases n,
{
    if n > 0 {
        lemma_queue_ascends(indices, dead, pixels, n - 1, cx, cy);
    }
}

/// What the table holds for a cell of the grid after binning: word 0 of the
/// group of the cell is the length of the queue of the cell, capped at the
/// capacity, the words after it are the first triangles of the queue, and
/// the slots past the count keep what they held.
pub proof fn lemma_binned_cell(
    before: Seq<u32>,
    gw: int,
    gh: int,
    indices: Seq<Uint4>,
    dead: Seq<bool>,
    pixels: Seq<Pixel>,
    cx: int,
    cy: int,
)
    requires
        0 <= cx < gw,
        0 <= cy < gh,
        gw * gh * BIN_STRIDE <= before.len(),
    ensures
        ({
            let table = binned_table(before, gw, gh, indices, dead, pixels);
            let base = cell_base(gw, cx, cy);
            let queue = cell_queue(indices, dead, pixels, indices.len() as int, cx, cy);
            &&& 0 <= base
            &&& base + BIN_STRIDE <= table.len()
            &&& table[base] == bin_count(queue)
            &&& forall|k: int|
                0 <= k < bin_count(queue) ==> table[base + 1 + k] == #[trigger] queue[k]
            &&& forall|k: int|
                bin_count(queue) <= k < BIN_CAPACITY ==> table[base + 1 + k]
                    == #[trigger] before[base + 1 + k]
        }),
{
    let table = binned_table(before, gw, gh, indices, dead, pixels);
    let cell = cy * gw + cx;
    let base = cell_base(gw, cx, cy);
    let queue = cell_queue(indices, dead, pixels, indices.len() as int, cx, cy);
    lemma_cell_base_bound(gw, gh, cx, cy);
    lemma_group_of_cell(gw, cx, cy);
    assert(base + BIN_STRIDE <= before.len()) by (nonlinear_arith)
        requires
            base == cell * 64,
            0 <= cell < gw * gh,
            gw * gh * 64 <= before.len(),
    ;
    assert(base / 64 == cell && base % 64 == 0);
    assert(table[base] == bin_entry(
        before,
        gw,
        gh,
        indices,
        dead,
        pixels,
        indices.len() as int,
        base,
    ));
    assert forall|k: int| 0 <= k < BIN_CAPACITY implies table[base + 1 + k] == (if k < bin_count(
        queue,
    ) {
        queue[k]
    } else {
        before[base + 1 + k]
    }) by {
        let i = base + 1 + k;
        assert(i / 64 == cell && i % 64 == 1 + k);
        assert(table[i] == bin_entry(
            before,
            gw,
            gh,
            indices,
            dead,
            pixels,
            indices.len() as int,
            i,
        ));
    }
}

} // verus!
