//! The table of bounding boxes of one colour model, and what holds of it.
//!
//! The table has one box for each locked channel and each locked grid index, ordered by
//! channel and then by index. It is serialized box by box, four bounds to a box.

use crate::grid::{slice_hits, LockedAxis};
use crate::limits::{
    lemma_bounds_of_everything, lemma_bounds_unique, lemma_bounds_within, BoundingBox,
};
use vstd::prelude::*;

verus! {

/// The position in the table of the slice in which `axis` is held at `locked`.
pub open spec fn slot(axis: LockedAxis, locked: int, resolution: u32) -> int {
    axis.ordinal() * resolution + locked
}

/// `table` is the table of `gamut`: it has `3 * resolution` boxes, and the box of each slice is
/// the bounding box of the samples of that slice that lie in `gamut`.
pub open spec fn tabulates(
    table: Seq<BoundingBox>,
    gamut: Set<(int, int, int)>,
    resolution: u32,
) -> bool {
    &&& table.len() == 3 * resolution
    &&& forall|axis: LockedAxis, locked: int|
        0 <= locked < resolution ==> (#[trigger] table[slot(axis, locked, resolution)]).bounds(
            slice_hits(gamut, resolution, axis, locked),
        )
}

/// The serialized form of a table: for each box in turn its `min_x`, `min_y`, `max_x` and
/// `max_y`.
pub open spec fn flat(table: Seq<BoundingBox>) -> Seq<u32> {
    Seq::new(4 * table.len(), |k: int| table[k / 4].component(k % 4))
}

/// The boxes that a sequence of serialized bounds holds, four bounds to a box.
pub open spec fn boxes(values: Seq<u32>) -> Seq<BoundingBox> {
    Seq::new(
        values.len() / 4,
        |i: int|
            BoundingBox {
                min_x: values[4 * i],
                min_y: values[4 * i + 1],
                max_x: values[4 * i + 2],
                max_y: values[4 * i + 3],
            },
    )
}

/// Every position of a table is the slot of one slice.
pub proof fn lemma_slot_of_index(i: int, resolution: u32)
    requires
        0 <= i < 3 * resolution,
    ensures
        0 <= i / (resolution as int) < 3,
        0 <= i % (resolution as int) < resolution,
        slot(LockedAxis::nth(i / (resolution as int)), i % (resolution as int), resolution) == i,
{
    let n = resolution as int;
    vstd::arithmetic::div_mod::lemma_fundamental_div_mod(i, n);
    vstd::arithmetic::div_mod::lemma_mod_bound(i, n);
    assert(0 <= i / n < 3) by (nonlinear_arith)
        requires
            0 <= i < 3 * n,
            i == n * (i / n) + i % n,
            0 <= i % n < n,
    ;
    assert(n * (i / n) == (i / n) * n) by (nonlinear_arith);
}

/// The slot of a slice leads back to its axis and its locked index.
pub proof fn lemma_index_of_slot(axis: LockedAxis, locked: int, resolution: u32)
    requires
        0 <= locked < resolution,
    ensures
        0 <= slot(axis, locked, resolution) < 3 * resolution,
        slot(axis, locked, resolution) / (resolution as int) == axis.ordinal(),
        slot(axis, locked, resolution) % (resolution as int) == locked,
        LockedAxis::nth(axis.ordinal()) == axis,
{
    let n = resolution as int;
    vstd::arithmetic::div_mod::lemma_fundamental_div_mod_converse(
        slot(axis, locked, resolution),
        n,
        axis.ordinal(),
        locked,
    );
}

/// Serializing a table and reading the boxes back gives the table.
pub proof fn lemma_boxes_of_flat(table: Seq<BoundingBox>)
    ensures
        flat(table).len() == 4 * table.len(),
        boxes(flat(table)) == table,
{
    assert(boxes(flat(table)) =~= table);
}

/// Where every box reaches no further than `limit`, no serialized bound exceeds `limit`.
pub proof fn lemma_flat_within(table: Seq<BoundingBox>, limit: int)
    requires
        forall|i: int| 0 <= i < table.len() ==> (#[trigger] table[i]).within(limit),
    ensures
        forall|k: int| 0 <= k < flat(table).len() ==> #[trigger] flat(table)[k] <= limit,
{
    assert forall|k: int| 0 <= k < flat(table).len() implies #[trigger] flat(table)[k] <= limit by {
        let owner = table[k / 4];
        assert(owner.within(limit));
        assert(flat(table)[k] == owner.component(k % 4));
    }
}

/// Every box of a table is ordered and ends at or before the last grid index: divided by
/// that index, or by 1 on a grid of a single point, its bounds satisfy
/// `0 <= min <= max <= 1` on both axes.
pub proof fn lemma_table_within(
    table: Seq<BoundingBox>,
    gamut: Set<(int, int, int)>,
    resolution: u32,
    i: int,
)
    requires
        tabulates(table, gamut, resolution),
        0 <= i < table.len(),
    ensures
        table[i].within(resolution - 1),
{
    lemma_slot_of_index(i, resolution);
    let axis = LockedAxis::nth(i / (resolution as int));
    let locked = i % (resolution as int);
    assert(table[slot(axis, locked, resolution)].bounds(
        slice_hits(gamut, resolution, axis, locked),
    ));
    lemma_bounds_within(slice_hits(gamut, resolution, axis, locked), table[i], resolution);
}

/// A gamut has exactly one table at a given resolution: whoever computes it, and in whatever
/// order, arrives at the same boxes.
pub proof fn lemma_table_unique(
    first: Seq<BoundingBox>,
    second: Seq<BoundingBox>,
    gamut: Set<(int, int, int)>,
    resolution: u32,
)
    requires
        tabulates(first, gamut, resolution),
        tabulates(second, gamut, resolution),
    ensures
        first == second,
        flat(first) == flat(second),
{
    assert forall|i: int| 0 <= i < first.len() implies first[i] == second[i] by {
        lemma_slot_of_index(i, resolution);
        let axis = LockedAxis::nth(i / (resolution as int));
        let locked = i % (resolution as int);
        let hits = slice_hits(gamut, resolution, axis, locked);
        assert(first[slot(axis, locked, resolution)].bounds(hits));
        assert(second[slot(axis, locked, resolution)].bounds(hits));
        lemma_bounds_unique(hits, first[i], second[i]);
    }
    assert(first =~= second);
}

/// Where no coordinate of the grid lies in the gamut, every box of the table is collapsed at
/// the origin.
pub proof fn lemma_table_of_empty_gamut(
    table: Seq<BoundingBox>,
    gamut: Set<(int, int, int)>,
    resolution: u32,
    i: int,
)
    requires
        tabulates(table, gamut, resolution),
        forall|c0: int, c1: int, c2: int|
            0 <= c0 < resolution && 0 <= c1 < resolution && 0 <= c2 < resolution
                ==> !gamut.contains((c0, c1, c2)),
        0 <= i < table.len(),
    ensures
        table[i] == BoundingBox::collapsed(),
{
    lemma_slot_of_index(i, resolution);
    let axis = LockedAxis::nth(i / (resolution as int));
    let locked = i % (resolution as int);
    let hits = slice_hits(gamut, resolution, axis, locked);
    assert(table[slot(axis, locked, resolution)].bounds(hits));
    assert forall|x: int, y: int| !hits.contains((x, y)) by {
        let c = axis.place(locked, x, y);
        if 0 <= x < resolution && 0 <= y < resolution {
            assert(!gamut.contains((c.0, c.1, c.2)));
        }
    }
}

/// Where every coordinate of the grid lies in the gamut, every box of the table spans the
/// whole plane, from index 0 to the last index on both axes.
pub proof fn lemma_table_of_full_gamut(
    table: Seq<BoundingBox>,
    gamut: Set<(int, int, int)>,
    resolution: u32,
    i: int,
)
    requires
        tabulates(table, gamut, resolution),
        forall|c0: int, c1: int, c2: int|
            0 <= c0 < resolution && 0 <= c1 < resolution && 0 <= c2 < resolution
                ==> gamut.contains((c0, c1, c2)),
        0 <= i < table.len(),
    ensures
        table[i] == (BoundingBox {
            min_x: 0,
            min_y: 0,
            max_x: (resolution - 1) as u32,
            max_y: (resolution - 1) as u32,
        }),
{
    lemma_slot_of_index(i, resolution);
    let axis = LockedAxis::nth(i / (resolution as int));
    let locked = i % (resolution as int);
    let hits = slice_hits(gamut, resolution, axis, locked);
    assert(table[slot(axis, locked, resolution)].bounds(hits));
    assert forall|x: int, y: int|
        0 <= x < resolution && 0 <= y < resolution implies #[trigger] hits.contains((x, y)) by {
        let c = axis.place(locked, x, y);
        assert(gamut.contains((c.0, c.1, c.2)));
    }
    lemma_bounds_of_everything(hits, table[i], resolution);
}

/// Membership in `gamut` does not depend on the order of the three channels.
pub open spec fn symmetric(gamut: Set<(int, int, int)>, resolution: u32) -> bool {
    forall|c0: int, c1: int, c2: int|
        #![trigger gamut.contains((c0, c1, c2))]
        0 <= c0 < resolution && 0 <= c1 < resolution && 0 <= c2 < resolution ==> {
            &&& gamut.contains((c0, c1, c2)) == gamut.contains((c1, c0, c2))
            &&& gamut.contains((c0, c1, c2)) == gamut.contains((c0, c2, c1))
            &&& gamut.contains((c0, c1, c2)) == gamut.contains((c2, c1, c0))
            &&& gamut.contains((c0, c1, c2)) == gamut.contains((c1, c2, c0))
            &&& gamut.contains((c0, c1, c2)) == gamut.contains((c2, c0, c1))
        }
}

/// The table of a symmetric gamut has the same box at a locked index whichever channel is
/// locked.
pub proof fn lemma_table_of_symmetric_gamut(
    table: Seq<BoundingBox>,
    gamut: Set<(int, int, int)>,
    resolution: u32,
    locked: int,
)
    requires
        tabulates(table, gamut, resolution),
        symmetric(gamut, resolution),
        0 <= locked < resolution,
    ensures
        table[slot(LockedAxis::First, locked, resolution)] == table[slot(
            LockedAxis::Second,
            locked,
            resolution,
        )],
        table[slot(LockedAxis::Second, locked, resolution)] == table[slot(
            LockedAxis::Third,
            locked,
            resolution,
        )],
{
    let first = slice_hits(gamut, resolution, LockedAxis::First, locked);
    let second = slice_hits(gamut, resolution, LockedAxis::Second, locked);
    let third = slice_hits(gamut, resolution, LockedAxis::Third, locked);
    assert forall|p: (int, int)| first.contains(p) == second.contains(p) by {
        if 0 <= p.0 < resolution && 0 <= p.1 < resolution {
            assert(gamut.contains((locked, p.0, p.1)) == gamut.contains((p.0, locked, p.1)));
        }
    }
    assert forall|p: (int, int)| second.contains(p) == third.contains(p) by {
        if 0 <= p.0 < resolution && 0 <= p.1 < resolution {
            assert(gamut.contains((p.0, locked, p.1)) == gamut.contains((p.0, p.1, locked)));
        }
    }
    assert(first =~= second);
    assert(second =~= third);
    let a = table[slot(LockedAxis::First, locked, resolution)];
    let b = table[slot(LockedAxis::Second, locked, resolution)];
    let c = table[slot(LockedAxis::Third, locked, resolution)];
    lemma_bounds_unique(first, a, b);
    lemma_bounds_unique(second, b, c);
}

} // verus!
