//! The sweep over the grid: one bounding box for each value of each locked channel.

use crate::extent::{lemma_limits_bounds, lemma_record_tracks, Extent};
use crate::grid::{divisor, slice_hits, LockedAxis};
use crate::limits::{lemma_bounds_within, on_grid, BoundingBox};
use crate::model::ColorModel;
use crate::rgb::LinearRgb;
use crate::table::{
    boxes, flat, lemma_boxes_of_flat, lemma_flat_within, lemma_index_of_slot, lemma_slot_of_index,
    lemma_table_of_empty_gamut, lemma_table_of_full_gamut, lemma_table_of_symmetric_gamut,
    lemma_table_unique, slot, symmetric, tabulates,
};
use rayon::iter::{IndexedParallelIterator, IntoParallelRefMutIterator, ParallelIterator};
use vstd::prelude::*;

verus! {

/// The transfer function may be called on every coordinate of the grid.
pub open spec fn callable<F: Fn(u32, u32, u32) -> LinearRgb>(
    transfer: F,
    resolution: u32,
) -> bool {
    forall|c0: u32, c1: u32, c2: u32|
        c0 < resolution && c1 < resolution && c2 < resolution ==> call_requires(
            transfer,
            (c0, c1, c2),
        )
}

/// `gamut` is the part of the grid that the transfer function maps into the display gamut:
/// whatever colour the function returns for a grid coordinate, a display can show it exactly
/// where the coordinate belongs to `gamut`.
pub open spec fn has_gamut<F: Fn(u32, u32, u32) -> LinearRgb>(
    transfer: F,
    resolution: u32,
    gamut: Set<(int, int, int)>,
) -> bool {
    forall|c0: u32, c1: u32, c2: u32, rgb: LinearRgb|
        c0 < resolution && c1 < resolution && c2 < resolution && #[trigger] call_ensures(
            transfer,
            (c0, c1, c2),
            rgb,
        ) ==> (gamut.contains((c0 as int, c1 as int, c2 as int)) <==> rgb.displayable())
}

/// The sample `(px, py)` comes before `(x, y)` in the order of the sweep.
spec fn swept(px: int, py: int, x: int, y: int) -> bool {
    px < x || (px == x && py < y)
}

/// On the samples that come before `(x, y)`, `seen` and `hits` hold the same points.
spec fn agree(
    seen: Set<(int, int)>,
    hits: Set<(int, int)>,
    resolution: u32,
    x: int,
    y: int,
) -> bool {
    forall|px: int, py: int|
        #![trigger seen.contains((px, py))]
        #![trigger hits.contains((px, py))]
        0 <= px < resolution && 0 <= py < resolution && swept(px, py, x, y) ==> (seen.contains(
            (px, py),
        ) <==> hits.contains((px, py)))
}

/// `seen` holds nothing but samples of the grid that come before `(x, y)`.
spec fn confined(seen: Set<(int, int)>, resolution: u32, x: int, y: int) -> bool {
    forall|px: int, py: int| #[trigger]
        seen.contains((px, py)) ==> 0 <= px < resolution && 0 <= py < resolution && swept(
            px,
            py,
            x,
            y,
        )
}

/// Sweeps the slice in which `axis` is held at `locked`: calls the transfer function on each
/// of its `resolution * resolution` samples and returns the bounding box of those that a
/// display can show, or the collapsed box at the origin where there is none.
pub fn sweep_slice<F: Fn(u32, u32, u32) -> LinearRgb>(
    transfer: &F,
    resolution: u32,
    axis: LockedAxis,
    locked: u32,
) -> (limits: BoundingBox)
    requires
        callable(*transfer, resolution),
        locked < resolution,
    ensures
        limits.within(resolution - 1),
        forall|gamut: Set<(int, int, int)>| #[trigger]
            has_gamut(*transfer, resolution, gamut) ==> limits.bounds(
                slice_hits(gamut, resolution, axis, locked as int),
            ),
{
    let mut extent = Extent::new();
    let ghost mut seen: Set<(int, int)> = Set::empty();
    let mut x: u32 = 0;
    while x < resolution
        invariant
            x <= resolution,
            locked < resolution,
            callable(*transfer, resolution),
            extent.tracks(seen),
            confined(seen, resolution, x as int, 0),
            forall|gamut: Set<(int, int, int)>| #[trigger]
                has_gamut(*transfer, resolution, gamut) ==> agree(
                    seen,
                    slice_hits(gamut, resolution, axis, locked as int),
                    resolution,
                    x as int,
                    0,
                ),
        decreases resolution - x,
    {
        let mut y: u32 = 0;
        while y < resolution
            invariant
                x < resolution,
                y <= resolution,
                locked < resolution,
                callable(*transfer, resolution),
                extent.tracks(seen),
                confined(seen, resolution, x as int, y as int),
                forall|gamut: Set<(int, int, int)>| #[trigger]
                    has_gamut(*transfer, resolution, gamut) ==> agree(
                        seen,
                        slice_hits(gamut, resolution, axis, locked as int),
                        resolution,
                        x as int,
                        y as int,
                    ),
            decreases resolution - y,
        {
            let c = axis.coordinate(locked, x, y);
            let rgb = transfer(c.0, c.1, c.2);
            let inside = rgb.in_gamut();
            let ghost before = seen;
            if inside {
                proof {
                    lemma_record_tracks(extent, seen, x, y);
                    seen = seen.insert((x as int, y as int));
                }
                extent = extent.record(x, y);
            }
            proof {
                assert forall|gamut: Set<(int, int, int)>| #[trigger]
                    has_gamut(*transfer, resolution, gamut) implies agree(
                    seen,
                    slice_hits(gamut, resolution, axis, locked as int),
                    resolution,
                    x as int,
                    y + 1,
                ) by {
                    let hits = slice_hits(gamut, resolution, axis, locked as int);
                    assert(agree(before, hits, resolution, x as int, y as int));
                    assert(gamut.contains((c.0 as int, c.1 as int, c.2 as int)) == inside);
                    assert(hits.contains((x as int, y as int)) == inside);
                }
            }
            y += 1;
        }
        x += 1;
    }
    let limits = extent.limits();
    proof {
        lemma_limits_bounds(extent, seen);
        assert(on_grid(seen, resolution));
        lemma_bounds_within(seen, limits, resolution);
        assert forall|gamut: Set<(int, int, int)>| #[trigger]
            has_gamut(*transfer, resolution, gamut) implies limits.bounds(
            slice_hits(gamut, resolution, axis, locked as int),
        ) by {
            let hits = slice_hits(gamut, resolution, axis, locked as int);
            assert(agree(seen, hits, resolution, resolution as int, 0));
            assert forall|p: (int, int)| seen.contains(p) == hits.contains(p) by {
                assert(p == (p.0, p.1));
                if 0 <= p.0 < resolution && 0 <= p.1 < resolution {
                    assert(swept(p.0, p.1, resolution as int, 0));
                } else {
                    assert(!seen.contains((p.0, p.1)));
                }
            }
            assert(seen =~= hits);
        }
    }
    limits
}

/// What the sweep of the slice at position `i` of a table leaves in its box: an ordered box
/// inside the grid which, whenever the transfer function has a gamut, is the bounding box of
/// that slice of it.
spec fn slot_swept<F: Fn(u32, u32, u32) -> LinearRgb>(
    limits: BoundingBox,
    transfer: F,
    resolution: u32,
    i: int,
) -> bool {
    &&& limits.within(resolution - 1)
    &&& forall|gamut: Set<(int, int, int)>| #[trigger]
        has_gamut(transfer, resolution, gamut) ==> limits.bounds(
            slice_hits(
                gamut,
                resolution,
                LockedAxis::nth(i / (resolution as int)),
                i % (resolution as int),
            ),
        )
}

/// `table` is what a sweep of the whole grid returns: `3 * resolution` ordered boxes inside
/// the grid which, whenever the transfer function has a gamut, are the table of that gamut.
pub open spec fn is_limits_table<F: Fn(u32, u32, u32) -> LinearRgb>(
    table: Seq<BoundingBox>,
    transfer: F,
    resolution: u32,
) -> bool {
    &&& table.len() == 3 * resolution
    &&& forall|i: int| 0 <= i < table.len() ==> (#[trigger] table[i]).within(resolution - 1)
    &&& forall|gamut: Set<(int, int, int)>| #[trigger]
        has_gamut(transfer, resolution, gamut) ==> tabulates(table, gamut, resolution)
}

/// Sweeps the slice that belongs at position `i` of a table and stores its box in `out`.
fn sweep_into<F: Fn(u32, u32, u32) -> LinearRgb>(
    transfer: &F,
    resolution: u32,
    i: usize,
    out: &mut BoundingBox,
)
    requires
        callable(*transfer, resolution),
        i < 3 * resolution,
    ensures
        slot_swept(*final(out), *transfer, resolution, i as int),
{
    let per_axis = resolution as usize;
    proof {
        lemma_slot_of_index(i as int, resolution);
    }
    let locked = (i % per_axis) as u32;
    match LockedAxis::from_index(i / per_axis) {
        Some(axis) => {
            *out = sweep_slice(transfer, resolution, axis, locked);
        },
        None => {},
    }
}

/// Runs [`sweep_into`] on every position of `table` through rayon's `par_iter_mut`,
/// `enumerate` and `for_each`, which hand each element of a vector, together with its index,
/// to the closure exactly once, on whichever thread of the pool is free. The contract claims
/// of rayon that the vector keeps its length and that, when `for_each` returns, every element
/// is as the call of `sweep_into` with that element's index left it.
#[verifier::external_body]
fn par_sweep<F: Fn(u32, u32, u32) -> LinearRgb + Sync>(
    table: &mut Vec<BoundingBox>,
    transfer: &F,
    resolution: u32,
)
    requires
        callable(*transfer, resolution),
        old(table).len() == 3 * resolution,
    ensures
        final(table).len() == old(table).len(),
        forall|i: int|
            0 <= i < final(table).len() ==> slot_swept(
                #[trigger] final(table)@[i],
                *transfer,
                resolution,
                i,
            ),
{
    table.par_iter_mut().enumerate().for_each(
        |(i, out)| sweep_into(transfer, resolution, i, out),
    );
}

/// A sequence of boxes that were each swept for their own position is a limits table.
proof fn lemma_slots_make_table<F: Fn(u32, u32, u32) -> LinearRgb>(
    table: Seq<BoundingBox>,
    transfer: F,
    resolution: u32,
)
    requires
        table.len() == 3 * resolution,
        forall|i: int|
            0 <= i < table.len() ==> slot_swept(#[trigger] table[i], transfer, resolution, i),
    ensures
        is_limits_table(table, transfer, resolution),
{
    assert forall|gamut: Set<(int, int, int)>| #[trigger]
        has_gamut(transfer, resolution, gamut) implies tabulates(table, gamut, resolution) by {
        assert forall|axis: LockedAxis, locked: int| 0 <= locked < resolution implies (#[trigger] table[slot(
            axis,
            locked,
            resolution,
        )]).bounds(slice_hits(gamut, resolution, axis, locked)) by {
            lemma_index_of_slot(axis, locked, resolution);
            let i = slot(axis, locked, resolution);
            assert(slot_swept(table[i], transfer, resolution, i));
        }
    }
}

/// Computes the table of bounding boxes of one colour model, the slices handed out to the
/// threads of rayon's pool.
pub fn compute_limits_table<F: Fn(u32, u32, u32) -> LinearRgb + Sync>(
    transfer: &F,
    resolution: u32,
) -> (table: Vec<BoundingBox>)
    requires
        callable(*transfer, resolution),
        3 * resolution <= usize::MAX,
    ensures
        is_limits_table(table@, *transfer, resolution),
{
    let mut table = vec![BoundingBox::origin(); 3 * (resolution as usize)];
    par_sweep(&mut table, transfer, resolution);
    proof {
        lemma_slots_make_table(table@, *transfer, resolution);
    }
    table
}

/// Computes the table of bounding boxes of one colour model on the calling thread, slice
/// after slice.
pub fn compute_limits_table_serial<F: Fn(u32, u32, u32) -> LinearRgb>(
    transfer: &F,
    resolution: u32,
) -> (table: Vec<BoundingBox>)
    requires
        callable(*transfer, resolution),
        3 * resolution <= usize::MAX,
    ensures
        is_limits_table(table@, *transfer, resolution),
{
    let total = 3 * (resolution as usize);
    let mut table: Vec<BoundingBox> = Vec::new();
    let mut i: usize = 0;
    while i < total
        invariant
            i <= total,
            total == 3 * resolution,
            callable(*transfer, resolution),
            table.len() == i,
            forall|k: int|
                0 <= k < i ==> slot_swept(#[trigger] table@[k], *transfer, resolution, k),
        decreases total - i,
    {
        let mut limits = BoundingBox::origin();
        sweep_into(transfer, resolution, i, &mut limits);
        table.push(limits);
        i += 1;
    }
    proof {
        lemma_slots_make_table(table@, *transfer, resolution);
    }
    table
}

/// Serializes a table: the four bounds of each box in turn.
pub fn flatten(table: &Vec<BoundingBox>) -> (values: Vec<u32>)
    requires
        4 * table.len() <= usize::MAX,
    ensures
        values@ == flat(table@),
{
    let mut values: Vec<u32> = Vec::new();
    let mut i: usize = 0;
    while i < table.len()
        invariant
            i <= table.len(),
            values.len() == 4 * i,
            forall|k: int|
                0 <= k < 4 * i ==> #[trigger] values@[k] == table@[k / 4].component(k % 4),
        decreases table.len() - i,
    {
        let limits = table[i];
        values.push(limits.min_x);
        values.push(limits.min_y);
        values.push(limits.max_x);
        values.push(limits.max_y);
        i += 1;
    }
    assert(values@ =~= flat(table@));
    values
}

/// Computes the gamut limits of one colour model at `resolution` grid points per channel.
///
/// The result holds, for each locked channel in turn and each locked grid index in turn, the
/// bounds `min_x`, `min_y`, `max_x`, `max_y` of the samples that a display can show, as grid
/// indices. A bound divided by [`crate::grid::axis_divisor`] of the resolution is its
/// normalized value.
pub fn compute_axes_limits<F: Fn(u32, u32, u32) -> LinearRgb + Sync>(
    transfer: &F,
    resolution: u32,
) -> (values: Vec<u32>)
    requires
        callable(*transfer, resolution),
        12 * resolution <= usize::MAX,
    ensures
        values.len() == 3 * resolution * 4,
        forall|k: int| 0 <= k < values.len() ==> #[trigger] values@[k] <= divisor(resolution),
        is_limits_table(boxes(values@), *transfer, resolution),
{
    let table = compute_limits_table(transfer, resolution);
    let values = flatten(&table);
    proof {
        lemma_boxes_of_flat(table@);
        lemma_flat_within(table@, resolution - 1);
    }
    values
}

/// Two sweeps of one grid with one transfer function that has a gamut give the same table and
/// the same serialized bounds, whether the slices were swept on one thread or on many.
pub proof fn lemma_limits_table_unique<F: Fn(u32, u32, u32) -> LinearRgb>(
    first: Seq<BoundingBox>,
    second: Seq<BoundingBox>,
    transfer: F,
    resolution: u32,
    gamut: Set<(int, int, int)>,
)
    requires
        is_limits_table(first, transfer, resolution),
        is_limits_table(second, transfer, resolution),
        has_gamut(transfer, resolution, gamut),
    ensures
        first == second,
        flat(first) == flat(second),
{
    lemma_table_unique(first, second, gamut, resolution);
}

/// A transfer function that maps no coordinate of the grid into the display gamut leaves
/// every box of the table collapsed at the origin.
pub proof fn lemma_limits_of_transfer_outside<F: Fn(u32, u32, u32) -> LinearRgb>(
    table: Seq<BoundingBox>,
    transfer: F,
    resolution: u32,
    i: int,
)
    requires
        is_limits_table(table, transfer, resolution),
        forall|c0: u32, c1: u32, c2: u32, rgb: LinearRgb|
            c0 < resolution && c1 < resolution && c2 < resolution && #[trigger] call_ensures(
                transfer,
                (c0, c1, c2),
                rgb,
            ) ==> !rgb.displayable(),
        0 <= i < table.len(),
    ensures
        table[i] == BoundingBox::collapsed(),
{
    let gamut = Set::<(int, int, int)>::empty();
    assert(has_gamut(transfer, resolution, gamut));
    lemma_table_of_empty_gamut(table, gamut, resolution, i);
}

/// A transfer function that maps every coordinate of the grid into the display gamut gives
/// every box of the table the whole plane, from index 0 to the last index on both axes.
pub proof fn lemma_limits_of_transfer_inside<F: Fn(u32, u32, u32) -> LinearRgb>(
    table: Seq<BoundingBox>,
    transfer: F,
    resolution: u32,
    i: int,
)
    requires
        is_limits_table(table, transfer, resolution),
        forall|c0: u32, c1: u32, c2: u32, rgb: LinearRgb|
            c0 < resolution && c1 < resolution && c2 < resolution && #[trigger] call_ensures(
                transfer,
                (c0, c1, c2),
                rgb,
            ) ==> rgb.displayable(),
        0 <= i < table.len(),
    ensures
        table[i] == (BoundingBox {
            min_x: 0,
            min_y: 0,
            max_x: (resolution - 1) as u32,
            max_y: (resolution - 1) as u32,
        }),
{
    let gamut = Set::<(int, int, int)>::full();
    assert(has_gamut(transfer, resolution, gamut));
    lemma_table_of_full_gamut(table, gamut, resolution, i);
}

/// A transfer function whose gamut does not depend on the order of the three channels gives
/// the same box at a locked index whichever channel is locked.
pub proof fn lemma_limits_of_symmetric_transfer<F: Fn(u32, u32, u32) -> LinearRgb>(
    table: Seq<BoundingBox>,
    transfer: F,
    resolution: u32,
    gamut: Set<(int, int, int)>,
    locked: int,
)
    requires
        is_limits_table(table, transfer, resolution),
        has_gamut(transfer, resolution, gamut),
        symmetric(gamut, resolution),
        0 <= locked < resolution,
    ensures
        table[slot(LockedAxis::First, locked, resolution)] == table[slot(
            LockedAxis::Second,
            locked,
            resolution,
        )],
        table[slot(LockedAxis::Second, locked, resolution)] == table[slot(
            LockedAxis::Third,
            locked,
            resolution,
        )],
{
    lemma_table_of_symmetric_gamut(table, gamut, resolution, locked);
}

/// The transfer function may be called for `model` on every coordinate of the grid.
pub open spec fn callable_for<G: Fn(ColorModel, u32, u32, u32) -> LinearRgb>(
    transfer: G,
    model: ColorModel,
    resolution: u32,
) -> bool {
    forall|c0: u32, c1: u32, c2: u32|
        c0 < resolution && c1 < resolution && c2 < resolution ==> call_requires(
            transfer,
            (model, c0, c1, c2),
        )
}

/// `gamut` is the part of the grid that the transfer function maps into the display gamut
/// for `model`.
pub open spec fn has_gamut_for<G: Fn(ColorModel, u32, u32, u32) -> LinearRgb>(
    transfer: G,
    model: ColorModel,
    resolution: u32,
    gamut: Set<(int, int, int)>,
) -> bool {
    forall|c0: u32, c1: u32, c2: u32, rgb: LinearRgb|
        c0 < resolution && c1 < resolution && c2 < resolution && #[trigger] call_ensures(
            transfer,
            (model, c0, c1, c2),
            rgb,
        ) ==> (gamut.contains((c0 as int, c1 as int, c2 as int)) <==> rgb.displayable())
}

/// The run of serialized bounds that belongs to the model at place `k`, where the tables of
/// all models follow one another.
pub open spec fn model_values(values: Seq<u32>, k: int, resolution: u32) -> Seq<u32> {
    values.subrange(k * (12 * resolution), (k + 1) * (12 * resolution))
}

/// Computes the gamut limits of every colour model, one table after the other in the order of
/// [`ColorModel::all`], each as [`compute_axes_limits`] returns it.
pub fn compute_all_axes_limits<G: Fn(ColorModel, u32, u32, u32) -> LinearRgb + Sync>(
    transfer: &G,
    resolution: u32,
) -> (values: Vec<u32>)
    requires
        forall|model: ColorModel| callable_for(*transfer, model, resolution),
        60 * resolution <= usize::MAX,
    ensures
        values.len() == 5 * (3 * resolution * 4),
        forall|k: int| 0 <= k < values.len() ==> #[trigger] values@[k] <= divisor(resolution),
        forall|model: ColorModel, gamut: Set<(int, int, int)>| #[trigger]
            has_gamut_for(*transfer, model, resolution, gamut) ==> tabulates(
                boxes(model_values(values@, model.ordinal(), resolution)),
                gamut,
                resolution,
            ),
{
    let models = ColorModel::all();
    let ghost stride: int = 12 * resolution;
    let mut values: Vec<u32> = Vec::new();
    let mut k: usize = 0;
    while k < 5
        invariant
            k <= 5,
            stride == 12 * resolution,
            60 * resolution <= usize::MAX,
            forall|j: int| 0 <= j < 5 ==> models[j] == ColorModel::nth(j),
            forall|model: ColorModel| callable_for(*transfer, model, resolution),
            values.len() == k * stride,
            forall|i: int| 0 <= i < values.len() ==> #[trigger] values@[i] <= divisor(resolution),
            forall|j: int, gamut: Set<(int, int, int)>|
                0 <= j < k && #[trigger] has_gamut_for(
                    *transfer,
                    ColorModel::nth(j),
                    resolution,
                    gamut,
                ) ==> tabulates(boxes(model_values(values@, j, resolution)), gamut, resolution),
        decreases 5 - k,
    {
        let model = models[k];
        let of_model = |c0: u32, c1: u32, c2: u32| -> (rgb: LinearRgb)
            requires
                call_requires(transfer, (model, c0, c1, c2)),
            ensures
                call_ensures(transfer, (model, c0, c1, c2), rgb),
            { transfer(model, c0, c1, c2) };
        assert(callable(of_model, resolution)) by {
            assert(callable_for(*transfer, model, resolution));
        }
        let mut part = compute_axes_limits(&of_model, resolution);
        let ghost before = values@;
        let ghost added = part@;
        values.append(&mut part);
        proof {
            assert((k + 1) * stride == k * stride + stride) by (nonlinear_arith);
            assert(values@ =~= before + added);
            assert forall|j: int, gamut: Set<(int, int, int)>|
                0 <= j < k + 1 && #[trigger] has_gamut_for(
                    *transfer,
                    ColorModel::nth(j),
                    resolution,
                    gamut,
                ) implies tabulates(
                boxes(model_values(values@, j, resolution)),
                gamut,
                resolution,
            ) by {
                if j < k {
                    assert((j + 1) * stride <= k * stride) by (nonlinear_arith)
                        requires
                            j + 1 <= k,
                            stride >= 0,
                    ;
                    assert(0 <= j * stride) by (nonlinear_arith)
                        requires
                            0 <= j,
                            stride >= 0,
                    ;
                    assert(j * stride <= (j + 1) * stride) by (nonlinear_arith)
                        requires
                            stride >= 0,
                    ;
                    assert(model_values(values@, j, resolution) =~= model_values(
                        before,
                        j,
                        resolution,
                    ));
                } else {
                    assert(model_values(values@, j, resolution) =~= added);
                    assert(has_gamut(of_model, resolution, gamut));
                }
            }
        }
        k += 1;
    }
    proof {
        assert(values.len() == 5 * stride);
        assert forall|model: ColorModel, gamut: Set<(int, int, int)>| #[trigger]
            has_gamut_for(*transfer, model, resolution, gamut) implies tabulates(
            boxes(model_values(values@, model.ordinal(), resolution)),
            gamut,
            resolution,
        ) by {
            assert(ColorModel::nth(model.ordinal()) == model);
        }
    }
    values
}

} // verus!
