//! Bounding boxes of sets of grid points.

use vstd::prelude::*;

verus! {

/// The extent of a set of grid points along the two free axes, in grid indices.
#[derive(Clone, Copy, Debug, PartialEq, Eq, Structural)]
pub struct BoundingBox {
    pub min_x: u32,
    pub min_y: u32,
    pub max_x: u32,
    pub max_y: u32,
}

/// Whether `points` holds no point at all.
pub open spec fn vacant(points: Set<(int, int)>) -> bool {
    forall|x: int, y: int| !points.contains((x, y))
}

/// Whether every point of `points` has both coordinates in `0..resolution`.
pub open spec fn on_grid(points: Set<(int, int)>, resolution: u32) -> bool {
    forall|x: int, y: int| #[trigger]
        points.contains((x, y)) ==> 0 <= x < resolution && 0 <= y < resolution
}

impl BoundingBox {
    /// The box that stands for a slice without any point: all four bounds at index 0.
    pub open spec fn collapsed() -> BoundingBox {
        BoundingBox { min_x: 0, min_y: 0, max_x: 0, max_y: 0 }
    }

    /// Every point of `points` lies inside the box.
    pub open spec fn encloses(self, points: Set<(int, int)>) -> bool {
        forall|x: int, y: int| #[trigger]
            points.contains((x, y)) ==> {
                &&& self.min_x <= x <= self.max_x
                &&& self.min_y <= y <= self.max_y
            }
    }

    /// Each of the four sides of the box passes through a point of `points`.
    pub open spec fn touches(self, points: Set<(int, int)>) -> bool {
        &&& exists|y: int| #[trigger] points.contains((self.min_x as int, y))
        &&& exists|y: int| #[trigger] points.contains((self.max_x as int, y))
        &&& exists|x: int| #[trigger] points.contains((x, self.min_y as int))
        &&& exists|x: int| #[trigger] points.contains((x, self.max_y as int))
    }

    /// The box is the bounding box of `points`: the smallest box that encloses them, or the
    /// collapsed box at the origin where there is nothing to enclose.
    pub open spec fn bounds(self, points: Set<(int, int)>) -> bool {
        if vacant(points) {
            self == Self::collapsed()
        } else {
            self.encloses(points) && self.touches(points)
        }
    }

    /// Neither axis has its lower bound above its upper bound.
    pub open spec fn ordered(self) -> bool {
        self.min_x <= self.max_x && self.min_y <= self.max_y
    }

    /// The box is ordered and reaches no further than `limit` on either axis.
    pub open spec fn within(self, limit: int) -> bool {
        self.ordered() && self.max_x <= limit && self.max_y <= limit
    }

    /// The bound that stands at position `k` of a serialized box: `min_x`, `min_y`, `max_x`,
    /// `max_y`, in this order.
    pub open spec fn component(self, k: int) -> u32 {
        if k == 0 {
            self.min_x
        } else if k == 1 {
            self.min_y
        } else if k == 2 {
            self.max_x
        } else {
            self.max_y
        }
    }

    /// The collapsed box at the origin.
    pub fn origin() -> (b: BoundingBox)
        ensures
            b == Self::collapsed(),
    {
        BoundingBox { min_x: 0, min_y: 0, max_x: 0, max_y: 0 }
    }

    /// The four bounds in serialization order.
    pub fn components(&self) -> (out: [u32; 4])
        ensures
            forall|k: int| 0 <= k < 4 ==> #[trigger] out[k] == self.component(k),
    {
        [self.min_x, self.min_y, self.max_x, self.max_y]
    }
}

/// A set of points has exactly one bounding box.
pub proof fn lemma_bounds_unique(points: Set<(int, int)>, a: BoundingBox, b: BoundingBox)
    requires
        a.bounds(points),
        b.bounds(points),
    ensures
        a == b,
{
    if !vacant(points) {
        let ay0 = choose|y: int| points.contains((a.min_x as int, y));
        let ay1 = choose|y: int| points.contains((a.max_x as int, y));
        let ax0 = choose|x: int| points.contains((x, a.min_y as int));
        let ax1 = choose|x: int| points.contains((x, a.max_y as int));
        let by0 = choose|y: int| points.contains((b.min_x as int, y));
        let by1 = choose|y: int| points.contains((b.max_x as int, y));
        let bx0 = choose|x: int| points.contains((x, b.min_y as int));
        let bx1 = choose|x: int| points.contains((x, b.max_y as int));
        assert(points.contains((a.min_x as int, ay0)));
        assert(points.contains((a.max_x as int, ay1)));
        assert(points.contains((ax0, a.min_y as int)));
        assert(points.contains((ax1, a.max_y as int)));
        assert(points.contains((b.min_x as int, by0)));
        assert(points.contains((b.max_x as int, by1)));
        assert(points.contains((bx0, b.min_y as int)));
        assert(points.contains((bx1, b.max_y as int)));
    }
}

/// A bounding box is ordered, and where its points lie on a grid of `resolution` points per
/// axis it ends at or before the last grid index. With nothing to bound it is the origin.
pub proof fn lemma_bounds_within(points: Set<(int, int)>, b: BoundingBox, resolution: u32)
    requires
        b.bounds(points),
        on_grid(points, resolution),
    ensures
        b.ordered(),
        resolution >= 1 ==> b.within(resolution - 1),
        resolution == 0 ==> b == BoundingBox::collapsed(),
{
    if !vacant(points) {
        let y0 = choose|y: int| points.contains((b.min_x as int, y));
        let y1 = choose|y: int| points.contains((b.max_x as int, y));
        let x0 = choose|x: int| points.contains((x, b.min_y as int));
        let x1 = choose|x: int| points.contains((x, b.max_y as int));
        assert(points.contains((b.min_x as int, y0)));
        assert(points.contains((b.max_x as int, y1)));
        assert(points.contains((x0, b.min_y as int)));
        assert(points.contains((x1, b.max_y as int)));
    }
}

/// Without points the bounding box is the collapsed box at the origin, and nothing else is.
pub proof fn lemma_bounds_of_nothing(points: Set<(int, int)>, b: BoundingBox)
    requires
        vacant(points),
    ensures
        b.bounds(points) <==> b == BoundingBox::collapsed(),
{
}

/// Where every point of the grid is present, the bounding box spans the whole grid.
pub proof fn lemma_bounds_of_everything(points: Set<(int, int)>, b: BoundingBox, resolution: u32)
    requires
        resolution >= 1,
        on_grid(points, resolution),
        forall|x: int, y: int|
            0 <= x < resolution && 0 <= y < resolution ==> #[trigger] points.contains((x, y)),
    ensures
        b.bounds(points) <==> b == (BoundingBox {
            min_x: 0,
            min_y: 0,
            max_x: (resolution - 1) as u32,
            max_y: (resolution - 1) as u32,
        }),
{
    let last = resolution - 1;
    let full = BoundingBox { min_x: 0, min_y: 0, max_x: last as u32, max_y: last as u32 };
    assert(points.contains((0, 0)));
    assert(points.contains((full.min_x as int, 0)));
    assert(points.contains((full.max_x as int, 0)));
    assert(points.contains((0, full.min_y as int)));
    assert(points.contains((0, full.max_y as int)));
    assert(!vacant(points));
    assert(full.encloses(points));
    assert(full.touches(points));
    if b.bounds(points) {
        lemma_bounds_unique(points, b, full);
    }
}

} // verus!
