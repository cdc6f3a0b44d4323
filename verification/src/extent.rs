//! Running extremes of a stream of grid points.

use crate::extremum::{max_opt, min_opt};
use crate::limits::{vacant, BoundingBox};
use vstd::prelude::*;

verus! {

/// The least and greatest coordinates among the points recorded so far. Every bound is `None`
/// until a first point has been recorded.
#[derive(Clone, Copy, Debug)]
pub struct Extent {
    pub min_x: Option<u32>,
    pub max_x: Option<u32>,
    pub min_y: Option<u32>,
    pub max_y: Option<u32>,
}

/// `bound` lowered to `value`, or `value` itself as the first bound.
pub open spec fn lowered(bound: Option<u32>, value: u32) -> Option<u32> {
    match bound {
        Some(b) => Some(if value < b { value } else { b }),
        None => Some(value),
    }
}

/// `bound` raised to `value`, or `value` itself as the first bound.
pub open spec fn raised(bound: Option<u32>, value: u32) -> Option<u32> {
    match bound {
        Some(b) => Some(if value > b { value } else { b }),
        None => Some(value),
    }
}

impl Extent {
    /// The extent of no points.
    pub open spec fn nothing() -> Extent {
        Extent { min_x: None, max_x: None, min_y: None, max_y: None }
    }

    /// The extent after one more point.
    pub open spec fn with(self, x: u32, y: u32) -> Extent {
        Extent {
            min_x: lowered(self.min_x, x),
            max_x: raised(self.max_x, x),
            min_y: lowered(self.min_y, y),
            max_y: raised(self.max_y, y),
        }
    }

    /// The box that the extent stands for. A missing lower bound is index 0, and a missing
    /// upper bound is the lower bound of its axis.
    pub open spec fn to_box(self) -> BoundingBox {
        let min_x = match self.min_x {
            Some(m) => m,
            None => 0,
        };
        let min_y = match self.min_y {
            Some(m) => m,
            None => 0,
        };
        BoundingBox {
            min_x,
            min_y,
            max_x: match self.max_x {
                Some(m) => m,
                None => min_x,
            },
            max_y: match self.max_y {
                Some(m) => m,
                None => min_y,
            },
        }
    }

    /// The extent is that of `points`: without points every bound is missing, and otherwise
    /// all four are there and make the smallest box around the points.
    pub open spec fn tracks(self, points: Set<(int, int)>) -> bool {
        if vacant(points) {
            self == Self::nothing()
        } else {
            &&& self.min_x is Some
            &&& self.max_x is Some
            &&& self.min_y is Some
            &&& self.max_y is Some
            &&& self.to_box().encloses(points)
            &&& self.to_box().touches(points)
        }
    }

    /// The extent of no points.
    pub fn new() -> (e: Extent)
        ensures
            e == Self::nothing(),
    {
        Extent { min_x: None, max_x: None, min_y: None, max_y: None }
    }

    /// Records the point `(x, y)`.
    pub fn record(self, x: u32, y: u32) -> (e: Extent)
        ensures
            e == self.with(x, y),
    {
        Extent {
            min_x: min_opt(self.min_x, x),
            max_x: max_opt(self.max_x, x),
            min_y: min_opt(self.min_y, y),
            max_y: max_opt(self.max_y, y),
        }
    }

    /// The bounding box of the points recorded, collapsed at the origin where there were none.
    pub fn limits(self) -> (b: BoundingBox)
        ensures
            b == self.to_box(),
    {
        let min_x = self.min_x.unwrap_or(0);
        let max_x = self.max_x.unwrap_or(min_x);
        let min_y = self.min_y.unwrap_or(0);
        let max_y = self.max_y.unwrap_or(min_y);
        BoundingBox { min_x, min_y, max_x, max_y }
    }
}

/// Recording a point turns the extent of `points` into that of `points` with the point added.
pub proof fn lemma_record_tracks(e: Extent, points: Set<(int, int)>, x: u32, y: u32)
    requires
        e.tracks(points),
    ensures
        e.with(x, y).tracks(points.insert((x as int, y as int))),
{
    let more = points.insert((x as int, y as int));
    let after = e.with(x, y).to_box();
    assert(more.contains((x as int, y as int)));
    if vacant(points) {
        assert(after.encloses(more));
        assert(after.touches(more));
    } else {
        let before = e.to_box();
        let y0 = choose|w: int| points.contains((before.min_x as int, w));
        let y1 = choose|w: int| points.contains((before.max_x as int, w));
        let x0 = choose|w: int| points.contains((w, before.min_y as int));
        let x1 = choose|w: int| points.contains((w, before.max_y as int));
        assert(more.contains((before.min_x as int, y0)));
        assert(more.contains((before.max_x as int, y1)));
        assert(more.contains((x0, before.min_y as int)));
        assert(more.contains((x1, before.max_y as int)));
        assert(after.encloses(more));
        assert(exists|w: int| #[trigger] more.contains((after.min_x as int, w))) by {
            if x < before.min_x {
                assert(more.contains((after.min_x as int, y as int)));
            } else {
                assert(more.contains((after.min_x as int, y0)));
            }
        }
        assert(exists|w: int| #[trigger] more.contains((after.max_x as int, w))) by {
            if x > before.max_x {
                assert(more.contains((after.max_x as int, y as int)));
            } else {
                assert(more.contains((after.max_x as int, y1)));
            }
        }
        assert(exists|w: int| #[trigger] more.contains((w, after.min_y as int))) by {
            if y < before.min_y {
                assert(more.contains((x as int, after.min_y as int)));
            } else {
                assert(more.contains((x0, after.min_y as int)));
            }
        }
        assert(exists|w: int| #[trigger] more.contains((w, after.max_y as int))) by {
            if y > before.max_y {
                assert(more.contains((x as int, after.max_y as int)));
            } else {
                assert(more.contains((x1, after.max_y as int)));
            }
        }
    }
}

/// The box of an extent that tracks `points` is the bounding box of `points`.
pub proof fn lemma_limits_bounds(e: Extent, points: Set<(int, int)>)
    requires
        e.tracks(points),
    ensures
        e.to_box().bounds(points),
{
}

} // verus!
