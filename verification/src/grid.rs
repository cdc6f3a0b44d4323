//! The sampling grid: which channel is held fixed, and where a sample of a slice lies in the
//! cube of grid coordinates.

use vstd::prelude::*;

verus! {

/// The channel that is held fixed while the other two are swept.
#[derive(Clone, Copy, Debug, PartialEq, Eq, Structural)]
pub enum LockedAxis {
    First,
    Second,
    Third,
}

impl LockedAxis {
    /// The number of the locked channel: 0, 1 or 2.
    pub open spec fn ordinal(self) -> int {
        match self {
            LockedAxis::First => 0,
            LockedAxis::Second => 1,
            LockedAxis::Third => 2,
        }
    }

    /// The axis that locks channel `i`.
    pub open spec fn nth(i: int) -> LockedAxis {
        if i == 0 {
            LockedAxis::First
        } else if i == 1 {
            LockedAxis::Second
        } else {
            LockedAxis::Third
        }
    }

    /// The grid coordinate of the sample `(x, y)` of the slice at `locked`: the locked value
    /// takes the fixed channel, `x` and `y` take the other two in channel order.
    pub open spec fn place(self, locked: int, x: int, y: int) -> (int, int, int) {
        match self {
            LockedAxis::First => (locked, x, y),
            LockedAxis::Second => (x, locked, y),
            LockedAxis::Third => (x, y, locked),
        }
    }

    /// The number of the locked channel.
    pub fn index(&self) -> (i: usize)
        ensures
            i == self.ordinal(),
    {
        match self {
            LockedAxis::First => 0,
            LockedAxis::Second => 1,
            LockedAxis::Third => 2,
        }
    }

    /// The axis that locks channel `i`, for `i` below 3.
    pub fn from_index(i: usize) -> (axis: Option<LockedAxis>)
        ensures
            i < 3 ==> axis == Some(Self::nth(i as int)),
            i >= 3 ==> axis is None,
    {
        if i == 0 {
            Some(LockedAxis::First)
        } else if i == 1 {
            Some(LockedAxis::Second)
        } else if i == 2 {
            Some(LockedAxis::Third)
        } else {
            None
        }
    }

    /// The grid coordinate of the sample `(x, y)` of the slice at `locked`.
    pub fn coordinate(&self, locked: u32, x: u32, y: u32) -> (c: (u32, u32, u32))
        ensures
            (c.0 as int, c.1 as int, c.2 as int) == self.place(locked as int, x as int, y as int),
    {
        match self {
            LockedAxis::First => (locked, x, y),
            LockedAxis::Second => (x, locked, y),
            LockedAxis::Third => (x, y, locked),
        }
    }
}

/// The number by which a grid index is divided to normalize it: the last index of the axis,
/// or 1 where the axis has no second point to divide by.
pub open spec fn divisor(resolution: u32) -> int {
    if resolution >= 2 {
        resolution - 1
    } else {
        1
    }
}

/// The number by which the grid indices of an axis of `resolution` points are divided to
/// normalize them to the unit interval. It is never zero.
pub fn axis_divisor(resolution: u32) -> (d: u32)
    ensures
        d == divisor(resolution),
        d >= 1,
{
    if resolution >= 2 {
        resolution - 1
    } else {
        1
    }
}

/// The samples of one slice that lie in `gamut`: the points `(x, y)` of the plane grid whose
/// coordinate in the cube, with `axis` held at `locked`, belongs to it.
pub open spec fn slice_hits(
    gamut: Set<(int, int, int)>,
    resolution: u32,
    axis: LockedAxis,
    locked: int,
) -> Set<(int, int)> {
    Set::new(
        |p: (int, int)|
            0 <= p.0 < resolution && 0 <= p.1 < resolution && gamut.contains(
                axis.place(locked, p.0, p.1),
            ),
    )
}

} // verus!
