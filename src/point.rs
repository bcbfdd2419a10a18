use vstd::prelude::*;

use core::cmp::Ordering;

verus! {

/// Which wall of the polygon a vertical edge belongs to: a `Left` wall is
/// walked upwards (its source lies below its target), a `Right` wall
/// downwards.
#[derive(Clone, Copy, Debug, PartialEq, Eq, Structural)]
pub enum Side {
    Left,
    Right,
}

/// The kind of wall an edge is; another name for [`Side`].
pub type EdgeTy = Side;

/// A point of the integer plane.
#[derive(Clone, Copy, Debug, Default, PartialEq, Eq, Structural)]
pub struct Point {
    pub x: isize,
    pub y: isize,
}

/// `p` comes before `q` in scan order: lower `y` first, then lower `x`.
pub open spec fn point_lt(p: Point, q: Point) -> bool {
    p.y < q.y || (p.y == q.y && p.x < q.x)
}

/// The scan order of two points as an `Ordering`.
pub open spec fn point_cmp(p: Point, q: Point) -> Ordering {
    if point_lt(p, q) {
        Ordering::Less
    } else if p == q {
        Ordering::Equal
    } else {
        Ordering::Greater
    }
}

/// The wall kind of a vertical step from `p` to `q`, if the step is vertical
/// at all.
pub open spec fn side_between(p: Point, q: Point) -> Option<Side> {
    if p.y < q.y {
        Some(Side::Left)
    } else if p.y > q.y {
        Some(Side::Right)
    } else {
        None
    }
}

impl Point {
    pub fn new(x: isize, y: isize) -> (p: Point)
        ensures
            p == (Point { x, y }),
    {
        Point { x, y }
    }

    /// The kind of wall that a step from `self` to `other` lies on: `Left`
    /// when it rises, `Right` when it falls, none when it is horizontal.
    pub fn which_side(&self, other: &Point) -> (r: Option<Side>)
        ensures
            r == side_between(*self, *other),
    {
        if self.y < other.y {
            Some(Side::Left)
        } else if self.y == other.y {
            None
        } else {
            Some(Side::Right)
        }
    }

    /// Whether `self` comes strictly before `other` in scan order.
    pub fn precedes(&self, other: &Point) -> (r: bool)
        ensures
            r == point_lt(*self, *other),
    {
        self.y < other.y || (self.y == other.y && self.x < other.x)
    }
}

impl PartialOrd for Point {
    fn partial_cmp(&self, other: &Point) -> (r: Option<Ordering>)
        ensures
            r == Some(point_cmp(*self, *other)),
    {
        if self.precedes(other) {
            Some(Ordering::Less)
        } else if self.x == other.x && self.y == other.y {
            Some(Ordering::Equal)
        } else {
            Some(Ordering::Greater)
        }
    }
}

impl vstd::std_specs::cmp::PartialOrdSpecImpl for Point {
    open spec fn obeys_partial_cmp_spec() -> bool {
        true
    }

    open spec fn partial_cmp_spec(&self, other: &Point) -> Option<Ordering> {
        Some(point_cmp(*self, *other))
    }
}

/// Scan order is total: of `p < q`, `p == q` and `q < p` exactly one holds,
/// with `y` deciding and `x` breaking ties.
pub proof fn lemma_point_order_total(p: Point, q: Point)
    ensures
        point_lt(p, q) || p == q || point_lt(q, p),
        !(point_lt(p, q) && p == q),
        !(point_lt(p, q) && point_lt(q, p)),
        !(p == q && point_lt(q, p)),
        point_lt(p, q) <==> (p.y < q.y || (p.y == q.y && p.x < q.x)),
        point_cmp(p, q) == Ordering::Less <==> point_lt(p, q),
        point_cmp(p, q) == Ordering::Greater <==> point_lt(q, p),
{
}

} // verus!
