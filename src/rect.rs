use vstd::prelude::*;

use crate::point::Point;

verus! {

/// An output rectangle, given by two opposite corners.
#[derive(Clone, Copy, Debug, Default, PartialEq, Eq, Structural)]
pub struct Rect {
    pub left: Point,
    pub right: Point,
}

impl Rect {
    pub fn new(left: Point, right: Point) -> (r: Rect)
        ensures
            r == (Rect { left, right }),
    {
        Rect { left, right }
    }

    /// The corner that came from the left wall.
    pub fn left(&self) -> (p: Point)
        ensures
            p == self.left,
    {
        self.left
    }

    /// The corner that came from the right wall.
    pub fn right(&self) -> (p: Point)
        ensures
            p == self.right,
    {
        self.right
    }
}

} // verus!
