use vstd::prelude::*;

use crate::geometry::{Boundary, GeometricId, Geometry};
use crate::node::{Node, NodeId};
use crate::point::Side;

verus! {

/// The stable identifier of an edge: its slot in the geometry's edge arena.
#[derive(Clone, Copy, Debug, PartialEq, Eq, Structural)]
pub struct EdgeId {
    pub index: usize,
}

impl EdgeId {
    pub fn new(index: usize) -> (id: EdgeId)
        ensures
            id.index == index,
    {
        EdgeId { index }
    }
}

impl GeometricId for EdgeId {
    fn index(&self) -> (r: usize)
        ensures
            r == self.index,
    {
        self.index
    }
}

/// A vertical edge of the boundary, from `source` to `target`.
#[derive(Clone, Copy, Debug, PartialEq, Eq, Structural)]
pub struct Edge {
    pub id: EdgeId,
    pub source: NodeId,
    pub target: NodeId,
    pub side: Side,
}

/// How an edge's vertical extent may hold a scanline: `Weak` counts its end
/// points, `Strict` does not.
#[derive(Clone, Copy, Debug, PartialEq, Eq, Structural)]
pub enum Containment {
    Strict,
    Weak,
}

impl Edge {
    pub fn new(id: EdgeId, source: NodeId, target: NodeId, side: Side) -> (e: Edge)
        ensures
            e == (Edge { id, source, target, side }),
    {
        Edge { id, source, target, side }
    }

    pub fn id(self) -> (r: EdgeId)
        ensures
            r == self.id,
    {
        self.id
    }

    pub fn source(&self, geometry: &Geometry) -> (n: Node)
        requires
            geometry@.has_node(self.source),
        ensures
            n == geometry@.node(self.source),
    {
        geometry.node(self.source)
    }

    pub fn target(&self, geometry: &Geometry) -> (n: Node)
        requires
            geometry@.has_node(self.target),
        ensures
            n == geometry@.node(self.target),
    {
        geometry.node(self.target)
    }

    pub fn src_x(&self, geometry: &Geometry) -> (r: isize)
        requires
            geometry@.has_node(self.source),
        ensures
            r == geometry@.node(self.source).point.x,
    {
        self.source(geometry).x()
    }

    pub fn src_y(&self, geometry: &Geometry) -> (r: isize)
        requires
            geometry@.has_node(self.source),
        ensures
            r == geometry@.node(self.source).point.y,
    {
        self.source(geometry).y()
    }

    pub fn tgt_y(&self, geometry: &Geometry) -> (r: isize)
        requires
            geometry@.has_node(self.target),
        ensures
            r == geometry@.node(self.target).point.y,
    {
        self.target(geometry).y()
    }

    /// The lower and the upper `y` of the edge's end points.
    pub fn min_max_y(&self, geometry: &Geometry) -> (r: (isize, isize))
        requires
            geometry@.has_node(self.source),
            geometry@.has_node(self.target),
        ensures
            r.0 == geometry@.min_y(*self),
            r.1 == geometry@.max_y(*self),
    {
        let src_y = self.src_y(geometry);
        let tgt_y = self.tgt_y(geometry);
        if src_y <= tgt_y {
            (src_y, tgt_y)
        } else {
            (tgt_y, src_y)
        }
    }

    /// Whether the scanline meets the edge, in the given sense.
    pub fn holds_scanline(&self, geometry: &Geometry, scanline: isize, how: Containment) -> (r:
        bool)
        requires
            geometry@.has_node(self.source),
            geometry@.has_node(self.target),
        ensures
            how == Containment::Weak ==> r == geometry@.contains(*self, scanline as int),
            how == Containment::Strict ==> r == geometry@.strictly_contains(*self, scanline as int),
    {
        let (min_y, max_y) = self.min_max_y(geometry);
        match how {
            Containment::Weak => min_y <= scanline && scanline <= max_y,
            Containment::Strict => min_y < scanline && scanline < max_y,
        }
    }

    /// Whether the scanline meets the edge, end points included.
    pub fn contains_scanline(&self, geometry: &Geometry, scanline: isize) -> (r: bool)
        requires
            geometry@.has_node(self.source),
            geometry@.has_node(self.target),
        ensures
            r == geometry@.contains(*self, scanline as int),
    {
        self.holds_scanline(geometry, scanline, Containment::Weak)
    }

    /// Whether the scanline passes through the inside of the edge, missing
    /// both end points.
    pub fn scanline_strictly_inside(&self, geometry: &Geometry, scanline: isize) -> (r: bool)
        requires
            geometry@.has_node(self.source),
            geometry@.has_node(self.target),
        ensures
            r == geometry@.strictly_contains(*self, scanline as int),
    {
        self.holds_scanline(geometry, scanline, Containment::Strict)
    }

    pub fn set_source(&mut self, new: NodeId)
        ensures
            *final(self) == (Edge { source: new, ..*old(self) }),
    {
        self.source = new;
    }

    pub fn set_target(&mut self, new: NodeId)
        ensures
            *final(self) == (Edge { target: new, ..*old(self) }),
    {
        self.target = new;
    }
}

} // verus!
