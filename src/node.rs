use vstd::prelude::*;

use crate::cell::CellOpt;
use crate::edge::EdgeId;
use crate::geometry::GeometricId;
use crate::point::{side_between, Point, Side};

verus! {

/// The stable identifier of a node: its slot in the geometry's node arena.
#[derive(Clone, Copy, Debug, PartialEq, Eq, Structural)]
pub struct NodeId {
    pub index: usize,
}

impl NodeId {
    pub fn new(index: usize) -> (id: NodeId)
        ensures
            id.index == index,
    {
        NodeId { index }
    }
}

impl GeometricId for NodeId {
    fn index(&self) -> (r: usize)
        ensures
            r == self.index,
    {
        self.index
    }
}

/// A vertex of the polygon's boundary, with the vertical edge that ends at it
/// and the one that starts at it, where these exist.
#[derive(Clone, Copy, Debug)]
pub struct Node {
    pub id: NodeId,
    pub point: Point,
    pub inc_edge: CellOpt<EdgeId>,
    pub out_edge: CellOpt<EdgeId>,
}

impl Node {
    pub fn new(point: Point, id: NodeId, inc_edge: Option<EdgeId>, out_edge: Option<EdgeId>) -> (n:
        Node)
        ensures
            n.point == point,
            n.id == id,
            n.inc_edge.value == inc_edge,
            n.out_edge.value == out_edge,
    {
        Node { id, point, inc_edge: CellOpt { value: inc_edge }, out_edge: CellOpt { value: out_edge } }
    }

    pub fn id(self) -> (r: NodeId)
        ensures
            r == self.id,
    {
        self.id
    }

    /// Records the edge that ends at this node; the slot must be empty.
    pub fn set_inc_edge(&mut self, inc: EdgeId)
        requires
            old(self).inc_edge.value is None,
        ensures
            *final(self) == (Node { inc_edge: CellOpt { value: Some(inc) }, ..*old(self) }),
    {
        let _ = self.inc_edge.initialize(inc);
    }

    /// Records the edge that starts at this node; the slot must be empty.
    pub fn set_out_edge(&mut self, out: EdgeId)
        requires
            old(self).out_edge.value is None,
        ensures
            *final(self) == (Node { out_edge: CellOpt { value: Some(out) }, ..*old(self) }),
    {
        let _ = self.out_edge.initialize(out);
    }

    /// The wall kind of a vertical step from this node to `other`.
    pub fn which_side(&self, other: &Node) -> (r: Option<Side>)
        ensures
            r == side_between(self.point, other.point),
    {
        self.point.which_side(&other.point)
    }

    pub fn x(&self) -> (r: isize)
        ensures
            r == self.point.x,
    {
        self.point.x
    }

    pub fn y(&self) -> (r: isize)
        ensures
            r == self.point.y,
    {
        self.point.y
    }

    pub fn inc_edge(&self) -> (r: Option<EdgeId>)
        ensures
            r == self.inc_edge.value,
    {
        self.inc_edge.get()
    }

    pub fn out_edge(&self) -> (r: Option<EdgeId>)
        ensures
            r == self.out_edge.value,
    {
        self.out_edge.get()
    }

    /// Empties the incoming slot and returns what it held.
    pub fn take_inc_edge(&mut self) -> (r: Option<EdgeId>)
        ensures
            r == old(self).inc_edge.value,
            *final(self) == (Node { inc_edge: CellOpt { value: None }, ..*old(self) }),
    {
        self.inc_edge.take().ok()
    }

    /// Empties the outgoing slot and returns what it held.
    pub fn take_out_edge(&mut self) -> (r: Option<EdgeId>)
        ensures
            r == old(self).out_edge.value,
            *final(self) == (Node { out_edge: CellOpt { value: None }, ..*old(self) }),
    {
        self.out_edge.take().ok()
    }
}

} // verus!
