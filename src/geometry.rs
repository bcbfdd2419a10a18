use vstd::prelude::*;

use id_arena::Arena;

use crate::arena::{
    alloc_edge, alloc_node, edge_at, edge_count, edge_items, new_edge_arena, new_node_arena,
    node_at, node_count, node_items, set_edge_at, set_node_at,
};
use crate::cell::CellOpt;
use crate::decomposer::DecompErr;
use crate::edge::{Edge, EdgeId};
use crate::node::{Node, NodeId};
use crate::point::{Point, Side};

verus! {

/// An identifier of an item of a [`Geometry`].
pub trait GeometricId {
    fn index(&self) -> usize;
}

/// What a [`Geometry`] holds: its nodes and its edges, each at the slot that
/// its identifier names.
pub struct Boundary {
    pub nodes: Seq<Node>,
    pub edges: Seq<Edge>,
}

impl Boundary {
    pub open spec fn has_node(self, id: NodeId) -> bool {
        id.index < self.nodes.len()
    }

    pub open spec fn has_edge(self, id: EdgeId) -> bool {
        id.index < self.edges.len()
    }

    pub open spec fn node(self, id: NodeId) -> Node {
        self.nodes[id.index as int]
    }

    pub open spec fn edge(self, id: EdgeId) -> Edge {
        self.edges[id.index as int]
    }

    /// An edge whose end points are both nodes of this boundary.
    pub open spec fn holds_ends(self, e: Edge) -> bool {
        self.has_node(e.source) && self.has_node(e.target)
    }

    pub open spec fn min_y(self, e: Edge) -> int {
        let a = self.node(e.source).point.y;
        let b = self.node(e.target).point.y;
        if a <= b {
            a as int
        } else {
            b as int
        }
    }

    pub open spec fn max_y(self, e: Edge) -> int {
        let a = self.node(e.source).point.y;
        let b = self.node(e.target).point.y;
        if a <= b {
            b as int
        } else {
            a as int
        }
    }

    /// The scanline meets the edge, end points included.
    pub open spec fn contains(self, e: Edge, scanline: int) -> bool {
        self.min_y(e) <= scanline <= self.max_y(e)
    }

    /// The scanline passes through the inside of the edge.
    pub open spec fn strictly_contains(self, e: Edge, scanline: int) -> bool {
        self.min_y(e) < scanline < self.max_y(e)
    }

    /// The `x` of the edge's source, by which active edges are ordered.
    pub open spec fn src_x(self, id: EdgeId) -> int {
        self.node(self.edge(id).source).point.x as int
    }

    pub open spec fn slot_ok(self, slot: Option<EdgeId>) -> bool {
        slot matches Some(e) ==> self.has_edge(e)
    }

    /// Every item sits at the slot its identifier names, and every
    /// identifier stored in an item names an existing item.
    pub open spec fn wf(self) -> bool {
        &&& forall|i: int|
            0 <= i < self.nodes.len() ==> {
                &&& (#[trigger] self.nodes[i]).id.index == i
                &&& self.slot_ok(self.nodes[i].inc_edge.value)
                &&& self.slot_ok(self.nodes[i].out_edge.value)
            }
        &&& forall|j: int|
            0 <= j < self.edges.len() ==> {
                &&& (#[trigger] self.edges[j]).id.index == j
                &&& self.holds_ends(self.edges[j])
            }
    }

    /// Every identifier issued by `earlier` still names an item here, at the
    /// same place and with the same identity.
    pub open spec fn extends(self, earlier: Boundary) -> bool {
        &&& earlier.nodes.len() <= self.nodes.len()
        &&& earlier.edges.len() <= self.edges.len()
        &&& forall|i: int|
            0 <= i < earlier.nodes.len() ==> (#[trigger] self.nodes[i]).id == earlier.nodes[i].id
                && self.nodes[i].point == earlier.nodes[i].point
        &&& forall|j: int|
            0 <= j < earlier.edges.len() ==> (#[trigger] self.edges[j]).id == earlier.edges[j].id
    }

    pub open spec fn set_node(self, id: NodeId, n: Node) -> Boundary {
        Boundary { nodes: self.nodes.update(id.index as int, n), edges: self.edges }
    }

    pub open spec fn set_edge(self, id: EdgeId, e: Edge) -> Boundary {
        Boundary { nodes: self.nodes, edges: self.edges.update(id.index as int, e) }
    }

    /// The identifier the next new node gets.
    pub open spec fn next_node_id(self) -> NodeId {
        NodeId { index: self.nodes.len() as usize }
    }

    /// The identifier the next new edge gets.
    pub open spec fn next_edge_id(self) -> EdgeId {
        EdgeId { index: self.edges.len() as usize }
    }

    /// A new node at `point`, with the given edge slots.
    pub open spec fn with_node(self, point: Point, inc: Option<EdgeId>, out: Option<EdgeId>) -> Boundary {
        Boundary {
            nodes: self.nodes.push(
                Node {
                    id: self.next_node_id(),
                    point,
                    inc_edge: CellOpt { value: inc },
                    out_edge: CellOpt { value: out },
                },
            ),
            edges: self.edges,
        }
    }

    /// A new edge from `source` to `target`, recorded as the outgoing edge of
    /// `source` and the incoming edge of `target`.
    pub open spec fn with_edge(self, source: NodeId, target: NodeId, side: Side) -> Boundary {
        let id = self.next_edge_id();
        let b1 = self.set_node(
            source,
            Node { out_edge: CellOpt { value: Some(id) }, ..self.node(source) },
        );
        let b2 = b1.set_node(target, Node { inc_edge: CellOpt { value: Some(id) }, ..b1.node(target) });
        Boundary { nodes: b2.nodes, edges: b2.edges.push(Edge { id, source, target, side }) }
    }

    /// The end point of an edge that a split moves: the source of a `Left`
    /// edge, the target of a `Right` one.
    pub open spec fn split_endpoint(self, id: EdgeId) -> NodeId {
        let e = self.edge(id);
        match e.side {
            Side::Left => e.source,
            Side::Right => e.target,
        }
    }

    /// The boundary after splitting edge `id` at `scanline`: a new node on the
    /// edge's line at the scanline takes the place of the moved end point,
    /// and a new edge of the same side joins the moved end point to the new
    /// node.
    pub open spec fn split(self, id: EdgeId, scanline: isize) -> Boundary {
        let e = self.edge(id);
        let u = self.split_endpoint(id);
        let n = self.next_node_id();
        let b1 = self.with_node(Point { x: self.node(u).point.x, y: scanline }, None, None);
        match e.side {
            Side::Left => {
                let b2 = b1.set_edge(id, Edge { source: n, ..e });
                let b3 = b2.set_node(u, Node { out_edge: CellOpt { value: None }, ..b2.node(u) });
                let b4 = b3.set_node(n, Node { out_edge: CellOpt { value: Some(id) }, ..b3.node(n) });
                b4.with_edge(u, n, Side::Left)
            },
            Side::Right => {
                let b2 = b1.set_edge(id, Edge { target: n, ..e });
                let b3 = b2.set_node(u, Node { inc_edge: CellOpt { value: None }, ..b2.node(u) });
                let b4 = b3.set_node(n, Node { inc_edge: CellOpt { value: Some(id) }, ..b3.node(n) });
                b4.with_edge(n, u, Side::Right)
            },
        }
    }
}

/// The slot after `i` on a closed walk of `n` points.
pub open spec fn next_index(n: int, i: int) -> int {
    if i + 1 == n {
        0
    } else {
        i + 1
    }
}

/// The slot before `i` on a closed walk of `n` points.
pub open spec fn prev_index(n: int, i: int) -> int {
    if i == 0 {
        n - 1
    } else {
        i - 1
    }
}

/// The vertical edges among the first `k` steps of the closed walk through
/// `points`: step `s` goes from point `s` to the next one, and is an edge when
/// the two differ in `y`.
pub open spec fn boundary_edges(points: Seq<Point>, k: int) -> Seq<Edge>
    decreases k,
{
    if k <= 0 {
        Seq::empty()
    } else {
        let prev = boundary_edges(points, k - 1);
        let s = k - 1;
        let t = next_index(points.len() as int, s);
        if points[s].y != points[t].y {
            prev.push(
                Edge {
                    id: EdgeId { index: prev.len() as usize },
                    source: NodeId { index: s as usize },
                    target: NodeId { index: t as usize },
                    side: if points[s].y < points[t].y {
                        Side::Left
                    } else {
                        Side::Right
                    },
                },
            )
        } else {
            prev
        }
    }
}

/// The edge made for step `s` of the walk, if that step is vertical.
pub open spec fn boundary_slot(points: Seq<Point>, s: int) -> Option<EdgeId> {
    if points[s].y != points[next_index(points.len() as int, s)].y {
        Some(EdgeId { index: boundary_edges(points, s).len() as usize })
    } else {
        None
    }
}

/// Node `i` of the polygon through `points`.
pub open spec fn boundary_node(points: Seq<Point>, i: int) -> Node {
    Node {
        id: NodeId { index: i as usize },
        point: points[i],
        inc_edge: CellOpt { value: boundary_slot(points, prev_index(points.len() as int, i)) },
        out_edge: CellOpt { value: boundary_slot(points, i) },
    }
}

/// The boundary built from the polygon's points: one node per point, in
/// order, and one edge per vertical step of the closed walk.
pub open spec fn initial_boundary(points: Seq<Point>) -> Boundary {
    Boundary {
        nodes: Seq::new(points.len(), |i: int| boundary_node(points, i)),
        edges: boundary_edges(points, points.len() as int),
    }
}

/// The polygon's boundary graph: nodes and vertical edges in two arenas, each
/// item addressed by a stable identifier.
pub struct Geometry {
    pub nodes: Arena<Node>,
    pub edges: Arena<Edge>,
}

impl View for Geometry {
    type V = Boundary;

    open spec fn view(&self) -> Boundary {
        Boundary { nodes: node_items(self.nodes), edges: edge_items(self.edges) }
    }
}

impl Geometry {
    fn empty(capacity: usize) -> (g: Geometry)
        ensures
            g@.nodes.len() == 0,
            g@.edges.len() == 0,
    {
        Geometry { nodes: new_node_arena(capacity), edges: new_edge_arena(capacity) }
    }

    pub fn node(&self, id: NodeId) -> (n: Node)
        requires
            self@.has_node(id),
        ensures
            n == self@.node(id),
    {
        node_at(&self.nodes, id.index)
    }

    pub fn edge(&self, id: EdgeId) -> (e: Edge)
        requires
            self@.has_edge(id),
        ensures
            e == self@.edge(id),
    {
        edge_at(&self.edges, id.index)
    }

    fn set_node(&mut self, id: NodeId, n: Node)
        requires
            old(self)@.has_node(id),
        ensures
            final(self)@ == old(self)@.set_node(id, n),
    {
        set_node_at(&mut self.nodes, id.index, n);
    }

    fn set_edge(&mut self, id: EdgeId, e: Edge)
        requires
            old(self)@.has_edge(id),
        ensures
            final(self)@ == old(self)@.set_edge(id, e),
    {
        set_edge_at(&mut self.edges, id.index, e);
    }

    /// Adds a node at `point` with the given edge slots; its identifier is
    /// new, and every identifier issued before stays as it was.
    pub fn new_node(&mut self, point: Point, in_edge: Option<EdgeId>, out_edge: Option<EdgeId>) -> (id:
        NodeId)
        ensures
            final(self)@ == old(self)@.with_node(point, in_edge, out_edge),
            id == old(self)@.next_node_id(),
            id.index == old(self)@.nodes.len(),
            final(self)@.has_node(id),
            final(self)@.extends(old(self)@),
            old(self)@.wf() && old(self)@.slot_ok(in_edge) && old(self)@.slot_ok(out_edge)
                ==> final(self)@.wf(),
    {
        let index = node_count(&self.nodes);
        let id = NodeId::new(index);
        alloc_node(&mut self.nodes, Node::new(point, id, in_edge, out_edge));
        id
    }

    /// Adds an edge from `source` to `target`, and records it in the outgoing
    /// slot of `source` and the incoming slot of `target`, which must both be
    /// empty.
    pub fn new_edge(&mut self, source: NodeId, target: NodeId, ty: Side) -> (e: Edge)
        requires
            old(self)@.has_node(source),
            old(self)@.has_node(target),
            old(self)@.node(source).out_edge.value is None,
            old(self)@.node(target).inc_edge.value is None,
        ensures
            final(self)@ == old(self)@.with_edge(source, target, ty),
            e == (Edge { id: old(self)@.next_edge_id(), source, target, side: ty }),
            e.id.index == old(self)@.edges.len(),
            final(self)@.has_edge(e.id),
            final(self)@.extends(old(self)@),
            old(self)@.wf() ==> final(self)@.wf(),
    {
        let index = edge_count(&self.edges);
        let id = EdgeId::new(index);
        let mut src = self.node(source);
        src.set_out_edge(id);
        self.set_node(source, src);
        let mut tgt = self.node(target);
        tgt.set_inc_edge(id);
        self.set_node(target, tgt);
        let e = Edge::new(id, source, target, ty);
        alloc_edge(&mut self.edges, e);
        proof {
            let b = old(self)@;
            let f = self@;
            if b.wf() {
                assert forall|i: int| 0 <= i < f.nodes.len() implies {
                    &&& (#[trigger] f.nodes[i]).id.index == i
                    &&& f.slot_ok(f.nodes[i].inc_edge.value)
                    &&& f.slot_ok(f.nodes[i].out_edge.value)
                } by {
                    assert(b.nodes[i].id.index == i);
                }
                assert forall|j: int| 0 <= j < f.edges.len() implies {
                    &&& (#[trigger] f.edges[j]).id.index == j
                    &&& f.holds_ends(f.edges[j])
                } by {
                    if j < b.edges.len() {
                        assert(b.edges[j].id.index == j);
                    }
                }
            }
        }
        e
    }

    pub fn len_nodes(&self) -> (n: usize)
        ensures
            n == self@.nodes.len(),
    {
        node_count(&self.nodes)
    }

    pub fn len_edges(&self) -> (n: usize)
        ensures
            n == self@.edges.len(),
    {
        edge_count(&self.edges)
    }

    /// The geometry of the polygon through `points`, listed in clockwise
    /// order: one node per point and one edge per vertical step, the closing
    /// step from the last point to the first included. Three points are
    /// already simple; fewer are not enough.
    pub fn new(points: Vec<Point>) -> (r: Result<Geometry, DecompErr>)
        ensures
            points.len() > 3 ==> (r matches Ok(g) && g@ == initial_boundary(points@) && g@.wf()),
            points.len() == 3 ==> r matches Err(DecompErr::IsAlreadySimple),
            points.len() < 3 ==> r matches Err(DecompErr::NotEnoughPoints),
    {
        let n = points.len();
        if n > 3 {
            let mut geometry = Geometry::empty(n);
            geometry.initialize_nodes_and_edges(&points);
            Ok(geometry)
        } else if n == 3 {
            Err(DecompErr::IsAlreadySimple)
        } else {
            Err(DecompErr::NotEnoughPoints)
        }
    }

    /// Adds one node per point, with empty slots.
    fn initialize_nodes(&mut self, points: &Vec<Point>)
        requires
            old(self)@.nodes.len() == 0,
            old(self)@.edges.len() == 0,
        ensures
            final(self)@.nodes.len() == points.len(),
            final(self)@.edges.len() == 0,
            forall|k: int|
                0 <= k < points.len() ==> #[trigger] final(self)@.nodes[k] == (Node {
                    id: NodeId { index: k as usize },
                    point: points@[k],
                    inc_edge: CellOpt { value: None },
                    out_edge: CellOpt { value: None },
                }),
    {
        let mut i: usize = 0;
        while i < points.len()
            invariant
                i <= points.len(),
                self@.nodes.len() == i,
                self@.edges.len() == 0,
                forall|k: int|
                    0 <= k < i ==> #[trigger] self@.nodes[k] == (Node {
                        id: NodeId { index: k as usize },
                        point: points@[k],
                        inc_edge: CellOpt { value: None },
                        out_edge: CellOpt { value: None },
                    }),
            decreases points.len() - i,
        {
            self.new_node(points[i], None, None);
            i = i + 1;
        }
    }

    /// Builds the nodes, then walks the closed sequence of points once and
    /// adds an edge for each step whose end points differ in `y`.
    fn initialize_nodes_and_edges(&mut self, points: &Vec<Point>)
        requires
            old(self)@.nodes.len() == 0,
            old(self)@.edges.len() == 0,
            points.len() > 0,
        ensures
            final(self)@ == initial_boundary(points@),
            final(self)@.wf(),
    {
        self.initialize_nodes(points);
        let n = points.len();
        let ghost pts = points@;
        let mut s: usize = 0;
        while s < n
            invariant
                n == points.len(),
                pts == points@,
                n > 0,
                s <= n,
                self@.edges == boundary_edges(pts, s as int),
                self@.nodes.len() == n,
                self@.wf(),
                forall|k: int|
                    0 <= k < n ==> {
                        &&& (#[trigger] self@.nodes[k]).id == NodeId { index: k as usize }
                        &&& self@.nodes[k].point == pts[k]
                        &&& self@.nodes[k].out_edge.value == if k < s {
                            boundary_slot(pts, k)
                        } else {
                            None
                        }
                        &&& self@.nodes[k].inc_edge.value == if (1 <= k <= s) || (k == 0 && s
                            == n) {
                            boundary_slot(pts, prev_index(n as int, k))
                        } else {
                            None
                        }
                    },
            decreases n - s,
        {
            let t: usize = if s + 1 == n {
                0
            } else {
                s + 1
            };
            let ghost before = self@;
            if points[s].y != points[t].y {
                let side = if points[s].y < points[t].y {
                    Side::Left
                } else {
                    Side::Right
                };
                self.new_edge(NodeId::new(s), NodeId::new(t), side);
            }
            proof {
                assert(self@.edges =~= boundary_edges(pts, s + 1));
                assert forall|k: int| 0 <= k < n implies {
                    &&& (#[trigger] self@.nodes[k]).id == NodeId { index: k as usize }
                    &&& self@.nodes[k].point == pts[k]
                    &&& self@.nodes[k].out_edge.value == if k < s + 1 {
                        boundary_slot(pts, k)
                    } else {
                        None
                    }
                    &&& self@.nodes[k].inc_edge.value == if (1 <= k <= s + 1) || (k == 0 && s
                        + 1 == n) {
                        boundary_slot(pts, prev_index(n as int, k))
                    } else {
                        None
                    }
                } by {
                    assert(before.nodes[k].id == NodeId { index: k as usize });
                }
            }
            s = s + 1;
        }
        proof {
            assert(self@.nodes =~= initial_boundary(pts).nodes);
        }
    }

    /// Splits edge `split_target` where the scanline crosses it. A `Left`
    /// edge gives up its source, a `Right` edge its target: a new node on the
    /// edge's line at the scanline takes that end's place, the old end point's
    /// slot that held the edge is emptied, and a new edge of the same side
    /// joins the old end point and the new node. No node or edge is removed.
    /// Returns the split edge as it now stands.
    pub fn split_edge(&mut self, split_target: EdgeId, scanline: isize) -> (e: Edge)
        requires
            old(self)@.wf(),
            old(self)@.has_edge(split_target),
        ensures
            final(self)@ == old(self)@.split(split_target, scanline),
            e == final(self)@.edge(split_target),
            final(self)@.wf(),
            final(self)@.extends(old(self)@),
    {
        let ghost b0 = self@;
        let edge = self.edge(split_target);
        let side = edge.side;
        let input_node = match side {
            Side::Left => edge.source,
            Side::Right => edge.target,
        };
        proof {
            assert(b0.holds_ends(b0.edges[split_target.index as int]));
        }
        let existing_x = self.node(input_node).x();
        let new_node_id = self.new_node(Point::new(existing_x, scanline), None, None);
        let ghost b1 = self@;
        let mut moved = self.edge(split_target);
        let mut old_end = self.node(input_node);
        match side {
            Side::Left => {
                moved.set_source(new_node_id);
                self.set_edge(split_target, moved);
                old_end.take_out_edge();
                self.set_node(input_node, old_end);
                let mut fresh = self.node(new_node_id);
                fresh.set_out_edge(split_target);
                self.set_node(new_node_id, fresh);
                proof {
                    lemma_rewired_wf(b1, self@);
                }
                self.new_edge(input_node, new_node_id, side);
            },
            Side::Right => {
                moved.set_target(new_node_id);
                self.set_edge(split_target, moved);
                old_end.take_inc_edge();
                self.set_node(input_node, old_end);
                let mut fresh = self.node(new_node_id);
                fresh.set_inc_edge(split_target);
                self.set_node(new_node_id, fresh);
                proof {
                    lemma_rewired_wf(b1, self@);
                }
                self.new_edge(new_node_id, input_node, side);
            },
        }
        proof {
            lemma_extends_trans(self@, b1, b0);
        }
        self.edge(split_target)
    }
}

/// A boundary that keeps the items of a well-formed one in place, with the
/// same identities, and stores only valid identifiers is well formed too.
proof fn lemma_rewired_wf(before: Boundary, after: Boundary)
    requires
        before.wf(),
        after.nodes.len() == before.nodes.len(),
        after.edges.len() == before.edges.len(),
        forall|i: int| 0 <= i < after.nodes.len() ==> (#[trigger] after.nodes[i]).id == before.nodes[i].id,
        forall|j: int| 0 <= j < after.edges.len() ==> (#[trigger] after.edges[j]).id == before.edges[j].id,
        forall|i: int|
            0 <= i < after.nodes.len() ==> after.slot_ok((#[trigger] after.nodes[i]).inc_edge.value)
                && after.slot_ok(after.nodes[i].out_edge.value),
        forall|j: int| 0 <= j < after.edges.len() ==> after.holds_ends(#[trigger] after.edges[j]),
    ensures
        after.wf(),
{
    assert forall|i: int| 0 <= i < after.nodes.len() implies (#[trigger] after.nodes[i]).id.index == i by {
        assert(before.nodes[i].id.index == i);
    }
    assert forall|j: int| 0 <= j < after.edges.len() implies (#[trigger] after.edges[j]).id.index == j by {
        assert(before.edges[j].id.index == j);
    }
}

/// Extension is transitive: what a geometry issued stays valid through any
/// sequence of later changes.
pub proof fn lemma_extends_trans(c: Boundary, b: Boundary, a: Boundary)
    requires
        c.extends(b),
        b.extends(a),
    ensures
        c.extends(a),
{
    assert forall|i: int| 0 <= i < a.nodes.len() implies (#[trigger] c.nodes[i]).id == a.nodes[i].id
        && c.nodes[i].point == a.nodes[i].point by {
        assert(b.nodes[i].id == a.nodes[i].id);
    }
    assert forall|j: int| 0 <= j < a.edges.len() implies (#[trigger] c.edges[j]).id == a.edges[j].id by {
        assert(b.edges[j].id == a.edges[j].id);
    }
}

/// An identifier, once issued, names an item in every later state of the
/// geometry: the node keeps its identity and its point, the edge its
/// identity.
pub proof fn lemma_ids_stay_valid(earlier: Boundary, later: Boundary, node: NodeId, edge: EdgeId)
    requires
        later.extends(earlier),
    ensures
        earlier.has_node(node) ==> later.has_node(node) && later.node(node).id == earlier.node(
            node,
        ).id && later.node(node).point == earlier.node(node).point,
        earlier.has_edge(edge) ==> later.has_edge(edge) && later.edge(edge).id == earlier.edge(
            edge,
        ).id,
{
}

/// Splitting an edge that the scanline crosses strictly keeps the boundary
/// connected: the new node sits on the edge's line at the scanline, holds the
/// split edge in the slot facing its kept end and the new edge in the other,
/// the moved end point now holds the new edge, and the two edges together
/// end at the former end points of the split edge and at the new node.
pub proof fn lemma_split_connects(b: Boundary, id: EdgeId, scanline: isize)
    requires
        b.wf(),
        b.has_edge(id),
        b.strictly_contains(b.edge(id), scanline as int),
        b.nodes.len() < usize::MAX,
        b.edges.len() < usize::MAX,
    ensures
        b.split(id, scanline).node(b.next_node_id()).point == (Point {
            x: b.node(b.split_endpoint(id)).point.x,
            y: scanline,
        }),
        b.edge(id).side == Side::Left ==> {
            &&& b.split(id, scanline).node(b.next_node_id()).out_edge.value == Some(id)
            &&& b.split(id, scanline).node(b.next_node_id()).inc_edge.value == Some(
                b.next_edge_id(),
            )
            &&& b.split(id, scanline).node(b.edge(id).source).out_edge.value == Some(
                b.next_edge_id(),
            )
            &&& b.split(id, scanline).edge(id) == (Edge { source: b.next_node_id(), ..b.edge(id) })
            &&& b.split(id, scanline).edge(b.next_edge_id()) == (Edge {
                id: b.next_edge_id(),
                source: b.edge(id).source,
                target: b.next_node_id(),
                side: Side::Left,
            })
        },
        b.edge(id).side == Side::Right ==> {
            &&& b.split(id, scanline).node(b.next_node_id()).inc_edge.value == Some(id)
            &&& b.split(id, scanline).node(b.next_node_id()).out_edge.value == Some(
                b.next_edge_id(),
            )
            &&& b.split(id, scanline).node(b.edge(id).target).inc_edge.value == Some(
                b.next_edge_id(),
            )
            &&& b.split(id, scanline).edge(id) == (Edge { target: b.next_node_id(), ..b.edge(id) })
            &&& b.split(id, scanline).edge(b.next_edge_id()) == (Edge {
                id: b.next_edge_id(),
                source: b.next_node_id(),
                target: b.edge(id).target,
                side: Side::Right,
            })
        },
        set![
            b.split(id, scanline).edge(id).source,
            b.split(id, scanline).edge(id).target,
            b.split(id, scanline).edge(b.next_edge_id()).source,
            b.split(id, scanline).edge(b.next_edge_id()).target,
        ] == set![b.edge(id).source, b.edge(id).target, b.next_node_id()],
{
    let e = b.edge(id);
    assert(b.holds_ends(b.edges[id.index as int]));
    assert(b.edges[id.index as int].id.index == id.index);
    let after = b.split(id, scanline);
    let f = b.next_edge_id();
    let n = b.next_node_id();
    assert(set![after.edge(id).source, after.edge(id).target, after.edge(f).source, after.edge(f).target]
        =~= set![e.source, e.target, n]);
}

} // verus!
