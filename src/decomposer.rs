use vstd::prelude::*;

use crate::active::{
    all_edges_in, all_nodes_in, node_before, edges_after_maybe_insert, in_scan_order, kept, ActiveEdges,
    ActiveNodes,
};
use crate::edge::EdgeId;
use crate::edge_scans::{lemma_scan_step_advances, scan_step, EdgeScans, ScanResult};
use crate::geometry::{initial_boundary, Boundary, Geometry};
use crate::node::NodeId;
use crate::point::Point;
use crate::rect::Rect;

verus! {

/// Why a polygon could not be decomposed.
#[derive(Clone, Copy, Debug, PartialEq, Eq, Structural)]
pub enum DecompErr {
    /// Fewer than three points: no polygon at all.
    NotEnoughPoints,
    /// The sweep needed the next scanline but no active node was left.
    FailedScanlineUpdate,
    /// Exactly three points: a shape too simple to decompose.
    IsAlreadySimple,
}

/// The identifiers of the first `n` nodes, in order.
pub open spec fn node_ids(n: nat) -> Seq<NodeId> {
    Seq::new(n, |i: int| NodeId { index: i as usize })
}

/// `order` lists every node of `b` once, in scan order.
pub open spec fn is_scan_order(b: Boundary, order: Seq<NodeId>) -> bool {
    &&& order.to_multiset() == node_ids(b.nodes.len()).to_multiset()
    &&& in_scan_order(b, order)
}

/// There is one scan order of a boundary's nodes, so the order that
/// [`Decomposer::decompose`] speaks of, and with it its result, is determined
/// by the points.
pub proof fn lemma_scan_order_unique(b: Boundary, o1: Seq<NodeId>, o2: Seq<NodeId>)
    requires
        is_scan_order(b, o1),
        is_scan_order(b, o2),
    ensures
        o1 == o2,
{
    let leq = |a: NodeId, c: NodeId| !node_before(b, c, a);
    assert(vstd::relations::total_ordering(leq)) by {
        assert forall|x: NodeId, y: NodeId| #[trigger] leq(x, y) && #[trigger] leq(y, x) implies x
            == y by {
            assert(x.index == y.index);
        }
        assert forall|x: NodeId, y: NodeId, z: NodeId| #[trigger] leq(x, y) && #[trigger] leq(
            y,
            z,
        ) implies leq(x, z) by {
            crate::point::lemma_point_order_total(b.node(x).point, b.node(z).point);
        }
    }
    assert(vstd::relations::sorted_by(o1, leq));
    assert(vstd::relations::sorted_by(o2, leq));
    vstd::seq_lib::lemma_sorted_unique(o1, o2, leq);
}

/// The active edges that scanline `s` still meets, in their order.
pub open spec fn purge(b: Boundary, items: Seq<EdgeId>, s: isize) -> Seq<EdgeId> {
    items.filter(|e: EdgeId| b.contains(b.edge(e), s as int))
}

/// Consumes the nodes from position `nc` on that lie on scanline `s`,
/// inserting the incoming and then the outgoing edge of each into the active
/// edges, with the insertion cursor at `ec`. Gives the position of the first
/// node left and the active edges.
pub open spec fn add_active(
    b: Boundary,
    nodes: Seq<NodeId>,
    nc: int,
    items: Seq<EdgeId>,
    ec: int,
    s: isize,
) -> (int, Seq<EdgeId>)
    decreases nodes.len() - nc,
{
    if 0 <= nc < nodes.len() && b.node(nodes[nc]).point.y == s {
        let node = b.node(nodes[nc]);
        let (items1, ec1) = edges_after_maybe_insert(b, items, ec, node.inc_edge.value);
        let (items2, ec2) = edges_after_maybe_insert(b, items1, ec1, node.out_edge.value);
        add_active(b, nodes, nc + 1, items2, ec2, s)
    } else {
        (nc, items)
    }
}

/// The steps of the pairing machine on scanline `s` from cursor `cursor`
/// until the active edges are exhausted or a step ends the pass: the
/// boundary after them and the rectangles they give, in order.
pub open spec fn scan_pass(b: Boundary, items: Seq<EdgeId>, cursor: int, s: isize) -> (
    Boundary,
    Seq<Rect>,
)
    decreases items.len() - cursor,
    via scan_pass_decreases
{
    if cursor < 0 || cursor >= items.len() {
        (b, Seq::empty())
    } else {
        let (r, b1, c1) = scan_step(b, items, cursor, s);
        match r {
            ScanResult::ContinueLoop(_) => scan_pass(b1, items, c1, s),
            ScanResult::NewRect(rect) => {
                let (b2, rects) = scan_pass(b1, items, c1, s);
                (b2, seq![rect] + rects)
            },
            _ => (b1, Seq::empty()),
        }
    }
}

#[via_fn]
proof fn scan_pass_decreases(b: Boundary, items: Seq<EdgeId>, cursor: int, s: isize) {
    if 0 <= cursor < items.len() {
        lemma_scan_step_advances(b, items, cursor, s);
    }
}

/// One scanline of the sweep, at the `y` of the node at position `nc`:
/// edges the scanline no longer meets are purged, the nodes on it bring in
/// their edges, and a pass of the pairing machine emits rectangles. Gives
/// the position of the next node left, the active edges, the boundary after
/// the pass, and the rectangles.
pub open spec fn sweep_round(b: Boundary, nodes: Seq<NodeId>, nc: int, items: Seq<EdgeId>) -> (
    int,
    Seq<EdgeId>,
    Boundary,
    Seq<Rect>,
) {
    let s = b.node(nodes[nc]).point.y;
    let (nc1, active) = add_active(b, nodes, nc, purge(b, items, s), 0, s);
    let (b1, rects) = scan_pass(b, active, 0, s);
    (nc1, active, b1, rects)
}

/// The sweep from node position `nc` on, with `items` active: one round per
/// scanline while nodes are left, the rectangles of the rounds in order.
pub open spec fn sweep(b: Boundary, nodes: Seq<NodeId>, nc: int, items: Seq<EdgeId>) -> Seq<Rect>
    decreases nodes.len() - nc,
    via sweep_decreases
{
    if nc < 0 || nc >= nodes.len() {
        Seq::empty()
    } else {
        let (nc1, active, b1, rects) = sweep_round(b, nodes, nc, items);
        if nc1 >= nodes.len() {
            rects
        } else {
            rects + sweep(b1, nodes, nc1, active)
        }
    }
}

#[via_fn]
proof fn sweep_decreases(b: Boundary, nodes: Seq<NodeId>, nc: int, items: Seq<EdgeId>) {
    if 0 <= nc < nodes.len() {
        let s = b.node(nodes[nc]).point.y;
        lemma_add_active_consumes(b, nodes, nc, purge(b, items, s), 0, s);
    }
}

/// Adding the nodes on a scanline never moves back, and consumes the node at
/// `nc` when it lies on the scanline.
proof fn lemma_add_active_consumes(
    b: Boundary,
    nodes: Seq<NodeId>,
    nc: int,
    items: Seq<EdgeId>,
    ec: int,
    s: isize,
)
    requires
        0 <= nc,
    ensures
        add_active(b, nodes, nc, items, ec, s).0 >= nc,
        nc <= nodes.len() ==> add_active(b, nodes, nc, items, ec, s).0 <= nodes.len(),
        nc < nodes.len() && b.node(nodes[nc]).point.y == s ==> add_active(b, nodes, nc, items, ec, s).0 > nc,
    decreases nodes.len() - nc,
{
    if 0 <= nc < nodes.len() && b.node(nodes[nc]).point.y == s {
        let node = b.node(nodes[nc]);
        let (items1, ec1) = edges_after_maybe_insert(b, items, ec, node.inc_edge.value);
        let (items2, ec2) = edges_after_maybe_insert(b, items1, ec1, node.out_edge.value);
        lemma_add_active_consumes(b, nodes, nc + 1, items2, ec2, s);
    }
}

/// The sweep ends: every pass consumes at least one active node, so once
/// they are all consumed no further pass is made.
pub proof fn lemma_sweep_ends(b: Boundary, nodes: Seq<NodeId>, nc: int, items: Seq<EdgeId>)
    ensures
        nc >= nodes.len() ==> sweep(b, nodes, nc, items) == Seq::<Rect>::empty(),
        0 <= nc < nodes.len() ==> nc < sweep_round(b, nodes, nc, items).0 <= nodes.len(),
{
    if 0 <= nc < nodes.len() {
        let s = b.node(nodes[nc]).point.y;
        lemma_add_active_consumes(b, nodes, nc, purge(b, items, s), 0, s);
    }
}

proof fn lemma_kept_is_filter(items: Seq<EdgeId>, keep: Seq<bool>, pred: spec_fn(EdgeId) -> bool)
    requires
        keep.len() == items.len(),
        forall|i: int| 0 <= i < items.len() ==> keep[i] == pred(#[trigger] items[i]),
    ensures
        kept(items, keep) == items.filter(pred),
    decreases items.len(),
{
    reveal(Seq::filter);
    if items.len() > 0 {
        let rest = items.drop_last();
        assert forall|i: int| 0 <= i < rest.len() implies keep.drop_last()[i] == pred(
            #[trigger] rest[i],
        ) by {
            assert(rest[i] == items[i]);
        }
        lemma_kept_is_filter(rest, keep.drop_last(), pred);
        assert(keep.last() == pred(items[items.len() - 1]));
    }
}

/// The sweep's working state: the nodes in scan order, the edges the
/// scanline meets, and the scanline itself.
pub struct Decomposer {
    pub active_nodes: ActiveNodes,
    pub active_edges: ActiveEdges,
    pub scanline: isize,
}

proof fn lemma_nodes_stay(earlier: Boundary, later: Boundary, ids: Seq<NodeId>)
    requires
        later.extends(earlier),
        all_nodes_in(earlier, ids),
    ensures
        all_nodes_in(later, ids),
        forall|i: int| 0 <= i < ids.len() ==> later.node(#[trigger] ids[i]).point == earlier.node(ids[i]).point,
{
    assert forall|i: int| 0 <= i < ids.len() implies later.has_node(#[trigger] ids[i]) by {
        assert(earlier.has_node(ids[i]));
    }
    assert forall|i: int| 0 <= i < ids.len() implies later.node(#[trigger] ids[i]).point == earlier.node(
        ids[i],
    ).point by {
        assert(earlier.has_node(ids[i]));
        assert(later.nodes[ids[i].index as int].point == earlier.nodes[ids[i].index as int].point);
    }
}

impl Decomposer {
    /// The starting state for `geometry`: every node, in scan order, and no
    /// active edge.
    fn new(geometry: &Geometry) -> (r: Result<Decomposer, DecompErr>)
        ensures
            r matches Ok(d) && {
                &&& is_scan_order(geometry@, d.active_nodes.items@)
                &&& all_nodes_in(geometry@, d.active_nodes.items@)
                &&& d.active_nodes.cursor == 0
                &&& d.active_edges.items@ == Seq::<EdgeId>::empty()
                &&& d.active_edges.cursor == 0
                &&& d.scanline == 0
            },
    {
        let n = geometry.len_nodes();
        let mut ids: Vec<NodeId> = Vec::with_capacity(n);
        let mut i: usize = 0;
        while i < n
            invariant
                n == geometry@.nodes.len(),
                i <= n,
                ids@ == node_ids(i as nat),
            decreases n - i,
        {
            ids.push(NodeId::new(i));
            proof {
                assert(ids@ =~= node_ids((i + 1) as nat));
            }
            i = i + 1;
        }
        let mut active_nodes = ActiveNodes::from_items(ids);
        let capacity = if active_nodes.len() <= usize::MAX / 2 {
            2 * active_nodes.len()
        } else {
            active_nodes.len()
        };
        let active_edges = ActiveEdges::with_capacity(capacity);
        active_nodes.sort(geometry);
        Ok(Decomposer { active_nodes, active_edges, scanline: 0 })
    }

    /// Takes the `y` of the next active node as the scanline.
    fn update_scanline(&mut self, geometry: &Geometry) -> (r: Result<(), DecompErr>)
        requires
            all_nodes_in(geometry@, old(self).active_nodes.items@),
        ensures
            final(self).active_nodes == old(self).active_nodes,
            final(self).active_edges == old(self).active_edges,
            old(self).active_nodes.cursor < old(self).active_nodes.items.len() ==> r is Ok
                && final(self).scanline == geometry@.node(
                old(self).active_nodes.items@[old(self).active_nodes.cursor as int],
            ).point.y,
            old(self).active_nodes.cursor >= old(self).active_nodes.items.len() ==> r
                == Err::<(), DecompErr>(DecompErr::FailedScanlineUpdate),
    {
        match self.active_nodes.scanline(geometry) {
            Some(y) => {
                self.scanline = y;
                Ok(())
            },
            None => Err(DecompErr::FailedScanlineUpdate),
        }
    }

    /// Drops the active edges that the scanline no longer meets.
    fn purge_active_edges(&mut self, geometry: &Geometry)
        requires
            geometry@.wf(),
            all_edges_in(geometry@, old(self).active_edges.items@),
        ensures
            final(self).active_edges.items@ == purge(
                geometry@,
                old(self).active_edges.items@,
                old(self).scanline,
            ),
            final(self).active_nodes == old(self).active_nodes,
            final(self).scanline == old(self).scanline,
            all_edges_in(geometry@, final(self).active_edges.items@),
    {
        let ghost b = geometry@;
        let ghost items = self.active_edges.items@;
        let scanline = self.scanline;
        let ghost pred = |e: EdgeId| b.contains(b.edge(e), scanline as int);
        if self.active_edges.is_empty() {
            proof {
                reveal(Seq::filter);
                assert(items.filter(pred) =~= items);
            }
            return;
        }
        let meets = |id: EdgeId| -> (keep: bool)
            requires
                geometry@.wf(),
                geometry@.has_edge(id),
            ensures
                keep == geometry@.contains(geometry@.edge(id), scanline as int),
            {
                proof {
                    assert(geometry@.holds_ends(geometry@.edges[id.index as int]));
                }
                geometry.edge(id).contains_scanline(geometry, scanline)
            };
        self.active_edges.retain_if(meets);
        proof {
            let keep = choose|keep: Seq<bool>|
                {
                    &&& keep.len() == items.len()
                    &&& forall|i: int|
                        0 <= i < keep.len() ==> meets.ensures((items[i],), #[trigger] keep[i])
                    &&& self.active_edges.items@ == kept(items, keep)
                };
            assert forall|i: int| 0 <= i < items.len() implies keep[i] == pred(#[trigger] items[i]) by {
                assert(meets.ensures((items[i],), keep[i]));
            }
            lemma_kept_is_filter(items, keep, pred);
            assert forall|i: int| 0 <= i < self.active_edges.items@.len() implies b.has_edge(
                #[trigger] self.active_edges.items@[i],
            ) by {
                assert(items.filter(pred).contains(self.active_edges.items@[i]));
                items.lemma_filter_contains_rev(pred, self.active_edges.items@[i]);
            }
        }
    }

    /// Consumes the active nodes that lie on the scanline and inserts their
    /// edges into the active edges, searching from the start.
    fn add_active_edges(&mut self, geometry: &Geometry)
        requires
            geometry@.wf(),
            all_nodes_in(geometry@, old(self).active_nodes.items@),
            all_edges_in(geometry@, old(self).active_edges.items@),
        ensures
            (final(self).active_nodes.cursor as int, final(self).active_edges.items@) == add_active(
                geometry@,
                old(self).active_nodes.items@,
                old(self).active_nodes.cursor as int,
                old(self).active_edges.items@,
                0,
                old(self).scanline,
            ),
            final(self).active_nodes.items@ == old(self).active_nodes.items@,
            final(self).scanline == old(self).scanline,
            all_edges_in(geometry@, final(self).active_edges.items@),
    {
        let ghost b = geometry@;
        let ghost nodes = self.active_nodes.items@;
        let ghost goal = add_active(
            b,
            nodes,
            self.active_nodes.cursor as int,
            self.active_edges.items@,
            0,
            self.scanline,
        );
        self.active_edges.reset_cursor();
        let scanline = self.scanline;
        let on_scanline = |id: NodeId| -> (on: bool)
            requires
                geometry@.has_node(id),
            ensures
                on == (geometry@.node(id).point.y == scanline),
            { geometry.node(id).y() == scanline };
        let mut more = true;
        while more
            invariant
                b == geometry@,
                b.wf(),
                forall|id: NodeId| b.has_node(id) ==> #[trigger] on_scanline.requires((id,)),
                forall|id: NodeId, on: bool|
                    #[trigger] on_scanline.ensures((id,), on) ==> on == (b.node(id).point.y
                        == scanline),
                goal == add_active(
                    b,
                    nodes,
                    old(self).active_nodes.cursor as int,
                    old(self).active_edges.items@,
                    0,
                    old(self).scanline,
                ),
                nodes == old(self).active_nodes.items@,
                scanline == self.scanline,
                scanline == old(self).scanline,
                self.active_nodes.items@ == nodes,
                all_nodes_in(b, nodes),
                all_edges_in(b, self.active_edges.items@),
                more ==> add_active(
                    b,
                    nodes,
                    self.active_nodes.cursor as int,
                    self.active_edges.items@,
                    self.active_edges.cursor as int,
                    scanline,
                ) == goal,
                !more ==> (self.active_nodes.cursor as int, self.active_edges.items@) == goal,
            decreases nodes.len() - self.active_nodes.cursor, if more {
                1int
            } else {
                0int
            },
        {
            let ghost nc = self.active_nodes.cursor as int;
            proof {
                if nc < nodes.len() {
                    assert(b.has_node(nodes[nc]));
                }
            }
            match self.active_nodes.next_if(on_scanline) {
                Some(id) => {
                    proof {
                        assert(b.has_node(nodes[nc]));
                        assert(b.slot_ok(b.nodes[id.index as int].inc_edge.value));
                    }
                    let node = geometry.node(id);
                    self.active_edges.insert_edges(geometry, node.inc_edge(), node.out_edge());
                },
                None => {
                    more = false;
                },
            }
        }
    }

    /// Runs the pairing machine over the active edges from the start until
    /// they are exhausted or it ends the pass, and appends the rectangles it
    /// gives to `rects`.
    fn scan_and_split(&mut self, geometry: &mut Geometry, rects: Vec<Rect>) -> (out: Vec<Rect>)
        requires
            old(geometry)@.wf(),
            all_edges_in(old(geometry)@, old(self).active_edges.items@),
        ensures
            ({
                let (b1, found) = scan_pass(
                    old(geometry)@,
                    old(self).active_edges.items@,
                    0,
                    old(self).scanline,
                );
                final(geometry)@ == b1 && out@ == rects@ + found
            }),
            final(self).active_edges.items@ == old(self).active_edges.items@,
            final(self).active_nodes == old(self).active_nodes,
            final(self).scanline == old(self).scanline,
            final(geometry)@.wf(),
            final(geometry)@.extends(old(geometry)@),
            all_edges_in(final(geometry)@, final(self).active_edges.items@),
    {
        let ghost b0 = geometry@;
        let ghost items = self.active_edges.items@;
        let ghost goal = scan_pass(b0, items, 0, self.scanline);
        self.active_edges.reset_cursor();
        let mut edge_scan = EdgeScans { le: None, re: None, lc: None, rc: None };
        let mut out = rects;
        while !self.active_edges.finished()
            invariant
                b0 == old(geometry)@,
                items == old(self).active_edges.items@,
                goal == scan_pass(b0, items, 0, old(self).scanline),
                self.active_edges.items@ == items,
                self.active_nodes == old(self).active_nodes,
                self.scanline == old(self).scanline,
                geometry@.wf(),
                geometry@.extends(b0),
                all_edges_in(geometry@, items),
                scan_pass(geometry@, items, self.active_edges.cursor as int, self.scanline).0
                    == goal.0,
                out@ + scan_pass(geometry@, items, self.active_edges.cursor as int, self.scanline).1
                    == rects@ + goal.1,
            decreases items.len() - self.active_edges.cursor,
        {
            let ghost b = geometry@;
            let ghost c = self.active_edges.cursor as int;
            proof {
                lemma_scan_step_advances(b, items, c, self.scanline);
            }
            let ghost before = out@;
            match edge_scan.scan_and_split(geometry, &mut self.active_edges, self.scanline) {
                ScanResult::ReturnRects => {
                    proof {
                        assert(out@ + Seq::<Rect>::empty() =~= out@);
                        crate::geometry::lemma_extends_trans(geometry@, b, b0);
                    }
                    return out;
                },
                ScanResult::ContinueLoop(s) => {
                    edge_scan = s;
                },
                ScanResult::NewRect(rect) => {
                    out.push(rect);
                    proof {
                        let rest = scan_pass(geometry@, items, self.active_edges.cursor as int, self.scanline).1;
                        assert(before + (seq![rect] + rest) =~= out@ + rest);
                    }
                },
                ScanResult::ContinueSplit(_) => {},
            }
            proof {
                crate::geometry::lemma_extends_trans(geometry@, b, b0);
            }
        }
        proof {
            assert(out@ + Seq::<Rect>::empty() =~= out@);
        }
        out
    }

    /// The round of the sweep at the current scanline, which must be the
    /// `y` of the node at the cursor: purge, add the nodes on the scanline,
    /// and run the pairing machine, appending its rectangles to `rects`.
    fn sweep_scanline(&mut self, geometry: &mut Geometry, rects: Vec<Rect>) -> (out: Vec<Rect>)
        requires
            old(geometry)@.wf(),
            old(self).active_nodes.cursor < old(self).active_nodes.items.len(),
            all_nodes_in(old(geometry)@, old(self).active_nodes.items@),
            all_edges_in(old(geometry)@, old(self).active_edges.items@),
            old(self).scanline == old(geometry)@.node(
                old(self).active_nodes.items@[old(self).active_nodes.cursor as int],
            ).point.y,
        ensures
            ({
                let (nc1, active, b1, found) = sweep_round(
                    old(geometry)@,
                    old(self).active_nodes.items@,
                    old(self).active_nodes.cursor as int,
                    old(self).active_edges.items@,
                );
                &&& final(self).active_nodes.cursor == nc1
                &&& final(self).active_edges.items@ == active
                &&& final(geometry)@ == b1
                &&& out@ == rects@ + found
            }),
            final(self).active_nodes.items@ == old(self).active_nodes.items@,
            final(geometry)@.wf(),
            final(geometry)@.extends(old(geometry)@),
            all_edges_in(final(geometry)@, final(self).active_edges.items@),
    {
        self.purge_active_edges(geometry);
        self.add_active_edges(geometry);
        self.scan_and_split(geometry, rects)
    }

    /// Decomposes the simple rectilinear polygon through `points`, given in
    /// clockwise order, into rectangles by a sweep upwards. Three points are
    /// already simple and fewer are not enough; otherwise the rectangles come
    /// in sweep order, as [`sweep`] describes, with the nodes taken in scan
    /// order.
    pub fn decompose(points: Vec<Point>) -> (r: Result<Vec<Rect>, DecompErr>)
        ensures
            points.len() > 3 ==> (r matches Ok(rects) && exists|order: Seq<NodeId>|
                is_scan_order(initial_boundary(points@), order) && rects@ == sweep(
                    initial_boundary(points@),
                    order,
                    0,
                    Seq::empty(),
                )),
            points.len() == 3 ==> r matches Err(DecompErr::IsAlreadySimple),
            points.len() < 3 ==> r matches Err(DecompErr::NotEnoughPoints),
    {
        let ghost pts = points@;
        let mut geometry = match Geometry::new(points) {
            Ok(g) => g,
            Err(e) => {
                return Err(e);
            },
        };
        let mut decomposer = match Decomposer::new(&geometry) {
            Ok(d) => d,
            Err(e) => {
                return Err(e);
            },
        };
        let ghost b0 = geometry@;
        let ghost order = decomposer.active_nodes.items@;
        proof {
            vstd::seq_lib::to_multiset_len(order);
            vstd::seq_lib::to_multiset_len(node_ids(b0.nodes.len()));
            assert(order.len() == b0.nodes.len());
        }
        let mut rects: Vec<Rect> = Vec::with_capacity(geometry.len_nodes());
        let mut done = false;
        while !done
            invariant
                b0 == initial_boundary(pts),
                is_scan_order(b0, order),
                order.len() == b0.nodes.len(),
                order.len() > 3,
                decomposer.active_nodes.items@ == order,
                geometry@.wf(),
                geometry@.extends(b0),
                all_nodes_in(b0, order),
                all_edges_in(geometry@, decomposer.active_edges.items@),
                !done ==> decomposer.active_nodes.cursor < order.len(),
                !done ==> rects@ + sweep(
                    geometry@,
                    order,
                    decomposer.active_nodes.cursor as int,
                    decomposer.active_edges.items@,
                ) == sweep(b0, order, 0, Seq::empty()),
                done ==> rects@ == sweep(b0, order, 0, Seq::empty()),
            decreases order.len() - decomposer.active_nodes.cursor, if done {
                0int
            } else {
                1int
            },
        {
            let ghost b = geometry@;
            let ghost nc = decomposer.active_nodes.cursor as int;
            let ghost items = decomposer.active_edges.items@;
            proof {
                lemma_nodes_stay(b0, b, order);
            }
            match decomposer.update_scanline(&geometry) {
                Ok(()) => {},
                Err(e) => {
                    return Err(e);
                },
            }
            let ghost active = sweep_round(b, order, nc, items).1;
            let ghost nc1 = sweep_round(b, order, nc, items).0;
            proof {
                lemma_sweep_ends(b, order, nc, items);
                assert(nc < nc1 <= order.len());
            }
            let ghost before = rects@;
            rects = decomposer.sweep_scanline(&mut geometry, rects);
            proof {
                crate::geometry::lemma_extends_trans(geometry@, b, b0);
                let found = sweep_round(b, order, nc, items).3;
                if nc1 < order.len() {
                    assert(before + (found + sweep(geometry@, order, nc1, active)) =~= rects@ + sweep(
                        geometry@,
                        order,
                        nc1,
                        active,
                    ));
                }
            }
            if decomposer.active_nodes.finished() {
                done = true;
            }
        }
        proof {
            assert(is_scan_order(initial_boundary(pts), order));
        }
        Ok(rects)
    }
}

} // verus!
